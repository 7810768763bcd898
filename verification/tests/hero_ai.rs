use dungeon_core::grid::create_base_terrain;
use dungeon_core::hero_ai::{
    calculate_distance, calculate_gold_target, calculate_kill_target, calculate_room_distance_factor,
    choose_secondary_goal, decide_hero_goal, evaluate_threat, find_entrance_room,
    find_best_room_by_priority, find_nearby_gold_pile, find_room_by_type, find_room_with_creatures,
    find_target_room, find_unexplored_room, is_dungeon_heart_alive, HeroGoal, HeroGoalProfile,
    ThreatLevel,
};
use dungeon_core::tiles::{FogState, OwnerId, TilePos};
use dungeon_core::world::{HeroBaseState, PlayerUnlocks};
use dungeon_core::world::{
    CreatureState, Dungeon, Entity, EntityType, GameState, PlayerState, ResourcePile, Room,
};

fn new_state() -> GameState {
    GameState {
        dungeon: Dungeon { grid: create_base_terrain(30, 30), width: 30, height: 30 },
        entities: Vec::new(),
        rooms: Vec::new(),
        rival_keepers: Vec::new(),
        player: PlayerState { gold: 0, mana: 0, max_mana: 0, food: 0, materials: 0, claimed_tile_count: 0 },
        dungeon_heart_health: 100,
        paused: false,
        game_over: false,
        victory: false,
        cheat_fog_enabled: true,
        cheat_immortal_heart: false,
        notifications: Vec::new(),
        time_elapsed_ms: 0,
        active_scenario_id: None,
        scenario_runtime: None,
        unlocks: PlayerUnlocks { rooms: Vec::new(), spells: Vec::new(), traps: Vec::new() },
        campaign_progress: None,
        hero_base: HeroBaseState { enabled: false, buildings: Vec::new() },
    }
}

fn creature(id: u64, x: i32, y: i32, kind: &str, level: u32) -> Entity {
    Entity {
        id,
        pos: TilePos::new(x, y),
        owner: OwnerId::Player,
        health: 30,
        entity_type: EntityType::Creature(CreatureState {
            creature_id: kind.to_string(),
            level,
            current_task: None,
            current_path: None,
            move_timer_ms: 0,
            move_interval_ms: 500,
            task_time_ms: 0,
        }),
    }
}

fn gold_pile(id: u64, x: i32, y: i32) -> Entity {
    Entity {
        id,
        pos: TilePos::new(x, y),
        owner: OwnerId::Neutral,
        health: 1,
        entity_type: EntityType::ResourcePile(ResourcePile { resource_type: "gold".to_string(), amount: 50 }),
    }
}

fn room(id: usize, kind: &str, tiles: Vec<(i32, i32)>) -> Room {
    Room::new(id, kind.to_string(), tiles.into_iter().map(|(x, y)| TilePos::new(x, y)).collect())
}

fn profile(tier: u32, primary: &str, secondary: &[&str], fights_to_death: bool) -> HeroGoalProfile {
    HeroGoalProfile {
        tier,
        primary_goal: primary.to_string(),
        secondary_goals: secondary.iter().map(|s| s.to_string()).collect(),
        will_fight_to_death: fights_to_death,
    }
}

#[test]
fn threat_levels_follow_the_counts() {
    let hero = TilePos::new(10, 10);
    let mut state = new_state();
    assert_eq!(evaluate_threat(hero, &state), ThreatLevel::Safe);
    state.entities.push(creature(1, 12, 10, "goblin", 1));
    assert_eq!(evaluate_threat(hero, &state), ThreatLevel::Moderate);
    // Far away creatures do not count.
    state.entities.push(creature(2, 20, 20, "troll", 5));
    assert_eq!(evaluate_threat(hero, &state), ThreatLevel::Moderate);
    // One strong creature nearby makes it high.
    state.entities.push(creature(3, 10, 16, "troll", 1));
    assert_eq!(evaluate_threat(hero, &state), ThreatLevel::High);
    // Three strong creatures are too many for "high" unless the crowd is
    // between four and six strong.
    state.entities.push(creature(4, 9, 10, "demon_spawn", 1));
    state.entities.push(creature(5, 8, 10, "imp", 3));
    assert_eq!(evaluate_threat(hero, &state), ThreatLevel::High);
    for i in 6..9 {
        state.entities.push(creature(i, 10, 10, "imp", 1));
    }
    assert_eq!(evaluate_threat(hero, &state), ThreatLevel::Overwhelming);
}

#[test]
fn many_weak_creatures_are_high_then_overwhelming() {
    let hero = TilePos::new(10, 10);
    let mut state = new_state();
    for i in 0..4 {
        state.entities.push(creature(i, 10 + i as i32, 10, "imp", 1));
    }
    assert_eq!(evaluate_threat(hero, &state), ThreatLevel::High);
    for i in 4..7 {
        state.entities.push(creature(i, 10, 10 + i as i32 - 3, "imp", 1));
    }
    assert_eq!(evaluate_threat(hero, &state), ThreatLevel::Overwhelming);
    // Piles of gold are no threat.
    let mut calm = new_state();
    calm.entities.push(gold_pile(1, 10, 10));
    assert_eq!(evaluate_threat(hero, &calm), ThreatLevel::Safe);
}

#[test]
fn distances_are_manhattan() {
    assert_eq!(calculate_distance(TilePos::new(1, 2), TilePos::new(4, -2)), 7);
    let r = room(0, "lair", vec![(10, 10), (11, 10)]);
    assert_eq!(calculate_room_distance_factor(TilePos::new(10, 12), &r), 5);
    assert_eq!(calculate_room_distance_factor(TilePos::new(0, 0), &r), 20);
    assert_eq!(calculate_room_distance_factor(TilePos::new(100, 100), &r), 30);
    assert_eq!(calculate_room_distance_factor(TilePos::new(0, 0), &room(1, "lair", vec![])), 30);
}

#[test]
fn rooms_are_found_by_type_and_heart() {
    let mut state = new_state();
    assert!(!is_dungeon_heart_alive(&state));
    state.rooms.push(room(4, "lair", vec![(3, 3)]));
    state.rooms.push(room(7, "dungeon_heart", vec![(5, 5)]));
    state.rooms.push(room(9, "dungeon_heart", vec![(6, 6)]));
    assert!(is_dungeon_heart_alive(&state));
    assert_eq!(find_room_by_type(&state, "dungeon_heart"), Some(7));
    assert_eq!(find_room_by_type(&state, "library"), None);
}

#[test]
fn unexplored_rooms_have_hidden_tiles() {
    let mut state = new_state();
    assert_eq!(find_unexplored_room(&state), None);
    for row in state.dungeon.grid.iter_mut() {
        for tile in row.iter_mut() {
            tile.fog_state = FogState::Visible;
        }
    }
    state.rooms.push(room(1, "lair", vec![(2, 2)]));
    state.rooms.push(room(2, "lair", vec![(4, 4), (4, 5)]));
    assert_eq!(find_unexplored_room(&state), Some(1));
    state.dungeon.grid[5][4].fog_state = FogState::Hidden;
    assert_eq!(find_unexplored_room(&state), Some(2));
}

#[test]
fn nearest_visible_gold_pile() {
    let hero = TilePos::new(10, 10);
    let mut state = new_state();
    state.entities.push(gold_pile(1, 20, 20));
    assert_eq!(find_nearby_gold_pile(hero, &state), None);
    state.entities.push(gold_pile(2, 14, 10));
    state.entities.push(gold_pile(3, 10, 13));
    state.entities.push(gold_pile(4, 13, 10));
    assert_eq!(find_nearby_gold_pile(hero, &state), Some(TilePos::new(10, 13)));
}

#[test]
fn creature_rooms_favour_size_per_distance() {
    let hero = TilePos::new(0, 0);
    let mut state = new_state();
    let types = vec!["lair".to_string(), "training_hall".to_string()];
    assert_eq!(find_room_with_creatures(hero, &types, &state), None);
    state.rooms.push(room(1, "lair", vec![(20, 20), (21, 20)]));
    state.rooms.push(room(2, "treasury", vec![(1, 1), (1, 2), (2, 1)]));
    state.rooms.push(room(3, "training_hall", vec![(3, 3), (3, 4)]));
    state.rooms.push(room(4, "lair", vec![]));
    assert_eq!(find_room_with_creatures(hero, &types, &state), Some(3));
    state.rooms.push(room(5, "lair", vec![(2, 2), (2, 3), (3, 2), (4, 4)]));
    assert_eq!(find_room_with_creatures(hero, &types, &state), Some(5));
}

#[test]
fn preferred_rooms_are_the_nearest_of_their_type() {
    let hero = TilePos::new(0, 0);
    let mut state = new_state();
    state.rooms.push(room(1, "treasury", vec![(25, 25)]));
    state.rooms.push(room(2, "treasury", vec![(10, 10)]));
    state.rooms.push(room(3, "treasury", vec![(12, 8)]));
    assert_eq!(find_best_room_by_priority(hero, true, "treasury", &state), Some(2));
    assert_eq!(find_best_room_by_priority(hero, false, "treasury", &state), None);
    assert_eq!(find_best_room_by_priority(hero, true, "library", &state), None);
}

#[test]
fn entrance_room_is_nearest_the_origin() {
    let mut state = new_state();
    assert_eq!(find_entrance_room(&state), None);
    state.rooms.push(room(1, "lair", vec![(10, 10), (12, 10)]));
    state.rooms.push(room(2, "lair", vec![]));
    state.rooms.push(room(3, "lair", vec![(2, 9), (4, 9)]));
    state.rooms.push(room(4, "lair", vec![(9, 3)]));
    assert_eq!(find_entrance_room(&state), Some(3));
}

#[test]
fn tier_targets() {
    assert_eq!(calculate_gold_target(1), 100);
    assert_eq!(calculate_gold_target(4), 1000);
    assert_eq!(calculate_gold_target(9), 500);
    assert_eq!(calculate_kill_target(2), 8);
    assert_eq!(calculate_kill_target(5), 50);
    assert_eq!(calculate_kill_target(0), 10);
}

#[test]
fn secondary_goals_pick_the_first_open_one() {
    let p = profile(1, "destroy_heart", &["dance", "steal_gold", "kill_creatures"], false);
    assert_eq!(choose_secondary_goal(0, 0, &p), HeroGoal::StealGold(100));
    assert_eq!(choose_secondary_goal(100, 0, &p), HeroGoal::KillCreatures(3));
    assert_eq!(choose_secondary_goal(100, 3, &p), HeroGoal::Explore);
}

#[test]
fn hero_goals_follow_nerve_threat_and_mission() {
    let hero = TilePos::new(10, 10);
    let mut state = new_state();
    let thief = profile(2, "steal_gold", &["explore"], false);
    assert_eq!(decide_hero_goal(hero, 0, 0, None, true, &state), HeroGoal::DestroyHeart);
    assert_eq!(decide_hero_goal(hero, 0, 0, Some(&thief), true, &state), HeroGoal::Retreat);
    assert_eq!(decide_hero_goal(hero, 0, 0, Some(&thief), false, &state), HeroGoal::StealGold(250));
    assert_eq!(decide_hero_goal(hero, 300, 0, Some(&thief), false, &state), HeroGoal::Explore);
    let sieger = profile(3, "destroy_heart", &["kill_creatures"], true);
    assert_eq!(decide_hero_goal(hero, 0, 0, Some(&sieger), false, &state), HeroGoal::KillCreatures(15));
    state.rooms.push(room(1, "dungeon_heart", vec![(5, 5)]));
    assert_eq!(decide_hero_goal(hero, 0, 0, Some(&sieger), false, &state), HeroGoal::DestroyHeart);
    for i in 0..3 {
        state.entities.push(creature(i, 10 + i as i32, 11, "troll", 1));
    }
    // Overwhelming odds break a hero unless it fights to the death.
    assert_eq!(decide_hero_goal(hero, 0, 0, Some(&sieger), false, &state), HeroGoal::DestroyHeart);
    assert_eq!(decide_hero_goal(hero, 0, 0, Some(&thief), false, &state), HeroGoal::Retreat);
}

#[test]
fn target_rooms_follow_the_goal() {
    let hero = TilePos::new(0, 0);
    let mut state = new_state();
    state.rooms.push(room(1, "dungeon_heart", vec![(15, 15)]));
    state.rooms.push(room(2, "lair", vec![(3, 3)]));
    state.rooms.push(room(3, "treasury", vec![(5, 5)]));
    assert_eq!(find_target_room(hero, HeroGoal::DestroyHeart, true, &state), Some(1));
    assert_eq!(find_target_room(hero, HeroGoal::StealGold(100), true, &state), Some(3));
    assert_eq!(find_target_room(hero, HeroGoal::KillCreatures(3), true, &state), Some(2));
    assert_eq!(find_target_room(hero, HeroGoal::SabotageRoom(42), true, &state), Some(42));
    assert_eq!(find_target_room(hero, HeroGoal::RestAtSpawn(hero), true, &state), None);
    assert_eq!(find_target_room(hero, HeroGoal::Retreat, true, &state), Some(2));
    assert_eq!(find_target_room(hero, HeroGoal::Explore, true, &state), Some(1));
}
