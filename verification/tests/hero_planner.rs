use dungeon_core::data::{GameData, TileData};
use dungeon_core::grid::create_base_terrain;
use dungeon_core::hero_ai::{HeroGoal, HeroGoalProfile};
use dungeon_core::hero_planner::{
    apply_path_result, find_emergency_wander_target, find_hero_path, find_wander_target,
    is_tile_walkable_for_hero, run_hero_turn,
    update_hero_ai, update_hero_fleeing,
};
use dungeon_core::tiles::{OwnerId, TilePos};
use dungeon_core::world::{
    CreatureState, Dungeon, Entity, EntityType, GameState, HeroBaseState, HeroState, PlayerState,
    PlayerUnlocks, ResourcePile, Room,
};

fn data() -> GameData {
    GameData {
        tiles: vec![
            TileData { id: "earth".to_string(), blocks_movement: true, diggable: true },
            TileData { id: "solid_rock".to_string(), blocks_movement: true, diggable: false },
            TileData { id: "floor".to_string(), blocks_movement: false, diggable: false },
            TileData { id: "floor".to_string(), blocks_movement: true, diggable: false },
        ],
        monsters: Vec::new(),
        heroes: Vec::new(),
        technologies: Vec::new(),
        hero_buildings: Vec::new(),
        spawn_triggers: Vec::new(),
        scenarios: Vec::new(),
        campaigns: Vec::new(),
    }
}

fn open_state() -> GameState {
    let mut grid = create_base_terrain(30, 30);
    for row in grid.iter_mut().take(29).skip(1) {
        for tile in row.iter_mut().take(29).skip(1) {
            tile.tile_type = "floor".to_string();
        }
    }
    GameState {
        dungeon: Dungeon { grid, width: 30, height: 30 },
        entities: Vec::new(),
        rooms: Vec::new(),
        rival_keepers: Vec::new(),
        player: PlayerState { gold: 0, mana: 0, max_mana: 0, food: 0, materials: 0, claimed_tile_count: 0 },
        dungeon_heart_health: 100,
        paused: false,
        game_over: false,
        victory: false,
        cheat_fog_enabled: true,
        cheat_immortal_heart: false,
        notifications: Vec::new(),
        time_elapsed_ms: 0,
        active_scenario_id: None,
        scenario_runtime: None,
        unlocks: PlayerUnlocks { rooms: Vec::new(), spells: Vec::new(), traps: Vec::new() },
        campaign_progress: None,
        hero_base: HeroBaseState { enabled: false, buildings: Vec::new() },
    }
}

fn hero(goal: HeroGoal) -> HeroState {
    HeroState {
        hero_id: "thief".to_string(),
        gold_stolen: 0,
        kills: 0,
        is_defender: false,
        spawn_pos: TilePos::new(20, 20),
        current_goal: goal,
        target_pos: None,
        target_room_id: None,
        current_path: None,
        can_dig: false,
        is_fleeing: false,
        is_digging: false,
        dig_timer_ms: 0,
        max_dig_time_ms: 2_000,
        move_timer_ms: 0,
        move_interval_ms: 500,
        is_captured: false,
        is_converted: false,
        conversion_progress_permille: 0,
        max_health: 30,
    }
}

fn creature(id: u64, x: i32, y: i32, level: u32) -> Entity {
    Entity {
        id,
        pos: TilePos::new(x, y),
        owner: OwnerId::Player,
        health: 10,
        entity_type: EntityType::Creature(CreatureState {
            creature_id: "goblin".to_string(),
            level,
            current_task: None,
            current_path: None,
            move_timer_ms: 0,
            move_interval_ms: 500,
            task_time_ms: 0,
        }),
    }
}

fn square_room(id: usize, kind: &str, x0: i32, y0: i32) -> Room {
    let mut tiles = Vec::new();
    for y in y0..y0 + 3 {
        for x in x0..x0 + 3 {
            tiles.push(TilePos::new(x, y));
        }
    }
    Room::new(id, kind.to_string(), tiles)
}

#[test]
fn hero_walkability_follows_the_first_tile_kind() {
    let mut state = open_state();
    let d = data();
    assert!(is_tile_walkable_for_hero(TilePos::new(5, 5), &state, &d));
    assert!(!is_tile_walkable_for_hero(TilePos::new(0, 5), &state, &d));
    assert!(!is_tile_walkable_for_hero(TilePos::new(-1, 5), &state, &d));
    state.dungeon.grid[5][6].tile_type = "hero_wall".to_string();
    state.dungeon.grid[5][7].tile_type = "hero_gate".to_string();
    state.dungeon.grid[5][8].tile_type = "town_hall".to_string();
    assert!(!is_tile_walkable_for_hero(TilePos::new(6, 5), &state, &d));
    assert!(!is_tile_walkable_for_hero(TilePos::new(7, 5), &state, &d));
    assert!(is_tile_walkable_for_hero(TilePos::new(8, 5), &state, &d));
}

#[test]
fn defenders_rest_at_their_spawn() {
    let state = open_state();
    let mut h = hero(HeroGoal::Explore);
    h.is_defender = true;
    h.target_room_id = Some(3);
    let to = update_hero_ai(TilePos::new(20, 20), &mut h, None, false, false, &state, &data());
    assert_eq!(h.current_goal, HeroGoal::RestAtSpawn(TilePos::new(20, 20)));
    assert_eq!(h.target_room_id, None);
    // Any spot chosen to wander to is near the spawn, walkable and not where it stands.
    if let Some(t) = h.target_pos {
        assert!((t.x - 20).abs() <= 5 && (t.y - 20).abs() <= 5);
        assert_ne!(t, TilePos::new(20, 20));
        assert_eq!(to, Some(t));
    } else {
        assert_eq!(to, None);
    }
}

#[test]
fn a_lost_hero_reconsiders_its_goal_and_heads_for_the_heart() {
    let mut state = open_state();
    state.rooms.push(square_room(4, "dungeon_heart", 10, 10));
    let mut h = hero(HeroGoal::Explore);
    // Unknown hero data: the hero goes for the heart.
    let to = update_hero_ai(TilePos::new(2, 2), &mut h, None, false, false, &state, &data());
    assert_eq!(h.current_goal, HeroGoal::DestroyHeart);
    assert_eq!(h.target_room_id, Some(4));
    let t = h.target_pos.unwrap();
    assert!(state.rooms[0].tiles.contains(&t));
    assert_eq!(to, Some(t));
}

#[test]
fn an_attacker_without_a_heart_room_heads_for_the_heart_tile() {
    let mut state = open_state();
    state.dungeon.grid[12][9].tile_type = "dungeon_heart".to_string();
    state.dungeon.grid[12][9].ownership = dungeon_core::tiles::Ownership::Player;
    let mut h = hero(HeroGoal::DestroyHeart);
    let to = update_hero_ai(TilePos::new(2, 2), &mut h, None, false, false, &state, &data());
    assert_eq!(h.target_room_id, None);
    assert_eq!(h.target_pos, Some(TilePos::new(9, 12)));
    assert_eq!(to, Some(TilePos::new(9, 12)));
}

#[test]
fn thieves_go_for_gold_in_sight() {
    let mut state = open_state();
    state.entities.push(Entity {
        id: 5,
        pos: TilePos::new(6, 4),
        owner: OwnerId::Neutral,
        health: 1,
        entity_type: EntityType::ResourcePile(ResourcePile { resource_type: "gold".to_string(), amount: 50 }),
    });
    let profile = HeroGoalProfile {
        tier: 1,
        primary_goal: "steal_gold".to_string(),
        secondary_goals: Vec::new(),
        will_fight_to_death: false,
    };
    let mut h = hero(HeroGoal::Explore);
    let to = update_hero_ai(TilePos::new(3, 3), &mut h, Some(&profile), true, false, &state, &data());
    assert!(matches!(h.current_goal, HeroGoal::StealGold(_)));
    assert_eq!(h.target_pos, Some(TilePos::new(6, 4)));
    assert_eq!(to, Some(TilePos::new(6, 4)));
}

#[test]
fn a_hero_on_its_target_has_arrived() {
    let state = open_state();
    let mut h = hero(HeroGoal::DestroyHeart);
    h.target_pos = Some(TilePos::new(7, 7));
    h.target_room_id = Some(2);
    h.current_path = Some(vec![TilePos::new(7, 7)]);
    let to = update_hero_ai(TilePos::new(7, 7), &mut h, None, false, false, &state, &data());
    assert_eq!(to, None);
    assert_eq!(h.target_pos, None);
    assert_eq!(h.target_room_id, None);
    assert!(h.current_path.is_none());
    assert_eq!(h.current_goal, HeroGoal::DestroyHeart);
}

#[test]
fn a_hero_with_a_path_keeps_going() {
    let state = open_state();
    let mut h = hero(HeroGoal::DestroyHeart);
    h.target_pos = Some(TilePos::new(9, 9));
    h.current_path = Some(vec![TilePos::new(8, 8), TilePos::new(9, 9)]);
    let to = update_hero_ai(TilePos::new(7, 7), &mut h, None, false, false, &state, &data());
    assert_eq!(to, None);
    assert_eq!(h.target_pos, Some(TilePos::new(9, 9)));
    assert_eq!(h.current_path.as_ref().unwrap().len(), 2);
}

#[test]
fn found_paths_are_taken_and_lost_diggers_wander() {
    let state = open_state();
    let mut h = hero(HeroGoal::DestroyHeart);
    h.target_pos = Some(TilePos::new(9, 9));
    apply_path_result(TilePos::new(7, 7), &mut h, Some(vec![TilePos::new(8, 8)]), &state);
    assert_eq!(h.current_path, Some(vec![TilePos::new(8, 8)]));
    assert_eq!(h.target_pos, Some(TilePos::new(9, 9)));

    let mut h = hero(HeroGoal::DestroyHeart);
    h.target_pos = Some(TilePos::new(9, 9));
    apply_path_result(TilePos::new(7, 7), &mut h, None, &state);
    assert_eq!(h.target_pos, Some(TilePos::new(9, 9)));

    h.can_dig = true;
    apply_path_result(TilePos::new(7, 7), &mut h, None, &state);
    let t = h.target_pos.unwrap();
    assert!((t.x - 7).abs() <= 3 && (t.y - 7).abs() <= 3);
}

#[test]
fn wander_spots_stay_near_and_walkable() {
    let state = open_state();
    let d = data();
    for _ in 0..20 {
        if let Some(t) = find_wander_target(TilePos::new(3, 3), TilePos::new(3, 3), &state, &d) {
            assert!((t.x - 3).abs() <= 5 && (t.y - 3).abs() <= 5);
            assert!(is_tile_walkable_for_hero(t, &state, &d));
            assert_ne!(t, TilePos::new(3, 3));
        }
        if let Some(t) = find_emergency_wander_target(TilePos::new(1, 1), &state) {
            assert!((t.x - 1).abs() <= 3 && (t.y - 1).abs() <= 3);
            assert!(t.x >= 0 && t.y >= 0);
        }
    }
}

#[test]
fn heroes_flee_overwhelming_odds() {
    let mut state = open_state();
    let mut h = hero(HeroGoal::DestroyHeart);
    update_hero_fleeing(TilePos::new(10, 10), &mut h, true, &state);
    assert!(!h.is_fleeing);
    // One strong creature nearby: a high threat.
    state.entities.push(creature(1, 11, 10, 5));
    update_hero_fleeing(TilePos::new(10, 10), &mut h, false, &state);
    assert!(!h.is_fleeing);
    update_hero_fleeing(TilePos::new(10, 10), &mut h, true, &state);
    assert!(h.is_fleeing);
    // Seven weak creatures and no strong one: overwhelming.
    state.entities.clear();
    for i in 0..7 {
        state.entities.push(creature(10 + i, 10, 11, 1));
    }
    update_hero_fleeing(TilePos::new(10, 10), &mut h, false, &state);
    assert!(h.is_fleeing);
}

#[test]
fn hero_paths_dig_through_earth_only_for_diggers() {
    let mut state = open_state();
    // A wall of earth across the map, one row thick.
    for x in 0..30 {
        state.dungeon.grid[10][x].tile_type = "earth".to_string();
    }
    let gd = data();
    let from = TilePos::new(5, 5);
    let to = TilePos::new(5, 15);
    assert_eq!(find_hero_path(&state, &gd, from, to, false), None);
    let path = find_hero_path(&state, &gd, from, to, true).expect("a digger gets through");
    assert_eq!(path.len(), 10);
    assert_eq!(path.last(), Some(&to));
    // The heart is always open to heroes.
    state.dungeon.grid[10][5].tile_type = "dungeon_heart".to_string();
    assert_eq!(find_hero_path(&state, &gd, from, to, false).map(|p| p.len()), Some(10));
}

#[test]
fn a_hero_turn_plans_finds_a_path_and_decides_to_flee() {
    let mut state = open_state();
    let gd = data();
    let mut h = hero(HeroGoal::DestroyHeart);
    h.target_pos = Some(TilePos::new(15, 5));
    run_hero_turn(TilePos::new(5, 5), &mut h, None, false, false, true, &state, &gd);
    assert_eq!(h.current_goal, HeroGoal::DestroyHeart);
    assert_eq!(h.target_pos, Some(TilePos::new(15, 5)));
    let path = h.current_path.clone().expect("an open map has a path");
    assert_eq!(path.len(), 10);
    assert_eq!(path.last(), Some(&TilePos::new(15, 5)));
    assert!(!h.is_fleeing);

    // With a path already there, no new one is looked for; a strong creature
    // next to a hero that wants to retreat makes it flee.
    state.entities.push(creature(1, 6, 5, 5));
    let before = h.current_path.clone();
    run_hero_turn(TilePos::new(5, 5), &mut h, None, false, false, true, &state, &gd);
    assert_eq!(h.current_path, before);
    assert!(h.is_fleeing);
    run_hero_turn(TilePos::new(5, 5), &mut h, None, false, false, false, &state, &gd);
    assert!(!h.is_fleeing);
}

#[test]
fn a_digging_hero_walks_round_a_short_wall_rather_than_dig() {
    let mut state = open_state();
    let gd = data();
    state.dungeon.grid[10][5].tile_type = "earth".to_string();
    let from = TilePos::new(5, 5);
    let to = TilePos::new(5, 15);
    let path = find_hero_path(&state, &gd, from, to, true).expect("a way round");
    assert_eq!(path.len(), 12);
    assert!(!path.contains(&TilePos::new(5, 10)));
    assert_eq!(path.last(), Some(&to));
}
