use dungeon_core::grid::create_base_terrain;
use dungeon_core::rival_keeper::{
    assign_defenders_to_threat, dig_expansion, execute_keeper_decision, expansion_candidates,
    find_owned_spawn_tile, find_room_site, is_near_owned_tile, launch_heart_raid,
    missing_desired_room, nearest_owned_distance, nearest_threat_position, owner_has_room,
    place_room, plan_rival_keepers, square_side_for_tiles, update_rival_keeper_ai, KeeperAction,
};
use dungeon_core::tiles::{OwnerId, Ownership, TilePos};
use dungeon_core::world::{HeroBaseState, PlayerUnlocks};
use dungeon_core::world::{
    CreatureState, Dungeon, Entity, EntityType, GameState, PlayerState, RivalKeeperAiState, Task,
};

const RIVAL: OwnerId = OwnerId::RivalKeeper(1);

fn keeper() -> RivalKeeperAiState {
    RivalKeeperAiState {
        owner: RIVAL,
        ai_profile: "aggressive".to_string(),
        desired_rooms: vec!["lair".to_string()],
        preferred_creatures: vec!["goblin".to_string()],
        min_garrison: 3,
        raid_size: 2,
        dig_batch: 2,
        room_size: 2,
        next_decision_time_ms: 10_000,
        next_attack_time_ms: 60_000,
        attack_cooldown_ms: 45_000,
        attack_cooldown_growth_permille: 1_500,
        first_attack_delay_ms: 60_000,
    }
}

fn new_state(width: usize, height: usize) -> GameState {
    let grid = create_base_terrain(width, height);
    GameState {
        dungeon: Dungeon { grid, width, height },
        entities: Vec::new(),
        rooms: Vec::new(),
        rival_keepers: vec![keeper()],
        player: PlayerState {
            gold: 1000,
            mana: 100,
            max_mana: 200,
            food: 0,
            materials: 0,
            claimed_tile_count: 0,
        },
        dungeon_heart_health: 100,
        paused: false,
        game_over: false,
        victory: false,
        cheat_fog_enabled: true,
        cheat_immortal_heart: false,
        notifications: Vec::new(),
        time_elapsed_ms: 0,
        active_scenario_id: None,
        scenario_runtime: None,
        unlocks: PlayerUnlocks { rooms: Vec::new(), spells: Vec::new(), traps: Vec::new() },
        campaign_progress: None,
        hero_base: HeroBaseState { enabled: false, buildings: Vec::new() },
    }
}

fn set_tile(state: &mut GameState, pos: TilePos, tile_type: &str, owner: OwnerId) {
    let tile = &mut state.dungeon.grid[pos.y as usize][pos.x as usize];
    tile.tile_type = tile_type.to_string();
    tile.resources_remaining = None;
    tile.room_id = None;
    tile.marked_for_dig = false;
    tile.set_owner(owner);
}

fn place_player_heart(state: &mut GameState, pos: TilePos) {
    set_tile(state, pos, "dungeon_heart", OwnerId::Player);
}

fn creature(id: u64, pos: TilePos, owner: OwnerId, kind: &str) -> Entity {
    Entity {
        id,
        pos,
        owner,
        health: 50,
        entity_type: EntityType::Creature(CreatureState {
            creature_id: kind.to_string(),
            level: 1,
            current_task: None,
            current_path: None,
            move_timer_ms: 0,
            move_interval_ms: 500,
            task_time_ms: 0,
        }),
    }
}

fn task_of(e: &Entity) -> Option<Task> {
    match &e.entity_type {
        EntityType::Creature(c) => c.current_task,
        _ => None,
    }
}

fn walkable() -> Vec<String> {
    vec!["claimed_floor".to_string(), "floor".to_string(), "lair".to_string()]
}

fn diggable() -> Vec<String> {
    vec!["earth".to_string(), "gold_vein".to_string()]
}

#[test]
fn rival_keeper_plan_requests_reinforcements() {
    let mut state = new_state(20, 20);
    state.rival_keepers[0].desired_rooms.clear();
    state.dungeon.grid[1][1].set_owner(RIVAL);

    let plans = plan_rival_keepers(&state);
    assert!(plans[0].wants_reinforcements);

    let known = vec!["goblin".to_string()];
    state.rival_keepers[0].next_decision_time_ms = 0;
    let mut acts =
        update_rival_keeper_ai(&mut state, 1_000, &walkable(), &diggable(), &known, &vec![]);
    assert_eq!(acts.len(), 1);
    let (index, action) = acts.remove(0);
    assert_eq!(index, 0);
    match action {
        KeeperAction::Reinforce(creature_id, pos) => {
            assert_eq!(creature_id, "goblin");
            assert_eq!(pos, TilePos::new(1, 1));
        }
        other => panic!("expected a reinforcement, got {:?}", other),
    }
}

#[test]
fn rival_keeper_launches_attack_when_garrison_is_ready() {
    let mut state = new_state(20, 20);
    state.rival_keepers[0].next_attack_time_ms = 0;
    state.rival_keepers[0].desired_rooms.clear();
    state.dungeon.grid[1][1].set_owner(RIVAL);
    let heart_pos = TilePos::new(15, 15);
    place_player_heart(&mut state, heart_pos);
    let min_garrison = state.rival_keepers[0].min_garrison;
    let raid_size = state.rival_keepers[0].raid_size;
    for offset in 0..min_garrison {
        state.entities.push(creature(
            offset as u64,
            TilePos::new(1 + offset as i32, 1),
            RIVAL,
            "goblin",
        ));
    }
    assert_eq!(state.find_dungeon_heart_position(), Some(heart_pos));

    let plans = plan_rival_keepers(&state);
    assert!(plans[0].wants_attack);
    state.rival_keepers[0].next_decision_time_ms = 0;
    let acts = update_rival_keeper_ai(&mut state, 1_000, &walkable(), &diggable(), &vec![], &vec![]);
    assert_eq!(acts.len(), 1);
    assert!(matches!(acts[0].1, KeeperAction::Raid));

    let attackers = state
        .entities
        .iter()
        .filter(|e| e.owner == RIVAL)
        .filter(|e| task_of(e) == Some(Task::MoveTo(heart_pos)))
        .count();
    assert_eq!(attackers, raid_size);
    assert!(state.rival_keepers[0].next_attack_time_ms > 0);
}

#[test]
fn rival_keeper_first_attack_waits_for_grace_period_then_gaps_grow() {
    let mut state = new_state(20, 20);

    // The opening raid is gated by the grace period, not the repeat cooldown
    let keeper = &state.rival_keepers[0];
    assert_eq!(keeper.next_attack_time_ms, keeper.first_attack_delay_ms);
    assert!(keeper.first_attack_delay_ms > keeper.attack_cooldown_ms);

    // Force a raid and check the cooldown escalates for the next one
    state.rival_keepers[0].next_decision_time_ms = 0;
    state.rival_keepers[0].next_attack_time_ms = 0;
    state.rival_keepers[0].desired_rooms.clear();
    state.dungeon.grid[1][1].set_owner(RIVAL);
    place_player_heart(&mut state, TilePos::new(15, 15));
    let min_garrison = state.rival_keepers[0].min_garrison;
    let cooldown_before = state.rival_keepers[0].attack_cooldown_ms;
    let growth = state.rival_keepers[0].attack_cooldown_growth_permille;
    assert!(growth > 1_000);
    for offset in 0..min_garrison {
        state.entities.push(creature(
            offset as u64,
            TilePos::new(1 + offset as i32, 1),
            RIVAL,
            "goblin",
        ));
    }

    update_rival_keeper_ai(&mut state, 1_000, &walkable(), &diggable(), &vec![], &vec![]);

    let keeper = &state.rival_keepers[0];
    assert_eq!(keeper.attack_cooldown_ms, cooldown_before * growth as i64 / 1_000);
    assert_eq!(keeper.next_attack_time_ms, keeper.attack_cooldown_ms);
}

#[test]
fn keeper_timers_tick_and_cooldown_is_capped() {
    let mut state = new_state(20, 20);
    state.rival_keepers[0].next_decision_time_ms = 5_000;
    state.rival_keepers[0].next_attack_time_ms = 500;
    let acts = update_rival_keeper_ai(&mut state, 1_000, &walkable(), &diggable(), &vec![], &vec![]);
    assert!(acts.is_empty());
    assert_eq!(state.rival_keepers[0].next_decision_time_ms, 4_000);
    assert_eq!(state.rival_keepers[0].next_attack_time_ms, 0);

    // A due keeper starts its decision timer over.
    let acts = update_rival_keeper_ai(&mut state, 4_000, &walkable(), &diggable(), &vec![], &vec![]);
    assert_eq!(acts.len(), 1);
    assert_eq!(state.rival_keepers[0].next_decision_time_ms, 10_000);

    // The gap between raids never exceeds ten minutes.
    state.rival_keepers[0].attack_cooldown_ms = 500_000;
    state.rival_keepers[0].next_attack_time_ms = 0;
    state.rival_keepers[0].next_decision_time_ms = 0;
    state.rival_keepers[0].desired_rooms.clear();
    state.dungeon.grid[1][1].set_owner(RIVAL);
    place_player_heart(&mut state, TilePos::new(15, 15));
    for offset in 0..state.rival_keepers[0].min_garrison {
        state.entities.push(creature(
            offset as u64,
            TilePos::new(1 + offset as i32, 1),
            RIVAL,
            "goblin",
        ));
    }
    let acts = update_rival_keeper_ai(&mut state, 1_000, &walkable(), &diggable(), &vec![], &vec![]);
    assert!(matches!(acts[0].1, KeeperAction::Raid));
    assert_eq!(state.rival_keepers[0].attack_cooldown_ms, 600_000);
    assert_eq!(state.rival_keepers[0].next_attack_time_ms, 600_000);
}

#[test]
fn rival_keeper_digs_owned_expansion() {
    let mut state = new_state(20, 20);
    place_player_heart(&mut state, TilePos::new(15, 15));
    let owned = TilePos::new(2, 2);
    let target = TilePos::new(3, 2);
    set_tile(&mut state, owned, "claimed_floor", RIVAL);
    set_tile(&mut state, target, "earth", OwnerId::Neutral);
    set_tile(&mut state, TilePos::new(1, 2), "bedrock", OwnerId::Neutral);
    set_tile(&mut state, TilePos::new(2, 1), "bedrock", OwnerId::Neutral);
    set_tile(&mut state, TilePos::new(2, 3), "bedrock", OwnerId::Neutral);

    assert!(dig_expansion(&mut state, &walkable(), &diggable(), RIVAL, 1));

    let tile = state.dungeon.get_tile(target).expect("target should exist");
    assert_eq!(tile.tile_type, "claimed_floor");
    assert_eq!(tile.owner, RIVAL);
}

#[test]
fn rival_keeper_places_desired_room_on_owned_floor() {
    let mut state = new_state(20, 20);
    let room_tiles = [
        TilePos::new(2, 2),
        TilePos::new(3, 2),
        TilePos::new(2, 3),
        TilePos::new(3, 3),
    ];
    for pos in room_tiles {
        set_tile(&mut state, pos, "claimed_floor", RIVAL);
    }

    assert!(place_room(&mut state, RIVAL, "lair", Some(4), 2));

    for pos in room_tiles {
        let tile = state.dungeon.get_tile(pos).expect("room tile should exist");
        assert_eq!(tile.tile_type, "lair");
        assert_eq!(tile.owner, RIVAL);
        assert_eq!(tile.ownership, Ownership::Enemy);
    }
}

#[test]
fn rival_keeper_defends_owned_area_against_nearby_threat() {
    let mut state = new_state(20, 20);
    set_tile(&mut state, TilePos::new(2, 2), "claimed_floor", RIVAL);
    state.entities.push(creature(1, TilePos::new(2, 2), RIVAL, "goblin"));
    let threat_pos = TilePos::new(3, 2);
    state.entities.push(creature(2, threat_pos, OwnerId::Player, "goblin"));

    let k = keeper();
    assert!(assign_defenders_to_threat(&mut state, &k));

    let defenders = state
        .entities
        .iter()
        .filter(|e| e.owner == RIVAL)
        .filter(|e| task_of(e) == Some(Task::MoveTo(threat_pos)))
        .count();
    assert_eq!(defenders, 1);
}

#[test]
fn square_side_is_the_ceiling_of_the_square_root() {
    assert_eq!(square_side_for_tiles(0), 0);
    assert_eq!(square_side_for_tiles(1), 1);
    assert_eq!(square_side_for_tiles(4), 2);
    assert_eq!(square_side_for_tiles(5), 3);
    assert_eq!(square_side_for_tiles(9), 3);
    assert_eq!(square_side_for_tiles(10), 4);
}

#[test]
fn nearest_owned_distance_and_threat_radius() {
    let mut state = new_state(30, 30);
    assert_eq!(nearest_owned_distance(&state, RIVAL, TilePos::new(5, 5)), None);
    set_tile(&mut state, TilePos::new(4, 4), "claimed_floor", RIVAL);
    set_tile(&mut state, TilePos::new(10, 4), "claimed_floor", RIVAL);
    assert_eq!(nearest_owned_distance(&state, RIVAL, TilePos::new(9, 6)), Some(3));
    assert!(is_near_owned_tile(&state, RIVAL, TilePos::new(11, 10), 7));
    assert!(!is_near_owned_tile(&state, RIVAL, TilePos::new(20, 20), 7));

    // Only hostile entities within 7 tiles count; the nearest wins.
    state.entities.push(creature(1, TilePos::new(20, 20), OwnerId::Player, "goblin"));
    state.entities.push(creature(2, TilePos::new(4, 9), OwnerId::Neutral, "goblin"));
    assert_eq!(nearest_threat_position(&state, RIVAL), None);
    state.entities.push(creature(3, TilePos::new(10, 10), OwnerId::Heroes, "knight"));
    state.entities.push(creature(4, TilePos::new(5, 6), OwnerId::Player, "goblin"));
    assert_eq!(nearest_threat_position(&state, RIVAL), Some(TilePos::new(5, 6)));
}

#[test]
fn missing_rooms_are_found_in_order() {
    let mut state = new_state(20, 20);
    let desired = vec!["lair".to_string(), "hatchery".to_string()];
    assert_eq!(missing_desired_room(&state, RIVAL, &desired), Some("lair".to_string()));
    set_tile(&mut state, TilePos::new(5, 5), "lair", RIVAL);
    assert!(owner_has_room(&state, RIVAL, "lair"));
    assert_eq!(missing_desired_room(&state, RIVAL, &desired), Some("hatchery".to_string()));
    set_tile(&mut state, TilePos::new(6, 5), "hatchery", RIVAL);
    assert_eq!(missing_desired_room(&state, RIVAL, &desired), None);
    // A room tile of the player does not count for the keeper.
    set_tile(&mut state, TilePos::new(7, 5), "library", OwnerId::Player);
    assert!(!owner_has_room(&state, OwnerId::Player, "library"));
}

#[test]
fn placed_room_is_then_held() {
    let mut state = new_state(20, 20);
    for y in 4..7 {
        for x in 4..7 {
            set_tile(&mut state, TilePos::new(x, y), "claimed_floor", RIVAL);
        }
    }
    assert!(!owner_has_room(&state, RIVAL, "lair"));
    assert!(place_room(&mut state, RIVAL, "lair", Some(9), 1));
    assert!(owner_has_room(&state, RIVAL, "lair"));
    assert_eq!(missing_desired_room(&state, RIVAL, &vec!["lair".to_string()]), None);
}

#[test]
fn room_sites_scan_rows_first_and_need_owned_floor() {
    let mut state = new_state(20, 20);
    assert_eq!(find_room_site(&state, RIVAL, 2), None);
    for pos in [(8, 3), (9, 3), (8, 4), (9, 4), (2, 6), (3, 6), (2, 7), (3, 7)] {
        set_tile(&mut state, TilePos::new(pos.0, pos.1), "claimed_floor", RIVAL);
    }
    let site = find_room_site(&state, RIVAL, 2).expect("a site");
    assert_eq!(
        site,
        vec![TilePos::new(8, 3), TilePos::new(9, 3), TilePos::new(8, 4), TilePos::new(9, 4)]
    );
    assert_eq!(find_room_site(&state, RIVAL, 3), None);
    // Unknown room types are never placed.
    assert!(!place_room(&mut state, RIVAL, "mystery", None, 2));
}

#[test]
fn expansion_candidates_are_diggable_neutral_neighbours() {
    let mut state = new_state(20, 20);
    set_tile(&mut state, TilePos::new(5, 5), "claimed_floor", RIVAL);
    set_tile(&mut state, TilePos::new(6, 5), "claimed_floor", RIVAL);
    set_tile(&mut state, TilePos::new(5, 4), "earth", OwnerId::Player);
    let mut cands = expansion_candidates(&state, &walkable(), &diggable(), RIVAL);
    cands.sort_by_key(|p| (p.y, p.x));
    assert_eq!(
        cands,
        vec![
            TilePos::new(6, 4),
            TilePos::new(4, 5),
            TilePos::new(7, 5),
            TilePos::new(5, 6),
            TilePos::new(6, 6),
        ]
    );
}

#[test]
fn dig_expansion_takes_the_candidates_nearest_the_heart() {
    let mut state = new_state(20, 20);
    place_player_heart(&mut state, TilePos::new(10, 5));
    set_tile(&mut state, TilePos::new(5, 5), "claimed_floor", RIVAL);
    assert!(dig_expansion(&mut state, &walkable(), &diggable(), RIVAL, 2));
    // Nearest the heart: (6, 5) at 4, then (5, 4) and (5, 6) at 6, the upper first.
    assert_eq!(state.dungeon.grid[5][6].tile_type, "claimed_floor");
    assert_eq!(state.dungeon.grid[4][5].tile_type, "claimed_floor");
    assert_eq!(state.dungeon.grid[6][5].tile_type, "earth");
    assert_eq!(state.dungeon.grid[5][4].tile_type, "earth");
}

#[test]
fn no_heart_no_digging_and_no_raid() {
    let mut state = new_state(20, 20);
    set_tile(&mut state, TilePos::new(5, 5), "claimed_floor", RIVAL);
    state.entities.push(creature(1, TilePos::new(5, 5), RIVAL, "goblin"));
    assert!(!dig_expansion(&mut state, &walkable(), &diggable(), RIVAL, 2));
    assert_eq!(state.dungeon.grid[5][6].tile_type, "earth");
    assert!(!launch_heart_raid(&mut state, RIVAL, 3));
    assert_eq!(task_of(&state.entities[0]), None);
}

#[test]
fn raids_skip_creatures_already_marching() {
    let mut state = new_state(20, 20);
    let heart = TilePos::new(15, 15);
    place_player_heart(&mut state, heart);
    for i in 0..3 {
        state.entities.push(creature(i, TilePos::new(2 + i as i32, 2), RIVAL, "goblin"));
    }
    assert!(launch_heart_raid(&mut state, RIVAL, 2));
    assert_eq!(task_of(&state.entities[0]), Some(Task::MoveTo(heart)));
    assert_eq!(task_of(&state.entities[1]), Some(Task::MoveTo(heart)));
    assert_eq!(task_of(&state.entities[2]), None);
    assert!(launch_heart_raid(&mut state, RIVAL, 2));
    assert_eq!(task_of(&state.entities[2]), Some(Task::MoveTo(heart)));
    assert!(!launch_heart_raid(&mut state, RIVAL, 2));
}

#[test]
fn keeper_decisions_follow_their_order() {
    let mut state = new_state(20, 20);
    place_player_heart(&mut state, TilePos::new(15, 15));
    for y in 3..5 {
        for x in 3..5 {
            set_tile(&mut state, TilePos::new(x, y), "claimed_floor", RIVAL);
        }
    }
    for i in 0..3 {
        state.entities.push(creature(i, TilePos::new(3, 3), RIVAL, "goblin"));
    }
    let mins = vec![("lair".to_string(), 4u32)];
    // The keeper lacks its lair and has room for one: it builds it.
    let action = execute_keeper_decision(&mut state, 0, &walkable(), &diggable(), &vec![], &mins);
    assert!(matches!(action, KeeperAction::BuildRoom));
    assert_eq!(state.dungeon.grid[3][3].tile_type, "lair");
    // Garrison full, attack timer running: it digs.
    let action = execute_keeper_decision(&mut state, 0, &walkable(), &diggable(), &vec![], &mins);
    assert!(matches!(action, KeeperAction::Dig));
    // A threat near its tiles comes first.
    state.entities.push(creature(9, TilePos::new(6, 4), OwnerId::Player, "goblin"));
    let action = execute_keeper_decision(&mut state, 0, &walkable(), &diggable(), &vec![], &mins);
    assert!(matches!(action, KeeperAction::Defend));
    assert_eq!(find_owned_spawn_tile(&state, RIVAL), Some(TilePos::new(3, 3)));
}
