use dungeon_core::grid::create_base_terrain;
use dungeon_core::objectives::{current_resource_amount, owner_heart_destroyed, set_defeat, set_victory};
use dungeon_core::scenario::ActionPointDefinition;
use dungeon_core::scenario_events::{action_points_reached, reveal_all_tiles};
use dungeon_core::tiles::{FogState, OwnerId, TilePos};
use dungeon_core::world::{HeroBaseState, PlayerUnlocks};
use dungeon_core::world::{
    CreatureState, Dungeon, Entity, EntityType, GameState, NoticeLevel, PlayerState, StructureState,
};

fn new_state() -> GameState {
    GameState {
        dungeon: Dungeon { grid: create_base_terrain(16, 16), width: 16, height: 16 },
        entities: Vec::new(),
        rooms: Vec::new(),
        rival_keepers: Vec::new(),
        player: PlayerState { gold: 120, mana: 45, max_mana: 100, food: 7, materials: 3, claimed_tile_count: 0 },
        dungeon_heart_health: 100,
        paused: false,
        game_over: false,
        victory: false,
        cheat_fog_enabled: true,
        cheat_immortal_heart: false,
        notifications: Vec::new(),
        time_elapsed_ms: 0,
        active_scenario_id: None,
        scenario_runtime: None,
        unlocks: PlayerUnlocks { rooms: Vec::new(), spells: Vec::new(), traps: Vec::new() },
        campaign_progress: None,
        hero_base: HeroBaseState { enabled: false, buildings: Vec::new() },
    }
}

fn heart(id: u64, owner: OwnerId, health: i32) -> Entity {
    Entity {
        id,
        pos: TilePos::new(3, 3),
        owner,
        health,
        entity_type: EntityType::Structure(StructureState { building_id: "dungeon_heart".to_string(), health: 100 }),
    }
}

fn walker(id: u64, x: i32, y: i32, owner: OwnerId) -> Entity {
    Entity {
        id,
        pos: TilePos::new(x, y),
        owner,
        health: 10,
        entity_type: EntityType::Creature(CreatureState {
            creature_id: "goblin".to_string(),
            level: 1,
            current_task: None,
            current_path: None,
            move_timer_ms: 0,
            move_interval_ms: 500,
            task_time_ms: 0,
        }),
    }
}

#[test]
fn hearts_fall_when_health_runs_out() {
    let mut state = new_state();
    assert!(!owner_heart_destroyed(&OwnerId::Player, &state));
    state.dungeon_heart_health = 0;
    assert!(owner_heart_destroyed(&OwnerId::Player, &state));

    let rival = OwnerId::RivalKeeper(2);
    // A keeper without a heart has not lost one.
    assert!(!owner_heart_destroyed(&rival, &state));
    state.entities.push(heart(1, rival, 0));
    assert!(owner_heart_destroyed(&rival, &state));
    state.entities.push(heart(2, rival, 5));
    assert!(!owner_heart_destroyed(&rival, &state));
}

#[test]
fn resource_amounts_by_name() {
    let state = new_state();
    assert_eq!(current_resource_amount(&state, "gold"), 120);
    assert_eq!(current_resource_amount(&state, "mana"), 45);
    assert_eq!(current_resource_amount(&state, "food"), 7);
    assert_eq!(current_resource_amount(&state, "materials"), 3);
    assert_eq!(current_resource_amount(&state, "souls"), 0);
}

#[test]
fn victory_and_defeat_end_the_game() {
    let mut state = new_state();
    set_victory(&mut state, "VICTORY! Scenario objectives completed!");
    assert!(state.game_over && state.victory);
    assert_eq!(state.notifications.len(), 1);
    assert_eq!(state.notifications[0].level, NoticeLevel::Success);
    let mut state = new_state();
    set_defeat(&mut state, "DEFEAT! Your Dungeon Heart was destroyed!");
    assert!(state.game_over && !state.victory);
    assert_eq!(state.notifications[0].level, NoticeLevel::Danger);
    assert_eq!(state.notifications[0].message, "DEFEAT! Your Dungeon Heart was destroyed!");
}

#[test]
fn action_points_are_reached_by_matching_owners() {
    let mut state = new_state();
    state.entities.push(walker(1, 12, 10, OwnerId::Player));
    state.entities.push(walker(2, 12, 10, OwnerId::Heroes));
    state.entities.push(walker(3, 13, 10, OwnerId::Player));
    let points = vec![
        ActionPointDefinition { id: "frontier".to_string(), x: 12, y: 10, radius: 0, owner: Some(OwnerId::Player) },
        ActionPointDefinition { id: "ford".to_string(), x: 12, y: 11, radius: 1, owner: None },
    ];
    let reached = action_points_reached(&state, &points);
    assert_eq!(
        reached,
        vec![
            ("frontier".to_string(), OwnerId::Player),
            ("ford".to_string(), OwnerId::Player),
            ("ford".to_string(), OwnerId::Heroes),
        ]
    );
}

#[test]
fn revealing_lifts_all_fog() {
    let mut state = new_state();
    state.dungeon.grid[2][2].marked_for_dig = true;
    reveal_all_tiles(&mut state);
    assert!(state.dungeon.grid.iter().flatten().all(|t| t.fog_state == FogState::Visible));
    assert!(state.dungeon.grid[2][2].marked_for_dig);
    reveal_all_tiles(&mut state);
    assert!(state.dungeon.grid.iter().flatten().all(|t| t.fog_state == FogState::Visible));
}
