use dungeon_core::action_processor::{
    int_to_text, process_actions, process_single_action, InteractionMode, PendingAction, UiAction,
};
use dungeon_core::grid::create_base_terrain;
use dungeon_core::tiles::{Ownership, TilePos};
use dungeon_core::world::{HeroBaseState, PlayerUnlocks};
use dungeon_core::world::{Dungeon, GameState, NoticeLevel, PlayerState};

fn new_state() -> GameState {
    GameState {
        dungeon: Dungeon { grid: create_base_terrain(12, 10), width: 12, height: 10 },
        entities: Vec::new(),
        rooms: Vec::new(),
        rival_keepers: Vec::new(),
        player: PlayerState { gold: 100, mana: 10, max_mana: 50, food: 0, materials: 0, claimed_tile_count: 0 },
        dungeon_heart_health: 100,
        paused: false,
        game_over: false,
        victory: false,
        cheat_fog_enabled: true,
        cheat_immortal_heart: false,
        notifications: Vec::new(),
        time_elapsed_ms: 0,
        active_scenario_id: None,
        scenario_runtime: None,
        unlocks: PlayerUnlocks { rooms: Vec::new(), spells: Vec::new(), traps: Vec::new() },
        campaign_progress: None,
        hero_base: HeroBaseState { enabled: false, buildings: Vec::new() },
    }
}

#[test]
fn integers_are_written_in_decimal() {
    assert_eq!(int_to_text(0), "0");
    assert_eq!(int_to_text(7), "7");
    assert_eq!(int_to_text(1000), "1000");
    assert_eq!(int_to_text(-42), "-42");
    assert_eq!(int_to_text(i32::MIN), "-2147483648");
    assert_eq!(int_to_text(i32::MAX), "2147483647");
}

#[test]
fn pausing_clears_tools_and_selection() {
    let mut state = new_state();
    let mut spell = Some("lightning".to_string());
    let r = process_single_action(UiAction::TogglePause, &mut state, &mut spell);
    assert!(state.paused);
    assert!(matches!(r.new_mode, Some(InteractionMode::Idle)));
    assert!(r.deselect_entity);
    assert!(r.deselect_room);
    assert!(r.pending.is_none());
    assert!(spell.is_none());

    let mut spell = Some("heal".to_string());
    let r = process_single_action(UiAction::TogglePause, &mut state, &mut spell);
    assert!(!state.paused);
    assert!(r.new_mode.is_none());
    assert!(!r.deselect_entity);
    assert_eq!(spell, Some("heal".to_string()));
}

#[test]
fn gold_cheat_adds_gold_and_tells_the_player() {
    let mut state = new_state();
    let mut spell = None;
    let r = process_single_action(UiAction::CheatAddGold(1000), &mut state, &mut spell);
    assert_eq!(state.player.gold, 1100);
    assert!(r.pending.is_none());
    assert_eq!(state.notifications.len(), 1);
    assert_eq!(state.notifications[0].message, "Added 1000 Gold");
    assert_eq!(state.notifications[0].level, NoticeLevel::Success);
}

#[test]
fn fog_and_heart_cheats_toggle_with_messages() {
    let mut state = new_state();
    let mut spell = None;
    process_single_action(UiAction::CheatToggleFog, &mut state, &mut spell);
    assert!(!state.cheat_fog_enabled);
    assert_eq!(state.notifications[0].message, "Fog Disabled (Map Revealed)");
    assert_eq!(state.notifications[0].level, NoticeLevel::Warning);
    process_single_action(UiAction::CheatToggleFog, &mut state, &mut spell);
    assert!(state.cheat_fog_enabled);
    assert_eq!(state.notifications[1].message, "Fog Enabled");
    assert_eq!(state.notifications[1].level, NoticeLevel::Info);

    process_single_action(UiAction::CheatToggleImmortalHeart, &mut state, &mut spell);
    assert!(state.cheat_immortal_heart);
    assert_eq!(state.notifications[2].message, "Immortal Heart ENABLED");
    process_single_action(UiAction::CheatToggleImmortalHeart, &mut state, &mut spell);
    assert!(!state.cheat_immortal_heart);
    assert_eq!(state.notifications[3].message, "Immortal Heart DISABLED");
    assert_eq!(state.notifications[3].level, NoticeLevel::Warning);
}

#[test]
fn instant_dig_turns_rock_into_player_floor() {
    let mut state = new_state();
    let mut spell = None;
    let pos = TilePos::new(5, 5);
    let idx = 5usize;
    state.dungeon.grid[idx][idx].marked_for_dig = true;
    let before = state.dungeon.grid[idx][idx].tile_type.clone();
    assert_ne!(before, "floor");
    process_single_action(UiAction::CheatInstantDig(pos), &mut state, &mut spell);
    let t = &state.dungeon.grid[idx][idx];
    assert_eq!(t.tile_type, "floor");
    assert_eq!(t.ownership, Ownership::Player);
    assert!(!t.marked_for_dig);

    // A floor tile is left alone, and so is a position off the map.
    state.dungeon.grid[2][3].tile_type = "claimed_floor".to_string();
    process_single_action(UiAction::CheatInstantDig(TilePos::new(3, 2)), &mut state, &mut spell);
    assert_eq!(state.dungeon.grid[2][3].tile_type, "claimed_floor");
    process_single_action(UiAction::CheatInstantDig(TilePos::new(-1, 40)), &mut state, &mut spell);
}

#[test]
fn research_save_and_load_are_left_to_the_caller_in_order() {
    let mut state = new_state();
    let mut spell = None;
    let mut mode = InteractionMode::Dig;
    let mut queue = vec![
        UiAction::StartResearch("alchemy".to_string()),
        UiAction::SaveGame,
        UiAction::CheatAddGold(-30),
        UiAction::LoadGame,
    ];
    let pending = process_actions(&mut queue, &mut state, &mut mode, &mut spell);
    assert!(queue.is_empty());
    assert_eq!(pending.len(), 3);
    assert!(matches!(&pending[0], PendingAction::StartResearch(t) if t == "alchemy"));
    assert!(matches!(pending[1], PendingAction::SaveGame));
    assert!(matches!(pending[2], PendingAction::LoadGame));
    assert_eq!(state.player.gold, 70);
    assert_eq!(state.notifications[0].message, "Added -30 Gold");
    assert!(matches!(mode, InteractionMode::Dig));
}

#[test]
fn the_last_mode_change_wins() {
    let mut state = new_state();
    let mut spell = Some("fireball".to_string());
    let mut mode = InteractionMode::BuildRoom("library".to_string());
    let mut queue = vec![UiAction::TogglePause, UiAction::TogglePause, UiAction::CheatToggleFog];
    let pending = process_actions(&mut queue, &mut state, &mut mode, &mut spell);
    assert!(pending.is_empty());
    assert!(matches!(mode, InteractionMode::Idle));
    assert!(!state.paused);
    assert!(spell.is_none());
    assert!(!state.cheat_fog_enabled);
}

#[test]
fn pausing_twice_restores_the_state() {
    let mut state = new_state();
    let mut spell = None;
    let gold = state.player.gold;
    process_single_action(UiAction::TogglePause, &mut state, &mut spell);
    process_single_action(UiAction::TogglePause, &mut state, &mut spell);
    assert!(!state.paused);
    assert_eq!(state.player.gold, gold);
    assert!(state.notifications.is_empty());
}
