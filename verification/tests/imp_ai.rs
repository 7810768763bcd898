use dungeon_core::grid::create_base_terrain;
use dungeon_core::imp_ai::{
    collect_targeted_tiles, complete_dig, find_entity_index, find_nearest_marked_tile,
    imp_ids, process_idle_imp, remove_tile, update_imp_digging, update_targeted_tiles,
    wander_randomly, ImpAction,
};
use dungeon_core::movement::process_entity_movement;
use dungeon_core::tiles::{OwnerId, Ownership, TilePos};
use dungeon_core::world::{HeroBaseState, PlayerUnlocks};
use dungeon_core::world::{CreatureState, Dungeon, Entity, EntityType, GameState, PlayerState};

fn dungeon() -> Dungeon {
    Dungeon { grid: create_base_terrain(20, 20), width: 20, height: 20 }
}

fn player() -> PlayerState {
    PlayerState { gold: 10, mana: 5, max_mana: 30, food: 0, materials: 0, claimed_tile_count: 0 }
}

fn state_with(entities: Vec<Entity>) -> GameState {
    GameState {
        dungeon: dungeon(),
        entities,
        rooms: Vec::new(),
        rival_keepers: Vec::new(),
        player: player(),
        dungeon_heart_health: 100,
        paused: false,
        game_over: false,
        victory: false,
        cheat_fog_enabled: true,
        cheat_immortal_heart: false,
        notifications: Vec::new(),
        time_elapsed_ms: 0,
        active_scenario_id: None,
        scenario_runtime: None,
        unlocks: PlayerUnlocks { rooms: Vec::new(), spells: Vec::new(), traps: Vec::new() },
        campaign_progress: None,
        hero_base: HeroBaseState { enabled: false, buildings: Vec::new() },
    }
}

fn imp(id: u64, x: i32, y: i32, path: Option<Vec<TilePos>>) -> Entity {
    Entity {
        id,
        pos: TilePos::new(x, y),
        owner: OwnerId::Player,
        health: 10,
        entity_type: EntityType::Creature(CreatureState {
            creature_id: "imp".to_string(),
            level: 1,
            current_task: None,
            current_path: path,
            move_timer_ms: 0,
            move_interval_ms: 500,
            task_time_ms: 0,
        }),
    }
}

fn sorted(mut v: Vec<TilePos>) -> Vec<TilePos> {
    v.sort_by_key(|p| (p.x, p.y));
    v
}

#[test]
fn targeted_tiles_are_path_ends_or_idle_positions() {
    let state = state_with(vec![
        imp(1, 1, 1, None),
        imp(2, 2, 2, Some(vec![TilePos::new(3, 2), TilePos::new(4, 2)])),
        imp(3, 5, 5, Some(vec![])),
        imp(4, 6, 6, Some(vec![TilePos::new(4, 2)])),
    ]);
    assert_eq!(find_entity_index(&state, 3), Some(2));
    assert_eq!(find_entity_index(&state, 99), None);
    let targeted = collect_targeted_tiles(&state, &vec![1, 2, 3, 4, 99]);
    assert_eq!(sorted(targeted), vec![TilePos::new(1, 1), TilePos::new(4, 2)]);
}

#[test]
fn updating_targets_adds_the_imp_and_its_path_end() {
    let state = state_with(vec![imp(7, 2, 2, Some(vec![TilePos::new(9, 9)]))]);
    let mut targeted = vec![TilePos::new(1, 1)];
    update_targeted_tiles(&state, 7, TilePos::new(2, 2), &mut targeted);
    update_targeted_tiles(&state, 7, TilePos::new(2, 2), &mut targeted);
    assert_eq!(
        sorted(targeted),
        vec![TilePos::new(1, 1), TilePos::new(2, 2), TilePos::new(9, 9)]
    );
}

#[test]
fn nearest_marked_tile_skips_targets_and_saves_gem_seams_for_last() {
    let mut d = dungeon();
    let imp_pos = TilePos::new(10, 10);
    assert_eq!(find_nearest_marked_tile(&d, imp_pos, &vec![]), None);
    d.grid[10][11].marked_for_dig = true;
    d.grid[10][11].tile_type = "gem_seam".to_string();
    d.grid[10][14].marked_for_dig = true;
    d.grid[13][10].marked_for_dig = true;
    assert_eq!(find_nearest_marked_tile(&d, imp_pos, &vec![]), Some(TilePos::new(10, 13)));
    // Another imp already heads for (10, 13).
    let targeted = vec![TilePos::new(10, 13)];
    assert_eq!(find_nearest_marked_tile(&d, imp_pos, &targeted), Some(TilePos::new(14, 10)));
    // Its own tile is never excluded.
    d.grid[10][10].marked_for_dig = true;
    assert_eq!(find_nearest_marked_tile(&d, imp_pos, &vec![imp_pos]), Some(imp_pos));
}

#[test]
fn digging_a_gold_vein_pays_and_claims_the_tile() {
    let mut d = dungeon();
    let mut p = player();
    let pos = TilePos::new(4, 4);
    d.grid[4][4].tile_type = "gold_vein".to_string();
    d.grid[4][4].resources_remaining = Some(30);
    d.grid[4][4].marked_for_dig = true;
    complete_dig(&mut d, &mut p, pos);
    assert_eq!(p.gold, 40);
    assert_eq!(p.claimed_tile_count, 1);
    let t = &d.grid[4][4];
    assert_eq!(t.tile_type, "claimed_floor");
    assert_eq!(t.ownership, Ownership::Player);
    assert!(!t.marked_for_dig);
    assert_eq!(t.resources_remaining, None);
    // Digging it again changes nothing.
    complete_dig(&mut d, &mut p, pos);
    assert_eq!(p.gold, 40);
    assert_eq!(p.claimed_tile_count, 1);
}

#[test]
fn gem_seams_stay_marked_and_pay_every_time() {
    let mut d = dungeon();
    let mut p = player();
    let pos = TilePos::new(6, 6);
    d.grid[6][6].tile_type = "gem_seam".to_string();
    d.grid[6][6].marked_for_dig = true;
    complete_dig(&mut d, &mut p, pos);
    complete_dig(&mut d, &mut p, pos);
    assert_eq!(p.gold, 60);
    assert_eq!(p.claimed_tile_count, 0);
    assert!(d.grid[6][6].marked_for_dig);
    assert_eq!(d.grid[6][6].tile_type, "gem_seam");
}

#[test]
fn mana_crystals_fill_mana_up_to_the_maximum() {
    let mut d = dungeon();
    let mut p = player();
    p.mana = 25;
    d.grid[3][3].tile_type = "mana_crystal".to_string();
    d.grid[3][3].marked_for_dig = true;
    complete_dig(&mut d, &mut p, TilePos::new(3, 3));
    assert_eq!(p.mana, 30);
    // Unmarked or off-grid tiles are left alone.
    complete_dig(&mut d, &mut p, TilePos::new(8, 8));
    complete_dig(&mut d, &mut p, TilePos::new(-1, 50));
    assert_eq!(p.claimed_tile_count, 1);
    // Plain earth is claimed for nothing.
    d.grid[8][8].marked_for_dig = true;
    complete_dig(&mut d, &mut p, TilePos::new(8, 8));
    assert_eq!(p.gold, 10);
    assert_eq!(d.grid[8][8].tile_type, "claimed_floor");
}

fn task_time(e: &Entity) -> u64 {
    match &e.entity_type {
        EntityType::Creature(c) => c.task_time_ms,
        _ => panic!("not a creature"),
    }
}

fn floors() -> Vec<String> {
    vec!["claimed_floor".to_string()]
}

#[test]
fn an_imp_on_its_marked_tile_digs_it_out_after_two_seconds() {
    let mut state = state_with(vec![imp(1, 4, 4, None)]);
    state.dungeon.grid[4][4].marked_for_dig = true;
    let targeted = vec![TilePos::new(4, 4)];
    let a = process_idle_imp(&mut state, 1, TilePos::new(4, 4), &targeted, 1_500, &floors());
    assert!(matches!(a, ImpAction::Digging));
    assert_eq!(task_time(&state.entities[0]), 1_500);
    let a = process_idle_imp(&mut state, 1, TilePos::new(4, 4), &targeted, 500, &floors());
    assert!(matches!(a, ImpAction::Dug(p) if p == TilePos::new(4, 4)));
    assert_eq!(task_time(&state.entities[0]), 0);
    assert_eq!(state.dungeon.grid[4][4].tile_type, "claimed_floor");
    assert_eq!(state.dungeon.grid[4][4].ownership, Ownership::Player);
}

#[test]
fn an_imp_away_from_its_marked_tile_asks_for_a_path() {
    let mut state = state_with(vec![imp(1, 2, 2, None)]);
    if let EntityType::Creature(c) = &mut state.entities[0].entity_type {
        c.task_time_ms = 700;
    }
    state.dungeon.grid[6][3].marked_for_dig = true;
    let a = process_idle_imp(&mut state, 1, TilePos::new(2, 2), &Vec::new(), 100, &floors());
    match a {
        ImpAction::PathTo { target, include_marked } => {
            assert_eq!(target, TilePos::new(3, 6));
            assert!(include_marked);
        }
        other => panic!("expected a path request, got {:?}", other),
    }
    assert_eq!(task_time(&state.entities[0]), 0);
}

#[test]
fn an_idle_imp_without_work_wanders_nearby_or_stays() {
    let mut state = state_with(vec![imp(1, 10, 10, None)]);
    // No floor anywhere: nowhere to wander.
    let a = process_idle_imp(&mut state, 1, TilePos::new(10, 10), &Vec::new(), 100, &floors());
    assert!(matches!(a, ImpAction::Idle));
    // All earth counts as walkable here: any target lies near the imp.
    let earth = vec!["earth".to_string()];
    for _ in 0..20 {
        if let Some(t) = wander_randomly(&state.dungeon, TilePos::new(10, 10), &earth) {
            assert!(t != TilePos::new(10, 10));
            assert!((-15..=5).contains(&(t.x - 10)) && (-15..=5).contains(&(t.y - 10)));
        }
    }
}

#[test]
fn walkers_step_along_their_path_once_per_interval() {
    let mut es = vec![imp(3, 1, 1, Some(vec![TilePos::new(2, 1), TilePos::new(3, 1)]))];
    assert_eq!(process_entity_movement(&mut es, 3, 300), None);
    assert_eq!(es[0].pos, TilePos::new(1, 1));
    assert_eq!(process_entity_movement(&mut es, 3, 200), Some(TilePos::new(2, 1)));
    assert_eq!(es[0].pos, TilePos::new(2, 1));
    assert_eq!(process_entity_movement(&mut es, 3, 600), Some(TilePos::new(3, 1)));
    match &es[0].entity_type {
        EntityType::Creature(c) => {
            assert!(c.current_path.is_none());
            assert_eq!(c.move_timer_ms, 0);
        }
        _ => panic!("not a creature"),
    }
    assert_eq!(process_entity_movement(&mut es, 3, 600), None);
    assert_eq!(process_entity_movement(&mut es, 42, 600), None);
}

#[test]
fn one_update_digs_walks_and_routes_every_imp() {
    let mut state = state_with(vec![
        imp(1, 4, 4, None),
        imp(2, 2, 2, Some(vec![TilePos::new(3, 2)])),
        imp(3, 6, 8, None),
    ]);
    state.dungeon.grid[4][4].marked_for_dig = true;
    state.dungeon.grid[8][9].marked_for_dig = true;
    for x in 6..9 {
        state.dungeon.grid[8][x].set_owner(OwnerId::Player);
    }
    assert_eq!(imp_ids(&state), vec![1, 2, 3]);
    update_imp_digging(&mut state, 2_000, &floors());
    // The first imp stood on its marked tile and dug it out.
    assert_eq!(state.dungeon.grid[4][4].tile_type, "claimed_floor");
    // The second walked its one step.
    assert_eq!(state.entities[1].pos, TilePos::new(3, 2));
    // The third was routed to the other marked tile and took its first step.
    assert_eq!(state.entities[2].pos, TilePos::new(7, 8));
}

#[test]
fn removing_a_tile_keeps_the_rest() {
    let mut v = vec![TilePos::new(1, 1), TilePos::new(2, 2), TilePos::new(3, 3)];
    remove_tile(&mut v, TilePos::new(2, 2));
    assert_eq!(v, vec![TilePos::new(1, 1), TilePos::new(3, 3)]);
    remove_tile(&mut v, TilePos::new(9, 9));
    assert_eq!(v.len(), 2);
}
