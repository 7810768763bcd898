use dungeon_core::data::{GameData, TileData};
use dungeon_core::grid::create_base_terrain;
use dungeon_core::hero_ai::HeroGoal;
use dungeon_core::hero_digging::{process_hero_digging, tile_blocks_movement};
use dungeon_core::tiles::{OwnerId, TilePos};
use dungeon_core::world::{Dungeon, Entity, EntityType, HeroState, StructureState};

fn data() -> GameData {
    GameData {
        tiles: vec![
            TileData { id: "earth".to_string(), blocks_movement: true, diggable: true },
            TileData { id: "solid_rock".to_string(), blocks_movement: true, diggable: false },
            TileData { id: "hero_wall".to_string(), blocks_movement: true, diggable: true },
            TileData { id: "floor".to_string(), blocks_movement: false, diggable: false },
        ],
        monsters: Vec::new(),
        heroes: Vec::new(),
        technologies: Vec::new(),
        hero_buildings: Vec::new(),
        spawn_triggers: Vec::new(),
        scenarios: Vec::new(),
        campaigns: Vec::new(),
    }
}

fn dungeon() -> Dungeon {
    let mut grid = create_base_terrain(10, 10);
    grid[5][5].tile_type = "floor".to_string();
    grid[5][7].tile_type = "hero_wall".to_string();
    Dungeon { grid, width: 10, height: 10 }
}

fn hero(id: u64, next: TilePos, can_dig: bool) -> Entity {
    Entity {
        id,
        pos: TilePos::new(5, 5),
        owner: OwnerId::Heroes,
        health: 30,
        entity_type: EntityType::Hero(HeroState {
            hero_id: "dwarf".to_string(),
            gold_stolen: 0,
            kills: 0,
            is_defender: false,
            spawn_pos: TilePos::new(5, 5),
            current_goal: HeroGoal::DestroyHeart,
            target_pos: None,
            target_room_id: None,
            current_path: Some(vec![next, TilePos::new(3, 3)]),
            can_dig,
            is_fleeing: false,
            is_digging: false,
            dig_timer_ms: 0,
            max_dig_time_ms: 2_000,
            move_timer_ms: 0,
            move_interval_ms: 500,
            is_captured: false,
            is_converted: false,
            conversion_progress_permille: 0,
            max_health: 30,
        }),
    }
}

fn hero_state(e: &Entity) -> &HeroState {
    match &e.entity_type {
        EntityType::Hero(h) => h,
        _ => panic!("not a hero"),
    }
}

#[test]
fn a_digging_hero_breaks_through_once_its_timer_runs_out() {
    let d = dungeon();
    let gd = data();
    let mut es = vec![hero(7, TilePos::new(4, 5), true)];
    assert_eq!(process_hero_digging(&mut es, &d, &gd, 7, 1_500), (None, false));
    assert!(hero_state(&es[0]).is_digging);
    assert_eq!(hero_state(&es[0]).dig_timer_ms, 1_500);
    assert_eq!(process_hero_digging(&mut es, &d, &gd, 7, 500), (Some(TilePos::new(4, 5)), false));
    assert!(!hero_state(&es[0]).is_digging);
    assert_eq!(hero_state(&es[0]).dig_timer_ms, 0);
    assert!(hero_state(&es[0]).current_path.is_some());
}

#[test]
fn an_open_step_stops_the_digging() {
    let d = dungeon();
    let gd = data();
    let mut es = vec![hero(7, TilePos::new(5, 5), true)];
    if let EntityType::Hero(h) = &mut es[0].entity_type {
        h.is_digging = true;
        h.dig_timer_ms = 900;
    }
    assert_eq!(process_hero_digging(&mut es, &d, &gd, 7, 100), (None, true));
    assert!(!hero_state(&es[0]).is_digging);
    assert_eq!(hero_state(&es[0]).dig_timer_ms, 0);
}

#[test]
fn walls_that_cannot_be_dug_drop_the_path() {
    let d = dungeon();
    let gd = data();
    // A hero that cannot dig.
    let mut es = vec![hero(1, TilePos::new(4, 5), false)];
    assert_eq!(process_hero_digging(&mut es, &d, &gd, 1, 100), (None, true));
    assert!(hero_state(&es[0]).current_path.is_none());
    // Solid rock on the border.
    let mut es = vec![hero(2, TilePos::new(0, 5), true)];
    assert_eq!(process_hero_digging(&mut es, &d, &gd, 2, 100), (None, true));
    assert!(hero_state(&es[0]).current_path.is_none());
    // The town's own wall, though its kind is diggable.
    let mut es = vec![hero(3, TilePos::new(7, 5), true)];
    assert_eq!(process_hero_digging(&mut es, &d, &gd, 3, 100), (None, true));
    assert!(hero_state(&es[0]).current_path.is_none());
}

#[test]
fn no_hero_means_free_to_move() {
    let d = dungeon();
    let gd = data();
    let mut es = vec![Entity {
        id: 4,
        pos: TilePos::new(2, 2),
        owner: OwnerId::Player,
        health: 100,
        entity_type: EntityType::Structure(StructureState { building_id: "dungeon_heart".to_string(), health: 100 }),
    }];
    assert_eq!(process_hero_digging(&mut es, &d, &gd, 4, 100), (None, true));
    assert_eq!(process_hero_digging(&mut es, &d, &gd, 99, 100), (None, true));
    assert!(tile_blocks_movement(&d, TilePos::new(4, 5), &gd));
    assert!(!tile_blocks_movement(&d, TilePos::new(5, 5), &gd));
    assert!(!tile_blocks_movement(&d, TilePos::new(-1, 5), &gd));
}
