use dungeon_core::data::{GameData, SpawnTrigger, TileData};
use dungeon_core::grid::create_base_terrain;
use dungeon_core::hero_spawner::{find_spawn_pos, tick_hero_buildings, update_hero_spawning};
use dungeon_core::tiles::{OwnerId, TilePos};
use dungeon_core::world::{
    Dungeon, Entity, EntityType, GameState, HeroBaseState, HeroBuildingState, PlayerState, PlayerUnlocks,
    SpawnTimer, StructureState,
};

fn data() -> GameData {
    GameData {
        tiles: vec![
            TileData { id: "earth".to_string(), blocks_movement: true, diggable: true },
            TileData { id: "solid_rock".to_string(), blocks_movement: true, diggable: false },
            TileData { id: "claimed_floor".to_string(), blocks_movement: false, diggable: false },
        ],
        monsters: Vec::new(),
        heroes: vec!["knight".to_string(), "archer".to_string()],
        technologies: Vec::new(),
        hero_buildings: vec!["barracks".to_string()],
        spawn_triggers: vec![SpawnTrigger {
            building: "barracks".to_string(),
            hero_id: "knight".to_string(),
            spawn_rate_ms: 30_000,
        }],
        scenarios: Vec::new(),
        campaigns: Vec::new(),
    }
}

fn town(timers: Vec<(&str, i64)>) -> HeroBaseState {
    HeroBaseState {
        enabled: true,
        buildings: vec![HeroBuildingState {
            building_type: "barracks".to_string(),
            pos: TilePos::new(10, 10),
            entity_id: Some(77),
            spawn_timers: timers
                .into_iter()
                .map(|(h, t)| SpawnTimer { hero_id: h.to_string(), time_until_spawn_ms: t })
                .collect(),
        }],
    }
}

fn state(base: HeroBaseState) -> GameState {
    let mut grid = create_base_terrain(20, 20);
    for row in grid.iter_mut().take(19).skip(1) {
        for tile in row.iter_mut().take(19).skip(1) {
            tile.tile_type = "claimed_floor".to_string();
        }
    }
    GameState {
        dungeon: Dungeon { grid, width: 20, height: 20 },
        entities: vec![Entity {
            id: 77,
            pos: TilePos::new(10, 10),
            owner: OwnerId::Heroes,
            health: 300,
            entity_type: EntityType::Structure(StructureState { building_id: "barracks".to_string(), health: 300 }),
        }],
        rooms: Vec::new(),
        rival_keepers: Vec::new(),
        player: PlayerState { gold: 0, mana: 0, max_mana: 0, food: 0, materials: 0, claimed_tile_count: 0 },
        dungeon_heart_health: 100,
        paused: false,
        game_over: false,
        victory: false,
        cheat_fog_enabled: true,
        cheat_immortal_heart: false,
        notifications: Vec::new(),
        time_elapsed_ms: 0,
        active_scenario_id: None,
        scenario_runtime: None,
        unlocks: PlayerUnlocks { rooms: Vec::new(), spells: Vec::new(), traps: Vec::new() },
        campaign_progress: None,
        hero_base: base,
    }
}

#[test]
fn timers_count_down_and_restart_at_the_rate() {
    let mut s = state(town(vec![("knight", 1_000), ("archer", 5_000)]));
    let d = data();
    let out = update_hero_spawning(&mut s, &d, 600);
    assert!(out.is_empty());
    assert_eq!(s.hero_base.buildings[0].spawn_timers[0].time_until_spawn_ms, 400);
    assert_eq!(s.hero_base.buildings[0].spawn_timers[1].time_until_spawn_ms, 4_400);
    let out = update_hero_spawning(&mut s, &d, 400);
    assert_eq!(out.len(), 1);
    assert_eq!(out[0].hero_id, "knight");
    // The first free spot of the search: just above the building.
    assert_eq!(out[0].pos, TilePos::new(10, 9));
    assert_eq!(s.hero_base.buildings[0].spawn_timers[0].time_until_spawn_ms, 30_000);
    // Without a trigger of its own, a hero comes once a minute.
    let out = update_hero_spawning(&mut s, &d, 4_400);
    assert_eq!(out.len(), 1);
    assert_eq!(out[0].hero_id, "archer");
    assert_eq!(s.hero_base.buildings[0].spawn_timers[1].time_until_spawn_ms, 60_000);
}

#[test]
fn heroes_due_together_take_different_spots() {
    let mut s = state(town(vec![("knight", 100), ("archer", 100), ("ghost", 100)]));
    let out = update_hero_spawning(&mut s, &data(), 100);
    // The unknown hero is not created, but its timer restarts.
    assert_eq!(out.len(), 2);
    assert_eq!(out[0].pos, TilePos::new(10, 9));
    assert_eq!(out[1].pos, TilePos::new(9, 10));
    assert_eq!(s.hero_base.buildings[0].spawn_timers[2].time_until_spawn_ms, 60_000);
}

#[test]
fn destroyed_buildings_and_disabled_towns_send_nobody() {
    let mut s = state(town(vec![("knight", 100)]));
    s.entities.clear();
    let out = update_hero_spawning(&mut s, &data(), 1_000);
    assert!(out.is_empty());
    assert_eq!(s.hero_base.buildings[0].spawn_timers[0].time_until_spawn_ms, 100);

    let mut base = town(vec![("knight", 100)]);
    base.enabled = false;
    let mut s = state(base);
    assert!(update_hero_spawning(&mut s, &data(), 1_000).is_empty());
    assert_eq!(s.hero_base.buildings[0].spawn_timers[0].time_until_spawn_ms, 100);
}

#[test]
fn spawn_spots_avoid_walls_and_crowds() {
    let mut s = state(HeroBaseState { enabled: false, buildings: Vec::new() });
    let d = data();
    s.dungeon.grid[9][10].tile_type = "earth".to_string();
    s.entities.push(Entity {
        id: 5,
        pos: TilePos::new(9, 10),
        owner: OwnerId::Heroes,
        health: 1,
        entity_type: EntityType::Structure(StructureState { building_id: "crate".to_string(), health: 1 }),
    });
    // Above is earth, left is taken by an entity, so the spot to the right.
    assert_eq!(find_spawn_pos(&s, TilePos::new(10, 10), &d, &Vec::new()), TilePos::new(11, 10));
    assert_eq!(find_spawn_pos(&s, TilePos::new(10, 10), &d, &vec![TilePos::new(11, 10)]), TilePos::new(10, 11));
    // Far off the map nothing is free: the hero appears at the building.
    assert_eq!(find_spawn_pos(&s, TilePos::new(-50, -50), &d, &Vec::new()), TilePos::new(-50, -50));
}

#[test]
fn ticking_reports_due_heroes_with_their_building() {
    let s = state(town(vec![]));
    let mut base = town(vec![("knight", 10), ("archer", 50)]);
    let due = tick_hero_buildings(&mut base, &s.entities, &data().spawn_triggers, 20);
    assert_eq!(due, vec![("knight".to_string(), TilePos::new(10, 10))]);
    assert_eq!(base.buildings[0].spawn_timers[1].time_until_spawn_ms, 30);
}
