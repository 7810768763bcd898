use dungeon_core::data::{SpellCost, TargetingData};
use dungeon_core::grid::create_base_terrain;
use dungeon_core::spawner::{MonsterSpawner, SpawnSystem, SpawnerSystem};
use dungeon_core::spells::{can_cast_spell, count_imps, CastResult, MAX_IMPS};
use dungeon_core::tiles::{Ownership, TilePos};
use dungeon_core::world::{HeroBaseState, PlayerUnlocks};
use dungeon_core::world::{CreatureState, Dungeon, Entity, EntityType, GameState, PlayerState, Room};

fn new_state(mana: i32, gold: i32) -> GameState {
    GameState {
        dungeon: Dungeon { grid: create_base_terrain(20, 20), width: 20, height: 20 },
        entities: Vec::new(),
        rooms: Vec::new(),
        rival_keepers: Vec::new(),
        player: PlayerState { gold, mana, max_mana: 200, food: 0, materials: 0, claimed_tile_count: 0 },
        dungeon_heart_health: 100,
        paused: false,
        game_over: false,
        victory: false,
        cheat_fog_enabled: true,
        cheat_immortal_heart: false,
        notifications: Vec::new(),
        time_elapsed_ms: 0,
        active_scenario_id: None,
        scenario_runtime: None,
        unlocks: PlayerUnlocks { rooms: Vec::new(), spells: Vec::new(), traps: Vec::new() },
        campaign_progress: None,
        hero_base: HeroBaseState { enabled: false, buildings: Vec::new() },
    }
}

fn creature(id: u64, kind: &str) -> Entity {
    Entity {
        id,
        pos: TilePos::new(2, 2),
        owner: dungeon_core::tiles::OwnerId::Player,
        health: 10,
        entity_type: EntityType::Creature(CreatureState {
            creature_id: kind.to_string(),
            level: 1,
            current_task: None,
            current_path: None,
            move_timer_ms: 0,
            move_interval_ms: 500,
            task_time_ms: 0,
        }),
    }
}

fn targeting(t: &str, range: u32) -> TargetingData {
    TargetingData {
        target_type: t.to_string(),
        range,
        area_radius: 0,
        requires_visibility: false,
        valid_targets: Vec::new(),
    }
}

fn place_heart(state: &mut GameState, x: usize, y: usize) {
    state.dungeon.grid[y][x].tile_type = "dungeon_heart".to_string();
    state.dungeon.grid[y][x].ownership = Ownership::Player;
}

#[test]
fn spells_are_checked_in_order() {
    let state = new_state(50, 20);
    let cost = SpellCost { mana: 30, gold: 10, health: 0 };
    let any = targeting("self", 0);
    let cooling = vec!["fireball".to_string()];
    assert_eq!(
        can_cast_spell("fireball", &cost, &any, &state, &cooling, None, None),
        CastResult::OnCooldown
    );
    let dear = SpellCost { mana: 60, gold: 100, health: 0 };
    assert_eq!(can_cast_spell("heal", &dear, &any, &state, &cooling, None, None), CastResult::InsufficientMana);
    let pricey = SpellCost { mana: 10, gold: 100, health: 0 };
    assert_eq!(can_cast_spell("heal", &pricey, &any, &state, &cooling, None, None), CastResult::InsufficientGold);
    assert_eq!(can_cast_spell("heal", &cost, &any, &state, &cooling, None, None), CastResult::Success);
}

#[test]
fn targets_are_required_by_type() {
    let state = new_state(100, 100);
    let cost = SpellCost { mana: 0, gold: 0, health: 0 };
    let none: Vec<String> = Vec::new();
    let p = Some(TilePos::new(3, 3));
    assert_eq!(can_cast_spell("bolt", &cost, &targeting("tile", 0), &state, &none, None, None), CastResult::InvalidTarget);
    assert_eq!(can_cast_spell("bolt", &cost, &targeting("area", 0), &state, &none, p, None), CastResult::Success);
    assert_eq!(can_cast_spell("bolt", &cost, &targeting("creature", 0), &state, &none, p, None), CastResult::InvalidTarget);
    assert_eq!(can_cast_spell("bolt", &cost, &targeting("creature", 0), &state, &none, None, Some(4)), CastResult::Success);
    assert_eq!(can_cast_spell("bolt", &cost, &targeting("room", 0), &state, &none, None, Some(4)), CastResult::InvalidTarget);
    assert_eq!(can_cast_spell("bolt", &cost, &targeting("room", 0), &state, &none, p, None), CastResult::Success);
}

#[test]
fn tile_spells_reach_only_so_far_from_the_heart() {
    let mut state = new_state(100, 100);
    let cost = SpellCost { mana: 0, gold: 0, health: 0 };
    let none: Vec<String> = Vec::new();
    let far = Some(TilePos::new(15, 15));
    // Without a heart there is nothing to measure from.
    assert_eq!(can_cast_spell("bolt", &cost, &targeting("tile", 5), &state, &none, far, None), CastResult::Success);
    place_heart(&mut state, 10, 10);
    assert_eq!(can_cast_spell("bolt", &cost, &targeting("tile", 9), &state, &none, far, None), CastResult::OutOfRange);
    assert_eq!(can_cast_spell("bolt", &cost, &targeting("tile", 10), &state, &none, far, None), CastResult::Success);
    // A range of zero is unlimited.
    assert_eq!(can_cast_spell("bolt", &cost, &targeting("tile", 0), &state, &none, far, None), CastResult::Success);
}

#[test]
fn summoning_imps_gets_dearer_and_is_capped() {
    let mut state = new_state(24, 0);
    let cost = SpellCost { mana: 0, gold: 0, health: 0 };
    let none: Vec<String> = Vec::new();
    let any = targeting("self", 0);
    state.entities.push(creature(1, "imp"));
    state.entities.push(creature(2, "goblin"));
    state.entities.push(creature(3, "imp"));
    state.entities.push(creature(4, "imp"));
    assert_eq!(count_imps(&state), 3);
    // Three imps: the summon costs 10 + 3 * 5 = 25 mana.
    assert_eq!(can_cast_spell("summon_imps", &cost, &any, &state, &none, None, None), CastResult::InsufficientMana);
    state.player.mana = 25;
    assert_eq!(can_cast_spell("summon_imps", &cost, &any, &state, &none, None, None), CastResult::Success);
    for i in 0..7 {
        state.entities.push(creature(10 + i, "imp"));
    }
    assert_eq!(count_imps(&state), MAX_IMPS);
    state.player.mana = 1000;
    assert_eq!(can_cast_spell("summon_imps", &cost, &any, &state, &none, None, None), CastResult::MaxCapReached);
}

#[test]
fn spawner_tiles_are_the_players_spawners_row_by_row() {
    let mut grid = create_base_terrain(10, 10);
    for (x, y, own) in [(7, 2, Ownership::Player), (3, 5, Ownership::Player), (5, 5, Ownership::Enemy), (1, 8, Ownership::Player)] {
        grid[y][x].tile_type = "monster_spawner".to_string();
        grid[y][x].ownership = own;
    }
    let dungeon = Dungeon { grid, width: 10, height: 10 };
    let tiles = SpawnSystem::spawner_tiles(&dungeon);
    assert_eq!(tiles, vec![TilePos::new(7, 2), TilePos::new(3, 5), TilePos::new(1, 8)]);
}

#[test]
fn rooms_attract_creatures_the_game_knows() {
    let known = vec!["goblin".to_string(), "orc".to_string(), "warlock".to_string()];
    let mut rooms = vec![Room::new(0, "lair".to_string(), vec![TilePos::new(1, 1)])];
    assert_eq!(SpawnSystem::potential_creatures(&rooms, &known), vec!["goblin".to_string()]);
    rooms.push(Room::new(1, "workshop".to_string(), vec![TilePos::new(2, 2)]));
    assert_eq!(SpawnSystem::potential_creatures(&rooms, &known), vec!["goblin".to_string(), "orc".to_string()]);
    rooms.push(Room::new(2, "library".to_string(), vec![TilePos::new(3, 3)]));
    assert_eq!(
        SpawnSystem::potential_creatures(&rooms, &known),
        vec!["goblin".to_string(), "orc".to_string(), "warlock".to_string()]
    );
    let nothing: Vec<String> = Vec::new();
    assert!(SpawnSystem::potential_creatures(&rooms, &nothing).is_empty());
}

#[test]
fn spawners_fire_once_a_minute_until_spent() {
    let mut grid = create_base_terrain(10, 10);
    grid[4][4].tile_type = "monster_spawner".to_string();
    grid[6][6].tile_type = "monster_spawner".to_string();
    let known = vec!["skeleton".to_string()];
    let fresh = MonsterSpawner::new(TilePos::new(4, 4), "skeleton".to_string(), 2);
    assert_eq!(fresh.spawn_interval_ms, 60_000);
    assert_eq!(fresh.timer_ms, 0);
    let mut spawners = vec![
        fresh,
        MonsterSpawner::new(TilePos::new(6, 6), "dragon".to_string(), 5),
        MonsterSpawner::new(TilePos::new(2, 2), "skeleton".to_string(), 5),
    ];
    let out = SpawnerSystem::update(&mut spawners, &grid, &known, 30_000);
    assert!(out.is_empty());
    // The spawner whose tile is gone is dropped.
    assert_eq!(spawners.len(), 2);
    assert_eq!(spawners[0].timer_ms, 30_000);

    let out = SpawnerSystem::update(&mut spawners, &grid, &known, 30_000);
    assert_eq!(out, vec![(TilePos::new(4, 4), "skeleton".to_string())]);
    assert_eq!(spawners[0].timer_ms, 0);
    assert_eq!(spawners[0].spawn_count, 1);
    // An unknown monster restarts the timer but spawns nothing.
    assert_eq!(spawners[1].timer_ms, 0);
    assert_eq!(spawners[1].spawn_count, 0);

    SpawnerSystem::update(&mut spawners, &grid, &known, 60_000);
    assert_eq!(spawners[0].spawn_count, 2);
    let out = SpawnerSystem::update(&mut spawners, &grid, &known, 60_000);
    assert!(out.is_empty());
    assert_eq!(spawners[0].spawn_count, 2);
    assert_eq!(spawners[0].timer_ms, 0);
}

fn claim(state: &mut GameState, x: i32, y: i32, tile_type: &str) {
    let tile = &mut state.dungeon.grid[y as usize][x as usize];
    tile.tile_type = tile_type.to_string();
    tile.set_owner(dungeon_core::tiles::OwnerId::Player);
}

fn spawning_state() -> GameState {
    let mut state = new_state(0, 0);
    claim(&mut state, 5, 5, "dungeon_heart");
    claim(&mut state, 6, 5, "claimed_floor");
    claim(&mut state, 7, 5, "claimed_floor");
    claim(&mut state, 8, 5, "monster_spawner");
    // Owned, but cut off from the heart.
    claim(&mut state, 2, 2, "monster_spawner");
    state
}

#[test]
fn only_spawners_joined_to_the_heart_count() {
    let state = spawning_state();
    let spawners = SpawnSystem::connected_spawners(&state.dungeon, TilePos::new(5, 5));
    assert_eq!(spawners, vec![TilePos::new(8, 5)]);
}

#[test]
fn a_random_creature_appears_at_a_connected_spawner() {
    let mut state = spawning_state();
    let known = vec!["goblin".to_string(), "orc".to_string()];
    assert_eq!(SpawnSystem::spawn_random_creature(&state, &known, 0), None);
    assert_eq!(SpawnSystem::spawn_random_creature(&state, &Vec::new(), 3), None);
    let (pos, creature) = SpawnSystem::spawn_random_creature(&state, &known, 3).unwrap();
    assert_eq!(pos, TilePos::new(8, 5));
    assert_eq!(creature, "goblin");

    // Without a heart nothing spawns.
    state.dungeon.grid[5][5].tile_type = "claimed_floor".to_string();
    assert_eq!(SpawnSystem::spawn_random_creature(&state, &known, 3), None);
}
