use dungeon_core::grid::create_base_terrain;
use dungeon_core::hero_ai::HeroGoal;
use dungeon_core::prison::{handle_prison_captures, progress_prison_conversions};
use dungeon_core::tiles::{OwnerId, TilePos};
use dungeon_core::world::{
    CreatureState, Dungeon, Entity, EntityType, GameState, HeroBaseState, HeroState, NoticeLevel,
    PlayerState, PlayerUnlocks, Room, Task,
};

fn hero_state(captured: bool, progress: u32) -> HeroState {
    HeroState {
        hero_id: "knight".to_string(),
        gold_stolen: 0,
        kills: 0,
        is_defender: false,
        spawn_pos: TilePos::new(0, 0),
        current_goal: HeroGoal::DestroyHeart,
        target_pos: None,
        target_room_id: None,
        current_path: None,
        can_dig: false,
        is_fleeing: false,
        is_digging: false,
        dig_timer_ms: 0,
        max_dig_time_ms: 2_000,
        move_timer_ms: 0,
        move_interval_ms: 500,
        is_captured: captured,
        is_converted: false,
        conversion_progress_permille: progress,
        max_health: 80,
    }
}

fn hero(id: u64, x: i32, y: i32, health: i32, captured: bool, progress: u32) -> Entity {
    Entity {
        id,
        pos: TilePos::new(x, y),
        owner: OwnerId::Heroes,
        health,
        entity_type: EntityType::Hero(hero_state(captured, progress)),
    }
}

fn succubus(id: u64, room_id: usize) -> Entity {
    Entity {
        id,
        pos: TilePos::new(6, 6),
        owner: OwnerId::Player,
        health: 50,
        entity_type: EntityType::Creature(CreatureState {
            creature_id: "succubus".to_string(),
            level: 1,
            current_task: Some(Task::Work(room_id, TilePos::new(6, 6))),
            current_path: None,
            move_timer_ms: 0,
            move_interval_ms: 500,
            task_time_ms: 0,
        }),
    }
}

fn room(id: usize, room_type: &str, tiles: Vec<TilePos>) -> Room {
    Room { id, room_type: room_type.to_string(), tiles, active: true }
}

fn state(entities: Vec<Entity>, rooms: Vec<Room>) -> GameState {
    GameState {
        dungeon: Dungeon { grid: create_base_terrain(12, 12), width: 12, height: 12 },
        entities,
        rooms,
        rival_keepers: Vec::new(),
        player: PlayerState { gold: 0, mana: 0, max_mana: 0, food: 0, materials: 0, claimed_tile_count: 0 },
        dungeon_heart_health: 100,
        paused: false,
        game_over: false,
        victory: false,
        cheat_fog_enabled: true,
        cheat_immortal_heart: false,
        notifications: Vec::new(),
        time_elapsed_ms: 0,
        active_scenario_id: None,
        scenario_runtime: None,
        unlocks: PlayerUnlocks { rooms: Vec::new(), spells: Vec::new(), traps: Vec::new() },
        campaign_progress: None,
        hero_base: HeroBaseState { enabled: false, buildings: Vec::new() },
    }
}

fn rooms() -> Vec<Room> {
    vec![
        room(1, "prison", vec![TilePos::new(2, 2), TilePos::new(3, 2)]),
        room(2, "torture_chamber", vec![TilePos::new(6, 6)]),
        room(3, "torture_chamber", vec![TilePos::new(8, 8)]),
    ]
}

fn hero_of(e: &Entity) -> &HeroState {
    match &e.entity_type {
        EntityType::Hero(h) => h,
        _ => panic!("not a hero"),
    }
}

#[test]
fn fallen_heroes_are_dragged_to_the_prison() {
    let mut s = state(vec![hero(1, 9, 9, 0, false, 0), hero(2, 9, 8, 25, false, 0)], rooms());
    handle_prison_captures(&mut s);
    let taken = &s.entities[0];
    assert!(taken.pos == TilePos::new(2, 2) || taken.pos == TilePos::new(3, 2));
    assert_eq!(taken.health, 10);
    assert!(hero_of(taken).is_captured);
    assert_eq!(s.entities[1].pos, TilePos::new(9, 8));
    assert!(!hero_of(&s.entities[1]).is_captured);
    assert_eq!(s.notifications.len(), 1);
    assert_eq!(s.notifications[0].message, "Hero captured!");

    // Without a prison they simply stay dead where they fell.
    let mut s = state(vec![hero(1, 9, 9, 0, false, 0)], Vec::new());
    handle_prison_captures(&mut s);
    assert_eq!(s.entities[0].pos, TilePos::new(9, 9));
    assert!(s.notifications.is_empty());
}

#[test]
fn prisoners_rot_and_the_tortured_turn() {
    let mut s = state(
        vec![
            hero(1, 2, 2, 10, true, 900),
            succubus(2, 2),
            hero(3, 6, 6, 10, true, 600),
            hero(4, 8, 8, 10, true, 600),
        ],
        rooms(),
    );
    let known = vec!["skeleton".to_string()];
    let spots = progress_prison_conversions(&mut s, &known, 100, 500, 1_000);
    assert_eq!(spots, vec![TilePos::new(2, 2)]);
    assert_eq!(s.entities.len(), 3);
    let turned = &s.entities[1];
    assert_eq!(turned.id, 3);
    assert!(hero_of(turned).is_converted);
    assert!(!hero_of(turned).is_captured);
    assert_eq!(turned.health, 80);
    assert_eq!(hero_of(turned).current_goal, HeroGoal::RestAtSpawn(TilePos::new(6, 6)));
    // No succubus works the other chamber: nothing happens there.
    assert_eq!(hero_of(&s.entities[2]).conversion_progress_permille, 600);
    assert_eq!(s.notifications.len(), 2);
    assert_eq!(s.notifications[0].message, "Captured hero rotted into a Skeleton!");
    assert_eq!(s.notifications[1].message, "knight converted to your side!");
    assert_eq!(s.notifications[1].level, NoticeLevel::Success);
}

#[test]
fn turning_advances_by_rate_and_time() {
    let mut s = state(vec![hero(1, 3, 2, 10, true, 0)], rooms());
    let spots = progress_prison_conversions(&mut s, &Vec::new(), 250, 500, 2_000);
    assert!(spots.is_empty());
    assert_eq!(hero_of(&s.entities[0]).conversion_progress_permille, 500);
}
