use dungeon_core::grid::create_base_terrain;
use dungeon_core::imp_ai::pathfind_to_target;
use dungeon_core::cheapest_path::find_cheapest_path;
use dungeon_core::pathfinding::find_path;
use dungeon_core::tiles::{OwnerId, TilePos};
use dungeon_core::world::{CreatureState, Dungeon, Entity, EntityType};

fn grid(rows: &[&str]) -> Vec<Vec<bool>> {
    rows.iter().map(|r| r.chars().map(|c| c == '.').collect()).collect()
}

fn check_walk(g: &[Vec<bool>], start: TilePos, goal: TilePos, path: &[TilePos]) {
    let mut prev = start;
    for p in path {
        assert_eq!((p.x - prev.x).abs() + (p.y - prev.y).abs(), 1, "steps are to a neighbour");
        assert!(g[p.y as usize][p.x as usize], "steps stay on walkable cells");
        prev = *p;
    }
    assert_eq!(prev, goal);
}

#[test]
fn a_path_goes_around_walls_to_the_goal() {
    let g = grid(&["...#.", ".#.#.", ".#...", ".####", "....."]);
    let start = TilePos::new(0, 0);
    let goal = TilePos::new(4, 0);
    let path = find_path(&g, start, goal).expect("reachable");
    check_walk(&g, start, goal, &path);
    assert_eq!(path.len(), 8);
}

#[test]
fn no_path_to_a_walled_off_or_blocked_goal() {
    let g = grid(&["..#..", "..#..", "..#.."]);
    assert_eq!(find_path(&g, TilePos::new(0, 0), TilePos::new(4, 2)), None);
    assert_eq!(find_path(&g, TilePos::new(0, 0), TilePos::new(2, 1)), None);
    assert_eq!(find_path(&g, TilePos::new(0, 0), TilePos::new(9, 9)), None);
    assert_eq!(find_path(&g, TilePos::new(1, 1), TilePos::new(1, 1)), Some(Vec::new()));
}

#[test]
fn imps_are_sent_along_their_own_floor() {
    let mut grid = create_base_terrain(8, 8);
    for x in 1..6 {
        grid[3][x].set_owner(OwnerId::Player);
    }
    grid[3][6].marked_for_dig = true;
    let dungeon = Dungeon { grid, width: 8, height: 8 };
    let mut es = vec![Entity {
        id: 5,
        pos: TilePos::new(1, 3),
        owner: OwnerId::Player,
        health: 10,
        entity_type: EntityType::Creature(CreatureState {
            creature_id: "imp".to_string(),
            level: 1,
            current_task: None,
            current_path: None,
            move_timer_ms: 0,
            move_interval_ms: 500,
            task_time_ms: 0,
        }),
    }];
    // The marked tile counts only when asked for.
    assert!(!pathfind_to_target(&dungeon, &mut es, 5, TilePos::new(1, 3), TilePos::new(6, 3), false));
    assert!(pathfind_to_target(&dungeon, &mut es, 5, TilePos::new(1, 3), TilePos::new(6, 3), true));
    match &es[0].entity_type {
        EntityType::Creature(c) => {
            let path = c.current_path.clone().expect("a path");
            assert_eq!(path.first(), Some(&TilePos::new(2, 3)));
            assert_eq!(path.last(), Some(&TilePos::new(6, 3)));
            assert_eq!(path.len(), 5);
        }
        _ => panic!("not a creature"),
    }
}

#[test]
fn the_cheapest_path_goes_round_a_slow_tile() {
    let open = vec![vec![true; 5]; 3];
    let mut slow = vec![vec![false; 5]; 3];
    slow[1][2] = true;
    let start = TilePos::new(0, 1);
    let goal = TilePos::new(4, 1);
    let path = find_cheapest_path(&open, &slow, start, goal).expect("reachable");
    assert_eq!(path.len(), 6);
    assert!(!path.contains(&TilePos::new(2, 1)));
    assert_eq!(path.last(), Some(&goal));
    // With no slow tiles the straight line is cheapest.
    let none = vec![vec![false; 5]; 3];
    assert_eq!(find_cheapest_path(&open, &none, start, goal).map(|p| p.len()), Some(4));
    // A wall of slow tiles is crossed where it must be.
    let mut wall = vec![vec![false; 5]; 3];
    for row in wall.iter_mut() {
        row[2] = true;
    }
    let path = find_cheapest_path(&open, &wall, start, goal).expect("reachable");
    assert_eq!(path.len(), 4);
    let mut blocked = open.clone();
    for row in blocked.iter_mut() {
        row[2] = false;
    }
    assert_eq!(find_cheapest_path(&blocked, &none, start, goal), None);
    assert_eq!(find_cheapest_path(&open, &none, goal, goal), Some(Vec::new()));
}
