use dungeon_core::connectivity::{
    carve_tunnel, ensure_connectivity, find_closest_points, find_disconnected_regions,
};
use dungeon_core::features::{create_pillar, is_open_area};
use dungeon_core::grid::create_base_terrain;
use dungeon_core::hero_base::{find_opposite_corner, place_building_tile, place_hero_base};
use dungeon_core::map_config::{Difficulty, StartingLayout};
use dungeon_core::starting_area::{
    apply_difficulty_bonuses, create_room, create_starting_area, rotate_offset,
};
use dungeon_core::terrain::{count_solid_neighbors, smooth_caves_cellular_automata};
use dungeon_core::tiles::{Ownership, TilePos};

type Grid = Vec<Vec<dungeon_core::tiles::TileState>>;

fn set(grid: &mut Grid, x: usize, y: usize, t: &str) {
    grid[y][x].tile_type = t.to_string();
}

fn kind(grid: &Grid, x: usize, y: usize) -> &str {
    grid[y][x].tile_type.as_str()
}

#[test]
fn offsets_turn_by_quarter_turns() {
    assert_eq!(rotate_offset(3, 1, 0), (3, 1));
    assert_eq!(rotate_offset(3, 1, 1), (-1, 3));
    assert_eq!(rotate_offset(3, 1, 2), (-3, -1));
    assert_eq!(rotate_offset(3, 1, 3), (1, -3));
    assert_eq!(rotate_offset(3, 1, 5), (-1, 3));
    // Four quarter turns give back the offset.
    let mut p = (4, -7);
    for _ in 0..4 {
        p = rotate_offset(p.0, p.1, 1);
    }
    assert_eq!(p, (4, -7));
}

#[test]
fn every_layout_clears_three_tiles_and_prebuilds_nothing() {
    for d in [Difficulty::Easy, Difficulty::Normal, Difficulty::Hard, Difficulty::Nightmare] {
        let layout = StartingLayout::from_difficulty(d);
        assert_eq!(layout.cleared_area_size, 3);
        assert!(layout.rooms.is_empty());
    }
}

#[test]
fn rooms_are_kept_inside_the_border() {
    let mut grid = create_base_terrain(10, 10);
    create_room(&mut grid, 1, 1, 1, "lair");
    for (x, y) in [(1, 1), (2, 1), (1, 2), (2, 2)] {
        assert_eq!(kind(&grid, x, y), "lair");
        assert_eq!(grid[y][x].ownership, Ownership::Player);
        assert_eq!(grid[y][x].resources_remaining, None);
    }
    assert_eq!(kind(&grid, 0, 0), "solid_rock");
    assert_eq!(kind(&grid, 3, 3), "earth");
    assert_eq!(grid[3][3].ownership, Ownership::Unclaimed);
}

#[test]
fn the_starting_area_has_a_heart_on_cleared_ground() {
    let mut grid = create_base_terrain(20, 20);
    create_starting_area(&mut grid, Difficulty::Normal, TilePos::new(10, 10));
    assert_eq!(kind(&grid, 10, 10), "dungeon_heart");
    assert_eq!(grid[10][10].ownership, Ownership::Player);
    for y in 7..=13 {
        for x in 7..=13 {
            if (x, y) != (10, 10) {
                assert_eq!(kind(&grid, x, y), "claimed_floor");
                assert_eq!(grid[y][x].ownership, Ownership::Player);
            }
        }
    }
    assert_eq!(kind(&grid, 14, 10), "earth");
    assert_eq!(kind(&grid, 6, 6), "earth");
}

#[test]
fn easy_starts_with_four_gold_veins() {
    let mut grid = create_base_terrain(20, 20);
    create_starting_area(&mut grid, Difficulty::Easy, TilePos::new(10, 10));
    for (x, y) in [(7, 7), (13, 7), (7, 13), (13, 13)] {
        assert_eq!(kind(&grid, x, y), "gold_vein");
        assert_eq!(grid[y][x].resources_remaining, Some(100));
        assert_eq!(grid[y][x].ownership, Ownership::Player);
    }
    assert_eq!(kind(&grid, 8, 8), "claimed_floor");
}

#[test]
fn gold_only_lands_on_claimed_floor() {
    let mut grid = create_base_terrain(20, 20);
    apply_difficulty_bonuses(&mut grid, Difficulty::Easy, 10, 10);
    assert_eq!(kind(&grid, 7, 7), "earth");
    assert_eq!(grid[7][7].resources_remaining, None);
}

#[test]
fn nightmare_rings_the_start_with_lava() {
    let mut grid = create_base_terrain(30, 30);
    create_starting_area(&mut grid, Difficulty::Nightmare, TilePos::new(15, 15));
    for d in -7i32..=7 {
        let a = (15 + d) as usize;
        assert_eq!(kind(&grid, a, 8), "lava");
        assert_eq!(kind(&grid, a, 22), "lava");
        assert_eq!(kind(&grid, 8, a), "lava");
        assert_eq!(kind(&grid, 22, a), "lava");
    }
    assert_eq!(kind(&grid, 15, 9), "earth");
    assert_eq!(kind(&grid, 15, 15), "dungeon_heart");

    // The player's own tiles are spared.
    let mut grid = create_base_terrain(30, 30);
    grid[8][15].ownership = Ownership::Player;
    apply_difficulty_bonuses(&mut grid, Difficulty::Nightmare, 15, 15);
    assert_eq!(kind(&grid, 15, 8), "earth");
    assert_eq!(kind(&grid, 16, 8), "lava");
    // Near the border the ring is pulled inside it.
    let mut grid = create_base_terrain(12, 12);
    apply_difficulty_bonuses(&mut grid, Difficulty::Nightmare, 3, 3);
    assert_eq!(kind(&grid, 1, 1), "lava");
    assert_eq!(kind(&grid, 10, 3), "lava");
    assert_eq!(kind(&grid, 0, 0), "solid_rock");
}

#[test]
fn hard_adds_nothing() {
    let mut grid = create_base_terrain(20, 20);
    apply_difficulty_bonuses(&mut grid, Difficulty::Hard, 10, 10);
    apply_difficulty_bonuses(&mut grid, Difficulty::Normal, 10, 10);
    for y in 0..20 {
        for x in 0..20 {
            let expect = if x == 0 || y == 0 || x == 19 || y == 19 { "solid_rock" } else { "earth" };
            assert_eq!(kind(&grid, x, y), expect);
        }
    }
}

#[test]
fn the_hero_base_sits_in_the_opposite_corner() {
    assert_eq!(find_opposite_corner(TilePos::new(5, 5), 80, 60), TilePos::new(70, 50));
    assert_eq!(find_opposite_corner(TilePos::new(5, 40), 80, 60), TilePos::new(70, 10));
    assert_eq!(find_opposite_corner(TilePos::new(60, 5), 80, 60), TilePos::new(10, 50));
    assert_eq!(find_opposite_corner(TilePos::new(40, 30), 80, 60), TilePos::new(10, 10));
}

#[test]
fn building_tiles_off_the_map_are_ignored() {
    let mut grid = create_base_terrain(8, 8);
    place_building_tile(&mut grid, 3, 4, "church", 8, 8);
    assert_eq!(kind(&grid, 3, 4), "church");
    assert_eq!(grid[4][3].ownership, Ownership::Enemy);
    place_building_tile(&mut grid, -1, 4, "church", 8, 8);
    place_building_tile(&mut grid, 3, 8, "church", 8, 8);
    assert_eq!(kind(&grid, 0, 4), "solid_rock");
}

#[test]
fn the_hero_base_has_buildings_walls_and_an_entrance_toward_the_dungeon() {
    let mut grid = create_base_terrain(40, 40);
    place_hero_base(&mut grid, TilePos::new(5, 20), true);
    // Start is bottom-left: the base goes top-right, at (30, 10).
    assert_eq!(kind(&grid, 30, 10), "town_hall");
    assert_eq!(kind(&grid, 26, 8), "barracks");
    assert_eq!(kind(&grid, 34, 8), "church");
    assert_eq!(kind(&grid, 30, 6), "mage_tower");
    assert_eq!(kind(&grid, 26, 12), "archery_range");
    assert_eq!(kind(&grid, 34, 12), "stable");
    assert_eq!(kind(&grid, 30, 14), "armory");
    assert_eq!(kind(&grid, 24, 4), "hero_wall");
    assert_eq!(kind(&grid, 36, 16), "hero_wall");
    assert_eq!(kind(&grid, 28, 10), "claimed_floor");
    assert_eq!(grid[10][28].ownership, Ownership::Enemy);
    // The dungeon lies mostly to the left: the entrance is in the left wall.
    assert_eq!(kind(&grid, 24, 10), "hero_gate");
    for x in 20..=23 {
        assert_eq!(kind(&grid, x, 10), "earth");
    }
    assert_eq!(kind(&grid, 19, 10), "earth");
    assert_eq!(kind(&grid, 5, 20), "earth");
}

#[test]
fn no_hero_base_when_disabled() {
    let mut grid = create_base_terrain(40, 40);
    place_hero_base(&mut grid, TilePos::new(5, 20), false);
    assert_eq!(kind(&grid, 30, 10), "earth");
}

#[test]
fn open_areas_are_mostly_free_of_rock() {
    let mut grid = create_base_terrain(12, 12);
    assert!(!is_open_area(&grid, TilePos::new(5, 5), 2));
    for y in 3..=7 {
        for x in 3..=7 {
            set(&mut grid, x, y, "claimed_floor");
        }
    }
    assert!(is_open_area(&grid, TilePos::new(5, 5), 2));
    // 18 of 25 open is 72%: still open; 17 of 25 (68%) is not.
    for (x, y) in [(3, 3), (4, 3), (5, 3), (6, 3), (7, 3), (3, 4), (4, 4)] {
        set(&mut grid, x, y, "earth");
    }
    assert!(is_open_area(&grid, TilePos::new(5, 5), 2));
    set(&mut grid, 5, 4, "earth");
    assert!(!is_open_area(&grid, TilePos::new(5, 5), 2));
    // An area that lies wholly on the outer ring has no tiles to count.
    assert!(!is_open_area(&grid, TilePos::new(-5, -5), 1));
}

#[test]
fn pillars_are_disks_of_rock() {
    let mut grid = create_base_terrain(15, 15);
    for y in 1..14 {
        for x in 1..14 {
            set(&mut grid, x, y, "claimed_floor");
        }
    }
    grid[7][9].ownership = Ownership::Player;
    create_pillar(&mut grid, 7, 7, 2);
    assert_eq!(kind(&grid, 7, 7), "solid_rock");
    assert_eq!(kind(&grid, 7, 5), "solid_rock");
    assert_eq!(kind(&grid, 8, 8), "solid_rock");
    // Corner of the square, outside the disk.
    assert_eq!(kind(&grid, 9, 9), "claimed_floor");
    // The player's tile stays.
    assert_eq!(kind(&grid, 9, 7), "claimed_floor");
    assert_eq!(kind(&grid, 10, 7), "claimed_floor");
}

#[test]
fn neighbours_are_counted_and_caves_smoothed() {
    let mut grid = create_base_terrain(7, 7);
    for y in 1..6 {
        for x in 1..6 {
            set(&mut grid, x, y, "floor");
        }
    }
    assert_eq!(count_solid_neighbors(&grid, 1, 1), 5);
    assert_eq!(count_solid_neighbors(&grid, 3, 3), 0);
    assert_eq!(count_solid_neighbors(&grid, 2, 1), 3);
    smooth_caves_cellular_automata(&mut grid, 1);
    assert_eq!(kind(&grid, 1, 1), "solid_rock");
    assert_eq!(kind(&grid, 3, 3), "earth");
    assert_eq!(kind(&grid, 0, 3), "solid_rock");
    smooth_caves_cellular_automata(&mut grid, 0);
    assert_eq!(kind(&grid, 1, 1), "solid_rock");
}

#[test]
fn regions_are_found_largest_first_and_tunnels_carved() {
    let mut grid = create_base_terrain(12, 8);
    for (x, y) in [(1, 1), (2, 1), (1, 2)] {
        set(&mut grid, x, y, "floor");
    }
    for (x, y) in [(8, 5), (9, 5), (10, 5), (9, 6)] {
        set(&mut grid, x, y, "floor");
    }
    let regions = find_disconnected_regions(&grid);
    assert_eq!(regions.len(), 2);
    assert_eq!(regions[0].len(), 4);
    assert_eq!(regions[1].len(), 3);
    assert!(regions[0].contains(&TilePos::new(9, 6)));
    assert!(regions[1].contains(&TilePos::new(1, 2)));

    let (a, b) = find_closest_points(&regions[0], &regions[1]);
    assert!(regions[0].contains(&a));
    assert!(regions[1].contains(&b));

    let mut carved = create_base_terrain(12, 8);
    set(&mut carved, 3, 3, "floor");
    carve_tunnel(&mut carved, TilePos::new(2, 2), TilePos::new(6, 2));
    assert_eq!(kind(&carved, 3, 3), "floor");
    assert_eq!(kind(&carved, 0, 0), "solid_rock");
    assert_eq!(kind(&carved, 4, 2), "earth");

    ensure_connectivity(&mut grid);
    assert_eq!(kind(&grid, 1, 1), "floor");
    assert_eq!(kind(&grid, 9, 6), "floor");
    assert_eq!(kind(&grid, 0, 0), "solid_rock");
}

#[test]
fn a_connected_map_is_left_as_it_was() {
    let mut grid = create_base_terrain(12, 8);
    for y in 1..7 {
        for x in 1..11 {
            set(&mut grid, x, y, "floor");
        }
    }
    set(&mut grid, 5, 3, "solid_rock");
    let kinds = |g: &Grid| -> Vec<Vec<String>> {
        g.iter().map(|row| row.iter().map(|t| t.tile_type.clone()).collect()).collect()
    };
    let before = kinds(&grid);
    ensure_connectivity(&mut grid);
    assert_eq!(kinds(&grid), before);
}
