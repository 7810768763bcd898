use dungeon_core::biomes::{apply_biome_features, generate_biome_map, random_biome};
use dungeon_core::features::{
    add_collapsed_chambers, add_natural_features, add_stone_pillars, create_collapsed_chamber,
};
use dungeon_core::grid::create_base_terrain;
use dungeon_core::lairs::{add_monster_lairs, create_monster_lair, try_place_lair};
use dungeon_core::map_config::{Biome, StartingPosition};
use dungeon_core::portals::{find_portal_candidates, place_hero_portals, select_best_portal_location};
use dungeon_core::starting_area::calculate_starting_position;
use dungeon_core::tiles::{Ownership, TilePos, TileState};

type Grid = Vec<Vec<TileState>>;

fn rock(w: usize, h: usize) -> Grid {
    let mut g = create_base_terrain(w, h);
    for row in g.iter_mut() {
        for t in row.iter_mut() {
            t.tile_type = "solid_rock".to_string();
        }
    }
    g
}

fn floor(w: usize, h: usize) -> Grid {
    let mut g = create_base_terrain(w, h);
    for row in g.iter_mut().take(h - 1).skip(1) {
        for t in row.iter_mut().take(w - 1).skip(1) {
            t.tile_type = "claimed_floor".to_string();
        }
    }
    g
}

fn kind(g: &Grid, x: usize, y: usize) -> &str {
    g[y][x].tile_type.as_str()
}

#[test]
fn starting_positions_follow_the_strategy() {
    assert_eq!(calculate_starting_position(StartingPosition::Center, 50, 40), TilePos::new(25, 20));
    for _ in 0..50 {
        let p = calculate_starting_position(StartingPosition::Corner, 50, 40);
        assert!((p.x == 12 || p.x == 38) && (p.y == 12 || p.y == 28));
        let p = calculate_starting_position(StartingPosition::Edge, 50, 40);
        let on_edge = (p.y == 12 && (12..38).contains(&p.x))
            || (p.x == 38 && (12..28).contains(&p.y))
            || (p.y == 28 && (12..38).contains(&p.x))
            || (p.x == 12 && (12..28).contains(&p.y));
        assert!(on_edge);
        let p = calculate_starting_position(StartingPosition::Random, 50, 40);
        assert!((15..35).contains(&p.x) && (15..25).contains(&p.y));
    }
}

#[test]
fn every_tile_takes_the_biome_of_its_nearest_centre() {
    for _ in 0..10 {
        assert_ne!(random_biome(), Biome::Standard);
    }
    let m = generate_biome_map(40, 30, 0);
    assert_eq!(m.len(), 30);
    assert!(m.iter().all(|row| row.len() == 40 && row.iter().all(|b| *b == Biome::Standard)));
    let m = generate_biome_map(60, 60, 6);
    assert_eq!(m[30][30], Biome::Standard);
    // The centre's own neighbourhood is always standard ground.
    assert_eq!(m[25][25], Biome::Standard);
}

#[test]
fn biomes_change_only_what_they_may() {
    let mut g = create_base_terrain(30, 30);
    g[5][5].ownership = Ownership::Player;
    for y in 1..29 {
        g[y][10].tile_type = "gold_vein".to_string();
        g[y][10].resources_remaining = Some(100);
        g[y][11].tile_type = "gold_vein".to_string();
        g[y][11].resources_remaining = Some(30);
    }
    let before = g.clone_grid();
    let map = vec![vec![Biome::Flooded; 30]; 30];
    apply_biome_features(&mut g, &map);
    for y in 0..30 {
        for x in 0..30 {
            let (a, b) = (&before[y][x], &g[y][x]);
            if a.tile_type != b.tile_type {
                assert_eq!(a.tile_type, "earth");
                assert_eq!(b.tile_type, "water");
                assert!(x > 0 && y > 0 && x < 29 && y < 29);
                assert_ne!(a.ownership, Ownership::Player);
            }
        }
    }
    let mut g = before.clone_grid();
    let map = vec![vec![Biome::Corrupted; 30]; 30];
    apply_biome_features(&mut g, &map);
    for y in 1..29 {
        let r = g[y][10].resources_remaining.unwrap();
        assert!(r == 100 || r == 50);
        let r = g[y][11].resources_remaining.unwrap();
        assert!(r == 30 || r == 20);
    }
    let mut g = rock(30, 30);
    let map = vec![vec![Biome::Crystalline; 30]; 30];
    apply_biome_features(&mut g, &map);
    for row in &g {
        for t in row {
            if t.tile_type == "mana_crystal" {
                let r = t.resources_remaining.unwrap();
                assert!((200..400).contains(&r));
            }
        }
    }
}

trait CloneGrid {
    fn clone_grid(&self) -> Grid;
}

impl CloneGrid for Grid {
    fn clone_grid(&self) -> Grid {
        self.iter().map(|row| row.iter().map(|t| t.copy()).collect()).collect()
    }
}

#[test]
fn pillars_rise_only_on_open_ground_the_player_does_not_hold() {
    let mut g = floor(40, 40);
    g[20][20].ownership = Ownership::Player;
    let before = g.clone_grid();
    add_stone_pillars(&mut g, 30);
    let mut rocks = 0;
    for y in 0..40 {
        for x in 0..40 {
            if before[y][x].tile_type != g[y][x].tile_type {
                assert_eq!(g[y][x].tile_type, "solid_rock");
                assert_ne!(before[y][x].ownership, Ownership::Player);
                rocks += 1;
            }
        }
    }
    assert!(rocks > 0);
    // On solid ground nothing is open, so no pillar rises.
    let mut g = rock(40, 40);
    add_stone_pillars(&mut g, 10);
    assert!(g.iter().flatten().all(|t| t.tile_type == "solid_rock"));
}

#[test]
fn collapsed_chambers_hollow_out_rock_in_the_middle() {
    let mut g = rock(40, 40);
    create_collapsed_chamber(&mut g, 20, 20, 4);
    let earth: Vec<(usize, usize)> = (0..40)
        .flat_map(|y| (0..40).map(move |x| (x, y)))
        .filter(|&(x, y)| g[y][x].tile_type == "earth")
        .collect();
    assert!(earth.len() <= 16);
    assert!(earth.contains(&(20, 20)));
    assert!(earth.iter().all(|&(x, y)| x > 5 && x < 35 && y > 5 && y < 35));

    let mut g = rock(40, 40);
    add_collapsed_chambers(&mut g, 3);
    assert!(g.iter().flatten().all(|t| t.tile_type == "solid_rock" || t.tile_type == "earth"));
    for y in 0..40 {
        for x in 0..40 {
            if g[y][x].tile_type == "earth" {
                assert!(x > 5 && x < 35 && y > 5 && y < 35);
            }
        }
    }
    let mut g = floor(40, 40);
    add_natural_features(&mut g, 5, 2);
    assert!(g.iter().flatten().all(|t| {
        let k = t.tile_type.as_str();
        k == "solid_rock" || k == "claimed_floor" || k == "earth"
    }));
}

#[test]
fn lairs_are_disks_of_corrupted_floor_round_a_spawner() {
    let mut g = rock(30, 30);
    create_monster_lair(&mut g, 15, 15);
    assert_eq!(kind(&g, 15, 15), "monster_spawner");
    assert_eq!(g[15][15].ownership, Ownership::Enemy);
    for (x, y) in [(13, 15), (17, 15), (15, 13), (15, 17), (14, 14), (16, 16)] {
        let k = kind(&g, x, y);
        assert!(k == "corrupted_floor" || k == "gold_vein");
        assert_eq!(g[y][x].ownership, Ownership::Enemy);
    }
    // Outside the square of side 7 nothing changes.
    assert_eq!(kind(&g, 19, 15), "solid_rock");
    assert_eq!(kind(&g, 11, 15), "solid_rock");
    for row in &g {
        for t in row {
            if t.tile_type == "gold_vein" {
                assert!((100..300).contains(&t.resources_remaining.unwrap()));
            }
        }
    }
}

#[test]
fn lairs_keep_their_distance_from_the_start() {
    let mut g = rock(60, 60);
    let start = TilePos::new(30, 30);
    // Nothing lies 100 tiles away on this map.
    assert!(!try_place_lair(&mut g, 60, 60, start, 10_000));
    assert!(g.iter().flatten().all(|t| t.tile_type == "solid_rock"));
    add_monster_lairs(&mut g, start);
    let mut spawners = 0;
    for y in 0..60i32 {
        for x in 0..60i32 {
            if g[y as usize][x as usize].tile_type == "monster_spawner" {
                spawners += 1;
                let d2 = (x - 30) * (x - 30) + (y - 30) * (y - 30);
                assert!(d2 >= 100);
                assert!((10..50).contains(&x) && (10..50).contains(&y));
            }
        }
    }
    assert!(spawners >= 1);
    // On open ground no lair is carved.
    let mut g = floor(60, 60);
    assert!(!try_place_lair(&mut g, 60, 60, start, 0));
}

#[test]
fn portals_go_on_open_ground_far_from_the_start() {
    let g = floor(40, 40);
    let start = TilePos::new(8, 8);
    let c = find_portal_candidates(&g, start, 2500);
    assert!(!c.is_empty());
    for w in c.windows(2) {
        assert!((w[0].y, w[0].x) < (w[1].y, w[1].x));
    }
    for p in &c {
        assert!((p.x - 8) * (p.x - 8) + (p.y - 8) * (p.y - 8) >= 625);
        assert!(p.x >= 5 && p.x < 35 && p.y >= 5 && p.y < 35);
    }
    assert!(c.contains(&TilePos::new(30, 30)));
    assert!(!c.contains(&TilePos::new(10, 10)));

    assert_eq!(select_best_portal_location(&Vec::new(), &Vec::new()), None);
    let one = vec![TilePos::new(30, 30)];
    assert_eq!(select_best_portal_location(&one, &Vec::new()), Some(TilePos::new(30, 30)));
    let pair = vec![TilePos::new(30, 30), TilePos::new(10, 30)];
    for _ in 0..10 {
        assert_eq!(select_best_portal_location(&pair, &vec![TilePos::new(31, 31)]), Some(TilePos::new(10, 30)));
    }

    let mut g = floor(40, 40);
    place_hero_portals(&mut g, start, 2, 2500);
    let portals: Vec<(usize, usize)> = (0..40)
        .flat_map(|y| (0..40).map(move |x| (x, y)))
        .filter(|&(x, y)| g[y][x].tile_type == "hero_portal")
        .collect();
    assert!(!portals.is_empty() && portals.len() <= 2);
    for &(x, y) in &portals {
        assert!(c.contains(&TilePos::new(x as i32, y as i32)));
    }
    let mut g = rock(40, 40);
    place_hero_portals(&mut g, start, 3, 2500);
    assert!(g.iter().flatten().all(|t| t.tile_type == "solid_rock"));
}

#[test]
fn hero_portals_are_spread_fifteen_tiles_apart() {
    let start = TilePos::new(8, 8);
    for _ in 0..5 {
        let mut g = floor(60, 60);
        place_hero_portals(&mut g, start, 3, 2500);
        let portals: Vec<(i32, i32)> = (0..60)
            .flat_map(|y| (0..60).map(move |x| (x, y)))
            .filter(|&(x, y)| g[y as usize][x as usize].tile_type == "hero_portal")
            .collect();
        assert_eq!(portals.len(), 3);
        for (i, a) in portals.iter().enumerate() {
            for b in portals.iter().skip(i + 1) {
                assert!((a.0 - b.0) * (a.0 - b.0) + (a.1 - b.1) * (a.1 - b.1) >= 225);
            }
        }
    }
}

#[test]
fn small_maps_with_nothing_to_add_are_left_alone() {
    let mut g = floor(10, 10);
    add_stone_pillars(&mut g, 0);
    add_collapsed_chambers(&mut g, 0);
    add_natural_features(&mut g, 0, 0);
    assert!((1..9).all(|y| (1..9).all(|x| kind(&g, x, y) == "claimed_floor")));
    let m = generate_biome_map(6, 4, 0);
    assert_eq!(m.len(), 4);
    assert!(m.iter().all(|row| row.len() == 6 && row.iter().all(|b| *b == Biome::Standard)));
}
