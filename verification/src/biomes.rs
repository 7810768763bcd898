//! Biomes: regions of the map around random centres (each tile belongs to
//! the nearest centre), and the random features each biome adds.
use vstd::prelude::*;
use crate::tiles::{TileState, Ownership, str_eq, owned};
use crate::grid::{Grid, cells, grid_wf};
use crate::map_config::Biome;
use crate::random::random_below;

verus! {

/// The square of the distance from `(x, y)` to the centre `c`.
pub open spec fn dist2(c: (int, int, Biome), x: int, y: int) -> int {
    (x - c.0) * (x - c.0) + (y - c.1) * (y - c.1)
}

/// The index of the centre nearest to `(x, y)` (the first one on ties).
pub open spec fn nearest_index(cs: Seq<(int, int, Biome)>, x: int, y: int) -> int
    decreases cs.len(),
{
    if cs.len() <= 1 {
        0
    } else {
        let i = nearest_index(cs.drop_last(), x, y);
        if dist2(cs.last(), x, y) < dist2(cs[i], x, y) {
            cs.len() - 1
        } else {
            i
        }
    }
}

/// The biome of `(x, y)`: that of its nearest centre.
pub open spec fn biome_at(cs: Seq<(int, int, Biome)>, x: int, y: int) -> Biome {
    cs[nearest_index(cs, x, y)].2
}

/// The centres of a `w` by `h` biome map with up to `n` random regions: the
/// centre of the map (standard ground) first, then centres at least 5 in
/// from the edges and not within 15 (on both axes) of the map's centre.
pub open spec fn centres_ok(cs: Seq<(int, int, Biome)>, w: int, h: int, n: int) -> bool {
    &&& 1 <= cs.len() <= n + 1
    &&& cs[0] == (w / 2, h / 2, Biome::Standard)
    &&& forall|k: int|
        1 <= k < cs.len() ==> {
            let c = #[trigger] cs[k];
            &&& 5 <= c.0 < w - 5
            &&& 5 <= c.1 < h - 5
            &&& !(-15 < c.0 - w / 2 < 15 && -15 < c.1 - h / 2 < 15)
        }
}

/// The map `m` gives each tile of a `w` by `h` map the biome of its nearest
/// centre among `cs`.
pub open spec fn voronoi(m: Seq<Vec<Biome>>, cs: Seq<(int, int, Biome)>, w: int, h: int) -> bool {
    &&& m.len() == h
    &&& forall|y: int| 0 <= y < h ==> (#[trigger] m[y])@.len() == w
    &&& forall|y: int, x: int| 0 <= y < h && 0 <= x < w ==> #[trigger] m[y]@[x] == biome_at(cs, x, y)
}

/// The special biome that the draw `r` (below 5) picks: volcanic,
/// crystalline, flooded, ancient, corrupted in turn.
pub open spec fn biome_of_draw(r: int) -> Biome {
    if r == 0 {
        Biome::Volcanic
    } else if r == 1 {
        Biome::Crystalline
    } else if r == 2 {
        Biome::Flooded
    } else if r == 3 {
        Biome::Ancient
    } else {
        Biome::Corrupted
    }
}

/// One of the five special biomes, drawn at random (see `biome_of_draw`).
pub fn random_biome() -> (b: Biome)
    ensures
        b != Biome::Standard,
        exists|r: int| 0 <= r < 5 && b == #[trigger] biome_of_draw(r),
{
    let r = random_below(5);
    let b = if r == 0 {
        Biome::Volcanic
    } else if r == 1 {
        Biome::Crystalline
    } else if r == 2 {
        Biome::Flooded
    } else if r == 3 {
        Biome::Ancient
    } else {
        Biome::Corrupted
    };
    assert(b == biome_of_draw(r as int));
    b
}

/// The view of a list of centres.
pub open spec fn centres_view(v: Seq<(usize, usize, Biome)>) -> Seq<(int, int, Biome)> {
    v.map_values(|c: (usize, usize, Biome)| (c.0 as int, c.1 as int, c.2))
}

/// The biome of the centre nearest to `(x, y)`.
fn nearest_biome(centres: &Vec<(usize, usize, Biome)>, x: usize, y: usize) -> (b: Biome)
    requires
        centres@.len() >= 1,
        forall|k: int| 0 <= k < centres@.len() ==> (#[trigger] centres@[k]).0 <= 0x10_0000 && centres@[k].1 <= 0x10_0000,
        x <= 0x10_0000,
        y <= 0x10_0000,
    ensures
        b == biome_at(centres_view(centres@), x as int, y as int),
{
    let ghost cs = centres_view(centres@);
    let mut best: usize = 0;
    let mut best_d: u64 = sq_dist(centres[0].0, centres[0].1, x, y);
    let mut k: usize = 1;
    while k < centres.len()
        invariant
            1 <= k <= centres@.len(),
            cs == centres_view(centres@),
            forall|j: int| 0 <= j < centres@.len() ==> (#[trigger] centres@[j]).0 <= 0x10_0000 && centres@[j].1 <= 0x10_0000,
            x <= 0x10_0000,
            y <= 0x10_0000,
            best == nearest_index(cs.take(k as int), x as int, y as int),
            best < k,
            best_d == dist2(cs[best as int], x as int, y as int),
        decreases centres@.len() - k,
    {
        assert(cs.take(k + 1).drop_last() =~= cs.take(k as int));
        assert(cs.take(k + 1).last() == cs[k as int]);
        assert(cs.take(k as int)[best as int] == cs[best as int]);
        let d = sq_dist(centres[k].0, centres[k].1, x, y);
        if d < best_d {
            best = k;
            best_d = d;
        }
        k = k + 1;
    }
    assert(cs.take(centres@.len() as int) =~= cs);
    centres[best].2
}

/// The square of the distance between `(x1, y1)` and `(x2, y2)`.
fn sq_dist(x1: usize, y1: usize, x2: usize, y2: usize) -> (d: u64)
    requires
        x1 <= 0x10_0000,
        y1 <= 0x10_0000,
        x2 <= 0x10_0000,
        y2 <= 0x10_0000,
    ensures
        d == (x2 - x1) * (x2 - x1) + (y2 - y1) * (y2 - y1),
{
    let dx: u64 = if x1 > x2 {
        (x1 - x2) as u64
    } else {
        (x2 - x1) as u64
    };
    let dy: u64 = if y1 > y2 {
        (y1 - y2) as u64
    } else {
        (y2 - y1) as u64
    };
    assert(dx * dx <= 0x100_0000_0000 && dy * dy <= 0x100_0000_0000) by (nonlinear_arith)
        requires
            dx <= 0x10_0000,
            dy <= 0x10_0000,
    ;
    assert(dx * dx == (x2 - x1) * (x2 - x1) && dy * dy == (y2 - y1) * (y2 - y1)) by (nonlinear_arith)
        requires
            dx == (if x1 > x2 { x1 - x2 } else { x2 - x1 }),
            dy == (if y1 > y2 { y1 - y2 } else { y2 - y1 }),
    ;
    dx * dx + dy * dy
}

/// Generate a biome map: up to `num_regions` random centres besides the
/// map's centre (see `centres_ok`), each tile taking the biome of its
/// nearest centre.
pub fn generate_biome_map(width: usize, height: usize, num_regions: usize) -> (m: Vec<Vec<Biome>>)
    requires
        width <= 0x10_0000,
        height <= 0x10_0000,
        num_regions > 0 ==> 10 < width && 10 < height,
        num_regions < 0x10_0000,
    ensures
        exists|cs: Seq<(int, int, Biome)>|
            #[trigger] centres_ok(cs, width as int, height as int, num_regions as int) && voronoi(
                m@,
                cs,
                width as int,
                height as int,
            ),
{
    let center_x = width / 2;
    let center_y = height / 2;
    let mut centres: Vec<(usize, usize, Biome)> = Vec::new();
    centres.push((center_x, center_y, Biome::Standard));
    let mut i: usize = 0;
    while i < num_regions
        invariant
            i <= num_regions,
            width <= 0x10_0000,
            height <= 0x10_0000,
            num_regions > 0 ==> 10 < width && 10 < height,
            center_x == width / 2,
            center_y == height / 2,
            centres_ok(centres_view(centres@), width as int, height as int, i as int),
        decreases num_regions - i,
    {
        let x = 5 + random_below((width - 10) as u32) as usize;
        let y = 5 + random_below((height - 10) as u32) as usize;
        let dx = if x > center_x { x - center_x } else { center_x - x };
        let dy = if y > center_y { y - center_y } else { center_y - y };
        if !(dx < 15 && dy < 15) {
            let b = random_biome();
            let ghost before = centres@;
            centres.push((x, y, b));
            assert(centres_view(centres@) =~= centres_view(before).push((x as int, y as int, b)));
        }
        i = i + 1;
    }
    let ghost cs = centres_view(centres@);
    assert(forall|k: int| 0 <= k < centres@.len() ==> (#[trigger] centres@[k]).0 <= 0x10_0000 && centres@[k].1 <= 0x10_0000) by {
        assert forall|k: int| 0 <= k < centres@.len() implies (#[trigger] centres@[k]).0 <= 0x10_0000 && centres@[k].1 <= 0x10_0000 by {
            assert(cs[k] == (centres@[k].0 as int, centres@[k].1 as int, centres@[k].2));
        }
    }
    let mut m: Vec<Vec<Biome>> = Vec::new();
    let mut y: usize = 0;
    while y < height
        invariant
            y <= height,
            width <= 0x10_0000,
            height <= 0x10_0000,
            cs == centres_view(centres@),
            centres@.len() >= 1,
            forall|k: int| 0 <= k < centres@.len() ==> (#[trigger] centres@[k]).0 <= 0x10_0000 && centres@[k].1 <= 0x10_0000,
            m@.len() == y,
            forall|yy: int| 0 <= yy < y ==> (#[trigger] m@[yy])@.len() == width,
            forall|yy: int, x: int| 0 <= yy < y && 0 <= x < width ==> #[trigger] m@[yy]@[x] == biome_at(cs, x, yy),
        decreases height - y,
    {
        let mut row: Vec<Biome> = Vec::new();
        let mut x: usize = 0;
        while x < width
            invariant
                x <= width,
                y < height,
                width <= 0x10_0000,
                height <= 0x10_0000,
                cs == centres_view(centres@),
                centres@.len() >= 1,
                forall|k: int| 0 <= k < centres@.len() ==> (#[trigger] centres@[k]).0 <= 0x10_0000 && centres@[k].1 <= 0x10_0000,
                row@.len() == x,
                forall|xx: int| 0 <= xx < x ==> #[trigger] row@[xx] == biome_at(cs, xx, y as int),
            decreases width - x,
        {
            row.push(nearest_biome(&centres, x, y));
            x = x + 1;
        }
        m.push(row);
        y = y + 1;
    }
    m
}

/// `b` is the tile `a` turned into a tile of type `t` with `res` resources.
pub open spec fn turned(a: TileState, b: TileState, t: Seq<char>, res: Option<u32>) -> bool {
    &&& b.tile_type@ == t
    &&& b == TileState { tile_type: b.tile_type, resources_remaining: res, ..a }
}

/// What the biome may do to a tile `a` inside the border (giving `b`): the
/// player's tiles and standard ground stay; volcanic earth may turn to lava,
/// crystalline rock to mana crystal (200 to 399 mana), flooded earth to
/// water, ancient earth to a gem seam (150 to 299 gems); corrupted gold
/// veins may lose half their gold (keeping at least 20).
pub open spec fn biome_effect(biome: Biome, a: TileState, b: TileState) -> bool {
    ||| b == a
    ||| {
        &&& a.ownership != Ownership::Player
        &&& match biome {
            Biome::Standard => false,
            Biome::Volcanic => a.tile_type@ == "earth"@ && turned(a, b, "lava"@, a.resources_remaining),
            Biome::Crystalline => a.tile_type@ == "solid_rock"@ && exists|n: u32|
                200 <= n < 400 && #[trigger] turned(a, b, "mana_crystal"@, Some(n)),
            Biome::Flooded => a.tile_type@ == "earth"@ && turned(a, b, "water"@, a.resources_remaining),
            Biome::Ancient => a.tile_type@ == "earth"@ && exists|n: u32|
                150 <= n < 300 && #[trigger] turned(a, b, "gem_seam"@, Some(n)),
            Biome::Corrupted => a.tile_type@ == "gold_vein"@ && match a.resources_remaining {
                Some(r) => b == TileState {
                    resources_remaining: Some(if r / 2 > 20 { r / 2 } else { 20 }),
                    ..a
                },
                None => false,
            },
        }
    }
}

/// `b` is `a` with each tile off the outer ring changed as its biome may
/// change it, and the outer ring unchanged.
pub open spec fn biomes_applied(a: Seq<Seq<TileState>>, b: Seq<Seq<TileState>>, m: Seq<Vec<Biome>>) -> bool {
    &&& a.len() == b.len()
    &&& forall|y: int| 0 <= y < a.len() ==> #[trigger] b[y].len() == a[y].len()
    &&& forall|y: int, x: int|
        #![trigger b[y][x]]
        0 <= y < a.len() && 0 <= x < a[y].len() ==> if 0 < y < a.len() - 1 && 0 < x < a[0].len() - 1 {
            biome_effect(m[y]@[x], a[y][x], b[y][x])
        } else {
            b[y][x] == a[y][x]
        }
}

/// The chance, in 100, that a biome changes a tile it can change.
pub open spec fn biome_odds(biome: Biome) -> u32 {
    match biome {
        Biome::Standard => 0,
        Biome::Volcanic => 15,
        Biome::Crystalline => 12,
        Biome::Flooded => 20,
        Biome::Ancient => 10,
        Biome::Corrupted => 30,
    }
}

/// What a biome does to the tile `a` (giving `b`) when its draw of 100 came
/// up `roll` and, for a new deposit, the draw of its size came up `extra`:
/// the player's tiles stay; a tile the biome can change changes when the
/// roll is below the biome's odds, and stays otherwise. Volcanic earth turns
/// to lava, crystalline rock to mana crystal with `200 + extra` mana, flooded
/// earth to water, ancient earth to a gem seam with `150 + extra` gems, and a
/// corrupted gold vein keeps half its gold (at least 20).
pub open spec fn biome_rolled(biome: Biome, a: TileState, b: TileState, roll: u32, extra: u32) -> bool {
    if a.ownership == Ownership::Player {
        b == a
    } else {
        match biome {
            Biome::Standard => b == a,
            Biome::Volcanic => if a.tile_type@ == "earth"@ && roll < 15 {
                turned(a, b, "lava"@, a.resources_remaining)
            } else {
                b == a
            },
            Biome::Crystalline => if a.tile_type@ == "solid_rock"@ && roll < 12 {
                turned(a, b, "mana_crystal"@, Some((200 + extra) as u32))
            } else {
                b == a
            },
            Biome::Flooded => if a.tile_type@ == "earth"@ && roll < 20 {
                turned(a, b, "water"@, a.resources_remaining)
            } else {
                b == a
            },
            Biome::Ancient => if a.tile_type@ == "earth"@ && roll < 10 {
                turned(a, b, "gem_seam"@, Some((150 + extra) as u32))
            } else {
                b == a
            },
            Biome::Corrupted => if a.tile_type@ == "gold_vein"@ && roll < 30 {
                match a.resources_remaining {
                    Some(r) => b == TileState { resources_remaining: Some(if r / 2 > 20 { r / 2 } else { 20 }), ..a },
                    None => b == a,
                }
            } else {
                b == a
            },
        }
    }
}

/// Whether a draw of `roll` in 100 comes up at a chance of `percent` in 100:
/// never at no chance, always at a certain one.
fn chance(roll: u32, percent: u32) -> (r: bool)
    requires
        roll < 100,
        percent <= 100,
    ensures
        r == (roll < percent),
        percent == 0 ==> !r,
        percent == 100 ==> r,
{
    roll < percent
}

/// Let the biome act on one tile with the draws already made: `roll` of
/// 100, and `extra` for the size of a new deposit (see `biome_rolled`).
pub fn apply_biome_roll(tile: &mut TileState, biome: Biome, roll: u32, extra: u32)
    requires
        roll < 100,
        biome == Biome::Crystalline ==> extra < 200,
        biome == Biome::Ancient ==> extra < 150,
    ensures
        biome_rolled(biome, *old(tile), *final(tile), roll, extra),
        biome_effect(biome, *old(tile), *final(tile)),
{
    if tile.ownership == Ownership::Player {
        return;
    }
    match biome {
        Biome::Standard => {},
        Biome::Volcanic => {
            if str_eq(tile.tile_type.as_str(), "earth") && chance(roll, 15) {
                tile.tile_type = owned("lava");
            }
        },
        Biome::Crystalline => {
            if str_eq(tile.tile_type.as_str(), "solid_rock") && chance(roll, 12) {
                tile.tile_type = owned("mana_crystal");
                let n = 200 + extra;
                tile.resources_remaining = Some(n);
                assert(turned(*old(tile), *tile, "mana_crystal"@, Some(n)));
            }
        },
        Biome::Flooded => {
            if str_eq(tile.tile_type.as_str(), "earth") && chance(roll, 20) {
                tile.tile_type = owned("water");
            }
        },
        Biome::Ancient => {
            if str_eq(tile.tile_type.as_str(), "earth") && chance(roll, 10) {
                tile.tile_type = owned("gem_seam");
                let n = 150 + extra;
                tile.resources_remaining = Some(n);
                assert(turned(*old(tile), *tile, "gem_seam"@, Some(n)));
            }
        },
        Biome::Corrupted => {
            if str_eq(tile.tile_type.as_str(), "gold_vein") && chance(roll, 30) {
                match tile.resources_remaining {
                    Some(r) => {
                        let half = r / 2;
                        tile.resources_remaining = Some(if half > 20 { half } else { 20 });
                    },
                    None => {},
                }
            }
        },
    }
}

/// Whether a biome can change a tile of this type: earth for the volcanic,
/// flooded and ancient biomes, rock for the crystalline one and gold veins
/// for the corrupted one.
fn biome_takes(biome: Biome, tile_type: &str) -> (r: bool)
    ensures
        r == match biome {
            Biome::Standard => false,
            Biome::Volcanic | Biome::Flooded | Biome::Ancient => tile_type@ == "earth"@,
            Biome::Crystalline => tile_type@ == "solid_rock"@,
            Biome::Corrupted => tile_type@ == "gold_vein"@,
        },
{
    match biome {
        Biome::Standard => false,
        Biome::Volcanic | Biome::Flooded | Biome::Ancient => str_eq(tile_type, "earth"),
        Biome::Crystalline => str_eq(tile_type, "solid_rock"),
        Biome::Corrupted => str_eq(tile_type, "gold_vein"),
    }
}

/// Let the biome of one tile act on it (see `biome_rolled`): a tile the
/// biome can change, and that the player does not hold, gets a draw of 100
/// and, when that makes a new deposit, a draw of its size; other tiles draw
/// nothing.
fn apply_biome_to_tile(tile: &mut TileState, biome: Biome)
    ensures
        biome_effect(biome, *old(tile), *final(tile)),
        exists|roll: u32, extra: u32| roll < 100 && #[trigger] biome_rolled(biome, *old(tile), *final(tile), roll, extra),
{
    if tile.ownership == Ownership::Player || !biome_takes(biome, tile.tile_type.as_str()) {
        proof {
            assert(biome_rolled(biome, *old(tile), *tile, 99, 0));
        }
        return;
    }
    let roll = random_below(100);
    let odds: u32 = match biome {
        Biome::Standard => 0,
        Biome::Volcanic => 15,
        Biome::Crystalline => 12,
        Biome::Flooded => 20,
        Biome::Ancient => 10,
        Biome::Corrupted => 30,
    };
    let extra: u32 = if roll < odds {
        match biome {
            Biome::Crystalline => random_below(200),
            Biome::Ancient => random_below(150),
            _ => 0,
        }
    } else {
        0
    };
    apply_biome_roll(tile, biome, roll, extra);
}

/// The roll decides what a biome does to a tile it can change and that the
/// player does not hold: below the biome's odds (15 in 100 for volcanic
/// earth, 12 for crystalline rock, 20 for flooded earth, 10 for ancient
/// earth, 30 for corrupted gold veins) the tile changes as its biome says,
/// and otherwise it stays as it was.
pub proof fn biome_rolls_decide(biome: Biome, a: TileState, b: TileState, roll: u32, extra: u32)
    requires
        biome_rolled(biome, a, b, roll, extra),
        a.ownership != Ownership::Player,
    ensures
        biome == Biome::Volcanic && a.tile_type@ == "earth"@ ==> (roll < 15 <==> b.tile_type@ == "lava"@),
        biome == Biome::Volcanic && a.tile_type@ == "earth"@ && roll < 15 ==> (b == (TileState { tile_type: b.tile_type, ..a })),
        biome == Biome::Flooded && a.tile_type@ == "earth"@ ==> (roll < 20 <==> b.tile_type@ == "water"@),
        biome == Biome::Ancient && a.tile_type@ == "earth"@ ==> (roll < 10 <==> b.tile_type@ == "gem_seam"@),
        biome == Biome::Ancient && a.tile_type@ == "earth"@ && roll < 10 ==> (b.resources_remaining == Some((150 + extra) as u32)),
        biome == Biome::Crystalline && a.tile_type@ == "solid_rock"@ ==> (roll < 12 <==> b.tile_type@ == "mana_crystal"@),
        biome == Biome::Crystalline && a.tile_type@ == "solid_rock"@ && roll < 12 ==> (b.resources_remaining == Some((200 + extra) as u32)),
        biome == Biome::Corrupted && a.tile_type@ == "gold_vein"@ && roll < 30 ==> (match a.resources_remaining {
            Some(r) => b.resources_remaining == Some(if r / 2 > 20 { r / 2 } else { 20 }) && b.tile_type == a.tile_type,
            None => b == a,
        }),
        roll >= biome_odds(biome) ==> b == a,
{
    reveal_strlit("earth");
    reveal_strlit("lava");
    reveal_strlit("water");
    reveal_strlit("gem_seam");
    reveal_strlit("solid_rock");
    reveal_strlit("mana_crystal");
    assert("earth"@.len() == 5 && "lava"@.len() == 4 && "water"@.len() == 5 && "gem_seam"@.len() == 8);
    assert("solid_rock"@.len() == 10 && "mana_crystal"@.len() == 12);
    assert("earth"@[0] != "water"@[0]);
}

/// Let each biome act on the tiles off the outer ring that lie in it (see
/// `biome_effect`); the player's tiles stay as they are.
pub fn apply_biome_features(grid: &mut Grid, biome_map: &Vec<Vec<Biome>>)
    requires
        grid_wf(cells(old(grid))),
        biome_map@.len() == old(grid)@.len(),
        forall|y: int| 0 <= y < biome_map@.len() ==> (#[trigger] biome_map@[y])@.len() == old(grid)@[0]@.len(),
    ensures
        grid_wf(cells(final(grid))),
        biomes_applied(cells(old(grid)), cells(final(grid)), biome_map@),
{
    let ghost g0 = cells(grid);
    let height = grid.len();
    let width = grid[0].len();
    let mut y: usize = 1;
    while y + 1 < height
        invariant
            1 <= y,
            y + 1 <= height || y == 1,
            height == g0.len(),
            width == g0[0].len(),
            grid_wf(g0),
            biome_map@.len() == height,
            forall|yy: int| 0 <= yy < biome_map@.len() ==> (#[trigger] biome_map@[yy])@.len() == width,
            cells(grid).len() == g0.len(),
            forall|yy: int| 0 <= yy < g0.len() ==> #[trigger] cells(grid)[yy].len() == g0[yy].len(),
            forall|yy: int, x: int|
                #![trigger cells(grid)[yy][x]]
                0 <= yy < g0.len() && 0 <= x < g0[yy].len() ==> if 0 < yy < y && 0 < x < width - 1 {
                    biome_effect(biome_map@[yy]@[x], g0[yy][x], cells(grid)[yy][x])
                } else {
                    cells(grid)[yy][x] == g0[yy][x]
                },
        decreases height - y,
    {
        let mut x: usize = 1;
        while x + 1 < width
            invariant
                1 <= y < height - 1,
                1 <= x,
                x + 1 <= width || x == 1,
                height == g0.len(),
                width == g0[0].len(),
                grid_wf(g0),
                biome_map@.len() == height,
                forall|yy: int| 0 <= yy < biome_map@.len() ==> (#[trigger] biome_map@[yy])@.len() == width,
                cells(grid).len() == g0.len(),
                forall|yy: int| 0 <= yy < g0.len() ==> #[trigger] cells(grid)[yy].len() == g0[yy].len(),
                forall|yy: int, xx: int|
                    #![trigger cells(grid)[yy][xx]]
                    0 <= yy < g0.len() && 0 <= xx < g0[yy].len() ==> if (0 < yy < y && 0 < xx < width - 1) || (yy
                        == y && 0 < xx < x) {
                        biome_effect(biome_map@[yy]@[xx], g0[yy][xx], cells(grid)[yy][xx])
                    } else {
                        cells(grid)[yy][xx] == g0[yy][xx]
                    },
            decreases width - x,
        {
            let ghost before = cells(grid);
            assert(g0[y as int].len() == width);
            assert(before[y as int][x as int] == g0[y as int][x as int]);
            let biome = biome_map[y][x];
            apply_biome_to_tile(&mut grid[y][x], biome);
            proof {
                let after = cells(grid);
                assert forall|yy: int| 0 <= yy < g0.len() implies #[trigger] after[yy].len() == g0[yy].len() by {
                    if yy == y {
                        assert(after[yy] =~= before[yy].update(x as int, after[yy][x as int]));
                    } else {
                        assert(after[yy] == before[yy]);
                    }
                }
                assert forall|yy: int, xx: int|
                    #![trigger after[yy][xx]]
                    0 <= yy < g0.len() && 0 <= xx < g0[yy].len() && !(yy == y && xx == x) implies after[yy][xx] == before[yy][xx] by {
                    if yy == y {
                        assert(after[yy] =~= before[yy].update(x as int, after[yy][x as int]));
                    } else {
                        assert(after[yy] == before[yy]);
                    }
                }
            }
            x = x + 1;
        }
        proof {
            let g1 = cells(grid);
            assert forall|yy: int, xx: int|
                #![trigger g1[yy][xx]]
                0 <= yy < g0.len() && 0 <= xx < g0[yy].len() implies if 0 < yy < y + 1 && 0 < xx < width - 1 {
                    biome_effect(biome_map@[yy]@[xx], g0[yy][xx], g1[yy][xx])
                } else {
                    g1[yy][xx] == g0[yy][xx]
                } by {
                if yy == y && 0 < xx < width - 1 {
                    assert(xx < x);
                }
            }
        }
        y = y + 1;
    }
    proof {
        let g1 = cells(grid);
        assert forall|yy: int, xx: int|
            #![trigger g1[yy][xx]]
            0 <= yy < g0.len() && 0 <= xx < g0[yy].len() implies if 0 < yy < g0.len() - 1 && 0 < xx < g0[0].len() - 1 {
                biome_effect(biome_map@[yy]@[xx], g0[yy][xx], g1[yy][xx])
            } else {
                g1[yy][xx] == g0[yy][xx]
            } by {
            if 0 < yy < g0.len() - 1 {
                assert(yy < y);
            }
        }
        assert forall|yy: int| 0 <= yy < g1.len() implies #[trigger] g1[yy].len() == g1[0].len() by {
            assert(g0[yy].len() == g0[0].len());
        }
    }
}

} // verus!
