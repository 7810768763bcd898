//! Monster lairs: disks of corrupted floor held by the enemy, with a
//! monster spawner at the centre and a little gold, carved out of rock far
//! from the player's start.
use vstd::prelude::*;
use crate::tiles::{TilePos, TileState, Ownership, str_eq, owned};
use crate::grid::{Grid, cells, types};
use crate::features::{open_area, is_open_area};
use crate::starting_area::paintable;
use crate::portals::{d2, far_from};
use crate::random::random_below;

verus! {

/// `(x, y)` lies in the disk of radius `r` around `(cx, cy)`.
pub open spec fn in_disk(cx: int, cy: int, r: int, x: int, y: int) -> bool {
    (x - cx) * (x - cx) + (y - cy) * (y - cy) <= r * r
}

/// `b` is the tile `a` with a gold vein of 100 to 299 gold.
pub open spec fn gilded(a: TileState, b: TileState) -> bool {
    &&& b.tile_type@ == "gold_vein"@
    &&& exists|n: u32| 100 <= n < 300 && b == TileState { tile_type: b.tile_type, resources_remaining: Some(n), ..a }
}

/// `b` is the tile `a` made part of a lair: held by the enemy, and either
/// corrupted floor without resources or a gold vein of 100 to 299 gold.
pub open spec fn lair_floor(a: TileState, b: TileState) -> bool {
    &&& b == TileState {
        tile_type: b.tile_type,
        ownership: Ownership::Enemy,
        resources_remaining: b.resources_remaining,
        ..a
    }
    &&& ((b.tile_type@ == "corrupted_floor"@ && b.resources_remaining is None) || (b.tile_type@ == "gold_vein"@
        && exists|n: u32| 100 <= n < 300 && b.resources_remaining == Some(n)))
}

/// `b` is `a` with a lair of radius `r` around `(cx, cy)`: the spawner of
/// the enemy at the centre, the rest of the disk lair floor, perhaps a gold
/// vein on corrupted floor elsewhere in the square of side `2r + 1`, and
/// nothing else changed.
pub open spec fn lair_built(a: Seq<Seq<TileState>>, b: Seq<Seq<TileState>>, cx: int, cy: int, r: int) -> bool {
    &&& a.len() == b.len()
    &&& forall|y: int| 0 <= y < a.len() ==> #[trigger] b[y].len() == a[y].len()
    &&& forall|x: int, y: int|
        #![trigger b[y][x]]
        0 <= y < a.len() && 0 <= x < a[y].len() ==> if x == cx && y == cy {
            &&& b[y][x].tile_type@ == "monster_spawner"@
            &&& b[y][x] == TileState {
                tile_type: b[y][x].tile_type,
                ownership: Ownership::Enemy,
                resources_remaining: None,
                ..a[y][x]
            }
        } else if in_disk(cx, cy, r, x, y) {
            lair_floor(a[y][x], b[y][x])
        } else if cx - r <= x <= cx + r && cy - r <= y <= cy + r {
            b[y][x] == a[y][x] || (a[y][x].tile_type@ == "corrupted_floor"@ && gilded(a[y][x], b[y][x]))
        } else {
            b[y][x] == a[y][x]
        }
}

/// The disk painted so far: the tiles of the disk before row `dy` (relative
/// to the centre), and those of row `dy` before column `dx`, are corrupted
/// floor of the enemy without resources.
pub open spec fn disk_painted(a: Seq<Seq<TileState>>, b: Seq<Seq<TileState>>, cx: int, cy: int, r: int, dy: int, dx: int) -> bool {
    &&& a.len() == b.len()
    &&& forall|y: int| 0 <= y < a.len() ==> #[trigger] b[y].len() == a[y].len()
    &&& forall|x: int, y: int|
        #![trigger b[y][x]]
        0 <= y < a.len() && 0 <= x < a[y].len() ==> if in_disk(cx, cy, r, x, y) && (y - cy < dy || (y - cy == dy
            && x - cx < dx)) {
            &&& b[y][x].tile_type@ == "corrupted_floor"@
            &&& b[y][x] == TileState {
                tile_type: b[y][x].tile_type,
                ownership: Ownership::Enemy,
                resources_remaining: None,
                ..a[y][x]
            }
        } else {
            b[y][x] == a[y][x]
        }
}

/// A spot of the disk lies in its square.
proof fn lemma_disk_bounds(cx: int, cy: int, r: int, x: int, y: int)
    by (nonlinear_arith)
    requires
        r >= 0,
        in_disk(cx, cy, r, x, y),
    ensures
        -r <= x - cx <= r,
        -r <= y - cy <= r,
{
}

/// The lair's disk fits inside the border of the map.
pub open spec fn lair_fits(g: Seq<Seq<TileState>>, cx: int, cy: int) -> bool {
    4 <= cx && cx + 5 <= g[0].len() && 4 <= cy && cy + 5 <= g.len()
}

/// Set one tile of the grid, keeping the grid's shape.
fn set_tile_fields(grid: &mut Grid, x: usize, y: usize, t: &str, ownership: Option<Ownership>, resources: Option<Option<u32>>)
    requires
        paintable(cells(old(grid))),
        y < old(grid)@.len(),
        x < old(grid)@[0]@.len(),
    ensures
        paintable(cells(final(grid))),
        cells(final(grid)).len() == cells(old(grid)).len(),
        forall|yy: int| 0 <= yy < cells(old(grid)).len() ==> #[trigger] cells(final(grid))[yy].len() == cells(old(grid))[yy].len(),
        forall|xx: int, yy: int|
            #![trigger cells(final(grid))[yy][xx]]
            0 <= yy < cells(old(grid)).len() && 0 <= xx < cells(old(grid))[yy].len() && !(xx == x && yy == y)
                ==> cells(final(grid))[yy][xx] == cells(old(grid))[yy][xx],
        cells(final(grid))[y as int][x as int].tile_type@ == t@,
        cells(final(grid))[y as int][x as int] == (TileState {
            tile_type: cells(final(grid))[y as int][x as int].tile_type,
            ownership: match ownership {
                Some(o) => o,
                None => cells(old(grid))[y as int][x as int].ownership,
            },
            resources_remaining: match resources {
                Some(rr) => rr,
                None => cells(old(grid))[y as int][x as int].resources_remaining,
            },
            ..cells(old(grid))[y as int][x as int]
        }),
{
    let ghost before = cells(grid);
    assert(before[y as int].len() == before[0].len());
    grid[y][x].tile_type = owned(t);
    match ownership {
        Some(o) => {
            grid[y][x].ownership = o;
        },
        None => {},
    }
    match resources {
        Some(rr) => {
            grid[y][x].resources_remaining = rr;
        },
        None => {},
    }
    proof {
        let after = cells(grid);
        assert forall|yy: int| 0 <= yy < before.len() implies #[trigger] after[yy].len() == before[yy].len() by {
            if yy == y {
                assert(after[yy] =~= before[yy].update(x as int, after[yy][x as int]));
            } else {
                assert(after[yy] == before[yy]);
            }
        }
        assert forall|xx: int, yy: int|
            #![trigger after[yy][xx]]
            0 <= yy < before.len() && 0 <= xx < before[yy].len() && !(xx == x && yy == y) implies after[yy][xx] == before[yy][xx] by {
            if yy == y {
                assert(after[yy] =~= before[yy].update(x as int, after[yy][x as int]));
            } else {
                assert(after[yy] == before[yy]);
            }
        }
        assert forall|yy: int| 0 <= yy < after.len() implies #[trigger] after[yy].len() == after[0].len() by {
            assert(before[yy].len() == before[0].len());
        }
    }
}

/// Carve a monster lair around `(cx, cy)` (see `lair_built`): a disk of
/// random radius 2 or 3, the spawner at its centre, and three chances of
/// 3 in 10 each for a gold vein of 100 to 299 gold on corrupted floor off
/// the centre.
pub fn create_monster_lair(grid: &mut Grid, cx: usize, cy: usize)
    requires
        paintable(cells(old(grid))),
        old(grid)@.len() <= 0x10_0000,
        old(grid)@[0]@.len() <= 0x10_0000,
        lair_fits(cells(old(grid)), cx as int, cy as int),
    ensures
        paintable(cells(final(grid))),
        exists|r: int| 2 <= r <= 3 && #[trigger] lair_built(cells(old(grid)), cells(final(grid)), cx as int, cy as int, r),
{
    let ghost g0 = cells(grid);
    let radius: i64 = 2 + random_below(2) as i64;
    let ghost r = radius as int;
    let mut dy: i64 = -radius;
    proof {
        assert forall|xx: int, yy: int| in_disk(cx as int, cy as int, r, xx, yy) implies yy - cy >= -r && xx - cx >= -r by {
            lemma_disk_bounds(cx as int, cy as int, r, xx, yy);
        }
        assert(disk_painted(g0, cells(grid), cx as int, cy as int, r, -r, -r));
    }
    while dy <= radius
        invariant
            2 <= radius <= 3,
            r == radius,
            -radius <= dy <= radius + 1,
            paintable(cells(grid)),
            paintable(g0),
            g0[0].len() <= 0x10_0000,
            lair_fits(g0, cx as int, cy as int),
            cells(grid).len() == g0.len(),
            cells(grid)[0].len() == g0[0].len(),
            disk_painted(g0, cells(grid), cx as int, cy as int, r, dy as int, -radius as int),
        decreases radius + 1 - dy,
    {
        let mut dx: i64 = -radius;
        while dx <= radius
            invariant
                2 <= radius <= 3,
                r == radius,
                -radius <= dy <= radius,
                -radius <= dx <= radius + 1,
                paintable(cells(grid)),
                paintable(g0),
                g0[0].len() <= 0x10_0000,
                lair_fits(g0, cx as int, cy as int),
                cells(grid).len() == g0.len(),
                cells(grid)[0].len() == g0[0].len(),
                disk_painted(g0, cells(grid), cx as int, cy as int, r, dy as int, dx as int),
            decreases radius + 1 - dx,
        {
            assert(0 <= dx * dx <= 16 && 0 <= dy * dy <= 9 && radius * radius <= 9) by (nonlinear_arith)
                requires
                    -3 <= dx <= 4,
                    -3 <= dy <= 3,
                    2 <= radius <= 3,
            ;
            let ghost before = cells(grid);
            if dx * dx + dy * dy <= radius * radius {
                let x = (cx as i64 + dx) as usize;
                let y = (cy as i64 + dy) as usize;
                set_tile_fields(grid, x, y, "corrupted_floor", Some(Ownership::Enemy), Some(None));
                proof {
                    let after = cells(grid);
                    assert forall|xx: int, yy: int|
                        #![trigger after[yy][xx]]
                        0 <= yy < g0.len() && 0 <= xx < g0[yy].len() implies if in_disk(cx as int, cy as int, r, xx, yy) && (yy - cy < dy || (yy - cy == dy && xx - cx < dx + 1)) {
                            &&& after[yy][xx].tile_type@ == "corrupted_floor"@
                            &&& after[yy][xx] == TileState {
                                tile_type: after[yy][xx].tile_type,
                                ownership: Ownership::Enemy,
                                resources_remaining: None,
                                ..g0[yy][xx]
                            }
                        } else {
                            after[yy][xx] == g0[yy][xx]
                        } by {
                        assert(g0[yy].len() == g0[0].len());
                        if xx == x && yy == y {
                            assert(before[yy][xx] == g0[yy][xx] || before[yy][xx] == TileState {
                                tile_type: before[yy][xx].tile_type,
                                ownership: Ownership::Enemy,
                                resources_remaining: None,
                                ..g0[yy][xx]
                            });
                        } else {
                            assert(after[yy][xx] == before[yy][xx]);
                        }
                    }
                }
            } else {
                proof {
                    assert forall|xx: int, yy: int|
                        #![trigger before[yy][xx]]
                        0 <= yy < g0.len() && 0 <= xx < g0[yy].len() && in_disk(cx as int, cy as int, r, xx, yy) implies !(yy - cy == dy && xx - cx == dx) by {
                    }
                }
            }
            dx = dx + 1;
        }
        proof {
            assert forall|xx: int, yy: int| in_disk(cx as int, cy as int, r, xx, yy) implies xx - cx < r + 1 && xx - cx >= -r by {
                lemma_disk_bounds(cx as int, cy as int, r, xx, yy);
            }
        }
        dy = dy + 1;
    }
    proof {
        assert forall|xx: int, yy: int| in_disk(cx as int, cy as int, r, xx, yy) implies yy - cy < r + 1 by {
            lemma_disk_bounds(cx as int, cy as int, r, xx, yy);
        }
    }
    let ghost g1 = cells(grid);
    assert(disk_painted(g0, g1, cx as int, cy as int, r, r + 1, -r));
    set_tile_fields(grid, cx, cy, "monster_spawner", Some(Ownership::Enemy), None);
    proof {
        let g2 = cells(grid);
        assert(in_disk(cx as int, cy as int, r, cx as int, cy as int));
        assert forall|xx: int, yy: int|
            #![trigger g2[yy][xx]]
            0 <= yy < g0.len() && 0 <= xx < g0[yy].len() implies if xx == cx && yy == cy {
                &&& g2[yy][xx].tile_type@ == "monster_spawner"@
                &&& g2[yy][xx] == TileState {
                    tile_type: g2[yy][xx].tile_type,
                    ownership: Ownership::Enemy,
                    resources_remaining: None,
                    ..g0[yy][xx]
                }
            } else if in_disk(cx as int, cy as int, r, xx, yy) {
                lair_floor(g0[yy][xx], g2[yy][xx])
            } else if cx - r <= xx <= cx + r && cy - r <= yy <= cy + r {
                g2[yy][xx] == g0[yy][xx] || (g0[yy][xx].tile_type@ == "corrupted_floor"@ && gilded(g0[yy][xx], g2[yy][xx]))
            } else {
                g2[yy][xx] == g0[yy][xx]
            } by {
            assert(g0[yy].len() == g0[0].len());
            if !(xx == cx && yy == cy) {
                assert(g2[yy][xx] == g1[yy][xx]);
            }
        }
    }
    let mut k: u32 = 0;
    while k < 3
        invariant
            2 <= radius <= 3,
            r == radius,
            paintable(cells(grid)),
            paintable(g0),
            g0[0].len() <= 0x10_0000,
            lair_fits(g0, cx as int, cy as int),
            cells(grid).len() == g0.len(),
            cells(grid)[0].len() == g0[0].len(),
            lair_built(g0, cells(grid), cx as int, cy as int, r),
        decreases 3 - k,
    {
        let dx = random_below((2 * radius + 1) as u32) as i64 - radius;
        let dy = random_below((2 * radius + 1) as u32) as i64 - radius;
        let x = (cx as i64 + dx) as usize;
        let y = (cy as i64 + dy) as usize;
        assert(cells(grid)[y as int].len() == g0[0].len()) by {
            assert(g0[y as int].len() == g0[0].len());
        }
        if str_eq(grid[y][x].tile_type.as_str(), "corrupted_floor") && (dx != 0 || dy != 0) && random_below(10) < 3 {
            let amount = 100 + random_below(200);
            let ghost before = cells(grid);
            set_tile_fields(grid, x, y, "gold_vein", None, Some(Some(amount)));
            proof {
                let after = cells(grid);
                reveal_strlit("corrupted_floor");
                reveal_strlit("gold_vein");
                reveal_strlit("monster_spawner");
                assert("corrupted_floor"@.len() != "gold_vein"@.len());
                assert forall|xx: int, yy: int|
                    #![trigger after[yy][xx]]
                    0 <= yy < g0.len() && 0 <= xx < g0[yy].len() implies if xx == cx && yy == cy {
                        &&& after[yy][xx].tile_type@ == "monster_spawner"@
                        &&& after[yy][xx] == TileState {
                            tile_type: after[yy][xx].tile_type,
                            ownership: Ownership::Enemy,
                            resources_remaining: None,
                            ..g0[yy][xx]
                        }
                    } else if in_disk(cx as int, cy as int, r, xx, yy) {
                        lair_floor(g0[yy][xx], after[yy][xx])
                    } else if cx - r <= xx <= cx + r && cy - r <= yy <= cy + r {
                        after[yy][xx] == g0[yy][xx] || (g0[yy][xx].tile_type@ == "corrupted_floor"@ && gilded(g0[yy][xx], after[yy][xx]))
                    } else {
                        after[yy][xx] == g0[yy][xx]
                    } by {
                    assert(g0[yy].len() == g0[0].len());
                    if xx == x && yy == y {
                        assert(before[yy][xx].tile_type@ == "corrupted_floor"@);
                        assert(after[yy][xx] == TileState {
                            tile_type: after[yy][xx].tile_type,
                            resources_remaining: Some(amount),
                            ..before[yy][xx]
                        });
                        if in_disk(cx as int, cy as int, r, xx, yy) {
                            assert(lair_floor(g0[yy][xx], before[yy][xx]));
                            assert(100 <= amount < 300 && after[yy][xx].resources_remaining == Some(amount));
                        } else {
                            assert(before[yy][xx] == g0[yy][xx]);
                            assert(gilded(g0[yy][xx], after[yy][xx]));
                        }
                    } else {
                        assert(after[yy][xx] == before[yy][xx]);
                    }
                }
            }
        }
        k = k + 1;
    }
}

/// Try to carve a lair at a random spot at least 10 in from the edges: not
/// when the spot is nearer the start than `min_dist_centi` hundredths of a
/// tile, nor when the area around it (radius 3) is open. Whether a lair is
/// placed is decided by the drawn spot alone.
pub fn try_place_lair(grid: &mut Grid, width: usize, height: usize, start_pos: TilePos, min_dist_centi: u32) -> (placed: bool)
    requires
        paintable(cells(old(grid))),
        width == old(grid)@[0]@.len(),
        height == old(grid)@.len(),
        20 < width <= 0x10_0000,
        20 < height <= 0x10_0000,
        -0x10_0000 <= start_pos.x <= 0x10_0000,
        -0x10_0000 <= start_pos.y <= 0x10_0000,
        min_dist_centi <= 0x1000_0000,
    ensures
        paintable(cells(final(grid))),
        !placed ==> cells(final(grid)) == cells(old(grid)),
        placed ==> exists|cx: int, cy: int, r: int|
            {
                &&& 10 <= cx < width - 10
                &&& 10 <= cy < height - 10
                &&& far_from(TilePos { x: cx as i32, y: cy as i32 }, start_pos, min_dist_centi as int)
                &&& !open_area(types(cells(old(grid))), TilePos { x: cx as i32, y: cy as i32 }, 3)
                &&& 2 <= r <= 3
                &&& #[trigger] lair_built(cells(old(grid)), cells(final(grid)), cx, cy, r)
            },
        exists|cx: int, cy: int|
            #[trigger] lair_try_outcome(types(cells(old(grid))), width as int, height as int, start_pos, min_dist_centi as int, cx, cy, placed),
{
    let cx = 10 + random_below((width - 20) as u32) as usize;
    let cy = 10 + random_below((height - 20) as u32) as usize;
    let pos = TilePos::new(cx as i32, cy as i32);
    let dx: i64 = cx as i64 - start_pos.x as i64;
    let dy: i64 = cy as i64 - start_pos.y as i64;
    assert(0 <= dx * dx <= 0x400_0000_0000 && 0 <= dy * dy <= 0x400_0000_0000) by (nonlinear_arith)
        requires
            -0x20_0000 <= dx <= 0x20_0000,
            -0x20_0000 <= dy <= 0x20_0000,
    ;
    let c = min_dist_centi as u128;
    assert(c * c <= 0x100_0000_0000_0000_0000) by (nonlinear_arith)
        requires
            c <= 0x1000_0000,
    ;
    let d = (dx * dx + dy * dy) as u128;
    assert(d == d2(pos, start_pos));
    let ghost t0 = types(cells(grid));
    if 10000 * d < c * c {
        proof {
            assert(lair_try_outcome(t0, width as int, height as int, start_pos, min_dist_centi as int, cx as int, cy as int, false));
        }
        return false;
    }
    if is_open_area(grid, pos, 3) {
        proof {
            assert(lair_try_outcome(t0, width as int, height as int, start_pos, min_dist_centi as int, cx as int, cy as int, false));
        }
        return false;
    }
    proof {
        assert(lair_try_outcome(t0, width as int, height as int, start_pos, min_dist_centi as int, cx as int, cy as int, true));
    }
    create_monster_lair(grid, cx, cy);
    true
}

/// A try at a lair drawn at `(cx, cy)` (at least 10 in from the edges of a
/// `width` by `height` map) succeeds exactly when the spot is far enough
/// from the start and the area around it is not open.
pub open spec fn lair_try_outcome(
    t: Seq<Seq<Seq<char>>>,
    width: int,
    height: int,
    start_pos: TilePos,
    centi: int,
    cx: int,
    cy: int,
    placed: bool,
) -> bool {
    &&& 10 <= cx < width - 10
    &&& 10 <= cy < height - 10
    &&& placed == (far_from(TilePos { x: cx as i32, y: cy as i32 }, start_pos, centi) && !open_area(
        t,
        TilePos { x: cx as i32, y: cy as i32 },
        3,
    ))
}

/// `b` is the tile `a` as a lair may leave it: corrupted floor or a monster
/// spawner of the enemy without resources, or a gold vein of 100 to 299
/// gold; its position, owner, dig mark, room and fog are those of `a`.
pub open spec fn lair_touched(a: TileState, b: TileState) -> bool {
    &&& b == TileState {
        tile_type: b.tile_type,
        ownership: b.ownership,
        resources_remaining: b.resources_remaining,
        ..a
    }
    &&& {
        ||| (b.tile_type@ == "corrupted_floor"@ && b.ownership == Ownership::Enemy && b.resources_remaining is None)
        ||| (b.tile_type@ == "monster_spawner"@ && b.ownership == Ownership::Enemy && b.resources_remaining is None)
        ||| (b.tile_type@ == "gold_vein"@ && exists|n: u32| 100 <= n < 300 && b.resources_remaining == Some(n))
    }
}

/// `b` is `a` with lairs added: each changed tile as a lair may leave it,
/// and each new monster spawner at least 10 in from the edges and at least
/// 10 tiles from `start`.
pub open spec fn lairs_added(a: Seq<Seq<TileState>>, b: Seq<Seq<TileState>>, start: TilePos) -> bool {
    &&& a.len() == b.len()
    &&& forall|y: int| 0 <= y < a.len() ==> #[trigger] b[y].len() == a[y].len()
    &&& forall|x: int, y: int|
        #![trigger b[y][x]]
        0 <= y < a.len() && 0 <= x < a[y].len() ==> b[y][x] == a[y][x] || {
            &&& lair_touched(a[y][x], b[y][x])
            &&& b[y][x].tile_type@ == "monster_spawner"@ ==> {
                &&& 10 <= x < a[0].len() - 10
                &&& 10 <= y < a.len() - 10
                &&& far_from(TilePos { x: x as i32, y: y as i32 }, start, 1000)
            }
        }
}

proof fn lemma_lair_added(a: Seq<Seq<TileState>>, b: Seq<Seq<TileState>>, c: Seq<Seq<TileState>>, start: TilePos, cx: int, cy: int, r: int, centi: int)
    requires
        paintable(a),
        lairs_added(a, b, start),
        lair_built(b, c, cx, cy, r),
        10 <= cx < a[0].len() - 10,
        10 <= cy < a.len() - 10,
        far_from(TilePos { x: cx as i32, y: cy as i32 }, start, centi),
        centi >= 1000,
        0 <= cx <= i32::MAX,
        0 <= cy <= i32::MAX,
    ensures
        lairs_added(a, c, start),
{
    assert(1000 * 1000 <= centi * centi) by (nonlinear_arith)
        requires
            centi >= 1000,
    ;
    assert forall|x: int, y: int|
        #![trigger c[y][x]]
        0 <= y < a.len() && 0 <= x < a[y].len() implies c[y][x] == a[y][x] || {
            &&& lair_touched(a[y][x], c[y][x])
            &&& c[y][x].tile_type@ == "monster_spawner"@ ==> {
                &&& 10 <= x < a[0].len() - 10
                &&& 10 <= y < a.len() - 10
                &&& far_from(TilePos { x: x as i32, y: y as i32 }, start, 1000)
            }
        } by {
        reveal_strlit("corrupted_floor");
        reveal_strlit("gold_vein");
        reveal_strlit("monster_spawner");
        assert("gold_vein"@.len() != "monster_spawner"@.len());
        assert("corrupted_floor"@[0] != "monster_spawner"@[0]);
        assert(b[y].len() == a[y].len());
        if x == cx && y == cy {
            assert(TilePos { x: x as i32, y: y as i32 } == TilePos { x: cx as i32, y: cy as i32 });
        } else if in_disk(cx, cy, r, x, y) {
            assert(lair_floor(b[y][x], c[y][x]));
        } else {
            if c[y][x] != b[y][x] {
                assert(gilded(b[y][x], c[y][x]));
            }
        }
    }
}

/// One try at a lair (see `try_place_lair`) takes `a` to `b` with result
/// `placed`, the distance limit being `centi` hundredths of a tile.
pub open spec fn lair_tried(
    a: Seq<Seq<TileState>>,
    b: Seq<Seq<TileState>>,
    width: int,
    height: int,
    start_pos: TilePos,
    centi: int,
    placed: bool,
) -> bool {
    &&& !placed ==> b == a
    &&& placed ==> exists|cx: int, cy: int, r: int|
        {
            &&& 10 <= cx < width - 10
            &&& 10 <= cy < height - 10
            &&& far_from(TilePos { x: cx as i32, y: cy as i32 }, start_pos, centi)
            &&& !open_area(types(a), TilePos { x: cx as i32, y: cy as i32 }, 3)
            &&& 2 <= r <= 3
            &&& #[trigger] lair_built(a, b, cx, cy, r)
        }
    &&& exists|cx: int, cy: int| #[trigger] lair_try_outcome(types(a), width, height, start_pos, centi, cx, cy, placed)
}

/// How many of the tries succeeded.
pub open spec fn count_placed(ps: Seq<bool>) -> nat
    decreases ps.len(),
{
    if ps.len() == 0 {
        0
    } else {
        count_placed(ps.drop_last()) + if ps.last() { 1nat } else { 0nat }
    }
}

/// The distance limit of the `j`th fallback try, in hundredths of a tile:
/// 2500 shrunk by a fifth `j` times, never below 1000.
pub open spec fn fallback_centi(j: nat) -> int
    decreases j,
{
    if j == 0 {
        2500
    } else {
        let d = fallback_centi((j - 1) as nat) * 4 / 5;
        if d < 1000 { 1000 } else { d }
    }
}

/// The tries of one run of `add_monster_lairs`: grids `gs`, results `ps`,
/// distance limits `cs`. With `target` lairs wanted, the first `n1` tries
/// (at most 100, at 2500) go on while fewer than `target` stand; the rest (at
/// most 200, at the shrinking fallback limits) while fewer than two stand.
pub open spec fn lair_run(
    gs: Seq<Seq<Seq<TileState>>>,
    ps: Seq<bool>,
    cs: Seq<int>,
    target: int,
    n1: int,
    width: int,
    height: int,
    start_pos: TilePos,
) -> bool {
    let n = ps.len() as int;
    &&& gs.len() == n + 1
    &&& cs.len() == n
    &&& 3 <= target <= 5
    &&& 0 <= n1 <= 100
    &&& n1 <= n <= n1 + 200
    &&& forall|k: int| 0 <= k < n ==> #[trigger] lair_tried(gs[k], gs[k + 1], width, height, start_pos, cs[k], ps[k])
    &&& forall|k: int| 0 <= k < n1 ==> #[trigger] cs[k] == 2500 && count_placed(ps.take(k)) < target
    &&& n1 == 100 || count_placed(ps.take(n1)) >= target
    &&& forall|k: int| n1 <= k < n ==> #[trigger] cs[k] == fallback_centi((k - n1 + 1) as nat) && count_placed(ps.take(k)) < 2
    &&& n == n1 + 200 || count_placed(ps) >= 2
}

/// Carve three to five monster lairs (see `try_place_lair`): up to 100 tries
/// at least 25 tiles from the start; then, while fewer than two stand, up to
/// 200 more tries, each at a distance shrunk by a fifth (never below 10).
pub fn add_monster_lairs(grid: &mut Grid, start_pos: TilePos)
    requires
        paintable(cells(old(grid))),
        20 < old(grid)@[0]@.len() <= 0x10_0000,
        20 < old(grid)@.len() <= 0x10_0000,
        -0x10_0000 <= start_pos.x <= 0x10_0000,
        -0x10_0000 <= start_pos.y <= 0x10_0000,
    ensures
        paintable(cells(final(grid))),
        lairs_added(cells(old(grid)), cells(final(grid)), start_pos),
        exists|gs: Seq<Seq<Seq<TileState>>>, ps: Seq<bool>, cs: Seq<int>, target: int, n1: int|
            {
                &&& #[trigger] lair_run(gs, ps, cs, target, n1, old(grid)@[0]@.len() as int, old(grid)@.len() as int, start_pos)
                &&& gs[0] == cells(old(grid))
                &&& gs[ps.len() as int] == cells(final(grid))
            },
{
    let ghost g0 = cells(grid);
    let height = grid.len();
    let width = grid[0].len();
    let target_lairs = 3 + random_below(3);
    let mut min_distance: u32 = 2500;
    let mut lairs_placed: u32 = 0;
    let mut attempts: u32 = 0;
    let ghost mut gs: Seq<Seq<Seq<TileState>>> = seq![g0];
    let ghost mut ps: Seq<bool> = Seq::empty();
    let ghost mut cs: Seq<int> = Seq::empty();
    assert(lairs_added(g0, cells(grid), start_pos));
    while lairs_placed < target_lairs && attempts < 100
        invariant
            paintable(g0),
            paintable(cells(grid)),
            g0.len() == height,
            g0[0].len() == width,
            cells(grid).len() == height,
            cells(grid)[0].len() == width,
            20 < width <= 0x10_0000,
            20 < height <= 0x10_0000,
            -0x10_0000 <= start_pos.x <= 0x10_0000,
            -0x10_0000 <= start_pos.y <= 0x10_0000,
            min_distance == 2500,
            lairs_placed <= attempts,
            attempts <= 100,
            3 <= target_lairs <= 5,
            lairs_added(g0, cells(grid), start_pos),
            gs.len() == attempts + 1,
            ps.len() == attempts,
            cs.len() == attempts,
            gs[0] == g0,
            gs[attempts as int] == cells(grid),
            lairs_placed == count_placed(ps),
            forall|k: int|
                0 <= k < attempts ==> #[trigger] lair_tried(gs[k], gs[k + 1], width as int, height as int, start_pos, cs[k], ps[k]),
            forall|k: int| 0 <= k < attempts ==> #[trigger] cs[k] == 2500 && count_placed(ps.take(k)) < target_lairs,
        decreases 100 - attempts,
    {
        let ghost before = cells(grid);
        let ghost ps0 = ps;
        let ghost gs0 = gs;
        let ghost cs0 = cs;
        let placed = try_place_lair(grid, width, height, start_pos, min_distance);
        if placed {
            lairs_placed = lairs_placed + 1;
            proof {
                let (cx, cy, r) = choose|cx: int, cy: int, r: int|
                    {
                        &&& 10 <= cx < width - 10
                        &&& 10 <= cy < height - 10
                        &&& far_from(TilePos { x: cx as i32, y: cy as i32 }, start_pos, min_distance as int)
                        &&& !open_area(types(before), TilePos { x: cx as i32, y: cy as i32 }, 3)
                        &&& 2 <= r <= 3
                        &&& #[trigger] lair_built(before, cells(grid), cx, cy, r)
                    };
                lemma_lair_added(g0, before, cells(grid), start_pos, cx, cy, r, min_distance as int);
            }
        }
        proof {
            gs = gs.push(cells(grid));
            ps = ps.push(placed);
            cs = cs.push(2500);
            assert(ps.drop_last() =~= ps0);
            assert(lair_tried(before, cells(grid), width as int, height as int, start_pos, 2500, placed));
            assert forall|k: int|
                0 <= k < attempts + 1 implies #[trigger] lair_tried(gs[k], gs[k + 1], width as int, height as int, start_pos, cs[k], ps[k]) by {
                if k < attempts {
                    assert(lair_tried(gs0[k], gs0[k + 1], width as int, height as int, start_pos, cs0[k], ps0[k]));
                    assert(gs[k] == gs0[k] && gs[k + 1] == gs0[k + 1] && cs[k] == cs0[k] && ps[k] == ps0[k]);
                }
            }
            assert forall|k: int| 0 <= k < attempts + 1 implies #[trigger] cs[k] == 2500 && count_placed(ps.take(k)) < target_lairs by {
                assert(ps.take(k) =~= ps0.take(k) || k == attempts);
                if k == attempts {
                    assert(ps.take(k) =~= ps0);
                } else {
                    assert(cs[k] == cs0[k]);
                }
            }
        }
        attempts = attempts + 1;
    }
    let ghost n1 = attempts as int;
    proof {
        assert(ps.take(n1) =~= ps);
    }
    let mut fallback_attempts: u32 = 0;
    while lairs_placed < 2 && fallback_attempts < 200
        invariant
            paintable(g0),
            paintable(cells(grid)),
            g0.len() == height,
            g0[0].len() == width,
            cells(grid).len() == height,
            cells(grid)[0].len() == width,
            20 < width <= 0x10_0000,
            20 < height <= 0x10_0000,
            -0x10_0000 <= start_pos.x <= 0x10_0000,
            -0x10_0000 <= start_pos.y <= 0x10_0000,
            1000 <= min_distance <= 2500,
            min_distance == fallback_centi(fallback_attempts as nat),
            fallback_attempts <= 200,
            3 <= target_lairs <= 5,
            0 <= n1 <= 100,
            n1 == 100 || count_placed(ps.take(n1)) >= target_lairs,
            lairs_added(g0, cells(grid), start_pos),
            gs.len() == n1 + fallback_attempts + 1,
            ps.len() == n1 + fallback_attempts,
            cs.len() == n1 + fallback_attempts,
            gs[0] == g0,
            gs[n1 + fallback_attempts] == cells(grid),
            lairs_placed == count_placed(ps),
            forall|k: int|
                0 <= k < ps.len() ==> #[trigger] lair_tried(gs[k], gs[k + 1], width as int, height as int, start_pos, cs[k], ps[k]),
            forall|k: int| 0 <= k < n1 ==> #[trigger] cs[k] == 2500 && count_placed(ps.take(k)) < target_lairs,
            forall|k: int|
                n1 <= k < ps.len() ==> #[trigger] cs[k] == fallback_centi((k - n1 + 1) as nat) && count_placed(ps.take(k)) < 2,
        decreases 200 - fallback_attempts,
    {
        let ghost ps0 = ps;
        let ghost gs0 = gs;
        let ghost cs0 = cs;
        fallback_attempts = fallback_attempts + 1;
        min_distance = min_distance * 4 / 5;
        if min_distance < 1000 {
            min_distance = 1000;
        }
        let ghost before = cells(grid);
        let placed = try_place_lair(grid, width, height, start_pos, min_distance);
        if placed {
            lairs_placed = lairs_placed + 1;
            proof {
                let (cx, cy, r) = choose|cx: int, cy: int, r: int|
                    {
                        &&& 10 <= cx < width - 10
                        &&& 10 <= cy < height - 10
                        &&& far_from(TilePos { x: cx as i32, y: cy as i32 }, start_pos, min_distance as int)
                        &&& !open_area(types(before), TilePos { x: cx as i32, y: cy as i32 }, 3)
                        &&& 2 <= r <= 3
                        &&& #[trigger] lair_built(before, cells(grid), cx, cy, r)
                    };
                lemma_lair_added(g0, before, cells(grid), start_pos, cx, cy, r, min_distance as int);
            }
        }
        proof {
            let j = ps0.len() as int;
            gs = gs.push(cells(grid));
            ps = ps.push(placed);
            cs = cs.push(min_distance as int);
            assert(ps.drop_last() =~= ps0);
            assert(lair_tried(before, cells(grid), width as int, height as int, start_pos, min_distance as int, placed));
            assert forall|k: int|
                0 <= k < ps.len() implies #[trigger] lair_tried(gs[k], gs[k + 1], width as int, height as int, start_pos, cs[k], ps[k]) by {
                if k < j {
                    assert(lair_tried(gs0[k], gs0[k + 1], width as int, height as int, start_pos, cs0[k], ps0[k]));
                    assert(gs[k] == gs0[k] && gs[k + 1] == gs0[k + 1] && cs[k] == cs0[k] && ps[k] == ps0[k]);
                }
            }
            assert forall|k: int| 0 <= k < n1 implies #[trigger] cs[k] == 2500 && count_placed(ps.take(k)) < target_lairs by {
                assert(cs[k] == cs0[k]);
                assert(ps.take(k) =~= ps0.take(k));
            }
            assert forall|k: int|
                n1 <= k < ps.len() implies #[trigger] cs[k] == fallback_centi((k - n1 + 1) as nat) && count_placed(ps.take(k)) < 2 by {
                if k < j {
                    assert(cs[k] == cs0[k]);
                    assert(ps.take(k) =~= ps0.take(k));
                } else {
                    assert(ps.take(k) =~= ps0);
                    assert(k - n1 + 1 == fallback_attempts);
                }
            }
            assert(ps.take(n1) =~= ps0.take(n1));
        }
    }
    proof {
        assert(lair_run(gs, ps, cs, target_lairs as int, n1, width as int, height as int, start_pos));
    }
}
} // verus!
