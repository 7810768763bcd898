//! Natural features of the map generator: open-area checks and stone pillars.
use vstd::prelude::*;
use crate::tiles::{TilePos, Ownership, is_solid_type, is_solid_tile, owned, ownership_eq};
use crate::grid::{Grid, cells, types, grid_wf, width, height, same_but_types};
use crate::connectivity::{inner_cell, new_flags, flags, flagged, flags_shape, lemma_flag_update};
use crate::counting::sum_false;
use crate::random::random_below;
use crate::tiles::{TileState, str_eq};
use crate::starting_area::{clamp_in, painted_unowned, paint_unowned_tile, paintable};

verus! {

/// Number of off-ring tiles in row `y`, columns `xlo..xhi`.
pub open spec fn row_total(t: Seq<Seq<Seq<char>>>, xlo: int, xhi: int, y: int) -> int
    decreases xhi - xlo,
{
    if xhi <= xlo {
        0
    } else {
        row_total(t, xlo, xhi - 1, y) + if inner_cell(t, xhi - 1, y) {
            1int
        } else {
            0int
        }
    }
}

/// Number of open off-ring tiles in row `y`, columns `xlo..xhi`.
pub open spec fn row_open(t: Seq<Seq<Seq<char>>>, xlo: int, xhi: int, y: int) -> int
    decreases xhi - xlo,
{
    if xhi <= xlo {
        0
    } else {
        row_open(t, xlo, xhi - 1, y) + if inner_cell(t, xhi - 1, y) && !is_solid_type(
            t[y][xhi - 1],
        ) {
            1int
        } else {
            0int
        }
    }
}

/// Number of off-ring tiles in rows `ylo..yhi`, columns `xlo..xhi`.
pub open spec fn area_total(t: Seq<Seq<Seq<char>>>, xlo: int, xhi: int, ylo: int, yhi: int) -> int
    decreases yhi - ylo,
{
    if yhi <= ylo {
        0
    } else {
        area_total(t, xlo, xhi, ylo, yhi - 1) + row_total(t, xlo, xhi, yhi - 1)
    }
}

/// Number of open off-ring tiles in rows `ylo..yhi`, columns `xlo..xhi`.
pub open spec fn area_open(t: Seq<Seq<Seq<char>>>, xlo: int, xhi: int, ylo: int, yhi: int) -> int
    decreases yhi - ylo,
{
    if yhi <= ylo {
        0
    } else {
        area_open(t, xlo, xhi, ylo, yhi - 1) + row_open(t, xlo, xhi, yhi - 1)
    }
}

proof fn lemma_row_bounds(t: Seq<Seq<Seq<char>>>, xlo: int, xhi: int, y: int)
    ensures
        0 <= row_open(t, xlo, xhi, y) <= row_total(t, xlo, xhi, y),
        xlo <= xhi ==> row_total(t, xlo, xhi, y) <= xhi - xlo,
    decreases xhi - xlo,
{
    if xhi > xlo {
        lemma_row_bounds(t, xlo, xhi - 1, y);
    }
}

/// More than 70% of the off-ring tiles within `radius` (a square) of
/// `center` are open, and there is at least one such tile.
pub open spec fn open_area(t: Seq<Seq<Seq<char>>>, center: TilePos, radius: int) -> bool {
    let total = area_total(t, center.x - radius, center.x + radius + 1, center.y - radius, center.y + radius + 1);
    let open = area_open(t, center.x - radius, center.x + radius + 1, center.y - radius, center.y + radius + 1);
    total > 0 && 10 * open > 7 * total
}

/// Check if an area is mostly open: more than 70% of the off-ring tiles in the
/// square of the given radius around `center` are not solid.
pub fn is_open_area(grid: &Grid, center: TilePos, radius: usize) -> (r: bool)
    requires
        grid_wf(cells(grid)),
        i32::MIN <= center.x - radius,
        center.x + radius <= i32::MAX,
        i32::MIN <= center.y - radius,
        center.y + radius <= i32::MAX,
    ensures
        r == open_area(types(cells(grid)), center, radius as int),
{
    let ghost t = types(cells(grid));
    let height_n = grid.len() as i64;
    let width_n = grid[0].len() as i64;
    proof {
        assert(t[0].len() == width_n);
        assert forall|y: int| 0 <= y < t.len() implies #[trigger] t[y].len() == width_n by {
            assert(cells(grid)[y].len() == cells(grid)[0].len());
        }
    }
    let r = radius as i64;
    let ghost xlo = center.x - r;
    let ghost xhi = center.x + r + 1;
    let mut open_count: u128 = 0;
    let mut total_count: u128 = 0;
    let mut dy: i64 = -r;
    while dy <= r
        invariant
            -r <= dy <= r + 1,
            0 <= r <= 0x1_0000_0000,
            height_n == t.len(),
            width_n == t[0].len(),
            forall|y: int| 0 <= y < t.len() ==> #[trigger] t[y].len() == width_n,
            t == types(cells(grid)),
            grid_wf(cells(grid)),
            xlo == center.x - r,
            xhi == center.x + r + 1,
            total_count == area_total(t, xlo, xhi, center.y - r, center.y + dy),
            open_count == area_open(t, xlo, xhi, center.y - r, center.y + dy),
            open_count <= total_count,
            total_count <= (dy + r) * (2 * r + 1),
        decreases r + 1 - dy,
    {
        let mut dx: i64 = -r;
        let ghost row_y = center.y + dy;
        let ghost t0 = total_count;
        let ghost o0 = open_count;
        while dx <= r
            invariant
                -r <= dx <= r + 1,
                -r <= dy <= r,
                0 <= r <= 0x1_0000_0000,
                height_n == t.len(),
                width_n == t[0].len(),
                forall|y: int| 0 <= y < t.len() ==> #[trigger] t[y].len() == width_n,
                t == types(cells(grid)),
                grid_wf(cells(grid)),
            grid_wf(cells(grid)),
                row_y == center.y + dy,
                xlo == center.x - r,
                total_count == t0 + row_total(t, xlo, center.x + dx, row_y),
                open_count == o0 + row_open(t, xlo, center.x + dx, row_y),
                t0 <= (dy + r) * (2 * r + 1),
                o0 <= t0,
                row_open(t, xlo, center.x + dx, row_y) <= row_total(t, xlo, center.x + dx, row_y) <= dx + r,
            decreases r + 1 - dx,
        {
            let nx = center.x as i64 + dx;
            let ny = center.y as i64 + dy;
            proof {
                lemma_row_bounds(t, xlo, center.x + dx + 1, row_y);
                assert((dy + r) * (2 * r + 1) + (dx + r + 1) <= (2 * r + 1) * (2 * r + 1)) by (nonlinear_arith)
                    requires
                        -r <= dy <= r,
                        -r <= dx <= r,
                        r >= 0,
                ;
                assert((2 * r + 1) * (2 * r + 1) <= 0x8_0000_0000_0000_0000) by (nonlinear_arith)
                    requires
                        0 <= r <= 0x1_0000_0000,
                ;
            }
            if nx > 0 && nx < width_n - 1 && ny > 0 && ny < height_n - 1 {
                proof {
                    assert(cells(grid)[ny as int].len() == cells(grid)[0].len());
                }
                total_count = total_count + 1;
                if !is_solid_tile(grid[ny as usize][nx as usize].tile_type.as_str()) {
                    open_count = open_count + 1;
                }
            }
            dx = dx + 1;
        }
        proof {
            assert(t0 + row_total(t, xlo, xhi, row_y) <= (dy + 1 + r) * (2 * r + 1)) by (nonlinear_arith)
                requires
                    t0 <= (dy + r) * (2 * r + 1),
                    row_total(t, xlo, xhi, row_y) <= 2 * r + 1,
            ;
        }
        dy = dy + 1;
    }
    proof {
        assert((2 * r + 1) * (2 * r + 1) <= 0x8_0000_0000_0000_0000) by (nonlinear_arith)
            requires
                0 <= r <= 0x1_0000_0000,
        ;
        assert(total_count <= (2 * r + 1) * (2 * r + 1));
    }
    total_count > 0 && 10 * open_count > 7 * total_count
}

/// `(x, y)` is covered by the disk of `r` around `(cx, cy)` once its
/// coordinates are pulled inside the border of a `w` by `h` grid.
pub open spec fn disk_covers(cx: int, cy: int, r: int, w: int, h: int, x: int, y: int) -> bool {
    exists|dx: int, dy: int|
        -r <= dx <= r && -r <= dy <= r && dx * dx + dy * dy <= r * r && #[trigger] clamp_in(
            cx + dx,
            w - 2,
        ) == x && #[trigger] clamp_in(cy + dy, h - 2) == y
}

/// Raise a pillar of solid rock: the disk of `radius` around `(cx, cy)`, its
/// coordinates pulled inside the grid's border (tiles the player holds stay).
#[verifier::rlimit(40)]
pub fn create_pillar(grid: &mut Grid, cx: usize, cy: usize, radius: usize)
    requires
        paintable(cells(old(grid))),
        radius <= 32767,
        cx + radius <= i32::MAX,
        cy + radius <= i32::MAX,
    ensures
        paintable(cells(final(grid))),
        painted_unowned(
            cells(old(grid)),
            cells(final(grid)),
            |x: int, y: int|
                disk_covers(
                    cx as int,
                    cy as int,
                    radius as int,
                    cells(old(grid))[0].len() as int,
                    cells(old(grid)).len() as int,
                    x,
                    y,
                ),
            "solid_rock"@,
        ),
{
    let ghost g0 = cells(grid);
    let width = grid[0].len() as i64;
    let height = grid.len() as i64;
    let r = radius as i64;
    let mut dy: i64 = -r;
    while dy <= r
        invariant
            paintable(cells(grid)),
            g0.len() == cells(grid).len(),
            width == g0[0].len(),
            height == g0.len(),
            radius <= 32767,
            cx + radius <= i32::MAX,
            cy + radius <= i32::MAX,
            r == radius,
            -r <= dy <= r + 1,
            painted_unowned(
                g0,
                cells(grid),
                |x: int, y: int|
                    exists|ddx: int, ddy: int|
                        -r <= ddx <= r && -r <= ddy < dy && ddx * ddx + ddy * ddy <= r * r && #[trigger] clamp_in(cx + ddx, width - 2) == x
                            && #[trigger] clamp_in(cy + ddy, height - 2) == y,
                "solid_rock"@,
            ),
        decreases r + 1 - dy,
    {
        let mut dx: i64 = -r;
        while dx <= r
            invariant
                paintable(cells(grid)),
                g0.len() == cells(grid).len(),
                width == g0[0].len(),
                height == g0.len(),
                radius <= 32767,
                cx + radius <= i32::MAX,
                cy + radius <= i32::MAX,
                r == radius,
                -r <= dy <= r,
                -r <= dx <= r + 1,
                painted_unowned(
                    g0,
                    cells(grid),
                    |x: int, y: int|
                        exists|ddx: int, ddy: int|
                            -r <= ddx <= r && (-r <= ddy < dy || (ddy == dy && ddx < dx)) && ddx * ddx + ddy * ddy <= r * r && #[trigger] clamp_in(
                                cx + ddx,
                                width - 2,
                            ) == x && #[trigger] clamp_in(cy + ddy, height - 2) == y,
                    "solid_rock"@,
                ),
            decreases r + 1 - dx,
        {
            assert(0 <= dx * dx <= 0x1_0000_0000 && 0 <= dy * dy <= 0x1_0000_0000 && 0 <= r * r <= 0x1_0000_0000) by (nonlinear_arith)
                requires
                    -r <= dx <= r + 1,
                    -r <= dy <= r,
                    0 <= r <= 32767,
            ;
            if dx * dx + dy * dy <= r * r {
                let vx = cx as i64 + dx;
                let vy = cy as i64 + dy;
                let ax = if vx < 1 { 1 } else { vx };
                let x = if ax < width - 2 { ax } else { width - 2 };
                let ay = if vy < 1 { 1 } else { vy };
                let y = if ay < height - 2 { ay } else { height - 2 };
                assert(x == clamp_in(cx + dx, width - 2));
                assert(y == clamp_in(cy + dy, height - 2));
                let ghost before = cells(grid);
                paint_unowned_tile(grid, x as usize, y as usize, "solid_rock");
                proof {
                    let after = cells(grid);
                    assert forall|xx: int, yy: int|
                        #![trigger after[yy][xx]]
                        0 <= yy < g0.len() && 0 <= xx < g0[yy].len() implies if (exists|
                            ddx: int,
                            ddy: int,
                        |
                            -r <= ddx <= r && (-r <= ddy < dy || (ddy == dy && ddx < dx + 1)) && ddx * ddx + ddy * ddy <= r * r && #[trigger] clamp_in(
                                cx + ddx,
                                width - 2,
                            ) == xx && #[trigger] clamp_in(cy + ddy, height - 2) == yy)
                            && g0[yy][xx].ownership != Ownership::Player {
                            &&& after[yy][xx].tile_type@ == "solid_rock"@
                            &&& after[yy][xx].ownership == g0[yy][xx].ownership
                            &&& after[yy][xx].resources_remaining == g0[yy][xx].resources_remaining
                            &&& after[yy][xx].pos == g0[yy][xx].pos
                            &&& after[yy][xx].owner == g0[yy][xx].owner
                            &&& after[yy][xx].marked_for_dig == g0[yy][xx].marked_for_dig
                            &&& after[yy][xx].room_id == g0[yy][xx].room_id
                            &&& after[yy][xx].fog_state == g0[yy][xx].fog_state
                        } else {
                            after[yy][xx] == g0[yy][xx]
                        } by {
                        let old_cov = exists|ddx: int, ddy: int|
                            -r <= ddx <= r && (-r <= ddy < dy || (ddy == dy && ddx < dx)) && ddx * ddx + ddy * ddy <= r * r && #[trigger] clamp_in(
                                cx + ddx,
                                width - 2,
                            ) == xx && #[trigger] clamp_in(cy + ddy, height - 2) == yy;
                        if xx == x && yy == y {
                            assert(clamp_in(cx + dx, width - 2) == xx);
                            assert(clamp_in(cy + dy, height - 2) == yy);
                        } else if exists|ddx: int, ddy: int|
                            -r <= ddx <= r && (-r <= ddy < dy || (ddy == dy && ddx < dx + 1)) && ddx * ddx + ddy * ddy <= r * r && #[trigger] clamp_in(
                                cx + ddx,
                                width - 2,
                            ) == xx && #[trigger] clamp_in(cy + ddy, height - 2) == yy {
                            let (ddx, ddy) = choose|ddx: int, ddy: int|
                                -r <= ddx <= r && (-r <= ddy < dy || (ddy == dy && ddx < dx + 1)) && ddx * ddx + ddy * ddy <= r * r && #[trigger] clamp_in(
                                    cx + ddx,
                                    width - 2,
                                ) == xx && #[trigger] clamp_in(cy + ddy, height - 2) == yy;
                            assert(!(ddy == dy && ddx == dx));
                            assert(old_cov);
                        } else {
                            assert(!old_cov);
                        }
                    }
                }
            } else {
                proof {
                    let g = cells(grid);
                    assert forall|xx: int, yy: int|
                        #![trigger g[yy][xx]]
                        0 <= yy < g0.len() && 0 <= xx < g0[yy].len() implies ((exists|
                            ddx: int,
                            ddy: int,
                        |
                            -r <= ddx <= r && (-r <= ddy < dy || (ddy == dy && ddx < dx + 1)) && ddx * ddx + ddy * ddy <= r * r && #[trigger] clamp_in(
                                cx + ddx,
                                width - 2,
                            ) == xx && #[trigger] clamp_in(cy + ddy, height - 2) == yy) == (exists|
                            ddx: int,
                            ddy: int,
                        |
                            -r <= ddx <= r && (-r <= ddy < dy || (ddy == dy && ddx < dx)) && ddx * ddx + ddy * ddy <= r * r && #[trigger] clamp_in(
                                cx + ddx,
                                width - 2,
                            ) == xx && #[trigger] clamp_in(cy + ddy, height - 2) == yy)) by {
                        if exists|ddx: int, ddy: int|
                            -r <= ddx <= r && (-r <= ddy < dy || (ddy == dy && ddx < dx + 1)) && ddx * ddx + ddy * ddy <= r * r && #[trigger] clamp_in(
                                cx + ddx,
                                width - 2,
                            ) == xx && #[trigger] clamp_in(cy + ddy, height - 2) == yy {
                            let (ddx, ddy) = choose|ddx: int, ddy: int|
                                -r <= ddx <= r && (-r <= ddy < dy || (ddy == dy && ddx < dx + 1)) && ddx * ddx + ddy * ddy <= r * r && #[trigger] clamp_in(
                                    cx + ddx,
                                    width - 2,
                                ) == xx && #[trigger] clamp_in(cy + ddy, height - 2) == yy;
                            assert(!(ddy == dy && ddx == dx));
                        }
                    }
                }
            }
            dx = dx + 1;
        }
        proof {
            let after = cells(grid);
            assert forall|xx: int, yy: int|
                #![trigger after[yy][xx]]
                0 <= yy < g0.len() && 0 <= xx < g0[yy].len() implies ((exists|ddx: int, ddy: int|
                    -r <= ddx <= r && -r <= ddy < dy + 1 && ddx * ddx + ddy * ddy <= r * r && #[trigger] clamp_in(cx + ddx, width - 2) == xx && #[trigger] clamp_in(
                        cy + ddy,
                        height - 2,
                    ) == yy) == (exists|ddx: int, ddy: int|
                    -r <= ddx <= r && (-r <= ddy < dy || (ddy == dy && ddx < r + 1)) && ddx * ddx + ddy * ddy <= r * r && #[trigger] clamp_in(cx + ddx, width - 2) == xx
                        && #[trigger] clamp_in(cy + ddy, height - 2) == yy)) by {}
        }
        dy = dy + 1;
    }
    proof {
        let after = cells(grid);
        assert forall|xx: int, yy: int|
            #![trigger after[yy][xx]]
            0 <= yy < g0.len() && 0 <= xx < g0[yy].len() implies ((exists|ddx: int, ddy: int|
                -r <= ddx <= r && -r <= ddy < r + 1 && ddx * ddx + ddy * ddy <= r * r
                    && #[trigger] clamp_in(cx + ddx, width - 2) == xx && #[trigger] clamp_in(
                    cy + ddy,
                    height - 2,
                ) == yy) == disk_covers(
                cx as int,
                cy as int,
                radius as int,
                g0[0].len() as int,
                g0.len() as int,
                xx,
                yy,
            )) by {}
    }
}

/// `b` is `a` with some tiles that the player does not hold turned to solid
/// rock, and nothing else changed.
pub open spec fn rocked(a: Seq<Seq<TileState>>, b: Seq<Seq<TileState>>) -> bool {
    &&& a.len() == b.len()
    &&& forall|y: int| 0 <= y < a.len() ==> #[trigger] b[y].len() == a[y].len()
    &&& forall|x: int, y: int|
        #![trigger b[y][x]]
        0 <= y < a.len() && 0 <= x < a[y].len() ==> b[y][x] == a[y][x] || {
            &&& a[y][x].ownership != Ownership::Player
            &&& b[y][x].tile_type@ == "solid_rock"@
            &&& b[y][x] == TileState { tile_type: b[y][x].tile_type, ..a[y][x] }
        }
}

proof fn lemma_rocked_trans(a: Seq<Seq<TileState>>, b: Seq<Seq<TileState>>, c: Seq<Seq<TileState>>)
    requires
        rocked(a, b),
        rocked(b, c),
    ensures
        rocked(a, c),
{
    assert forall|x: int, y: int| #![trigger c[y][x]] 0 <= y < a.len() && 0 <= x < a[y].len() implies c[y][x] == a[y][x] || {
        &&& a[y][x].ownership != Ownership::Player
        &&& c[y][x].tile_type@ == "solid_rock"@
        &&& c[y][x] == TileState { tile_type: c[y][x].tile_type, ..a[y][x] }
    } by {
        assert(b[y][x] == a[y][x] || b[y][x] == TileState { tile_type: b[y][x].tile_type, ..a[y][x] });
        assert(b[y].len() == a[y].len());
    }
}

proof fn lemma_painted_rocked(a: Seq<Seq<TileState>>, b: Seq<Seq<TileState>>, covered: spec_fn(int, int) -> bool)
    requires
        painted_unowned(a, b, covered, "solid_rock"@),
    ensures
        rocked(a, b),
{
}

/// A pillar drawn for a `w` by `h` map: its centre at least 8 in from the
/// edges, its radius 1 or 2.
pub open spec fn pillar_draw(d: (int, int, int), w: int, h: int) -> bool {
    8 <= d.0 < w - 8 && 8 <= d.1 < h - 8 && 1 <= d.2 <= 2
}

/// One try at a pillar at `(x, y)` of radius `r` takes `a` to `b`: where the
/// area around it (radius `2r + 1`) is open, the disk turns to solid rock
/// (see `create_pillar`); otherwise nothing changes.
pub open spec fn pillar_try(a: Seq<Seq<TileState>>, b: Seq<Seq<TileState>>, x: int, y: int, r: int) -> bool {
    if open_area(types(a), TilePos { x: x as i32, y: y as i32 }, 2 * r + 1) {
        painted_unowned(
            a,
            b,
            |xx: int, yy: int| disk_covers(x, y, r, a[0].len() as int, a.len() as int, xx, yy),
            "solid_rock"@,
        )
    } else {
        b == a
    }
}

/// Try `k` of the pillar trace: drawn in range, taking `gs[k]` to `gs[k + 1]`.
pub open spec fn pillar_step(gs: Seq<Seq<Seq<TileState>>>, ds: Seq<(int, int, int)>, k: int) -> bool {
    &&& pillar_draw(ds[k], gs[0][0].len() as int, gs[0].len() as int)
    &&& pillar_try(gs[k], gs[k + 1], ds[k].0, ds[k].1, ds[k].2)
}

/// `b` comes from `a` through `count` pillar tries (see `pillar_step`).
pub open spec fn pillar_run(a: Seq<Seq<TileState>>, b: Seq<Seq<TileState>>, count: int) -> bool {
    exists|gs: Seq<Seq<Seq<TileState>>>, ds: Seq<(int, int, int)>|
        {
            &&& gs.len() == count + 1
            &&& ds.len() == count
            &&& gs[0] == a
            &&& gs[count] == b
            &&& forall|k: int| 0 <= k < count ==> #[trigger] pillar_step(gs, ds, k)
        }
}

/// Raise up to `count` stone pillars: each at a random spot at least 8 in
/// from the edges, of radius 1 or 2, and only where the area around it
/// (of radius twice the pillar's, plus one) is open. Only tiles the player
/// does not hold turn to solid rock. The grids `gs` pass through the tries
/// drawn in `ds`, in order.
pub fn add_stone_pillars(grid: &mut Grid, count: usize)
    requires
        paintable(cells(old(grid))),
        old(grid)@[0]@.len() <= 0x10_0000,
        old(grid)@.len() <= 0x10_0000,
        count > 0 ==> 16 < old(grid)@[0]@.len() && 16 < old(grid)@.len(),
    ensures
        paintable(cells(final(grid))),
        rocked(cells(old(grid)), cells(final(grid))),
        pillar_run(cells(old(grid)), cells(final(grid)), count as int),
{
    let ghost g0 = cells(grid);
    let height = grid.len();
    let width = grid[0].len();
    let mut i: usize = 0;
    let ghost mut gs: Seq<Seq<Seq<TileState>>> = seq![g0];
    let ghost mut ds: Seq<(int, int, int)> = Seq::empty();
    assert(rocked(g0, cells(grid)));
    while i < count
        invariant
            i <= count,
            paintable(cells(grid)),
            height == g0.len(),
            width == g0[0].len(),
            cells(grid).len() == height,
            cells(grid)[0].len() == width,
            width <= 0x10_0000,
            height <= 0x10_0000,
            count > 0 ==> 16 < width && 16 < height,
            rocked(g0, cells(grid)),
            gs.len() == i + 1,
            ds.len() == i,
            gs[0] == g0,
            gs[i as int] == cells(grid),
            forall|k: int| 0 <= k < i ==> #[trigger] pillar_step(gs, ds, k),
        decreases count - i,
    {
        let x = 8 + random_below((width - 16) as u32) as usize;
        let y = 8 + random_below((height - 16) as u32) as usize;
        let radius = 1 + random_below(2) as usize;
        let ghost before = cells(grid);
        if is_open_area(grid, TilePos::new(x as i32, y as i32), radius * 2 + 1) {
            create_pillar(grid, x, y, radius);
            proof {
                let after = cells(grid);
                lemma_painted_rocked(
                    before,
                    after,
                    |xx: int, yy: int| disk_covers(x as int, y as int, radius as int, before[0].len() as int, before.len() as int, xx, yy),
                );
                lemma_rocked_trans(g0, before, after);
            }
        }
        proof {
            let gs0 = gs;
            let ds0 = ds;
            gs = gs.push(cells(grid));
            ds = ds.push((x as int, y as int, radius as int));
            assert(pillar_try(before, cells(grid), x as int, y as int, radius as int));
            assert forall|k: int| 0 <= k < i + 1 implies #[trigger] pillar_step(gs, ds, k) by {
                if k < i {
                    assert(pillar_step(gs0, ds0, k));
                    assert(gs[k] == gs0[k] && gs[k + 1] == gs0[k + 1] && ds[k] == ds0[k] && gs[0] == gs0[0]);
                }
            }
        }
        i = i + 1;
    }
}

/// `(x, y)` lies where a collapsed chamber may spread: more than 5 in from
/// every edge of a `w` by `h` map.
pub open spec fn chamber_zone(x: int, y: int, w: int, h: int) -> bool {
    5 < x < w - 5 && 5 < y < h - 5
}

/// `b` is `a` with some solid rock turned to earth, each such tile being
/// `(cx, cy)` or in the chamber zone, and the turned tiles listed in
/// `carved`.
pub open spec fn hollowed(a: Seq<Seq<TileState>>, b: Seq<Seq<TileState>>, cx: int, cy: int, carved: Seq<(int, int)>) -> bool {
    &&& a.len() == b.len()
    &&& forall|y: int| 0 <= y < a.len() ==> #[trigger] b[y].len() == a[y].len()
    &&& forall|x: int, y: int|
        #![trigger b[y][x]]
        0 <= y < a.len() && 0 <= x < a[y].len() ==> b[y][x] == a[y][x] || {
            &&& a[y][x].tile_type@ == "solid_rock"@
            &&& b[y][x].tile_type@ == "earth"@
            &&& b[y][x] == TileState { tile_type: b[y][x].tile_type, ..a[y][x] }
            &&& ((x == cx && y == cy) || chamber_zone(x, y, a[0].len() as int, a.len() as int))
            &&& carved.contains((x, y))
        }
}

/// Every queued cell lies on the grid, at the start or in the chamber zone.
pub open spec fn queue_ok(q: Seq<(usize, usize)>, cx: int, cy: int, w: int, h: int) -> bool {
    forall|i: int|
        0 <= i < q.len() ==> {
            let c = #[trigger] q[i];
            &&& c.0 < w && c.1 < h
            &&& ((c.0 == cx && c.1 == cy) || chamber_zone(c.0 as int, c.1 as int, w, h))
        }
}

/// Try to add the neighbour `(nx, ny)` to the chamber's search: when it lies
/// in the chamber zone and was not seen, it is taken with a chance of 3 in 4.
fn chamber_step(
    visited: &mut Vec<Vec<bool>>,
    queue: &mut Vec<(usize, usize)>,
    nx: i64,
    ny: i64,
    w: usize,
    h: usize,
    cx: Ghost<int>,
    cy: Ghost<int>,
)
    requires
        flags_shape(flags(old(visited)), w as int, h as int),
        w <= 0x10_0000,
        h <= 0x10_0000,
        queue_ok(old(queue)@, cx@, cy@, w as int, h as int),
    ensures
        flags_shape(flags(final(visited)), w as int, h as int),
        queue_ok(final(queue)@, cx@, cy@, w as int, h as int),
        sum_false(flags(final(visited))) + final(queue)@.len() == sum_false(flags(old(visited))) + old(queue)@.len(),
        final(queue)@.len() >= old(queue)@.len(),
        forall|i: int| 0 <= i < old(queue)@.len() ==> #[trigger] final(queue)@[i] == old(queue)@[i],
        ({
            let eligible = 5 < nx < w - 5 && 5 < ny < h - 5 && !flags(old(visited))[ny as int][nx as int];
            let untouched = flags(final(visited)) == flags(old(visited)) && final(queue)@ == old(queue)@;
            let taken = flags(final(visited)) == flags(old(visited)).update(
                ny as int,
                flags(old(visited))[ny as int].update(nx as int, true),
            ) && final(queue)@ == old(queue)@.push((nx as usize, ny as usize));
            &&& !eligible ==> untouched
            &&& eligible ==> untouched || taken
        }),
{
    if nx > 5 && nx < w as i64 - 5 && ny > 5 && ny < h as i64 - 5 {
        let x = nx as usize;
        let y = ny as usize;
        assert(flags(visited)[y as int].len() == w);
        if !visited[y][x] && random_below(4) < 3 {
            let ghost before = flags(visited);
            proof {
                lemma_flag_update(before, w as int, h as int, x as int, y as int);
            }
            visited[y][x] = true;
            assert(flags(visited) =~= before.update(y as int, before[y as int].update(x as int, true)));
            let ghost q0 = queue@;
            queue.push((x, y));
            assert(queue_ok(queue@, cx@, cy@, w as int, h as int)) by {
                assert forall|i: int| 0 <= i < queue@.len() implies ({
                    let c = #[trigger] queue@[i];
                    &&& c.0 < w && c.1 < h
                    &&& ((c.0 == cx@ && c.1 == cy@) || chamber_zone(c.0 as int, c.1 as int, w as int, h as int))
                }) by {
                    if i < q0.len() {
                        assert(queue@[i] == q0[i]);
                    }
                }
            }
        }
    }
}

/// Hollow out a collapsed chamber: a random spread from `(cx, cy)` through
/// the chamber zone (each neighbour taken with a chance of 3 in 4), turning
/// solid rock to earth until `size * size` tiles are turned.
pub fn create_collapsed_chamber(grid: &mut Grid, cx: usize, cy: usize, size: usize)
    requires
        paintable(cells(old(grid))),
        old(grid)@[0]@.len() <= 0x10_0000,
        old(grid)@.len() <= 0x10_0000,
        cx < old(grid)@[0]@.len(),
        cy < old(grid)@.len(),
        size <= 0x1000,
    ensures
        paintable(cells(final(grid))),
        exists|carved: Seq<(int, int)>|
            carved.len() <= size * size && #[trigger] hollowed(cells(old(grid)), cells(final(grid)), cx as int, cy as int, carved),
        size > 0 && cells(old(grid))[cy as int][cx as int].tile_type@ == "solid_rock"@ ==> cells(final(grid))[cy as int][cx as int].tile_type@ == "earth"@,
{
    let ghost g0 = cells(grid);
    let height = grid.len();
    let width = grid[0].len();
    let mut visited = new_flags(width, height);
    let mut queue: Vec<(usize, usize)> = Vec::new();
    proof {
        assert(flags(&visited)[cy as int].len() == width);
        assert(!flagged(flags(&visited))((cx as int, cy as int)));
        lemma_flag_update(flags(&visited), width as int, height as int, cx as int, cy as int);
    }
    let ghost f0 = flags(&visited);
    visited[cy][cx] = true;
    assert(flags(&visited) =~= f0.update(cy as int, f0[cy as int].update(cx as int, true)));
    queue.push((cx, cy));
    let ghost total = sum_false(flags(&visited)) + 1;
    let mut head: usize = 0;
    let mut placed: usize = 0;
    assert(size * size <= 0x100_0000) by (nonlinear_arith)
        requires
            size <= 0x1000,
    ;
    let max_tiles = size * size;
    let ghost mut carved: Seq<(int, int)> = Seq::empty();
    while head < queue.len() && placed < max_tiles
        invariant
            paintable(cells(grid)),
            grid_wf(g0),
            g0.len() == height,
            g0[0].len() == width,
            cells(grid).len() == height,
            cells(grid)[0].len() == width,
            width <= 0x10_0000,
            height <= 0x10_0000,
            cx < width,
            cy < height,
            max_tiles == size * size,
            flags_shape(flags(&visited), width as int, height as int),
            queue_ok(queue@, cx as int, cy as int, width as int, height as int),
            head <= queue@.len(),
            sum_false(flags(&visited)) + queue@.len() == total,
            placed <= max_tiles,
            carved.len() == placed,
            hollowed(g0, cells(grid), cx as int, cy as int, carved),
            queue@.len() > 0,
            queue@[0] == (cx, cy),
            head == 0 ==> placed == 0,
            head > 0 && g0[cy as int][cx as int].tile_type@ == "solid_rock"@ ==> cells(grid)[cy as int][cx as int].tile_type@ == "earth"@,
        decreases total - head,
    {
        let (x, y) = queue[head];
        let ghost first = head == 0;
        head = head + 1;
        assert(cells(grid)[y as int].len() == width);
        let ghost centre_before = cells(grid)[cy as int][cx as int];
        proof {
            reveal_strlit("solid_rock");
            reveal_strlit("earth");
            assert("solid_rock"@.len() != "earth"@.len());
            assert(cells(grid)[cy as int].len() == width);
            if first {
                assert(placed == 0);
                assert(centre_before == g0[cy as int][cx as int]) by {
                    if centre_before != g0[cy as int][cx as int] {
                        assert(carved.contains((cx as int, cy as int)));
                    }
                }
            }
        }
        if str_eq(grid[y][x].tile_type.as_str(), "solid_rock") {
            let ghost before = cells(grid);
            grid[y][x].tile_type = owned("earth");
            placed = placed + 1;
            proof {
                let after = cells(grid);
                let c0 = carved;
                carved = carved.push((x as int, y as int));
                assert(queue@[head - 1] == (x, y));
                assert forall|yy: int| 0 <= yy < height implies #[trigger] after[yy].len() == before[yy].len() by {
                    if yy == y {
                        assert(after[yy] =~= before[yy].update(x as int, after[yy][x as int]));
                    } else {
                        assert(after[yy] == before[yy]);
                    }
                }
                assert forall|xx: int, yy: int|
                    #![trigger after[yy][xx]]
                    0 <= yy < height && 0 <= xx < before[yy].len() && !(yy == y && xx == x) implies after[yy][xx] == before[yy][xx] by {
                    if yy == y {
                        assert(after[yy] =~= before[yy].update(x as int, after[yy][x as int]));
                    } else {
                        assert(after[yy] == before[yy]);
                    }
                }
                assert(carved.contains((x as int, y as int))) by {
                    assert(carved[carved.len() - 1] == (x as int, y as int));
                }
                assert forall|xx: int, yy: int|
                    #![trigger after[yy][xx]]
                    0 <= yy < g0.len() && 0 <= xx < g0[yy].len() implies after[yy][xx] == g0[yy][xx] || {
                        &&& g0[yy][xx].tile_type@ == "solid_rock"@
                        &&& after[yy][xx].tile_type@ == "earth"@
                        &&& after[yy][xx] == TileState { tile_type: after[yy][xx].tile_type, ..g0[yy][xx] }
                        &&& ((xx == cx && yy == cy) || chamber_zone(xx, yy, g0[0].len() as int, g0.len() as int))
                        &&& carved.contains((xx, yy))
                    } by {
                    assert(g0[yy].len() == width);
                    if !(yy == y && xx == x) {
                        assert(after[yy][xx] == before[yy][xx]);
                        if before[yy][xx] != g0[yy][xx] {
                            assert(c0.contains((xx, yy)));
                            let k = choose|k: int| 0 <= k < c0.len() && c0[k] == (xx, yy);
                            assert(carved[k] == (xx, yy));
                        }
                    } else {
                        if before[yy][xx] != g0[yy][xx] {
                            assert(before[yy][xx].tile_type@ == "earth"@);
                        }
                    }
                }
                assert forall|yy: int| 0 <= yy < after.len() implies #[trigger] after[yy].len() == after[0].len() by {
                    assert(g0[yy].len() == g0[0].len());
                }
            }
        }
        chamber_step(&mut visited, &mut queue, x as i64 - 1, y as i64, width, height, Ghost(cx as int), Ghost(cy as int));
        chamber_step(&mut visited, &mut queue, x as i64 + 1, y as i64, width, height, Ghost(cx as int), Ghost(cy as int));
        chamber_step(&mut visited, &mut queue, x as i64, y as i64 - 1, width, height, Ghost(cx as int), Ghost(cy as int));
        chamber_step(&mut visited, &mut queue, x as i64, y as i64 + 1, width, height, Ghost(cx as int), Ghost(cy as int));
    }
    proof {
        if size > 0 && g0[cy as int][cx as int].tile_type@ == "solid_rock"@ {
            assert(size * size > 0) by (nonlinear_arith)
                requires
                    size > 0,
            ;
            assert(head > 0);
        }
        assert(carved.len() <= size * size);
        assert(hollowed(g0, cells(grid), cx as int, cy as int, carved));
    }
}

/// `b` is `a` with some solid rock in the chamber zone turned to earth, and
/// nothing else changed.
pub open spec fn earthed(a: Seq<Seq<TileState>>, b: Seq<Seq<TileState>>) -> bool {
    &&& a.len() == b.len()
    &&& forall|y: int| 0 <= y < a.len() ==> #[trigger] b[y].len() == a[y].len()
    &&& forall|x: int, y: int|
        #![trigger b[y][x]]
        0 <= y < a.len() && 0 <= x < a[y].len() ==> b[y][x] == a[y][x] || {
            &&& a[y][x].tile_type@ == "solid_rock"@
            &&& b[y][x].tile_type@ == "earth"@
            &&& b[y][x] == TileState { tile_type: b[y][x].tile_type, ..a[y][x] }
            &&& chamber_zone(x, y, a[0].len() as int, a.len() as int)
        }
}

/// A chamber drawn for a `w` by `h` map: its start at least 12 in from the
/// edges, its size from 5 to 9.
pub open spec fn chamber_draw(d: (int, int, int), w: int, h: int) -> bool {
    12 <= d.0 < w - 12 && 12 <= d.1 < h - 12 && 5 <= d.2 <= 9
}

/// A chamber of size `size` from `(cx, cy)` takes `a` to `b` (see
/// `create_collapsed_chamber`): at most `size * size` tiles of solid rock
/// turn to earth, the start among them when it is solid rock.
pub open spec fn chamber_made(a: Seq<Seq<TileState>>, b: Seq<Seq<TileState>>, cx: int, cy: int, size: int) -> bool {
    &&& exists|carved: Seq<(int, int)>| carved.len() <= size * size && #[trigger] hollowed(a, b, cx, cy, carved)
    &&& a[cy][cx].tile_type@ == "solid_rock"@ ==> b[cy][cx].tile_type@ == "earth"@
}

/// Chamber `k` of the trace: drawn in range, taking `gs[k]` to `gs[k + 1]`.
pub open spec fn chamber_trace_step(gs: Seq<Seq<Seq<TileState>>>, ds: Seq<(int, int, int)>, k: int) -> bool {
    &&& chamber_draw(ds[k], gs[0][0].len() as int, gs[0].len() as int)
    &&& chamber_made(gs[k], gs[k + 1], ds[k].0, ds[k].1, ds[k].2)
}

/// `b` comes from `a` through `count` chambers (see `chamber_trace_step`).
pub open spec fn chamber_run(a: Seq<Seq<TileState>>, b: Seq<Seq<TileState>>, count: int) -> bool {
    exists|gs: Seq<Seq<Seq<TileState>>>, ds: Seq<(int, int, int)>|
        {
            &&& gs.len() == count + 1
            &&& ds.len() == count
            &&& gs[0] == a
            &&& gs[count] == b
            &&& forall|k: int| 0 <= k < count ==> #[trigger] chamber_trace_step(gs, ds, k)
        }
}

/// Hollow out `count` collapsed chambers, each from a random spot at least
/// 12 in from the edges and of a random size from 5 to 9. The grids `gs` pass
/// through the chambers drawn in `ds`, in order.
pub fn add_collapsed_chambers(grid: &mut Grid, count: usize)
    requires
        paintable(cells(old(grid))),
        old(grid)@[0]@.len() <= 0x10_0000,
        old(grid)@.len() <= 0x10_0000,
        count > 0 ==> 24 < old(grid)@[0]@.len() && 24 < old(grid)@.len(),
    ensures
        paintable(cells(final(grid))),
        earthed(cells(old(grid)), cells(final(grid))),
        chamber_run(cells(old(grid)), cells(final(grid)), count as int),
{
    let ghost g0 = cells(grid);
    let height = grid.len();
    let width = grid[0].len();
    let mut i: usize = 0;
    let ghost mut gs: Seq<Seq<Seq<TileState>>> = seq![g0];
    let ghost mut ds: Seq<(int, int, int)> = Seq::empty();
    while i < count
        invariant
            i <= count,
            paintable(cells(grid)),
            height == g0.len(),
            width == g0[0].len(),
            cells(grid).len() == height,
            cells(grid)[0].len() == width,
            width <= 0x10_0000,
            height <= 0x10_0000,
            count > 0 ==> 24 < width && 24 < height,
            earthed(g0, cells(grid)),
            gs.len() == i + 1,
            ds.len() == i,
            gs[0] == g0,
            gs[i as int] == cells(grid),
            forall|k: int| 0 <= k < i ==> #[trigger] chamber_trace_step(gs, ds, k),
        decreases count - i,
    {
        let cx = 12 + random_below((width - 24) as u32) as usize;
        let cy = 12 + random_below((height - 24) as u32) as usize;
        let size = 5 + random_below(5) as usize;
        let ghost before = cells(grid);
        create_collapsed_chamber(grid, cx, cy, size);
        proof {
            let after = cells(grid);
            let carved = choose|carved: Seq<(int, int)>|
                carved.len() <= size * size && #[trigger] hollowed(before, after, cx as int, cy as int, carved);
            assert forall|x: int, y: int|
                #![trigger after[y][x]]
                0 <= y < g0.len() && 0 <= x < g0[y].len() implies after[y][x] == g0[y][x] || {
                    &&& g0[y][x].tile_type@ == "solid_rock"@
                    &&& after[y][x].tile_type@ == "earth"@
                    &&& after[y][x] == TileState { tile_type: after[y][x].tile_type, ..g0[y][x] }
                    &&& chamber_zone(x, y, g0[0].len() as int, g0.len() as int)
                } by {
                assert(before[y][x] == g0[y][x] || before[y][x].tile_type@ == "earth"@);
                assert(before[y].len() == g0[y].len());
                if after[y][x] != before[y][x] {
                    assert(before[y][x].tile_type@ == "solid_rock"@);
                    assert("solid_rock"@ != "earth"@) by {
                        reveal_strlit("solid_rock");
                        reveal_strlit("earth");
                        assert("solid_rock"@.len() != "earth"@.len());
                    }
                }
            }
        }
        proof {
            let gs0 = gs;
            let ds0 = ds;
            gs = gs.push(cells(grid));
            ds = ds.push((cx as int, cy as int, size as int));
            assert(chamber_made(before, cells(grid), cx as int, cy as int, size as int));
            assert forall|k: int| 0 <= k < i + 1 implies #[trigger] chamber_trace_step(gs, ds, k) by {
                if k < i {
                    assert(chamber_trace_step(gs0, ds0, k));
                    assert(gs[k] == gs0[k] && gs[k + 1] == gs0[k + 1] && ds[k] == ds0[k] && gs[0] == gs0[0]);
                }
            }
        }
        i = i + 1;
    }
}

/// Add the natural features: stone pillars, then collapsed chambers (see
/// `pillar_run` and `chamber_run`).
pub fn add_natural_features(grid: &mut Grid, num_stone_pillars: usize, num_collapsed_chambers: usize)
    requires
        paintable(cells(old(grid))),
        old(grid)@[0]@.len() <= 0x10_0000,
        old(grid)@.len() <= 0x10_0000,
        num_stone_pillars > 0 ==> 16 < old(grid)@[0]@.len() && 16 < old(grid)@.len(),
        num_collapsed_chambers > 0 ==> 24 < old(grid)@[0]@.len() && 24 < old(grid)@.len(),
    ensures
        paintable(cells(final(grid))),
        exists|mid: Seq<Seq<TileState>>|
            {
                &&& #[trigger] rocked(cells(old(grid)), mid)
                &&& earthed(mid, cells(final(grid)))
                &&& pillar_run(cells(old(grid)), mid, num_stone_pillars as int)
                &&& chamber_run(mid, cells(final(grid)), num_collapsed_chambers as int)
            },
{
    add_stone_pillars(grid, num_stone_pillars);
    let ghost mid = cells(grid);
    add_collapsed_chambers(grid, num_collapsed_chambers);
    assert(rocked(cells(old(grid)), mid));
}

} // verus!
