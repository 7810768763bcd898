//! The player's starting area: the cleared ground around the dungeon heart,
//! prebuilt rooms, and the bonuses or hazards of the difficulty.
use vstd::prelude::*;
use crate::tiles::{TilePos, TileState, Ownership, str_eq, owned};
use crate::grid::{Grid, cells, grid_wf};
use crate::map_config::{Difficulty, StartingLayout, StartingPosition};
use crate::random::random_below;

verus! {

/// Rotate an offset by 0, 90, 180 or 270 degrees clockwise.
pub open spec fn rotated(x: int, y: int, rotation: u8) -> (int, int) {
    if rotation % 4 == 0 {
        (x, y)
    } else if rotation % 4 == 1 {
        (-y, x)
    } else if rotation % 4 == 2 {
        (-x, -y)
    } else {
        (y, -x)
    }
}

/// Rotate offset by 0, 90, 180, or 270 degrees.
pub fn rotate_offset(x: i32, y: i32, rotation: u8) -> (r: (i32, i32))
    requires
        x > i32::MIN,
        y > i32::MIN,
    ensures
        (r.0 as int, r.1 as int) == rotated(x as int, y as int, rotation),
{
    match rotation % 4 {
        0 => (x, y),
        1 => (-y, x),
        2 => (-x, -y),
        _ => (y, -x),
    }
}

/// A coordinate pulled into `[1, hi]`, as `v.max(1).min(hi)` does.
pub open spec fn clamp_in(v: int, hi: int) -> int {
    let a = if v < 1 {
        1
    } else {
        v
    };
    if a < hi {
        a
    } else {
        hi
    }
}

/// `(x, y)` is covered by the square of `size` around `(cx, cy)` once its
/// coordinates are pulled inside the border of a `w` by `h` grid.
pub open spec fn square_covers(cx: int, cy: int, size: int, w: int, h: int, x: int, y: int) -> bool {
    exists|dx: int, dy: int|
        -size <= dx <= size && -size <= dy <= size && #[trigger] clamp_in(cx + dx, w - 2) == x
            && #[trigger] clamp_in(cy + dy, h - 2) == y
}

/// `b` is `a` painted as a room of the player of type `room` at the cells of
/// `covered`, and unchanged elsewhere.
pub open spec fn painted_room(
    a: Seq<Seq<TileState>>,
    b: Seq<Seq<TileState>>,
    covered: spec_fn(int, int) -> bool,
    room: Seq<char>,
) -> bool {
    &&& a.len() == b.len()
    &&& forall|y: int| 0 <= y < a.len() ==> #[trigger] b[y].len() == a[y].len()
    &&& forall|x: int, y: int|
        #![trigger b[y][x]]
        0 <= y < a.len() && 0 <= x < a[y].len() ==> if covered(x, y) {
            &&& b[y][x].tile_type@ == room
            &&& b[y][x].ownership == Ownership::Player
            &&& b[y][x].resources_remaining is None
            &&& b[y][x].pos == a[y][x].pos
            &&& b[y][x].owner == a[y][x].owner
            &&& b[y][x].marked_for_dig == a[y][x].marked_for_dig
            &&& b[y][x].room_id == a[y][x].room_id
            &&& b[y][x].fog_state == a[y][x].fog_state
        } else {
            b[y][x] == a[y][x]
        }
}

/// Grid dimensions that the painting passes can work with.
pub open spec fn paintable(g: Seq<Seq<TileState>>) -> bool {
    &&& grid_wf(g)
    &&& g.len() >= 2
    &&& g[0].len() >= 2
}

/// Paint the tile at `(x, y)` as a room tile of the player.
fn paint_room_tile(grid: &mut Grid, x: usize, y: usize, room_type: &str)
    requires
        grid_wf(cells(old(grid))),
        y < old(grid)@.len(),
        x < old(grid)@[0]@.len(),
    ensures
        grid_wf(cells(final(grid))),
        painted_room(cells(old(grid)), cells(final(grid)), |xx: int, yy: int| xx == x && yy == y, room_type@),
{
    let ghost before = cells(grid);
    assert(before[y as int].len() == before[0].len());
    let tile = &mut grid[y][x];
    tile.tile_type = owned(room_type);
    tile.ownership = Ownership::Player;
    tile.resources_remaining = None;
    proof {
        let after = cells(grid);
        assert forall|yy: int| 0 <= yy < before.len() implies #[trigger] after[yy].len() == before[yy].len() by {}
        assert forall|yy: int| 0 <= yy < after.len() implies #[trigger] after[yy].len() == after[0].len() by {
            assert(before[yy].len() == before[0].len());
        }
    }
}

/// Create a room of type `room_type` for the player: the square of `size`
/// around `(cx, cy)`, its coordinates pulled inside the grid's border.
pub fn create_room(grid: &mut Grid, cx: usize, cy: usize, size: usize, room_type: &str)
    requires
        paintable(cells(old(grid))),
        cx + size <= i32::MAX,
        cy + size <= i32::MAX,
    ensures
        paintable(cells(final(grid))),
        painted_room(
            cells(old(grid)),
            cells(final(grid)),
            |x: int, y: int|
                square_covers(
                    cx as int,
                    cy as int,
                    size as int,
                    cells(old(grid))[0].len() as int,
                    cells(old(grid)).len() as int,
                    x,
                    y,
                ),
            room_type@,
        ),
{
    let ghost g0 = cells(grid);
    let width = grid[0].len() as i64;
    let height = grid.len() as i64;
    let s = size as i64;
    let mut dy: i64 = -s;
    while dy <= s
        invariant
            paintable(cells(grid)),
            g0.len() == cells(grid).len(),
            width == g0[0].len(),
            height == g0.len(),
            cx + size <= i32::MAX,
            cy + size <= i32::MAX,
            s == size,
            -s <= dy <= s + 1,
            painted_room(
                g0,
                cells(grid),
                |x: int, y: int|
                    exists|ddx: int, ddy: int|
                        -s <= ddx <= s && -s <= ddy < dy && #[trigger] clamp_in(cx + ddx, width - 2)
                            == x && #[trigger] clamp_in(cy + ddy, height - 2) == y,
                room_type@,
            ),
        decreases s + 1 - dy,
    {
        let mut dx: i64 = -s;
        while dx <= s
            invariant
                paintable(cells(grid)),
                g0.len() == cells(grid).len(),
                width == g0[0].len(),
                height == g0.len(),
                cx + size <= i32::MAX,
                cy + size <= i32::MAX,
                s == size,
                -s <= dy <= s,
                -s <= dx <= s + 1,
                painted_room(
                    g0,
                    cells(grid),
                    |x: int, y: int|
                        exists|ddx: int, ddy: int|
                            -s <= ddx <= s && (-s <= ddy < dy || (ddy == dy && ddx < dx))
                                && #[trigger] clamp_in(cx + ddx, width - 2) == x
                                && #[trigger] clamp_in(cy + ddy, height - 2) == y,
                    room_type@,
                ),
            decreases s + 1 - dx,
        {
            let vx = cx as i64 + dx;
            let vy = cy as i64 + dy;
            let ax = if vx < 1 { 1 } else { vx };
            let x = if ax < width - 2 { ax } else { width - 2 };
            let ay = if vy < 1 { 1 } else { vy };
            let y = if ay < height - 2 { ay } else { height - 2 };
            assert(x == clamp_in(cx + dx, width - 2));
            assert(y == clamp_in(cy + dy, height - 2));
            let ghost before = cells(grid);
            paint_room_tile(grid, x as usize, y as usize, room_type);
            proof {
                let after = cells(grid);
                assert forall|xx: int, yy: int|
                    #![trigger after[yy][xx]]
                    0 <= yy < g0.len() && 0 <= xx < g0[yy].len() implies if (exists|ddx: int, ddy: int|
                        -s <= ddx <= s && (-s <= ddy < dy || (ddy == dy && ddx < dx + 1))
                            && #[trigger] clamp_in(cx + ddx, width - 2) == xx
                            && #[trigger] clamp_in(cy + ddy, height - 2) == yy) {
                        &&& after[yy][xx].tile_type@ == room_type@
                        &&& after[yy][xx].ownership == Ownership::Player
                        &&& after[yy][xx].resources_remaining is None
                        &&& after[yy][xx].pos == g0[yy][xx].pos
                        &&& after[yy][xx].owner == g0[yy][xx].owner
                        &&& after[yy][xx].marked_for_dig == g0[yy][xx].marked_for_dig
                        &&& after[yy][xx].room_id == g0[yy][xx].room_id
                        &&& after[yy][xx].fog_state == g0[yy][xx].fog_state
                    } else {
                        after[yy][xx] == g0[yy][xx]
                    } by {
                    let old_cov = exists|ddx: int, ddy: int|
                        -s <= ddx <= s && (-s <= ddy < dy || (ddy == dy && ddx < dx))
                            && #[trigger] clamp_in(cx + ddx, width - 2) == xx
                            && #[trigger] clamp_in(cy + ddy, height - 2) == yy;
                    if xx == x && yy == y {
                        assert(clamp_in(cx + dx, width - 2) == xx);
                        assert(clamp_in(cy + dy, height - 2) == yy);
                    } else if exists|ddx: int, ddy: int|
                        -s <= ddx <= s && (-s <= ddy < dy || (ddy == dy && ddx < dx + 1))
                            && #[trigger] clamp_in(cx + ddx, width - 2) == xx
                            && #[trigger] clamp_in(cy + ddy, height - 2) == yy {
                        let (ddx, ddy) = choose|ddx: int, ddy: int|
                            -s <= ddx <= s && (-s <= ddy < dy || (ddy == dy && ddx < dx + 1))
                                && #[trigger] clamp_in(cx + ddx, width - 2) == xx
                                && #[trigger] clamp_in(cy + ddy, height - 2) == yy;
                        assert(!(ddy == dy && ddx == dx));
                        assert(old_cov);
                    } else {
                        assert(!old_cov);
                    }
                }
            }
            dx = dx + 1;
        }
        proof {
            let after = cells(grid);
            assert forall|xx: int, yy: int|
                #![trigger after[yy][xx]]
                0 <= yy < g0.len() && 0 <= xx < g0[yy].len() implies ((exists|ddx: int, ddy: int|
                    -s <= ddx <= s && -s <= ddy < dy + 1 && #[trigger] clamp_in(cx + ddx, width - 2)
                        == xx && #[trigger] clamp_in(cy + ddy, height - 2) == yy) == (exists|
                    ddx: int,
                    ddy: int,
                |
                    -s <= ddx <= s && (-s <= ddy < dy || (ddy == dy && ddx < s + 1))
                        && #[trigger] clamp_in(cx + ddx, width - 2) == xx
                        && #[trigger] clamp_in(cy + ddy, height - 2) == yy)) by {}
        }
        dy = dy + 1;
    }
    proof {
        let after = cells(grid);
        assert forall|xx: int, yy: int|
            #![trigger after[yy][xx]]
            0 <= yy < g0.len() && 0 <= xx < g0[yy].len() implies ((exists|ddx: int, ddy: int|
                -s <= ddx <= s && -s <= ddy < s + 1 && #[trigger] clamp_in(cx + ddx, width - 2) == xx
                    && #[trigger] clamp_in(cy + ddy, height - 2) == yy) == square_covers(
                cx as int,
                cy as int,
                size as int,
                g0[0].len() as int,
                g0.len() as int,
                xx,
                yy,
            )) by {}
    }
}

/// `(x, y)` is covered by the ring at distance 7 around `(cx, cy)` once its
/// coordinates are pulled inside the border of a `w` by `h` grid.
pub open spec fn ring_covers(cx: int, cy: int, w: int, h: int, x: int, y: int) -> bool {
    exists|dx: int, dy: int|
        -7 <= dx <= 7 && -7 <= dy <= 7 && (dx == 7 || dx == -7 || dy == 7 || dy == -7)
            && #[trigger] clamp_in(cx + dx, w - 2) == x && #[trigger] clamp_in(cy + dy, h - 2) == y
}

/// `b` is `a` with tiles of type `t` on the cells of `covered` that the
/// player does not hold, and unchanged elsewhere.
pub open spec fn painted_unowned(
    a: Seq<Seq<TileState>>,
    b: Seq<Seq<TileState>>,
    covered: spec_fn(int, int) -> bool,
    t: Seq<char>,
) -> bool {
    &&& a.len() == b.len()
    &&& forall|y: int| 0 <= y < a.len() ==> #[trigger] b[y].len() == a[y].len()
    &&& forall|x: int, y: int|
        #![trigger b[y][x]]
        0 <= y < a.len() && 0 <= x < a[y].len() ==> if covered(x, y) && a[y][x].ownership
            != Ownership::Player {
            &&& b[y][x].tile_type@ == t
            &&& b[y][x].ownership == a[y][x].ownership
            &&& b[y][x].resources_remaining == a[y][x].resources_remaining
            &&& b[y][x].pos == a[y][x].pos
            &&& b[y][x].owner == a[y][x].owner
            &&& b[y][x].marked_for_dig == a[y][x].marked_for_dig
            &&& b[y][x].room_id == a[y][x].room_id
            &&& b[y][x].fog_state == a[y][x].fog_state
        } else {
            b[y][x] == a[y][x]
        }
}

/// Turn the tile at `(x, y)` into a tile of type `t` unless the player
/// holds it.
pub fn paint_unowned_tile(grid: &mut Grid, x: usize, y: usize, t: &str)
    requires
        grid_wf(cells(old(grid))),
        y < old(grid)@.len(),
        x < old(grid)@[0]@.len(),
    ensures
        grid_wf(cells(final(grid))),
        painted_unowned(cells(old(grid)), cells(final(grid)), |xx: int, yy: int| xx == x && yy == y, t@),
{
    let ghost before = cells(grid);
    assert(before[y as int].len() == before[0].len());
    if grid[y][x].ownership != Ownership::Player {
        grid[y][x].tile_type = owned(t);
    }
    proof {
        let after = cells(grid);
        assert forall|yy: int| 0 <= yy < before.len() implies #[trigger] after[yy].len() == before[yy].len() by {}
        assert forall|yy: int| 0 <= yy < after.len() implies #[trigger] after[yy].len() == after[0].len() by {
            assert(before[yy].len() == before[0].len());
        }
    }
}

/// Surround `(cx, cy)` with a ring of lava at distance 7 (on tiles the
/// player does not hold).
#[verifier::rlimit(40)]
fn paint_lava_ring(grid: &mut Grid, cx: usize, cy: usize)
    requires
        paintable(cells(old(grid))),
        cx + 7 <= i32::MAX,
        cy + 7 <= i32::MAX,
    ensures
        paintable(cells(final(grid))),
        painted_unowned(
            cells(old(grid)),
            cells(final(grid)),
            |x: int, y: int|
                ring_covers(
                    cx as int,
                    cy as int,
                    cells(old(grid))[0].len() as int,
                    cells(old(grid)).len() as int,
                    x,
                    y,
                ),
            "lava"@,
        ),
{
    let ghost g0 = cells(grid);
    let width = grid[0].len() as i64;
    let height = grid.len() as i64;
    let mut dy: i64 = -7;
    while dy <= 7
        invariant
            paintable(cells(grid)),
            g0.len() == cells(grid).len(),
            width == g0[0].len(),
            height == g0.len(),
            cx + 7 <= i32::MAX,
            cy + 7 <= i32::MAX,
            -7 <= dy <= 8,
            painted_unowned(
                g0,
                cells(grid),
                |x: int, y: int|
                    exists|ddx: int, ddy: int|
                        -7 <= ddx <= 7 && -7 <= ddy < dy && (ddx == 7 || ddx == -7 || ddy == 7
                            || ddy == -7) && #[trigger] clamp_in(cx + ddx, width - 2) == x
                            && #[trigger] clamp_in(cy + ddy, height - 2) == y,
                "lava"@,
            ),
        decreases 8 - dy,
    {
        let mut dx: i64 = -7;
        while dx <= 7
            invariant
                paintable(cells(grid)),
                g0.len() == cells(grid).len(),
                width == g0[0].len(),
                height == g0.len(),
                cx + 7 <= i32::MAX,
                cy + 7 <= i32::MAX,
                -7 <= dy <= 7,
                -7 <= dx <= 8,
                painted_unowned(
                    g0,
                    cells(grid),
                    |x: int, y: int|
                        exists|ddx: int, ddy: int|
                            -7 <= ddx <= 7 && (-7 <= ddy < dy || (ddy == dy && ddx < dx)) && (ddx
                                == 7 || ddx == -7 || ddy == 7 || ddy == -7) && #[trigger] clamp_in(
                                cx + ddx,
                                width - 2,
                            ) == x && #[trigger] clamp_in(cy + ddy, height - 2) == y,
                    "lava"@,
                ),
            decreases 8 - dx,
        {
            if dx == 7 || dx == -7 || dy == 7 || dy == -7 {
                let vx = cx as i64 + dx;
                let vy = cy as i64 + dy;
                let ax = if vx < 1 { 1 } else { vx };
                let x = if ax < width - 2 { ax } else { width - 2 };
                let ay = if vy < 1 { 1 } else { vy };
                let y = if ay < height - 2 { ay } else { height - 2 };
                assert(x == clamp_in(cx + dx, width - 2));
                assert(y == clamp_in(cy + dy, height - 2));
                let ghost before = cells(grid);
                paint_unowned_tile(grid, x as usize, y as usize, "lava");
                proof {
                    let after = cells(grid);
                    assert forall|xx: int, yy: int|
                        #![trigger after[yy][xx]]
                        0 <= yy < g0.len() && 0 <= xx < g0[yy].len() implies if (exists|
                            ddx: int,
                            ddy: int,
                        |
                            -7 <= ddx <= 7 && (-7 <= ddy < dy || (ddy == dy && ddx < dx + 1)) && (ddx
                                == 7 || ddx == -7 || ddy == 7 || ddy == -7) && #[trigger] clamp_in(
                                cx + ddx,
                                width - 2,
                            ) == xx && #[trigger] clamp_in(cy + ddy, height - 2) == yy)
                            && g0[yy][xx].ownership != Ownership::Player {
                            &&& after[yy][xx].tile_type@ == "lava"@
                            &&& after[yy][xx].ownership == g0[yy][xx].ownership
                            &&& after[yy][xx].resources_remaining == g0[yy][xx].resources_remaining
                            &&& after[yy][xx].pos == g0[yy][xx].pos
                            &&& after[yy][xx].owner == g0[yy][xx].owner
                            &&& after[yy][xx].marked_for_dig == g0[yy][xx].marked_for_dig
                            &&& after[yy][xx].room_id == g0[yy][xx].room_id
                            &&& after[yy][xx].fog_state == g0[yy][xx].fog_state
                        } else {
                            after[yy][xx] == g0[yy][xx]
                        } by {
                        let old_cov = exists|ddx: int, ddy: int|
                            -7 <= ddx <= 7 && (-7 <= ddy < dy || (ddy == dy && ddx < dx)) && (ddx
                                == 7 || ddx == -7 || ddy == 7 || ddy == -7) && #[trigger] clamp_in(
                                cx + ddx,
                                width - 2,
                            ) == xx && #[trigger] clamp_in(cy + ddy, height - 2) == yy;
                        if xx == x && yy == y {
                            assert(clamp_in(cx + dx, width - 2) == xx);
                            assert(clamp_in(cy + dy, height - 2) == yy);
                        } else if exists|ddx: int, ddy: int|
                            -7 <= ddx <= 7 && (-7 <= ddy < dy || (ddy == dy && ddx < dx + 1)) && (ddx
                                == 7 || ddx == -7 || ddy == 7 || ddy == -7) && #[trigger] clamp_in(
                                cx + ddx,
                                width - 2,
                            ) == xx && #[trigger] clamp_in(cy + ddy, height - 2) == yy {
                            let (ddx, ddy) = choose|ddx: int, ddy: int|
                                -7 <= ddx <= 7 && (-7 <= ddy < dy || (ddy == dy && ddx < dx + 1)) && (
                                ddx == 7 || ddx == -7 || ddy == 7 || ddy == -7) && #[trigger] clamp_in(
                                    cx + ddx,
                                    width - 2,
                                ) == xx && #[trigger] clamp_in(cy + ddy, height - 2) == yy;
                            assert(!(ddy == dy && ddx == dx));
                            assert(old_cov);
                        } else {
                            assert(!old_cov);
                        }
                    }
                }
            } else {
                proof {
                    let g = cells(grid);
                    assert forall|xx: int, yy: int|
                        #![trigger g[yy][xx]]
                        0 <= yy < g0.len() && 0 <= xx < g0[yy].len() implies ((exists|
                            ddx: int,
                            ddy: int,
                        |
                            -7 <= ddx <= 7 && (-7 <= ddy < dy || (ddy == dy && ddx < dx + 1)) && (ddx
                                == 7 || ddx == -7 || ddy == 7 || ddy == -7) && #[trigger] clamp_in(
                                cx + ddx,
                                width - 2,
                            ) == xx && #[trigger] clamp_in(cy + ddy, height - 2) == yy) == (exists|
                            ddx: int,
                            ddy: int,
                        |
                            -7 <= ddx <= 7 && (-7 <= ddy < dy || (ddy == dy && ddx < dx)) && (ddx
                                == 7 || ddx == -7 || ddy == 7 || ddy == -7) && #[trigger] clamp_in(
                                cx + ddx,
                                width - 2,
                            ) == xx && #[trigger] clamp_in(cy + ddy, height - 2) == yy)) by {
                        if exists|ddx: int, ddy: int|
                            -7 <= ddx <= 7 && (-7 <= ddy < dy || (ddy == dy && ddx < dx + 1)) && (ddx
                                == 7 || ddx == -7 || ddy == 7 || ddy == -7) && #[trigger] clamp_in(
                                cx + ddx,
                                width - 2,
                            ) == xx && #[trigger] clamp_in(cy + ddy, height - 2) == yy {
                            let (ddx, ddy) = choose|ddx: int, ddy: int|
                                -7 <= ddx <= 7 && (-7 <= ddy < dy || (ddy == dy && ddx < dx + 1)) && (
                                ddx == 7 || ddx == -7 || ddy == 7 || ddy == -7) && #[trigger] clamp_in(
                                    cx + ddx,
                                    width - 2,
                                ) == xx && #[trigger] clamp_in(cy + ddy, height - 2) == yy;
                            assert(!(ddy == dy && ddx == dx));
                        }
                    }
                }
            }
            dx = dx + 1;
        }
        proof {
            let after = cells(grid);
            assert forall|xx: int, yy: int|
                #![trigger after[yy][xx]]
                0 <= yy < g0.len() && 0 <= xx < g0[yy].len() implies ((exists|ddx: int, ddy: int|
                    -7 <= ddx <= 7 && -7 <= ddy < dy + 1 && (ddx == 7 || ddx == -7 || ddy == 7 || ddy
                        == -7) && #[trigger] clamp_in(cx + ddx, width - 2) == xx && #[trigger] clamp_in(
                        cy + ddy,
                        height - 2,
                    ) == yy) == (exists|ddx: int, ddy: int|
                    -7 <= ddx <= 7 && (-7 <= ddy < dy || (ddy == dy && ddx < 8)) && (ddx == 7 || ddx
                        == -7 || ddy == 7 || ddy == -7) && #[trigger] clamp_in(cx + ddx, width - 2) == xx
                        && #[trigger] clamp_in(cy + ddy, height - 2) == yy)) by {}
        }
        dy = dy + 1;
    }
    proof {
        let after = cells(grid);
        assert forall|xx: int, yy: int|
            #![trigger after[yy][xx]]
            0 <= yy < g0.len() && 0 <= xx < g0[yy].len() implies ((exists|ddx: int, ddy: int|
                -7 <= ddx <= 7 && -7 <= ddy < 8 && (ddx == 7 || ddx == -7 || ddy == 7 || ddy == -7)
                    && #[trigger] clamp_in(cx + ddx, width - 2) == xx && #[trigger] clamp_in(
                    cy + ddy,
                    height - 2,
                ) == yy) == ring_covers(
                cx as int,
                cy as int,
                g0[0].len() as int,
                g0.len() as int,
                xx,
                yy,
            )) by {}
    }
}

/// `v - 3`, or 0 below 3 (`saturating_sub`).
pub open spec fn sat_sub3(v: int) -> int {
    if v >= 3 {
        v - 3
    } else {
        0
    }
}

/// `(x, y)` is one of the four gold spots diagonal to `(cx, cy)`.
pub open spec fn gold_spot(cx: int, cy: int, x: int, y: int) -> bool {
    ||| (x == sat_sub3(cx) && y == sat_sub3(cy))
    ||| (x == cx + 3 && y == sat_sub3(cy))
    ||| (x == sat_sub3(cx) && y == cy + 3)
    ||| (x == cx + 3 && y == cy + 3)
}

/// `b` is `a` with gold veins of 100 on the cells of `spots` that lie off the
/// border and are claimed floor, and unchanged elsewhere.
pub open spec fn gold_painted(a: Seq<Seq<TileState>>, b: Seq<Seq<TileState>>, spots: spec_fn(int, int) -> bool) -> bool {
    &&& a.len() == b.len()
    &&& forall|y: int| 0 <= y < a.len() ==> #[trigger] b[y].len() == a[y].len()
    &&& forall|x: int, y: int|
        #![trigger b[y][x]]
        0 <= y < a.len() && 0 <= x < a[y].len() ==> if spots(x, y) && 0 < x < a[0].len() - 1 && 0 < y
            < a.len() - 1 && a[y][x].tile_type@ == "claimed_floor"@ {
            &&& b[y][x].tile_type@ == "gold_vein"@
            &&& b[y][x].resources_remaining == Some(100u32)
            &&& b[y][x].ownership == a[y][x].ownership
            &&& b[y][x].pos == a[y][x].pos
            &&& b[y][x].owner == a[y][x].owner
            &&& b[y][x].marked_for_dig == a[y][x].marked_for_dig
            &&& b[y][x].room_id == a[y][x].room_id
            &&& b[y][x].fog_state == a[y][x].fog_state
        } else {
            b[y][x] == a[y][x]
        }
}

/// Put a gold vein of 100 at `(gx, gy)` if it lies off the border and is
/// claimed floor.
fn place_gold(grid: &mut Grid, gx: usize, gy: usize)
    requires
        paintable(cells(old(grid))),
    ensures
        paintable(cells(final(grid))),
        gold_painted(cells(old(grid)), cells(final(grid)), |x: int, y: int| x == gx && y == gy),
{
    let ghost before = cells(grid);
    if gx > 0 && gx < grid[0].len() - 1 && gy > 0 && gy < grid.len() - 1 {
        assert(before[gy as int].len() == before[0].len());
        if str_eq(grid[gy][gx].tile_type.as_str(), "claimed_floor") {
            grid[gy][gx].tile_type = owned("gold_vein");
            grid[gy][gx].resources_remaining = Some(100);
        }
    }
    proof {
        let after = cells(grid);
        assert forall|yy: int| 0 <= yy < before.len() implies #[trigger] after[yy].len() == before[yy].len() by {}
        assert forall|yy: int| 0 <= yy < after.len() implies #[trigger] after[yy].len() == after[0].len() by {
            assert(before[yy].len() == before[0].len());
        }
    }
}

/// Apply difficulty-specific bonuses: gold veins near the heart on Easy, a
/// ring of lava around the starting area on Nightmare.
pub fn apply_difficulty_bonuses(grid: &mut Grid, difficulty: Difficulty, cx: usize, cy: usize)
    requires
        paintable(cells(old(grid))),
        cx + 7 <= i32::MAX,
        cy + 7 <= i32::MAX,
    ensures
        paintable(cells(final(grid))),
        match difficulty {
            Difficulty::Easy => gold_painted(
                cells(old(grid)),
                cells(final(grid)),
                |x: int, y: int| gold_spot(cx as int, cy as int, x, y),
            ),
            Difficulty::Nightmare => painted_unowned(
                cells(old(grid)),
                cells(final(grid)),
                |x: int, y: int|
                    ring_covers(
                        cx as int,
                        cy as int,
                        cells(old(grid))[0].len() as int,
                        cells(old(grid)).len() as int,
                        x,
                        y,
                    ),
                "lava"@,
            ),
            _ => cells(final(grid)) == cells(old(grid)),
        },
{
    match difficulty {
        Difficulty::Easy => {
            let ghost g0 = cells(grid);
            let x0 = if cx >= 3 { cx - 3 } else { 0 };
            let y0 = if cy >= 3 { cy - 3 } else { 0 };
            place_gold(grid, x0, y0);
            let ghost g1 = cells(grid);
            place_gold(grid, cx + 3, y0);
            let ghost g2 = cells(grid);
            place_gold(grid, x0, cy + 3);
            let ghost g3 = cells(grid);
            place_gold(grid, cx + 3, cy + 3);
            proof {
                let g4 = cells(grid);
                assert forall|x: int, y: int|
                    #![trigger g4[y][x]]
                    0 <= y < g0.len() && 0 <= x < g0[y].len() implies if gold_spot(cx as int, cy as int, x, y) && 0 < x < g0[0].len() - 1 && 0 < y
                        < g0.len() - 1 && g0[y][x].tile_type@ == "claimed_floor"@ {
                        &&& g4[y][x].tile_type@ == "gold_vein"@
                        &&& g4[y][x].resources_remaining == Some(100u32)
                        &&& g4[y][x].ownership == g0[y][x].ownership
                        &&& g4[y][x].pos == g0[y][x].pos
                        &&& g4[y][x].owner == g0[y][x].owner
                        &&& g4[y][x].marked_for_dig == g0[y][x].marked_for_dig
                        &&& g4[y][x].room_id == g0[y][x].room_id
                        &&& g4[y][x].fog_state == g0[y][x].fog_state
                    } else {
                        g4[y][x] == g0[y][x]
                    } by {
                    assert(g1[y][x] == g0[y][x] || (x == x0 && y == y0));
                    assert(g2[y][x] == g1[y][x] || (x == cx + 3 && y == y0));
                    assert(g3[y][x] == g2[y][x] || (x == x0 && y == cy + 3));
                    assert(g4[y][x] == g3[y][x] || (x == cx + 3 && y == cy + 3));
                }
            }
        },
        Difficulty::Nightmare => {
            paint_lava_ring(grid, cx, cy);
        },
        _ => {},
    }
}

/// `v` pulled into `[lo, hi]`, as `v.max(lo).min(hi)` does, as an index.
fn clamp_between(v: i64, lo: i64, hi: i64) -> (r: usize)
    requires
        0 <= lo <= hi,
        hi <= usize::MAX,
    ensures
        r == (if v < lo { lo } else if v > hi { hi } else { v }),
{
    if v < lo {
        lo as usize
    } else if v > hi {
        hi as usize
    } else {
        v as usize
    }
}

/// `b` is `a` with the dungeon heart of the player at `(cx, cy)`, and
/// unchanged elsewhere.
pub open spec fn heart_placed(a: Seq<Seq<TileState>>, b: Seq<Seq<TileState>>, cx: int, cy: int) -> bool {
    &&& a.len() == b.len()
    &&& forall|y: int| 0 <= y < a.len() ==> #[trigger] b[y].len() == a[y].len()
    &&& forall|x: int, y: int|
        #![trigger b[y][x]]
        0 <= y < a.len() && 0 <= x < a[y].len() ==> if x == cx && y == cy {
            &&& b[y][x].tile_type@ == "dungeon_heart"@
            &&& b[y][x].ownership == Ownership::Player
            &&& b[y][x].resources_remaining == a[y][x].resources_remaining
            &&& b[y][x].pos == a[y][x].pos
            &&& b[y][x].owner == a[y][x].owner
            &&& b[y][x].marked_for_dig == a[y][x].marked_for_dig
            &&& b[y][x].room_id == a[y][x].room_id
            &&& b[y][x].fog_state == a[y][x].fog_state
        } else {
            b[y][x] == a[y][x]
        }
}

/// Create the player's starting area around `start_pos`: the cleared ground
/// (claimed floor of the player, the layout's cleared size around it), the
/// dungeon heart at its centre, the layout's rooms (turned by a random
/// quarter turn) and the difficulty's bonuses.
pub fn create_starting_area(grid: &mut Grid, difficulty: Difficulty, start_pos: TilePos)
    requires
        paintable(cells(old(grid))),
        0 <= start_pos.x < old(grid)@[0]@.len(),
        0 <= start_pos.y < old(grid)@.len(),
        old(grid)@[0]@.len() + 8 <= i32::MAX,
        old(grid)@.len() + 8 <= i32::MAX,
    ensures
        paintable(cells(final(grid))),
        exists|g1: Seq<Seq<TileState>>, g2: Seq<Seq<TileState>>|
            #![trigger heart_placed(g1, g2, start_pos.x as int, start_pos.y as int)]
            {
                &&& painted_room(
                    cells(old(grid)),
                    g1,
                    |x: int, y: int|
                        square_covers(
                            start_pos.x as int,
                            start_pos.y as int,
                            3,
                            cells(old(grid))[0].len() as int,
                            cells(old(grid)).len() as int,
                            x,
                            y,
                        ),
                    "claimed_floor"@,
                )
                &&& heart_placed(g1, g2, start_pos.x as int, start_pos.y as int)
                &&& match difficulty {
                    Difficulty::Easy => gold_painted(
                        g2,
                        cells(final(grid)),
                        |x: int, y: int| gold_spot(start_pos.x as int, start_pos.y as int, x, y),
                    ),
                    Difficulty::Nightmare => painted_unowned(
                        g2,
                        cells(final(grid)),
                        |x: int, y: int|
                            ring_covers(
                                start_pos.x as int,
                                start_pos.y as int,
                                cells(old(grid))[0].len() as int,
                                cells(old(grid)).len() as int,
                                x,
                                y,
                            ),
                        "lava"@,
                    ),
                    _ => cells(final(grid)) == g2,
                }
            },
{
    let ghost g0 = cells(grid);
    let center_x = start_pos.x as usize;
    let center_y = start_pos.y as usize;
    let layout = StartingLayout::from_difficulty(difficulty);
    let rotation = random_below(4) as u8;
    let size = layout.cleared_area_size;
    create_room(grid, center_x, center_y, size, "claimed_floor");
    let ghost g1 = cells(grid);
    assert(g1[center_y as int].len() == g1[0].len());
    grid[center_y][center_x].tile_type = owned("dungeon_heart");
    grid[center_y][center_x].ownership = Ownership::Player;
    let ghost g2 = cells(grid);
    proof {
        assert forall|yy: int| 0 <= yy < g1.len() implies #[trigger] g2[yy].len() == g1[yy].len() by {}
        assert forall|yy: int| 0 <= yy < g2.len() implies #[trigger] g2[yy].len() == g2[0].len() by {
            assert(g1[yy].len() == g1[0].len());
        }
        assert(heart_placed(g1, g2, start_pos.x as int, start_pos.y as int));
    }
    // Prebuilt rooms of the layout, turned by the random rotation (no
    // difficulty's layout has any at present).
    let width = grid[0].len();
    let height = grid.len();
    let mut i: usize = 0;
    while i < layout.rooms.len()
        invariant
            layout.rooms@.len() == 0,
            i <= layout.rooms@.len(),
            cells(grid) == g2,
        decreases layout.rooms@.len() - i,
    {
        let room = &layout.rooms[i];
        let (rx, ry) = rotate_offset(room.offset_x, room.offset_y, rotation);
        let room_x = clamp_between(center_x as i64 + rx as i64, 3, width as i64 - 4);
        let room_y = clamp_between(center_y as i64 + ry as i64, 3, height as i64 - 4);
        create_room(grid, room_x, room_y, room.size, room.room_type.as_str());
        i = i + 1;
    }
    apply_difficulty_bonuses(grid, difficulty, center_x, center_y);
}

/// Quarter turns compose: turning by `a` and then by `b` is turning by
/// `a + b` (modulo a full turn).
pub proof fn rotations_compose(x: int, y: int, a: u8, b: u8)
    ensures
        ({
            let r1 = rotated(x, y, a);
            rotated(r1.0, r1.1, b)
        }) == rotated(x, y, ((a % 4 + b % 4) % 4) as u8),
{
}

/// Four quarter turns give back the offset.
pub proof fn full_turn_is_identity(x: int, y: int)
    ensures
        ({
            let r1 = rotated(x, y, 1);
            let r2 = rotated(r1.0, r1.1, 1);
            let r3 = rotated(r2.0, r2.1, 1);
            rotated(r3.0, r3.1, 1)
        }) == (x, y),
{
}

/// `v` lies in `lo..hi`.
pub open spec fn within(v: int, lo: int, hi: int) -> bool {
    lo <= v < hi
}

/// A random integer in `lo..hi`.
fn random_in(lo: i32, hi: i32) -> (r: i32)
    requires
        lo < hi,
        hi - lo <= 0x10_0000,
    ensures
        lo <= r < hi,
{
    lo + random_below((hi - lo) as u32) as i32
}

/// Where the player's dungeon heart may go on a `width` by `height` map with
/// the strategy `strategy`: the centre; one of the four corner spots 12 in
/// from the edges; a spot on one of the four lines 12 in from the edges
/// (at least 12 from their ends); or anywhere at least 15 from the edges.
pub open spec fn start_allowed(strategy: StartingPosition, width: int, height: int, p: TilePos) -> bool {
    match strategy {
        StartingPosition::Center => p.x == width / 2 && p.y == height / 2,
        StartingPosition::Corner => (p.x == 12 || p.x == width - 12) && (p.y == 12 || p.y == height - 12),
        StartingPosition::Edge => {
            ||| (p.y == 12 && within(p.x as int, 12, width - 12))
            ||| (p.x == width - 12 && within(p.y as int, 12, height - 12))
            ||| (p.y == height - 12 && within(p.x as int, 12, width - 12))
            ||| (p.x == 12 && within(p.y as int, 12, height - 12))
        },
        StartingPosition::Random => within(p.x as int, 15, width - 15) && within(p.y as int, 15, height - 15),
    }
}

/// The map is large enough for the strategy's random choices.
pub open spec fn start_fits(strategy: StartingPosition, width: int, height: int) -> bool {
    &&& width <= 0x10_0000 && height <= 0x10_0000
    &&& match strategy {
        StartingPosition::Center => true,
        StartingPosition::Corner => width >= 12 && height >= 12,
        StartingPosition::Edge => width > 24 && height > 24,
        StartingPosition::Random => width > 30 && height > 30,
    }
}

/// Choose where the player's dungeon heart goes (see `start_allowed`); the
/// corner, the edge and the spot on it are drawn at random.
pub fn calculate_starting_position(strategy: StartingPosition, width: usize, height: usize) -> (p: TilePos)
    requires
        start_fits(strategy, width as int, height as int),
    ensures
        start_allowed(strategy, width as int, height as int, p),
{
    let w = width as i32;
    let h = height as i32;
    match strategy {
        StartingPosition::Center => TilePos::new(w / 2, h / 2),
        StartingPosition::Corner => {
            let corner = random_below(4);
            if corner == 0 {
                TilePos::new(12, 12)
            } else if corner == 1 {
                TilePos::new(w - 12, 12)
            } else if corner == 2 {
                TilePos::new(12, h - 12)
            } else {
                TilePos::new(w - 12, h - 12)
            }
        },
        StartingPosition::Edge => {
            let edge = random_below(4);
            if edge == 0 {
                TilePos::new(random_in(12, w - 12), 12)
            } else if edge == 1 {
                TilePos::new(w - 12, random_in(12, h - 12))
            } else if edge == 2 {
                TilePos::new(random_in(12, w - 12), h - 12)
            } else {
                TilePos::new(12, random_in(12, h - 12))
            }
        },
        StartingPosition::Random => TilePos::new(random_in(15, w - 15), random_in(15, h - 15)),
    }
}

} // verus!
