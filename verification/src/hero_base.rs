//! The heroes' walled town, built in the corner of the map opposite the
//! player's start.
use vstd::prelude::*;
use crate::tiles::{TilePos, TileState, Ownership, owned, abs_int};
use crate::grid::{Grid, cells};

verus! {

/// How far from the heroes' base centre its walls stand.
pub const BASE_RADIUS: i32 = 6;

/// The corner (10 tiles in) opposite to `start` on a `w` by `h` map.
pub open spec fn opposite_corner(start: TilePos, w: int, h: int) -> (int, int) {
    if start.x < w / 2 {
        if start.y < h / 2 {
            (w - 10, h - 10)
        } else {
            (w - 10, 10)
        }
    } else {
        if start.y < h / 2 {
            (10, h - 10)
        } else {
            (10, 10)
        }
    }
}

/// The corner of the map opposite the starting position, 10 tiles in.
pub fn find_opposite_corner(start_pos: TilePos, width: usize, height: usize) -> (r: TilePos)
    requires
        width <= i32::MAX,
        height <= i32::MAX,
    ensures
        (r.x as int, r.y as int) == opposite_corner(start_pos, width as int, height as int),
{
    let w = width as i32;
    let h = height as i32;
    let margin: i32 = 10;
    if start_pos.x < w / 2 {
        if start_pos.y < h / 2 {
            TilePos::new(w - margin, h - margin)
        } else {
            TilePos::new(w - margin, margin)
        }
    } else {
        if start_pos.y < h / 2 {
            TilePos::new(margin, h - margin)
        } else {
            TilePos::new(margin, margin)
        }
    }
}

/// `(x, y)` is a tile of the grid (rows may differ in length).
pub open spec fn in_grid(g: Seq<Seq<TileState>>, x: int, y: int) -> bool {
    0 <= y < g.len() && 0 <= x < g[y].len()
}

/// `(x, y)` lies in the `w` by `h` rectangle and on the grid.
pub open spec fn in_rect(g: Seq<Seq<TileState>>, w: int, h: int, x: int, y: int) -> bool {
    0 <= x < w && 0 <= y < h && in_grid(g, x, y)
}

/// `b` is `a` with the tile at `(x, y)` (if it is one) set to type `t`, and
/// to enemy ground when `enemy`.
pub open spec fn stamped(a: Seq<Seq<TileState>>, b: Seq<Seq<TileState>>, x: int, y: int, t: Seq<char>, enemy: bool) -> bool {
    &&& a.len() == b.len()
    &&& forall|yy: int| 0 <= yy < a.len() ==> #[trigger] b[yy].len() == a[yy].len()
    &&& forall|xx: int, yy: int|
        #![trigger b[yy][xx]]
        in_grid(a, xx, yy) ==> if xx == x && yy == y {
            &&& b[yy][xx].tile_type@ == t
            &&& b[yy][xx].ownership == if enemy {
                Ownership::Enemy
            } else {
                a[yy][xx].ownership
            }
            &&& b[yy][xx].pos == a[yy][xx].pos
            &&& b[yy][xx].owner == a[yy][xx].owner
            &&& b[yy][xx].marked_for_dig == a[yy][xx].marked_for_dig
            &&& b[yy][xx].resources_remaining == a[yy][xx].resources_remaining
            &&& b[yy][xx].room_id == a[yy][xx].room_id
            &&& b[yy][xx].fog_state == a[yy][xx].fog_state
        } else {
            b[yy][xx] == a[yy][xx]
        }
}

/// Set the tile at `(x, y)`, if the grid has one there, to type `t` (and to
/// enemy ground when `enemy`).
fn stamp(grid: &mut Grid, x: i64, y: i64, t: &str, enemy: bool)
    ensures
        stamped(cells(old(grid)), cells(final(grid)), x as int, y as int, t@, enemy),
        !in_grid(cells(old(grid)), x as int, y as int) ==> *final(grid) == *old(grid),
{
    let ghost before = cells(grid);
    if x >= 0 && y >= 0 && (y as u64) < (grid.len() as u64) && (x as u64) < (grid[y as usize].len() as u64) {
        let tile = &mut grid[y as usize][x as usize];
        tile.tile_type = owned(t);
        if enemy {
            tile.ownership = Ownership::Enemy;
        }
    }
    proof {
        let after = cells(grid);
        assert forall|yy: int| 0 <= yy < before.len() implies #[trigger] after[yy].len() == before[yy].len() by {}
    }
}

/// Place a building tile of type `id` (enemy ground) at `(x, y)` if it lies
/// in the `width` by `height` rectangle and on the grid.
pub fn place_building_tile(grid: &mut Grid, x: i32, y: i32, id: &str, width: usize, height: usize)
    ensures
        if in_rect(cells(old(grid)), width as int, height as int, x as int, y as int) {
            stamped(cells(old(grid)), cells(final(grid)), x as int, y as int, id@, true)
        } else {
            cells(final(grid)) == cells(old(grid))
        },
{
    if x >= 0 && (x as usize) < width && y >= 0 && (y as usize) < height {
        stamp(grid, x as i64, y as i64, id, true);
    }
}

/// The building that stands at offset `(dx, dy)` from the base centre.
pub open spec fn building_at(dx: int, dy: int) -> Option<Seq<char>> {
    if dx == 0 && dy == 0 {
        Some("town_hall"@)
    } else if dx == -4 && dy == -2 {
        Some("barracks"@)
    } else if dx == 4 && dy == -2 {
        Some("church"@)
    } else if dx == 0 && dy == -4 {
        Some("mage_tower"@)
    } else if dx == -4 && dy == 2 {
        Some("archery_range"@)
    } else if dx == 4 && dy == 2 {
        Some("stable"@)
    } else if dx == 0 && dy == 4 {
        Some("armory"@)
    } else {
        None
    }
}

/// `(dx, dy)` lies on the wall ring at distance 6.
pub open spec fn on_wall(dx: int, dy: int) -> bool {
    (-6 <= dx <= 6 && (dy == -6 || dy == 6)) || (-6 <= dy <= 6 && (dx == -6 || dx == 6))
}

/// The sign of an integer.
pub open spec fn signum(v: int) -> int {
    if v > 0 {
        1
    } else if v < 0 {
        -1
    } else {
        0
    }
}

/// The entrance's offset from the base centre: on the wall, on the side facing
/// the start (`(sx, sy)` is the start's offset from the centre).
pub open spec fn gate_offset(sx: int, sy: int) -> (int, int) {
    if abs_int(sx) > abs_int(sy) {
        (signum(sx) * 6, 0)
    } else {
        (0, signum(sy) * 6)
    }
}

/// The `i`-th tile of the path carved outward from the entrance at offset `g`.
pub open spec fn path_cell(g: (int, int), i: int) -> (int, int) {
    (g.0 + signum(g.0) * i, g.1 + signum(g.1) * i)
}

/// `(dx, dy)` is on the path of earth carved outward from the entrance (four
/// tiles long).
pub open spec fn on_path(sx: int, sy: int, dx: int, dy: int) -> bool {
    exists|i: int| 1 <= i <= 4 && #[trigger] path_cell(gate_offset(sx, sy), i) == (dx, dy)
}

/// The type of the tile at offset `(dx, dy)` from the base centre after the
/// town is built (none where the town leaves the tile alone), by priority:
/// path, gate, walls, buildings, cleared ground.
pub open spec fn base_tile_type(sx: int, sy: int, dx: int, dy: int, inside: bool) -> Option<Seq<char>> {
    let g = gate_offset(sx, sy);
    if on_path(sx, sy, dx, dy) {
        Some("earth"@)
    } else if !inside {
        None
    } else if dx == g.0 && dy == g.1 {
        Some("hero_gate"@)
    } else if on_wall(dx, dy) {
        Some("hero_wall"@)
    } else if building_at(dx, dy) is Some {
        building_at(dx, dy)
    } else if -6 <= dx <= 6 && -6 <= dy <= 6 {
        Some("claimed_floor"@)
    } else {
        None
    }
}

/// `b` is `a` with every tile of `covered` set to type `t(x, y)` (and to
/// enemy ground when `enemy`), and unchanged elsewhere.
pub open spec fn phase(
    a: Seq<Seq<TileState>>,
    b: Seq<Seq<TileState>>,
    covered: spec_fn(int, int) -> bool,
    t: spec_fn(int, int) -> Seq<char>,
    enemy: bool,
) -> bool {
    &&& a.len() == b.len()
    &&& forall|yy: int| 0 <= yy < a.len() ==> #[trigger] b[yy].len() == a[yy].len()
    &&& forall|xx: int, yy: int|
        #![trigger b[yy][xx]]
        in_grid(a, xx, yy) ==> if covered(xx, yy) {
            &&& b[yy][xx].tile_type@ == t(xx, yy)
            &&& b[yy][xx].ownership == if enemy {
                Ownership::Enemy
            } else {
                a[yy][xx].ownership
            }
            &&& b[yy][xx].pos == a[yy][xx].pos
            &&& b[yy][xx].owner == a[yy][xx].owner
            &&& b[yy][xx].marked_for_dig == a[yy][xx].marked_for_dig
            &&& b[yy][xx].resources_remaining == a[yy][xx].resources_remaining
            &&& b[yy][xx].room_id == a[yy][xx].room_id
            &&& b[yy][xx].fog_state == a[yy][xx].fog_state
        } else {
            b[yy][xx] == a[yy][xx]
        }
}

/// A phase that covers nothing leaves the grid as it is.
proof fn lemma_phase_empty(a: Seq<Seq<TileState>>, t: spec_fn(int, int) -> Seq<char>, enemy: bool)
    ensures
        phase(a, a, |x: int, y: int| false, t, enemy),
{
}

/// Stamping one more tile extends a phase by that tile.
proof fn lemma_phase_stamp(
    a: Seq<Seq<TileState>>,
    mid: Seq<Seq<TileState>>,
    b: Seq<Seq<TileState>>,
    c_old: spec_fn(int, int) -> bool,
    c_new: spec_fn(int, int) -> bool,
    t: spec_fn(int, int) -> Seq<char>,
    enemy: bool,
    x: int,
    y: int,
    stamped_here: bool,
)
    requires
        phase(a, mid, c_old, t, enemy),
        stamped_here ==> stamped(mid, b, x, y, t(x, y), enemy),
        !stamped_here ==> b == mid,
        forall|xx: int, yy: int|
            in_grid(a, xx, yy) ==> (#[trigger] c_new(xx, yy) == (c_old(xx, yy) || (stamped_here
                && xx == x && yy == y))),
    ensures
        phase(a, b, c_new, t, enemy),
{
    assert forall|yy: int| 0 <= yy < a.len() implies #[trigger] b[yy].len() == a[yy].len() by {
        assert(mid[yy].len() == a[yy].len());
    }
    assert forall|xx: int, yy: int|
        #![trigger b[yy][xx]]
        in_grid(a, xx, yy) implies if c_new(xx, yy) {
            &&& b[yy][xx].tile_type@ == t(xx, yy)
            &&& b[yy][xx].ownership == if enemy {
                Ownership::Enemy
            } else {
                a[yy][xx].ownership
            }
            &&& b[yy][xx].pos == a[yy][xx].pos
            &&& b[yy][xx].owner == a[yy][xx].owner
            &&& b[yy][xx].marked_for_dig == a[yy][xx].marked_for_dig
            &&& b[yy][xx].resources_remaining == a[yy][xx].resources_remaining
            &&& b[yy][xx].room_id == a[yy][xx].room_id
            &&& b[yy][xx].fog_state == a[yy][xx].fog_state
        } else {
            b[yy][xx] == a[yy][xx]
        } by {
        assert(mid[yy].len() == a[yy].len());
        assert(in_grid(mid, xx, yy));
        if stamped_here {
            assert(b[yy][xx] == mid[yy][xx] || (xx == x && yy == y));
        }
    }
}

/// The buildings of the town and their offsets from its centre, in the
/// order they are placed.
pub open spec fn building_table(j: int) -> (Seq<char>, int, int) {
    if j == 0 {
        ("town_hall"@, 0, 0)
    } else if j == 1 {
        ("barracks"@, -4, -2)
    } else if j == 2 {
        ("church"@, 4, -2)
    } else if j == 3 {
        ("mage_tower"@, 0, -4)
    } else if j == 4 {
        ("archery_range"@, -4, 2)
    } else if j == 5 {
        ("stable"@, 4, 2)
    } else {
        ("armory"@, 0, 4)
    }
}

/// The `j`-th building of the town and its offset.
fn building_entry(j: usize) -> (r: (&'static str, i32, i32))
    requires
        j < 7,
    ensures
        (r.0@, r.1 as int, r.2 as int) == building_table(j as int),
{
    if j == 0 {
        ("town_hall", 0, 0)
    } else if j == 1 {
        ("barracks", -4, -2)
    } else if j == 2 {
        ("church", 4, -2)
    } else if j == 3 {
        ("mage_tower", 0, -4)
    } else if j == 4 {
        ("archery_range", -4, 2)
    } else if j == 5 {
        ("stable", 4, 2)
    } else {
        ("armory", 0, 4)
    }
}

/// The name of the building at offset `(dx, dy)` (empty where there is none).
pub open spec fn building_name(dx: int, dy: int) -> Seq<char> {
    match building_at(dx, dy) {
        Some(n) => n,
        None => Seq::empty(),
    }
}

/// The town built on `a` gives `b`: around the centre `c`, with the start at
/// offset `s` from it, every tile has the type that `base_tile_type` gives
/// (others keep theirs), the tiles of the cleared square on the map are enemy
/// ground, and nothing else about any tile changes.
pub open spec fn base_built(a: Seq<Seq<TileState>>, b: Seq<Seq<TileState>>, c: (int, int), s: (int, int)) -> bool {
    let w = a[0].len() as int;
    let h = a.len() as int;
    &&& a.len() == b.len()
    &&& forall|yy: int| 0 <= yy < a.len() ==> #[trigger] b[yy].len() == a[yy].len()
    &&& forall|x: int, y: int|
        #![trigger b[y][x]]
        in_grid(a, x, y) ==> {
            let dx = x - c.0;
            let dy = y - c.1;
            let inside = in_rect(a, w, h, x, y);
            &&& b[y][x].tile_type@ == match base_tile_type(s.0, s.1, dx, dy, inside) {
                Some(t) => t,
                None => a[y][x].tile_type@,
            }
            &&& b[y][x].ownership == if inside && -6 <= dx <= 6 && -6 <= dy <= 6 {
                Ownership::Enemy
            } else {
                a[y][x].ownership
            }
            &&& b[y][x].pos == a[y][x].pos
            &&& b[y][x].owner == a[y][x].owner
            &&& b[y][x].marked_for_dig == a[y][x].marked_for_dig
            &&& b[y][x].resources_remaining == a[y][x].resources_remaining
            &&& b[y][x].room_id == a[y][x].room_id
            &&& b[y][x].fog_state == a[y][x].fog_state
        }
}

/// The same type everywhere.
pub open spec fn const_type(t: Seq<char>) -> spec_fn(int, int) -> Seq<char> {
    |x: int, y: int| t
}

/// The building name at each tile, for a town centred at `(cx, cy)`.
pub open spec fn building_type(cx: int, cy: int) -> spec_fn(int, int) -> Seq<char> {
    |x: int, y: int| building_name(x - cx, y - cy)
}

/// The tiles of the cleared square handled so far: rows above `dy`, and row
/// `dy` left of `dx` (offsets from the centre).
pub open spec fn clear_cov(g: Seq<Seq<TileState>>, w: int, h: int, cx: int, cy: int, dy: int, dx: int) -> spec_fn(int, int) -> bool {
    |x: int, y: int|
        in_rect(g, w, h, x, y) && -6 <= x - cx <= 6 && (-6 <= y - cy < dy || (y - cy == dy && x - cx < dx))
}

/// The tiles of the first `j` buildings.
pub open spec fn building_cov(g: Seq<Seq<TileState>>, w: int, h: int, cx: int, cy: int, j: int) -> spec_fn(int, int) -> bool {
    |x: int, y: int|
        in_rect(g, w, h, x, y) && exists|k: int|
            0 <= k < j && #[trigger] building_table(k) == (building_name(x - cx, y - cy), x - cx, y - cy)
}

/// The wall tiles placed for offsets before `d`, and the first `stage` of
/// the four tiles of offset `d`.
pub open spec fn wall_cov(g: Seq<Seq<TileState>>, w: int, h: int, cx: int, cy: int, d: int, stage: int) -> spec_fn(int, int) -> bool {
    |x: int, y: int|
        in_rect(g, w, h, x, y) && {
            let ox = x - cx;
            let oy = y - cy;
            ||| (-6 <= ox < d && (oy == -6 || oy == 6))
            ||| (-6 <= oy < d && (ox == -6 || ox == 6))
            ||| (stage >= 1 && ox == d && oy == -6)
            ||| (stage >= 2 && ox == d && oy == 6)
            ||| (stage >= 3 && ox == -6 && oy == d)
            ||| (stage >= 4 && ox == 6 && oy == d)
        }
}

/// The entrance tile.
pub open spec fn gate_cov(g: Seq<Seq<TileState>>, w: int, h: int, cx: int, cy: int, s: (int, int)) -> spec_fn(int, int) -> bool {
    |x: int, y: int| in_rect(g, w, h, x, y) && (x - cx, y - cy) == gate_offset(s.0, s.1)
}

/// The path tiles carved before step `i`.
pub open spec fn path_cov(g: Seq<Seq<TileState>>, cx: int, cy: int, s: (int, int), i: int) -> spec_fn(int, int) -> bool {
    |x: int, y: int|
        in_grid(g, x, y) && exists|k: int|
            1 <= k < i && #[trigger] path_cell(gate_offset(s.0, s.1), k) == (x - cx, y - cy)
}

/// The sign of a coordinate difference.
fn sign_of(v: i32) -> (r: i32)
    ensures
        r == signum(v as int),
{
    if v > 0 {
        1
    } else if v < 0 {
        -1
    } else {
        0
    }
}

/// The five phases of building the town give the town.
proof fn lemma_base_final(
    g0: Seq<Seq<TileState>>,
    g1: Seq<Seq<TileState>>,
    g2: Seq<Seq<TileState>>,
    g3: Seq<Seq<TileState>>,
    g4: Seq<Seq<TileState>>,
    g5: Seq<Seq<TileState>>,
    cx: int,
    cy: int,
    s: (int, int),
)
    requires
        g0.len() > 0,
        phase(g0, g1, clear_cov(g0, g0[0].len() as int, g0.len() as int, cx, cy, 7, -6), const_type("claimed_floor"@), true),
        phase(g1, g2, building_cov(g0, g0[0].len() as int, g0.len() as int, cx, cy, 7), building_type(cx, cy), true),
        phase(g2, g3, wall_cov(g0, g0[0].len() as int, g0.len() as int, cx, cy, 7, 0), const_type("hero_wall"@), true),
        phase(g3, g4, gate_cov(g0, g0[0].len() as int, g0.len() as int, cx, cy, s), const_type("hero_gate"@), true),
        phase(g4, g5, path_cov(g0, cx, cy, s, 5), const_type("earth"@), false),
    ensures
        base_built(g0, g5, (cx, cy), s),
{
    let w = g0[0].len() as int;
    let h = g0.len() as int;
    assert forall|yy: int| 0 <= yy < g0.len() implies #[trigger] g5[yy].len() == g0[yy].len() by {
        assert(g1[yy].len() == g0[yy].len());
        assert(g2[yy].len() == g1[yy].len());
        assert(g3[yy].len() == g2[yy].len());
        assert(g4[yy].len() == g3[yy].len());
    }
    assert forall|x: int, y: int|
        #![trigger g5[y][x]]
        in_grid(g0, x, y) implies {
            let dx = x - cx;
            let dy = y - cy;
            let inside = in_rect(g0, w, h, x, y);
            &&& g5[y][x].tile_type@ == match base_tile_type(s.0, s.1, dx, dy, inside) {
                Some(t) => t,
                None => g0[y][x].tile_type@,
            }
            &&& g5[y][x].ownership == if inside && -6 <= dx <= 6 && -6 <= dy <= 6 {
                Ownership::Enemy
            } else {
                g0[y][x].ownership
            }
            &&& g5[y][x].pos == g0[y][x].pos
            &&& g5[y][x].owner == g0[y][x].owner
            &&& g5[y][x].marked_for_dig == g0[y][x].marked_for_dig
            &&& g5[y][x].resources_remaining == g0[y][x].resources_remaining
            &&& g5[y][x].room_id == g0[y][x].room_id
            &&& g5[y][x].fog_state == g0[y][x].fog_state
        } by {
        let dx = x - cx;
        let dy = y - cy;
        assert(g1[y].len() == g0[y].len());
        assert(g2[y].len() == g1[y].len());
        assert(g3[y].len() == g2[y].len());
        assert(g4[y].len() == g3[y].len());
        assert(in_grid(g1, x, y) && in_grid(g2, x, y) && in_grid(g3, x, y) && in_grid(g4, x, y));
        let a1 = g1[y][x];
        let a2 = g2[y][x];
        let a3 = g3[y][x];
        let a4 = g4[y][x];
        let a5 = g5[y][x];
        // Which buildings stand where.
        if building_at(dx, dy) is Some {
            assert(exists|k: int| 0 <= k < 7 && #[trigger] building_table(k) == (building_name(dx, dy), dx, dy)) by {
                if dx == 0 && dy == 0 { assert(building_table(0) == (building_name(dx, dy), dx, dy)); }
                else if dx == -4 && dy == -2 { assert(building_table(1) == (building_name(dx, dy), dx, dy)); }
                else if dx == 4 && dy == -2 { assert(building_table(2) == (building_name(dx, dy), dx, dy)); }
                else if dx == 0 && dy == -4 { assert(building_table(3) == (building_name(dx, dy), dx, dy)); }
                else if dx == -4 && dy == 2 { assert(building_table(4) == (building_name(dx, dy), dx, dy)); }
                else if dx == 4 && dy == 2 { assert(building_table(5) == (building_name(dx, dy), dx, dy)); }
                else { assert(building_table(6) == (building_name(dx, dy), dx, dy)); }
            }
        }
        if exists|k: int| 0 <= k < 7 && #[trigger] building_table(k) == (building_name(dx, dy), dx, dy) {
            let k = choose|k: int| 0 <= k < 7 && #[trigger] building_table(k) == (building_name(dx, dy), dx, dy);
            assert(building_at(dx, dy) is Some);
        }
        let g = gate_offset(s.0, s.1);
        assert(-6 <= g.0 <= 6 && -6 <= g.1 <= 6);
        if on_path(s.0, s.1, dx, dy) {
            let k = choose|k: int| 1 <= k <= 4 && #[trigger] path_cell(gate_offset(s.0, s.1), k) == (dx, dy);
            assert(1 <= k < 5 && path_cell(gate_offset(s.0, s.1), k) == (x - cx, y - cy));
        }
        if path_cov(g0, cx, cy, s, 5)(x, y) {
            let k = choose|k: int| 1 <= k < 5 && #[trigger] path_cell(gate_offset(s.0, s.1), k) == (x - cx, y - cy);
            assert(on_path(s.0, s.1, dx, dy));
        }
    }
}

/// Build the heroes' town (when enabled) in the corner opposite the start: a
/// cleared square of enemy ground of radius 6, seven buildings, a wall ring
/// with an entrance facing the start, and a path of earth out of the entrance.
#[verifier::rlimit(60)]
pub fn place_hero_base(grid: &mut Grid, start_pos: TilePos, hero_base_enabled: bool)
    requires
        old(grid)@.len() > 0,
        old(grid)@.len() <= i32::MAX,
        old(grid)@[0]@.len() <= i32::MAX,
        i32::MIN < start_pos.x - opposite_corner(
            start_pos,
            old(grid)@[0]@.len() as int,
            old(grid)@.len() as int,
        ).0 <= i32::MAX,
        i32::MIN < start_pos.y - opposite_corner(
            start_pos,
            old(grid)@[0]@.len() as int,
            old(grid)@.len() as int,
        ).1 <= i32::MAX,
    ensures
        !hero_base_enabled ==> *final(grid) == *old(grid),
        hero_base_enabled ==> {
            let c = opposite_corner(start_pos, old(grid)@[0]@.len() as int, old(grid)@.len() as int);
            base_built(cells(old(grid)), cells(final(grid)), c, (start_pos.x - c.0, start_pos.y - c.1))
        },
{
    if !hero_base_enabled {
        return;
    }
    let ghost g0 = cells(grid);
    let width = grid[0].len();
    let height = grid.len();
    let center = find_opposite_corner(start_pos, width, height);
    let ghost w = width as int;
    let ghost h = height as int;
    let ghost cx = center.x as int;
    let ghost cy = center.y as int;
    assert(-10 <= cx <= i32::MAX - 10 && -10 <= cy <= i32::MAX - 10);

    // Phase 1: the cleared square.
    proof {
        assert(clear_cov(g0, w, h, cx, cy, -6, -6) =~= (|x: int, y: int| false));
        lemma_phase_empty(g0, const_type("claimed_floor"@), true);
    }
    let mut dy: i32 = -6;
    while dy <= 6
        invariant
            g0 == cells(old(grid)),
            g0.len() > 0,
            w == width,
            h == height,
            width == g0[0].len(),
            height == g0.len(),
            cx == center.x,
            cy == center.y,
            -10 <= cx <= i32::MAX - 10,
            -10 <= cy <= i32::MAX - 10,
            -6 <= dy <= 7,
            phase(g0, cells(grid), clear_cov(g0, w, h, cx, cy, dy as int, -6), const_type("claimed_floor"@), true),
        decreases 7 - dy,
    {
        let mut dx: i32 = -6;
        while dx <= 6
            invariant
                g0 == cells(old(grid)),
                g0.len() > 0,
                w == width,
                h == height,
                width == g0[0].len(),
                height == g0.len(),
                cx == center.x,
                cy == center.y,
                -10 <= cx <= i32::MAX - 10,
                -10 <= cy <= i32::MAX - 10,
                -6 <= dy <= 6,
                -6 <= dx <= 7,
                phase(g0, cells(grid), clear_cov(g0, w, h, cx, cy, dy as int, dx as int), const_type("claimed_floor"@), true),
            decreases 7 - dx,
        {
            let ghost mid = cells(grid);
            let x = center.x + dx;
            let y = center.y + dy;
            place_building_tile(grid, x, y, "claimed_floor", width, height);
            proof {
                lemma_phase_stamp(
                    g0,
                    mid,
                    cells(grid),
                    clear_cov(g0, w, h, cx, cy, dy as int, dx as int),
                    clear_cov(g0, w, h, cx, cy, dy as int, dx + 1),
                    const_type("claimed_floor"@),
                    true,
                    x as int,
                    y as int,
                    in_rect(mid, w, h, x as int, y as int),
                );
            }
            dx = dx + 1;
        }
        proof {
            assert(clear_cov(g0, w, h, cx, cy, dy as int, 7) =~= clear_cov(g0, w, h, cx, cy, dy + 1, -6));
        }
        dy = dy + 1;
    }
    let ghost g1 = cells(grid);

    // Phase 2: the buildings.
    proof {
        assert(building_cov(g0, w, h, cx, cy, 0) =~= (|x: int, y: int| false));
        lemma_phase_empty(g1, building_type(cx, cy), true);
    }
    let mut j: usize = 0;
    while j < 7
        invariant
            g0.len() > 0,
            g1.len() == g0.len(),
            forall|yy: int| 0 <= yy < g0.len() ==> #[trigger] g1[yy].len() == g0[yy].len(),
            w == width,
            h == height,
            width == g0[0].len(),
            height == g0.len(),
            cx == center.x,
            cy == center.y,
            -10 <= cx <= i32::MAX - 10,
            -10 <= cy <= i32::MAX - 10,
            j <= 7,
            phase(g1, cells(grid), building_cov(g0, w, h, cx, cy, j as int), building_type(cx, cy), true),
        decreases 7 - j,
    {
        let ghost mid = cells(grid);
        let (id, bdx, bdy) = building_entry(j);
        let x = center.x + bdx;
        let y = center.y + bdy;
        place_building_tile(grid, x, y, id, width, height);
        proof {
            assert(building_type(cx, cy)(x as int, y as int) == id@);
            assert forall|xx: int, yy: int| in_grid(g1, xx, yy) implies #[trigger] building_cov(g0, w, h, cx, cy, j + 1)(xx, yy)
                == (building_cov(g0, w, h, cx, cy, j as int)(xx, yy) || (in_rect(mid, w, h, x as int, y as int) && xx == x && yy == y)) by {
                if xx == x && yy == y {
                    assert(building_table(j as int) == (building_name(xx - cx, yy - cy), xx - cx, yy - cy));
                }
                if exists|k: int|
                        0 <= k < j + 1 && #[trigger] building_table(k) == (building_name(xx - cx, yy - cy), xx
                            - cx, yy - cy) {
                    let k = choose|k: int|
                        0 <= k < j + 1 && #[trigger] building_table(k) == (building_name(xx - cx, yy - cy), xx
                            - cx, yy - cy);
                    if k == j {
                        assert(xx == x && yy == y);
                    }
                }
            }
            lemma_phase_stamp(
                g1,
                mid,
                cells(grid),
                building_cov(g0, w, h, cx, cy, j as int),
                building_cov(g0, w, h, cx, cy, j + 1),
                building_type(cx, cy),
                true,
                x as int,
                y as int,
                in_rect(mid, w, h, x as int, y as int),
            );
        }
        j = j + 1;
    }
    let ghost g2 = cells(grid);

    // Phase 3: the walls.
    proof {
        assert(wall_cov(g0, w, h, cx, cy, -6, 0) =~= (|x: int, y: int| false));
        lemma_phase_empty(g2, const_type("hero_wall"@), true);
    }
    let mut d: i32 = -6;
    while d <= 6
        invariant
            g0.len() > 0,
            g2.len() == g0.len(),
            forall|yy: int| 0 <= yy < g0.len() ==> #[trigger] g2[yy].len() == g0[yy].len(),
            w == width,
            h == height,
            width == g0[0].len(),
            height == g0.len(),
            cx == center.x,
            cy == center.y,
            -10 <= cx <= i32::MAX - 10,
            -10 <= cy <= i32::MAX - 10,
            -6 <= d <= 7,
            phase(g2, cells(grid), wall_cov(g0, w, h, cx, cy, d as int, 0), const_type("hero_wall"@), true),
        decreases 7 - d,
    {
        let ghost m0 = cells(grid);
        place_building_tile(grid, center.x + d, center.y - 6, "hero_wall", width, height);
        let ghost m1 = cells(grid);
        proof {
            lemma_phase_stamp(g2, m0, m1, wall_cov(g0, w, h, cx, cy, d as int, 0), wall_cov(g0, w, h, cx, cy, d as int, 1),
                const_type("hero_wall"@), true, cx + d, cy - 6, in_rect(m0, w, h, cx + d, cy - 6));
        }
        place_building_tile(grid, center.x + d, center.y + 6, "hero_wall", width, height);
        let ghost m2 = cells(grid);
        proof {
            lemma_phase_stamp(g2, m1, m2, wall_cov(g0, w, h, cx, cy, d as int, 1), wall_cov(g0, w, h, cx, cy, d as int, 2),
                const_type("hero_wall"@), true, cx + d, cy + 6, in_rect(m1, w, h, cx + d, cy + 6));
        }
        place_building_tile(grid, center.x - 6, center.y + d, "hero_wall", width, height);
        let ghost m3 = cells(grid);
        proof {
            lemma_phase_stamp(g2, m2, m3, wall_cov(g0, w, h, cx, cy, d as int, 2), wall_cov(g0, w, h, cx, cy, d as int, 3),
                const_type("hero_wall"@), true, cx - 6, cy + d, in_rect(m2, w, h, cx - 6, cy + d));
        }
        place_building_tile(grid, center.x + 6, center.y + d, "hero_wall", width, height);
        proof {
            lemma_phase_stamp(g2, m3, cells(grid), wall_cov(g0, w, h, cx, cy, d as int, 3), wall_cov(g0, w, h, cx, cy, d as int, 4),
                const_type("hero_wall"@), true, cx + 6, cy + d, in_rect(m3, w, h, cx + 6, cy + d));
            assert(wall_cov(g0, w, h, cx, cy, d as int, 4) =~= wall_cov(g0, w, h, cx, cy, d + 1, 0));
        }
        d = d + 1;
    }
    let ghost g3 = cells(grid);

    // Phase 4: the entrance, on the side facing the start.
    let sdx = start_pos.x - center.x;
    let sdy = start_pos.y - center.y;
    let ghost s = (sdx as int, sdy as int);
    let adx: i64 = if sdx < 0 { -(sdx as i64) } else { sdx as i64 };
    let ady: i64 = if sdy < 0 { -(sdy as i64) } else { sdy as i64 };
    let (gate_x, gate_y) = if adx > ady {
        (center.x + sign_of(sdx) * 6, center.y)
    } else {
        (center.x, center.y + sign_of(sdy) * 6)
    };
    assert((gate_x - cx, gate_y - cy) == gate_offset(s.0, s.1));
    let ghost m4 = cells(grid);
    place_building_tile(grid, gate_x, gate_y, "hero_gate", width, height);
    let ghost g4 = cells(grid);
    proof {
        lemma_phase_empty(g3, const_type("hero_gate"@), true);
        lemma_phase_stamp(g3, m4, g4, |x: int, y: int| false, gate_cov(g0, w, h, cx, cy, s),
            const_type("hero_gate"@), true, gate_x as int, gate_y as int, in_rect(m4, w, h, gate_x as int, gate_y as int));
    }

    // Phase 5: a path of earth out of the entrance.
    let dir_x = sign_of(gate_x - center.x);
    let dir_y = sign_of(gate_y - center.y);
    proof {
        assert(path_cov(g0, cx, cy, s, 1) =~= (|x: int, y: int| false));
        lemma_phase_empty(g4, const_type("earth"@), false);
    }
    let mut i: i32 = 1;
    while i < 5
        invariant
            g0.len() > 0,
            g4.len() == g0.len(),
            forall|yy: int| 0 <= yy < g0.len() ==> #[trigger] g4[yy].len() == g0[yy].len(),
            cx == center.x,
            cy == center.y,
            -10 <= cx <= i32::MAX - 10,
            -10 <= cy <= i32::MAX - 10,
            (gate_x - cx, gate_y - cy) == gate_offset(s.0, s.1),
            dir_x == signum(gate_x - cx),
            dir_y == signum(gate_y - cy),
            -6 <= gate_x - cx <= 6,
            -6 <= gate_y - cy <= 6,
            1 <= i <= 5,
            phase(g4, cells(grid), path_cov(g0, cx, cy, s, i as int), const_type("earth"@), false),
        decreases 5 - i,
    {
        let ghost mid = cells(grid);
        let px = gate_x + dir_x * i;
        let py = gate_y + dir_y * i;
        assert(path_cell(gate_offset(s.0, s.1), i as int) == (px - cx, py - cy));
        stamp(grid, px as i64, py as i64, "earth", false);
        proof {
            assert forall|xx: int, yy: int| in_grid(g4, xx, yy) implies #[trigger] path_cov(g0, cx, cy, s, i + 1)(xx, yy)
                == (path_cov(g0, cx, cy, s, i as int)(xx, yy) || (in_grid(mid, px as int, py as int) && xx == px && yy == py)) by {
                if exists|k: int| 1 <= k < i + 1 && #[trigger] path_cell(gate_offset(s.0, s.1), k) == (xx - cx, yy - cy) {
                    let k = choose|k: int| 1 <= k < i + 1 && #[trigger] path_cell(gate_offset(s.0, s.1), k) == (xx - cx, yy - cy);
                    if k == i {
                        assert(xx == px && yy == py);
                    }
                }
                if xx == px && yy == py {
                    assert(path_cell(gate_offset(s.0, s.1), i as int) == (xx - cx, yy - cy));
                }
            }
            lemma_phase_stamp(g4, mid, cells(grid), path_cov(g0, cx, cy, s, i as int), path_cov(g0, cx, cy, s, i + 1),
                const_type("earth"@), false, px as int, py as int, in_grid(mid, px as int, py as int));
        }
        i = i + 1;
    }
    proof {
        lemma_base_final(g0, g1, g2, g3, g4, cells(grid), cx, cy, s);
    }
}

} // verus!
