//! Walks over a grid of walkable cells: a breadth-first search from the goal,
//! then a walk back along the order in which it found the cells.
use vstd::prelude::*;
use crate::tiles::{TilePos, TileState, owned, is_solid_type};
use crate::grid::{Grid, cells, types, grid_wf, width, height};
use crate::connectivity::{cell_of, open_cell, open_in, flags, flagged, flags_shape, lists_cell,
    distinct_positions, listed_back, listed_by_steps, flood_fill_region, new_flags};
use crate::paths::{adj, is_path, reachable, closed_under_steps, lemma_reach_symmetric};

verus! {

/// The walkable cells of a walkability grid (`walkable[y][x]`).
pub open spec fn walkable_in(vv: Seq<Seq<bool>>) -> spec_fn((int, int)) -> bool {
    flagged(vv)
}

/// The cells of a list of tiles.
pub open spec fn tile_cells(ps: Seq<TilePos>) -> Seq<(int, int)> {
    ps.map_values(|p: TilePos| cell_of(p))
}

/// `path` (the tiles after the start) leads from `start` step by step over
/// walkable cells to `goal`; it is empty when the start is the goal.
pub open spec fn leads(vv: Seq<Seq<bool>>, start: TilePos, goal: TilePos, path: Seq<TilePos>) -> bool {
    let cs = seq![cell_of(start)] + tile_cells(path);
    &&& is_path(walkable_in(vv), cs)
    &&& cs.last() == cell_of(goal)
}

/// A walkability grid: at least one row, rows of one length, both sides
/// within `i32`.
pub open spec fn walk_grid_wf(vv: Seq<Seq<bool>>) -> bool {
    &&& vv.len() > 0
    &&& vv.len() <= i32::MAX
    &&& vv[0].len() <= i32::MAX
    &&& flags_shape(vv, vv[0].len() as int, vv.len() as int)
}

/// The ends of a walk satisfy the region it walks in.
pub(crate) proof fn lemma_reach_ends(inside: spec_fn((int, int)) -> bool, a: (int, int), b: (int, int))
    requires
        reachable(inside, a, b),
    ensures
        inside(a),
        inside(b),
{
    let p = choose|p: Seq<(int, int)>| #[trigger] is_path(inside, p) && p[0] == a && p.last() == b;
    assert(inside(p[0]));
    assert(inside(p[p.len() - 1]));
}

/// A grid of fresh tiles: floor on the walkable cells, solid rock elsewhere.
fn walk_mask(walkable: &Vec<Vec<bool>>) -> (mask: Grid)
    requires
        walk_grid_wf(flags(walkable)),
    ensures
        grid_wf(cells(&mask)),
        width(cells(&mask)) == flags(walkable)[0].len(),
        height(cells(&mask)) == flags(walkable).len(),
        forall|p: (int, int)| #[trigger] open_cell(types(cells(&mask)), p) == flagged(flags(walkable))(p),
{
    let ghost vv = flags(walkable);
    let h = walkable.len();
    let w = walkable[0].len();
    proof {
        reveal_strlit("floor");
        reveal_strlit("solid_rock");
        crate::tiles::lemma_solid_types();
        assert(vv[0].len() == w);
    }
    let mut mask: Grid = Vec::new();
    let mut y: usize = 0;
    while y < h
        invariant
            vv == flags(walkable),
            walk_grid_wf(vv),
            h == vv.len(),
            w == vv[0].len(),
            y <= h,
            mask@.len() == y,
            forall|yy: int| 0 <= yy < y ==> #[trigger] mask@[yy]@.len() == w,
            forall|x: int, yy: int|
                #![trigger mask@[yy]@[x]]
                0 <= yy < y && 0 <= x < w ==> (is_solid_type(mask@[yy]@[x].tile_type@) == !vv[yy][x]),
        decreases h - y,
    {
        proof {
            assert(vv[y as int].len() == w);
        }
        let mut row: Vec<TileState> = Vec::new();
        let mut x: usize = 0;
        while x < w
            invariant
                vv == flags(walkable),
                walk_grid_wf(vv),
                h == vv.len(),
                w == vv[0].len(),
                y < h,
                vv[y as int].len() == w,
                x <= w,
                row@.len() == x,
                forall|xx: int| #![trigger row@[xx]] 0 <= xx < x ==> (is_solid_type(row@[xx].tile_type@) == !vv[y as int][xx]),
            decreases w - x,
        {
            let open = walkable[y][x];
            let tile_type = if open {
                owned("floor")
            } else {
                owned("solid_rock")
            };
            proof {
                crate::tiles::lemma_solid_types();
                assert(vv[y as int][x as int] == open);
                assert(is_solid_type(tile_type@) == !open);
            }
            row.push(TileState::new(tile_type, TilePos::new(x as i32, y as i32)));
            x = x + 1;
        }
        mask.push(row);
        y = y + 1;
    }
    proof {
        assert forall|yy: int| 0 <= yy < cells(&mask).len() implies #[trigger] cells(&mask)[yy].len() == cells(&mask)[0].len() by {
            assert(mask@[yy]@.len() == w);
            assert(mask@[0]@.len() == w);
        }
        assert forall|p: (int, int)| #[trigger] open_cell(types(cells(&mask)), p) == flagged(vv)(p) by {
            if 0 <= p.1 < h && 0 <= p.0 < w {
                assert(mask@[p.1]@[p.0].tile_type@ == types(cells(&mask))[p.1][p.0]);
                assert(vv[p.1].len() == w);
            } else if 0 <= p.1 < h {
                assert(mask@[p.1]@.len() == w);
                assert(vv[p.1].len() == w);
            }
        }
    }
    mask
}

/// `idx` numbers the cells of `region`: each listed cell holds its place in
/// the list, every other cell `usize::MAX`.
pub open spec fn numbers(idx: Seq<Seq<usize>>, region: Seq<TilePos>, w: int, h: int) -> bool {
    &&& idx.len() == h
    &&& forall|y: int| 0 <= y < h ==> #[trigger] idx[y].len() == w
    &&& forall|k: int| 0 <= k < region.len() ==> {
        let c = cell_of(#[trigger] region[k]);
        0 <= c.0 < w && 0 <= c.1 < h && idx[c.1][c.0] == k
    }
    &&& forall|x: int, y: int|
        #![trigger idx[y][x]]
        0 <= y < h && 0 <= x < w && idx[y][x] != usize::MAX ==> idx[y][x] < region.len() && cell_of(
            region[idx[y][x] as int],
        ) == (x, y)
}

/// Number the cells of `region` on a `w` by `h` grid.
fn number_cells(region: &Vec<TilePos>, w: usize, h: usize) -> (idx: Vec<Vec<usize>>)
    requires
        distinct_positions(region@),
        forall|k: int| 0 <= k < region@.len() ==> 0 <= (#[trigger] region@[k]).x < w && 0 <= region@[k].y < h,
    ensures
        numbers(idx@.map_values(|r: Vec<usize>| r@), region@, w as int, h as int),
{
    let mut idx: Vec<Vec<usize>> = Vec::new();
    let mut y: usize = 0;
    while y < h
        invariant
            y <= h,
            idx@.len() == y,
            forall|yy: int| 0 <= yy < y ==> #[trigger] idx@[yy]@.len() == w,
            forall|yy: int, xx: int| #![trigger idx@[yy]@[xx]] 0 <= yy < y && 0 <= xx < w ==> idx@[yy]@[xx] == usize::MAX,
        decreases h - y,
    {
        let mut row: Vec<usize> = Vec::new();
        let mut x: usize = 0;
        while x < w
            invariant
                x <= w,
                row@.len() == x,
                forall|xx: int| 0 <= xx < x ==> #[trigger] row@[xx] == usize::MAX,
            decreases w - x,
        {
            row.push(usize::MAX);
            x = x + 1;
        }
        idx.push(row);
        y = y + 1;
    }
    let mut k: usize = 0;
    while k < region.len()
        invariant
            distinct_positions(region@),
            forall|k: int| 0 <= k < region@.len() ==> 0 <= (#[trigger] region@[k]).x < w && 0 <= region@[k].y < h,
            k <= region@.len(),
            numbers(idx@.map_values(|r: Vec<usize>| r@), region@.take(k as int), w as int, h as int),
        decreases region@.len() - k,
    {
        let ghost before = idx@.map_values(|r: Vec<usize>| r@);
        let p = region[k];
        let px = p.x as usize;
        let py = p.y as usize;
        proof {
            assert(before[py as int].len() == w);
        }
        idx[py][px] = k;
        proof {
            let after = idx@.map_values(|r: Vec<usize>| r@);
            let rk = region@.take(k + 1);
            assert(after =~= before.update(py as int, before[py as int].update(px as int, k)));
            assert forall|j: int| 0 <= j < rk.len() implies {
                let c = cell_of(#[trigger] rk[j]);
                0 <= c.0 < w && 0 <= c.1 < h && after[c.1][c.0] == j
            } by {
                if j < k {
                    assert(rk[j] == region@.take(k as int)[j]);
                    assert(region@[j] != region@[k as int]);
                }
            }
            assert forall|x: int, y: int|
                #![trigger after[y][x]]
                0 <= y < h && 0 <= x < w && after[y][x] != usize::MAX implies after[y][x] < rk.len() && cell_of(
                    rk[after[y][x] as int],
                ) == (x, y) by {
                if !(x == px && y == py) {
                    assert(after[y][x] == before[y][x]);
                    assert(rk[before[y][x] as int] == region@.take(k as int)[before[y][x] as int]);
                }
            }
        }
        k = k + 1;
    }
    assert(region@.take(region@.len() as int) =~= region@);
    idx
}

/// The place of the cell `(nx, ny)` in `region` if it is listed before `cur`.
fn probe(idx: &Vec<Vec<usize>>, region: &Vec<TilePos>, cur: usize, w: usize, h: usize, nx: i64, ny: i64) -> (r:
    Option<usize>)
    requires
        numbers(idx@.map_values(|r: Vec<usize>| r@), region@, w as int, h as int),
        cur < region@.len(),
        w <= i32::MAX,
        h <= i32::MAX,
    ensures
        r matches Some(k) ==> k < cur && cell_of(region@[k as int]) == (nx as int, ny as int),
        r is None ==> forall|j: int| 0 <= j < cur ==> cell_of(#[trigger] region@[j]) != (nx as int, ny as int),
{
    let ghost ii = idx@.map_values(|r: Vec<usize>| r@);
    if 0 <= nx && nx < w as i64 && 0 <= ny && ny < h as i64 {
        proof {
            assert(ii[ny as int].len() == w);
            assert(ii[ny as int] == idx@[ny as int]@);
        }
        let k = idx[ny as usize][nx as usize];
        proof {
            assert(ii[ny as int][nx as int] == k);
        }
        if k != usize::MAX && k < cur {
            return Some(k);
        }
        proof {
            assert forall|j: int| 0 <= j < cur implies cell_of(#[trigger] region@[j]) != (nx as int, ny as int) by {
                if cell_of(region@[j]) == (nx as int, ny as int) {
                    assert(ii[ny as int][nx as int] == j);
                }
            }
        }
        None
    } else {
        proof {
            assert forall|j: int| 0 <= j < cur implies cell_of(#[trigger] region@[j]) != (nx as int, ny as int) by {
                let c = cell_of(region@[j]);
                assert(0 <= c.0 < w && 0 <= c.1 < h);
            }
        }
        None
    }
}

/// A neighbour of listed cell `cur` that is listed before it.
fn earlier_neighbor(idx: &Vec<Vec<usize>>, region: &Vec<TilePos>, cur: usize, w: usize, h: usize) -> (r: usize)
    requires
        numbers(idx@.map_values(|r: Vec<usize>| r@), region@, w as int, h as int),
        w <= i32::MAX,
        h <= i32::MAX,
        0 < cur < region@.len(),
        listed_back(region@, cur as int),
    ensures
        r < cur,
        adj(cell_of(region@[cur as int]), cell_of(region@[r as int])),
{
    let p = region[cur];
    let ghost j = choose|j: int| #![trigger region@[j]] 0 <= j < cur && adj(cell_of(region@[cur as int]), cell_of(region@[j]));
    proof {
        assert(cell_of(region@[cur as int]) == cell_of(p));
        assert(0 <= p.x < w && 0 <= p.y < h);
    }
    let x = p.x as i64;
    let y = p.y as i64;
    if let Some(k) = probe(idx, region, cur, w, h, x - 1, y) {
        return k;
    }
    if let Some(k) = probe(idx, region, cur, w, h, x + 1, y) {
        return k;
    }
    if let Some(k) = probe(idx, region, cur, w, h, x, y - 1) {
        return k;
    }
    if let Some(k) = probe(idx, region, cur, w, h, x, y + 1) {
        return k;
    }
    proof {
        assert(region@[j] == region@[j]);
    }
    0
}

/// A walk from `start` to `goal` over the walkable cells of `walkable`
/// (4-way steps): the tiles after the start, ending at the goal (none when
/// the start is the goal). There is one exactly when the goal can be reached.
/// Each step moves one breadth-first layer closer to the goal.
pub fn find_path(walkable: &Vec<Vec<bool>>, start: TilePos, goal: TilePos) -> (r: Option<Vec<TilePos>>)
    requires
        walk_grid_wf(flags(walkable)),
    ensures
        r is Some == reachable(walkable_in(flags(walkable)), cell_of(start), cell_of(goal)),
        r matches Some(p) ==> leads(flags(walkable), start, goal, p@),
{
    let ghost vv = flags(walkable);
    let ghost walk = walkable_in(vv);
    let h = walkable.len();
    let w = walkable[0].len();
    proof {
        assert(vv[0].len() == w);
    }
    let goal_in = 0 <= goal.x && (goal.x as usize) < w && 0 <= goal.y && (goal.y as usize) < h;
    let start_in = 0 <= start.x && (start.x as usize) < w && 0 <= start.y && (start.y as usize) < h;
    if !goal_in || !start_in {
        proof {
            if reachable(walk, cell_of(start), cell_of(goal)) {
                lemma_reach_ends(walk, cell_of(start), cell_of(goal));
            }
        }
        return None;
    }
    let gx = goal.x as usize;
    let gy = goal.y as usize;
    let sx = start.x as usize;
    let sy = start.y as usize;
    proof {
        assert(vv[gy as int].len() == w);
        assert(vv[sy as int].len() == w);
    }
    if !walkable[gy][gx] || !walkable[sy][sx] {
        proof {
            if reachable(walk, cell_of(start), cell_of(goal)) {
                lemma_reach_ends(walk, cell_of(start), cell_of(goal));
            }
        }
        return None;
    }
    let mask = walk_mask(walkable);
    let ghost t = types(cells(&mask));
    proof {
        assert(open_in(t) =~= walk) by {
            assert forall|p: (int, int)| #[trigger] open_in(t)(p) == walk(p) by {
                assert(open_cell(t, p) == flagged(vv)(p));
            }
        }
        assert(open_cell(t, cell_of(goal)) == flagged(vv)(cell_of(goal)));
    }
    let mut visited = new_flags(w, h);
    proof {
        assert(closed_under_steps(open_in(t), flagged(flags(&visited))));
    }
    let region = flood_fill_region(&mask, gx, gy, &mut visited);
    proof {
        assert(flags(&visited)[sy as int].len() == w);
        assert(flagged(flags(&visited))((sx as int, sy as int)) == visited@[sy as int]@[sx as int]);
    }
    if !visited[sy][sx] {
        proof {
            assert(!lists_cell(region@, cell_of(start)));
            if reachable(walk, cell_of(start), cell_of(goal)) {
                lemma_reach_symmetric(walk, cell_of(start), cell_of(goal));
                assert(open_cell(t, cell_of(start)) == flagged(vv)(cell_of(start)));
            }
        }
        return None;
    }
    let ghost rg = region@;
    proof {
        assert(lists_cell(rg, cell_of(start)));
        assert forall|k: int| 0 <= k < rg.len() implies 0 <= (#[trigger] rg[k]).x < w && 0 <= rg[k].y < h by {
            assert(open_cell(t, cell_of(rg[k])));
        }
    }
    let idx = number_cells(&region, w, h);
    let ghost ii = idx@.map_values(|r: Vec<usize>| r@);
    let mut cur = idx[sy][sx];
    proof {
        let k = choose|k: int| 0 <= k < rg.len() && cell_of(rg[k]) == cell_of(start);
        assert(ii[sy as int][sx as int] == k);
        assert(ii[sy as int] == idx@[sy as int]@);
        reveal(listed_by_steps);
    }
    let mut path: Vec<TilePos> = Vec::new();
    proof {
        assert(is_path(walk, seq![cell_of(start)] + tile_cells(path@))) by {
            assert(seq![cell_of(start)] + tile_cells(path@) =~= seq![cell_of(start)]);
        }
    }
    while cur > 0
        invariant
            ii == idx@.map_values(|r: Vec<usize>| r@),
            numbers(ii, region@, w as int, h as int),
            listed_by_steps(region@),
            w <= i32::MAX,
            h <= i32::MAX,
            cur < region@.len(),
            forall|k: int| 0 <= k < region@.len() ==> #[trigger] walk(cell_of(region@[k])),
            is_path(walk, seq![cell_of(start)] + tile_cells(path@)),
            (seq![cell_of(start)] + tile_cells(path@)).last() == cell_of(region@[cur as int]),
        decreases cur,
    {
        proof {
            reveal(listed_by_steps);
            assert(listed_back(region@, cur as int));
        }
        let next = earlier_neighbor(&idx, &region, cur, w, h);
        let ghost before = seq![cell_of(start)] + tile_cells(path@);
        path.push(region[next]);
        proof {
            let after = seq![cell_of(start)] + tile_cells(path@);
            assert(after =~= before.push(cell_of(region@[next as int])));
            assert(walk(cell_of(region@[next as int])));
            assert forall|i: int| 0 <= i < after.len() implies #[trigger] walk(after[i]) by {
                if i < before.len() {
                    assert(after[i] == before[i]);
                }
            }
            assert forall|i: int| 0 <= i < after.len() - 1 implies adj(#[trigger] after[i], after[i + 1]) by {
                if i < before.len() - 1 {
                    assert(after[i] == before[i] && after[i + 1] == before[i + 1]);
                    assert(adj(before[i], before[i + 1]));
                }
            }
        }
        cur = next;
    }
    proof {
        assert(cell_of(region@[0]) == cell_of(goal));
        let cs = seq![cell_of(start)] + tile_cells(path@);
        assert(cs[0] == cell_of(start));
    }
    Some(path)
}

} // verus!
