//! Connectivity of the open tiles of a generated map: flood-filled regions
//! and the tunnels that join them.
use vstd::prelude::*;
use crate::tiles::{TilePos, is_solid_type, is_solid_tile};
use crate::grid::{Grid, cells, types, grid_wf, width, height, same_but_types};
use crate::paths::{adj, reachable, closed_under_steps, lemma_reach_refl, lemma_reach_step,
    lemma_reach_symmetric, lemma_closed_holds_reachable};
use crate::counting::{sum_false, count_false, lemma_count_false_update, lemma_sum_false_update};

verus! {

/// The cell `c` is on the grid and not solid.
pub open spec fn open_cell(t: Seq<Seq<Seq<char>>>, c: (int, int)) -> bool {
    0 <= c.1 < t.len() && 0 <= c.0 < t[c.1].len() && !is_solid_type(t[c.1][c.0])
}

/// The open cells of a grid of types, as a region of the plane.
pub open spec fn open_in(t: Seq<Seq<Seq<char>>>) -> spec_fn((int, int)) -> bool {
    |c: (int, int)| open_cell(t, c)
}

/// The flags of a visited-grid as nested sequences.
pub open spec fn flags(v: &Vec<Vec<bool>>) -> Seq<Seq<bool>> {
    v@.map_values(|r: Vec<bool>| r@)
}

/// The set of flagged cells.
pub open spec fn flagged(vv: Seq<Seq<bool>>) -> spec_fn((int, int)) -> bool {
    |c: (int, int)| 0 <= c.1 < vv.len() && 0 <= c.0 < vv[c.1].len() && vv[c.1][c.0]
}

/// The grid cell of a tile position.
pub open spec fn cell_of(p: TilePos) -> (int, int) {
    (p.x as int, p.y as int)
}

/// The flags have the shape of a `w` by `h` grid.
pub open spec fn flags_shape(vv: Seq<Seq<bool>>, w: int, h: int) -> bool {
    vv.len() == h && forall|y: int| 0 <= y < h ==> #[trigger] vv[y].len() == w
}

/// The types have the shape of a `w` by `h` grid.
pub open spec fn types_shape(t: Seq<Seq<Seq<char>>>, w: int, h: int) -> bool {
    t.len() == h && forall|y: int| 0 <= y < h ==> #[trigger] t[y].len() == w
}

/// The positions listed in `ps` are pairwise distinct.
pub open spec fn distinct_positions(ps: Seq<TilePos>) -> bool {
    forall|i: int, j: int| 0 <= i < j < ps.len() ==> ps[i] != ps[j]
}

/// Whether the cell of `c` is listed in `ps`.
pub open spec fn lists_cell(ps: Seq<TilePos>, c: (int, int)) -> bool {
    exists|i: int| 0 <= i < ps.len() && cell_of(#[trigger] ps[i]) == c
}

fn try_enqueue(
    grid: &Grid,
    visited: &mut Vec<Vec<bool>>,
    queue: &mut Vec<(usize, usize)>,
    nx: i64,
    ny: i64,
) -> (pushed: bool)
    requires
        grid_wf(cells(grid)),
        flags_shape(flags(old(visited)), width(cells(grid)), height(cells(grid))),
    ensures
        flags_shape(flags(final(visited)), width(cells(grid)), height(cells(grid))),
        pushed == (open_cell(types(cells(grid)), (nx as int, ny as int)) && !flagged(
            flags(old(visited)),
        )((nx as int, ny as int))),
        pushed ==> final(queue)@ == old(queue)@.push((nx as usize, ny as usize)) && flags(
            final(visited),
        ) == flags(old(visited)).update(
            ny as int,
            flags(old(visited))[ny as int].update(nx as int, true),
        ),
        !pushed ==> final(queue)@ == old(queue)@ && flags(final(visited)) == flags(old(visited)),
{
    let h = grid.len();
    let w = grid[0].len();
    proof {
        assert(cells(grid)[0].len() == w);
    }
    if nx >= 0 && ny >= 0 && nx < w as i64 && ny < h as i64 {
        let x = nx as usize;
        let y = ny as usize;
        proof {
            assert(cells(grid)[y as int].len() == cells(grid)[0].len());
            assert(flags(visited)[y as int].len() == w);
        }
        if !visited[y][x] && !is_solid_tile(grid[y][x].tile_type.as_str()) {
            let ghost before = flags(visited);
            visited[y][x] = true;
            queue.push((x, y));
            proof {
                assert(flags(visited) =~= before.update(y as int, before[y as int].update(x as int, true)));
                assert forall|yy: int| 0 <= yy < h implies #[trigger] flags(visited)[yy].len() == w by {
                    assert(before[yy].len() == w);
                }
            }
            return true;
        }
    }
    false
}


/// Whether the cell `c` is among the queued coordinates.
pub open spec fn queued(q: Seq<(usize, usize)>, c: (int, int)) -> bool {
    exists|i: int| 0 <= i < q.len() && (q[i].0 as int, q[i].1 as int) == c
}

/// The cell of a queued coordinate pair.
pub open spec fn qcell(p: (usize, usize)) -> (int, int) {
    (p.0 as int, p.1 as int)
}

/// Queued cell `i` is next to a cell queued before it.
pub open spec fn steps_back(q: Seq<(usize, usize)>, i: int) -> bool {
    exists|j: int| #![trigger q[j]] 0 <= j < i && adj(qcell(q[i]), qcell(q[j]))
}

/// Every queued cell but the first is next to one queued before it.
#[verifier::opaque]
pub open spec fn grows_by_steps(q: Seq<(usize, usize)>) -> bool {
    forall|i: int| 0 < i < q.len() ==> #[trigger] steps_back(q, i)
}

/// Queueing a neighbour of a queued cell keeps the queue growing by steps.
proof fn lemma_grows(q: Seq<(usize, usize)>, q2: Seq<(usize, usize)>, k: int, n: (int, int), pushed: bool)
    requires
        grows_by_steps(q),
        0 <= k < q.len(),
        adj(qcell(q[k]), n),
        pushed ==> q2 == q.push((n.0 as usize, n.1 as usize)) && 0 <= n.0 <= i32::MAX && 0 <= n.1 <= i32::MAX,
        !pushed ==> q2 == q,
    ensures
        grows_by_steps(q2),
{
    reveal(grows_by_steps);
    if pushed {
        assert forall|i: int| 0 < i < q2.len() implies #[trigger] steps_back(q2, i) by {
            if i < q.len() {
                assert(steps_back(q, i));
                let j = choose|j: int| #![trigger q[j]] 0 <= j < i && adj(qcell(q[i]), qcell(q[j]));
                assert(q2[i] == q[i] && q2[j] == q[j]);
            } else {
                assert(q2[k] == q[k]);
                assert(qcell(q2[i]) == n);
                assert(adj(qcell(q2[i]), qcell(q2[k])));
            }
        }
    }
}

/// Listed tile `i` is next to a tile listed before it.
pub open spec fn listed_back(r: Seq<TilePos>, i: int) -> bool {
    exists|j: int| #![trigger r[j]] 0 <= j < i && adj(cell_of(r[i]), cell_of(r[j]))
}

/// Every listed tile but the first is next to one listed before it.
#[verifier::opaque]
pub open spec fn listed_by_steps(r: Seq<TilePos>) -> bool {
    forall|i: int| 0 < i < r.len() ==> #[trigger] listed_back(r, i)
}

pub(crate) proof fn lemma_flag_update(
    vv: Seq<Seq<bool>>,
    w: int,
    h: int,
    x: int,
    y: int,
)
    requires
        flags_shape(vv, w, h),
        0 <= x < w,
        0 <= y < h,
        !vv[y][x],
    ensures
        flags_shape(vv.update(y, vv[y].update(x, true)), w, h),
        sum_false(vv.update(y, vv[y].update(x, true))) + 1 == sum_false(vv),
        forall|c: (int, int)| #[trigger] flagged(vv.update(y, vv[y].update(x, true)))(c) == (flagged(vv)(c) || c == (x, y)),
{
    let u = vv.update(y, vv[y].update(x, true));
    lemma_count_false_update(vv[y], x);
    lemma_sum_false_update(vv, y, vv[y].update(x, true));
    assert forall|yy: int| 0 <= yy < h implies #[trigger] u[yy].len() == w by {
        assert(vv[yy].len() == w);
    }
}

/// The breadth-first search state: every queued cell is open, reachable from
/// the start, new, and flagged; nothing else new is flagged.
pub open spec fn bfs_core(
    t: Seq<Seq<Seq<char>>>,
    v0: Seq<Seq<bool>>,
    start: (int, int),
    q: Seq<(usize, usize)>,
    vv: Seq<Seq<bool>>,
    w: int,
    h: int,
) -> bool {
    &&& flags_shape(vv, w, h)
    &&& types_shape(t, w, h)
    &&& 0 <= w <= i32::MAX
    &&& 0 <= h <= i32::MAX
    &&& q.len() > 0
    &&& qcell(q[0]) == start
    &&& forall|i: int, j: int| 0 <= i < j < q.len() ==> q[i] != q[j]
    &&& forall|i: int|
        0 <= i < q.len() ==> open_cell(t, qcell(#[trigger] q[i])) && reachable(
            open_in(t),
            start,
            qcell(q[i]),
        ) && !flagged(v0)(qcell(q[i]))
    &&& forall|c: (int, int)| #[trigger] flagged(vv)(c) == (flagged(v0)(c) || queued(q, c))
    &&& sum_false(vv) + q.len() == sum_false(v0)
}

proof fn lemma_enqueue(
    t: Seq<Seq<Seq<char>>>,
    v0: Seq<Seq<bool>>,
    start: (int, int),
    q: Seq<(usize, usize)>,
    vv: Seq<Seq<bool>>,
    w: int,
    h: int,
    k: int,
    n: (int, int),
    pushed: bool,
    q2: Seq<(usize, usize)>,
    vv2: Seq<Seq<bool>>,
)
    requires
        bfs_core(t, v0, start, q, vv, w, h),
        0 <= k < q.len(),
        adj(qcell(q[k]), n),
        pushed == (open_cell(t, n) && !flagged(vv)(n)),
        pushed ==> q2 == q.push((n.0 as usize, n.1 as usize)) && vv2 == vv.update(
            n.1,
            vv[n.1].update(n.0, true),
        ),
        !pushed ==> q2 == q && vv2 == vv,
    ensures
        bfs_core(t, v0, start, q2, vv2, w, h),
        open_cell(t, n) ==> flagged(vv2)(n),
        forall|c: (int, int)| #[trigger] flagged(vv)(c) ==> flagged(vv2)(c),
        q2.len() >= q.len(),
        forall|i: int| 0 <= i < q.len() ==> #[trigger] q2[i] == q[i],
{
    if pushed {
        lemma_flag_update(vv, w, h, n.0, n.1);
        assert(open_cell(t, qcell(q[k])));
        lemma_reach_step(open_in(t), start, qcell(q[k]), n);
        assert(qcell(q2[q.len() as int]) == n);
        assert(!queued(q, n));
        assert forall|i: int, j: int| 0 <= i < j < q2.len() implies q2[i] != q2[j] by {
            if j == q.len() {
                if q2[i] == q2[j] {
                    assert(qcell(q[i]) == n);
                }
            }
        }
        assert forall|c: (int, int)| #[trigger] flagged(vv2)(c) == (flagged(v0)(c) || queued(q2, c)) by {
            if queued(q, c) {
                let i = choose|i: int| 0 <= i < q.len() && (q[i].0 as int, q[i].1 as int) == c;
                assert(q2[i] == q[i]);
            }
            if c == n {
                assert(q2[q.len() as int] == (n.0 as usize, n.1 as usize));
            }
            if queued(q2, c) && c != n {
                let i = choose|i: int| 0 <= i < q2.len() && (q2[i].0 as int, q2[i].1 as int) == c;
                assert(i < q.len());
                assert(q[i] == q2[i]);
            }
        }
        assert forall|i: int| 0 <= i < q2.len() implies open_cell(t, qcell(#[trigger] q2[i])) && reachable(
            open_in(t),
            start,
            qcell(q2[i]),
        ) && !flagged(v0)(qcell(q2[i])) by {
            if i < q.len() {
                assert(q2[i] == q[i]);
            }
        }
    }
}

/// Flood fill to find all open tiles in the region connected to the start.
///
/// The tiles already flagged in `visited` must form whole regions (closed
/// under steps between open tiles), and the start must be open and unflagged.
/// The result lists every tile of the start's region exactly once, start
/// first, in breadth-first order, and flags them.
pub fn flood_fill_region(
    grid: &Grid,
    start_x: usize,
    start_y: usize,
    visited: &mut Vec<Vec<bool>>,
) -> (region: Vec<TilePos>)
    requires
        grid_wf(cells(grid)),
        flags_shape(flags(old(visited)), width(cells(grid)), height(cells(grid))),
        open_cell(types(cells(grid)), (start_x as int, start_y as int)),
        !flagged(flags(old(visited)))((start_x as int, start_y as int)),
        closed_under_steps(open_in(types(cells(grid))), flagged(flags(old(visited)))),
    ensures
        flags_shape(flags(final(visited)), width(cells(grid)), height(cells(grid))),
        region@.len() > 0,
        cell_of(region@[0]) == (start_x as int, start_y as int),
        distinct_positions(region@),
        forall|i: int|
            0 <= i < region@.len() ==> reachable(
                open_in(types(cells(grid))),
                (start_x as int, start_y as int),
                cell_of(#[trigger] region@[i]),
            ) && open_cell(types(cells(grid)), cell_of(region@[i])),
        forall|c: (int, int)|
            open_cell(types(cells(grid)), c) && reachable(
                open_in(types(cells(grid))),
                (start_x as int, start_y as int),
                c,
            ) ==> #[trigger] lists_cell(region@, c),
        forall|c: (int, int)|
            #[trigger] flagged(flags(final(visited)))(c) == (flagged(flags(old(visited)))(c)
                || lists_cell(region@, c)),
        closed_under_steps(open_in(types(cells(grid))), flagged(flags(final(visited)))),
        sum_false(flags(final(visited))) + region@.len() == sum_false(flags(old(visited))),
        listed_by_steps(region@),
{
    let ghost t = types(cells(grid));
    let ghost open = open_in(t);
    let ghost v0 = flags(visited);
    let ghost start = (start_x as int, start_y as int);
    let ghost w = width(cells(grid));
    let ghost h = height(cells(grid));
    proof {
        assert(cells(grid)[start_y as int].len() == cells(grid)[0].len());
        assert(v0[start_y as int].len() == w);
        lemma_flag_update(v0, w, h, start_x as int, start_y as int);
        lemma_reach_refl(open, start);
        assert forall|y: int| 0 <= y < h implies #[trigger] t[y].len() == w by {
            assert(cells(grid)[y].len() == cells(grid)[0].len());
        }
    }
    let mut region: Vec<TilePos> = Vec::new();
    let mut queue: Vec<(usize, usize)> = Vec::new();
    visited[start_y][start_x] = true;
    queue.push((start_x, start_y));
    let mut head: usize = 0;
    proof {
        assert(flags(visited) =~= v0.update(start_y as int, v0[start_y as int].update(start_x as int, true)));
        assert forall|c: (int, int)| #[trigger] flagged(flags(visited))(c) == (flagged(v0)(c) || queued(queue@, c)) by {
            if c == start {
                assert(qcell(queue@[0]) == c);
            }
        }
    }
    proof {
        reveal(grows_by_steps);
    }
    while head < queue.len()
        invariant
            grid_wf(cells(grid)),
            t == types(cells(grid)),
            open == open_in(t),
            w == width(cells(grid)),
            h == height(cells(grid)),
            closed_under_steps(open, flagged(v0)),
            !flagged(v0)(start),
            bfs_core(t, v0, start, queue@, flags(visited), w, h),
            grows_by_steps(queue@),
            head <= queue@.len(),
            region@.len() == head,
            forall|i: int| 0 <= i < head ==> cell_of(#[trigger] region@[i]) == qcell(queue@[i]),
            forall|i: int, n: (int, int)|
                #![trigger adj(qcell(queue@[i]), n)]
                0 <= i < head && open_cell(t, n) && adj(qcell(queue@[i]), n) ==> flagged(flags(visited))(n),
        decreases sum_false(v0) - head,
    {
        let (x, y) = queue[head];
        let ghost qi = head as int;
        let ghost cur = (x as int, y as int);
        proof {
            assert(open_cell(t, qcell(queue@[qi])));
        }
        head = head + 1;
        region.push(TilePos::new(x as i32, y as i32));
        let ghost qa = queue@;
        let ghost fa = flags(visited);
        let p1 = try_enqueue(grid, visited, &mut queue, x as i64 - 1, y as i64);
        proof {
            lemma_enqueue(t, v0, start, qa, fa, w, h, qi, (x as int - 1, y as int), p1, queue@, flags(visited));
            lemma_grows(qa, queue@, qi, (x as int - 1, y as int), p1);
        }
        let ghost qb = queue@;
        let ghost fb = flags(visited);
        let p2 = try_enqueue(grid, visited, &mut queue, x as i64 + 1, y as i64);
        proof {
            lemma_enqueue(t, v0, start, qb, fb, w, h, qi, (x as int + 1, y as int), p2, queue@, flags(visited));
            lemma_grows(qb, queue@, qi, (x as int + 1, y as int), p2);
        }
        let ghost qc = queue@;
        let ghost fc = flags(visited);
        let p3 = try_enqueue(grid, visited, &mut queue, x as i64, y as i64 - 1);
        proof {
            lemma_enqueue(t, v0, start, qc, fc, w, h, qi, (x as int, y as int - 1), p3, queue@, flags(visited));
            lemma_grows(qc, queue@, qi, (x as int, y as int - 1), p3);
        }
        let ghost qd = queue@;
        let ghost fd = flags(visited);
        let p4 = try_enqueue(grid, visited, &mut queue, x as i64, y as i64 + 1);
        proof {
            lemma_enqueue(t, v0, start, qd, fd, w, h, qi, (x as int, y as int + 1), p4, queue@, flags(visited));
            lemma_grows(qd, queue@, qi, (x as int, y as int + 1), p4);
            assert forall|i: int, n: (int, int)|
                #![trigger adj(qcell(queue@[i]), n)]
                0 <= i < head && open_cell(t, n) && adj(qcell(queue@[i]), n) implies flagged(flags(visited))(n) by {
                assert(queue@[i] == qa[i]);
                if i < qi {
                    assert(flagged(fa)(n));
                    assert(flagged(fb)(n));
                    assert(flagged(fc)(n));
                    assert(flagged(fd)(n));
                } else {
                    if n == (x as int - 1, y as int) {
                        assert(flagged(fb)(n));
                        assert(flagged(fc)(n));
                        assert(flagged(fd)(n));
                    } else if n == (x as int + 1, y as int) {
                        assert(flagged(fc)(n));
                        assert(flagged(fd)(n));
                    } else if n == (x as int, y as int - 1) {
                        assert(flagged(fd)(n));
                    }
                }
            }
            assert forall|i: int| 0 <= i < head implies cell_of(#[trigger] region@[i]) == qcell(queue@[i]) by {
                assert(queue@[i] == qa[i]);
            }
        }
    }
    proof {
        let fin = flags(visited);
        let s = flagged(fin);
        assert forall|c: (int, int), n: (int, int)| #![trigger s(c), s(n)] s(c) && open(n) && adj(c, n) implies s(n) by {
            if flagged(v0)(c) {
                assert(flagged(v0)(n));
            } else {
                let i = choose|i: int| 0 <= i < queue@.len() && (queue@[i].0 as int, queue@[i].1 as int) == c;
                assert(open_cell(t, n));
                assert(adj(qcell(queue@[i]), n));
            }
        }
        assert(closed_under_steps(open, s));
        assert forall|c: (int, int)| #[trigger] queued(queue@, c) == lists_cell(region@, c) by {
            if queued(queue@, c) {
                let i = choose|i: int| 0 <= i < queue@.len() && (queue@[i].0 as int, queue@[i].1 as int) == c;
                assert(cell_of(region@[i]) == c);
            }
            if lists_cell(region@, c) {
                let i = choose|i: int| 0 <= i < region@.len() && cell_of(region@[i]) == c;
                assert(qcell(queue@[i]) == c);
            }
        }
        assert forall|c: (int, int)|
            open_cell(t, c) && reachable(open, start, c) implies #[trigger] lists_cell(region@, c) by {
            assert(s(start)) by {
                assert(qcell(queue@[0]) == start);
            }
            lemma_closed_holds_reachable(open, s, start, c);
            if flagged(v0)(c) {
                lemma_reach_symmetric(open, start, c);
                lemma_closed_holds_reachable(open, flagged(v0), c, start);
            }
        }
        assert forall|i: int|
            0 <= i < region@.len() implies reachable(open, start, cell_of(#[trigger] region@[i])) && open_cell(t, cell_of(region@[i])) by {
            assert(cell_of(region@[i]) == qcell(queue@[i]));
        }
        assert forall|i: int, j: int| 0 <= i < j < region@.len() implies region@[i] != region@[j] by {
            assert(cell_of(region@[i]) == qcell(queue@[i]));
            assert(cell_of(region@[j]) == qcell(queue@[j]));
            assert(queue@[i] != queue@[j]);
        }
        assert(cell_of(region@[0]) == qcell(queue@[0]));
        reveal(grows_by_steps);
        reveal(listed_by_steps);
        assert forall|i: int| 0 < i < region@.len() implies #[trigger] listed_back(region@, i) by {
            assert(steps_back(queue@, i));
            let j = choose|j: int| #![trigger queue@[j]] 0 <= j < i && adj(qcell(queue@[i]), qcell(queue@[j]));
            assert(cell_of(region@[i]) == qcell(queue@[i]));
            assert(cell_of(region@[j]) == qcell(queue@[j]));
        }
    }
    region
}


/// `a` comes before `b` in row-major scan order.
pub open spec fn scan_before(a: (int, int), b: (int, int)) -> bool {
    a.1 < b.1 || (a.1 == b.1 && a.0 < b.0)
}

/// The properties of one region of a map as found by the scan: non-empty,
/// no tile twice, exactly the open tiles reachable from its first tile, and
/// its first tile is the first of them in scan order.
pub open spec fn is_region_of(t: Seq<Seq<Seq<char>>>, r: Seq<TilePos>) -> bool {
    &&& r.len() > 0
    &&& distinct_positions(r)
    &&& open_cell(t, cell_of(r[0]))
    &&& forall|c: (int, int)|
        #[trigger] lists_cell(r, c) == (open_cell(t, c) && reachable(open_in(t), cell_of(r[0]), c))
    &&& forall|c: (int, int)| #[trigger] lists_cell(r, c) ==> c == cell_of(r[0]) || scan_before(cell_of(r[0]), c)
}

/// Region `a` is listed before region `b`: it is larger, or as large and
/// found earlier in the scan.
pub open spec fn region_before(a: Seq<TilePos>, b: Seq<TilePos>) -> bool {
    a.len() > b.len() || (a.len() == b.len() && scan_before(cell_of(a[0]), cell_of(b[0])))
}

/// No two regions of `rs` start at the same tile.
pub open spec fn distinct_starts(rs: Seq<Vec<TilePos>>) -> bool {
    forall|i: int, j: int|
        #![trigger rs[i], rs[j]]
        0 <= i < rs.len() && 0 <= j < rs.len() && i != j ==> cell_of(rs[i]@[0]) != cell_of(rs[j]@[0])
}

/// The regions of a map: each a region, every open tile in one of them, no
/// two alike, and ordered by size (largest first), ties by scan order of
/// their first tiles.
pub open spec fn regions_of(t: Seq<Seq<Seq<char>>>, rs: Seq<Vec<TilePos>>) -> bool {
    &&& forall|i: int| 0 <= i < rs.len() ==> is_region_of(t, #[trigger] rs[i]@)
    &&& distinct_starts(rs)
    &&& forall|c: (int, int)|
        open_cell(t, c) ==> exists|i: int| 0 <= i < rs.len() && #[trigger] lists_cell(rs[i]@, c)
    &&& forall|i: int, j: int| 0 <= i < j < rs.len() ==> region_before(#[trigger] rs[i]@, #[trigger] rs[j]@)
}

pub fn new_flags(w: usize, h: usize) -> (v: Vec<Vec<bool>>)
    ensures
        flags_shape(flags(&v), w as int, h as int),
        forall|c: (int, int)| !(#[trigger] flagged(flags(&v))(c)),
{
    let mut v: Vec<Vec<bool>> = Vec::new();
    let mut y: usize = 0;
    while y < h
        invariant
            y <= h,
            v@.len() == y,
            forall|yy: int| 0 <= yy < y ==> #[trigger] v@[yy]@.len() == w,
            forall|yy: int, xx: int| 0 <= yy < y && 0 <= xx < w ==> !#[trigger] v@[yy]@[xx],
        decreases h - y,
    {
        let mut row: Vec<bool> = Vec::new();
        let mut x: usize = 0;
        while x < w
            invariant
                x <= w,
                row@.len() == x,
                forall|xx: int| 0 <= xx < x ==> !#[trigger] row@[xx],
            decreases w - x,
        {
            row.push(false);
            x = x + 1;
        }
        v.push(row);
        y = y + 1;
    }
    proof {
        assert forall|yy: int| 0 <= yy < h implies #[trigger] flags(&v)[yy].len() == w by {
            assert(v@[yy]@.len() == w);
        }
        assert forall|c: (int, int)| !(#[trigger] flagged(flags(&v))(c)) by {
            if 0 <= c.1 < h && 0 <= c.0 < w {
                assert(!v@[c.1]@[c.0]);
            }
        }
    }
    v
}

/// Find all disconnected open regions using flood fill; largest first.
pub fn find_disconnected_regions(grid: &Grid) -> (regions: Vec<Vec<TilePos>>)
    requires
        grid_wf(cells(grid)),
    ensures
        regions_of(types(cells(grid)), regions@),
{
    let ghost t = types(cells(grid));
    let ghost open = open_in(t);
    let height_n = grid.len();
    let width_n = grid[0].len();
    let ghost w = width_n as int;
    let ghost h = height_n as int;
    proof {
        assert forall|y: int| 0 <= y < h implies #[trigger] t[y].len() == w by {
            assert(cells(grid)[y].len() == cells(grid)[0].len());
        }
    }
    let mut visited = new_flags(width_n, height_n);
    let mut regions: Vec<Vec<TilePos>> = Vec::new();
    let mut y: usize = 0;
    while y < height_n
        invariant
            grid_wf(cells(grid)),
            t == types(cells(grid)),
            open == open_in(t),
            height_n == h,
            width_n == w,
            w == width(cells(grid)),
            h == height(cells(grid)),
            types_shape(t, w, h),
            y <= h,
            flags_shape(flags(&visited), w, h),
            closed_under_steps(open, flagged(flags(&visited))),
            forall|c: (int, int)|
                #[trigger] flagged(flags(&visited))(c) == exists|i: int| 0 <= i < regions@.len() && #[trigger] lists_cell(regions@[i]@, c),
            forall|i: int| 0 <= i < regions@.len() ==> is_region_of(t, #[trigger] regions@[i]@),
            forall|i: int| 0 <= i < regions@.len() ==> scan_before(cell_of((#[trigger] regions@[i])@[0]), (0, y as int)),
            forall|c: (int, int)| open_cell(t, c) && c.1 < y ==> #[trigger] flagged(flags(&visited))(c),
            forall|i: int, j: int| 0 <= i < j < regions@.len() ==> region_before(#[trigger] regions@[i]@, #[trigger] regions@[j]@),
            distinct_starts(regions@),
        decreases h - y,
    {
        let mut x: usize = 0;
        while x < width_n
            invariant
                grid_wf(cells(grid)),
                t == types(cells(grid)),
                open == open_in(t),
                height_n == h,
                width_n == w,
                w == width(cells(grid)),
                h == height(cells(grid)),
                types_shape(t, w, h),
                y < h,
                x <= w,
                flags_shape(flags(&visited), w, h),
                closed_under_steps(open, flagged(flags(&visited))),
                forall|c: (int, int)|
                    #[trigger] flagged(flags(&visited))(c) == exists|i: int| 0 <= i < regions@.len() && #[trigger] lists_cell(regions@[i]@, c),
                forall|i: int| 0 <= i < regions@.len() ==> is_region_of(t, #[trigger] regions@[i]@),
                forall|i: int| 0 <= i < regions@.len() ==> scan_before(cell_of((#[trigger] regions@[i])@[0]), (x as int, y as int)),
                forall|c: (int, int)| open_cell(t, c) && scan_before(c, (x as int, y as int)) ==> #[trigger] flagged(flags(&visited))(c),
                forall|i: int, j: int| 0 <= i < j < regions@.len() ==> region_before(#[trigger] regions@[i]@, #[trigger] regions@[j]@),
                distinct_starts(regions@),
            decreases w - x,
        {
            let ghost cur = (x as int, y as int);
            proof {
                assert(flags(&visited)[y as int].len() == w);
                assert(cells(grid)[y as int].len() == cells(grid)[0].len());
            }
            if !visited[y][x] && !is_solid_tile(grid[y][x].tile_type.as_str()) {
                let ghost before = flags(&visited);
                let ghost old_regions = regions@;
                let region = flood_fill_region(grid, x, y, &mut visited);
                proof {
                    // the new region starts at the scan-first tile of its component
                    assert forall|c: (int, int)| #[trigger] lists_cell(region@, c) implies c == cur || scan_before(cur, c) by {
                        if !(c == cur || scan_before(cur, c)) {
                            let k = choose|k: int| 0 <= k < region@.len() && cell_of(#[trigger] region@[k]) == c;
                            assert(open_cell(t, c));
                            assert(scan_before(c, cur));
                            assert(flagged(before)(c));
                            lemma_reach_symmetric(open, cur, c);
                            lemma_closed_holds_reachable(open, flagged(before), c, cur);
                        }
                    }
                    assert(is_region_of(t, region@));
                }
                // insert after every region at least as large
                let mut p: usize = 0;
                while p < regions.len() && regions[p].len() >= region.len()
                    invariant
                        p <= regions@.len(),
                        forall|i: int| 0 <= i < p ==> (#[trigger] regions@[i])@.len() >= region@.len(),
                    decreases regions@.len() - p,
                {
                    p = p + 1;
                }
                let ghost rv = region@;
                regions.insert(p, region);
                proof {
                    assert(regions@ == old_regions.insert(p as int, regions@[p as int]));
                    assert(regions@[p as int]@ == rv);
                    assert forall|i: int| 0 <= i < regions@.len() implies is_region_of(t, #[trigger] regions@[i]@) by {
                        if i < p {
                            assert(regions@[i] == old_regions[i]);
                        } else if i > p {
                            assert(regions@[i] == old_regions[i - 1]);
                        }
                    }
                    assert forall|i: int, j: int| 0 <= i < j < regions@.len() implies region_before(#[trigger] regions@[i]@, #[trigger] regions@[j]@) by {
                        if j < p {
                            assert(regions@[i] == old_regions[i]);
                            assert(regions@[j] == old_regions[j]);
                        } else if j == p {
                            assert(regions@[i] == old_regions[i]);
                            assert(scan_before(cell_of(old_regions[i]@[0]), cur));
                        } else if i == p {
                            assert(regions@[j] == old_regions[j - 1]);
                            if j - 1 == p {
                            } else {
                                assert(region_before(old_regions[p as int]@, old_regions[j - 1]@));
                            }
                        } else if i < p {
                            assert(regions@[i] == old_regions[i]);
                            assert(regions@[j] == old_regions[j - 1]);
                        } else {
                            assert(regions@[i] == old_regions[i - 1]);
                            assert(regions@[j] == old_regions[j - 1]);
                        }
                    }
                    assert forall|c: (int, int)|
                        #[trigger] flagged(flags(&visited))(c) == exists|i: int| 0 <= i < regions@.len() && #[trigger] lists_cell(regions@[i]@, c) by {
                        if flagged(before)(c) {
                            let i = choose|i: int| 0 <= i < old_regions.len() && #[trigger] lists_cell(old_regions[i]@, c);
                            if i < p {
                                assert(regions@[i] == old_regions[i]);
                            } else {
                                assert(regions@[i + 1] == old_regions[i]);
                            }
                        }
                        if lists_cell(rv, c) {
                            assert(lists_cell(regions@[p as int]@, c));
                        }
                        if exists|i: int| 0 <= i < regions@.len() && #[trigger] lists_cell(regions@[i]@, c) {
                            let i = choose|i: int| 0 <= i < regions@.len() && #[trigger] lists_cell(regions@[i]@, c);
                            if i < p {
                                assert(regions@[i] == old_regions[i]);
                            } else if i > p {
                                assert(regions@[i] == old_regions[i - 1]);
                            }
                        }
                    }
                    assert forall|i: int, j: int|
                        #![trigger regions@[i], regions@[j]]
                        0 <= i < regions@.len() && 0 <= j < regions@.len() && i != j
                        implies cell_of(regions@[i]@[0]) != cell_of(regions@[j]@[0]) by {
                        if i != p && j != p {
                            let oi = if i < p { i } else { i - 1 };
                            let oj = if j < p { j } else { j - 1 };
                            assert(regions@[i] == old_regions[oi]);
                            assert(regions@[j] == old_regions[oj]);
                        } else {
                            let k = if i == p { j } else { i };
                            let ok = if k < p { k } else { k - 1 };
                            assert(regions@[k] == old_regions[ok]);
                            assert(is_region_of(t, old_regions[ok]@));
                            assert(lists_cell(old_regions[ok]@, cell_of(old_regions[ok]@[0])));
                            assert(flagged(before)(cell_of(old_regions[ok]@[0])));
                            assert(!flagged(before)(cur));
                            assert(cell_of(rv[0]) == cur);
                        }
                    }
                    assert forall|i: int| 0 <= i < regions@.len() implies scan_before(cell_of((#[trigger] regions@[i])@[0]), (x as int + 1, y as int)) by {
                        if i < p {
                            assert(regions@[i] == old_regions[i]);
                        } else if i > p {
                            assert(regions@[i] == old_regions[i - 1]);
                        }
                    }
                    assert forall|c: (int, int)| open_cell(t, c) && scan_before(c, (x as int + 1, y as int)) implies #[trigger] flagged(flags(&visited))(c) by {
                        if c == cur {
                            lemma_reach_refl(open, cur);
                        } else {
                            assert(flagged(before)(c));
                        }
                    }
                }
            } else {
                proof {
                    assert forall|c: (int, int)| open_cell(t, c) && scan_before(c, (x as int + 1, y as int)) implies #[trigger] flagged(flags(&visited))(c) by {
                        if c == cur {
                            assert(flags(&visited)[y as int][x as int] || !open_cell(t, c));
                        }
                    }
                }
            }
            x = x + 1;
        }
        y = y + 1;
    }
    proof {
        assert forall|c: (int, int)|
            open_cell(t, c) implies exists|i: int| 0 <= i < regions@.len() && #[trigger] lists_cell(regions@[i]@, c) by {
            assert(flagged(flags(&visited))(c));
        }
    }
    regions
}


/// The cell `(x, y)` is off the outer ring of the grid.
pub open spec fn inner_cell(t: Seq<Seq<Seq<char>>>, x: int, y: int) -> bool {
    0 < y < t.len() - 1 && 0 < x < t[0].len() - 1
}

/// The type at `(x, y)` after carving the rectangle `[xlo, xhi] x [ylo, yhi]`:
/// solid tiles off the outer ring become earth.
pub open spec fn carved_type(
    t: Seq<Seq<Seq<char>>>,
    xlo: int,
    xhi: int,
    ylo: int,
    yhi: int,
    x: int,
    y: int,
) -> Seq<char> {
    if xlo <= x <= xhi && ylo <= y <= yhi && inner_cell(t, x, y) && is_solid_type(t[y][x]) {
        "earth"@
    } else {
        t[y][x]
    }
}

/// The grid of types after carving a rectangle.
pub open spec fn carve_rect(
    t: Seq<Seq<Seq<char>>>,
    xlo: int,
    xhi: int,
    ylo: int,
    yhi: int,
) -> Seq<Seq<Seq<char>>> {
    Seq::new(t.len(), |y: int| Seq::new(t[y].len(), |x: int| carved_type(t, xlo, xhi, ylo, yhi, x, y)))
}

pub open spec fn min_i(a: int, b: int) -> int {
    if a < b {
        a
    } else {
        b
    }
}

pub open spec fn max_i(a: int, b: int) -> int {
    if a < b {
        b
    } else {
        a
    }
}

/// Carve one cell: a solid tile off the outer ring becomes earth.
fn carve_cell(grid: &mut Grid, x: i64, y: i64)
    requires
        grid_wf(cells(old(grid))),
    ensures
        grid_wf(cells(final(grid))),
        same_but_types(cells(old(grid)), cells(final(grid))),
        forall|cx: int, cy: int|
            #![trigger types(cells(final(grid)))[cy][cx]]
            0 <= cy < height(cells(old(grid))) && 0 <= cx < width(cells(old(grid))) ==> types(
                cells(final(grid)),
            )[cy][cx] == carved_type(types(cells(old(grid))), x as int, x as int, y as int, y as int, cx, cy),
{
    let ghost t = types(cells(grid));
    let ghost c0 = cells(grid);
    let h = grid.len();
    let w = grid[0].len();
    proof {
        assert(cells(grid)[0].len() == w);
    }
    if y > 0 && y < h as i64 - 1 && x > 0 && x < w as i64 - 1 {
        let yy = y as usize;
        let xx = x as usize;
        proof {
            assert(cells(grid)[yy as int].len() == cells(grid)[0].len());
        }
        if is_solid_tile(grid[yy][xx].tile_type.as_str()) {
            grid[yy][xx].tile_type = crate::tiles::owned("earth");
        }
    }
    proof {
        assert forall|cy: int| 0 <= cy < cells(grid).len() implies #[trigger] cells(grid)[cy].len() == cells(grid)[0].len() by {
            assert(c0[cy].len() == c0[0].len());
        }
        assert forall|cx: int, cy: int|
            0 <= cy < c0.len() && 0 <= cx < c0[cy].len() implies crate::tiles::same_but_type(c0[cy][cx], #[trigger] cells(grid)[cy][cx]) by {
        }
        assert forall|cx: int, cy: int|
            #![trigger types(cells(grid))[cy][cx]]
            0 <= cy < height(c0) && 0 <= cx < width(c0) implies types(cells(grid))[cy][cx]
                == carved_type(t, x as int, x as int, y as int, y as int, cx, cy) by {
            assert(c0[cy].len() == c0[0].len());
        }
    }
}


/// The type at `(x, y)`, carved when `b` holds.
pub open spec fn carve_if(t: Seq<Seq<Seq<char>>>, b: bool, x: int, y: int) -> Seq<char> {
    if b && inner_cell(t, x, y) && is_solid_type(t[y][x]) {
        "earth"@
    } else {
        t[y][x]
    }
}

proof fn lemma_grid_rows(grid: &Grid)
    requires
        grid_wf(cells(grid)),
    ensures
        forall|y: int| 0 <= y < cells(grid).len() ==> #[trigger] types(cells(grid))[y].len() == width(cells(grid)),
        types(cells(grid)).len() == height(cells(grid)),
{
    assert forall|y: int| 0 <= y < cells(grid).len() implies #[trigger] types(cells(grid))[y].len() == width(cells(grid)) by {
        assert(cells(grid)[y].len() == cells(grid)[0].len());
    }
}

/// Carve a horizontal band: solid tiles (off the outer ring) in columns
/// `min(x1, x2)..=max(x1, x2)` and rows `y - width..=y + width` become earth.
pub fn carve_horizontal_line(grid: &mut Grid, x1: i32, x2: i32, y: i32, width: i32)
    requires
        grid_wf(cells(old(grid))),
        0 <= width <= 0x1000_0000,
    ensures
        grid_wf(cells(final(grid))),
        same_but_types(cells(old(grid)), cells(final(grid))),
        types(cells(final(grid))) =~~= carve_rect(
            types(cells(old(grid))),
            min_i(x1 as int, x2 as int),
            max_i(x1 as int, x2 as int),
            y - width,
            y + width,
        ),
{
    let ghost t = types(cells(grid));
    let ghost c0 = cells(grid);
    let ghost w = crate::grid::width(c0);
    let ghost h = height(c0);
    proof {
        lemma_grid_rows(grid);
    }
    let (start_x, end_x) = if x1 < x2 {
        (x1, x2)
    } else {
        (x2, x1)
    };
    let mut x: i64 = start_x as i64;
    while x <= end_x as i64
        invariant
            start_x <= x <= end_x as i64 + 1,
            0 <= width <= 0x1000_0000,
            start_x == min_i(x1 as int, x2 as int),
            end_x == max_i(x1 as int, x2 as int),
            grid_wf(cells(grid)),
            same_but_types(c0, cells(grid)),
            w == crate::grid::width(c0),
            h == height(c0),
            forall|yy: int| 0 <= yy < h ==> #[trigger] t[yy].len() == w,
            t.len() == h,
            forall|cx: int, cy: int|
                #![trigger types(cells(grid))[cy][cx]]
                0 <= cy < h && 0 <= cx < w ==> types(cells(grid))[cy][cx] == carve_if(
                    t,
                    start_x <= cx < x && y - width <= cy <= y + width,
                    cx,
                    cy,
                ),
        decreases end_x as i64 + 1 - x,
    {
        let mut dy: i64 = -(width as i64);
        while dy <= width as i64
            invariant
                start_x <= x <= end_x,
                -(width as int) <= dy <= width as int + 1,
                0 <= width <= 0x1000_0000,
                grid_wf(cells(grid)),
                same_but_types(c0, cells(grid)),
                w == crate::grid::width(c0),
                h == height(c0),
                forall|yy: int| 0 <= yy < h ==> #[trigger] t[yy].len() == w,
                t.len() == h,
                forall|cx: int, cy: int|
                    #![trigger types(cells(grid))[cy][cx]]
                    0 <= cy < h && 0 <= cx < w ==> types(cells(grid))[cy][cx] == carve_if(
                        t,
                        (start_x <= cx < x && y - width <= cy <= y + width) || (cx == x && y - width
                            <= cy < y + dy),
                        cx,
                        cy,
                    ),
            decreases width as int + 1 - dy,
        {
            let ghost before = cells(grid);
            carve_cell(grid, x, y as i64 + dy);
            proof {
                crate::terrain::lemma_same_but_types_trans(c0, before, cells(grid));
                assert forall|cx: int, cy: int|
                    #![trigger types(cells(grid))[cy][cx]]
                    0 <= cy < h && 0 <= cx < w implies types(cells(grid))[cy][cx] == carve_if(
                        t,
                        (start_x <= cx < x && y - width <= cy <= y + width) || (cx == x && y - width
                            <= cy < y + dy + 1),
                        cx,
                        cy,
                    ) by {
                    assert(types(before)[cy][cx] == carve_if(
                        t,
                        (start_x <= cx < x && y - width <= cy <= y + width) || (cx == x && y - width
                            <= cy < y + dy),
                        cx,
                        cy,
                    ));
                    assert(before[0].len() == w);
                }
            }
            dy = dy + 1;
        }
        x = x + 1;
    }
    proof {
        let r = carve_rect(t, start_x as int, end_x as int, y - width, y + width);
        assert forall|cy: int| 0 <= cy < h implies #[trigger] types(cells(grid))[cy] =~= r[cy] by {
            assert(cells(grid)[cy].len() == cells(grid)[0].len());
            assert(c0[cy].len() == w);
            assert forall|cx: int| 0 <= cx < w implies types(cells(grid))[cy][cx] == #[trigger] r[cy][cx] by {
            }
        }
    }
}

/// Carve a vertical band: solid tiles (off the outer ring) in rows
/// `min(y1, y2)..=max(y1, y2)` and columns `x - width..=x + width` become earth.
pub fn carve_vertical_line(grid: &mut Grid, x: i32, y1: i32, y2: i32, width: i32)
    requires
        grid_wf(cells(old(grid))),
        0 <= width <= 0x1000_0000,
    ensures
        grid_wf(cells(final(grid))),
        same_but_types(cells(old(grid)), cells(final(grid))),
        types(cells(final(grid))) =~~= carve_rect(
            types(cells(old(grid))),
            x - width,
            x + width,
            min_i(y1 as int, y2 as int),
            max_i(y1 as int, y2 as int),
        ),
{
    let ghost t = types(cells(grid));
    let ghost c0 = cells(grid);
    let ghost w = crate::grid::width(c0);
    let ghost h = height(c0);
    proof {
        lemma_grid_rows(grid);
    }
    let (start_y, end_y) = if y1 < y2 {
        (y1, y2)
    } else {
        (y2, y1)
    };
    let mut y: i64 = start_y as i64;
    while y <= end_y as i64
        invariant
            start_y <= y <= end_y as i64 + 1,
            0 <= width <= 0x1000_0000,
            start_y == min_i(y1 as int, y2 as int),
            end_y == max_i(y1 as int, y2 as int),
            grid_wf(cells(grid)),
            same_but_types(c0, cells(grid)),
            w == crate::grid::width(c0),
            h == height(c0),
            forall|yy: int| 0 <= yy < h ==> #[trigger] t[yy].len() == w,
            t.len() == h,
            forall|cx: int, cy: int|
                #![trigger types(cells(grid))[cy][cx]]
                0 <= cy < h && 0 <= cx < w ==> types(cells(grid))[cy][cx] == carve_if(
                    t,
                    start_y <= cy < y && x - width <= cx <= x + width,
                    cx,
                    cy,
                ),
        decreases end_y as i64 + 1 - y,
    {
        let mut dx: i64 = -(width as i64);
        while dx <= width as i64
            invariant
                start_y <= y <= end_y,
                -(width as int) <= dx <= width as int + 1,
                0 <= width <= 0x1000_0000,
                grid_wf(cells(grid)),
                same_but_types(c0, cells(grid)),
                w == crate::grid::width(c0),
                h == height(c0),
                forall|yy: int| 0 <= yy < h ==> #[trigger] t[yy].len() == w,
                t.len() == h,
                forall|cx: int, cy: int|
                    #![trigger types(cells(grid))[cy][cx]]
                    0 <= cy < h && 0 <= cx < w ==> types(cells(grid))[cy][cx] == carve_if(
                        t,
                        (start_y <= cy < y && x - width <= cx <= x + width) || (cy == y && x - width
                            <= cx < x + dx),
                        cx,
                        cy,
                    ),
            decreases width as int + 1 - dx,
        {
            let ghost before = cells(grid);
            carve_cell(grid, x as i64 + dx, y);
            proof {
                crate::terrain::lemma_same_but_types_trans(c0, before, cells(grid));
                assert forall|cx: int, cy: int|
                    #![trigger types(cells(grid))[cy][cx]]
                    0 <= cy < h && 0 <= cx < w implies types(cells(grid))[cy][cx] == carve_if(
                        t,
                        (start_y <= cy < y && x - width <= cx <= x + width) || (cy == y && x - width
                            <= cx < x + dx + 1),
                        cx,
                        cy,
                    ) by {
                    assert(types(before)[cy][cx] == carve_if(
                        t,
                        (start_y <= cy < y && x - width <= cx <= x + width) || (cy == y && x - width
                            <= cx < x + dx),
                        cx,
                        cy,
                    ));
                    assert(before[0].len() == w);
                }
            }
            dx = dx + 1;
        }
        y = y + 1;
    }
    proof {
        let r = carve_rect(t, x - width, x + width, start_y as int, end_y as int);
        assert forall|cy: int| 0 <= cy < h implies #[trigger] types(cells(grid))[cy] =~= r[cy] by {
            assert(cells(grid)[cy].len() == cells(grid)[0].len());
            assert(c0[cy].len() == w);
            assert forall|cx: int| 0 <= cx < w implies types(cells(grid))[cy][cx] == #[trigger] r[cy][cx] by {
            }
        }
    }
}


/// The sampling stride of `find_closest_points` for a first region of `la`
/// tiles: a twentieth of its size, at least one.
pub open spec fn closest_stride(la: int) -> int {
    if la / 20 > 1 {
        la / 20
    } else {
        1
    }
}

/// Index `i` is visited when stepping through `n` items with stride `step`.
pub open spec fn sampled(n: int, step: int, i: int) -> bool {
    0 <= i < n && i % step == 0
}

/// `(i, j)` comes before `(i2, j2)` in the nested iteration order.
pub open spec fn pair_before(i: int, j: int, i2: int, j2: int) -> bool {
    i < i2 || (i == i2 && j < j2)
}

/// `(i, j)` is the first sampled pair, in iteration order, at the least
/// squared distance among all sampled pairs.
pub open spec fn closest_pair(a: Seq<TilePos>, b: Seq<TilePos>, step: int, i: int, j: int) -> bool {
    &&& sampled(a.len() as int, step, i)
    &&& sampled(b.len() as int, step, j)
    &&& forall|i2: int, j2: int|
        sampled(a.len() as int, step, i2) && sampled(b.len() as int, step, j2) ==> crate::tiles::dist_sq(
            a[i],
            b[j],
        ) <= crate::tiles::dist_sq(#[trigger] a[i2], #[trigger] b[j2]) && (pair_before(i2, j2, i, j)
            ==> crate::tiles::dist_sq(a[i], b[j]) < crate::tiles::dist_sq(a[i2], b[j2]))
}

/// Find the two closest points between two regions, sampling both with a
/// stride of a twentieth of the first region's size (at least one).
pub fn find_closest_points(region_a: &Vec<TilePos>, region_b: &Vec<TilePos>) -> (r: (TilePos, TilePos))
    requires
        region_a@.len() > 0,
        region_b@.len() > 0,
    ensures
        exists|i: int, j: int|
            closest_pair(region_a@, region_b@, closest_stride(region_a@.len() as int), i, j)
                && r == (region_a@[i], region_b@[j]),
{
    let ghost a = region_a@;
    let ghost b = region_b@;
    let la = region_a.len();
    let lb = region_b.len();
    let step: usize = if la / 20 > 1 {
        la / 20
    } else {
        1
    };
    let ghost st = step as int;
    let mut best_i: usize = 0;
    let mut best_j: usize = 0;
    let mut min_dist: i128 = region_a[0].distance_squared(&region_b[0]);
    let mut i: usize = 0;
    proof {
        assert(0int % st == 0) by (nonlinear_arith)
            requires
                st > 0,
        ;
    }
    while i < la
        invariant
            la == a.len(),
            lb == b.len(),
            a == region_a@,
            b == region_b@,
            st == step,
            st == closest_stride(la as int),
            st >= 1,
            i <= la,
            i < la ==> (i as int) % st == 0,
            sampled(la as int, st, best_i as int),
            sampled(lb as int, st, best_j as int),
            min_dist == crate::tiles::dist_sq(a[best_i as int], b[best_j as int]),
            forall|i2: int, j2: int|
                sampled(la as int, st, i2) && sampled(lb as int, st, j2) && i2 < i ==> min_dist
                    <= crate::tiles::dist_sq(#[trigger] a[i2], #[trigger] b[j2]) && (pair_before(
                    i2,
                    j2,
                    best_i as int,
                    best_j as int,
                ) ==> min_dist < crate::tiles::dist_sq(a[i2], b[j2])),
            i == 0 ==> best_i == 0 && best_j == 0,
            i > 0 ==> best_i < i,
        decreases la - i,
    {
        let mut j: usize = 0;
        proof {
            assert(0int % st == 0) by (nonlinear_arith)
                requires
                    st > 0,
            ;
        }
        while j < lb
            invariant
                la == a.len(),
                lb == b.len(),
                a == region_a@,
                b == region_b@,
                st == step,
                st >= 1,
                i < la,
                (i as int) % st == 0,
                j <= lb,
                j < lb ==> (j as int) % st == 0,
                sampled(la as int, st, best_i as int),
                sampled(lb as int, st, best_j as int),
                min_dist == crate::tiles::dist_sq(a[best_i as int], b[best_j as int]),
                forall|i2: int, j2: int|
                    sampled(la as int, st, i2) && sampled(lb as int, st, j2) && pair_before(i2, j2, i as int, j as int)
                        ==> min_dist <= crate::tiles::dist_sq(#[trigger] a[i2], #[trigger] b[j2]) && (
                    pair_before(i2, j2, best_i as int, best_j as int) ==> min_dist
                        < crate::tiles::dist_sq(a[i2], b[j2])),
                (i == 0 && j == 0) ==> best_i == 0 && best_j == 0,
                !(i == 0 && j == 0) ==> pair_before(best_i as int, best_j as int, i as int, j as int),
            decreases lb - j,
        {
            let dist = region_a[i].distance_squared(&region_b[j]);
            if dist < min_dist {
                min_dist = dist;
                best_i = i;
                best_j = j;
            }
            proof {
                assert((j as int + st) % st == 0) by (nonlinear_arith)
                    requires
                        (j as int) % st == 0,
                        st > 0,
                ;
                assert forall|i2: int, j2: int|
                    sampled(la as int, st, i2) && sampled(lb as int, st, j2) && pair_before(i2, j2, i as int, (j + st) as int)
                        implies min_dist <= crate::tiles::dist_sq(#[trigger] a[i2], #[trigger] b[j2]) && (
                    pair_before(i2, j2, best_i as int, best_j as int) ==> min_dist
                        < crate::tiles::dist_sq(a[i2], b[j2])) by {
                    if i2 == i && j2 > j {
                        // no sampled index strictly between j and j + step
                        assert(false) by (nonlinear_arith)
                            requires
                                (j as int) % st == 0,
                                j2 % st == 0,
                                (j as int) < j2 < (j as int) + st,
                                st > 0,
                        ;
                    }
                }
            }
            j = if lb - j > step {
                j + step
            } else {
                lb
            };
        }
        proof {
            assert((i as int + st) % st == 0) by (nonlinear_arith)
                requires
                    (i as int) % st == 0,
                    st > 0,
            ;
            assert forall|i2: int, j2: int|
                sampled(la as int, st, i2) && sampled(lb as int, st, j2) && i2 < i + st implies min_dist
                    <= crate::tiles::dist_sq(#[trigger] a[i2], #[trigger] b[j2]) && (pair_before(
                    i2,
                    j2,
                    best_i as int,
                    best_j as int,
                ) ==> min_dist < crate::tiles::dist_sq(a[i2], b[j2])) by {
                if i2 > i {
                    assert(false) by (nonlinear_arith)
                        requires
                            (i as int) % st == 0,
                            i2 % st == 0,
                            (i as int) < i2 < (i as int) + st,
                            st > 0,
                    ;
                }
                assert(pair_before(i2, j2, i as int, j as int));
            }
        }
        i = if la - i > step {
            i + step
        } else {
            la
        };
    }
    proof {
        assert(closest_pair(a, b, st, best_i as int, best_j as int));
    }
    (region_a[best_i], region_b[best_j])
}


/// The types after carving an L-shaped tunnel from `s` to `e`: along row
/// `s.1` then column `e.0` when `horizontal_first`, else along column `s.0`
/// then row `e.1`; each leg is three tiles wide.
pub open spec fn tunnel(
    t: Seq<Seq<Seq<char>>>,
    s: (int, int),
    e: (int, int),
    horizontal_first: bool,
) -> Seq<Seq<Seq<char>>> {
    if horizontal_first {
        carve_rect(
            carve_rect(t, min_i(s.0, e.0), max_i(s.0, e.0), s.1 - 1, s.1 + 1),
            e.0 - 1,
            e.0 + 1,
            min_i(s.1, e.1),
            max_i(s.1, e.1),
        )
    } else {
        carve_rect(
            carve_rect(t, s.0 - 1, s.0 + 1, min_i(s.1, e.1), max_i(s.1, e.1)),
            min_i(s.0, e.0),
            max_i(s.0, e.0),
            e.1 - 1,
            e.1 + 1,
        )
    }
}

/// Carve an L-shaped tunnel between two points; which leg comes first is a
/// coin toss.
pub fn carve_tunnel(grid: &mut Grid, start: TilePos, end: TilePos)
    requires
        grid_wf(cells(old(grid))),
    ensures
        grid_wf(cells(final(grid))),
        same_but_types(cells(old(grid)), cells(final(grid))),
        exists|hf: bool|
            types(cells(final(grid))) == tunnel(
                types(cells(old(grid))),
                cell_of(start),
                cell_of(end),
                hf,
            ),
{
    let ghost t = types(cells(grid));
    let ghost c0 = cells(grid);
    let width: i32 = 1;
    let horizontal_first = crate::random::random_below(2) == 0;
    let ghost c1;
    if horizontal_first {
        carve_horizontal_line(grid, start.x, end.x, start.y, width);
        proof { c1 = cells(grid); }
        carve_vertical_line(grid, end.x, start.y, end.y, width);
    } else {
        carve_vertical_line(grid, start.x, start.y, end.y, width);
        proof { c1 = cells(grid); }
        carve_horizontal_line(grid, start.x, end.x, end.y, width);
    }
    proof {
        crate::terrain::lemma_same_but_types_trans(c0, c1, cells(grid));
        assert(types(cells(grid)) == tunnel(t, cell_of(start), cell_of(end), horizontal_first));
    }
}

/// Connect two regions by carving a tunnel between their closest points.
pub fn connect_regions(grid: &mut Grid, region_a: &Vec<TilePos>, region_b: &Vec<TilePos>)
    requires
        grid_wf(cells(old(grid))),
        region_a@.len() > 0,
        region_b@.len() > 0,
    ensures
        grid_wf(cells(final(grid))),
        same_but_types(cells(old(grid)), cells(final(grid))),
        exists|i: int, j: int, hf: bool|
            closest_pair(region_a@, region_b@, closest_stride(region_a@.len() as int), i, j)
                && types(cells(final(grid))) == tunnel(
                types(cells(old(grid))),
                cell_of(region_a@[i]),
                cell_of(region_b@[j]),
                hf,
            ),
{
    let (start, end) = find_closest_points(region_a, region_b);
    carve_tunnel(grid, start, end);
}


/// Tiles that are open or plain earth (which imps can dig through).
pub open spec fn dig_or_open(t: Seq<Seq<Seq<char>>>) -> spec_fn((int, int)) -> bool {
    |c: (int, int)|
        open_cell(t, c) || (0 <= c.1 < t.len() && 0 <= c.0 < t[c.1].len() && t[c.1][c.0] == "earth"@)
}

/// No open tile lies on the outer ring of the map.
pub open spec fn border_closed(t: Seq<Seq<Seq<char>>>) -> bool {
    forall|c: (int, int)| #[trigger] open_cell(t, c) ==> inner_cell(t, c.0, c.1)
}

/// Every tile keeps its type, except solid tiles off the outer ring that
/// become earth.
pub open spec fn only_earthed(t0: Seq<Seq<Seq<char>>>, t1: Seq<Seq<Seq<char>>>) -> bool {
    &&& t1.len() == t0.len()
    &&& forall|y: int| 0 <= y < t0.len() ==> #[trigger] t1[y].len() == t0[y].len()
    &&& forall|x: int, y: int|
        #![trigger t1[y][x]]
        0 <= y < t0.len() && 0 <= x < t0[y].len() ==> t1[y][x] == t0[y][x] || (inner_cell(t0, x, y)
            && is_solid_type(t0[y][x]) && t1[y][x] == "earth"@)
}

proof fn lemma_earth_is_solid()
    ensures
        is_solid_type("earth"@),
{
    reveal_strlit("earth");
}

proof fn lemma_carve_rect(t: Seq<Seq<Seq<char>>>, w: int, h: int, xlo: int, xhi: int, ylo: int, yhi: int)
    requires
        types_shape(t, w, h),
        h > 0,
    ensures
        types_shape(carve_rect(t, xlo, xhi, ylo, yhi), w, h),
        only_earthed(t, carve_rect(t, xlo, xhi, ylo, yhi)),
        forall|c: (int, int)| #[trigger] dig_or_open(t)(c) ==> dig_or_open(carve_rect(t, xlo, xhi, ylo, yhi))(c),
        forall|c: (int, int)| #[trigger] open_cell(carve_rect(t, xlo, xhi, ylo, yhi), c) == open_cell(t, c),
        forall|x: int, y: int|
            xlo <= x <= xhi && ylo <= y <= yhi && #[trigger] inner_cell(t, x, y) ==> dig_or_open(
                carve_rect(t, xlo, xhi, ylo, yhi),
            )((x, y)),
        forall|x: int, y: int| #[trigger] inner_cell(carve_rect(t, xlo, xhi, ylo, yhi), x, y) == inner_cell(t, x, y),
{
    let r = carve_rect(t, xlo, xhi, ylo, yhi);
    lemma_earth_is_solid();
    assert(r[0].len() == t[0].len());
    assert forall|c: (int, int)| #[trigger] open_cell(r, c) == open_cell(t, c) by {
        if 0 <= c.1 < h {
            assert(r[c.1].len() == t[c.1].len());
        }
    }
    assert forall|c: (int, int)| #[trigger] dig_or_open(t)(c) implies dig_or_open(r)(c) by {
        if 0 <= c.1 < h {
            assert(r[c.1].len() == t[c.1].len());
        }
    }
    assert forall|x: int, y: int|
        xlo <= x <= xhi && ylo <= y <= yhi && #[trigger] inner_cell(t, x, y) implies dig_or_open(r)((x, y)) by {
        assert(t[y].len() == w);
    }
}

proof fn lemma_only_earthed_trans(a: Seq<Seq<Seq<char>>>, b: Seq<Seq<Seq<char>>>, c: Seq<Seq<Seq<char>>>)
    requires
        only_earthed(a, b),
        only_earthed(b, c),
        a.len() > 0,
    ensures
        only_earthed(a, c),
{
    lemma_earth_is_solid();
    assert forall|x: int, y: int|
        #![trigger c[y][x]]
        0 <= y < a.len() && 0 <= x < a[y].len() implies c[y][x] == a[y][x] || (inner_cell(a, x, y)
            && is_solid_type(a[y][x]) && c[y][x] == "earth"@) by {
        assert(b[y][x] == a[y][x] || (inner_cell(a, x, y) && is_solid_type(a[y][x]) && b[y][x] == "earth"@));
        assert(b[0].len() == a[0].len());
    }
}

proof fn lemma_row_segment(p: spec_fn((int, int)) -> bool, x1: int, x2: int, y: int)
    requires
        forall|x: int| min_i(x1, x2) <= x <= max_i(x1, x2) ==> #[trigger] p((x, y)),
    ensures
        reachable(p, (x1, y), (x2, y)),
    decreases if x1 < x2 { x2 - x1 } else { x1 - x2 },
{
    if x1 == x2 {
        lemma_reach_refl(p, (x1, y));
    } else if x1 < x2 {
        lemma_row_segment(p, x1, x2 - 1, y);
        assert(p((x2, y)));
        lemma_reach_step(p, (x1, y), (x2 - 1, y), (x2, y));
    } else {
        lemma_row_segment(p, x1, x2 + 1, y);
        assert(p((x2, y)));
        lemma_reach_step(p, (x1, y), (x2 + 1, y), (x2, y));
    }
}

proof fn lemma_column_segment(p: spec_fn((int, int)) -> bool, x: int, y1: int, y2: int)
    requires
        forall|y: int| min_i(y1, y2) <= y <= max_i(y1, y2) ==> #[trigger] p((x, y)),
    ensures
        reachable(p, (x, y1), (x, y2)),
    decreases if y1 < y2 { y2 - y1 } else { y1 - y2 },
{
    if y1 == y2 {
        lemma_reach_refl(p, (x, y1));
    } else if y1 < y2 {
        lemma_column_segment(p, x, y1, y2 - 1);
        assert(p((x, y2)));
        lemma_reach_step(p, (x, y1), (x, y2 - 1), (x, y2));
    } else {
        lemma_column_segment(p, x, y1, y2 + 1);
        assert(p((x, y2)));
        lemma_reach_step(p, (x, y1), (x, y2 + 1), (x, y2));
    }
}

proof fn lemma_tunnel_shape(t: Seq<Seq<Seq<char>>>, w: int, h: int, s: (int, int), e: (int, int), hf: bool)
    requires
        types_shape(t, w, h),
        h > 0,
    ensures
        types_shape(tunnel(t, s, e, hf), w, h),
        only_earthed(t, tunnel(t, s, e, hf)),
        forall|c: (int, int)| #[trigger] dig_or_open(t)(c) ==> dig_or_open(tunnel(t, s, e, hf))(c),
        forall|c: (int, int)| #[trigger] open_cell(tunnel(t, s, e, hf), c) == open_cell(t, c),
        forall|x: int, y: int| #[trigger] inner_cell(tunnel(t, s, e, hf), x, y) == inner_cell(t, x, y),
{
    if hf {
        let t1 = carve_rect(t, min_i(s.0, e.0), max_i(s.0, e.0), s.1 - 1, s.1 + 1);
        lemma_carve_rect(t, w, h, min_i(s.0, e.0), max_i(s.0, e.0), s.1 - 1, s.1 + 1);
        lemma_carve_rect(t1, w, h, e.0 - 1, e.0 + 1, min_i(s.1, e.1), max_i(s.1, e.1));
        lemma_only_earthed_trans(t, t1, tunnel(t, s, e, hf));
    } else {
        let t1 = carve_rect(t, s.0 - 1, s.0 + 1, min_i(s.1, e.1), max_i(s.1, e.1));
        lemma_carve_rect(t, w, h, s.0 - 1, s.0 + 1, min_i(s.1, e.1), max_i(s.1, e.1));
        lemma_carve_rect(t1, w, h, min_i(s.0, e.0), max_i(s.0, e.0), e.1 - 1, e.1 + 1);
        lemma_only_earthed_trans(t, t1, tunnel(t, s, e, hf));
    }
}

/// A tunnel between two tiles off the outer ring joins them through open or
/// earth tiles, keeps every open-or-earth tile so, and only turns solid tiles
/// into earth.
proof fn lemma_tunnel(t: Seq<Seq<Seq<char>>>, w: int, h: int, s: (int, int), e: (int, int), hf: bool)
    requires
        types_shape(t, w, h),
        h > 0,
        inner_cell(t, s.0, s.1),
        inner_cell(t, e.0, e.1),
    ensures
        types_shape(tunnel(t, s, e, hf), w, h),
        only_earthed(t, tunnel(t, s, e, hf)),
        forall|c: (int, int)| #[trigger] dig_or_open(t)(c) ==> dig_or_open(tunnel(t, s, e, hf))(c),
        forall|c: (int, int)| #[trigger] open_cell(tunnel(t, s, e, hf), c) == open_cell(t, c),
        forall|x: int, y: int| #[trigger] inner_cell(tunnel(t, s, e, hf), x, y) == inner_cell(t, x, y),
        reachable(dig_or_open(tunnel(t, s, e, hf)), s, e),
{
    lemma_tunnel_shape(t, w, h, s, e, hf);
    let d = dig_or_open(tunnel(t, s, e, hf));
    if hf {
        let t1 = carve_rect(t, min_i(s.0, e.0), max_i(s.0, e.0), s.1 - 1, s.1 + 1);
        lemma_carve_rect(t, w, h, min_i(s.0, e.0), max_i(s.0, e.0), s.1 - 1, s.1 + 1);
        lemma_carve_rect(t1, w, h, e.0 - 1, e.0 + 1, min_i(s.1, e.1), max_i(s.1, e.1));
        lemma_only_earthed_trans(t, t1, tunnel(t, s, e, hf));
        assert forall|x: int| min_i(s.0, e.0) <= x <= max_i(s.0, e.0) implies #[trigger] d((x, s.1)) by {
            assert(inner_cell(t, x, s.1));
            assert(dig_or_open(t1)((x, s.1)));
        }
        assert forall|y: int| min_i(s.1, e.1) <= y <= max_i(s.1, e.1) implies #[trigger] d((e.0, y)) by {
            assert(inner_cell(t1, e.0, y));
        }
        lemma_row_segment(d, s.0, e.0, s.1);
        lemma_column_segment(d, e.0, s.1, e.1);
        crate::paths::lemma_reach_trans(d, s, (e.0, s.1), e);
    } else {
        let t1 = carve_rect(t, s.0 - 1, s.0 + 1, min_i(s.1, e.1), max_i(s.1, e.1));
        lemma_carve_rect(t, w, h, s.0 - 1, s.0 + 1, min_i(s.1, e.1), max_i(s.1, e.1));
        lemma_carve_rect(t1, w, h, min_i(s.0, e.0), max_i(s.0, e.0), e.1 - 1, e.1 + 1);
        lemma_only_earthed_trans(t, t1, tunnel(t, s, e, hf));
        assert forall|y: int| min_i(s.1, e.1) <= y <= max_i(s.1, e.1) implies #[trigger] d((s.0, y)) by {
            assert(inner_cell(t, s.0, y));
            assert(dig_or_open(t1)((s.0, y)));
        }
        assert forall|x: int| min_i(s.0, e.0) <= x <= max_i(s.0, e.0) implies #[trigger] d((x, e.1)) by {
            assert(inner_cell(t1, x, e.1));
        }
        lemma_column_segment(d, s.0, s.1, e.1);
        lemma_row_segment(d, s.0, e.0, e.1);
        crate::paths::lemma_reach_trans(d, s, (s.0, e.1), e);
    }
}


/// All open tiles can reach one another through open or earth tiles.
pub open spec fn open_tiles_joined(t0: Seq<Seq<Seq<char>>>, t: Seq<Seq<Seq<char>>>) -> bool {
    forall|a: (int, int), b: (int, int)|
        #![trigger open_cell(t0, a), open_cell(t0, b)]
        open_cell(t0, a) && open_cell(t0, b) ==> reachable(dig_or_open(t), a, b)
}

/// Every tile of the first `k` regions is reachable from `f` in `t`.
pub open spec fn joined_up_to(rs: Seq<Vec<TilePos>>, k: int, f: (int, int), t: Seq<Seq<Seq<char>>>) -> bool {
    forall|j: int, c: (int, int)|
        0 <= j < k && #[trigger] lists_cell(rs[j]@, c) ==> reachable(dig_or_open(t), f, c)
}

/// Every open tile can reach every other through open tiles alone: the
/// open tiles form at most one region.
#[verifier::opaque]
pub open spec fn open_connected(t: Seq<Seq<Seq<char>>>) -> bool {
    forall|a: (int, int), b: (int, int)|
        #![trigger open_cell(t, a), open_cell(t, b)]
        open_cell(t, a) && open_cell(t, b) ==> reachable(open_in(t), a, b)
}

/// A map whose open tiles form one region has at most one region.
proof fn lemma_connected_single_region(t: Seq<Seq<Seq<char>>>, rs: Seq<Vec<TilePos>>)
    requires
        regions_of(t, rs),
        open_connected(t),
    ensures
        rs.len() <= 1,
{
    reveal(open_connected);
    if rs.len() > 1 {
        let r0 = rs[0]@;
        let r1 = rs[1]@;
        assert(is_region_of(t, r0));
        assert(is_region_of(t, r1));
        let a = cell_of(r0[0]);
        let b = cell_of(r1[0]);
        assert(open_cell(t, a) && open_cell(t, b));
        assert(reachable(open_in(t), a, b));
        assert(reachable(open_in(t), b, a));
        assert(lists_cell(r0, b));
        assert(lists_cell(r1, a));
        assert(a != b);
        assert(false);
    }
}

/// The state of the connecting loop of `ensure_connectivity`.
pub open spec fn connect_state(t0: Seq<Seq<Seq<char>>>, t: Seq<Seq<Seq<char>>>, w: int, h: int) -> bool {
    &&& only_earthed(t0, t)
    &&& types_shape(t0, w, h)
    &&& types_shape(t, w, h)
    &&& h > 0
    &&& forall|c: (int, int)| #[trigger] open_cell(t, c) == open_cell(t0, c)
    &&& forall|c: (int, int)| #[trigger] dig_or_open(t0)(c) ==> dig_or_open(t)(c)
    &&& forall|x: int, y: int| #[trigger] inner_cell(t, x, y) == inner_cell(t0, x, y)
}

proof fn lemma_connect_start(t0: Seq<Seq<Seq<char>>>, rs: Seq<Vec<TilePos>>, w: int, h: int)
    requires
        regions_of(t0, rs),
        rs.len() > 0,
        types_shape(t0, w, h),
        h > 0,
    ensures
        connect_state(t0, t0, w, h),
        joined_up_to(rs, 1, cell_of(rs[0]@[0]), t0),
{
    let f = cell_of(rs[0]@[0]);
    assert(is_region_of(t0, rs[0]@));
    assert forall|j: int, c: (int, int)|
        0 <= j < 1 && #[trigger] lists_cell(rs[j]@, c) implies reachable(dig_or_open(t0), f, c) by {
        crate::paths::lemma_reach_mono(open_in(t0), dig_or_open(t0), f, c);
    }
}

proof fn lemma_connect_step(
    t0: Seq<Seq<Seq<char>>>,
    tk: Seq<Seq<Seq<char>>>,
    r0: Seq<TilePos>,
    rk: Seq<TilePos>,
    w: int,
    h: int,
    ai: int,
    bj: int,
    hf: bool,
)
    requires
        is_region_of(t0, r0),
        is_region_of(t0, rk),
        connect_state(t0, tk, w, h),
        0 <= ai < r0.len(),
        0 <= bj < rk.len(),
        border_closed(t0) ==> reachable(dig_or_open(tk), cell_of(r0[0]), cell_of(r0[ai])),
    ensures
        connect_state(t0, tunnel(tk, cell_of(r0[ai]), cell_of(rk[bj]), hf), w, h),
        border_closed(t0) ==> forall|c: (int, int)|
            #[trigger] lists_cell(rk, c) ==> reachable(
                dig_or_open(tunnel(tk, cell_of(r0[ai]), cell_of(rk[bj]), hf)),
                cell_of(r0[0]),
                c,
            ),
{
    let s = cell_of(r0[ai]);
    let e = cell_of(rk[bj]);
    let f = cell_of(r0[0]);
    let tn = tunnel(tk, s, e, hf);
    assert(lists_cell(r0, s));
    assert(lists_cell(rk, e));
    lemma_tunnel_shape(tk, w, h, s, e, hf);
    lemma_only_earthed_trans(t0, tk, tn);
    if border_closed(t0) {
        assert(open_cell(t0, s));
        assert(open_cell(t0, e));
        lemma_tunnel(tk, w, h, s, e, hf);
        let dk = dig_or_open(tk);
        let dn = dig_or_open(tn);
        let fk = cell_of(rk[0]);
        assert forall|q: (int, int)| #[trigger] open_in(t0)(q) implies dn(q) by {
            assert(open_cell(tn, q));
        }
        crate::paths::lemma_reach_mono(dk, dn, f, s);
        crate::paths::lemma_reach_trans(dn, f, s, e);
        assert(reachable(open_in(t0), fk, e));
        lemma_reach_symmetric(open_in(t0), fk, e);
        assert forall|c: (int, int)| #[trigger] lists_cell(rk, c) implies reachable(dn, f, c) by {
            assert(reachable(open_in(t0), fk, c));
            crate::paths::lemma_reach_trans(open_in(t0), e, fk, c);
            crate::paths::lemma_reach_mono(open_in(t0), dn, e, c);
            crate::paths::lemma_reach_trans(dn, f, e, c);
        }
    }
}

proof fn lemma_joined_extend(
    rs: Seq<Vec<TilePos>>,
    k: int,
    f: (int, int),
    tk: Seq<Seq<Seq<char>>>,
    tn: Seq<Seq<Seq<char>>>,
)
    requires
        0 <= k < rs.len(),
        joined_up_to(rs, k, f, tk),
        forall|c: (int, int)| #[trigger] dig_or_open(tk)(c) ==> dig_or_open(tn)(c),
        forall|c: (int, int)| #[trigger] lists_cell(rs[k]@, c) ==> reachable(dig_or_open(tn), f, c),
    ensures
        joined_up_to(rs, k + 1, f, tn),
{
    assert forall|j: int, c: (int, int)|
        0 <= j < k + 1 && #[trigger] lists_cell(rs[j]@, c) implies reachable(dig_or_open(tn), f, c) by {
        if j < k {
            crate::paths::lemma_reach_mono(dig_or_open(tk), dig_or_open(tn), f, c);
        }
    }
}

proof fn lemma_connect_finish(t0: Seq<Seq<Seq<char>>>, t: Seq<Seq<Seq<char>>>, rs: Seq<Vec<TilePos>>)
    requires
        regions_of(t0, rs),
        rs.len() > 0,
        border_closed(t0) ==> joined_up_to(rs, rs.len() as int, cell_of(rs[0]@[0]), t),
    ensures
        border_closed(t0) ==> open_tiles_joined(t0, t),
{
    if border_closed(t0) {
        let f = cell_of(rs[0]@[0]);
        let d = dig_or_open(t);
        assert forall|a: (int, int), b: (int, int)|
            #![trigger open_cell(t0, a), open_cell(t0, b)]
            open_cell(t0, a) && open_cell(t0, b) implies reachable(d, a, b) by {
            let ia = choose|ia: int| 0 <= ia < rs.len() && #[trigger] lists_cell(rs[ia]@, a);
            let ib = choose|ib: int| 0 <= ib < rs.len() && #[trigger] lists_cell(rs[ib]@, b);
            lemma_reach_symmetric(d, f, a);
            crate::paths::lemma_reach_trans(d, a, f, b);
        }
    }
}

proof fn lemma_connect_loop_step(
    t0: Seq<Seq<Seq<char>>>,
    c0: Seq<Seq<crate::tiles::TileState>>,
    ck: Seq<Seq<crate::tiles::TileState>>,
    cn: Seq<Seq<crate::tiles::TileState>>,
    rs: Seq<Vec<TilePos>>,
    i: int,
    w: int,
    h: int,
)
    requires
        1 <= i < rs.len(),
        regions_of(t0, rs),
        same_but_types(c0, ck),
        same_but_types(ck, cn),
        connect_state(t0, types(ck), w, h),
        border_closed(t0) ==> joined_up_to(rs, i, cell_of(rs[0]@[0]), types(ck)),
        exists|ai: int, bj: int, hf: bool|
            closest_pair(rs[0]@, rs[i]@, closest_stride(rs[0]@.len() as int), ai, bj)
                && types(cn) == tunnel(types(ck), cell_of(rs[0]@[ai]), cell_of(rs[i]@[bj]), hf),
    ensures
        same_but_types(c0, cn),
        connect_state(t0, types(cn), w, h),
        border_closed(t0) ==> joined_up_to(rs, i + 1, cell_of(rs[0]@[0]), types(cn)),
{
    let tk = types(ck);
    let (ai, bj, hf) = choose|ai: int, bj: int, hf: bool|
        closest_pair(rs[0]@, rs[i]@, closest_stride(rs[0]@.len() as int), ai, bj)
            && types(cn) == tunnel(tk, cell_of(rs[0]@[ai]), cell_of(rs[i]@[bj]), hf);
    crate::terrain::lemma_same_but_types_trans(c0, ck, cn);
    let r0 = rs[0]@;
    let rk = rs[i]@;
    assert(is_region_of(t0, r0));
    assert(is_region_of(t0, rk));
    if border_closed(t0) {
        assert(lists_cell(r0, cell_of(r0[ai])));
        assert(reachable(dig_or_open(tk), cell_of(r0[0]), cell_of(r0[ai])));
    }
    lemma_connect_step(t0, tk, r0, rk, w, h, ai, bj, hf);
    if border_closed(t0) {
        lemma_joined_extend(rs, i, cell_of(r0[0]), tk, types(cn));
    }
}

/// Ensure all open regions are connected via tunnels: every region is joined
/// to the largest one by a tunnel between their closest sampled points.
///
/// Open tiles stay open and nothing else changes but solid tiles becoming
/// earth. When no open tile lies on the outer ring, every open tile can then
/// reach every other through open or earth tiles.
pub fn ensure_connectivity(grid: &mut Grid)
    requires
        grid_wf(cells(old(grid))),
    ensures
        grid_wf(cells(final(grid))),
        same_but_types(cells(old(grid)), cells(final(grid))),
        only_earthed(types(cells(old(grid))), types(cells(final(grid)))),
        forall|c: (int, int)| #[trigger] open_cell(types(cells(final(grid))), c) == open_cell(types(cells(old(grid))), c),
        border_closed(types(cells(old(grid)))) ==> open_tiles_joined(
            types(cells(old(grid))),
            types(cells(final(grid))),
        ),
        open_connected(types(cells(old(grid)))) ==> cells(final(grid)) == cells(old(grid)),
{
    let ghost c0 = cells(grid);
    let ghost t0 = types(c0);
    let ghost w = width(c0);
    let ghost h = height(c0);
    proof {
        lemma_grid_rows(grid);
    }
    let regions = find_disconnected_regions(grid);
    if regions.len() == 0 {
        proof {
            lemma_connect_start_empty(t0, regions@, w, h);
        }
        return;
    }
    proof {
        lemma_connect_start(t0, regions@, w, h);
    }
    if regions.len() == 1 {
        proof {
            lemma_connect_finish(t0, t0, regions@);
            assert(types(cells(grid)) =~~= t0);
        }
        return;
    }
    proof {
        if open_connected(t0) {
            lemma_connected_single_region(t0, regions@);
        }
    }
    let mut i: usize = 1;
    while i < regions.len()
        invariant
            1 <= i <= regions@.len(),
            regions_of(t0, regions@),
            grid_wf(cells(grid)),
            same_but_types(c0, cells(grid)),
            connect_state(t0, types(cells(grid)), w, h),
            border_closed(t0) ==> joined_up_to(regions@, i as int, cell_of(regions@[0]@[0]), types(cells(grid))),
            !open_connected(t0),
        decreases regions@.len() - i,
    {
        let ghost ck = cells(grid);
        connect_regions(grid, &regions[0], &regions[i]);
        proof {
            lemma_connect_loop_step(t0, c0, ck, cells(grid), regions@, i as int, w, h);
        }
        i = i + 1;
    }
    proof {
        lemma_connect_finish(t0, types(cells(grid)), regions@);
    }
}

proof fn lemma_connect_start_empty(t0: Seq<Seq<Seq<char>>>, rs: Seq<Vec<TilePos>>, w: int, h: int)
    requires
        regions_of(t0, rs),
        rs.len() == 0,
        types_shape(t0, w, h),
        h > 0,
    ensures
        connect_state(t0, t0, w, h),
        open_tiles_joined(t0, t0),
{
    assert forall|a: (int, int), b: (int, int)|
        #![trigger open_cell(t0, a), open_cell(t0, b)]
        open_cell(t0, a) && open_cell(t0, b) implies reachable(dig_or_open(t0), a, b) by {
        assert(exists|i: int| 0 <= i < rs.len() && #[trigger] lists_cell(rs[i]@, a));
    }
}

} // verus!
