//! Cheapest-first walks over a grid of walkable cells where some cells are
//! slow to enter: a search outward from the goal that always settles the
//! nearest unsettled cell, then a walk back along the links it recorded.
use vstd::prelude::*;
use crate::tiles::TilePos;
use crate::connectivity::{cell_of, flags, flagged, flags_shape, new_flags, lemma_flag_update};
use crate::paths::{adj, is_path, reachable, closed_under_steps, lemma_reach_symmetric, lemma_closed_holds_reachable};
use crate::pathfinding::{walkable_in, tile_cells, leads, walk_grid_wf, lemma_reach_ends};
use crate::counting::sum_false;

verus! {

/// The rows of a grid of values as nested sequences.
pub open spec fn rows<T>(v: &Vec<Vec<T>>) -> Seq<Seq<T>> {
    v@.map_values(|r: Vec<T>| r@)
}

/// `g` has the shape of a `w` by `h` grid.
pub open spec fn grid_shape<T>(g: Seq<Seq<T>>, w: int, h: int) -> bool {
    g.len() == h && forall|y: int| 0 <= y < h ==> #[trigger] g[y].len() == w
}

/// The cell `c` lies on a `w` by `h` grid.
pub open spec fn on_board(w: int, h: int, c: (int, int)) -> bool {
    0 <= c.0 < w && 0 <= c.1 < h
}

/// The search has found a way from `c` to the goal: its cost is known.
pub open spec fn found(d: Seq<Seq<u128>>, w: int, h: int, c: (int, int)) -> bool {
    on_board(w, h, c) && d[c.1][c.0] != u128::MAX
}

/// The cost of entering the cell `c`: 10 for a slow cell, else 1.
pub open spec fn enter_cost(ss: Seq<Seq<bool>>, c: (int, int)) -> int {
    if ss[c.1][c.0] {
        10
    } else {
        1
    }
}

/// The cell a found cell links to on its way to the goal.
pub open spec fn link_of(n: Seq<Seq<(usize, usize)>>, c: (int, int)) -> (int, int) {
    (n[c.1][c.0].0 as int, n[c.1][c.0].1 as int)
}

/// A found cell is walkable, and unless it is the goal it links to a found
/// neighbour of lower cost.
pub open spec fn link_ok(
    vv: Seq<Seq<bool>>,
    d: Seq<Seq<u128>>,
    n: Seq<Seq<(usize, usize)>>,
    w: int,
    h: int,
    goal: (int, int),
    c: (int, int),
) -> bool {
    found(d, w, h, c) ==> {
        &&& flagged(vv)(c)
        &&& c != goal ==> {
            let p = link_of(n, c);
            &&& found(d, w, h, p)
            &&& adj(c, p)
            &&& d[p.1][p.0] < d[c.1][c.0]
        }
    }
}

/// Every found cell links correctly.
pub open spec fn links_ok(
    vv: Seq<Seq<bool>>,
    d: Seq<Seq<u128>>,
    n: Seq<Seq<(usize, usize)>>,
    w: int,
    h: int,
    goal: (int, int),
) -> bool {
    forall|c: (int, int)| #[trigger] link_ok(vv, d, n, w, h, goal, c)
}

/// Costs only fall: every cell found in `d` is found in `d2`, at no higher
/// cost, and a cell newly found or cheaper in `d2` costs at most `cap`.
pub open spec fn costs_fall(d: Seq<Seq<u128>>, d2: Seq<Seq<u128>>, w: int, h: int, cap: int) -> bool {
    &&& forall|c: (int, int)| #[trigger] found(d, w, h, c) ==> found(d2, w, h, c) && d2[c.1][c.0] <= d[c.1][c.0]
    &&& forall|c: (int, int)|
        #[trigger] found(d2, w, h, c) ==> (found(d, w, h, c) && d2[c.1][c.0] == d[c.1][c.0]) || d2[c.1][c.0] <= cap
}

/// Each cell of `d2`/`n2` is as in `d`/`n`, or was dearer than `cap` and
/// now costs `cap` and links to `cur`.
pub open spec fn lowered_to(
    d: Seq<Seq<u128>>,
    n: Seq<Seq<(usize, usize)>>,
    d2: Seq<Seq<u128>>,
    n2: Seq<Seq<(usize, usize)>>,
    w: int,
    h: int,
    cap: int,
    cur: (usize, usize),
) -> bool {
    forall|c: (int, int)|
        #[trigger] on_board(w, h, c) ==> (d2[c.1][c.0] == d[c.1][c.0] && n2[c.1][c.0] == n[c.1][c.0]) || (
        d2[c.1][c.0] == cap && n2[c.1][c.0] == cur && d[c.1][c.0] > cap)
}

/// The cost of a walk: the entry costs of every cell after the first.
pub open spec fn walk_cost(ss: Seq<Seq<bool>>, cs: Seq<(int, int)>) -> int
    decreases cs.len(),
{
    if cs.len() <= 1 {
        0
    } else {
        enter_cost(ss, cs[1]) + walk_cost(ss, cs.skip(1))
    }
}

proof fn lemma_walk_cost_nonneg(ss: Seq<Seq<bool>>, cs: Seq<(int, int)>)
    ensures
        walk_cost(ss, cs) >= 0,
    decreases cs.len(),
{
    if cs.len() > 1 {
        lemma_walk_cost_nonneg(ss, cs.skip(1));
    }
}

proof fn lemma_walk_cost_skip(ss: Seq<Seq<bool>>, cs: Seq<(int, int)>, i: int)
    requires
        0 <= i < cs.len() - 1,
    ensures
        walk_cost(ss, cs.skip(i)) == enter_cost(ss, cs[i + 1]) + walk_cost(ss, cs.skip(i + 1)),
{
    assert(cs.skip(i).skip(1) =~= cs.skip(i + 1));
    assert(cs.skip(i)[1] == cs[i + 1]);
}

proof fn lemma_walk_cost_push(ss: Seq<Seq<bool>>, cs: Seq<(int, int)>, x: (int, int))
    requires
        cs.len() >= 1,
    ensures
        walk_cost(ss, cs.push(x)) == walk_cost(ss, cs) + enter_cost(ss, x),
    decreases cs.len(),
{
    let q = cs.push(x);
    if cs.len() == 1 {
        assert(q.skip(1) =~= seq![x]);
        assert(walk_cost(ss, q.skip(1)) == 0);
        assert(q[1] == x);
        assert(walk_cost(ss, cs) == 0);
    } else {
        assert(q.skip(1) =~= cs.skip(1).push(x));
        lemma_walk_cost_push(ss, cs.skip(1), x);
        assert(q[1] == cs[1]);
    }
}

proof fn lemma_lowered_trans(
    d0: Seq<Seq<u128>>,
    n0: Seq<Seq<(usize, usize)>>,
    d1: Seq<Seq<u128>>,
    n1: Seq<Seq<(usize, usize)>>,
    d2: Seq<Seq<u128>>,
    n2: Seq<Seq<(usize, usize)>>,
    w: int,
    h: int,
    cap: int,
    cur: (usize, usize),
)
    requires
        lowered_to(d0, n0, d1, n1, w, h, cap, cur),
        lowered_to(d1, n1, d2, n2, w, h, cap, cur),
    ensures
        lowered_to(d0, n0, d2, n2, w, h, cap, cur),
{
    assert forall|c: (int, int)| #[trigger] on_board(w, h, c) implies (d2[c.1][c.0] == d0[c.1][c.0] && n2[c.1][c.0]
        == n0[c.1][c.0]) || (d2[c.1][c.0] == cap && n2[c.1][c.0] == cur && d0[c.1][c.0] > cap) by {
        assert(on_board(w, h, c));
    }
}

/// Lower the cost of the cell `(nx, ny)` to `cand`, linking it to `cur`,
/// when it is on the grid, walkable and dearer than that.
fn relax(
    dist: &mut Vec<Vec<u128>>,
    link: &mut Vec<Vec<(usize, usize)>>,
    walkable: &Vec<Vec<bool>>,
    goal: (usize, usize),
    cur: (usize, usize),
    cand: u128,
    nx: i64,
    ny: i64,
)
    requires
        walk_grid_wf(flags(walkable)),
        grid_shape(rows(old(dist)), flags(walkable)[0].len() as int, flags(walkable).len() as int),
        grid_shape(rows(old(link)), flags(walkable)[0].len() as int, flags(walkable).len() as int),
        links_ok(flags(walkable), rows(old(dist)), rows(old(link)), flags(walkable)[0].len() as int,
            flags(walkable).len() as int, (goal.0 as int, goal.1 as int)),
        found(rows(old(dist)), flags(walkable)[0].len() as int, flags(walkable).len() as int, (cur.0 as int, cur.1 as int)),
        rows(old(dist))[cur.1 as int][cur.0 as int] < cand < u128::MAX,
        (nx == cur.0 - 1 && ny == cur.1) || (nx == cur.0 + 1 && ny == cur.1) || (nx == cur.0 && ny == cur.1 - 1)
            || (nx == cur.0 && ny == cur.1 + 1),
    ensures
        grid_shape(rows(final(dist)), flags(walkable)[0].len() as int, flags(walkable).len() as int),
        grid_shape(rows(final(link)), flags(walkable)[0].len() as int, flags(walkable).len() as int),
        links_ok(flags(walkable), rows(final(dist)), rows(final(link)), flags(walkable)[0].len() as int,
            flags(walkable).len() as int, (goal.0 as int, goal.1 as int)),
        costs_fall(rows(old(dist)), rows(final(dist)), flags(walkable)[0].len() as int, flags(walkable).len() as int,
            cand as int),
        flagged(flags(walkable))((nx as int, ny as int)) ==> found(rows(final(dist)), flags(walkable)[0].len() as int,
            flags(walkable).len() as int, (nx as int, ny as int)) && rows(final(dist))[ny as int][nx as int] <= cand,
        lowered_to(rows(old(dist)), rows(old(link)), rows(final(dist)), rows(final(link)), flags(walkable)[0].len() as int,
            flags(walkable).len() as int, cand as int, cur),
{
    let ghost vv = flags(walkable);
    let ghost w = vv[0].len() as int;
    let ghost h = vv.len() as int;
    let ghost g = (goal.0 as int, goal.1 as int);
    let ghost d0 = rows(dist);
    let ghost n0 = rows(link);
    let hh = walkable.len();
    let ww = walkable[0].len();
    if nx < 0 || ny < 0 || nx >= ww as i64 || ny >= hh as i64 {
        proof {
            assert(!flagged(vv)((nx as int, ny as int)));
        }
        return;
    }
    let x = nx as usize;
    let y = ny as usize;
    proof {
        assert(vv[y as int].len() == w);
        assert(d0[y as int].len() == w);
        assert(n0[y as int].len() == w);
    }
    if !walkable[y][x] || dist[y][x] <= cand {
        return;
    }
    dist[y][x] = cand;
    link[y][x] = cur;
    proof {
        let d1 = rows(dist);
        let n1 = rows(link);
        let m = (x as int, y as int);
        let cc = (cur.0 as int, cur.1 as int);
        assert(d1 =~= d0.update(y as int, d0[y as int].update(x as int, cand)));
        assert(n1 =~= n0.update(y as int, n0[y as int].update(x as int, cur)));
        assert forall|yy: int| 0 <= yy < h implies #[trigger] d1[yy].len() == w && n1[yy].len() == w by {
            assert(d0[yy].len() == w);
            assert(n0[yy].len() == w);
        }
        assert(m != cc);
        assert forall|c: (int, int)| #[trigger] link_ok(vv, d1, n1, w, h, g, c) by {
            assert(link_ok(vv, d0, n0, w, h, g, c));
            if c == m {
                assert(flagged(vv)(m));
                if c != g {
                    assert(link_of(n1, c) == cc);
                    assert(d1[cc.1][cc.0] == d0[cc.1][cc.0]);
                    assert(adj(c, cc));
                }
            } else if found(d1, w, h, c) {
                assert(d1[c.1][c.0] == d0[c.1][c.0]);
                assert(link_of(n1, c) == link_of(n0, c));
                if c != g {
                    let p = link_of(n0, c);
                    if p == m {
                        assert(d1[p.1][p.0] == cand);
                    } else {
                        assert(d1[p.1][p.0] == d0[p.1][p.0]);
                    }
                }
            }
        }
        assert forall|c: (int, int)| #[trigger] found(d0, w, h, c) implies found(d1, w, h, c) && d1[c.1][c.0] <= d0[c.1][c.0] by {
            if c != m {
                assert(d1[c.1][c.0] == d0[c.1][c.0]);
            }
        }
        assert forall|c: (int, int)| #[trigger] found(d1, w, h, c) implies (found(d0, w, h, c) && d1[c.1][c.0] == d0[c.1][c.0])
            || d1[c.1][c.0] <= cand by {
            if c != m {
                assert(d1[c.1][c.0] == d0[c.1][c.0]);
            }
        }
        assert forall|c: (int, int)| #[trigger] on_board(w, h, c) implies (d1[c.1][c.0] == d0[c.1][c.0] && n1[c.1][c.0]
            == n0[c.1][c.0]) || (d1[c.1][c.0] == cand && n1[c.1][c.0] == cur && d0[c.1][c.0] > cand) by {
            if c != m {
                assert(d1[c.1][c.0] == d0[c.1][c.0]);
                assert(n1[c.1][c.0] == n0[c.1][c.0]);
            }
        }
    }
}

/// A `w` by `h` grid holding `v` everywhere.
fn filled<T: Copy>(w: usize, h: usize, v: T) -> (g: Vec<Vec<T>>)
    ensures
        grid_shape(rows(&g), w as int, h as int),
        forall|x: int, y: int| 0 <= x < w && 0 <= y < h ==> #[trigger] rows(&g)[y][x] == v,
{
    let mut g: Vec<Vec<T>> = Vec::new();
    let mut y: usize = 0;
    while y < h
        invariant
            y <= h,
            g@.len() == y,
            forall|yy: int| 0 <= yy < y ==> #[trigger] g@[yy]@.len() == w,
            forall|x: int, yy: int| 0 <= x < w && 0 <= yy < y ==> #[trigger] g@[yy]@[x] == v,
        decreases h - y,
    {
        let mut row: Vec<T> = Vec::new();
        let mut x: usize = 0;
        while x < w
            invariant
                x <= w,
                row@.len() == x,
                forall|xx: int| 0 <= xx < x ==> #[trigger] row@[xx] == v,
            decreases w - x,
        {
            row.push(v);
            x = x + 1;
        }
        g.push(row);
        y = y + 1;
    }
    proof {
        assert forall|yy: int| 0 <= yy < h implies #[trigger] rows(&g)[yy].len() == w by {
            assert(g@[yy]@.len() == w);
        }
        assert forall|x: int, yy: int| 0 <= x < w && 0 <= yy < h implies #[trigger] rows(&g)[yy][x] == v by {
            assert(g@[yy]@[x] == v);
        }
    }
    g
}

/// The unsettled found cell of least cost, scanning row by row; none when
/// every found cell is settled.
fn pick_nearest(dist: &Vec<Vec<u128>>, done: &Vec<Vec<bool>>, w: usize, h: usize) -> (r: Option<(usize, usize)>)
    requires
        grid_shape(rows(dist), w as int, h as int),
        flags_shape(flags(done), w as int, h as int),
    ensures
        r is None ==> forall|c: (int, int)| #[trigger] found(rows(dist), w as int, h as int, c) ==> flagged(flags(done))(c),
        r matches Some(c) ==> {
            &&& found(rows(dist), w as int, h as int, (c.0 as int, c.1 as int))
            &&& !flagged(flags(done))((c.0 as int, c.1 as int))
            &&& forall|c2: (int, int)|
                #[trigger] found(rows(dist), w as int, h as int, c2) && !flagged(flags(done))(c2)
                    ==> rows(dist)[c.1 as int][c.0 as int] <= rows(dist)[c2.1][c2.0]
        },
{
    let ghost d = rows(dist);
    let ghost f = flags(done);
    let mut best: Option<(usize, usize)> = None;
    let mut bd: u128 = u128::MAX;
    let mut y: usize = 0;
    while y < h
        invariant
            d == rows(dist),
            f == flags(done),
            grid_shape(d, w as int, h as int),
            flags_shape(f, w as int, h as int),
            y <= h,
            best is None ==> bd == u128::MAX,
            best matches Some(c) ==> c.0 < w && c.1 < h && d[c.1 as int][c.0 as int] == bd && bd != u128::MAX
                && !f[c.1 as int][c.0 as int],
            forall|c2: (int, int)|
                #[trigger] found(d, w as int, h as int, c2) && c2.1 < y && !flagged(f)(c2) ==> bd <= d[c2.1][c2.0],
        decreases h - y,
    {
        let mut x: usize = 0;
        proof {
            assert(d[y as int].len() == w);
            assert(f[y as int].len() == w);
        }
        while x < w
            invariant
                d == rows(dist),
                f == flags(done),
                grid_shape(d, w as int, h as int),
                flags_shape(f, w as int, h as int),
                y < h,
                x <= w,
                d[y as int].len() == w,
                f[y as int].len() == w,
                best is None ==> bd == u128::MAX,
                best matches Some(c) ==> c.0 < w && c.1 < h && d[c.1 as int][c.0 as int] == bd && bd != u128::MAX
                    && !f[c.1 as int][c.0 as int],
                forall|c2: (int, int)|
                    #[trigger] found(d, w as int, h as int, c2) && (c2.1 < y || (c2.1 == y && c2.0 < x)) && !flagged(f)(c2)
                        ==> bd <= d[c2.1][c2.0],
            decreases w - x,
        {
            proof {
                assert(rows(dist)[y as int][x as int] == dist@[y as int]@[x as int]);
                assert(flags(done)[y as int][x as int] == done@[y as int]@[x as int]);
            }
            if !done[y][x] && dist[y][x] < bd {
                best = Some((x, y));
                bd = dist[y][x];
            }
            x = x + 1;
        }
        y = y + 1;
    }
    proof {
        if best is None {
            assert forall|c: (int, int)| #[trigger] found(d, w as int, h as int, c) implies flagged(f)(c) by {
                if !flagged(f)(c) {
                    assert(bd <= d[c.1][c.0]);
                }
            }
        }
    }
    best
}

proof fn lemma_costs_fall_trans(d0: Seq<Seq<u128>>, d1: Seq<Seq<u128>>, d2: Seq<Seq<u128>>, w: int, h: int, cap: int)
    requires
        costs_fall(d0, d1, w, h, cap),
        costs_fall(d1, d2, w, h, cap),
    ensures
        costs_fall(d0, d2, w, h, cap),
{
    assert forall|c: (int, int)| #[trigger] found(d0, w, h, c) implies found(d2, w, h, c) && d2[c.1][c.0] <= d0[c.1][c.0] by {
        assert(found(d1, w, h, c));
    }
    assert forall|c: (int, int)| #[trigger] found(d2, w, h, c) implies (found(d0, w, h, c) && d2[c.1][c.0] == d0[c.1][c.0])
        || d2[c.1][c.0] <= cap by {
        if found(d1, w, h, c) && d2[c.1][c.0] == d1[c.1][c.0] {
            assert(found(d1, w, h, c));
        }
    }
}

/// The state of the search: the costs and links are sound, the goal costs
/// nothing, every settled cell is found and so is every walkable neighbour
/// of one, and costs stay below ten times the number of cells settled.
pub open spec fn search_state(
    vv: Seq<Seq<bool>>,
    d: Seq<Seq<u128>>,
    n: Seq<Seq<(usize, usize)>>,
    f: Seq<Seq<bool>>,
    w: int,
    h: int,
    goal: (int, int),
    settled: int,
) -> bool {
    &&& grid_shape(d, w, h)
    &&& grid_shape(n, w, h)
    &&& flags_shape(f, w, h)
    &&& links_ok(vv, d, n, w, h, goal)
    &&& found(d, w, h, goal)
    &&& d[goal.1][goal.0] == 0
    &&& forall|c: (int, int)| #[trigger] flagged(f)(c) ==> found(d, w, h, c)
    &&& forall|c: (int, int), m: (int, int)|
        #![trigger flagged(f)(c), flagged(vv)(m)]
        flagged(f)(c) && flagged(vv)(m) && adj(c, m) ==> found(d, w, h, m)
    &&& forall|c: (int, int)| #[trigger] found(d, w, h, c) ==> d[c.1][c.0] <= 10 * settled
    &&& 0 <= settled
    &&& settled + sum_false(f) == w * h
}

/// What makes the search cheapest-first: the goal is settled before any
/// other cell is found; settled cells cost no more than unsettled found
/// ones; a found cell other than the goal links to a settled cell and costs
/// exactly that cell's cost plus the cost of entering it; every walkable
/// neighbour of a settled cell is found, at no more than the settled cell's
/// cost plus its entry cost; and a settled cell costs no more than any walk
/// from it to the goal.
pub open spec fn cheapest_state(
    vv: Seq<Seq<bool>>,
    ss: Seq<Seq<bool>>,
    d: Seq<Seq<u128>>,
    n: Seq<Seq<(usize, usize)>>,
    f: Seq<Seq<bool>>,
    w: int,
    h: int,
    goal: (int, int),
) -> bool {
    &&& flagged(f)(goal) || forall|c: (int, int)| #[trigger] found(d, w, h, c) ==> c == goal
    &&& forall|s: (int, int), u: (int, int)|
        #![trigger flagged(f)(s), found(d, w, h, u)]
        flagged(f)(s) && found(d, w, h, u) && !flagged(f)(u) ==> d[s.1][s.0] <= d[u.1][u.0]
    &&& forall|c: (int, int)|
        #[trigger] found(d, w, h, c) ==> c == goal || (flagged(f)(link_of(n, c)) && d[c.1][c.0] == d[link_of(n, c).1][link_of(
            n,
            c,
        ).0] + enter_cost(ss, link_of(n, c)))
    &&& forall|s: (int, int), u: (int, int)|
        #![trigger flagged(f)(s), flagged(vv)(u)]
        flagged(f)(s) && flagged(vv)(u) && adj(s, u) ==> found(d, w, h, u) && d[u.1][u.0] <= d[s.1][s.0] + enter_cost(ss, s)
    &&& forall|s: (int, int), cs: Seq<(int, int)>|
        #![trigger flagged(f)(s), is_path(walkable_in(vv), cs)]
        flagged(f)(s) && is_path(walkable_in(vv), cs) && cs[0] == s && cs.last() == goal ==> d[s.1][s.0] <= walk_cost(ss, cs)
}

/// The cell settled next costs no more than any walk from it to the goal:
/// by induction from the end of the walk, a settled cell `cs[i]` costs no
/// more than the rest of the walk, and an unsettled one is no cheaper than
/// the cell settled next.
proof fn lemma_settle_cheapest(
    vv: Seq<Seq<bool>>,
    ss: Seq<Seq<bool>>,
    d: Seq<Seq<u128>>,
    n: Seq<Seq<(usize, usize)>>,
    f: Seq<Seq<bool>>,
    w: int,
    h: int,
    goal: (int, int),
    cur: (int, int),
    cs: Seq<(int, int)>,
    i: int,
)
    requires
        cheapest_state(vv, ss, d, n, f, w, h, goal),
        flagged(f)(goal),
        found(d, w, h, goal),
        d[goal.1][goal.0] == 0,
        found(d, w, h, cur),
        !flagged(f)(cur),
        forall|c2: (int, int)| #[trigger] found(d, w, h, c2) && !flagged(f)(c2) ==> d[cur.1][cur.0] <= d[c2.1][c2.0],
        is_path(walkable_in(vv), cs),
        cs.last() == goal,
        0 <= i < cs.len(),
    ensures
        flagged(f)(cs[i]) ==> d[cs[i].1][cs[i].0] <= walk_cost(ss, cs.skip(i)),
        !flagged(f)(cs[i]) ==> d[cur.1][cur.0] <= walk_cost(ss, cs.skip(i)),
    decreases cs.len() - i,
{
    let rest = cs.skip(i);
    assert(is_path(walkable_in(vv), rest)) by {
        assert forall|k: int| 0 <= k < rest.len() implies #[trigger] walkable_in(vv)(rest[k]) by {
            assert(rest[k] == cs[i + k]);
        }
        assert forall|k: int| 0 <= k < rest.len() - 1 implies adj(#[trigger] rest[k], rest[k + 1]) by {
            assert(rest[k] == cs[i + k] && rest[k + 1] == cs[i + k + 1]);
            assert(adj(cs[i + k], cs[i + k + 1]));
        }
    }
    assert(rest[0] == cs[i]);
    assert(rest.last() == goal);
    if i == cs.len() - 1 {
        assert(cs[i] == goal);
    } else {
        lemma_settle_cheapest(vv, ss, d, n, f, w, h, goal, cur, cs, i + 1);
        lemma_walk_cost_skip(ss, cs, i);
        if !flagged(f)(cs[i]) {
            assert(walkable_in(vv)(cs[i]));
            assert(adj(cs[i], cs[i + 1]));
            if flagged(f)(cs[i + 1]) {
                assert(found(d, w, h, cs[i]));
                assert(d[cur.1][cur.0] <= d[cs[i].1][cs[i].0]);
            } else {
                assert(enter_cost(ss, cs[i + 1]) >= 0);
            }
        }
    }
}

/// Settling `cur` and lowering its neighbours to `cand` keeps the search
/// cheapest-first.
proof fn lemma_settle_step(
    vv: Seq<Seq<bool>>,
    ss: Seq<Seq<bool>>,
    d0: Seq<Seq<u128>>,
    n0: Seq<Seq<(usize, usize)>>,
    f0: Seq<Seq<bool>>,
    d4: Seq<Seq<u128>>,
    n4: Seq<Seq<(usize, usize)>>,
    f: Seq<Seq<bool>>,
    w: int,
    h: int,
    goal: (int, int),
    cur: (usize, usize),
    cand: int,
)
    requires
        cheapest_state(vv, ss, d0, n0, f0, w, h, goal),
        found(d0, w, h, goal),
        d0[goal.1][goal.0] == 0,
        found(d0, w, h, (cur.0 as int, cur.1 as int)),
        !flagged(f0)((cur.0 as int, cur.1 as int)),
        forall|c2: (int, int)|
            #[trigger] found(d0, w, h, c2) && !flagged(f0)(c2) ==> d0[cur.1 as int][cur.0 as int] <= d0[c2.1][c2.0],
        forall|c: (int, int)| #[trigger] flagged(f)(c) == (flagged(f0)(c) || c == (cur.0 as int, cur.1 as int)),
        forall|c: (int, int)| #[trigger] flagged(f0)(c) ==> found(d0, w, h, c),
        cand == d0[cur.1 as int][cur.0 as int] + enter_cost(ss, (cur.0 as int, cur.1 as int)),
        cand < u128::MAX,
        enter_cost(ss, (cur.0 as int, cur.1 as int)) >= 1,
        lowered_to(d0, n0, d4, n4, w, h, cand, cur),
        forall|m: (int, int)|
            #[trigger] flagged(vv)(m) && adj((cur.0 as int, cur.1 as int), m) ==> found(d4, w, h, m) && d4[m.1][m.0] <= cand,
    ensures
        cheapest_state(vv, ss, d4, n4, f, w, h, goal),
{
    let cc = (cur.0 as int, cur.1 as int);
    let dc = d0[cc.1][cc.0];
    // settled cells keep their cost and link
    assert forall|s: (int, int)| #[trigger] flagged(f)(s) implies found(d4, w, h, s) && d4[s.1][s.0] == d0[s.1][s.0]
        && n4[s.1][s.0] == n0[s.1][s.0] by {
        assert(on_board(w, h, s));
        if s != cc {
            assert(flagged(f0)(s));
            assert(found(d0, w, h, s));
            assert(d0[s.1][s.0] <= dc);
        }
    }
    // found cells stay found, at no higher cost
    assert forall|c: (int, int)| #[trigger] found(d0, w, h, c) implies found(d4, w, h, c) && d4[c.1][c.0] <= d0[c.1][c.0] by {
        assert(on_board(w, h, c));
    }
    assert(flagged(f)(goal) || forall|c: (int, int)| #[trigger] found(d4, w, h, c) ==> c == goal) by {
        if cc != goal {
            assert(flagged(f0)(goal));
        }
    }
    assert forall|s: (int, int), u: (int, int)|
        #![trigger flagged(f)(s), found(d4, w, h, u)]
        flagged(f)(s) && found(d4, w, h, u) && !flagged(f)(u) implies d4[s.1][s.0] <= d4[u.1][u.0] by {
        assert(on_board(w, h, u));
        if s != cc {
            assert(flagged(f0)(s));
            assert(d0[s.1][s.0] <= dc);
        }
        if d4[u.1][u.0] == d0[u.1][u.0] {
            assert(found(d0, w, h, u));
            assert(!flagged(f0)(u));
            assert(dc <= d0[u.1][u.0]);
        }
    }
    assert forall|c: (int, int)|
        #[trigger] found(d4, w, h, c) implies c == goal || (flagged(f)(link_of(n4, c)) && d4[c.1][c.0] == d4[link_of(
            n4,
            c,
        ).1][link_of(n4, c).0] + enter_cost(ss, link_of(n4, c))) by {
        assert(on_board(w, h, c));
        if c != goal {
            if d4[c.1][c.0] == d0[c.1][c.0] && n4[c.1][c.0] == n0[c.1][c.0] {
                assert(found(d0, w, h, c));
                let p = link_of(n0, c);
                assert(flagged(f0)(p));
                assert(flagged(f)(p));
                assert(link_of(n4, c) == p);
            } else {
                assert(n4[c.1][c.0] == cur);
                assert(link_of(n4, c) == cc);
                assert(flagged(f)(cc));
            }
        }
    }
    assert forall|s: (int, int), u: (int, int)|
        #![trigger flagged(f)(s), flagged(vv)(u)]
        flagged(f)(s) && flagged(vv)(u) && adj(s, u) implies found(d4, w, h, u) && d4[u.1][u.0] <= d4[s.1][s.0] + enter_cost(
            ss,
            s,
        ) by {
        if s == cc {
            assert(flagged(vv)(u) && adj(cc, u));
        } else {
            assert(flagged(f0)(s));
            assert(found(d0, w, h, u));
        }
    }
    assert forall|s: (int, int), cs: Seq<(int, int)>|
        #![trigger flagged(f)(s), is_path(walkable_in(vv), cs)]
        flagged(f)(s) && is_path(walkable_in(vv), cs) && cs[0] == s && cs.last() == goal implies d4[s.1][s.0] <= walk_cost(
            ss,
            cs,
        ) by {
        if s == cc {
            if cc == goal {
                lemma_walk_cost_nonneg(ss, cs);
            } else {
                assert(flagged(f0)(goal));
                lemma_settle_cheapest(vv, ss, d0, n0, f0, w, h, goal, cc, cs, 0);
                assert(cs.skip(0) =~= cs);
            }
        } else {
            assert(flagged(f0)(s));
        }
    }
}

/// No walk from `start` to `goal` over the walkable cells costs less than
/// the walk `p` (the tiles after the start).
pub open spec fn cheapest_walk(vv: Seq<Seq<bool>>, ss: Seq<Seq<bool>>, start: TilePos, goal: TilePos, p: Seq<TilePos>) -> bool {
    forall|cs: Seq<(int, int)>|
        #![trigger is_path(walkable_in(vv), cs)]
        is_path(walkable_in(vv), cs) && cs[0] == cell_of(start) && cs.last() == cell_of(goal) ==> walk_cost(
            ss,
            seq![cell_of(start)] + tile_cells(p),
        ) <= walk_cost(ss, cs)
}

/// A cheapest walk from `start` to `goal` over the walkable cells of
/// `walkable` (4-way steps), where entering a cell marked in `slow` costs 10
/// and any other cell 1: the tiles after the start, ending at the goal (none
/// when the start is the goal). There is one exactly when the goal can be
/// reached.
pub fn find_cheapest_path(walkable: &Vec<Vec<bool>>, slow: &Vec<Vec<bool>>, start: TilePos, goal: TilePos) -> (r: Option<Vec<TilePos>>)
    requires
        walk_grid_wf(flags(walkable)),
        flags_shape(flags(slow), flags(walkable)[0].len() as int, flags(walkable).len() as int),
    ensures
        r is Some == reachable(walkable_in(flags(walkable)), cell_of(start), cell_of(goal)),
        r matches Some(p) ==> leads(flags(walkable), start, goal, p@),
        r matches Some(p) ==> cheapest_walk(flags(walkable), flags(slow), start, goal, p@),
{
    let ghost vv = flags(walkable);
    let ghost ss = flags(slow);
    let ghost walk = walkable_in(vv);
    let h = walkable.len();
    let w = walkable[0].len();
    proof {
        assert(vv[0].len() == w);
    }
    let goal_in = 0 <= goal.x && (goal.x as usize) < w && 0 <= goal.y && (goal.y as usize) < h;
    let start_in = 0 <= start.x && (start.x as usize) < w && 0 <= start.y && (start.y as usize) < h;
    if !goal_in || !start_in {
        proof {
            if reachable(walk, cell_of(start), cell_of(goal)) {
                lemma_reach_ends(walk, cell_of(start), cell_of(goal));
            }
        }
        return None;
    }
    let gx = goal.x as usize;
    let gy = goal.y as usize;
    let sx = start.x as usize;
    let sy = start.y as usize;
    proof {
        assert(vv[gy as int].len() == w);
        assert(vv[sy as int].len() == w);
    }
    if !walkable[gy][gx] {
        proof {
            if reachable(walk, cell_of(start), cell_of(goal)) {
                lemma_reach_ends(walk, cell_of(start), cell_of(goal));
            }
        }
        return None;
    }
    let ghost g = (gx as int, gy as int);
    let mut dist = filled(w, h, u128::MAX);
    let mut link = filled(w, h, (0usize, 0usize));
    let mut done = new_flags(w, h);
    proof {
        assert(rows(&dist)[gy as int].len() == w);
    }
    let ghost d_init = rows(&dist);
    dist[gy][gx] = 0;
    let ghost mut settled: int = 0;
    proof {
        let d = rows(&dist);
        assert(d =~= d_init.update(gy as int, d_init[gy as int].update(gx as int, 0)));
        assert forall|yy: int| 0 <= yy < h implies #[trigger] d[yy].len() == w by {
            assert(d_init[yy].len() == w);
        }
        assert forall|c: (int, int)| found(d, w as int, h as int, c) implies c == g by {
            if c != g {
                assert(d[c.1][c.0] == d_init[c.1][c.0]);
            }
        }
        assert forall|c: (int, int)| #[trigger] link_ok(vv, d, rows(&link), w as int, h as int, g, c) by {
            if found(d, w as int, h as int, c) {
                assert(c == g);
            }
        }
        assert forall|x: int, y: int| 0 <= y < h && 0 <= x < w implies !#[trigger] flags(&done)[y][x] by {
            assert(!flagged(flags(&done))((x, y)));
        }
        crate::counting::lemma_sum_false_all(flags(&done), w as int, h as int);
        assert(cheapest_state(vv, ss, d, rows(&link), flags(&done), w as int, h as int, g));
    }
    loop
        invariant
            vv == flags(walkable),
            walk == walkable_in(vv),
            walk_grid_wf(vv),
            w == vv[0].len(),
            h == vv.len(),
            gx < w,
            gy < h,
            g == (gx as int, gy as int),
            flags_shape(flags(slow), w as int, h as int),
            search_state(vv, rows(&dist), rows(&link), flags(&done), w as int, h as int, g, settled),
            ss == flags(slow),
            cheapest_state(vv, ss, rows(&dist), rows(&link), flags(&done), w as int, h as int, g),
        ensures
            forall|c: (int, int)| #[trigger] found(rows(&dist), w as int, h as int, c) ==> flagged(flags(&done))(c),
        decreases sum_false(flags(&done)),
    {
        let pick = pick_nearest(&dist, &done, w, h);
        match pick {
            None => {
                break;
            },
            Some(cur) => {
                let cx = cur.0;
                let cy = cur.1;
                let ghost d0 = rows(&dist);
                let ghost n0 = rows(&link);
                let ghost f0 = flags(&done);
                let ghost cc = (cx as int, cy as int);
                proof {
                    lemma_flag_update(f0, w as int, h as int, cx as int, cy as int);
                    assert(d0[cy as int].len() == w);
                    assert(flags(slow)[cy as int].len() == w);
                    assert(d0[cy as int][cx as int] <= 10 * settled);
                    assert(w * h <= 0x4000_0000_0000_0000) by (nonlinear_arith)
                        requires
                            w <= 0x7fff_ffff,
                            h <= 0x7fff_ffff,
                    ;
                }
                done[cy][cx] = true;
                proof {
                    assert(flags(&done) =~= f0.update(cy as int, f0[cy as int].update(cx as int, true)));
                    settled = settled + 1;
                }
                let cost: u128 = if slow[cy][cx] {
                    10
                } else {
                    1
                };
                let cand: u128 = dist[cy][cx] + cost;
                proof {
                    assert(ss[cy as int][cx as int] == slow@[cy as int]@[cx as int]);
                    assert(cand == d0[cy as int][cx as int] + enter_cost(ss, cc));
                }
                relax(&mut dist, &mut link, walkable, (gx, gy), cur, cand, cx as i64 - 1, cy as i64);
                let ghost d1 = rows(&dist);
                let ghost n1 = rows(&link);
                relax(&mut dist, &mut link, walkable, (gx, gy), cur, cand, cx as i64 + 1, cy as i64);
                let ghost d2 = rows(&dist);
                let ghost n2 = rows(&link);
                relax(&mut dist, &mut link, walkable, (gx, gy), cur, cand, cx as i64, cy as i64 - 1);
                let ghost d3 = rows(&dist);
                let ghost n3 = rows(&link);
                relax(&mut dist, &mut link, walkable, (gx, gy), cur, cand, cx as i64, cy as i64 + 1);
                proof {
                    let d4 = rows(&dist);
                    let n4 = rows(&link);
                    lemma_lowered_trans(d2, n2, d3, n3, d4, n4, w as int, h as int, cand as int, cur);
                    lemma_lowered_trans(d1, n1, d2, n2, d4, n4, w as int, h as int, cand as int, cur);
                    lemma_lowered_trans(d0, n0, d1, n1, d4, n4, w as int, h as int, cand as int, cur);
                    let f = flags(&done);
                    let wi = w as int;
                    let hi = h as int;
                    lemma_costs_fall_trans(d2, d3, d4, wi, hi, cand as int);
                    lemma_costs_fall_trans(d1, d2, d4, wi, hi, cand as int);
                    lemma_costs_fall_trans(d0, d1, d4, wi, hi, cand as int);
                    assert(found(d4, wi, hi, g));
                    assert forall|c: (int, int)| #[trigger] flagged(f)(c) implies found(d4, wi, hi, c) by {
                        assert(found(d0, wi, hi, c));
                    }
                    assert forall|c: (int, int), m: (int, int)|
                        #![trigger flagged(f)(c), flagged(vv)(m)]
                        flagged(f)(c) && flagged(vv)(m) && adj(c, m) implies found(d4, wi, hi, m) by {
                        if c == cc {
                            if m == (cc.0 - 1, cc.1) {
                                assert(found(d1, wi, hi, m));
                            } else if m == (cc.0 + 1, cc.1) {
                                assert(found(d2, wi, hi, m));
                            } else if m == (cc.0, cc.1 - 1) {
                                assert(found(d3, wi, hi, m));
                            }
                        } else {
                            assert(flagged(f0)(c));
                            assert(found(d0, wi, hi, m));
                        }
                    }
                    assert forall|c: (int, int)| #[trigger] found(d4, wi, hi, c) implies d4[c.1][c.0] <= 10 * settled by {
                        if found(d0, wi, hi, c) && d4[c.1][c.0] == d0[c.1][c.0] {
                            assert(found(d0, wi, hi, c));
                        }
                    }
                    assert forall|m: (int, int)|
                        #[trigger] flagged(vv)(m) && adj(cc, m) implies found(d4, wi, hi, m) && d4[m.1][m.0] <= cand by {
                        if m == (cc.0 - 1, cc.1) {
                            assert(found(d1, wi, hi, m));
                        } else if m == (cc.0 + 1, cc.1) {
                            assert(found(d2, wi, hi, m));
                        } else if m == (cc.0, cc.1 - 1) {
                            assert(found(d3, wi, hi, m));
                        }
                    }
                    assert(d0[gy as int][gx as int] == 0);
                    lemma_settle_step(vv, ss, d0, n0, f0, d4, n4, f, wi, hi, g, cur, cand as int);
                }
            },
        }
    }
    let ghost d = rows(&dist);
    let ghost reached_fn = |c: (int, int)| found(d, w as int, h as int, c);
    proof {
        assert(closed_under_steps(walk, reached_fn)) by {
            assert forall|c: (int, int), m: (int, int)|
                #![trigger reached_fn(c), reached_fn(m)]
                reached_fn(c) && walk(m) && adj(c, m) implies reached_fn(m) by {
                assert(flagged(flags(&done))(c));
                assert(flagged(vv)(m));
            }
        }
        assert(rows(&dist)[sy as int].len() == w);
    }
    if dist[sy][sx] == u128::MAX {
        proof {
            if reachable(walk, cell_of(start), cell_of(goal)) {
                lemma_reach_symmetric(walk, cell_of(start), cell_of(goal));
                lemma_closed_holds_reachable(walk, reached_fn, g, cell_of(start));
            }
        }
        return None;
    }
    let ghost nl = rows(&link);
    let ghost dstart = d[sy as int][sx as int];
    let mut path: Vec<TilePos> = Vec::new();
    let mut cx = sx;
    let mut cy = sy;
    proof {
        assert(is_path(walk, seq![cell_of(start)] + tile_cells(path@))) by {
            assert(seq![cell_of(start)] + tile_cells(path@) =~= seq![cell_of(start)]);
            assert(link_ok(vv, d, rows(&link), w as int, h as int, g, cell_of(start)));
        }
    }
    while cx != gx || cy != gy
        invariant
            vv == flags(walkable),
            walk == walkable_in(vv),
            w == vv[0].len(),
            h == vv.len(),
            w <= i32::MAX,
            h <= i32::MAX,
            d == rows(&dist),
            g == (gx as int, gy as int),
            links_ok(vv, d, rows(&link), w as int, h as int, g),
            grid_shape(rows(&link), w as int, h as int),
            found(d, w as int, h as int, (cx as int, cy as int)),
            is_path(walk, seq![cell_of(start)] + tile_cells(path@)),
            (seq![cell_of(start)] + tile_cells(path@)).last() == (cx as int, cy as int),
            nl == rows(&link),
            ss == flags(slow),
            cheapest_state(vv, ss, d, nl, flags(&done), w as int, h as int, g),
            walk_cost(ss, seq![cell_of(start)] + tile_cells(path@)) + d[cy as int][cx as int] == dstart,
        decreases d[cy as int][cx as int],
    {
        let ghost here = (cx as int, cy as int);
        proof {
            assert(link_ok(vv, d, rows(&link), w as int, h as int, g, here));
            assert(rows(&link)[cy as int].len() == w);
        }
        let next = link[cy][cx];
        let ghost before = seq![cell_of(start)] + tile_cells(path@);
        let step = TilePos::new(next.0 as i32, next.1 as i32);
        path.push(step);
        proof {
            let p = link_of(rows(&link), here);
            assert(p == (next.0 as int, next.1 as int));
            assert(link_ok(vv, d, rows(&link), w as int, h as int, g, p));
            assert(cell_of(step) == p);
            let after = seq![cell_of(start)] + tile_cells(path@);
            assert(after =~= before.push(p));
            lemma_walk_cost_push(ss, before, p);
            assert(found(d, w as int, h as int, here));
            assert forall|i: int| 0 <= i < after.len() implies #[trigger] walk(after[i]) by {
                if i < before.len() {
                    assert(after[i] == before[i]);
                }
            }
            assert forall|i: int| 0 <= i < after.len() - 1 implies adj(#[trigger] after[i], after[i + 1]) by {
                if i < before.len() - 1 {
                    assert(after[i] == before[i] && after[i + 1] == before[i + 1]);
                    assert(adj(before[i], before[i + 1]));
                }
            }
        }
        cx = next.0;
        cy = next.1;
    }
    proof {
        let cs = seq![cell_of(start)] + tile_cells(path@);
        assert(cs[0] == cell_of(start));
        assert(cs.last() == cell_of(goal));
        assert(walk_cost(ss, cs) == dstart);
        assert(flagged(flags(&done))(cell_of(start)));
        assert forall|cs2: Seq<(int, int)>|
            #![trigger is_path(walkable_in(flags(walkable)), cs2)]
            is_path(walkable_in(flags(walkable)), cs2) && cs2[0] == cell_of(start) && cs2.last() == cell_of(goal)
                implies walk_cost(ss, cs) <= walk_cost(ss, cs2) by {
            assert(is_path(walkable_in(vv), cs2));
        }
    }
    Some(path)
}

} // verus!
