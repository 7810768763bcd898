//! Room detection and shape validation: flood fills over claimed tiles.
use vstd::prelude::*;
use crate::tiles::TilePos;
use crate::paths::{adj, reachable, closed_under_steps, lemma_reach_refl, lemma_reach_step,
    lemma_reach_symmetric, lemma_reach_trans, lemma_closed_holds_reachable};
use crate::connectivity::{cell_of, lists_cell, distinct_positions, open_cell, open_in, flags, flagged,
    flags_shape, types_shape, scan_before, is_region_of, flood_fill_region, new_flags};
use crate::tiles::{TileState, Ownership, str_eq, owned, is_solid_type, fresh_tile};
use crate::grid::{Grid, cells, types, grid_wf, width, height};
use crate::counting::{count_false, lemma_count_false_update};

verus! {

/// Membership in a list of tiles, as a region of the plane.
pub open spec fn in_tiles(ps: Seq<TilePos>) -> spec_fn((int, int)) -> bool {
    |c: (int, int)| lists_cell(ps, c)
}

/// Every tile of the list can be reached from every other through tiles of
/// the list.
pub open spec fn tiles_connected(ps: Seq<TilePos>) -> bool {
    forall|a: (int, int), b: (int, int)|
        #![trigger lists_cell(ps, a), lists_cell(ps, b)]
        lists_cell(ps, a) && lists_cell(ps, b) ==> reachable(in_tiles(ps), a, b)
}

fn index_of(tiles: &Vec<TilePos>, x: i64, y: i64) -> (r: Option<usize>)
    ensures
        r is Some ==> r->0 < tiles@.len() && cell_of(tiles@[r->0 as int]) == (x as int, y as int),
        r is None ==> !lists_cell(tiles@, (x as int, y as int)),
{
    let mut i: usize = 0;
    while i < tiles.len()
        invariant
            i <= tiles@.len(),
            forall|k: int| 0 <= k < i ==> cell_of(#[trigger] tiles@[k]) != (x as int, y as int),
        decreases tiles@.len() - i,
    {
        if tiles[i].x as i64 == x && tiles[i].y as i64 == y {
            return Some(i);
        }
        i = i + 1;
    }
    None
}

/// Index `j` is listed in the queue.
pub open spec fn in_queue(q: Seq<usize>, j: int) -> bool {
    exists|k: int| 0 <= k < q.len() && q[k] as int == j
}

/// Breadth-first search state over the indices of a tile list.
pub open spec fn tile_bfs(ps: Seq<TilePos>, q: Seq<usize>, v: Seq<bool>) -> bool {
    &&& v.len() == ps.len()
    &&& q.len() > 0
    &&& q[0] == 0
    &&& forall|a: int, b: int| 0 <= a < b < q.len() ==> q[a] != q[b]
    &&& forall|k: int|
        0 <= k < q.len() ==> (#[trigger] q[k]) < ps.len() && reachable(in_tiles(ps), cell_of(ps[0]), cell_of(ps[q[k] as int]))
    &&& forall|j: int| 0 <= j < ps.len() ==> #[trigger] v[j] == in_queue(q, j)
    &&& count_false(v) + q.len() == ps.len()
}

fn visit(tiles: &Vec<TilePos>, visited: &mut Vec<bool>, queue: &mut Vec<usize>, x: i64, y: i64, Ghost(from): Ghost<int>)
    requires
        distinct_positions(tiles@),
        tile_bfs(tiles@, old(queue)@, old(visited)@),
        0 <= from < tiles@.len(),
        in_queue(old(queue)@, from),
        adj(cell_of(tiles@[from]), (x as int, y as int)),
    ensures
        tile_bfs(tiles@, final(queue)@, final(visited)@),
        forall|j: int| 0 <= j < tiles@.len() && #[trigger] old(visited)@[j] ==> final(visited)@[j],
        forall|j: int| 0 <= j < tiles@.len() && cell_of(#[trigger] tiles@[j]) == (x as int, y as int) ==> final(visited)@[j],
        final(queue)@.len() >= old(queue)@.len(),
        forall|k: int| 0 <= k < old(queue)@.len() ==> #[trigger] final(queue)@[k] == old(queue)@[k],
{
    let ghost ps = tiles@;
    let ghost q0 = queue@;
    let ghost v0 = visited@;
    match index_of(tiles, x, y) {
        Some(j) => {
            if !visited[j] {
                proof {
                    lemma_count_false_update(v0, j as int);
                    let k = choose|k: int| 0 <= k < q0.len() && q0[k] as int == from;
                    assert(reachable(in_tiles(ps), cell_of(ps[0]), cell_of(ps[from])));
                    assert(lists_cell(ps, cell_of(ps[j as int])));
                    lemma_reach_step(in_tiles(ps), cell_of(ps[0]), cell_of(ps[from]), cell_of(ps[j as int]));
                }
                visited.set(j, true);
                queue.push(j);
                proof {
                    assert forall|a: int, b: int| 0 <= a < b < queue@.len() implies queue@[a] != queue@[b] by {
                        if b == q0.len() && queue@[a] == queue@[b] {
                            assert(in_queue(q0, j as int));
                        }
                    }
                    assert forall|i: int| 0 <= i < ps.len() implies #[trigger] visited@[i] == in_queue(queue@, i) by {
                        if i == j {
                            assert(queue@[q0.len() as int] == j);
                        } else {
                            if in_queue(queue@, i) {
                                let k = choose|k: int| 0 <= k < queue@.len() && queue@[k] as int == i;
                                assert(k < q0.len());
                                assert(q0[k] == queue@[k]);
                            }
                            if in_queue(q0, i) {
                                let k = choose|k: int| 0 <= k < q0.len() && q0[k] as int == i;
                                assert(queue@[k] == q0[k]);
                            }
                        }
                    }
                    assert forall|k: int| 0 <= k < queue@.len() implies (#[trigger] queue@[k]) < ps.len()
                        && reachable(in_tiles(ps), cell_of(ps[0]), cell_of(ps[queue@[k] as int])) by {
                        if k < q0.len() {
                            assert(queue@[k] == q0[k]);
                        }
                    }
                }
            }
            proof {
                assert forall|i: int| 0 <= i < ps.len() && cell_of(#[trigger] ps[i]) == (x as int, y as int) implies visited@[i] by {
                    if i != j {
                        assert(ps[i] != ps[j as int]);
                        assert(false);
                    }
                }
            }
        },
        None => {
            proof {
                assert forall|i: int| 0 <= i < ps.len() && cell_of(#[trigger] ps[i]) == (x as int, y as int) implies visited@[i] by {
                    assert(lists_cell(ps, (x as int, y as int)));
                }
            }
        },
    }
}

/// Check if a set of tiles forms a contiguous region: every tile can be
/// reached from every other by edge steps that stay within the set. An empty
/// set is not contiguous.
pub fn is_contiguous(tiles: &Vec<TilePos>) -> (r: bool)
    requires
        distinct_positions(tiles@),
        forall|i: int| 0 <= i < tiles@.len() ==> i32::MIN < (#[trigger] tiles@[i]).x < i32::MAX && i32::MIN < tiles@[i].y < i32::MAX,
    ensures
        r == (tiles@.len() > 0 && tiles_connected(tiles@)),
{
    let ghost ps = tiles@;
    let n = tiles.len();
    if n == 0 {
        return false;
    }
    let ghost start = cell_of(ps[0]);
    let mut visited: Vec<bool> = Vec::new();
    let mut i: usize = 0;
    while i < n
        invariant
            i <= n,
            visited@.len() == i,
            forall|j: int| 0 <= j < i ==> !#[trigger] visited@[j],
        decreases n - i,
    {
        visited.push(false);
        i = i + 1;
    }
    proof {
        lemma_count_false_update(visited@, 0);
        assert(count_false(visited@) == n) by {
            lemma_all_false(visited@);
        }
        assert(lists_cell(ps, start));
        lemma_reach_refl(in_tiles(ps), start);
    }
    visited.set(0, true);
    let mut queue: Vec<usize> = Vec::new();
    queue.push(0);
    proof {
        assert forall|j: int| 0 <= j < ps.len() implies #[trigger] visited@[j] == in_queue(queue@, j) by {
            if j == 0 {
                assert(queue@[0] == 0);
            }
        }
    }
    let mut head: usize = 0;
    while head < queue.len()
        invariant
            ps == tiles@,
            n == ps.len(),
            n > 0,
            start == cell_of(ps[0]),
            distinct_positions(ps),
            forall|i: int| 0 <= i < ps.len() ==> i32::MIN < (#[trigger] ps[i]).x < i32::MAX && i32::MIN < ps[i].y < i32::MAX,
            tile_bfs(ps, queue@, visited@),
            head <= queue@.len(),
            forall|k: int, m: (int, int)|
                #![trigger adj(cell_of(ps[queue@[k] as int]), m)]
                0 <= k < head && adj(cell_of(ps[queue@[k] as int]), m) ==> forall|j: int|
                    0 <= j < n && cell_of(#[trigger] ps[j]) == m ==> visited@[j],
        decreases count_false(visited@) + queue@.len() - head,
    {
        let idx = queue[head];
        let ghost hk = head as int;
        let p = tiles[idx];
        proof {
            assert(in_queue(queue@, idx as int));
        }
        head = head + 1;
        let ghost qa = queue@;
        let ghost va = visited@;
        visit(tiles, &mut visited, &mut queue, p.x as i64 + 1, p.y as i64, Ghost(idx as int));
        proof { assert(in_queue(queue@, idx as int)) by { assert(queue@[hk] == qa[hk]); } }
        let ghost vb = visited@;
        visit(tiles, &mut visited, &mut queue, p.x as i64 - 1, p.y as i64, Ghost(idx as int));
        proof { assert(in_queue(queue@, idx as int)) by { assert(queue@[hk] == qa[hk]); } }
        let ghost vc = visited@;
        visit(tiles, &mut visited, &mut queue, p.x as i64, p.y as i64 + 1, Ghost(idx as int));
        proof { assert(in_queue(queue@, idx as int)) by { assert(queue@[hk] == qa[hk]); } }
        let ghost vd = visited@;
        visit(tiles, &mut visited, &mut queue, p.x as i64, p.y as i64 - 1, Ghost(idx as int));
        proof {
            let cur = cell_of(p);
            assert forall|k: int, m: (int, int)|
                #![trigger adj(cell_of(ps[queue@[k] as int]), m)]
                0 <= k < head && adj(cell_of(ps[queue@[k] as int]), m) implies forall|j: int|
                    0 <= j < n && cell_of(#[trigger] ps[j]) == m ==> visited@[j] by {
                assert(queue@[k] == qa[k]);
                assert forall|j: int| 0 <= j < n && cell_of(#[trigger] ps[j]) == m implies visited@[j] by {
                    if k < hk {
                        assert(va[j]);
                        assert(vb[j]);
                        assert(vc[j]);
                        assert(vd[j]);
                    } else {
                        if m == (cur.0 + 1, cur.1) {
                            assert(vb[j]);
                            assert(vc[j]);
                            assert(vd[j]);
                        } else if m == (cur.0 - 1, cur.1) {
                            assert(vc[j]);
                            assert(vd[j]);
                        } else if m == (cur.0, cur.1 + 1) {
                            assert(vd[j]);
                        }
                    }
                }
            }
        }
    }
    // every tile reached?
    let mut all = true;
    let mut k: usize = 0;
    while k < n
        invariant
            k <= n,
            n == visited@.len(),
            all == forall|j: int| 0 <= j < k ==> #[trigger] visited@[j],
        decreases n - k,
    {
        if !visited[k] {
            all = false;
        }
        k = k + 1;
    }
    proof {
        let inside = in_tiles(ps);
        let s = |c: (int, int)| exists|j: int| 0 <= j < n && cell_of(ps[j]) == c && #[trigger] visited@[j];
        assert forall|c: (int, int), m: (int, int)| #![trigger s(c), s(m)] s(c) && inside(m) && adj(c, m) implies s(m) by {
            let j = choose|j: int| 0 <= j < n && cell_of(ps[j]) == c && #[trigger] visited@[j];
            assert(in_queue(queue@, j));
            let kq = choose|kq: int| 0 <= kq < queue@.len() && queue@[kq] as int == j;
            assert(adj(cell_of(ps[queue@[kq] as int]), m));
            let jm = choose|jm: int| 0 <= jm < ps.len() && cell_of(#[trigger] ps[jm]) == m;
            assert(visited@[jm]);
        }
        assert(s(start)) by {
            assert(visited@[0]) by {
                assert(queue@[0] == 0);
            }
        }
        if all {
            assert forall|a: (int, int), b: (int, int)|
                #![trigger lists_cell(ps, a), lists_cell(ps, b)]
                lists_cell(ps, a) && lists_cell(ps, b) implies reachable(inside, a, b) by {
                let ja = choose|ja: int| 0 <= ja < ps.len() && cell_of(#[trigger] ps[ja]) == a;
                let jb = choose|jb: int| 0 <= jb < ps.len() && cell_of(#[trigger] ps[jb]) == b;
                assert(visited@[ja]);
                assert(visited@[jb]);
                let ka = choose|ka: int| 0 <= ka < queue@.len() && queue@[ka] as int == ja;
                let kb = choose|kb: int| 0 <= kb < queue@.len() && queue@[kb] as int == jb;
                assert(reachable(inside, start, cell_of(ps[queue@[ka] as int])));
                assert(reachable(inside, start, cell_of(ps[queue@[kb] as int])));
                lemma_reach_symmetric(inside, start, a);
                lemma_reach_trans(inside, a, start, b);
            }
        } else {
            let j = choose|j: int| 0 <= j < n && !#[trigger] visited@[j];
            let c = cell_of(ps[j]);
            if tiles_connected(ps) {
                assert(lists_cell(ps, c));
                assert(lists_cell(ps, start));
                lemma_closed_holds_reachable(inside, s, start, c);
                let j2 = choose|j2: int| 0 <= j2 < n && cell_of(ps[j2]) == c && #[trigger] visited@[j2];
                assert(ps[j2] == ps[j]) by {
                    assert(cell_of(ps[j2]) == cell_of(ps[j]));
                }
                if j2 != j {
                    if j2 < j {
                        assert(ps[j2] != ps[j]);
                    } else {
                        assert(ps[j] != ps[j2]);
                    }
                }
            }
        }
    }
    all
}

proof fn lemma_all_false(v: Seq<bool>)
    requires
        forall|j: int| 0 <= j < v.len() ==> !#[trigger] v[j],
    ensures
        count_false(v) == v.len(),
    decreases v.len(),
{
    if v.len() > 0 {
        lemma_all_false(v.drop_last());
    }
}


/// The tile at `p` is on the grid and owned by the player.
pub open spec fn owned_cell(c: Seq<Seq<TileState>>, p: (int, int)) -> bool {
    0 <= p.1 < c.len() && 0 <= p.0 < c[p.1].len() && c[p.1][p.0].ownership == Ownership::Player
}

/// The tile at `p` is a player-owned tile of the given room type.
pub open spec fn room_member(c: Seq<Seq<TileState>>, room_type: Seq<char>, p: (int, int)) -> bool {
    0 <= p.1 < c.len() && 0 <= p.0 < c[p.1].len() && c[p.1][p.0].tile_type@ == room_type
        && c[p.1][p.0].ownership == Ownership::Player
}

/// The tile at `p` is owned by the player and, if a room type is given, of
/// that type.
pub open spec fn mask_member(c: Seq<Seq<TileState>>, room_type: Option<Seq<char>>, p: (int, int)) -> bool {
    match room_type {
        Some(rt) => room_member(c, rt, p),
        None => owned_cell(c, p),
    }
}

/// The optional room type as a sequence of characters.
pub open spec fn opt_view(room_type: Option<&str>) -> Option<Seq<char>> {
    match room_type {
        Some(rt) => Some(rt@),
        None => None,
    }
}

/// The player-owned tiles of a room type, as a region of the plane.
pub open spec fn room_in(c: Seq<Seq<TileState>>, room_type: Seq<char>) -> spec_fn((int, int)) -> bool {
    |p: (int, int)| room_member(c, room_type, p)
}

/// One detected room: non-empty, no tile twice, exactly the room tiles
/// reachable from its first tile, which comes first of them in scan order.
pub open spec fn is_room_of(c: Seq<Seq<TileState>>, room_type: Seq<char>, r: Seq<TilePos>) -> bool {
    &&& r.len() > 0
    &&& distinct_positions(r)
    &&& room_member(c, room_type, cell_of(r[0]))
    &&& forall|p: (int, int)|
        #[trigger] lists_cell(r, p) == (room_member(c, room_type, p) && reachable(
            room_in(c, room_type),
            cell_of(r[0]),
            p,
        ))
    &&& forall|p: (int, int)| #[trigger] lists_cell(r, p) ==> p == cell_of(r[0]) || scan_before(cell_of(r[0]), p)
}

/// A grid of fresh tiles: floor where the given grid holds a player-owned tile
/// (of the room type, if one is given), solid rock elsewhere.
pub(crate) fn room_mask(grid: &Grid, room_type: Option<&str>) -> (mask: Grid)
    requires
        grid_wf(cells(grid)),
    ensures
        grid_wf(cells(&mask)),
        width(cells(&mask)) == width(cells(grid)),
        height(cells(&mask)) == height(cells(grid)),
        forall|p: (int, int)|
            #[trigger] open_cell(types(cells(&mask)), p) == mask_member(cells(grid), opt_view(room_type), p),
{
    let h = grid.len();
    let w = grid[0].len();
    proof {
        reveal_strlit("floor");
        reveal_strlit("solid_rock");
        assert(cells(grid)[0].len() == w);
    }
    let mut mask: Grid = Vec::new();
    let mut y: usize = 0;
    while y < h
        invariant
            grid_wf(cells(grid)),
            h == grid@.len(),
            w == cells(grid)[0].len(),
            y <= h,
            mask@.len() == y,
            forall|yy: int| 0 <= yy < y ==> #[trigger] mask@[yy]@.len() == w,
            forall|x: int, yy: int|
                #![trigger mask@[yy]@[x]]
                0 <= yy < y && 0 <= x < w ==> (is_solid_type(mask@[yy]@[x].tile_type@) == !mask_member(
                    cells(grid),
                    opt_view(room_type),
                    (x, yy),
                )),
        decreases h - y,
    {
        proof {
            assert(cells(grid)[y as int].len() == cells(grid)[0].len());
        }
        let mut row: Vec<TileState> = Vec::new();
        let mut x: usize = 0;
        while x < w
            invariant
                grid_wf(cells(grid)),
                h == grid@.len(),
                w == cells(grid)[0].len(),
                y < h,
                grid@[y as int]@.len() == w,
                x <= w,
                row@.len() == x,
                forall|xx: int|
                    #![trigger row@[xx]]
                    0 <= xx < x ==> (is_solid_type(row@[xx].tile_type@) == !mask_member(
                        cells(grid),
                        opt_view(room_type),
                        (xx, y as int),
                    )),
            decreases w - x,
        {
            let of_type = match room_type {
                Some(rt) => str_eq(grid[y][x].tile_type.as_str(), rt),
                None => true,
            };
            let member = of_type && match grid[y][x].ownership {
                Ownership::Player => true,
                _ => false,
            };
            let tile_type = if member {
                owned("floor")
            } else {
                owned("solid_rock")
            };
            proof {
                crate::tiles::lemma_solid_types();
                assert(cells(grid)[y as int] == grid@[y as int]@);
                assert(member == mask_member(cells(grid), opt_view(room_type), (x as int, y as int)));
                assert(is_solid_type(tile_type@) == !member);
            }
            row.push(TileState::new(tile_type, TilePos::new(x as i32, y as i32)));
            x = x + 1;
        }
        mask.push(row);
        y = y + 1;
    }
    proof {
        assert forall|yy: int| 0 <= yy < cells(&mask).len() implies #[trigger] cells(&mask)[yy].len() == cells(&mask)[0].len() by {
            assert(mask@[yy]@.len() == w);
            assert(mask@[0]@.len() == w);
        }
        assert forall|p: (int, int)| #[trigger] open_cell(types(cells(&mask)), p) == mask_member(cells(grid), opt_view(room_type), p) by {
            if 0 <= p.1 < h && 0 <= p.0 < w {
                assert(mask@[p.1]@[p.0].tile_type@ == types(cells(&mask))[p.1][p.0]);
                assert(cells(grid)[p.1].len() == w);
            } else if 0 <= p.1 < h {
                assert(mask@[p.1]@.len() == w);
                assert(cells(grid)[p.1].len() == w);
            }
        }
    }
    mask
}

/// Detect all rooms of a specific type: the contiguous regions (4-way) of
/// player-owned tiles of that type, in scan order of their first tiles.
pub fn detect_rooms(grid: &Grid, room_type: &str) -> (rooms: Vec<Vec<TilePos>>)
    requires
        grid_wf(cells(grid)),
    ensures
        forall|i: int| 0 <= i < rooms@.len() ==> is_room_of(cells(grid), room_type@, #[trigger] rooms@[i]@),
        forall|p: (int, int)|
            room_member(cells(grid), room_type@, p) ==> exists|i: int|
                0 <= i < rooms@.len() && #[trigger] lists_cell(rooms@[i]@, p),
        forall|i: int, j: int|
            0 <= i < j < rooms@.len() ==> scan_before(cell_of((#[trigger] rooms@[i])@[0]), cell_of((#[trigger] rooms@[j])@[0])),
{
    let mask = room_mask(grid, Some(room_type));
    let ghost t = types(cells(&mask));
    let ghost open = open_in(t);
    let ghost c = cells(grid);
    proof {
        assert(open =~= room_in(c, room_type@));
    }
    let height_n = mask.len();
    let width_n = mask[0].len();
    let ghost w = width_n as int;
    let ghost h = height_n as int;
    proof {
        assert forall|y: int| 0 <= y < h implies #[trigger] t[y].len() == w by {
            assert(cells(&mask)[y].len() == cells(&mask)[0].len());
        }
    }
    let mut visited = new_flags(width_n, height_n);
    let mut rooms: Vec<Vec<TilePos>> = Vec::new();
    let mut y: usize = 0;
    while y < height_n
        invariant
            grid_wf(cells(&mask)),
            t == types(cells(&mask)),
            open == open_in(t),
            height_n == h,
            width_n == w,
            w == width(cells(&mask)),
            h == height(cells(&mask)),
            types_shape(t, w, h),
            y <= h,
            flags_shape(flags(&visited), w, h),
            closed_under_steps(open, flagged(flags(&visited))),
            forall|p: (int, int)|
                #[trigger] flagged(flags(&visited))(p) == exists|i: int| 0 <= i < rooms@.len() && #[trigger] lists_cell(rooms@[i]@, p),
            forall|i: int| 0 <= i < rooms@.len() ==> is_region_of(t, #[trigger] rooms@[i]@),
            forall|i: int| 0 <= i < rooms@.len() ==> scan_before(cell_of((#[trigger] rooms@[i])@[0]), (0, y as int)),
            forall|p: (int, int)| open_cell(t, p) && p.1 < y ==> #[trigger] flagged(flags(&visited))(p),
            forall|i: int, j: int| 0 <= i < j < rooms@.len() ==> scan_before(cell_of((#[trigger] rooms@[i])@[0]), cell_of((#[trigger] rooms@[j])@[0])),
        decreases h - y,
    {
        let mut x: usize = 0;
        while x < width_n
            invariant
                grid_wf(cells(&mask)),
                t == types(cells(&mask)),
                open == open_in(t),
                height_n == h,
                width_n == w,
                w == width(cells(&mask)),
                h == height(cells(&mask)),
                types_shape(t, w, h),
                y < h,
                x <= w,
                flags_shape(flags(&visited), w, h),
                closed_under_steps(open, flagged(flags(&visited))),
                forall|p: (int, int)|
                    #[trigger] flagged(flags(&visited))(p) == exists|i: int| 0 <= i < rooms@.len() && #[trigger] lists_cell(rooms@[i]@, p),
                forall|i: int| 0 <= i < rooms@.len() ==> is_region_of(t, #[trigger] rooms@[i]@),
                forall|i: int| 0 <= i < rooms@.len() ==> scan_before(cell_of((#[trigger] rooms@[i])@[0]), (x as int, y as int)),
                forall|p: (int, int)| open_cell(t, p) && scan_before(p, (x as int, y as int)) ==> #[trigger] flagged(flags(&visited))(p),
                forall|i: int, j: int| 0 <= i < j < rooms@.len() ==> scan_before(cell_of((#[trigger] rooms@[i])@[0]), cell_of((#[trigger] rooms@[j])@[0])),
            decreases w - x,
        {
            let ghost cur = (x as int, y as int);
            proof {
                assert(flags(&visited)[y as int].len() == w);
                assert(cells(&mask)[y as int].len() == cells(&mask)[0].len());
            }
            if !visited[y][x] && !crate::tiles::is_solid_tile(mask[y][x].tile_type.as_str()) {
                let ghost before = flags(&visited);
                let ghost old_rooms = rooms@;
                let region = flood_fill_region(&mask, x, y, &mut visited);
                proof {
                    assert forall|p: (int, int)| #[trigger] lists_cell(region@, p) implies p == cur || scan_before(cur, p) by {
                        if !(p == cur || scan_before(cur, p)) {
                            let k = choose|k: int| 0 <= k < region@.len() && cell_of(#[trigger] region@[k]) == p;
                            assert(open_cell(t, p));
                            assert(flagged(before)(p));
                            lemma_reach_symmetric(open, cur, p);
                            lemma_closed_holds_reachable(open, flagged(before), p, cur);
                        }
                    }
                    assert(is_region_of(t, region@));
                }
                let ghost rv = region@;
                rooms.push(region);
                proof {
                    assert(rooms@ == old_rooms.push(rooms@[old_rooms.len() as int]));
                    assert forall|i: int| 0 <= i < rooms@.len() implies is_region_of(t, #[trigger] rooms@[i]@) by {
                        if i < old_rooms.len() {
                            assert(rooms@[i] == old_rooms[i]);
                        }
                    }
                    assert forall|i: int, j: int| 0 <= i < j < rooms@.len() implies scan_before(cell_of((#[trigger] rooms@[i])@[0]), cell_of((#[trigger] rooms@[j])@[0])) by {
                        assert(rooms@[i] == old_rooms[i]);
                        if j < old_rooms.len() {
                            assert(rooms@[j] == old_rooms[j]);
                        }
                    }
                    assert forall|p: (int, int)|
                        #[trigger] flagged(flags(&visited))(p) == exists|i: int| 0 <= i < rooms@.len() && #[trigger] lists_cell(rooms@[i]@, p) by {
                        if flagged(before)(p) {
                            let i = choose|i: int| 0 <= i < old_rooms.len() && #[trigger] lists_cell(old_rooms[i]@, p);
                            assert(rooms@[i] == old_rooms[i]);
                        }
                        if lists_cell(rv, p) {
                            assert(lists_cell(rooms@[old_rooms.len() as int]@, p));
                        }
                        if exists|i: int| 0 <= i < rooms@.len() && #[trigger] lists_cell(rooms@[i]@, p) {
                            let i = choose|i: int| 0 <= i < rooms@.len() && #[trigger] lists_cell(rooms@[i]@, p);
                            if i < old_rooms.len() {
                                assert(rooms@[i] == old_rooms[i]);
                            }
                        }
                    }
                    assert forall|i: int| 0 <= i < rooms@.len() implies scan_before(cell_of((#[trigger] rooms@[i])@[0]), (x as int + 1, y as int)) by {
                        if i < old_rooms.len() {
                            assert(rooms@[i] == old_rooms[i]);
                        }
                    }
                    assert forall|p: (int, int)| open_cell(t, p) && scan_before(p, (x as int + 1, y as int)) implies #[trigger] flagged(flags(&visited))(p) by {
                        if p == cur {
                            lemma_reach_refl(open, cur);
                        } else {
                            assert(flagged(before)(p));
                        }
                    }
                }
            } else {
                proof {
                    assert forall|p: (int, int)| open_cell(t, p) && scan_before(p, (x as int + 1, y as int)) implies #[trigger] flagged(flags(&visited))(p) by {
                        if p == cur {
                            assert(flags(&visited)[y as int][x as int] || !open_cell(t, p));
                        }
                    }
                }
            }
            x = x + 1;
        }
        y = y + 1;
    }
    proof {
        assert forall|i: int| 0 <= i < rooms@.len() implies is_room_of(c, room_type@, #[trigger] rooms@[i]@) by {
            assert(is_region_of(t, rooms@[i]@));
        }
        assert forall|p: (int, int)|
            room_member(c, room_type@, p) implies exists|i: int| 0 <= i < rooms@.len() && #[trigger] lists_cell(rooms@[i]@, p) by {
            assert(open_cell(t, p));
            assert(flagged(flags(&visited))(p));
        }
    }
    rooms
}

/// Why a set of tiles cannot form a room.
#[derive(Clone, Copy, Debug, PartialEq, Eq, Structural)]
pub enum RoomShapeError {
    /// Fewer tiles than the room type's minimum.
    TooSmall { size: u32, min_tiles: u32 },
    /// More tiles than the room type's maximum.
    TooLarge { size: u32, max_tiles: u32 },
    /// The tiles do not form one contiguous region.
    NotContiguous,
}

/// Validate that a set of tiles meets the size and contiguity requirements of
/// a room type; size is checked against the minimum first, then the maximum,
/// then contiguity.
pub fn validate_room_shape(tiles: &Vec<TilePos>, min_tiles: u32, max_tiles: u32) -> (r: Result<(), RoomShapeError>)
    requires
        distinct_positions(tiles@),
        tiles@.len() <= u32::MAX,
        forall|i: int| 0 <= i < tiles@.len() ==> i32::MIN < (#[trigger] tiles@[i]).x < i32::MAX && i32::MIN < tiles@[i].y < i32::MAX,
    ensures
        tiles@.len() < min_tiles ==> r == Err::<(), RoomShapeError>(RoomShapeError::TooSmall { size: tiles@.len() as u32, min_tiles }),
        min_tiles <= tiles@.len() && tiles@.len() > max_tiles ==> r == Err::<(), RoomShapeError>(RoomShapeError::TooLarge { size: tiles@.len() as u32, max_tiles }),
        min_tiles <= tiles@.len() <= max_tiles ==> (r == Err::<(), RoomShapeError>(RoomShapeError::NotContiguous) <==> !(tiles@.len() > 0 && tiles_connected(tiles@))),
        min_tiles <= tiles@.len() <= max_tiles ==> (r is Ok <==> (tiles@.len() > 0 && tiles_connected(tiles@))),
{
    let size = tiles.len() as u32;
    if size < min_tiles {
        return Err(RoomShapeError::TooSmall { size, min_tiles });
    }
    if size > max_tiles {
        return Err(RoomShapeError::TooLarge { size, max_tiles });
    }
    if !is_contiguous(tiles) {
        return Err(RoomShapeError::NotContiguous);
    }
    Ok(())
}

/// The shape of a set of room tiles, in whole numbers: the width and height
/// of its bounding box, its tile count, whether it falls apart, and whether it
/// is a thin corridor. Its aspect ratio is the longer side of the box over the
/// shorter, its compactness the tile count over the box's area.
#[derive(Debug)]
pub struct ShapeMetrics {
    pub width: i64,
    pub height: i64,
    pub tile_count: usize,
    /// The tiles do not form one contiguous region.
    pub is_fragmented: bool,
    /// The aspect ratio exceeds 4:1.
    pub is_thin_corridor: bool,
}

/// The smallest x among the tiles (of a non-empty list).
pub open spec fn min_x(ps: Seq<TilePos>) -> int
    decreases ps.len(),
{
    if ps.len() <= 1 {
        ps[0].x as int
    } else if ps.last().x < min_x(ps.drop_last()) {
        ps.last().x as int
    } else {
        min_x(ps.drop_last())
    }
}

/// The largest x among the tiles (of a non-empty list).
pub open spec fn max_x(ps: Seq<TilePos>) -> int
    decreases ps.len(),
{
    if ps.len() <= 1 {
        ps[0].x as int
    } else if ps.last().x > max_x(ps.drop_last()) {
        ps.last().x as int
    } else {
        max_x(ps.drop_last())
    }
}

/// The smallest y among the tiles (of a non-empty list).
pub open spec fn min_y(ps: Seq<TilePos>) -> int
    decreases ps.len(),
{
    if ps.len() <= 1 {
        ps[0].y as int
    } else if ps.last().y < min_y(ps.drop_last()) {
        ps.last().y as int
    } else {
        min_y(ps.drop_last())
    }
}

/// The largest y among the tiles (of a non-empty list).
pub open spec fn max_y(ps: Seq<TilePos>) -> int
    decreases ps.len(),
{
    if ps.len() <= 1 {
        ps[0].y as int
    } else if ps.last().y > max_y(ps.drop_last()) {
        ps.last().y as int
    } else {
        max_y(ps.drop_last())
    }
}

/// A box with sides `w` and `h` has an aspect ratio above 4:1.
pub open spec fn thin(w: int, h: int) -> bool {
    if w > h {
        w > 4 * h
    } else {
        h > 4 * w
    }
}

/// The metrics of the tiles `ps`; for no tiles a 1 by 1 box, fragmented and
/// not a corridor.
pub open spec fn shape_of(ps: Seq<TilePos>, m: ShapeMetrics) -> bool {
    if ps.len() == 0 {
        m.width == 1 && m.height == 1 && m.tile_count == 0 && m.is_fragmented && !m.is_thin_corridor
    } else {
        &&& m.width == max_x(ps) - min_x(ps) + 1
        &&& m.height == max_y(ps) - min_y(ps) + 1
        &&& m.tile_count == ps.len()
        &&& m.is_fragmented == !tiles_connected(ps)
        &&& m.is_thin_corridor == thin(m.width as int, m.height as int)
    }
}

/// The extremes of the tiles, as (min x, max x, min y, max y).
fn bounds_of(tiles: &Vec<TilePos>) -> (r: (i32, i32, i32, i32))
    requires
        tiles@.len() > 0,
    ensures
        r.0 == min_x(tiles@),
        r.1 == max_x(tiles@),
        r.2 == min_y(tiles@),
        r.3 == max_y(tiles@),
{
    let mut lo_x = tiles[0].x;
    let mut hi_x = tiles[0].x;
    let mut lo_y = tiles[0].y;
    let mut hi_y = tiles[0].y;
    let mut i: usize = 1;
    while i < tiles.len()
        invariant
            1 <= i <= tiles@.len(),
            lo_x == min_x(tiles@.take(i as int)),
            hi_x == max_x(tiles@.take(i as int)),
            lo_y == min_y(tiles@.take(i as int)),
            hi_y == max_y(tiles@.take(i as int)),
        decreases tiles@.len() - i,
    {
        assert(tiles@.take(i + 1).drop_last() =~= tiles@.take(i as int));
        let p = tiles[i];
        if p.x < lo_x {
            lo_x = p.x;
        }
        if p.x > hi_x {
            hi_x = p.x;
        }
        if p.y < lo_y {
            lo_y = p.y;
        }
        if p.y > hi_y {
            hi_y = p.y;
        }
        i = i + 1;
    }
    assert(tiles@.take(tiles@.len() as int) =~= tiles@);
    (lo_x, hi_x, lo_y, hi_y)
}

/// The smallest x is at most the largest, and so for y.
proof fn lemma_bounds_ordered(ps: Seq<TilePos>)
    requires
        ps.len() > 0,
    ensures
        min_x(ps) <= max_x(ps),
        min_y(ps) <= max_y(ps),
    decreases ps.len(),
{
    if ps.len() > 1 {
        lemma_bounds_ordered(ps.drop_last());
    }
}

/// Calculate the shape metrics of a set of room tiles (see `shape_of`).
pub fn calculate_shape_metrics(tiles: &Vec<TilePos>) -> (m: ShapeMetrics)
    requires
        distinct_positions(tiles@),
        forall|i: int| 0 <= i < tiles@.len() ==> i32::MIN < (#[trigger] tiles@[i]).x < i32::MAX && i32::MIN < tiles@[i].y < i32::MAX,
    ensures
        shape_of(tiles@, m),
{
    if tiles.len() == 0 {
        return ShapeMetrics { width: 1, height: 1, tile_count: 0, is_fragmented: true, is_thin_corridor: false };
    }
    let (lo_x, hi_x, lo_y, hi_y) = bounds_of(tiles);
    proof {
        lemma_bounds_ordered(tiles@);
    }
    let width = hi_x as i64 - lo_x as i64 + 1;
    let height = hi_y as i64 - lo_y as i64 + 1;
    let is_thin_corridor = if width > height {
        width > 4 * height
    } else {
        height > 4 * width
    };
    let is_fragmented = !is_contiguous(tiles);
    ShapeMetrics { width, height, tile_count: tiles.len(), is_fragmented, is_thin_corridor }
}

} // verus!
