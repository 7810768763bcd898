//! Hero portals: open spots far enough from the player's start, spread
//! apart from each other where possible.
use vstd::prelude::*;
use crate::tiles::{TilePos, TileState, is_solid_type, is_solid_tile, owned};
use crate::grid::{Grid, cells, types, grid_wf};
use crate::features::{open_area, is_open_area};
use crate::starting_area::paintable;
use crate::random::random_index;

verus! {

/// The square of the distance between two spots.
pub open spec fn d2(a: TilePos, b: TilePos) -> int {
    (a.x - b.x) * (a.x - b.x) + (a.y - b.y) * (a.y - b.y)
}

/// `p` is at least `centi` hundredths of a tile from `start`.
pub open spec fn far_from(p: TilePos, start: TilePos, centi: int) -> bool {
    10000 * d2(p, start) >= centi * centi
}

/// `p` may hold a hero portal: at least 5 in from every edge of the map, at
/// least `centi` hundredths of a tile from the start, in an open area of
/// radius 2, and on a tile that is not solid.
pub open spec fn portal_candidate(t: Seq<Seq<Seq<char>>>, start: TilePos, centi: int, p: TilePos) -> bool {
    &&& 5 <= p.y < t.len() - 5
    &&& 5 <= p.x < t[0].len() - 5
    &&& far_from(p, start, centi)
    &&& open_area(t, p, 2)
    &&& !is_solid_type(t[p.y as int][p.x as int])
}

/// `a` comes before `b` row by row.
pub open spec fn row_major_before(a: TilePos, b: TilePos) -> bool {
    a.y < b.y || (a.y == b.y && a.x < b.x)
}

/// `r` lists exactly the portal candidates of the map, row by row.
pub open spec fn candidates_listed(t: Seq<Seq<Seq<char>>>, start: TilePos, centi: int, r: Seq<TilePos>) -> bool {
    &&& forall|i: int| 0 <= i < r.len() ==> portal_candidate(t, start, centi, #[trigger] r[i])
    &&& forall|p: TilePos| portal_candidate(t, start, centi, p) ==> #[trigger] r.contains(p)
    &&& forall|i: int, j: int| 0 <= i < j < r.len() ==> row_major_before(#[trigger] r[i], #[trigger] r[j])
}

/// The square of the distance between two spots, for spots of a map.
fn dist2(a: TilePos, b: TilePos) -> (d: u64)
    requires
        0 <= a.x <= 0x10_0000,
        0 <= a.y <= 0x10_0000,
        -0x10_0000 <= b.x <= 0x10_0000,
        -0x10_0000 <= b.y <= 0x10_0000,
    ensures
        d == d2(a, b),
{
    let dx: i64 = a.x as i64 - b.x as i64;
    let dy: i64 = a.y as i64 - b.y as i64;
    assert(0 <= dx * dx <= 0x400_0000_0000 && 0 <= dy * dy <= 0x400_0000_0000) by (nonlinear_arith)
        requires
            -0x20_0000 <= dx <= 0x20_0000,
            -0x20_0000 <= dy <= 0x20_0000,
    ;
    (dx * dx + dy * dy) as u64
}

/// The spots that may hold a hero portal (see `portal_candidate`), row by
/// row. `min_distance_centi` is the least distance from the start, in
/// hundredths of a tile.
pub fn find_portal_candidates(grid: &Grid, start_pos: TilePos, min_distance_centi: u32) -> (r: Vec<TilePos>)
    requires
        grid_wf(cells(grid)),
        grid@.len() <= 0x10_0000,
        grid@[0]@.len() <= 0x10_0000,
        -0x10_0000 <= start_pos.x <= 0x10_0000,
        -0x10_0000 <= start_pos.y <= 0x10_0000,
        min_distance_centi <= 0x1000_0000,
    ensures
        candidates_listed(types(cells(grid)), start_pos, min_distance_centi as int, r@),
{
    let ghost t = types(cells(grid));
    let height = grid.len();
    let width = grid[0].len();
    let c = min_distance_centi as u128;
    assert(c * c <= 0x100_0000_0000_0000_0000) by (nonlinear_arith)
        requires
            c <= 0x1000_0000,
    ;
    let m2: u128 = c * c;
    let mut r: Vec<TilePos> = Vec::new();
    let mut y: usize = 5;
    while y + 5 < height
        invariant
            t == types(cells(grid)),
            grid_wf(cells(grid)),
            height == t.len(),
            width == t[0].len(),
            height <= 0x10_0000,
            width <= 0x10_0000,
            5 <= y <= height + 5,
            -0x10_0000 <= start_pos.x <= 0x10_0000,
            -0x10_0000 <= start_pos.y <= 0x10_0000,
            m2 == min_distance_centi * min_distance_centi,
            forall|i: int| 0 <= i < r@.len() ==> portal_candidate(t, start_pos, min_distance_centi as int, #[trigger] r@[i]) && r@[i].y < y,
            forall|p: TilePos| portal_candidate(t, start_pos, min_distance_centi as int, p) && p.y < y ==> #[trigger] r@.contains(p),
            forall|i: int, j: int| 0 <= i < j < r@.len() ==> row_major_before(#[trigger] r@[i], #[trigger] r@[j]),
        decreases height - y,
    {
        let mut x: usize = 5;
        while x + 5 < width
            invariant
                t == types(cells(grid)),
                grid_wf(cells(grid)),
                height == t.len(),
                width == t[0].len(),
                height <= 0x10_0000,
                width <= 0x10_0000,
                5 <= y,
                y + 5 < height,
                5 <= x <= width + 5,
                -0x10_0000 <= start_pos.x <= 0x10_0000,
                -0x10_0000 <= start_pos.y <= 0x10_0000,
                m2 == min_distance_centi * min_distance_centi,
                forall|i: int|
                    0 <= i < r@.len() ==> portal_candidate(t, start_pos, min_distance_centi as int, #[trigger] r@[i])
                        && (r@[i].y < y || (r@[i].y == y && r@[i].x < x)),
                forall|p: TilePos|
                    portal_candidate(t, start_pos, min_distance_centi as int, p) && (p.y < y || (p.y == y && p.x < x))
                        ==> #[trigger] r@.contains(p),
                forall|i: int, j: int| 0 <= i < j < r@.len() ==> row_major_before(#[trigger] r@[i], #[trigger] r@[j]),
            decreases width - x,
        {
            let pos = TilePos::new(x as i32, y as i32);
            let d = dist2(pos, start_pos);
            assert(cells(grid)[y as int].len() == width);
            let candidate = 10000u128 * (d as u128) >= m2 && is_open_area(grid, pos, 2) && !is_solid_tile(
                grid[y][x].tile_type.as_str(),
            );
            assert(candidate == portal_candidate(t, start_pos, min_distance_centi as int, pos));
            if candidate {
                let ghost r0 = r@;
                r.push(pos);
                proof {
                    assert forall|p: TilePos|
                        portal_candidate(t, start_pos, min_distance_centi as int, p) && (p.y < y || (p.y == y && p.x < x + 1))
                            implies #[trigger] r@.contains(p) by {
                        if p == pos {
                            assert(r@[r0.len() as int] == p);
                        } else {
                            assert(r0.contains(p));
                            let k = choose|k: int| 0 <= k < r0.len() && r0[k] == p;
                            assert(r@[k] == p);
                        }
                    }
                }
            }
            x = x + 1;
        }
        y = y + 1;
    }
    r
}

/// `p` is at least 15 tiles from every existing portal.
pub open spec fn spaced(p: TilePos, existing: Seq<TilePos>) -> bool {
    forall|k: int| 0 <= k < existing.len() ==> d2(p, #[trigger] existing[k]) >= 225
}

/// A random item of a non-empty list.
fn random_item(v: &Vec<TilePos>) -> (r: TilePos)
    requires
        0 < v@.len(),
    ensures
        v@.contains(r),
{
    let i = random_index(v.len());
    assert(v@[i as int] == v[i as int]);
    v[i]
}

/// Choose where the next hero portal goes: none without candidates; any
/// candidate for the first portal; later, a random candidate at least 15
/// tiles from every existing portal, or any candidate when none is.
pub fn select_best_portal_location(candidates: &Vec<TilePos>, existing_portals: &Vec<TilePos>) -> (r: Option<TilePos>)
    requires
        forall|i: int|
            0 <= i < candidates@.len() ==> 0 <= (#[trigger] candidates@[i]).x <= 0x10_0000 && 0 <= candidates@[i].y
                <= 0x10_0000,
        forall|i: int|
            0 <= i < existing_portals@.len() ==> -0x10_0000 <= (#[trigger] existing_portals@[i]).x <= 0x10_0000
                && -0x10_0000 <= existing_portals@[i].y <= 0x10_0000,
    ensures
        r is None <==> candidates@.len() == 0,
        r is Some ==> candidates@.contains(r->0),
        r is Some && (exists|c: TilePos| #[trigger] candidates@.contains(c) && spaced(c, existing_portals@)) ==> spaced(
            r->0,
            existing_portals@,
        ),
{
    if candidates.len() == 0 {
        return None;
    }
    if existing_portals.len() == 0 {
        return Some(random_item(candidates));
    }
    let mut best: Vec<TilePos> = Vec::new();
    let mut i: usize = 0;
    while i < candidates.len()
        invariant
            i <= candidates@.len(),
            forall|k: int|
                0 <= k < candidates@.len() ==> 0 <= (#[trigger] candidates@[k]).x <= 0x10_0000 && 0 <= candidates@[k].y
                    <= 0x10_0000,
            forall|k: int|
                0 <= k < existing_portals@.len() ==> -0x10_0000 <= (#[trigger] existing_portals@[k]).x <= 0x10_0000
                    && -0x10_0000 <= existing_portals@[k].y <= 0x10_0000,
            forall|k: int| 0 <= k < best@.len() ==> candidates@.contains(#[trigger] best@[k]) && spaced(best@[k], existing_portals@),
            forall|k: int| 0 <= k < i && spaced(candidates@[k], existing_portals@) ==> #[trigger] best@.contains(candidates@[k]),
        decreases candidates@.len() - i,
    {
        let c = candidates[i];
        let mut far_enough = true;
        let mut j: usize = 0;
        while j < existing_portals.len()
            invariant
                j <= existing_portals@.len(),
                i < candidates@.len(),
                c == candidates@[i as int],
                0 <= c.x <= 0x10_0000,
                0 <= c.y <= 0x10_0000,
                forall|k: int|
                    0 <= k < existing_portals@.len() ==> -0x10_0000 <= (#[trigger] existing_portals@[k]).x <= 0x10_0000
                        && -0x10_0000 <= existing_portals@[k].y <= 0x10_0000,
                far_enough == forall|k: int| 0 <= k < j ==> d2(c, #[trigger] existing_portals@[k]) >= 225,
            decreases existing_portals@.len() - j,
        {
            let d = dist2(c, existing_portals[j]);
            if d < 225 {
                far_enough = false;
            }
            j = j + 1;
        }
        if far_enough {
            let ghost b0 = best@;
            assert(forall|k: int| 0 <= k < i && spaced(candidates@[k], existing_portals@) ==> b0.contains(candidates@[k]));
            best.push(c);
            proof {
                assert(candidates@.contains(c)) by {
                    assert(candidates@[i as int] == c);
                }
                assert forall|k: int| 0 <= k < i + 1 && spaced(candidates@[k], existing_portals@) implies #[trigger] best@.contains(candidates@[k]) by {
                    if k == i {
                        assert(best@[b0.len() as int] == c);
                    } else {
                        let m = choose|m: int| 0 <= m < b0.len() && b0[m] == candidates@[k];
                        assert(best@[m] == b0[m]);
                    }
                }
            }
        } else {
            proof {
                assert(!spaced(c, existing_portals@));
            }
        }
        i = i + 1;
    }
    if best.len() == 0 {
        proof {
            assert forall|c: TilePos| #[trigger] candidates@.contains(c) implies !spaced(c, existing_portals@) by {
                if spaced(c, existing_portals@) {
                    let k = choose|k: int| 0 <= k < candidates@.len() && candidates@[k] == c;
                    assert(best@.contains(candidates@[k]));
                }
            }
        }
        Some(random_item(candidates))
    } else {
        let r = random_item(&best);
        proof {
            let k = choose|k: int| 0 <= k < best@.len() && best@[k] == r;
            assert(spaced(best@[k], existing_portals@));
        }
        Some(r)
    }
}

/// `b` is `a` with hero portals on some of its portal candidates (judged on
/// `a`), and nothing else changed.
pub open spec fn portals_on_candidates(a: Seq<Seq<TileState>>, b: Seq<Seq<TileState>>, start: TilePos, centi: int) -> bool {
    &&& a.len() == b.len()
    &&& forall|y: int| 0 <= y < a.len() ==> #[trigger] b[y].len() == a[y].len()
    &&& forall|x: int, y: int|
        #![trigger b[y][x]]
        0 <= y < a.len() && 0 <= x < a[y].len() ==> b[y][x] == a[y][x] || {
            &&& portal_candidate(types(a), start, centi, TilePos { x: x as i32, y: y as i32 })
            &&& b[y][x].tile_type@ == "hero_portal"@
            &&& b[y][x] == TileState { tile_type: b[y][x].tile_type, ..a[y][x] }
        }
}

/// `ps` is a run of portal choices as `select_best_portal_location` makes
/// them: each a portal candidate, and spaced from the earlier ones whenever
/// some candidate is.
pub open spec fn portal_trace(t: Seq<Seq<Seq<char>>>, start: TilePos, centi: int, ps: Seq<TilePos>) -> bool {
    forall|k: int|
        0 <= k < ps.len() ==> portal_candidate(t, start, centi, #[trigger] ps[k]) && ((exists|c: TilePos|
            #[trigger] portal_candidate(t, start, centi, c) && spaced(c, ps.take(k))) ==> spaced(ps[k], ps.take(k)))
}

/// Some spot of `ps` is the tile `(x, y)`.
pub open spec fn listed_at(ps: Seq<TilePos>, x: int, y: int) -> bool {
    exists|k: int| 0 <= k < ps.len() && #[trigger] ps[k].x == x && ps[k].y == y
}

/// `b` is `a` with a hero portal on exactly the tiles listed in `ps`.
pub open spec fn portals_painted(a: Seq<Seq<TileState>>, b: Seq<Seq<TileState>>, ps: Seq<TilePos>) -> bool {
    &&& a.len() == b.len()
    &&& forall|y: int| 0 <= y < a.len() ==> #[trigger] b[y].len() == a[y].len()
    &&& forall|x: int, y: int|
        #![trigger b[y][x]]
        0 <= y < a.len() && 0 <= x < a[y].len() ==> if listed_at(ps, x, y) {
            &&& b[y][x].tile_type@ == "hero_portal"@
            &&& b[y][x] == TileState { tile_type: b[y][x].tile_type, ..a[y][x] }
        } else {
            b[y][x] == a[y][x]
        }
}

/// Some spot of the map may hold a hero portal.
pub open spec fn has_candidate(t: Seq<Seq<Seq<char>>>, start: TilePos, centi: int) -> bool {
    exists|p: TilePos| #[trigger] portal_candidate(t, start, centi, p)
}

/// Place up to `num_hero_portals` hero portals on the portal candidates of
/// the map (see `find_portal_candidates`), each chosen as
/// `select_best_portal_location` chooses: with candidates, exactly
/// `num_hero_portals` choices are made one after another, each spaced 15
/// tiles from the earlier ones where some candidate is, and the map gets a
/// hero portal on exactly the chosen tiles; without candidates nothing
/// changes.
pub fn place_hero_portals(grid: &mut Grid, start_pos: TilePos, num_hero_portals: usize, min_portal_distance_centi: u32)
    requires
        paintable(cells(old(grid))),
        old(grid)@.len() <= 0x10_0000,
        old(grid)@[0]@.len() <= 0x10_0000,
        -0x10_0000 <= start_pos.x <= 0x10_0000,
        -0x10_0000 <= start_pos.y <= 0x10_0000,
        min_portal_distance_centi <= 0x1000_0000,
    ensures
        paintable(cells(final(grid))),
        portals_on_candidates(cells(old(grid)), cells(final(grid)), start_pos, min_portal_distance_centi as int),
        num_hero_portals > 0 && (exists|p: TilePos| #[trigger] portal_candidate(types(cells(old(grid))), start_pos, min_portal_distance_centi as int, p))
            ==> exists|p: TilePos|
            #[trigger] portal_candidate(types(cells(old(grid))), start_pos, min_portal_distance_centi as int, p)
                && cells(final(grid))[p.y as int][p.x as int].tile_type@ == "hero_portal"@,
        exists|ps: Seq<TilePos>|
            {
                &&& ps.len() == if has_candidate(types(cells(old(grid))), start_pos, min_portal_distance_centi as int) {
                    num_hero_portals as int
                } else {
                    0
                }
                &&& portal_trace(types(cells(old(grid))), start_pos, min_portal_distance_centi as int, ps)
                &&& portals_painted(cells(old(grid)), cells(final(grid)), ps)
            },
{
    let ghost g0 = cells(grid);
    let ghost t0 = types(g0);
    let ghost centi = min_portal_distance_centi as int;
    let height = grid.len();
    let width = grid[0].len();
    let candidates = find_portal_candidates(grid, start_pos, min_portal_distance_centi);
    if candidates.len() == 0 {
        proof {
            assert forall|p: TilePos| !#[trigger] portal_candidate(t0, start_pos, centi, p) by {
                if portal_candidate(t0, start_pos, centi, p) {
                    assert(candidates@.contains(p));
                }
            }
            assert(!has_candidate(t0, start_pos, centi));
            assert(portals_painted(g0, cells(grid), Seq::<TilePos>::empty()));
        }
        return;
    }
    let mut portals: Vec<TilePos> = Vec::new();
    let mut n: usize = 0;
    while n < num_hero_portals
        invariant
            n <= num_hero_portals,
            paintable(cells(grid)),
            paintable(g0),
            g0.len() == height,
            g0[0].len() == width,
            height <= 0x10_0000,
            width <= 0x10_0000,
            t0 == types(g0),
            centi == min_portal_distance_centi as int,
            candidates@.len() > 0,
            candidates_listed(t0, start_pos, centi, candidates@),
            cells(grid).len() == height,
            cells(grid)[0].len() == width,
            portals_on_candidates(g0, cells(grid), start_pos, centi),
            forall|k: int| 0 <= k < portals@.len() ==> candidates@.contains(#[trigger] portals@[k])
                && cells(grid)[portals@[k].y as int][portals@[k].x as int].tile_type@ == "hero_portal"@,
            portals@.len() == n,
            portal_trace(t0, start_pos, centi, portals@),
            portals_painted(g0, cells(grid), portals@),
        decreases num_hero_portals - n,
    {
        proof {
            assert forall|i: int| 0 <= i < candidates@.len() implies 0 <= (#[trigger] candidates@[i]).x <= 0x10_0000 && 0 <= candidates@[i].y <= 0x10_0000 by {
                assert(portal_candidate(t0, start_pos, centi, candidates@[i]));
            }
            assert forall|i: int| 0 <= i < portals@.len() implies -0x10_0000 <= (#[trigger] portals@[i]).x <= 0x10_0000 && -0x10_0000 <= portals@[i].y <= 0x10_0000 by {
                let c = portals@[i];
                let k = choose|k: int| 0 <= k < candidates@.len() && candidates@[k] == c;
                assert(portal_candidate(t0, start_pos, centi, candidates@[k]));
            }
        }
        match select_best_portal_location(&candidates, &portals) {
            Some(pos) => {
                let px = pos.x as usize;
                let py = pos.y as usize;
                proof {
                    let k = choose|k: int| 0 <= k < candidates@.len() && candidates@[k] == pos;
                    assert(portal_candidate(t0, start_pos, centi, candidates@[k]));
                }
                if px > 0 && px < width - 1 && py > 0 && py < height - 1 {
                    let ghost before = cells(grid);
                    assert(before[py as int].len() == width);
                    grid[py][px].tile_type = owned("hero_portal");
                    let ghost p0 = portals@;
                    portals.push(pos);
                    proof {
                        let after = cells(grid);
                        assert forall|yy: int| 0 <= yy < height implies #[trigger] after[yy].len() == before[yy].len() by {
                            if yy == py {
                                assert(after[yy] =~= before[yy].update(px as int, after[yy][px as int]));
                            } else {
                                assert(after[yy] == before[yy]);
                            }
                        }
                        assert forall|xx: int, yy: int|
                            #![trigger after[yy][xx]]
                            0 <= yy < height && 0 <= xx < before[yy].len() && !(yy == py && xx == px) implies after[yy][xx] == before[yy][xx] by {
                            if yy == py {
                                assert(after[yy] =~= before[yy].update(px as int, after[yy][px as int]));
                            } else {
                                assert(after[yy] == before[yy]);
                            }
                        }
                        assert(pos == TilePos { x: px as i32, y: py as i32 });
                        assert forall|xx: int, yy: int|
                            #![trigger after[yy][xx]]
                            0 <= yy < g0.len() && 0 <= xx < g0[yy].len() implies after[yy][xx] == g0[yy][xx] || {
                                &&& portal_candidate(t0, start_pos, centi, TilePos { x: xx as i32, y: yy as i32 })
                                &&& after[yy][xx].tile_type@ == "hero_portal"@
                                &&& after[yy][xx] == TileState { tile_type: after[yy][xx].tile_type, ..g0[yy][xx] }
                            } by {
                            assert(g0[yy].len() == width);
                            if yy == py && xx == px {
                                assert(before[yy][xx] == g0[yy][xx] || before[yy][xx] == TileState { tile_type: before[yy][xx].tile_type, ..g0[yy][xx] });
                            } else {
                                assert(after[yy][xx] == before[yy][xx]);
                            }
                        }
                        assert forall|k: int| 0 <= k < portals@.len() implies candidates@.contains(#[trigger] portals@[k])
                            && after[portals@[k].y as int][portals@[k].x as int].tile_type@ == "hero_portal"@ by {
                            if k < p0.len() {
                                assert(portals@[k] == p0[k]);
                                let q = p0[k];
                                let qk = choose|m: int| 0 <= m < candidates@.len() && candidates@[m] == q;
                                assert(portal_candidate(t0, start_pos, centi, candidates@[qk]));
                                assert(before[q.y as int].len() == width);
                                if !(q.y == py && q.x == px) {
                                    assert(after[q.y as int][q.x as int] == before[q.y as int][q.x as int]);
                                }
                            }
                        }
                        assert forall|yy: int| 0 <= yy < after.len() implies #[trigger] after[yy].len() == after[0].len() by {
                            assert(g0[yy].len() == g0[0].len());
                        }
                        lemma_trace_push(t0, start_pos, centi, candidates@, p0, pos);
                        assert forall|xx: int, yy: int|
                            #![trigger after[yy][xx]]
                            0 <= yy < g0.len() && 0 <= xx < g0[yy].len() implies if listed_at(portals@, xx, yy) {
                                &&& after[yy][xx].tile_type@ == "hero_portal"@
                                &&& after[yy][xx] == TileState { tile_type: after[yy][xx].tile_type, ..g0[yy][xx] }
                            } else {
                                after[yy][xx] == g0[yy][xx]
                            } by {
                            assert(g0[yy].len() == width);
                            assert(portals@[p0.len() as int] == pos);
                            if yy == py && xx == px {
                                assert(listed_at(portals@, xx, yy));
                            } else {
                                assert(after[yy][xx] == before[yy][xx]);
                                if listed_at(portals@, xx, yy) {
                                    let k = choose|k: int| 0 <= k < portals@.len() && #[trigger] portals@[k].x == xx && portals@[k].y == yy;
                                    assert(k < p0.len());
                                    assert(p0[k] == portals@[k]);
                                    assert(listed_at(p0, xx, yy));
                                } else {
                                    if listed_at(p0, xx, yy) {
                                        let k = choose|k: int| 0 <= k < p0.len() && #[trigger] p0[k].x == xx && p0[k].y == yy;
                                        assert(portals@[k] == p0[k]);
                                        assert(false);
                                    }
                                }
                            }
                        }
                    }
                } else {
                    proof {
                        let k = choose|k: int| 0 <= k < candidates@.len() && candidates@[k] == pos;
                        assert(portal_candidate(t0, start_pos, centi, candidates@[k]));
                        assert(false);
                    }
                }
            },
            None => {},
        }
        n = n + 1;
    }
    proof {
        assert(has_candidate(t0, start_pos, centi)) by {
            assert(portal_candidate(t0, start_pos, centi, candidates@[0]));
        }
        if num_hero_portals > 0 {
            let q = portals@[0];
            assert(candidates@.contains(q));
            let k = choose|m: int| 0 <= m < candidates@.len() && candidates@[m] == q;
            assert(portal_candidate(t0, start_pos, centi, candidates@[k]));
        }
    }
}

/// One more choice made as `select_best_portal_location` makes it extends a
/// run of portal choices.
proof fn lemma_trace_push(
    t: Seq<Seq<Seq<char>>>,
    start: TilePos,
    centi: int,
    cands: Seq<TilePos>,
    ps: Seq<TilePos>,
    p: TilePos,
)
    requires
        candidates_listed(t, start, centi, cands),
        portal_trace(t, start, centi, ps),
        cands.contains(p),
        (exists|c: TilePos| #[trigger] cands.contains(c) && spaced(c, ps)) ==> spaced(p, ps),
    ensures
        portal_trace(t, start, centi, ps.push(p)),
{
    let qs = ps.push(p);
    assert forall|k: int| 0 <= k < qs.len() implies portal_candidate(t, start, centi, #[trigger] qs[k]) && ((exists|c: TilePos|
        #[trigger] portal_candidate(t, start, centi, c) && spaced(c, qs.take(k))) ==> spaced(qs[k], qs.take(k))) by {
        if k < ps.len() {
            assert(qs[k] == ps[k]);
            assert(qs.take(k) =~= ps.take(k));
        } else {
            assert(qs.take(k) =~= ps);
            let i = choose|i: int| 0 <= i < cands.len() && cands[i] == p;
            assert(portal_candidate(t, start, centi, cands[i]));
            if exists|c: TilePos| #[trigger] portal_candidate(t, start, centi, c) && spaced(c, qs.take(k)) {
                let c = choose|c: TilePos| #[trigger] portal_candidate(t, start, centi, c) && spaced(c, qs.take(k));
                assert(cands.contains(c));
            }
        }
    }
}

} // verus!
