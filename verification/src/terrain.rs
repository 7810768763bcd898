//! Terrain passes of the map generator: flat base terrain and cellular
//! automata cave smoothing.
use vstd::prelude::*;
use crate::tiles::{is_solid_type, is_solid_tile, owned};
use crate::grid::{Grid, cells, types, grid_wf, width, height, copy_grid, same_but_types};

verus! {

/// The seed of the map's noise. Sampling the noise is floating point and is
/// done by the caller from this seed.
pub struct SimpleNoise {
    pub seed: u64,
}

impl SimpleNoise {
    pub fn new(seed: u64) -> (n: Self)
        ensures
            n.seed == seed,
    {
        SimpleNoise { seed }
    }
}

/// 1 when the tile type at `(x, y)` is solid, else 0.
pub open spec fn solid01(t: Seq<Seq<Seq<char>>>, x: int, y: int) -> int {
    if is_solid_type(t[y][x]) {
        1
    } else {
        0
    }
}

/// Number of solid tiles among the eight neighbours of `(x, y)`.
pub open spec fn solid_neighbors(t: Seq<Seq<Seq<char>>>, x: int, y: int) -> int {
    solid01(t, x - 1, y - 1) + solid01(t, x, y - 1) + solid01(t, x + 1, y - 1) + solid01(
        t,
        x - 1,
        y,
    ) + solid01(t, x + 1, y) + solid01(t, x - 1, y + 1) + solid01(t, x, y + 1) + solid01(
        t,
        x + 1,
        y + 1,
    )
}

/// Whether `(x, y)` is off the outer ring of a grid of types.
pub open spec fn interior(t: Seq<Seq<Seq<char>>>, x: int, y: int) -> bool {
    1 <= y < t.len() - 1 && 1 <= x < t[0].len() - 1
}

/// The type at `(x, y)` after one smoothing pass: interior tiles with five or
/// more solid neighbours become solid rock, those with fewer than four become
/// earth, all others keep their type.
pub open spec fn smoothed_cell(t: Seq<Seq<Seq<char>>>, x: int, y: int) -> Seq<char> {
    if interior(t, x, y) {
        if solid_neighbors(t, x, y) >= 5 {
            "solid_rock"@
        } else if solid_neighbors(t, x, y) < 4 {
            "earth"@
        } else {
            t[y][x]
        }
    } else {
        t[y][x]
    }
}

/// One smoothing pass over a grid of types.
pub open spec fn smooth_step(t: Seq<Seq<Seq<char>>>) -> Seq<Seq<Seq<char>>> {
    Seq::new(t.len(), |y: int| Seq::new(t[y].len(), |x: int| smoothed_cell(t, x, y)))
}

/// `n` smoothing passes.
pub open spec fn smooth(t: Seq<Seq<Seq<char>>>, n: nat) -> Seq<Seq<Seq<char>>>
    decreases n,
{
    if n == 0 {
        t
    } else {
        smooth(smooth_step(t), (n - 1) as nat)
    }
}

fn solid_count_at(grid: &Grid, x: usize, y: usize) -> (r: usize)
    requires
        y < grid@.len(),
        x < grid@[y as int]@.len(),
    ensures
        r == solid01(types(cells(grid)), x as int, y as int),
{
    if is_solid_tile(grid[y][x].tile_type.as_str()) {
        1
    } else {
        0
    }
}

/// Count solid neighbours (8-way) of an interior tile.
pub fn count_solid_neighbors(grid: &Grid, x: usize, y: usize) -> (count: usize)
    requires
        grid_wf(cells(grid)),
        1 <= y < height(cells(grid)) - 1,
        1 <= x < width(cells(grid)) - 1,
    ensures
        count == solid_neighbors(types(cells(grid)), x as int, y as int),
        count <= 8,
{
    assert(cells(grid)[y - 1].len() == cells(grid)[0].len());
    assert(cells(grid)[y as int].len() == cells(grid)[0].len());
    assert(cells(grid)[y + 1].len() == cells(grid)[0].len());
    assert(grid@[y + 1]@.len() == grid@[0]@.len());
    solid_count_at(grid, x - 1, y - 1) + solid_count_at(grid, x, y - 1) + solid_count_at(
        grid,
        x + 1,
        y - 1,
    ) + solid_count_at(grid, x - 1, y) + solid_count_at(grid, x + 1, y) + solid_count_at(
        grid,
        x - 1,
        y + 1,
    ) + solid_count_at(grid, x, y + 1) + solid_count_at(grid, x + 1, y + 1)
}

pub proof fn lemma_same_but_types_trans(
    a: Seq<Seq<crate::tiles::TileState>>,
    b: Seq<Seq<crate::tiles::TileState>>,
    c: Seq<Seq<crate::tiles::TileState>>,
)
    requires
        same_but_types(a, b),
        same_but_types(b, c),
    ensures
        same_but_types(a, c),
{
    assert forall|x: int, y: int| 0 <= y < a.len() && 0 <= x < a[y].len() implies
        crate::tiles::same_but_type(a[y][x], #[trigger] c[y][x]) by {
        assert(crate::tiles::same_but_type(a[y][x], b[y][x]));
    }
}

/// One cellular automata pass: `next` starts as a copy and interior tiles are
/// retyped from the neighbour counts of the unchanged `grid`.
fn smooth_once(grid: &Grid) -> (next: Grid)
    requires
        grid_wf(cells(grid)),
        width(cells(grid)) >= 1,
    ensures
        same_but_types(cells(grid), cells(&next)),
        types(cells(&next)) =~~= smooth_step(types(cells(grid))),
{
    let ghost t = types(cells(grid));
    let height_n = grid.len();
    let width_n = grid[0].len();
    let mut next = copy_grid(grid);
    let mut y: usize = 1;
    while y + 1 < height_n
        invariant
            grid_wf(cells(grid)),
            t == types(cells(grid)),
            height_n == grid@.len(),
            width_n == grid@[0]@.len(),
            width_n >= 1,
            1 <= y,
            y + 1 <= height_n || y == 1,
            same_but_types(cells(grid), cells(&next)),
            forall|xx: int, yy: int|
                #![trigger next@[yy]@[xx]]
                0 <= yy < height_n && 0 <= xx < width_n ==> next@[yy]@[xx].tile_type@ == (if yy
                    < y {
                    smoothed_cell(t, xx, yy)
                } else {
                    t[yy][xx]
                }),
        decreases height_n - y,
    {
        let mut x: usize = 1;
        while x + 1 < width_n
            invariant
                grid_wf(cells(grid)),
                t == types(cells(grid)),
                height_n == grid@.len(),
                width_n == grid@[0]@.len(),
                1 <= y < height_n - 1,
                1 <= x,
                x + 1 <= width_n || x == 1,
                same_but_types(cells(grid), cells(&next)),
                forall|xx: int, yy: int|
                    #![trigger next@[yy]@[xx]]
                    0 <= yy < height_n && 0 <= xx < width_n ==> next@[yy]@[xx].tile_type@ == (
                    if yy < y || (yy == y && xx < x) {
                        smoothed_cell(t, xx, yy)
                    } else {
                        t[yy][xx]
                    }),
            decreases width_n - x,
        {
            let solid_neighbors = count_solid_neighbors(grid, x, y);
            assert(next@[y as int]@.len() == width_n) by {
                assert(cells(grid)[y as int].len() == cells(grid)[0].len());
            }
            let ghost before = cells(&next);
            if solid_neighbors >= 5 {
                next[y][x].tile_type = owned("solid_rock");
            } else if solid_neighbors < 4 {
                next[y][x].tile_type = owned("earth");
            }
            proof {
                assert forall|xx: int, yy: int|
                    0 <= yy < height_n && 0 <= xx < width_n implies #[trigger] next@[yy]@[xx].tile_type@ == (
                    if yy < y || (yy == y && xx < x + 1) {
                        smoothed_cell(t, xx, yy)
                    } else {
                        t[yy][xx]
                    }) by {
                    if yy == y && xx == x {
                        assert(interior(t, xx, yy));
                    } else {
                        assert(next@[yy]@[xx] == before[yy][xx]);
                        if yy == y && xx == 0 {
                            assert(!interior(t, xx, yy));
                        }
                    }
                }
                assert forall|xx: int, yy: int|
                    0 <= yy < grid@.len() && 0 <= xx < cells(grid)[yy].len() implies crate::tiles::same_but_type(
                    cells(grid)[yy][xx],
                    #[trigger] cells(&next)[yy][xx],
                ) by {
                    if !(yy == y && xx == x) {
                        assert(next@[yy]@[xx] == before[yy][xx]);
                    }
                }
            }
            x = x + 1;
        }
        proof {
            assert forall|xx: int, yy: int|
                0 <= yy < height_n && 0 <= xx < width_n implies #[trigger] next@[yy]@[xx].tile_type@
                == (if yy < y + 1 {
                smoothed_cell(t, xx, yy)
            } else {
                t[yy][xx]
            }) by {
                if yy == y && xx >= x {
                    assert(!interior(t, xx, yy));
                }
            }
        }
        y = y + 1;
    }
    proof {
        let s = smooth_step(t);
        assert forall|yy: int| 0 <= yy < height_n implies #[trigger] types(cells(&next))[yy] =~= s[yy] by {
            assert(cells(grid)[yy].len() == cells(grid)[0].len());
            assert forall|xx: int| 0 <= xx < width_n implies types(cells(&next))[yy][xx] == #[trigger] s[yy][xx] by {
                if yy >= y {
                    assert(!interior(t, xx, yy));
                }
            }
        }
    }
    next
}

/// Smooth caves using cellular automata to create more natural shapes.
pub fn smooth_caves_cellular_automata(grid: &mut Grid, iterations: usize)
    requires
        grid_wf(cells(old(grid))),
        width(cells(old(grid))) >= 1,
    ensures
        same_but_types(cells(old(grid)), cells(final(grid))),
        types(cells(final(grid))) == smooth(types(cells(old(grid))), iterations as nat),
{
    let ghost orig = cells(grid);
    let mut i: usize = 0;
    while i < iterations
        invariant
            i <= iterations,
            grid_wf(cells(grid)),
            width(cells(grid)) >= 1,
            same_but_types(orig, cells(grid)),
            smooth(types(cells(grid)), (iterations - i) as nat) == smooth(
                types(orig),
                iterations as nat,
            ),
        decreases iterations - i,
    {
        let next = smooth_once(grid);
        proof {
            lemma_same_but_types_trans(orig, cells(grid), cells(&next));
            assert(types(cells(&next)) == smooth_step(types(cells(grid))));
            assert(smooth(types(cells(grid)), (iterations - i) as nat) == smooth(
                smooth_step(types(cells(grid))),
                (iterations - i - 1) as nat,
            ));
            assert forall|yy: int| 0 <= yy < cells(&next).len() implies #[trigger] cells(&next)[yy].len()
                == cells(&next)[0].len() by {
                assert(cells(grid)[yy].len() == cells(grid)[0].len());
            }
        }
        *grid = next;
        i = i + 1;
    }
}

} // verus!
