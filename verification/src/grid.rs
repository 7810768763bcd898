//! The dungeon tile grid: a rectangle of rows, indexed `grid[y][x]`.
use vstd::prelude::*;
use crate::tiles::{TileState, TilePos, fresh_tile, same_but_type, owned};

verus! {

/// Rows of tiles; `grid[y][x]` is the tile at column `x`, row `y`.
pub type Grid = Vec<Vec<TileState>>;

/// The tiles of a grid as nested sequences.
pub open spec fn cells(g: &Grid) -> Seq<Seq<TileState>> {
    g@.map_values(|r: Vec<TileState>| r@)
}

/// The tile types of a grid of cells.
pub open spec fn types(c: Seq<Seq<TileState>>) -> Seq<Seq<Seq<char>>> {
    c.map_values(|r: Seq<TileState>| r.map_values(|t: TileState| t.tile_type@))
}

/// Number of rows.
pub open spec fn height(c: Seq<Seq<TileState>>) -> int {
    c.len() as int
}

/// Number of columns (the length of the first row).
pub open spec fn width(c: Seq<Seq<TileState>>) -> int {
    c[0].len() as int
}

/// A non-empty rectangle whose dimensions fit tile coordinates.
pub open spec fn grid_wf(c: Seq<Seq<TileState>>) -> bool {
    &&& c.len() > 0
    &&& c.len() <= i32::MAX
    &&& c[0].len() <= i32::MAX
    &&& forall|y: int| 0 <= y < c.len() ==> #[trigger] c[y].len() == c[0].len()
}

/// Whether `(x, y)` lies on the grid.
pub open spec fn in_bounds(c: Seq<Seq<TileState>>, x: int, y: int) -> bool {
    0 <= y < height(c) && 0 <= x < width(c)
}

/// Every tile records its own position.
pub open spec fn positioned(c: Seq<Seq<TileState>>) -> bool {
    forall|x: int, y: int|
        #![trigger c[y][x]]
        in_bounds(c, x, y) ==> c[y][x].pos == (TilePos { x: x as i32, y: y as i32 })
}

/// Two grids have the same shape.
pub open spec fn same_shape(a: Seq<Seq<TileState>>, b: Seq<Seq<TileState>>) -> bool {
    &&& a.len() == b.len()
    &&& forall|y: int| 0 <= y < a.len() ==> #[trigger] a[y].len() == b[y].len()
}

/// Two grids of the same shape agree on every field of every tile but its type.
pub open spec fn same_but_types(a: Seq<Seq<TileState>>, b: Seq<Seq<TileState>>) -> bool {
    &&& same_shape(a, b)
    &&& forall|x: int, y: int|
        #![trigger b[y][x]]
        0 <= y < a.len() && 0 <= x < a[y].len() ==> same_but_type(a[y][x], b[y][x])
}

/// The type of the tile that `create_base_terrain` puts at `(x, y)`.
pub open spec fn base_terrain_type(width: int, height: int, x: int, y: int) -> Seq<char> {
    if x == 0 || y == 0 || x == width - 1 || y == height - 1 {
        "solid_rock"@
    } else {
        "earth"@
    }
}

/// Traditional flat terrain: solid rock on the border, earth inside.
pub fn create_base_terrain(width: usize, height: usize) -> (grid: Grid)
    requires
        width <= i32::MAX,
        height <= i32::MAX,
    ensures
        grid@.len() == height,
        forall|y: int| 0 <= y < height ==> #[trigger] grid@[y]@.len() == width,
        forall|x: int, y: int|
            #![trigger grid@[y]@[x]]
            0 <= y < height && 0 <= x < width ==> fresh_tile(
                base_terrain_type(width as int, height as int, x, y),
                TilePos { x: x as i32, y: y as i32 },
                grid@[y]@[x],
            ),
{
    let mut grid: Grid = Vec::new();
    let mut y: usize = 0;
    while y < height
        invariant
            y <= height,
            width <= i32::MAX,
            height <= i32::MAX,
            grid@.len() == y,
            forall|yy: int| 0 <= yy < y ==> #[trigger] grid@[yy]@.len() == width,
            forall|x: int, yy: int|
                #![trigger grid@[yy]@[x]]
                0 <= yy < y && 0 <= x < width ==> fresh_tile(
                    base_terrain_type(width as int, height as int, x, yy),
                    TilePos { x: x as i32, y: yy as i32 },
                    grid@[yy]@[x],
                ),
        decreases height - y,
    {
        let mut row: Vec<TileState> = Vec::new();
        let mut x: usize = 0;
        while x < width
            invariant
                x <= width,
                y < height,
                width <= i32::MAX,
                height <= i32::MAX,
                row@.len() == x,
                forall|xx: int|
                    #![trigger row@[xx]]
                    0 <= xx < x ==> fresh_tile(
                        base_terrain_type(width as int, height as int, xx, y as int),
                        TilePos { x: xx as i32, y: y as i32 },
                        row@[xx],
                    ),
            decreases width - x,
        {
            let tile_type = if x == 0 || y == 0 || x == width - 1 || y == height - 1 {
                owned("solid_rock")
            } else {
                owned("earth")
            };
            let tile = TileState::new(tile_type, TilePos::new(x as i32, y as i32));
            row.push(tile);
            x = x + 1;
        }
        grid.push(row);
        y = y + 1;
    }
    grid
}

/// A tile-by-tile copy of a grid.
pub fn copy_grid(grid: &Grid) -> (out: Grid)
    ensures
        same_but_types(cells(grid), cells(&out)),
        types(cells(&out)) =~~= types(cells(grid)),
{
    let mut out: Grid = Vec::new();
    let mut y: usize = 0;
    while y < grid.len()
        invariant
            y <= grid@.len(),
            out@.len() == y,
            forall|yy: int| 0 <= yy < y ==> #[trigger] out@[yy]@.len() == grid@[yy]@.len(),
            forall|x: int, yy: int|
                #![trigger out@[yy]@[x]]
                0 <= yy < y && 0 <= x < grid@[yy]@.len() ==> same_but_type(
                    grid@[yy]@[x],
                    out@[yy]@[x],
                ) && out@[yy]@[x].tile_type@ == grid@[yy]@[x].tile_type@,
        decreases grid@.len() - y,
    {
        let mut row: Vec<TileState> = Vec::new();
        let mut x: usize = 0;
        while x < grid[y].len()
            invariant
                y < grid@.len(),
                x <= grid@[y as int]@.len(),
                row@.len() == x,
                forall|xx: int|
                    #![trigger row@[xx]]
                    0 <= xx < x ==> same_but_type(grid@[y as int]@[xx], row@[xx])
                        && row@[xx].tile_type@ == grid@[y as int]@[xx].tile_type@,
            decreases grid@[y as int]@.len() - x,
        {
            row.push(grid[y][x].copy());
            x = x + 1;
        }
        out.push(row);
        y = y + 1;
    }
    assert(same_but_types(cells(grid), cells(&out)));
    assert forall|yy: int| 0 <= yy < grid@.len() implies #[trigger] types(cells(&out))[yy]
        =~= types(cells(grid))[yy] by {}
    out
}

} // verus!
