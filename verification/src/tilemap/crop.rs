//! Windows of a grid and the bounding box of its occupied cells.

use super::model::{gid_fits, gid_to_tile, tile_of, MapChange, MapError, Tile, TileGrid};
use vstd::arithmetic::div_mod::lemma_fundamental_div_mod_converse;
use vstd::prelude::*;

verus! {

/// A rectangle of cells: its left column, its top row, its width and its
/// height.
pub struct Window {
    pub x: usize,
    pub y: usize,
    pub width: usize,
    pub height: usize,
}

impl Window {
    /// Whether the rectangle holds the place (`x`, `y`).
    pub open spec fn holds(&self, x: int, y: int) -> bool {
        self.x <= x < self.x + self.width && self.y <= y < self.y + self.height
    }
}

impl TileGrid {
    /// Whether any cell of the grid holds a tile.
    pub open spec fn any_occupied(&self) -> bool {
        exists|x: int, y: int| #[trigger] self.occupied(x, y)
    }

    /// Whether the rectangle covers every occupied cell of the grid.
    pub open spec fn covered_by(&self, w: Window) -> bool {
        forall|x: int, y: int| #[trigger] self.occupied(x, y) ==> w.holds(x, y)
    }

    /// Whether the rectangle is the bounding box of the occupied cells: it
    /// covers them all, and its first and last column and its first and
    /// last row each hold one of them.
    pub open spec fn bounded_by(&self, w: Window) -> bool {
        &&& w.width >= 1
        &&& w.height >= 1
        &&& w.x + w.width <= self.width
        &&& w.y + w.height <= self.height
        &&& self.covered_by(w)
        &&& exists|y: int| #[trigger] self.occupied(w.x as int, y)
        &&& exists|y: int| #[trigger] self.occupied(w.x + w.width - 1, y)
        &&& exists|x: int| #[trigger] self.occupied(x, w.y as int)
        &&& exists|x: int| #[trigger] self.occupied(x, w.y + w.height - 1)
    }

    /// The tiles of a rectangle of the grid, row by row.
    pub open spec fn window_tiles(&self, w: Window) -> Seq<Tile> {
        Seq::new(
            (w.width * w.height) as nat,
            |k: int|
                tile_of(self.cell(w.x + k % (w.width as int), w.y + k / (w.width as int))),
        )
    }

    /// Whether every cell of a rectangle yields a tile that fits.
    pub open spec fn window_fits(&self, w: Window) -> bool {
        forall|x: int, y: int| w.holds(x, y) ==> gid_fits(#[trigger] self.cell(x, y))
    }

    /// The whole grid as a rectangle.
    pub open spec fn whole(&self) -> Window {
        Window { x: 0, y: 0, width: self.width, height: self.height }
    }
}

/// The bounding box is the least rectangle that covers the occupied cells:
/// every rectangle that covers them covers the bounding box.
pub proof fn lemma_bounding_box_least(grid: &TileGrid, bounds: Window, other: Window)
    requires
        grid.bounded_by(bounds),
        grid.covered_by(other),
    ensures
        other.x <= bounds.x,
        other.y <= bounds.y,
        bounds.x + bounds.width <= other.x + other.width,
        bounds.y + bounds.height <= other.y + other.height,
{
    let left = choose|y: int| #[trigger] grid.occupied(bounds.x as int, y);
    assert(other.holds(bounds.x as int, left));
    let right = choose|y: int| #[trigger] grid.occupied(bounds.x + bounds.width - 1, y);
    assert(other.holds(bounds.x + bounds.width - 1, right));
    let top = choose|x: int| #[trigger] grid.occupied(x, bounds.y as int);
    assert(other.holds(top, bounds.y as int));
    let bottom = choose|x: int| #[trigger] grid.occupied(x, bounds.y + bounds.height - 1);
    assert(other.holds(bottom, bounds.y + bounds.height - 1));
}

/// A grid has at most one bounding box.
pub proof fn lemma_bounding_box_unique(grid: &TileGrid, a: Window, b: Window)
    requires
        grid.bounded_by(a),
        grid.bounded_by(b),
    ensures
        a == b,
{
    lemma_bounding_box_least(grid, a, b);
    lemma_bounding_box_least(grid, b, a);
}

/// The cell `dx` columns right of column `x` and `dy` rows below row `y`.
fn cell_at(grid: &TileGrid, x: usize, dx: usize, y: usize, dy: usize) -> (gid: Option<u32>)
    ensures
        gid == grid.cell(x + dx, y + dy),
{
    match (x.checked_add(dx), y.checked_add(dy)) {
        (Some(column), Some(row)) => grid.get_tile(column, row),
        _ => None,
    }
}

/// The tiles of a rectangle of the grid, row by row, or an error if one of
/// its cells yields a tile that does not fit.
pub fn window_to_tiles(grid: &TileGrid, w: &Window) -> (r: Result<Vec<Tile>, MapError>)
    ensures
        grid.window_fits(*w) ==> (r matches Ok(tiles) && tiles@ == grid.window_tiles(*w)),
        !grid.window_fits(*w) ==> r == Err::<Vec<Tile>, MapError>(MapError::TileIdOverflow),
{
    let mut tiles: Vec<Tile> = Vec::new();
    let mut y: usize = 0;
    while y < w.height
        invariant
            y <= w.height,
            tiles@.len() == y * w.width,
            forall|px: int, py: int|
                w.x <= px < w.x + w.width && w.y <= py < w.y + y ==> gid_fits(
                    #[trigger] grid.cell(px, py),
                ),
            forall|k: int|
                0 <= k < tiles@.len() ==> #[trigger] tiles@[k] == tile_of(
                    grid.cell(w.x + k % (w.width as int), w.y + k / (w.width as int)),
                ),
        decreases w.height - y,
    {
        let mut x: usize = 0;
        while x < w.width
            invariant
                y < w.height,
                x <= w.width,
                tiles@.len() == y * w.width + x,
                forall|px: int, py: int|
                    w.x <= px < w.x + w.width && w.y <= py < w.y + y ==> gid_fits(
                        #[trigger] grid.cell(px, py),
                    ),
                forall|px: int| w.x <= px < w.x + x ==> gid_fits(#[trigger] grid.cell(px, w.y + y)),
                forall|k: int|
                    0 <= k < tiles@.len() ==> #[trigger] tiles@[k] == tile_of(
                        grid.cell(w.x + k % (w.width as int), w.y + k / (w.width as int)),
                    ),
            decreases w.width - x,
        {
            proof {
                lemma_fundamental_div_mod_converse(
                    y * w.width + x,
                    w.width as int,
                    y as int,
                    x as int,
                );
            }
            let gid = cell_at(grid, w.x, x, w.y, y);
            match gid_to_tile(gid) {
                Ok(tile) => {
                    tiles.push(tile);
                },
                Err(e) => {
                    assert(w.holds(w.x + x, w.y + y));
                    return Err(e);
                },
            }
            x += 1;
        }
        assert((y + 1) * w.width == y * w.width + w.width) by (nonlinear_arith);
        y += 1;
    }
    assert(w.height * w.width == w.width * w.height) by (nonlinear_arith);
    assert(tiles@ =~= grid.window_tiles(*w));
    Ok(tiles)
}

/// The tiles of the whole grid, row by row.
pub fn make_main_tile_layer(grid: &TileGrid) -> (r: Result<Vec<Tile>, MapError>)
    ensures
        grid.window_fits(grid.whole()) ==> (r matches Ok(tiles) && tiles@ == grid.window_tiles(
            grid.whole(),
        )),
        !grid.window_fits(grid.whole()) ==> r == Err::<Vec<Tile>, MapError>(
            MapError::TileIdOverflow,
        ),
{
    let whole = Window { x: 0, y: 0, width: grid.width, height: grid.height };
    window_to_tiles(grid, &whole)
}

/// The bounding box of the occupied cells, if any cell is occupied.
pub fn bounding_box(grid: &TileGrid) -> (found: Option<Window>)
    ensures
        match found {
            Some(w) => grid.bounded_by(w),
            None => !grid.any_occupied(),
        },
{
    let mut any = false;
    let mut xmin: usize = 0;
    let mut xmax: usize = 0;
    let mut ymin: usize = 0;
    let mut ymax: usize = 0;
    let ghost mut at_left: int = 0;
    let ghost mut at_right: int = 0;
    let ghost mut at_top: int = 0;
    let mut y: usize = 0;
    while y < grid.height
        invariant
            y <= grid.height,
            forall|px: int, py: int|
                #[trigger] grid.occupied(px, py) && py < y ==> any && xmin <= px <= xmax && ymin
                    <= py <= ymax,
            any ==> {
                &&& xmin <= xmax < grid.width
                &&& ymin <= ymax < y
                &&& grid.occupied(xmin as int, at_left)
                &&& grid.occupied(xmax as int, at_right)
                &&& grid.occupied(at_top, ymin as int)
                &&& exists|px: int| #[trigger] grid.occupied(px, ymax as int)
            },
        decreases grid.height - y,
    {
        let mut x: usize = 0;
        while x < grid.width
            invariant
                y < grid.height,
                x <= grid.width,
                forall|px: int, py: int|
                    #[trigger] grid.occupied(px, py) && (py < y || (py == y && px < x)) ==> any
                        && xmin <= px <= xmax && ymin <= py <= ymax,
                any ==> {
                    &&& xmin <= xmax < grid.width
                    &&& ymin <= ymax <= y
                    &&& grid.occupied(xmin as int, at_left)
                    &&& grid.occupied(xmax as int, at_right)
                    &&& grid.occupied(at_top, ymin as int)
                    &&& exists|px: int| #[trigger] grid.occupied(px, ymax as int)
                },
            decreases grid.width - x,
        {
            if grid.get_tile(x, y).is_some() {
                assert(grid.occupied(x as int, y as int));
                if !any {
                    any = true;
                    xmin = x;
                    xmax = x;
                    ymin = y;
                    ymax = y;
                    proof {
                        at_left = y as int;
                        at_right = y as int;
                        at_top = x as int;
                    }
                } else {
                    if x < xmin {
                        xmin = x;
                        proof {
                            at_left = y as int;
                        }
                    }
                    if x > xmax {
                        xmax = x;
                        proof {
                            at_right = y as int;
                        }
                    }
                    ymax = y;
                }
            }
            x += 1;
        }
        y += 1;
    }
    if any {
        let w = Window { x: xmin, y: ymin, width: xmax - xmin + 1, height: ymax - ymin + 1 };
        assert(grid.covered_by(w)) by {
            assert forall|px: int, py: int| #[trigger] grid.occupied(px, py) implies w.holds(
                px,
                py,
            ) by {
                assert(py < grid.height);
            }
        }
        assert(grid.occupied(w.x as int, at_left));
        assert(grid.occupied(w.x + w.width - 1, at_right));
        assert(grid.occupied(at_top, w.y as int));
        assert(w.y + w.height - 1 == ymax);
        Some(w)
    } else {
        None
    }
}

/// Crops a layer to the bounding box of its occupied cells. A layer
/// without an occupied cell yields no map change.
pub fn make_map_change(grid: &TileGrid) -> (r: Result<Option<MapChange>, MapError>)
    ensures
        !grid.any_occupied() ==> r matches Ok(None),
        grid.any_occupied() && grid.fits() ==> (r matches Ok(Some(change)) && {
            let w = Window {
                x: change.base_x,
                y: change.base_y,
                width: change.width,
                height: change.height,
            };
            &&& grid.bounded_by(w)
            &&& change.tiles@ == grid.window_tiles(w)
        }),
        grid.any_occupied() && !grid.fits() ==> r == Err::<Option<MapChange>, MapError>(
            MapError::TileIdOverflow,
        ),
{
    match bounding_box(grid) {
        None => Ok(None),
        Some(w) => {
            proof {
                lemma_fits_in_bounds(grid, w);
            }
            match window_to_tiles(grid, &w) {
                Ok(tiles) => Ok(
                    Some(
                        MapChange {
                            base_x: w.x,
                            base_y: w.y,
                            width: w.width,
                            height: w.height,
                            tiles,
                        },
                    ),
                ),
                Err(e) => Err(e),
            }
        },
    }
}

/// A grid fits if its bounding box does: the cells outside are empty.
pub proof fn lemma_fits_in_bounds(grid: &TileGrid, w: Window)
    requires
        grid.covered_by(w),
        w.x + w.width <= grid.width,
        w.y + w.height <= grid.height,
    ensures
        grid.window_fits(w) == grid.fits(),
        grid.bounded_by(w) ==> grid.any_occupied(),
{
    if grid.window_fits(w) {
        assert forall|x: int, y: int| 0 <= x < grid.width && 0 <= y < grid.height implies gid_fits(
            #[trigger] grid.cell(x, y),
        ) by {
            if !w.holds(x, y) {
                assert(!grid.occupied(x, y));
            }
        }
    }
    if grid.fits() {
        assert forall|x: int, y: int| w.holds(x, y) implies gid_fits(#[trigger] grid.cell(x, y)) by {}
    }
    if grid.bounded_by(w) {
        let y = choose|y: int| #[trigger] grid.occupied(w.x as int, y);
        assert(grid.occupied(w.x as int, y));
    }
}

} // verus!
