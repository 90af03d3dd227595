//! The data that the map transformer reads and writes.

use vstd::prelude::*;

verus! {

/// A tile of the device: the global tile id times four, which leaves the
/// low two bits for the flip flags.
#[derive(Copy, Clone, Debug, PartialEq, Eq, Structural)]
pub struct Tile(pub u16);

/// Why a map could not be built.
#[derive(Copy, Clone, Debug, PartialEq, Eq, Structural)]
pub enum MapError {
    /// No layer holds a finite grid of tiles.
    NoMainLayer,
    /// More than one layer is marked as the main layer.
    MultipleMainLayers,
    /// A global tile id times four does not fit in sixteen bits.
    TileIdOverflow,
    /// A raw map does not hold two bytes for each place.
    SizeMismatch,
}

/// A finite grid of cells, row by row. A cell holds a global tile id or
/// nothing.
pub struct TileGrid {
    pub width: usize,
    pub height: usize,
    pub cells: Vec<Option<u32>>,
}

/// A property of a layer. `value` is the property written as text, where
/// it can be written so.
pub struct Property {
    pub key: String,
    pub value: Option<String>,
}

/// A layer of an authored map. `grid` is absent for a layer that is not a
/// finite layer of tiles.
pub struct Layer {
    pub name: String,
    pub properties: Vec<Property>,
    pub grid: Option<TileGrid>,
}

/// A rectangle of tiles to be laid over the primary map at
/// (`base_x`, `base_y`).
pub struct MapChange {
    pub base_x: usize,
    pub base_y: usize,
    pub width: usize,
    pub height: usize,
    pub tiles: Vec<Tile>,
}

/// A map: the tiles of the primary layer row by row, the map changes by
/// name in the order of their layers, and the properties of the primary
/// layer as pairs of key and value.
pub struct FeMap {
    pub width: usize,
    pub height: usize,
    pub map_changes: Vec<(String, MapChange)>,
    pub tiles: Vec<Tile>,
    pub properties: Vec<(String, String)>,
}

/// The largest global tile id that a tile can hold.
pub const MAX_GID: u32 = 0x3FFF;

/// The tile for a cell: zero for an empty cell, else the id times four.
pub open spec fn tile_of(gid: Option<u32>) -> Tile
    recommends
        gid_fits(gid),
{
    match gid {
        None => Tile(0),
        Some(g) => Tile((g * 4) as u16),
    }
}

/// Whether the tile for a cell fits in sixteen bits.
pub open spec fn gid_fits(gid: Option<u32>) -> bool {
    match gid {
        None => true,
        Some(g) => g <= MAX_GID,
    }
}

/// Tiles as bytes: two for each, least significant first.
pub open spec fn tile_bytes(tiles: Seq<Tile>) -> Seq<u8> {
    Seq::new(
        2 * tiles.len(),
        |k: int|
            if k % 2 == 0 {
                (tiles[k / 2].0 % 256) as u8
            } else {
                (tiles[k / 2].0 / 256) as u8
            },
    )
}

impl Tile {
    pub fn new(value: u16) -> (t: Self)
        ensures
            t == Tile(value),
    {
        Tile(value)
    }
}

impl TileGrid {
    /// The cell at (`x`, `y`); nothing outside the grid.
    pub open spec fn cell(&self, x: int, y: int) -> Option<u32> {
        if 0 <= x < self.width && 0 <= y < self.height && y * self.width + x < self.cells@.len() {
            self.cells@[y * self.width + x]
        } else {
            None
        }
    }

    /// Whether the cell at (`x`, `y`) holds a tile.
    pub open spec fn occupied(&self, x: int, y: int) -> bool {
        self.cell(x, y) is Some
    }

    /// Whether every cell of the grid yields a tile that fits.
    pub open spec fn fits(&self) -> bool {
        forall|x: int, y: int|
            0 <= x < self.width && 0 <= y < self.height ==> gid_fits(#[trigger] self.cell(x, y))
    }

    /// The cell at (`x`, `y`); nothing outside the grid.
    pub fn get_tile(&self, x: usize, y: usize) -> (gid: Option<u32>)
        ensures
            gid == self.cell(x as int, y as int),
    {
        if x >= self.width || y >= self.height {
            return None;
        }
        let n = self.cells.len();
        let row = match y.checked_mul(self.width) {
            Some(row) => row,
            None => {
                return None;
            },
        };
        let idx = match row.checked_add(x) {
            Some(idx) => idx,
            None => {
                return None;
            },
        };
        if idx < n {
            self.cells[idx]
        } else {
            None
        }
    }
}

/// Turns a cell into a tile.
pub fn gid_to_tile(gid: Option<u32>) -> (r: Result<Tile, MapError>)
    ensures
        gid_fits(gid) ==> r == Ok::<Tile, MapError>(tile_of(gid)),
        !gid_fits(gid) ==> r == Err::<Tile, MapError>(MapError::TileIdOverflow),
{
    match gid {
        None => Ok(Tile::new(0)),
        Some(g) => {
            if g > MAX_GID {
                Err(MapError::TileIdOverflow)
            } else {
                Ok(Tile::new((g * 4) as u16))
            }
        },
    }
}

/// Writes tiles as bytes.
pub fn encode_tile_words(tiles: &Vec<Tile>) -> (bytes: Vec<u8>)
    ensures
        bytes@ == tile_bytes(tiles@),
{
    let mut bytes: Vec<u8> = Vec::new();
    let mut i: usize = 0;
    while i < tiles.len()
        invariant
            i <= tiles@.len(),
            bytes@ == tile_bytes(tiles@.take(i as int)),
        decreases tiles.len() - i,
    {
        let word = tiles[i].0;
        bytes.push((word % 256) as u8);
        bytes.push((word / 256) as u8);
        i += 1;
        assert(bytes@ =~= tile_bytes(tiles@.take(i as int)));
    }
    assert(tiles@.take(i as int) =~= tiles@);
    bytes
}

impl MapChange {
    /// The tiles of the map change as bytes, row by row.
    pub fn encode(&self) -> (bytes: Vec<u8>)
        ensures
            bytes@ == tile_bytes(self.tiles@),
    {
        encode_tile_words(&self.tiles)
    }
}

impl FeMap {
    /// The tiles of the primary layer as bytes, row by row.
    pub fn encode(&self) -> (bytes: Vec<u8>)
        ensures
            bytes@ == tile_bytes(self.tiles@),
    {
        encode_tile_words(&self.tiles)
    }
}

} // verus!
