//! Tile maps: telling the primary layer from the map changes, cropping
//! the map changes, and the raw map importer.

pub mod crop;
pub mod layers;
pub mod mar;
pub mod model;

pub use self::layers::process_femap;
pub use self::mar::process_mar;
pub use self::model::{FeMap, Layer, MapChange, MapError, Property, Tile, TileGrid};
