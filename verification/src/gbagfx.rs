//! Indexed-colour tile graphics: colours, palettes, indexed images and
//! their 4bpp tile encoding.

pub mod blobs;
pub mod color;
pub mod convert;
pub mod decode;
pub mod error;
pub mod indexed;
pub mod outside;
pub mod palette;
pub mod text;
pub mod tile_laws;
pub mod tiles;

pub use self::color::Color;
pub use self::convert::Raster;
pub use self::decode::{convert_image, read_colors_from_image};
pub use self::error::Error;
pub use self::indexed::{GBAImage, GBAImageView};
pub use self::palette::Palette;
pub use self::text::parse_palette_string;
pub use self::tiles::encode_tiles;
