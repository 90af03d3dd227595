//! Asset preparation for a Game Boy Advance class console: the BIOS LZ77
//! codec, 4bpp tile and palette encoding, and tile map import.

pub mod ascii;
pub mod lz77;
pub mod gbagfx;
pub mod tilemap;
