//! The LZ77 variant understood by the console's BIOS.
//!
//! A frame is a four byte header followed by groups of up to eight tokens.
//! `frame` defines the byte format, `matcher` the match finder, `compress`
//! and `decompress` the two directions, and `laws` relates them.

pub mod compress;
pub mod decompress;
pub mod frame;
pub mod laws;
pub mod matcher;

pub use self::compress::{compress, maybe_compress};
pub use self::decompress::{decompress, DecompressError};
pub use self::matcher::CompressionStrategy;
