//! What a conversion writes, and where its palette comes from.

use super::indexed::GBAImage;
use super::palette::{encode_colors, Palette};
use super::text::{is_palette_text, parse_palette_string, text_colors};
use super::tiles::{encode_tiles, pack_nibbles, tile_pixels};
use crate::ascii::{ascii_lower, to_lower};
use crate::lz77::compress::{compress_spec, maybe_compress};
use crate::lz77::matcher::CompressionStrategy;
use vstd::prelude::*;
use vstd::string::StringSliceAdditionalSpecFns;

verus! {

/// What a conversion writes. A blob that was not asked for is absent.
pub struct Blobs {
    pub tiles: Option<Vec<u8>>,
    pub palette: Option<Vec<u8>>,
}

/// Where a palette named on the command line comes from.
pub enum PaletteSource {
    /// The argument is the palette itself, written as text.
    Text(Palette),
    /// The argument names a file that holds a serialised palette.
    Binary,
    /// The argument names an image whose first pixels are the palette.
    Image,
}

/// `bytes`, compressed with the thorough strategy if `lz77` is set.
pub open spec fn maybe_compressed(lz77: bool, bytes: Seq<u8>) -> Seq<u8> {
    if lz77 {
        compress_spec(bytes, CompressionStrategy::CheckAllCandidates)
    } else {
        bytes
    }
}

/// The bytes of a blob that may be absent.
pub open spec fn blob_view(blob: Option<Vec<u8>>) -> Option<Seq<u8>> {
    match blob {
        Some(bytes) => Some(bytes@),
        None => None,
    }
}

/// Whether `t` ends with a dot and the three small letters given, the
/// letters of `t` in either case.
pub open spec fn has_suffix(t: Seq<u8>, a: u8, b: u8, c: u8) -> bool {
    &&& t.len() >= 4
    &&& t[t.len() - 4] == 0x2e
    &&& ascii_lower(t[t.len() - 3]) == a
    &&& ascii_lower(t[t.len() - 2]) == b
    &&& ascii_lower(t[t.len() - 1]) == c
}

/// Whether a file name ends in `.dmp`, `.bin` or `.pal`, in either case.
pub open spec fn names_palette_file(t: Seq<u8>) -> bool {
    ||| has_suffix(t, 0x64, 0x6d, 0x70)
    ||| has_suffix(t, 0x62, 0x69, 0x6e)
    ||| has_suffix(t, 0x70, 0x61, 0x6c)
}

/// Tells where the palette named by `arg` comes from: from `arg` itself if
/// it is a palette written as text, else from a serialised palette if it
/// ends in `.dmp`, `.bin` or `.pal`, else from an image.
pub fn palette_source(arg: &str) -> (source: PaletteSource)
    ensures
        match source {
            PaletteSource::Text(p) => is_palette_text(arg.spec_bytes()) && p@ == text_colors(
                arg.spec_bytes(),
            ),
            PaletteSource::Binary => !is_palette_text(arg.spec_bytes()) && names_palette_file(
                arg.spec_bytes(),
            ),
            PaletteSource::Image => !is_palette_text(arg.spec_bytes()) && !names_palette_file(
                arg.spec_bytes(),
            ),
        },
{
    match parse_palette_string(arg) {
        Some(p) => {
            return PaletteSource::Text(p);
        },
        None => {},
    }
    let t = arg.as_bytes();
    let n = t.len();
    if n >= 4 && t[n - 4] == 0x2e {
        let a = to_lower(t[n - 3]);
        let b = to_lower(t[n - 2]);
        let c = to_lower(t[n - 1]);
        if (a == 0x64 && b == 0x6d && c == 0x70) || (a == 0x62 && b == 0x69 && c == 0x6e) || (a
            == 0x70 && b == 0x61 && c == 0x6c) {
            return PaletteSource::Binary;
        }
    }
    PaletteSource::Image
}

/// Encodes what was asked for of an image: its tiles, its palette, or
/// both.
///
/// With `lz77` set, the tiles are compressed; the palette is compressed
/// only where the tiles were not asked for.
pub fn encode_outputs(image: &GBAImage, want_tiles: bool, want_palette: bool, lz77: bool) -> (blobs:
    Blobs)
    ensures
        blob_view(blobs.tiles) == if want_tiles {
            Some(maybe_compressed(lz77, pack_nibbles(tile_pixels(image.tile_seq()))))
        } else {
            None
        },
        blob_view(blobs.palette) == if want_palette {
            Some(maybe_compressed(lz77 && !want_tiles, encode_colors(image.palette@)))
        } else {
            None
        },
{
    let tiles = if want_tiles {
        Some(maybe_compress(lz77, encode_tiles(image.tiles())))
    } else {
        None
    };
    let palette = if want_palette {
        Some(maybe_compress(lz77 && !want_tiles, image.palette.encode()))
    } else {
        None
    };
    Blobs { tiles, palette }
}

} // verus!
