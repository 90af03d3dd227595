//! The raw map importer: from a grid of sixteen bit tile values, each
//! eight times too large, to a compressed map.

use super::model::MapError;
use crate::lz77::compress::{compress, compress_spec};
use crate::lz77::matcher::CompressionStrategy;
use vstd::prelude::*;

verus! {

/// The sixteen bit word `i` of `raw`, least significant byte first,
/// divided by eight.
pub open spec fn scaled_word(raw: Seq<u8>, i: int) -> int {
    (raw[2 * i] + raw[2 * i + 1] * 256) / 8
}

/// Every sixteen bit word of `raw` divided by eight, as bytes. A last byte
/// without a partner is dropped.
pub open spec fn scaled_words(raw: Seq<u8>) -> Seq<u8> {
    Seq::new(
        2 * (raw.len() / 2),
        |k: int|
            if k % 2 == 0 {
                (scaled_word(raw, k / 2) % 256) as u8
            } else {
                (scaled_word(raw, k / 2) / 256) as u8
            },
    )
}

/// A map before compression: the low byte of the width, the low byte of
/// the height, then the scaled words.
pub open spec fn mar_payload(width: usize, height: usize, raw: Seq<u8>) -> Seq<u8> {
    seq![(width % 256) as u8, (height % 256) as u8] + scaled_words(raw)
}

/// Turns a raw map of `width` by `height` places into a compressed map.
///
/// The raw map must hold two bytes for each place.
pub fn process_mar(width: usize, height: usize, raw: &[u8]) -> (r: Result<Vec<u8>, MapError>)
    ensures
        width * height * 2 == raw@.len() ==> (r matches Ok(out) && out@ == compress_spec(
            mar_payload(width, height, raw@),
            CompressionStrategy::CheckMostRecentOnly,
        )),
        width * height * 2 != raw@.len() ==> r == Err::<Vec<u8>, MapError>(MapError::SizeMismatch),
{
    let len = raw.len();
    let expected = match width.checked_mul(height) {
        Some(area) => area.checked_mul(2),
        None => None,
    };
    proof {
        if width * height > usize::MAX {
            assert(width * height * 2 > usize::MAX) by (nonlinear_arith)
                requires
                    width * height > usize::MAX,
            ;
        }
    }
    if expected != Some(len) {
        return Err(MapError::SizeMismatch);
    }
    let mut payload: Vec<u8> = Vec::new();
    payload.push((width % 256) as u8);
    payload.push((height % 256) as u8);
    let n = len / 2;
    let mut i: usize = 0;
    while i < n
        invariant
            len == raw@.len(),
            n == len / 2,
            i <= n,
            payload@ == seq![(width % 256) as u8, (height % 256) as u8] + scaled_words(raw@).take(
                2 * i,
            ),
        decreases n - i,
    {
        let word: u16 = (raw[2 * i] as u16 + (raw[2 * i + 1] as u16) * 256) / 8;
        payload.push((word % 256) as u8);
        payload.push((word / 256) as u8);
        i += 1;
        assert(payload@ =~= seq![(width % 256) as u8, (height % 256) as u8] + scaled_words(
            raw@,
        ).take(2 * i));
    }
    assert(scaled_words(raw@).take(2 * i) =~= scaled_words(raw@));
    Ok(compress(payload.as_slice(), CompressionStrategy::CheckMostRecentOnly))
}

} // verus!
