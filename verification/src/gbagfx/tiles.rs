//! The 4bpp tile encoding.

use super::indexed::GBAImageView;
use vstd::prelude::*;

verus! {

/// The pixels of a list of views, one view after the other.
pub open spec fn tile_pixels(tiles: Seq<GBAImageView<'_>>) -> Seq<usize>
    decreases tiles.len(),
{
    if tiles.len() == 0 {
        Seq::empty()
    } else {
        tile_pixels(tiles.drop_last()) + tiles.last().pixel_seq()
    }
}

/// The byte for two pixels: the low four bits of the first in the low
/// nibble, those of the second in the high nibble.
pub open spec fn pack_pair(first: usize, second: usize) -> u8 {
    ((first % 16) + (second % 16) * 16) as u8
}

/// A stream of pixels as bytes, two pixels to a byte. A last pixel without
/// a partner is dropped.
pub open spec fn pack_nibbles(px: Seq<usize>) -> Seq<u8> {
    Seq::new(px.len() / 2, |k: int| pack_pair(px[2 * k], px[2 * k + 1]))
}

/// The pixel that position `k` of a packed stream holds.
pub open spec fn nibble(bytes: Seq<u8>, k: int) -> u8 {
    if k % 2 == 0 {
        bytes[k / 2] % 16
    } else {
        bytes[k / 2] / 16
    }
}

/// Encodes the pixels of `tiles`, in the order given, at four bits per
/// pixel.
pub fn encode_tiles(tiles: Vec<GBAImageView<'_>>) -> (out: Vec<u8>)
    ensures
        out@ == pack_nibbles(tile_pixels(tiles@)),
{
    let mut px: Vec<usize> = Vec::new();
    let mut t: usize = 0;
    assert(tiles@.take(0) =~= Seq::<GBAImageView<'_>>::empty());
    while t < tiles.len()
        invariant
            t <= tiles@.len(),
            px@ == tile_pixels(tiles@.take(t as int)),
        decreases tiles.len() - t,
    {
        let mut more = tiles[t].pixels();
        px.append(&mut more);
        t += 1;
        assert(tiles@.take(t as int).drop_last() =~= tiles@.take(t as int - 1));
    }
    assert(tiles@.take(t as int) =~= tiles@);
    let n = px.len() / 2;
    let mut out: Vec<u8> = Vec::new();
    let mut k: usize = 0;
    while k < n
        invariant
            n == px@.len() / 2,
            px@.len() <= usize::MAX,
            k <= n,
            out@ == pack_nibbles(px@).take(k as int),
        decreases n - k,
    {
        let first = px[2 * k];
        let second = px[2 * k + 1];
        out.push(((first % 16) + (second % 16) * 16) as u8);
        k += 1;
        assert(out@ =~= pack_nibbles(px@).take(k as int));
    }
    assert(pack_nibbles(px@).take(k as int) =~= pack_nibbles(px@));
    out
}

} // verus!
