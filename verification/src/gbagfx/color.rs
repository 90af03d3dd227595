//! Colours and their 15-bit form.

use vstd::prelude::*;

verus! {

/// A colour with eight bits per channel.
#[derive(Copy, Clone, Hash, Eq, PartialEq, Debug, Structural)]
pub struct Color {
    pub r: u8,
    pub g: u8,
    pub b: u8,
}

/// The 15-bit word for a colour: the top five bits of blue, green and red,
/// from bit 14 down to bit 0. Bit 15 is clear.
pub open spec fn pack15(c: Color) -> u16 {
    ((c.b / 8) * 1024 + (c.g / 8) * 32 + c.r / 8) as u16
}

/// The colour that a 15-bit word stands for: each five bit field moved to
/// the top of its channel, the low three bits clear. Bit 15 is ignored.
pub open spec fn unpack15(p: u16) -> Color {
    Color {
        r: ((p % 32) * 8) as u8,
        g: (((p / 32) % 32) * 8) as u8,
        b: (((p / 1024) % 32) * 8) as u8,
    }
}

/// A colour as it comes back from its 15-bit form: the low three bits of
/// each channel are lost.
pub open spec fn quantize(c: Color) -> Color {
    Color { r: (c.r / 8 * 8) as u8, g: (c.g / 8 * 8) as u8, b: (c.b / 8 * 8) as u8 }
}

/// The 16-bit word that two bytes hold, least significant byte first.
pub open spec fn word_le(lo: u8, hi: u8) -> u16 {
    (hi * 256 + lo) as u16
}

impl Color {
    pub fn rgb(r: u8, g: u8, b: u8) -> (c: Self)
        ensures
            c == (Color { r, g, b }),
    {
        Self { r, g, b }
    }

    /// Unpacks a 15-bit word.
    pub fn from_16bit(p: u16) -> (c: Self)
        ensures
            c == unpack15(p),
    {
        let r = ((p % 32) as u8) * 8;
        let g = (((p / 32) % 32) as u8) * 8;
        let b = (((p / 1024) % 32) as u8) * 8;
        Self::rgb(r, g, b)
    }

    /// Unpacks a 15-bit word given as two bytes, least significant first.
    pub fn from_le_bytes(bytes: (u8, u8)) -> (c: Self)
        ensures
            c == unpack15(word_le(bytes.0, bytes.1)),
    {
        let (lo, hi) = bytes;
        Self::from_16bit((hi as u16) * 256 + (lo as u16))
    }

    /// Packs the colour into a 15-bit word.
    pub fn to_16bit(self) -> (p: u16)
        ensures
            p == pack15(self),
            p < 0x8000,
    {
        ((self.b / 8) as u16) * 1024 + ((self.g / 8) as u16) * 32 + ((self.r / 8) as u16)
    }

    /// The 15-bit word as two bytes, least significant first.
    pub fn to_le_bytes(self) -> (bytes: [u8; 2])
        ensures
            bytes[0] == pack15(self) % 256,
            bytes[1] == pack15(self) / 256,
    {
        let short = self.to_16bit();
        [(short % 256) as u8, (short / 256) as u8]
    }
}

/// Packing a colour and unpacking the word gives the colour back without
/// the low three bits of each channel.
pub proof fn lemma_unpack_pack(c: Color)
    ensures
        unpack15(pack15(c)) == quantize(c),
        unpack15(word_le((pack15(c) % 256) as u8, (pack15(c) / 256) as u8)) == quantize(c),
{
    let r = (c.r / 8) as int;
    let g = (c.g / 8) as int;
    let b = (c.b / 8) as int;
    let p = b * 1024 + g * 32 + r;
    assert(p % 32 == r);
    assert((p / 32) % 32 == g);
    assert((p / 1024) % 32 == b);
    assert((p / 256) * 256 + p % 256 == p);
}

} // verus!
