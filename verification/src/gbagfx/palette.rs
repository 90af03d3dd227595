//! Palettes and their serialised form.

use super::color::{lemma_unpack_pack, pack15, quantize, unpack15, word_le, Color};
use super::error::Error;
use vstd::prelude::*;
use vstd::std_specs::convert::FromSpecImpl;

verus! {

/// The most colours that a palette of the device holds.
pub const PALETTE_SIZE: usize = 16;

/// An ordered list of colours. The position of a colour is the pixel value
/// that selects it.
#[derive(Clone, Debug)]
pub struct Palette(Vec<Color>);

impl View for Palette {
    type V = Seq<Color>;

    closed spec fn view(&self) -> Seq<Color> {
        self.0@
    }
}

/// The serialised form of a list of colours: two bytes for each, its 15-bit
/// word with the least significant byte first.
pub open spec fn encode_colors(colors: Seq<Color>) -> Seq<u8> {
    Seq::new(
        2 * colors.len(),
        |k: int|
            if k % 2 == 0 {
                (pack15(colors[k / 2]) % 256) as u8
            } else {
                (pack15(colors[k / 2]) / 256) as u8
            },
    )
}

/// The colours that serialised bytes stand for: one for every two bytes. A
/// last byte without a partner is dropped.
pub open spec fn decode_colors(bytes: Seq<u8>) -> Seq<Color> {
    Seq::new(bytes.len() / 2, |i: int| unpack15(word_le(bytes[2 * i], bytes[2 * i + 1])))
}

impl Palette {
    /// The number of colours.
    pub fn len(&self) -> (n: usize)
        ensures
            n == self@.len(),
    {
        self.0.len()
    }

    /// The colours, in order.
    pub fn colors(&self) -> (colors: &Vec<Color>)
        ensures
            colors@ == self@,
    {
        &self.0
    }

    /// The colour at position `idx`, if there is one.
    pub fn lookup(&self, idx: usize) -> (c: Option<Color>)
        ensures
            c == if idx < self@.len() {
                Some(self@[idx as int])
            } else {
                None
            },
    {
        if idx < self.0.len() {
            Some(self.0[idx])
        } else {
            None
        }
    }

    /// The serialised palette: two bytes per colour, no padding.
    pub fn encode(&self) -> (bytes: Vec<u8>)
        ensures
            bytes@ == encode_colors(self@),
    {
        let mut bytes: Vec<u8> = Vec::new();
        let mut i: usize = 0;
        while i < self.0.len()
            invariant
                i <= self.0@.len(),
                bytes@ == encode_colors(self.0@.take(i as int)),
            decreases self.0.len() - i,
        {
            let pair = self.0[i].to_le_bytes();
            bytes.push(pair[0]);
            bytes.push(pair[1]);
            i += 1;
            assert(bytes@ =~= encode_colors(self.0@.take(i as int)));
        }
        assert(self.0@.take(i as int) =~= self.0@);
        bytes
    }

    /// Checks that the palette fits the device.
    pub fn validate(&self) -> (r: Result<(), Error>)
        ensures
            self@.len() <= PALETTE_SIZE ==> r is Ok,
            self@.len() > PALETTE_SIZE ==> r matches Err(Error::TooManyColors),
    {
        if self.0.len() > PALETTE_SIZE {
            return Err(Error::TooManyColors);
        }
        Ok(())
    }

    /// Reads a palette from its serialised form.
    pub fn from_bytes(bytes: &[u8]) -> (p: Self)
        ensures
            p@ == decode_colors(bytes@),
    {
        let mut colors: Vec<Color> = Vec::new();
        let len = bytes.len();
        let n = len / 2;
        let mut i: usize = 0;
        while i < n
            invariant
                len == bytes@.len(),
                n == len / 2,
                i <= n,
                colors@ == decode_colors(bytes@).take(i as int),
            decreases n - i,
        {
            colors.push(Color::from_le_bytes((bytes[2 * i], bytes[2 * i + 1])));
            i += 1;
            assert(colors@ =~= decode_colors(bytes@).take(i as int));
        }
        assert(decode_colors(bytes@).take(i as int) =~= decode_colors(bytes@));
        Palette(colors)
    }
}

impl From<Vec<Color>> for Palette {
    /// The palette that holds `colors`, in their order.
    fn from(colors: Vec<Color>) -> (p: Self)
        ensures
            p@ == colors@,
    {
        Palette(colors)
    }
}

impl FromSpecImpl<Vec<Color>> for Palette {
    open spec fn obeys_from_spec() -> bool {
        true
    }

    closed spec fn from_spec(colors: Vec<Color>) -> Self {
        Palette(colors)
    }
}

/// Reading back a serialised palette gives every colour without the low
/// three bits of each channel, in the same order.
pub proof fn lemma_palette_roundtrip(colors: Seq<Color>)
    ensures
        decode_colors(encode_colors(colors)) == colors.map_values(|c: Color| quantize(c)),
{
    let bytes = encode_colors(colors);
    let back = decode_colors(bytes);
    let want = colors.map_values(|c: Color| quantize(c));
    assert(back.len() == want.len());
    assert forall|i: int| 0 <= i < back.len() implies back[i] == want[i] by {
        lemma_unpack_pack(colors[i]);
        assert((2 * i) % 2 == 0 && (2 * i) / 2 == i);
        assert((2 * i + 1) % 2 == 1 && (2 * i + 1) / 2 == i);
    }
    assert(back =~= want);
}

} // verus!
