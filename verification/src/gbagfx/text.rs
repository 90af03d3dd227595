//! Palettes written as text: four hexadecimal digits for each colour.
//!
//! A colour is written as the two bytes of its serialised form, each as two
//! upper case digits. So the digits `abcd` stand for the 15-bit word whose
//! digits are `cdab`.

use super::color::{lemma_unpack_pack, pack15, quantize, unpack15, Color};
use super::palette::Palette;
use vstd::prelude::*;
use vstd::string::StringSliceAdditionalSpecFns;
use vstd::utf8::{encode_utf8, is_ascii_chars_encode_utf8};

verus! {

/// The number of characters in a palette written as text.
pub const PALETTE_TEXT_LEN: usize = 64;

/// Whether a byte is an ASCII hexadecimal digit, of either case.
pub open spec fn is_hex_digit(b: u8) -> bool {
    (0x30 <= b <= 0x39) || (0x41 <= b <= 0x46) || (0x61 <= b <= 0x66)
}

/// The value of a hexadecimal digit.
pub open spec fn hex_value(b: u8) -> int
    recommends
        is_hex_digit(b),
{
    if b <= 0x39 {
        b - 0x30
    } else if b <= 0x46 {
        b - 0x41 + 10
    } else {
        b - 0x61 + 10
    }
}

/// Whether the bytes are a palette written as text: sixty-four
/// hexadecimal digits.
pub open spec fn is_palette_text(t: Seq<u8>) -> bool {
    &&& t.len() == PALETTE_TEXT_LEN
    &&& forall|i: int| 0 <= i < t.len() ==> is_hex_digit(#[trigger] t[i])
}

/// The 15-bit word that group `i` of four digits stands for: the third and
/// fourth digit make its high byte, the first and second its low byte.
pub open spec fn text_word(t: Seq<u8>, i: int) -> u16 {
    (hex_value(t[4 * i + 2]) * 4096 + hex_value(t[4 * i + 3]) * 256 + hex_value(t[4 * i]) * 16
        + hex_value(t[4 * i + 1])) as u16
}

/// The sixteen colours that a palette written as text stands for.
pub open spec fn text_colors(t: Seq<u8>) -> Seq<Color> {
    Seq::new(16, |i: int| unpack15(text_word(t, i)))
}

/// The upper case hexadecimal digit for a value below sixteen.
pub open spec fn hex_char(n: int) -> char
    recommends
        0 <= n < 16,
{
    if n < 10 {
        (0x30 + n) as char
    } else {
        (0x41 + n - 10) as char
    }
}

/// A colour written as text: its low byte, then its high byte.
pub open spec fn color_text(c: Color) -> Seq<char> {
    let lo = pack15(c) % 256;
    let hi = pack15(c) / 256;
    seq![
        hex_char(lo as int / 16),
        hex_char(lo as int % 16),
        hex_char(hi as int / 16),
        hex_char(hi as int % 16),
    ]
}

/// A list of colours written as text, one colour after the other.
pub open spec fn palette_text(colors: Seq<Color>) -> Seq<char>
    decreases colors.len(),
{
    if colors.len() == 0 {
        Seq::empty()
    } else {
        palette_text(colors.drop_last()) + color_text(colors.last())
    }
}

/// Appends a character with `String::push`.
#[verifier::external_body]
fn push_char(s: &mut String, c: char)
    ensures
        final(s)@ == old(s)@.push(c),
{
    s.push(c)
}

/// The value of a hexadecimal digit, if the byte is one.
fn digit_value(b: u8) -> (v: Option<u16>)
    ensures
        match v {
            Some(n) => is_hex_digit(b) && n == hex_value(b),
            None => !is_hex_digit(b),
        },
{
    if 0x30 <= b && b <= 0x39 {
        Some((b - 0x30) as u16)
    } else if 0x41 <= b && b <= 0x46 {
        Some((b - 0x41 + 10) as u16)
    } else if 0x61 <= b && b <= 0x66 {
        Some((b - 0x61 + 10) as u16)
    } else {
        None
    }
}

/// The upper case digit for a value below sixteen.
fn digit_char(n: u8) -> (c: char)
    requires
        n < 16,
    ensures
        c == hex_char(n as int),
{
    if n < 10 {
        (0x30 + n) as char
    } else {
        (0x41 + n - 10) as char
    }
}

/// Appends the four digits of a colour.
fn push_color(s: &mut String, c: Color)
    ensures
        final(s)@ == old(s)@ + color_text(c),
{
    let pair = c.to_le_bytes();
    let lo = pair[0];
    let hi = pair[1];
    push_char(s, digit_char(lo / 16));
    push_char(s, digit_char(lo % 16));
    push_char(s, digit_char(hi / 16));
    push_char(s, digit_char(hi % 16));
    assert(s@ =~= old(s)@ + color_text(c));
}

impl Color {
    /// The colour as four upper case hexadecimal digits.
    pub fn to_string(&self) -> (s: String)
        ensures
            s@ == color_text(*self),
    {
        let mut s = String::new();
        push_color(&mut s, *self);
        assert(s@ =~= color_text(*self));
        s
    }
}

impl Palette {
    /// The palette as text: four upper case hexadecimal digits for each
    /// colour.
    pub fn to_string(&self) -> (s: String)
        ensures
            s@ == palette_text(self@),
    {
        let colors = self.colors();
        let mut s = String::new();
        let mut i: usize = 0;
        assert(colors@.take(0) =~= Seq::<Color>::empty());
        while i < colors.len()
            invariant
                i <= colors@.len(),
                s@ == palette_text(colors@.take(i as int)),
            decreases colors.len() - i,
        {
            push_color(&mut s, colors[i]);
            i += 1;
            assert(colors@.take(i as int).drop_last() =~= colors@.take(i as int - 1));
        }
        assert(colors@.take(i as int) =~= colors@);
        s
    }
}

/// Reads a palette written as text.
///
/// The text must be sixty-four hexadecimal digits, of either case; any
/// other text is not a palette.
pub fn parse_palette_string(s: &str) -> (p: Option<Palette>)
    ensures
        match p {
            Some(palette) => is_palette_text(s.spec_bytes()) && palette@ == text_colors(
                s.spec_bytes(),
            ),
            None => !is_palette_text(s.spec_bytes()),
        },
{
    let t = s.as_bytes();
    if t.len() != PALETTE_TEXT_LEN {
        return None;
    }
    let mut colors: Vec<Color> = Vec::new();
    let mut i: usize = 0;
    while i < 16
        invariant
            t@ == s.spec_bytes(),
            t@.len() == PALETTE_TEXT_LEN,
            i <= 16,
            forall|k: int| 0 <= k < 4 * i ==> is_hex_digit(#[trigger] t@[k]),
            colors@ == text_colors(t@).take(i as int),
        decreases 16 - i,
    {
        let a = match digit_value(t[4 * i]) {
            Some(v) => v,
            None => {
                return None;
            },
        };
        let b = match digit_value(t[4 * i + 1]) {
            Some(v) => v,
            None => {
                return None;
            },
        };
        let c = match digit_value(t[4 * i + 2]) {
            Some(v) => v,
            None => {
                return None;
            },
        };
        let d = match digit_value(t[4 * i + 3]) {
            Some(v) => v,
            None => {
                return None;
            },
        };
        colors.push(Color::from_16bit(c * 4096 + d * 256 + a * 16 + b));
        i += 1;
        assert(colors@ =~= text_colors(t@).take(i as int));
    }
    assert(text_colors(t@).take(16) =~= text_colors(t@));
    Some(Palette::from(colors))
}

/// Where the digits of each colour stand in a palette written as text.
pub proof fn lemma_palette_text_layout(colors: Seq<Color>)
    ensures
        palette_text(colors).len() == 4 * colors.len(),
        forall|k: int|
            0 <= k < 4 * colors.len() ==> #[trigger] palette_text(colors)[k] == color_text(
                colors[k / 4],
            )[k % 4],
    decreases colors.len(),
{
    if colors.len() > 0 {
        let before = colors.drop_last();
        lemma_palette_text_layout(before);
        assert forall|k: int| 0 <= k < 4 * colors.len() implies #[trigger] palette_text(colors)[k]
            == color_text(colors[k / 4])[k % 4] by {
            if k < 4 * before.len() {
                assert(palette_text(colors)[k] == palette_text(before)[k]);
                assert(before[k / 4] == colors[k / 4]);
            } else {
                assert(k / 4 == colors.len() - 1);
                assert(palette_text(colors)[k] == color_text(colors.last())[k - 4 * before.len()]);
            }
        }
    }
}

/// A palette of sixteen colours that is written as text and read again
/// comes back without the low three bits of each channel.
#[verifier::rlimit(30)]
pub proof fn lemma_palette_text_roundtrip(colors: Seq<Color>)
    requires
        colors.len() == 16,
    ensures
        is_palette_text(encode_utf8(palette_text(colors))),
        text_colors(encode_utf8(palette_text(colors))) == colors.map_values(
            |c: Color| quantize(c),
        ),
{
    let text = palette_text(colors);
    let t = encode_utf8(text);
    lemma_palette_text_layout(colors);
    assert forall|k: int| 0 <= k < text.len() implies '\0' <= #[trigger] text[k] <= '\u{7f}' by {
        assert(text[k] == color_text(colors[k / 4])[k % 4]);
    }
    is_ascii_chars_encode_utf8(text);
    assert forall|k: int| 0 <= k < t.len() implies is_hex_digit(#[trigger] t[k]) by {
        assert(text[k] == color_text(colors[k / 4])[k % 4]);
        assert(text[k] as u8 == t[k]);
    }
    let back = text_colors(t);
    let want = colors.map_values(|c: Color| quantize(c));
    assert forall|i: int| 0 <= i < 16 implies back[i] == want[i] by {
        let c = colors[i];
        let lo = (pack15(c) % 256) as int;
        let hi = (pack15(c) / 256) as int;
        assert(text[4 * i] == color_text(colors[(4 * i) / 4])[(4 * i) % 4]);
        assert(text[4 * i + 1] == color_text(colors[(4 * i + 1) / 4])[(4 * i + 1) % 4]);
        assert(text[4 * i + 2] == color_text(colors[(4 * i + 2) / 4])[(4 * i + 2) % 4]);
        assert(text[4 * i + 3] == color_text(colors[(4 * i + 3) / 4])[(4 * i + 3) % 4]);
        assert(text[4 * i] as u8 == t[4 * i]);
        assert(text[4 * i + 1] as u8 == t[4 * i + 1]);
        assert(text[4 * i + 2] as u8 == t[4 * i + 2]);
        assert(text[4 * i + 3] as u8 == t[4 * i + 3]);
        assert(hex_value(t[4 * i]) == lo / 16);
        assert(hex_value(t[4 * i + 1]) == lo % 16);
        assert(hex_value(t[4 * i + 2]) == hi / 16);
        assert(hex_value(t[4 * i + 3]) == hi % 16);
        assert(text_word(t, i) == pack15(c));
        lemma_unpack_pack(c);
    }
    assert(back =~= want);
}

} // verus!
