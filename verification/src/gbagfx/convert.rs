//! From decoded pixels to an indexed image: choosing the palette and
//! numbering the pixels.

use super::color::Color;
use super::error::Error;
use super::indexed::GBAImage;
use super::palette::{Palette, PALETTE_SIZE};
use std::collections::{HashMap, HashSet};
use vstd::prelude::*;
use vstd::std_specs::hash::group_hash_axioms;

verus! {

/// A decoded image as plain values: `pixels` holds the colours row by row.
pub struct Raster {
    pub width: usize,
    pub height: usize,
    pub pixels: Vec<Color>,
}

/// The last position of `c` in `colors`, or -1 if it does not occur.
pub open spec fn position_of(colors: Seq<Color>, c: Color) -> int
    decreases colors.len(),
{
    if colors.len() == 0 {
        -1
    } else if colors.last() == c {
        colors.len() - 1
    } else {
        position_of(colors.drop_last(), c)
    }
}

/// The colours of `px`, each once, in the order in which they first occur.
pub open spec fn distinct_colors(px: Seq<Color>) -> Seq<Color>
    decreases px.len(),
{
    if px.len() == 0 {
        Seq::empty()
    } else {
        let before = distinct_colors(px.drop_last());
        if position_of(before, px.last()) >= 0 {
            before
        } else {
            before.push(px.last())
        }
    }
}

/// The part of a given palette that is used: its first sixteen colours.
pub open spec fn usable(given: Seq<Color>) -> Seq<Color> {
    if given.len() > PALETTE_SIZE {
        given.take(PALETTE_SIZE as int)
    } else {
        given
    }
}

/// Whether every colour of `px` occurs in `colors`.
pub open spec fn all_known(colors: Seq<Color>, px: Seq<Color>) -> bool {
    forall|i: int| 0 <= i < px.len() ==> position_of(colors, #[trigger] px[i]) >= 0
}

/// The pixels of `px` as positions in `colors`. Where a colour occurs more
/// than once in `colors`, its last position stands for it.
pub open spec fn indices_of(colors: Seq<Color>, px: Seq<Color>) -> Seq<usize> {
    Seq::new(px.len(), |i: int| position_of(colors, px[i]) as usize)
}

/// The colours of a palette that may be absent.
pub open spec fn colors_of(palette: Option<Palette>) -> Option<Seq<Color>> {
    match palette {
        Some(p) => Some(p@),
        None => None,
    }
}

/// Whether `img` is the image of `width` by `height` pixels `px`, indexed
/// by `colors`.
pub open spec fn indexed_by(
    img: GBAImage,
    width: usize,
    height: usize,
    px: Seq<Color>,
    colors: Seq<Color>,
) -> bool {
    &&& img.palette@ == colors
    &&& img.width == width
    &&& img.height == height
    &&& img.data@ == indices_of(colors, px)
}

/// Whether `r` is what converting the image of `width` by `height` pixels
/// `px` with the palette `given` yields.
///
/// With a palette given, its first sixteen colours become the palette of
/// the image, and a pixel of any other colour is an error. With none, the
/// palette is made of the colours of the image in the order in which they
/// first occur.
pub open spec fn converts_to(
    width: usize,
    height: usize,
    px: Seq<Color>,
    given: Option<Seq<Color>>,
    r: Result<GBAImage, Error>,
) -> bool {
    match given {
        Some(colors) => if all_known(usable(colors), px) {
            r matches Ok(img) && indexed_by(img, width, height, px, usable(colors))
        } else {
            r matches Err(Error::UnknownColor)
        },
        None => r matches Ok(img) && indexed_by(img, width, height, px, distinct_colors(px)),
    }
}

/// The first sixteen pixels, if they are sixteen different colours; else
/// the two rows of eight at the top left, if those are; else nothing.
pub open spec fn guess_spec(width: nat, height: nat, px: Seq<Color>) -> Option<Seq<Color>> {
    if px.len() >= 16 && px.take(16).no_duplicates() {
        Some(px.take(16))
    } else if width >= 8 && height >= 2 && px.len() >= width + 8 && top_left_block(
        width,
        px,
    ).no_duplicates() {
        Some(top_left_block(width, px))
    } else {
        None
    }
}

/// The first eight pixels of the first row, then those of the second.
pub open spec fn top_left_block(width: nat, px: Seq<Color>) -> Seq<Color> {
    px.subrange(0, 8) + px.subrange(width as int, width as int + 8)
}

/// The palette to convert with: the one given, else the one that the file
/// carries, else the one guessed from the top left of the image, else none.
pub open spec fn resolve_spec(
    given: Option<Seq<Color>>,
    carried: Option<Seq<Color>>,
    width: usize,
    height: usize,
    px: Seq<Color>,
) -> Option<Seq<Color>> {
    if given is Some {
        given
    } else if carried is Some {
        carried
    } else {
        guess_spec(width as nat, height as nat, px)
    }
}

/// The colours that a run of red, green and blue bytes stands for. Bytes
/// left over at the end are dropped.
pub open spec fn rgb_triples(bytes: Seq<u8>) -> Seq<Color> {
    Seq::new(
        bytes.len() / 3,
        |i: int| Color { r: bytes[3 * i], g: bytes[3 * i + 1], b: bytes[3 * i + 2] },
    )
}

/// The number that stands for a colour as a key: its three channels side
/// by side.
pub open spec fn color_key(c: Color) -> u32 {
    (c.r as int * 65536 + c.g as int * 256 + c.b as int) as u32
}

/// Whether `map` takes the key of each colour that occurs in `colors` to
/// its last position there, and holds no other key.
pub open spec fn indexes(map: Map<u32, usize>, colors: Seq<Color>) -> bool {
    forall|c: Color|
        #![trigger position_of(colors, c)]
        {
            &&& map.contains_key(color_key(c)) == (position_of(colors, c) >= 0)
            &&& position_of(colors, c) >= 0 ==> map[color_key(c)] == position_of(colors, c)
        }
}

/// Different colours have different keys.
pub proof fn lemma_color_key_injective(a: Color, b: Color)
    requires
        color_key(a) == color_key(b),
    ensures
        a == b,
{
}

/// The key of a colour.
fn key_of(c: Color) -> (k: u32)
    ensures
        k == color_key(c),
{
    (c.r as u32) * 65536 + (c.g as u32) * 256 + (c.b as u32)
}

/// Appends a colour and makes its key point at its place.
fn note_color(map: &mut HashMap<u32, usize>, colors: &mut Vec<Color>, c: Color)
    requires
        indexes(old(map)@, old(colors)@),
    ensures
        final(colors)@ == old(colors)@.push(c),
        indexes(final(map)@, final(colors)@),
{
    broadcast use group_hash_axioms;

    let ghost before = colors@;
    let at = colors.len();
    colors.push(c);
    map.insert(key_of(c), at);
    assert(colors@.drop_last() =~= before);
    assert forall|d: Color| #![trigger position_of(colors@, d)] {
        &&& map@.contains_key(color_key(d)) == (position_of(colors@, d) >= 0)
        &&& position_of(colors@, d) >= 0 ==> map@[color_key(d)] == position_of(colors@, d)
    } by {
        if d != c {
            if color_key(d) == color_key(c) {
                lemma_color_key_injective(d, c);
            }
            assert(position_of(colors@, d) == position_of(before, d));
        }
    }
}

/// The last position of a colour among those noted, if it is among them.
fn lookup_color(map: &HashMap<u32, usize>, colors: Ghost<Seq<Color>>, c: Color) -> (found: Option<
    usize,
>)
    requires
        indexes(map@, colors@),
    ensures
        match found {
            Some(k) => k == position_of(colors@, c),
            None => position_of(colors@, c) < 0,
        },
{
    broadcast use group_hash_axioms;

    let key = key_of(c);
    match map.get(&key) {
        Some(k) => Some(*k),
        None => None,
    }
}

/// Whether no colour occurs twice.
fn all_distinct(colors: &Vec<Color>) -> (b: bool)
    ensures
        b == colors@.no_duplicates(),
{
    broadcast use group_hash_axioms;

    let n = colors.len();
    let mut seen: HashSet<u32> = HashSet::new();
    let mut i: usize = 0;
    while i < n
        invariant
            n == colors@.len(),
            i <= n,
            forall|k: int| 0 <= k < i ==> seen@.contains(color_key(#[trigger] colors@[k])),
            forall|key: u32|
                seen@.contains(key) ==> exists|k: int|
                    0 <= k < i && color_key(#[trigger] colors@[k]) == key,
            forall|a: int, b: int| 0 <= a < b < i ==> colors@[a] != colors@[b],
        decreases n - i,
    {
        let key = key_of(colors[i]);
        let ghost before = seen@;
        if !seen.insert(key) {
            proof {
                let k = choose|k: int| 0 <= k < i && color_key(#[trigger] colors@[k]) == key;
                lemma_color_key_injective(colors@[k], colors@[i as int]);
            }
            return false;
        }
        proof {
            assert forall|a: int, b: int| 0 <= a < b < i + 1 implies colors@[a] != colors@[b] by {
                if b == i {
                    assert(before.contains(color_key(colors@[a])));
                }
            }
            assert forall|other: u32| seen@.contains(other) implies exists|k: int|
                0 <= k < i + 1 && color_key(#[trigger] colors@[k]) == other by {
                if other == key {
                    assert(color_key(colors@[i as int]) == other);
                } else {
                    let k = choose|k: int| 0 <= k < i && color_key(#[trigger] colors@[k]) == other;
                    assert(0 <= k < i + 1 && color_key(colors@[k]) == other);
                }
            }
        }
        i += 1;
    }
    true
}

impl Raster {
    /// The first sixteen pixels as a palette, or all of them where the
    /// image has fewer.
    pub fn leading_colors(&self) -> (p: Palette)
        ensures
            p@ == usable(self.pixels@),
    {
        let n = if self.pixels.len() > PALETTE_SIZE {
            PALETTE_SIZE
        } else {
            self.pixels.len()
        };
        let mut colors: Vec<Color> = Vec::new();
        let mut i: usize = 0;
        while i < n
            invariant
                i <= n <= self.pixels@.len(),
                colors@ == self.pixels@.take(i as int),
            decreases n - i,
        {
            colors.push(self.pixels[i]);
            i += 1;
            assert(colors@ =~= self.pixels@.take(i as int));
        }
        assert(self.pixels@.take(n as int) =~= usable(self.pixels@));
        Palette::from(colors)
    }
}

/// Numbers the pixels of `px` by their last position in `colors`, or
/// reports that a pixel has a colour that does not occur there.
fn index_known(colors: &Vec<Color>, px: &Vec<Color>) -> (r: Option<Vec<usize>>)
    ensures
        match r {
            Some(data) => all_known(colors@, px@) && data@ == indices_of(colors@, px@),
            None => !all_known(colors@, px@),
        },
{
    let mut map: HashMap<u32, usize> = HashMap::new();
    let mut noted: Vec<Color> = Vec::new();
    let mut k: usize = 0;
    while k < colors.len()
        invariant
            k <= colors@.len(),
            noted@ == colors@.take(k as int),
            indexes(map@, noted@),
        decreases colors.len() - k,
    {
        note_color(&mut map, &mut noted, colors[k]);
        k += 1;
        assert(noted@ =~= colors@.take(k as int));
    }
    assert(noted@ =~= colors@);
    let n = px.len();
    let mut data: Vec<usize> = Vec::new();
    let mut i: usize = 0;
    while i < n
        invariant
            n == px@.len(),
            i <= n,
            indexes(map@, colors@),
            all_known(colors@, px@.take(i as int)),
            data@ == indices_of(colors@, px@.take(i as int)),
        decreases n - i,
    {
        match lookup_color(&map, Ghost(colors@), px[i]) {
            Some(k) => {
                data.push(k);
            },
            None => {
                return None;
            },
        }
        i += 1;
        assert(data@ =~= indices_of(colors@, px@.take(i as int)));
    }
    assert(px@.take(i as int) =~= px@);
    Some(data)
}

/// Collects the colours of `px` in the order in which they first occur,
/// and numbers the pixels by them.
fn index_inferred(px: &Vec<Color>) -> (r: (Vec<Color>, Vec<usize>))
    ensures
        r.0@ == distinct_colors(px@),
        r.1@ == indices_of(distinct_colors(px@), px@),
{
    let n = px.len();
    let mut map: HashMap<u32, usize> = HashMap::new();
    let mut found: Vec<Color> = Vec::new();
    let mut data: Vec<usize> = Vec::new();
    let mut i: usize = 0;
    assert(px@.take(0) =~= Seq::<Color>::empty());
    while i < n
        invariant
            n == px@.len(),
            i <= n,
            indexes(map@, found@),
            found@ == distinct_colors(px@.take(i as int)),
            all_known(found@, px@.take(i as int)),
            data@ == indices_of(found@, px@.take(i as int)),
        decreases n - i,
    {
        let c = px[i];
        let ghost before = found@;
        let ghost seen = px@.take(i as int);
        assert(px@.take(i as int + 1).drop_last() =~= seen);
        match lookup_color(&map, Ghost(found@), c) {
            Some(k) => {
                data.push(k);
            },
            None => {
                data.push(found.len());
                note_color(&mut map, &mut found, c);
                assert(found@.drop_last() =~= before);
                assert forall|k: int| 0 <= k < i implies position_of(found@, #[trigger] seen[k])
                    == position_of(before, seen[k]) by {
                    assert(position_of(before, seen[k]) >= 0);
                }
            },
        }
        i += 1;
        assert forall|k: int| 0 <= k < i implies position_of(
            found@,
            #[trigger] px@.take(i as int)[k],
        ) >= 0 by {
            if k < i - 1 {
                assert(px@.take(i as int)[k] == seen[k]);
            }
        }
        assert(data@ =~= indices_of(found@, px@.take(i as int))) by {
            assert forall|k: int| 0 <= k < i implies data@[k] == position_of(
                found@,
                px@.take(i as int)[k],
            ) as usize by {
                if k < i - 1 {
                    assert(px@.take(i as int)[k] == seen[k]);
                    assert(data@[k] == indices_of(before, seen)[k]);
                }
            }
        }
    }
    assert(px@.take(i as int) =~= px@);
    (found, data)
}

impl GBAImage {
    /// Turns decoded pixels into an indexed image.
    ///
    /// With a palette given, its first sixteen colours become the palette
    /// of the image; a pixel of a colour that is not among them is an
    /// error. With none, the palette is made of the colours of the image in
    /// the order in which they first occur. The result is not validated.
    pub fn from_raster(raster: &Raster, colors: Option<Palette>) -> (r: Result<GBAImage, Error>)
        ensures
            converts_to(raster.width, raster.height, raster.pixels@, colors_of(colors), r),
    {
        match colors {
            Some(given) => {
                let all = given.colors();
                let limit = if all.len() > PALETTE_SIZE {
                    PALETTE_SIZE
                } else {
                    all.len()
                };
                let used = copy_range(all, 0, limit);
                assert(used@ =~= usable(given@));
                match index_known(&used, &raster.pixels) {
                    Some(data) => Ok(
                        GBAImage {
                            palette: Palette::from(used),
                            width: raster.width,
                            height: raster.height,
                            data,
                        },
                    ),
                    None => Err(Error::UnknownColor),
                }
            },
            None => {
                let (found, data) = index_inferred(&raster.pixels);
                Ok(
                    GBAImage {
                        palette: Palette::from(found),
                        width: raster.width,
                        height: raster.height,
                        data,
                    },
                )
            },
        }
    }
}

/// Converts decoded pixels with the palette that the rules of precedence
/// select: the one given, else the one carried by the file, else one
/// guessed from the top left of the image, else one made of the colours
/// found.
pub fn convert_raster(raster: &Raster, carried: Option<Palette>, given: Option<Palette>) -> (r:
    Result<GBAImage, Error>)
    ensures
        converts_to(
            raster.width,
            raster.height,
            raster.pixels@,
            resolve_spec(
                colors_of(given),
                colors_of(carried),
                raster.width,
                raster.height,
                raster.pixels@,
            ),
            r,
        ),
{
    let chosen = if given.is_some() {
        given
    } else if carried.is_some() {
        carried
    } else {
        guess_fixed_palette(raster)
    };
    GBAImage::from_raster(raster, chosen)
}

/// Guesses a palette that the image carries in its top left corner.
pub fn guess_fixed_palette(raster: &Raster) -> (p: Option<Palette>)
    ensures
        match guess_spec(raster.width as nat, raster.height as nat, raster.pixels@) {
            Some(colors) => p matches Some(found) && found@ == colors,
            None => p is None,
        },
{
    let n = raster.pixels.len();
    if n >= 16 {
        let colors = copy_range(&raster.pixels, 0, 16);
        assert(colors@ =~= raster.pixels@.take(16));
        if all_distinct(&colors) {
            return Some(Palette::from(colors));
        }
    }
    if raster.width >= 8 && raster.height >= 2 && n >= 8 && n - 8 >= raster.width {
        let mut colors = copy_range(&raster.pixels, 0, 8);
        let mut second = copy_range(&raster.pixels, raster.width, raster.width + 8);
        colors.append(&mut second);
        if all_distinct(&colors) {
            return Some(Palette::from(colors));
        }
    }
    None
}

/// A copy of the colours at `from..to`.
fn copy_range(colors: &Vec<Color>, from: usize, to: usize) -> (part: Vec<Color>)
    requires
        from <= to <= colors@.len(),
    ensures
        part@ == colors@.subrange(from as int, to as int),
{
    let mut part: Vec<Color> = Vec::new();
    let mut i: usize = from;
    while i < to
        invariant
            from <= i <= to <= colors@.len(),
            part@ == colors@.subrange(from as int, i as int),
        decreases to - i,
    {
        part.push(colors[i]);
        i += 1;
        assert(part@ =~= colors@.subrange(from as int, i as int));
    }
    part
}

/// Reads a palette from red, green and blue bytes, as a PNG file carries
/// it.
pub fn palette_from_rgb(bytes: &[u8]) -> (p: Palette)
    ensures
        p@ == rgb_triples(bytes@),
{
    let len = bytes.len();
    let n = len / 3;
    let mut colors: Vec<Color> = Vec::new();
    let mut i: usize = 0;
    while i < n
        invariant
            len == bytes@.len(),
            n == len / 3,
            i <= n,
            colors@ == rgb_triples(bytes@).take(i as int),
        decreases n - i,
    {
        colors.push(Color::rgb(bytes[3 * i], bytes[3 * i + 1], bytes[3 * i + 2]));
        i += 1;
        assert(colors@ =~= rgb_triples(bytes@).take(i as int));
    }
    assert(rgb_triples(bytes@).take(i as int) =~= rgb_triples(bytes@));
    Palette::from(colors)
}

} // verus!
