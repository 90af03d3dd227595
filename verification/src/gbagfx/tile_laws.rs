//! Where each pixel of an image lands in its tile encoding.
//!
//! A tile at the right or lower edge of an image whose width or height is
//! no multiple of eight covers fewer than eight columns or rows. It yields
//! the pixels of the places that it shares with the image, so that every
//! pixel of the image lands in the encoding exactly once.

use super::indexed::{GBAImage, GBAImageView, MAX_INDEX};
use super::tiles::{nibble, pack_nibbles, pack_pair, tile_pixels};
use vstd::prelude::*;

verus! {

/// How many rows of an image of height `h` a tile at row `y0` covers.
pub open spec fn rows_at(h: int, y0: int) -> int {
    if h - y0 >= 8 {
        8
    } else {
        h - y0
    }
}

/// How many columns of an image of width `w` a tile at column `x0` covers.
pub open spec fn cols_at(w: int, x0: int) -> int {
    if w - x0 >= 8 {
        8
    } else {
        w - x0
    }
}

/// How many columns of an image of width `w` lie left of column `x0`.
pub open spec fn cols_before(w: int, x0: int) -> int {
    if x0 <= w {
        x0
    } else {
        w
    }
}

/// How many pixels the tiles before the one at (`x0`, `y0`) contribute: the
/// rows of tiles above it, and the tiles to its left.
pub open spec fn stream_base(w: int, h: int, x0: int, y0: int) -> int {
    w * y0 + rows_at(h, y0) * cols_before(w, x0)
}

/// The position of the pixel at (`x`, `y`) in the stream of pixels that the
/// tiles yield: the pixels of the tiles before its tile, then those of the
/// rows above it in its tile, then those to its left.
pub open spec fn stream_index(w: int, h: int, x: int, y: int) -> int {
    stream_base(w, h, 8 * (x / 8), 8 * (y / 8)) + cols_at(w, 8 * (x / 8)) * (y % 8) + x % 8
}

/// Whether the tile that holds (`x`, `y`) is the one at (`x0`, `y0`) or
/// comes after it in raster order.
pub open spec fn at_or_after(x: int, y: int, x0: int, y0: int) -> bool {
    8 * (y / 8) > y0 || (8 * (y / 8) == y0 && 8 * (x / 8) >= x0)
}

/// A place inside a consistent image holds a pixel.
pub proof fn lemma_pixel_in_bounds(img: &GBAImage, x: int, y: int)
    requires
        img.consistent(),
        0 <= x < img.width,
        0 <= y < img.height,
    ensures
        0 <= y * img.width + x < img.data@.len(),
        img.pixel(x, y) == Some(img.data@[y * img.width + x]),
{
    let w = img.width as int;
    let h = img.height as int;
    assert(0 <= y * w + x < w * h) by (nonlinear_arith)
        requires
            0 <= x < w,
            0 <= y < h,
    ;
}

/// What the whole of a consistent image yields from (`x`, `y`) on: the rest
/// of its buffer.
proof fn lemma_whole_rows(img: &GBAImage, x: int, y: int)
    requires
        img.consistent(),
        img.width > 0,
        0 <= y <= img.height,
        0 <= x <= img.width,
        y == img.height ==> x == 0,
    ensures
        0 <= y * img.width + x <= img.data@.len(),
        img.window(0, 0, img.width as int, img.height as int).pixels_from(x, y) == img.data@.skip(
            y * img.width + x,
        ),
    decreases img.height - y, img.width - x,
{
    let w = img.width as int;
    let h = img.height as int;
    let v = img.window(0, 0, w, h);
    assert(0 <= y * w + x <= w * h) by (nonlinear_arith)
        requires
            0 <= x <= w,
            0 <= y <= h,
            y == h ==> x == 0,
    ;
    if y == h {
        assert(y * w + x == w * h) by (nonlinear_arith)
            requires
                y == h,
                x == 0,
        ;
        assert(img.data@.skip(y * w + x) =~= Seq::<usize>::empty());
    } else if x == w {
        lemma_whole_rows(img, 0, y + 1);
        assert((y + 1) * w + 0 == y * w + x) by (nonlinear_arith)
            requires
                x == w,
        ;
    } else {
        lemma_pixel_in_bounds(img, x, y);
        lemma_whole_rows(img, x + 1, y);
        let k = y * w + x;
        assert(v.pixel(x, y) == Some(img.data@[k]));
        assert(seq![img.data@[k]] + img.data@.skip(k + 1) =~= img.data@.skip(k));
    }
}

/// The pixels of an image whose buffer has one pixel for each place are
/// its buffer.
pub proof fn lemma_pixels_are_buffer(img: &GBAImage)
    requires
        img.consistent(),
    ensures
        img.window(0, 0, img.width as int, img.height as int).pixel_seq() == img.data@,
{
    if img.width > 0 {
        lemma_whole_rows(img, 0, 0);
        assert(img.data@.skip(0) =~= img.data@);
    } else {
        assert(img.width * img.height == 0) by (nonlinear_arith)
            requires
                img.width == 0,
        ;
        assert(img.data@ =~= Seq::<usize>::empty());
    }
}

/// The pixels of a list of views that starts with `first`.
pub proof fn lemma_tile_pixels_front(first: GBAImageView<'_>, rest: Seq<GBAImageView<'_>>)
    ensures
        tile_pixels(seq![first] + rest) == first.pixel_seq() + tile_pixels(rest),
    decreases rest.len(),
{
    let all = seq![first] + rest;
    if rest.len() == 0 {
        assert(all.drop_last() =~= Seq::<GBAImageView<'_>>::empty());
        assert(tile_pixels(Seq::<GBAImageView<'_>>::empty()) =~= Seq::<usize>::empty());
        assert(tile_pixels(all) =~= first.pixel_seq() + tile_pixels(rest));
    } else {
        lemma_tile_pixels_front(first, rest.drop_last());
        assert(all.drop_last() =~= seq![first] + rest.drop_last());
        assert(all.last() == rest.last());
        assert(tile_pixels(all) =~= first.pixel_seq() + tile_pixels(rest));
    }
}

/// What a tile yields from (`x`, `y`) on: the pixels of the places from
/// there on that it shares with the image, row by row. The pixel at
/// (`tx`, `ty`) of the tile stands among them where the places count to.
proof fn lemma_tile_rows(img: &GBAImage, x0: int, y0: int, x: int, y: int, tx: int, ty: int)
    requires
        img.consistent(),
        0 <= x0 < img.width,
        0 <= y0 < img.height,
        0 <= y <= rows_at(img.height as int, y0),
        0 <= x <= cols_at(img.width as int, x0),
        y == rows_at(img.height as int, y0) ==> x == 0,
    ensures
        ({
            let tile = img.window(x0, y0, 8, 8);
            let cw = cols_at(img.width as int, x0);
            let r = rows_at(img.height as int, y0);
            let k = cw * (ty - y) + tx - x;
            &&& tile.pixels_from(x, y).len() == cw * (r - y) - x
            &&& 0 <= tx < cw && 0 <= ty < r && (ty > y || (ty == y && tx >= x)) ==> 0 <= k
                < tile.pixels_from(x, y).len() && tile.pixels_from(x, y)[k] == img.data@[(y0 + ty)
                * img.width + x0 + tx]
        }),
    decreases rows_at(img.height as int, y0) - y, cols_at(img.width as int, x0) - x,
{
    let tile = img.window(x0, y0, 8, 8);
    let cw = cols_at(img.width as int, x0);
    let r = rows_at(img.height as int, y0);
    let target = 0 <= tx < cw && 0 <= ty < r && (ty > y || (ty == y && tx >= x));
    if y == r {
        if r < 8 {
            assert forall|c: int, row: int| y <= row implies (#[trigger] tile.pixel(
                c,
                row,
            )) is None by {}
            tile.lemma_rows_rest_empty(y);
        }
        assert(cw * (r - y) == 0) by (nonlinear_arith)
            requires
                r - y == 0,
        ;
    } else if x == cw {
        if cw < 8 {
            assert forall|c: int| x <= c implies (#[trigger] tile.pixel(c, y)) is None by {}
            tile.lemma_row_rest_empty(x, y);
        }
        assert(tile.pixels_from(x, y) == tile.pixels_from(0, y + 1));
        lemma_tile_rows(img, x0, y0, 0, y + 1, tx, ty);
        assert(cw * (r - y) == cw * (r - (y + 1)) + cw) by (nonlinear_arith);
        assert(cw * (ty - y) == cw * (ty - (y + 1)) + cw) by (nonlinear_arith);
    } else {
        lemma_pixel_in_bounds(img, x0 + x, y0 + y);
        lemma_tile_rows(img, x0, y0, x + 1, y, tx, ty);
        let p = img.data@[(y0 + y) * img.width + x0 + x];
        let rest = tile.pixels_from(x + 1, y);
        assert(tile.pixel(x, y) == Some(p));
        assert(tile.pixels_from(x, y) == seq![p] + rest);
        assert(cw * (r - y) >= cw) by (nonlinear_arith)
            requires
                r - y >= 1,
                cw >= 0,
        ;
        if target {
            let k = cw * (ty - y) + tx - x;
            if ty == y {
                assert(cw * (ty - y) == 0) by (nonlinear_arith)
                    requires
                        ty - y == 0,
                ;
            }
            if ty == y && tx == x {
                assert(k == 0);
            } else {
                assert(tile.pixels_from(x, y)[k] == rest[k - 1]);
            }
        }
    }
}

/// A tile yields one pixel for each place that it shares with the image:
/// the pixel at (`tx`, `ty`) of the tile is the one that many rows down and
/// that many places right of its corner.
pub proof fn lemma_tile_content(img: &GBAImage, x0: int, y0: int, tx: int, ty: int)
    requires
        img.consistent(),
        0 <= x0 < img.width,
        0 <= y0 < img.height,
    ensures
        ({
            let tile = img.window(x0, y0, 8, 8);
            let cw = cols_at(img.width as int, x0);
            let r = rows_at(img.height as int, y0);
            &&& tile.pixel_seq().len() == cw * r
            &&& 0 <= tx < cw && 0 <= ty < r ==> 0 <= cw * ty + tx < cw * r && tile.pixel_seq()[cw
                * ty + tx] == img.data@[(y0 + ty) * img.width + x0 + tx]
        }),
{
    lemma_tile_rows(img, x0, y0, 0, 0, tx, ty);
}

/// How many pixels the tiles from (`x0`, `y0`) on yield: all that the image
/// holds, less those of the tiles before.
pub proof fn lemma_stream_len(img: &GBAImage, x0: int, y0: int)
    requires
        img.consistent(),
        x0 % 8 == 0,
        y0 % 8 == 0,
        0 <= x0,
        0 <= y0,
    ensures
        tile_pixels(img.tiles_from(x0, y0)).len() == if y0 < img.height {
            img.width * img.height - stream_base(img.width as int, img.height as int, x0, y0)
        } else {
            0
        },
    decreases
            (if y0 < img.height {
                img.height - y0
            } else {
                0
            }),
            (if x0 < img.width {
                img.width - x0
            } else {
                0
            }),
{
    let w = img.width as int;
    let h = img.height as int;
    if y0 >= h {
    } else if x0 >= w {
        lemma_stream_len(img, 0, y0 + 8);
        assert(img.tiles_from(x0, y0) == img.tiles_from(0, y0 + 8));
        lemma_row_end(w, h, x0, y0);
    } else {
        let tile = img.window(x0, y0, 8, 8);
        let rest = img.tiles_from(x0 + 8, y0);
        lemma_stream_len(img, x0 + 8, y0);
        lemma_tile_content(img, x0, y0, 0, 0);
        lemma_tile_pixels_front(tile, rest);
        lemma_next_tile(w, h, x0, y0);
    }
}

/// The pixels before the row of tiles below are those before the end of
/// this row; below the last row there are none left.
proof fn lemma_row_end(w: int, h: int, x0: int, y0: int)
    requires
        0 <= w <= x0,
        0 <= y0 < h,
    ensures
        y0 + 8 < h ==> stream_base(w, h, 0, y0 + 8) == stream_base(w, h, x0, y0),
        y0 + 8 >= h ==> stream_base(w, h, x0, y0) == w * h,
{
    let r = rows_at(h, y0);
    assert(w * (y0 + r) == w * y0 + r * w) by (nonlinear_arith);
    assert(rows_at(h, y0 + 8) * 0 == 0);
}

/// The pixels before the next tile are those before this one and its own.
proof fn lemma_next_tile(w: int, h: int, x0: int, y0: int)
    requires
        0 <= x0 < w,
    ensures
        stream_base(w, h, x0 + 8, y0) == stream_base(w, h, x0, y0) + cols_at(w, x0) * rows_at(
            h,
            y0,
        ),
{
    let r = rows_at(h, y0);
    let cw = cols_at(w, x0);
    assert(r * (x0 + cw) == r * x0 + cw * r) by (nonlinear_arith);
}

/// Where the pixel at (`x`, `y`) stands among the pixels that the tiles
/// from (`x0`, `y0`) on yield.
pub proof fn lemma_stream_at(img: &GBAImage, x0: int, y0: int, x: int, y: int)
    requires
        img.consistent(),
        x0 % 8 == 0,
        y0 % 8 == 0,
        0 <= x0,
        0 <= y0,
        0 <= x < img.width,
        0 <= y < img.height,
        at_or_after(x, y, x0, y0),
    ensures
        ({
            let w = img.width as int;
            let h = img.height as int;
            let k = stream_index(w, h, x, y) - stream_base(w, h, x0, y0);
            &&& 0 <= k < tile_pixels(img.tiles_from(x0, y0)).len()
            &&& tile_pixels(img.tiles_from(x0, y0))[k] == img.data@[y * w + x]
        }),
    decreases
            (if y0 < img.height {
                img.height - y0
            } else {
                0
            }),
            (if x0 < img.width {
                img.width - x0
            } else {
                0
            }),
{
    let w = img.width as int;
    let h = img.height as int;
    assert(y0 < h);
    if x0 >= w {
        assert(img.tiles_from(x0, y0) == img.tiles_from(0, y0 + 8));
        assert(8 * (y / 8) >= y0 + 8);
        lemma_row_end(w, h, x0, y0);
        lemma_stream_at(img, 0, y0 + 8, x, y);
    } else {
        let tile = img.window(x0, y0, 8, 8);
        let rest = img.tiles_from(x0 + 8, y0);
        let r = rows_at(h, y0);
        let cw = cols_at(w, x0);
        lemma_tile_content(img, x0, y0, x % 8, y % 8);
        lemma_tile_pixels_front(tile, rest);
        lemma_next_tile(w, h, x0, y0);
        if 8 * (y / 8) == y0 && 8 * (x / 8) == x0 {
            assert(y0 + y % 8 == y && x0 + x % 8 == x);
            assert(x % 8 < cw && y % 8 < r);
        } else {
            lemma_stream_at(img, x0 + 8, y0, x, y);
        }
    }
}

/// The tile encoding of an image holds half as many bytes as the image has
/// pixels. This holds of every image whose buffer has one pixel for each
/// place.
pub proof fn lemma_encoded_len(img: &GBAImage)
    requires
        img.consistent(),
    ensures
        tile_pixels(img.tile_seq()).len() == img.width * img.height,
        pack_nibbles(tile_pixels(img.tile_seq())).len() == (img.width * img.height) / 2,
{
    let w = img.width as int;
    let h = img.height as int;
    if h == 0 {
        assert(w * h == 0) by (nonlinear_arith)
            requires
                h == 0,
        ;
    } else {
        lemma_stream_len(img, 0, 0);
        lemma_stream_start(w, h);
    }
}

/// The two halves of a packed byte are the low four bits of its pixels.
pub proof fn lemma_pack_pair(first: usize, second: usize)
    ensures
        pack_pair(first, second) % 16 == first % 16,
        pack_pair(first, second) / 16 == second % 16,
{
    let byte = (first % 16) + (second % 16) * 16;
    assert(0 <= byte < 256);
    assert(byte % 16 == first % 16);
    assert(byte / 16 == second % 16);
}

/// Position `k` of a packed stream holds the low four bits of pixel `k`.
pub proof fn lemma_nibble(px: Seq<usize>, k: int)
    requires
        0 <= k < 2 * (px.len() / 2),
    ensures
        nibble(pack_nibbles(px), k) == px[k] % 16,
{
    let half = k / 2;
    assert(0 <= half < px.len() / 2);
    assert(pack_nibbles(px)[half] == pack_pair(px[2 * half], px[2 * half + 1]));
    lemma_pack_pair(px[2 * half], px[2 * half + 1]);
    if k % 2 == 0 {
        assert(k == 2 * half);
    } else {
        assert(k == 2 * half + 1);
    }
}

/// An image whose width or height is a multiple of eight has an even
/// number of pixels.
proof fn lemma_even_area(w: int, h: int)
    requires
        w % 8 == 0 || h % 8 == 0,
    ensures
        (w * h) % 2 == 0,
{
    if w % 8 == 0 {
        let q = w / 8;
        let m = 4 * (q * h);
        assert(w * h == 2 * m) by (nonlinear_arith)
            requires
                w == 8 * q,
                m == 4 * (q * h),
        ;
    } else {
        let q = h / 8;
        let m = 4 * (w * q);
        assert(w * h == 2 * m) by (nonlinear_arith)
            requires
                h == 8 * q,
                m == 4 * (w * q),
        ;
    }
}

/// The tile encoding loses nothing: the nibble at the stream position of a
/// place holds the pixel of that place. This holds of every place of an
/// image that passes validation.
pub proof fn lemma_encoded_pixel(img: &GBAImage, x: int, y: int)
    requires
        img.valid(),
        0 <= x < img.width,
        0 <= y < img.height,
    ensures
        0 <= stream_index(img.width as int, img.height as int, x, y) < img.width * img.height,
        nibble(
            pack_nibbles(tile_pixels(img.tile_seq())),
            stream_index(img.width as int, img.height as int, x, y),
        ) == img.data@[y * img.width + x],
{
    let w = img.width as int;
    let h = img.height as int;
    let px = tile_pixels(img.tile_seq());
    let k = stream_index(w, h, x, y);
    lemma_encoded_len(img);
    lemma_stream_at(img, 0, 0, x, y);
    lemma_pixel_in_bounds(img, x, y);
    lemma_stream_start(w, h);
    lemma_even_area(w, h);
    assert(px.len() == w * h);
    assert(0 <= k < px.len());
    assert(px[k] == img.data@[y * w + x]);
    lemma_nibble(px, k);
}

/// No pixel comes before the first tile.
proof fn lemma_stream_start(w: int, h: int)
    requires
        0 <= w,
    ensures
        stream_base(w, h, 0, 0) == 0,
{
    assert(w * 0 == 0 && rows_at(h, 0) * 0 == 0) by (nonlinear_arith);
}

} // verus!
