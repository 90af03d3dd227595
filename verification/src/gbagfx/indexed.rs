//! Indexed images and rectangular views into them.

use super::color::Color;
use super::error::Error;
use super::palette::{Palette, PALETTE_SIZE};
use vstd::prelude::*;

verus! {

/// The side of a tile, in pixels.
pub const TILE: usize = 8;

/// The largest pixel value that four bits hold.
pub const MAX_INDEX: usize = 0xF;

/// An image whose pixels are positions in a palette.
///
/// `data` holds the pixels row by row. An image is fit to be encoded when
/// `valid` holds of it, which `validate` checks.
pub struct GBAImage {
    pub palette: Palette,
    pub width: usize,
    pub height: usize,
    pub data: Vec<usize>,
}

/// A rectangle of `width` by `height` places whose top left corner is at
/// (`x`, `y`) of `owner`. It may reach beyond the image; it then holds a
/// pixel only at the places that it shares with the image.
pub struct GBAImageView<'a> {
    pub owner: &'a GBAImage,
    pub x: usize,
    pub y: usize,
    pub width: usize,
    pub height: usize,
}

impl GBAImage {
    /// The pixel at (`x`, `y`), if the image has one there.
    pub open spec fn pixel(&self, x: int, y: int) -> Option<usize> {
        if 0 <= x < self.width && 0 <= y < self.height && y * self.width + x < self.data@.len() {
            Some(self.data@[y * self.width + x])
        } else {
            None
        }
    }

    /// The colour of the pixel at (`x`, `y`), if the image has a pixel there
    /// and the palette a colour for it.
    pub open spec fn color(&self, x: int, y: int) -> Option<Color> {
        match self.pixel(x, y) {
            Some(idx) => if idx < self.palette@.len() {
                Some(self.palette@[idx as int])
            } else {
                None
            },
            None => None,
        }
    }

    /// The rectangle of `width` by `height` pixels at (`x`, `y`).
    pub open spec fn window(&self, x: int, y: int, width: int, height: int) -> GBAImageView<'_> {
        GBAImageView {
            owner: self,
            x: x as usize,
            y: y as usize,
            width: width as usize,
            height: height as usize,
        }
    }

    /// The tiles from the one at (`x`, `y`) on: the rest of its row of tiles
    /// from left to right, then the rows of tiles below. A tile at the right
    /// or lower edge may reach beyond the image, and then covers fewer than
    /// eight columns or rows of it.
    pub open spec fn tiles_from(&self, x: int, y: int) -> Seq<GBAImageView<'_>>
        decreases
                (if y < self.height {
                    self.height - y
                } else {
                    0
                }),
                (if x < self.width {
                    self.width - x
                } else {
                    0
                }),
    {
        if x < 0 || y < 0 || y >= self.height {
            Seq::empty()
        } else if x >= self.width {
            self.tiles_from(0, y + TILE)
        } else {
            seq![self.window(x, y, TILE as int, TILE as int)] + self.tiles_from(x + TILE, y)
        }
    }

    /// All tiles of the image, in raster order.
    pub open spec fn tile_seq(&self) -> Seq<GBAImageView<'_>> {
        self.tiles_from(0, 0)
    }

    /// Whether the buffer holds one pixel for each place of the image.
    pub open spec fn consistent(&self) -> bool {
        self.data@.len() == self.width * self.height
    }

    /// Whether the image is fit to be encoded: at most sixteen colours, one
    /// pixel for each place, a width or a height that is a multiple of
    /// eight, and no pixel above fifteen.
    pub open spec fn valid(&self) -> bool {
        &&& self.palette@.len() <= PALETTE_SIZE
        &&& self.consistent()
        &&& (self.width % TILE == 0 || self.height % TILE == 0)
        &&& forall|i: int| 0 <= i < self.data@.len() ==> #[trigger] self.data@[i] <= MAX_INDEX
    }

    /// Checks that the image is fit to be encoded. Of several faults the
    /// first in this order is reported: a buffer of the wrong size, too
    /// many colours, bad dimensions, a pixel above fifteen.
    pub fn validate(&self) -> (r: Result<(), Error>)
        ensures
            r is Ok <==> self.valid(),
            r matches Err(e) ==> {
                if !self.consistent() {
                    e is DimensionMismatch
                } else if self.palette@.len() > PALETTE_SIZE {
                    e is TooManyColors
                } else if self.width % TILE != 0 && self.height % TILE != 0 {
                    e is BadDimensions
                } else {
                    e is BadColorIndex
                }
            },
    {
        let n = self.data.len();
        match self.width.checked_mul(self.height) {
            Some(area) => {
                if self.data.len() != area {
                    return Err(Error::DimensionMismatch);
                }
            },
            None => {
                return Err(Error::DimensionMismatch);
            },
        }
        if self.palette.len() > PALETTE_SIZE {
            return Err(Error::TooManyColors);
        }
        if self.width % TILE != 0 && self.height % TILE != 0 {
            return Err(Error::BadDimensions);
        }
        let mut i: usize = 0;
        while i < n
            invariant
                n == self.data@.len(),
                i <= n,
                self.palette@.len() <= PALETTE_SIZE,
                self.consistent(),
                self.width % TILE == 0 || self.height % TILE == 0,
                forall|k: int| 0 <= k < i ==> #[trigger] self.data@[k] <= MAX_INDEX,
            decreases n - i,
        {
            if self.data[i] > MAX_INDEX {
                return Err(Error::BadColorIndex);
            }
            i += 1;
        }
        Ok(())
    }

    /// The pixel at (`x`, `y`), or `None` outside the image.
    pub fn pixel_at(&self, x: usize, y: usize) -> (p: Option<usize>)
        ensures
            p == self.pixel(x as int, y as int),
    {
        if x >= self.width || y >= self.height {
            return None;
        }
        let n = self.data.len();
        let row = match y.checked_mul(self.width) {
            Some(row) => row,
            None => {
                return None;
            },
        };
        let idx = match row.checked_add(x) {
            Some(idx) => idx,
            None => {
                return None;
            },
        };
        if idx < n {
            Some(self.data[idx])
        } else {
            None
        }
    }

    /// The colour of the pixel at (`x`, `y`).
    pub fn color_at(&self, x: usize, y: usize) -> (c: Option<Color>)
        ensures
            c == self.color(x as int, y as int),
    {
        match self.pixel_at(x, y) {
            Some(idx) => self.palette.lookup(idx),
            None => None,
        }
    }

    /// The rectangle of `width` by `height` pixels at (`x`, `y`).
    pub fn view(&self, x: usize, y: usize, width: usize, height: usize) -> (v: GBAImageView<'_>)
        ensures
            v == self.window(x as int, y as int, width as int, height as int),
    {
        GBAImageView { owner: self, x, y, width, height }
    }

    /// The tiles of the image in raster order: left to right, then top to
    /// bottom.
    pub fn tiles(&self) -> (tiles: Vec<GBAImageView<'_>>)
        ensures
            tiles@ == self.tile_seq(),
    {
        let cols: usize = self.width / TILE + if self.width % TILE != 0 {
            1
        } else {
            0
        };
        let rows: usize = self.height / TILE + if self.height % TILE != 0 {
            1
        } else {
            0
        };
        let mut tiles: Vec<GBAImageView<'_>> = Vec::new();
        let mut ty: usize = 0;
        assert(tiles@ + self.tiles_from(0, 0) =~= self.tile_seq());
        while ty < rows
            invariant
                ty <= rows,
                cols as int * 8 >= self.width > (cols as int - 1) * 8,
                rows as int * 8 >= self.height > (rows as int - 1) * 8,
                tiles@ + self.tiles_from(0, ty as int * 8) == self.tile_seq(),
            decreases rows - ty,
        {
            let mut tx: usize = 0;
            while tx < cols
                invariant
                    tx <= cols,
                    ty < rows,
                    cols as int * 8 >= self.width > (cols as int - 1) * 8,
                    rows as int * 8 >= self.height > (rows as int - 1) * 8,
                    tiles@ + self.tiles_from(tx as int * 8, ty as int * 8) == self.tile_seq(),
                decreases cols - tx,
            {
                let ghost before = tiles@;
                let ghost rest = self.tiles_from(tx as int * 8 + 8, ty as int * 8);
                tiles.push(self.view(tx * TILE, ty * TILE, TILE, TILE));
                assert(tiles@ + rest =~= before + (seq![
                    self.window(tx as int * 8, ty as int * 8, 8, 8),
                ] + rest));
                tx += 1;
            }
            ty += 1;
        }
        assert(tiles@ + self.tiles_from(0, ty as int * 8) =~= tiles@);
        tiles
    }

    /// The pixels of the image row by row: one for every place for which
    /// the buffer holds one.
    pub fn pixels(&self) -> (px: Vec<usize>)
        ensures
            px@ == self.window(0, 0, self.width as int, self.height as int).pixel_seq(),
    {
        self.view(0, 0, self.width, self.height).pixels()
    }
}

impl<'a> GBAImageView<'a> {
    /// The pixel at (`x`, `y`) of the view, if that place lies in the view
    /// and in the image.
    pub open spec fn pixel(&self, x: int, y: int) -> Option<usize> {
        if 0 <= x < self.width && 0 <= y < self.height {
            self.owner.pixel(self.x + x, self.y + y)
        } else {
            None
        }
    }

    /// The colour of the pixel at (`x`, `y`) of the view.
    pub open spec fn color(&self, x: int, y: int) -> Option<Color> {
        if 0 <= x < self.width && 0 <= y < self.height {
            self.owner.color(self.x + x, self.y + y)
        } else {
            None
        }
    }

    /// The pixels of the view from (`x`, `y`) on, row by row. A place of
    /// the view for which the image holds no pixel is passed over.
    pub open spec fn pixels_from(&self, x: int, y: int) -> Seq<usize>
        decreases self.height - y, self.width - x,
    {
        if x < 0 || y < 0 || y >= self.height || self.width == 0 {
            Seq::empty()
        } else if x >= self.width {
            self.pixels_from(0, y + 1)
        } else {
            match self.pixel(x, y) {
                None => self.pixels_from(x + 1, y),
                Some(p) => seq![p] + self.pixels_from(x + 1, y),
            }
        }
    }

    /// The pixels of the view, row by row: one for every place of the view
    /// for which the image holds a pixel.
    pub open spec fn pixel_seq(&self) -> Seq<usize> {
        self.pixels_from(0, 0)
    }

    /// Where a place of the view holds no pixel, no place to its right
    /// does.
    pub proof fn lemma_none_to_the_right(&self, x: int, y: int, c: int)
        requires
            0 <= x <= c,
            self.pixel(x, y) is None,
        ensures
            self.pixel(c, y) is None,
    {
    }

    /// Where the first place of a row of the view holds no pixel, no place
    /// of that row or of a row below does.
    pub proof fn lemma_none_below(&self, y: int, c: int, r: int)
        requires
            0 <= y <= r,
            self.pixel(0, y) is None,
        ensures
            self.pixel(c, r) is None,
    {
        let w = self.owner.width as int;
        let top = self.y + y;
        let row = self.y + r;
        assert(top * w <= row * w) by (nonlinear_arith)
            requires
                0 <= top <= row,
                0 <= w,
        ;
    }

    /// A row without a pixel from column `x` on adds nothing: what the view
    /// yields from there is what it yields from the next row on.
    pub proof fn lemma_row_rest_empty(&self, x: int, y: int)
        requires
            0 <= x,
            0 <= y < self.height,
            self.width > 0,
            forall|c: int| x <= c ==> (#[trigger] self.pixel(c, y)) is None,
        ensures
            self.pixels_from(x, y) == self.pixels_from(0, y + 1),
        decreases self.width - x,
    {
        if x < self.width {
            self.lemma_row_rest_empty(x + 1, y);
        }
    }

    /// Rows without a pixel add nothing.
    pub proof fn lemma_rows_rest_empty(&self, y: int)
        requires
            0 <= y,
            forall|c: int, r: int| y <= r ==> (#[trigger] self.pixel(c, r)) is None,
        ensures
            self.pixels_from(0, y) == Seq::<usize>::empty(),
        decreases self.height - y,
    {
        if y < self.height && self.width > 0 {
            self.lemma_row_rest_empty(0, y);
            self.lemma_rows_rest_empty(y + 1);
        }
    }

    /// The pixel at (`x`, `y`) of the view, or `None` outside the view or
    /// the image.
    pub fn pixel_at(&self, x: usize, y: usize) -> (p: Option<usize>)
        ensures
            p == self.pixel(x as int, y as int),
    {
        if x >= self.width || y >= self.height {
            return None;
        }
        let true_x = match self.x.checked_add(x) {
            Some(v) => v,
            None => {
                return None;
            },
        };
        let true_y = match self.y.checked_add(y) {
            Some(v) => v,
            None => {
                return None;
            },
        };
        self.owner.pixel_at(true_x, true_y)
    }

    /// The colour of the pixel at (`x`, `y`) of the view.
    pub fn color_at(&self, x: usize, y: usize) -> (c: Option<Color>)
        ensures
            c == self.color(x as int, y as int),
    {
        match self.pixel_at(x, y) {
            Some(idx) => self.owner.palette.lookup(idx),
            None => None,
        }
    }

    /// The pixels of the view, row by row: one for every place of the view
    /// for which the image holds a pixel.
    pub fn pixels(&self) -> (px: Vec<usize>)
        ensures
            px@ == self.pixel_seq(),
    {
        let mut px: Vec<usize> = Vec::new();
        if self.width == 0 {
            return px;
        }
        let mut y: usize = 0;
        assert(px@ + self.pixels_from(0, 0) =~= self.pixel_seq());
        while y < self.height
            invariant
                y <= self.height,
                self.width > 0,
                px@ + self.pixels_from(0, y as int) == self.pixel_seq(),
            decreases self.height - y,
        {
            if self.pixel_at(0, y).is_none() {
                proof {
                    assert forall|c: int, r: int| y <= r implies (#[trigger] self.pixel(
                        c,
                        r,
                    )) is None by {
                        self.lemma_none_below(y as int, c, r);
                    }
                    self.lemma_rows_rest_empty(y as int);
                    assert(px@ + self.pixels_from(0, y as int) =~= px@);
                }
                return px;
            }
            let mut x: usize = 0;
            let mut open = true;
            while open && x < self.width
                invariant
                    x <= self.width,
                    y < self.height,
                    self.width > 0,
                    open ==> px@ + self.pixels_from(x as int, y as int) == self.pixel_seq(),
                    !open ==> px@ + self.pixels_from(0, y as int + 1) == self.pixel_seq(),
                decreases
                        self.width - x + if open {
                            1int
                        } else {
                            0int
                        },
            {
                match self.pixel_at(x, y) {
                    None => {
                        proof {
                            assert forall|c: int| x <= c implies (#[trigger] self.pixel(
                                c,
                                y as int,
                            )) is None by {
                                self.lemma_none_to_the_right(x as int, y as int, c);
                            }
                            self.lemma_row_rest_empty(x as int, y as int);
                        }
                        open = false;
                    },
                    Some(p) => {
                        let ghost before = px@;
                        let ghost rest = self.pixels_from(x as int + 1, y as int);
                        px.push(p);
                        assert(px@ + rest =~= before + (seq![p] + rest));
                        x += 1;
                    },
                }
            }
            y += 1;
        }
        assert(px@ + self.pixels_from(0, y as int) =~= px@);
        px
    }
}

} // verus!
