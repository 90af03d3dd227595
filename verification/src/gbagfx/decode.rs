//! From an image file in memory to an indexed image.

use super::color::Color;
use super::convert::{
    colors_of, convert_raster, converts_to, palette_from_rgb, resolve_spec, rgb_triples, usable,
    Raster,
};
use super::error::Error;
use super::indexed::GBAImage;
use super::outside::{
    decode, decoded, guess_format, guessed_format, height, image_height, image_pixel,
    image_width, is_png, is_png_format, pixel, png_palette_bytes, png_plte, width,
};
use super::palette::{Palette, PALETTE_SIZE};
use vstd::arithmetic::div_mod::lemma_fundamental_div_mod_converse;
use vstd::prelude::*;

verus! {

/// The pixels of a decoded image, row by row.
pub open spec fn image_pixels(img: image::DynamicImage) -> Seq<Color> {
    Seq::new(
        (image_width(img) * image_height(img)) as nat,
        |k: int|
            image_pixel(img, (k % (image_width(img) as int)) as u32, (k / (image_width(img) as int)) as u32),
    )
}

/// Whether `r` is what converting a file yields: the error of the first
/// step that fails, else the conversion of the decoded pixels.
///
/// The steps are: tell the format, unless it is given; read the palette
/// that a PNG file carries, unless one is given; decode the pixels; convert
/// them with the palette that the rules of precedence select.
pub open spec fn convert_image_spec(
    buf: Seq<u8>,
    format: Option<image::ImageFormat>,
    given: Option<Seq<Color>>,
    r: Result<GBAImage, Error>,
) -> bool {
    let told = match format {
        Some(f) => Ok(f),
        None => guessed_format(buf),
    };
    match told {
        Err(e) => r matches Err(Error::ImageError(x)) && x == e,
        Ok(f) => {
            let carried = if given is None && is_png_format(f) {
                png_plte(buf)
            } else {
                Ok(None)
            };
            match carried {
                Err(e) => r matches Err(Error::PngError(x)) && x == e,
                Ok(bytes) => match decoded(buf, f) {
                    Err(e) => r matches Err(Error::ImageError(x)) && x == e,
                    Ok(img) => converts_to(
                        image_width(img) as usize,
                        image_height(img) as usize,
                        image_pixels(img),
                        resolve_spec(
                            given,
                            match bytes {
                                Some(b) => Some(rgb_triples(b)),
                                None => None,
                            },
                            image_width(img) as usize,
                            image_height(img) as usize,
                            image_pixels(img),
                        ),
                        r,
                    ),
                },
            }
        },
    }
}

/// Copies the pixels of a decoded image into plain values.
pub fn rasterize(img: &image::DynamicImage) -> (raster: Raster)
    ensures
        raster.width == image_width(*img),
        raster.height == image_height(*img),
        raster.pixels@ == image_pixels(*img),
{
    let w = width(img);
    let h = height(img);
    let mut pixels: Vec<Color> = Vec::new();
    let mut y: u32 = 0;
    while y < h
        invariant
            w == image_width(*img),
            h == image_height(*img),
            y <= h,
            pixels@.len() == y * w,
            forall|k: int|
                0 <= k < pixels@.len() ==> #[trigger] pixels@[k] == image_pixel(
                    *img,
                    (k % (w as int)) as u32,
                    (k / (w as int)) as u32,
                ),
        decreases h - y,
    {
        let mut x: u32 = 0;
        while x < w
            invariant
                w == image_width(*img),
                h == image_height(*img),
                y < h,
                x <= w,
                pixels@.len() == y * w + x,
                forall|k: int|
                    0 <= k < pixels@.len() ==> #[trigger] pixels@[k] == image_pixel(
                        *img,
                        (k % (w as int)) as u32,
                        (k / (w as int)) as u32,
                    ),
            decreases w - x,
        {
            proof {
                lemma_fundamental_div_mod_converse(y * w + x, w as int, y as int, x as int);
            }
            pixels.push(pixel(img, x, y));
            x += 1;
        }
        assert((y + 1) * w == y * w + w) by (nonlinear_arith);
        y += 1;
    }
    assert(h * w == w * h) by (nonlinear_arith);
    assert(pixels@ =~= image_pixels(*img));
    Raster { width: w as usize, height: h as usize, pixels }
}

/// The first sixteen pixels of a decoded image as a palette, or all of
/// them where the image has fewer.
pub fn read_colors_from_image(img: &image::DynamicImage) -> (p: Palette)
    ensures
        p@ == usable(image_pixels(*img)),
{
    let w = width(img);
    let h = height(img);
    let mut colors: Vec<Color> = Vec::new();
    let mut y: u32 = 0;
    while y < h && colors.len() < PALETTE_SIZE
        invariant
            w == image_width(*img),
            h == image_height(*img),
            y <= h,
            colors@.len() <= PALETTE_SIZE,
            colors@.len() < PALETTE_SIZE ==> colors@.len() == y * w,
            colors@.len() <= image_pixels(*img).len(),
            colors@ == image_pixels(*img).take(colors@.len() as int),
        decreases h - y,
    {
        let mut x: u32 = 0;
        while x < w && colors.len() < PALETTE_SIZE
            invariant
                w == image_width(*img),
                h == image_height(*img),
                y < h,
                x <= w,
                colors@.len() <= PALETTE_SIZE,
                colors@.len() < PALETTE_SIZE ==> colors@.len() == y * w + x,
                colors@.len() <= image_pixels(*img).len(),
                colors@ == image_pixels(*img).take(colors@.len() as int),
            decreases w - x,
        {
            proof {
                lemma_fundamental_div_mod_converse(y * w + x, w as int, y as int, x as int);
                assert(y * w + x < w * h) by (nonlinear_arith)
                    requires
                        0 <= x < w,
                        0 <= y < h,
                ;
            }
            colors.push(pixel(img, x, y));
            x += 1;
            assert(colors@ =~= image_pixels(*img).take(colors@.len() as int));
        }
        assert((y + 1) * w == y * w + w) by (nonlinear_arith);
        y += 1;
    }
    proof {
        let all = image_pixels(*img);
        if colors@.len() < PALETTE_SIZE {
            assert(y == h);
            assert(h * w == w * h) by (nonlinear_arith);
            assert(colors@.len() == all.len());
            assert(all.take(all.len() as int) =~= all);
        }
    }
    Palette::from(colors)
}

/// Reads the palette that a PNG file carries, if it has one.
pub fn load_png_palette(buf: &[u8]) -> (r: Result<Option<Palette>, Error>)
    ensures
        match png_plte(buf@) {
            Ok(Some(bytes)) => r matches Ok(Some(p)) && p@ == rgb_triples(bytes),
            Ok(None) => r matches Ok(None),
            Err(e) => r matches Err(Error::PngError(x)) && x == e,
        },
{
    match png_palette_bytes(buf) {
        Ok(Some(bytes)) => Ok(Some(palette_from_rgb(bytes.as_slice()))),
        Ok(None) => Ok(None),
        Err(e) => Err(Error::PngError(e)),
    }
}

impl GBAImage {
    /// Turns a decoded image into an indexed image, as `from_raster` does
    /// with its pixels.
    pub fn from_generic_image(img: &image::DynamicImage, colors: Option<Palette>) -> (r: Result<
        GBAImage,
        Error,
    >)
        ensures
            converts_to(
                image_width(*img) as usize,
                image_height(*img) as usize,
                image_pixels(*img),
                colors_of(colors),
                r,
            ),
    {
        let raster = rasterize(img);
        GBAImage::from_raster(&raster, colors)
    }

    /// The same as `from_generic_image`.
    pub fn from_image_view(img: &image::DynamicImage, colors: Option<Palette>) -> (r: Result<
        GBAImage,
        Error,
    >)
        ensures
            converts_to(
                image_width(*img) as usize,
                image_height(*img) as usize,
                image_pixels(*img),
                colors_of(colors),
                r,
            ),
    {
        GBAImage::from_generic_image(img, colors)
    }

    /// Indexes a decoded image by the colours found in it.
    pub fn with_inferred_palette(img: &image::DynamicImage) -> (r: Result<GBAImage, Error>)
        ensures
            converts_to(
                image_width(*img) as usize,
                image_height(*img) as usize,
                image_pixels(*img),
                None,
                r,
            ),
    {
        GBAImage::from_generic_image(img, None)
    }

    /// Indexes a decoded image by the first sixteen colours of `palette`.
    pub fn with_known_palette(img: &image::DynamicImage, palette: Palette) -> (r: Result<
        GBAImage,
        Error,
    >)
        ensures
            converts_to(
                image_width(*img) as usize,
                image_height(*img) as usize,
                image_pixels(*img),
                Some(palette@),
                r,
            ),
    {
        GBAImage::from_generic_image(img, Some(palette))
    }
}

/// Converts an image file held in memory into an indexed image.
///
/// Without a format the first bytes decide. Without a palette the one that
/// a PNG file carries is used, else one guessed from the top left of the
/// image, else one made of the colours found.
pub fn convert_image(buf: &[u8], format: Option<image::ImageFormat>, palette: Option<Palette>) -> (r:
    Result<GBAImage, Error>)
    ensures
        convert_image_spec(buf@, format, colors_of(palette), r),
{
    let format = match format {
        Some(f) => f,
        None => match guess_format(buf) {
            Ok(f) => f,
            Err(e) => {
                return Err(Error::ImageError(e));
            },
        },
    };
    let carried = if palette.is_none() && is_png(&format) {
        match load_png_palette(buf) {
            Ok(p) => p,
            Err(e) => {
                return Err(e);
            },
        }
    } else {
        None
    };
    let img = match decode(buf, format) {
        Ok(img) => img,
        Err(e) => {
            return Err(Error::ImageError(e));
        },
    };
    let raster = rasterize(&img);
    convert_raster(&raster, carried, palette)
}

} // verus!
