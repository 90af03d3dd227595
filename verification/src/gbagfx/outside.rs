//! The image decoding crates, as far as this library relies on them.
//!
//! Nothing in this file is proved. Each function here makes one call into
//! `image` or `png`, and its contract gives the result of that call a name,
//! so that the verified code around it can say exactly what it does with
//! the result.

use super::color::Color;
use vstd::prelude::*;

verus! {

/// `image::ImageError`, carried through unopened.
#[verifier::external_type_specification]
#[verifier::external_body]
pub struct ExImageError(image::ImageError);

/// `png::DecodingError`, carried through unopened.
#[verifier::external_type_specification]
#[verifier::external_body]
pub struct ExPngDecodingError(png::DecodingError);

/// `image::ImageFormat`, carried through unopened.
#[verifier::external_type_specification]
#[verifier::external_body]
pub struct ExImageFormat(image::ImageFormat);

/// `image::DynamicImage`, a decoded image.
#[verifier::external_type_specification]
#[verifier::external_body]
pub struct ExDynamicImage(image::DynamicImage);

/// What `image::guess_format` makes of the bytes.
pub uninterp spec fn guessed_format(buf: Seq<u8>) -> Result<image::ImageFormat, image::ImageError>;

/// What decoding the bytes as the given format yields.
pub uninterp spec fn decoded(buf: Seq<u8>, format: image::ImageFormat) -> Result<
    image::DynamicImage,
    image::ImageError,
>;

/// The bytes of the palette chunk that a PNG file carries, if it has one.
pub uninterp spec fn png_plte(buf: Seq<u8>) -> Result<Option<Seq<u8>>, png::DecodingError>;

/// Whether the format is PNG.
pub uninterp spec fn is_png_format(format: image::ImageFormat) -> bool;

/// The width of a decoded image.
pub uninterp spec fn image_width(img: image::DynamicImage) -> u32;

/// The height of a decoded image.
pub uninterp spec fn image_height(img: image::DynamicImage) -> u32;

/// The colour of a decoded image at a place, alpha dropped.
pub uninterp spec fn image_pixel(img: image::DynamicImage, x: u32, y: u32) -> Color;

/// The palette bytes of a result, as a sequence.
pub open spec fn plte_view(r: Result<Option<Vec<u8>>, png::DecodingError>) -> Result<
    Option<Seq<u8>>,
    png::DecodingError,
> {
    match r {
        Ok(Some(bytes)) => Ok(Some(bytes@)),
        Ok(None) => Ok(None),
        Err(e) => Err(e),
    }
}

/// Calls `image::guess_format`, which tells the format by the first bytes
/// of the buffer. The result depends on the bytes alone.
#[verifier::external_body]
pub(crate) fn guess_format(buf: &[u8]) -> (r: Result<image::ImageFormat, image::ImageError>)
    ensures
        r == guessed_format(buf@),
{
    image::guess_format(buf)
}

/// Decodes the buffer with `image::ImageReader`, with the format set and
/// the reader's limits left as they are made. The result depends on the
/// bytes and the format alone.
#[verifier::external_body]
pub(crate) fn decode(buf: &[u8], format: image::ImageFormat) -> (r: Result<
    image::DynamicImage,
    image::ImageError,
>)
    ensures
        r == decoded(buf@, format),
{
    let mut reader = image::ImageReader::new(std::io::Cursor::new(buf));
    reader.set_format(format);
    reader.decode()
}

/// Reads the header of a PNG file with `png::Decoder::read_info` and
/// copies the bytes of its palette chunk, if it has one. The result depends
/// on the bytes alone.
#[verifier::external_body]
pub(crate) fn png_palette_bytes(buf: &[u8]) -> (r: Result<Option<Vec<u8>>, png::DecodingError>)
    ensures
        plte_view(r) == png_plte(buf@),
{
    let reader = png::Decoder::new(buf).read_info()?;
    match reader.info().palette.as_ref() {
        Some(bytes) => Ok(Some(bytes.to_vec())),
        None => Ok(None),
    }
}

/// Tells the variant `image::ImageFormat::Png` from the others.
#[verifier::external_body]
pub(crate) fn is_png(format: &image::ImageFormat) -> (b: bool)
    ensures
        b == is_png_format(*format),
{
    match format {
        image::ImageFormat::Png => true,
        _ => false,
    }
}

/// Calls `image::DynamicImage::width`.
#[verifier::external_body]
pub(crate) fn width(img: &image::DynamicImage) -> (w: u32)
    ensures
        w == image_width(*img),
{
    img.width()
}

/// Calls `image::DynamicImage::height`.
#[verifier::external_body]
pub(crate) fn height(img: &image::DynamicImage) -> (h: u32)
    ensures
        h == image_height(*img),
{
    img.height()
}

/// Calls `get_pixel` of `image::GenericImageView`, which panics outside
/// the image, and `to_rgb` of `image::Pixel` on what it returns.
#[verifier::external_body]
pub(crate) fn pixel(img: &image::DynamicImage, x: u32, y: u32) -> (c: Color)
    requires
        x < image_width(*img),
        y < image_height(*img),
    ensures
        c == image_pixel(*img, x, y),
{
    let rgba = image::GenericImageView::get_pixel(img, x, y);
    let image::Rgb([r, g, b]) = image::Pixel::to_rgb(&rgba);
    Color { r, g, b }
}

} // verus!
