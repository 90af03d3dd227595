//! What can go wrong while building or checking an indexed image.

use vstd::prelude::*;

verus! {

/// Why an image could not be converted or does not pass validation.
#[derive(Debug)]
pub enum Error {
    /// The palette holds more than sixteen colours.
    TooManyColors,
    /// A pixel has a colour that the given palette lacks.
    UnknownColor,
    /// Neither the width nor the height is a multiple of eight.
    BadDimensions,
    /// The pixel buffer does not hold width times height entries.
    DimensionMismatch,
    /// A pixel holds an index above fifteen.
    BadColorIndex,
    /// The image could not be decoded.
    ImageError(image::ImageError),
    /// The PNG header could not be read.
    PngError(png::DecodingError),
}

} // verus!
