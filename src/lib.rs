//! Converts a raster image into a grid of private-use glyphs, one glyph per pixel,
//! each glyph holding the pixel's colour at three bits per channel.
//!
//! The pipeline: fit the image to a panel grid ([`resize::resized`]), spread the
//! rounding error of the colour reduction over the neighbouring pixels
//! ([`dither::dither_image`]), and encode every pixel as one glyph
//! ([`encode::image_to_se_string`]).
use vstd::prelude::*;

pub mod raster;
pub mod quantize;
pub mod dither;
pub mod aspect;
pub mod resize;
pub mod encode;

pub use dither::dither_image;
pub use encode::{image_to_se_string, image_to_se_string_with_mode, to_se_char, TransparencyMode};
pub use resize::{
    resized, SQUARE_PANEL_LINE_AMOUNT, SQUARE_PANEL_WIDTH_CHARACTER_AMOUNT,
    SQUARE_PANEL_WIDTH_PIXEL_AMOUNT,
};

verus! {

/// Why a conversion was refused.
#[derive(Clone, Copy, Debug, PartialEq, Eq, Structural)]
pub enum ConvertError {
    /// The source or the target image has zero width or zero height.
    InvalidDimensions,
    /// A component of the aspect ratio is zero.
    InvalidAspectRatio,
    /// A target dimension, or the size of a pixel buffer, does not fit the machine's integers.
    ArithmeticOverflow,
}

} // verus!
