//! Options of color-range and transfer-function conversions.

use crate::frame::{ColorRange, ColorSpace, Transfer};
use vstd::prelude::*;

verus! {

/// Options used when converting RGB or YUV code values into luma-like samples.
#[derive(Debug, Clone, Copy, PartialEq, Eq, Structural)]
pub struct ColorTransformOptions {
    /// RGB/YUV matrix family.
    pub color_space: ColorSpace,
    /// Transfer function used by the stored code values.
    pub transfer: Transfer,
    /// Whether the stored code values use full or video-limited range.
    pub range: ColorRange,
    /// Decode RGB transfer functions before computing luma.
    pub linearize_rgb: bool,
}

impl ColorTransformOptions {
    /// Creates transform options from frame metadata.
    pub fn new(color_space: ColorSpace, transfer: Transfer, range: ColorRange) -> (options: Self)
        ensures
            options == (ColorTransformOptions {
                color_space,
                transfer,
                range,
                linearize_rgb: false,
            }),
    {
        Self { color_space, transfer, range, linearize_rgb: false }
    }

    /// Enables or disables RGB transfer-function decoding before luma computation.
    pub fn with_linearize_rgb(self, linearize_rgb: bool) -> (options: Self)
        ensures
            options == (ColorTransformOptions { linearize_rgb, ..self }),
    {
        Self {
            color_space: self.color_space,
            transfer: self.transfer,
            range: self.range,
            linearize_rgb,
        }
    }
}

impl Default for ColorTransformOptions {
    fn default() -> (options: Self)
        ensures
            options == (ColorTransformOptions {
                color_space: ColorSpace::Srgb,
                transfer: Transfer::Srgb,
                range: ColorRange::Full,
                linearize_rgb: false,
            }),
    {
        Self::new(ColorSpace::Srgb, Transfer::Srgb, ColorRange::Full)
    }
}

} // verus!
