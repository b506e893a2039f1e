//! Frame representations, pixel-format metadata, and typestate validation.

mod sealed;

use crate::error::{outcome, Error, ErrorView, Result};
use crate::text::{concat3, concat4, concat5, concat6, decimal, decimal_text};
use std::marker::PhantomData;
use vstd::prelude::*;

verus! {

/// A width/height pair in pixels.
#[derive(Debug, Clone, Copy, PartialEq, Eq, Hash, Structural)]
pub struct Dimensions {
    /// Width in pixels.
    pub width: u32,
    /// Height in pixels.
    pub height: u32,
}

/// Rounded-up division.
pub open spec fn ceil_div(value: nat, divisor: nat) -> nat {
    if divisor == 0 {
        0
    } else {
        ((value + divisor - 1) / divisor as int) as nat
    }
}

/// Message for a zero width or height.
pub open spec fn zero_size_error() -> ErrorView {
    ErrorView::InvalidFrame("width and height must be non-zero"@)
}

impl Dimensions {
    /// Checked construction: both sides must be non-zero.
    pub open spec fn checked(width: u32, height: u32) -> core::result::Result<
        Dimensions,
        ErrorView,
    > {
        if width == 0 || height == 0 {
            Err(zero_size_error())
        } else {
            Ok(Dimensions { width, height })
        }
    }

    /// Creates non-zero dimensions.
    pub fn new(width: u32, height: u32) -> (result: Result<Self>)
        ensures
            outcome(result) == Self::checked(width, height),
    {
        if width == 0 || height == 0 {
            return Err(Error::invalid_frame("width and height must be non-zero"));
        }
        Ok(Self { width, height })
    }

    /// Number of pixels, checked into `usize`.
    pub fn pixels(self) -> (result: Result<usize>)
        ensures
            outcome(result) == if self.width * self.height <= usize::MAX {
                Ok::<usize, ErrorView>((self.width * self.height) as usize)
            } else {
                Err(ErrorView::InvalidFrame("pixel count overflows usize"@))
            },
    {
        proof {
            assert(self.width * self.height <= u64::MAX) by (nonlinear_arith)
                requires
                    self.width <= u32::MAX,
                    self.height <= u32::MAX,
            ;
        }
        let px: u64 = self.width as u64 * self.height as u64;
        if px > usize::MAX as u64 {
            return Err(Error::invalid_frame("pixel count overflows usize"));
        }
        Ok(px as usize)
    }

    /// Returns `(width, height)` as `usize`.
    pub fn as_usize(self) -> (result: Result<(usize, usize)>)
        ensures
            outcome(result) == Ok::<(usize, usize), ErrorView>(
                (self.width as usize, self.height as usize),
            ),
    {
        Ok((self.width as usize, self.height as usize))
    }
}

/// Text of a size, as shown in messages.
pub open spec fn size_text(dims: Dimensions) -> Seq<char> {
    "Dimensions { width: "@ + decimal_text(dims.width as nat) + ", height: "@ + decimal_text(
        dims.height as nat,
    ) + " }"@
}

/// Writes a size as its debug text.
pub fn describe_size(dims: Dimensions) -> (text: String)
    ensures
        text@ == size_text(dims),
{
    concat5(
        "Dimensions { width: ",
        decimal(dims.width as u64).as_str(),
        ", height: ",
        decimal(dims.height as u64).as_str(),
        " }",
    )
}

/// RGB/YUV color space metadata.
#[derive(Debug, Clone, Copy, PartialEq, Eq, Hash, Structural)]
pub enum ColorSpace {
    /// sRGB primaries and transfer.
    Srgb,
    /// Linear RGB with Rec.709/sRGB primaries.
    LinearRgb,
    /// ITU-R BT.601 YCbCr.
    Bt601,
    /// ITU-R BT.709 YCbCr / HD video.
    Bt709,
    /// ITU-R BT.2020 YCbCr / UHD video.
    Bt2020,
    /// Unknown or caller-managed color space.
    Unknown,
}

impl Default for ColorSpace {
    fn default() -> (value: Self)
        ensures
            value == ColorSpace::Srgb,
    {
        ColorSpace::Srgb
    }
}

/// Transfer function metadata.
#[derive(Debug, Clone, Copy, PartialEq, Eq, Hash, Structural)]
pub enum Transfer {
    /// sRGB transfer curve.
    Srgb,
    /// Linear samples.
    Linear,
    /// BT.1886/BT.709-ish video gamma.
    Bt1886,
    /// Hybrid log-gamma.
    Hlg,
    /// Perceptual quantizer.
    Pq,
    /// Unknown/caller-managed transfer.
    Unknown,
}

impl Default for Transfer {
    fn default() -> (value: Self)
        ensures
            value == Transfer::Srgb,
    {
        Transfer::Srgb
    }
}

/// Marker trait for range metadata.
pub trait RangeMarker: sealed::Sealed + Copy + Clone {
    /// The range named by this marker.
    spec fn range() -> ColorRange;

    /// Concrete enum value for runtime APIs.
    fn value() -> (range: ColorRange)
        ensures
            range == Self::range(),
    ;
}

/// Full-range samples, e.g. image RGB 0..255.
#[derive(Debug, Clone, Copy)]
pub struct FullRange;

/// Studio/video limited-range samples.
#[derive(Debug, Clone, Copy)]
pub struct LimitedRange;

impl RangeMarker for FullRange {
    open spec fn range() -> ColorRange {
        ColorRange::Full
    }

    fn value() -> (range: ColorRange) {
        ColorRange::Full
    }
}

impl RangeMarker for LimitedRange {
    open spec fn range() -> ColorRange {
        ColorRange::Limited
    }

    fn value() -> (range: ColorRange) {
        ColorRange::Limited
    }
}

/// Runtime color-range enum.
#[derive(Debug, Clone, Copy, PartialEq, Eq, Hash, Structural)]
pub enum ColorRange {
    /// Full-range samples.
    Full,
    /// Limited/video-range samples.
    Limited,
}

impl Default for ColorRange {
    fn default() -> (value: Self)
        ensures
            value == ColorRange::Full,
    {
        ColorRange::Full
    }
}

/// YUV chroma sampling layout.
#[derive(Debug, Clone, Copy, PartialEq, Eq, Hash, Structural)]
pub enum ChromaSampling {
    /// 4:4:4, no chroma subsampling.
    Cs444,
    /// 4:2:2, horizontal chroma subsampling.
    Cs422,
    /// 4:2:0, horizontal and vertical chroma subsampling.
    Cs420,
    /// NV12: Y plane + interleaved UV 4:2:0 plane.
    Nv12,
}

/// Supported in-memory pixel formats.
#[derive(Debug, Clone, Copy, PartialEq, Eq, Hash, Structural)]
#[non_exhaustive]
pub enum PixelFormat {
    /// 8-bit luma, packed single channel.
    Luma8,
    /// 8-bit RGB, packed.
    Rgb8,
    /// 8-bit RGBA, packed.
    Rgba8,
    /// 8-bit BGR, packed.
    Bgr8,
    /// 8-bit BGRA, packed.
    Bgra8,
    /// 16-bit luma, little-endian, packed single channel.
    Luma16Le,
    /// 16-bit RGB, little-endian, packed.
    Rgb16Le,
    /// 16-bit RGBA, little-endian, packed.
    Rgba16Le,
    /// 32-bit float RGB, native-endian, packed.
    RgbF32,
    /// 32-bit float RGBA, native-endian, packed.
    RgbaF32,
    /// Planar YUV 4:4:4, 8-bit.
    Yuv444p8,
    /// Planar YUV 4:2:2, 8-bit.
    Yuv422p8,
    /// Planar YUV 4:2:0, 8-bit.
    Yuv420p8,
    /// NV12, 8-bit: Y plane + interleaved UV plane.
    Nv12,
    /// 8-bit HSV, packed. Hue, saturation, and value are normalized over 0..255.
    Hsv8,
    /// 8-bit HSVA, packed. Hue, saturation, value, and alpha are normalized over 0..255.
    Hsva8,
    /// 1-bit binary mask, one row at a time, least-significant bit first.
    Binary1Lsb,
    /// 1-bit binary mask, one row at a time, most-significant bit first.
    Binary1Msb,
}

impl PixelFormat {
    /// Bytes of one pixel in a packed layout; other layouts have none.
    pub open spec fn pixel_bytes(self) -> Option<usize> {
        match self {
            PixelFormat::Luma8 => Some(1),
            PixelFormat::Luma16Le => Some(2),
            PixelFormat::Rgb8 | PixelFormat::Bgr8 | PixelFormat::Hsv8 => Some(3),
            PixelFormat::Rgba8 | PixelFormat::Bgra8 | PixelFormat::Hsva8 => Some(4),
            PixelFormat::Rgb16Le => Some(6),
            PixelFormat::Rgba16Le => Some(8),
            PixelFormat::RgbF32 => Some(12),
            PixelFormat::RgbaF32 => Some(16),
            _ => None,
        }
    }

    /// One-bit mask layouts.
    pub open spec fn is_mask(self) -> bool {
        self is Binary1Lsb || self is Binary1Msb
    }

    /// Planar or interleaved YUV layouts.
    pub open spec fn is_luma_chroma(self) -> bool {
        self is Yuv444p8 || self is Yuv422p8 || self is Yuv420p8 || self is Nv12
    }

    /// How many planes the layout has.
    pub open spec fn planes(self) -> nat {
        match self {
            PixelFormat::Yuv444p8 | PixelFormat::Yuv422p8 | PixelFormat::Yuv420p8 => 3,
            PixelFormat::Nv12 => 2,
            _ => 1,
        }
    }

    /// Useful bytes of one row of a plane.
    pub open spec fn row_bytes(self, dims: Dimensions, plane: nat) -> nat {
        if self.is_mask() {
            ceil_div(dims.width as nat, 8)
        } else if plane != 0 && (self is Yuv420p8 || self is Yuv422p8) {
            ceil_div(dims.width as nat, 2)
        } else if plane != 0 && self is Nv12 {
            2 * ceil_div(dims.width as nat, 2)
        } else {
            match self.pixel_bytes() {
                Some(bytes) => dims.width as nat * bytes as nat,
                None => dims.width as nat,
            }
        }
    }

    /// Number of rows of a plane.
    pub open spec fn rows(self, dims: Dimensions, plane: nat) -> nat {
        if plane != 0 && (self is Yuv420p8 || self is Nv12) {
            ceil_div(dims.height as nat, 2)
        } else {
            dims.height as nat
        }
    }

    /// The variant's name.
    pub open spec fn label(self) -> Seq<char> {
        match self {
            PixelFormat::Luma8 => "Luma8"@,
            PixelFormat::Rgb8 => "Rgb8"@,
            PixelFormat::Rgba8 => "Rgba8"@,
            PixelFormat::Bgr8 => "Bgr8"@,
            PixelFormat::Bgra8 => "Bgra8"@,
            PixelFormat::Luma16Le => "Luma16Le"@,
            PixelFormat::Rgb16Le => "Rgb16Le"@,
            PixelFormat::Rgba16Le => "Rgba16Le"@,
            PixelFormat::RgbF32 => "RgbF32"@,
            PixelFormat::RgbaF32 => "RgbaF32"@,
            PixelFormat::Yuv444p8 => "Yuv444p8"@,
            PixelFormat::Yuv422p8 => "Yuv422p8"@,
            PixelFormat::Yuv420p8 => "Yuv420p8"@,
            PixelFormat::Nv12 => "Nv12"@,
            PixelFormat::Hsv8 => "Hsv8"@,
            PixelFormat::Hsva8 => "Hsva8"@,
            PixelFormat::Binary1Lsb => "Binary1Lsb"@,
            PixelFormat::Binary1Msb => "Binary1Msb"@,
        }
    }

    /// Message for a plane index that the layout does not have.
    pub open spec fn plane_count_error(self) -> ErrorView {
        ErrorView::InvalidFrame(
            match self {
                PixelFormat::Yuv420p8 => "YUV420p has exactly three planes"@,
                PixelFormat::Yuv422p8 => "YUV422p has exactly three planes"@,
                PixelFormat::Yuv444p8 => "YUV444p has exactly three planes"@,
                PixelFormat::Nv12 => "NV12 has exactly two planes"@,
                PixelFormat::Binary1Lsb | PixelFormat::Binary1Msb =>
                    "binary packed formats have exactly one plane"@,
                _ => "packed formats have exactly one plane"@,
            },
        )
    }

    /// Byte width and height of a plane, or why there is none.
    pub open spec fn checked_plane_dimensions(
        self,
        dims: Dimensions,
        plane: nat,
    ) -> core::result::Result<Dimensions, ErrorView> {
        if plane >= self.planes() {
            Err(self.plane_count_error())
        } else if self.row_bytes(dims, plane) > u32::MAX {
            Err(ErrorView::InvalidFrame("plane width overflows u32"@))
        } else {
            Dimensions::checked(
                self.row_bytes(dims, plane) as u32,
                self.rows(dims, plane) as u32,
            )
        }
    }

    /// Useful bytes in a row, or why there are none.
    pub open spec fn checked_row_bytes(self, dims: Dimensions, plane: nat) -> core::result::Result<
        usize,
        ErrorView,
    > {
        if plane >= self.planes() {
            Err(
                ErrorView::InvalidFrame(
                    "plane "@ + decimal_text(plane) + " does not exist for "@ + self.label(),
                ),
            )
        } else if self.is_luma_chroma() {
            match self.checked_plane_dimensions(dims, plane) {
                Ok(size) => Ok(size.width as usize),
                Err(error) => Err(error),
            }
        } else if self.row_bytes(dims, plane) > usize::MAX {
            Err(ErrorView::InvalidFrame("row byte count overflows usize"@))
        } else {
            Ok(self.row_bytes(dims, plane) as usize)
        }
    }

    /// Message for a stride that is shorter than a row.
    pub open spec fn stride_error(plane: nat, stride: nat, row_bytes: nat) -> ErrorView {
        ErrorView::InvalidFrame(
            "plane "@ + decimal_text(plane) + " stride "@ + decimal_text(stride)
                + " is smaller than required row bytes "@ + decimal_text(row_bytes),
        )
    }

    /// Bytes from the first to the last useful byte of a plane with the given stride.
    pub open spec fn span(self, dims: Dimensions, plane: nat, stride: nat) -> nat {
        let rows = self.rows(dims, plane);
        (stride * (if rows == 0 {
            0
        } else {
            (rows - 1) as nat
        }) + self.row_bytes(dims, plane)) as nat
    }

    /// Minimum byte length of a plane, or why there is none.
    pub open spec fn checked_buffer_len(
        self,
        dims: Dimensions,
        plane: nat,
        stride: nat,
    ) -> core::result::Result<usize, ErrorView> {
        match self.checked_row_bytes(dims, plane) {
            Err(error) => Err(error),
            Ok(row_bytes) => if stride < row_bytes {
                Err(Self::stride_error(plane, stride, row_bytes as nat))
            } else if self.span(dims, plane, stride) > usize::MAX {
                Err(ErrorView::InvalidFrame("plane buffer length overflows usize"@))
            } else {
                Ok(self.span(dims, plane, stride) as usize)
            },
        }
    }

    /// Returns `true` for packed single-plane layouts.
    pub fn is_packed(self) -> (packed: bool)
        ensures
            packed == self.pixel_bytes() is Some,
    {
        matches!(
            self,
            Self::Luma8
                | Self::Rgb8
                | Self::Rgba8
                | Self::Bgr8
                | Self::Bgra8
                | Self::Luma16Le
                | Self::Rgb16Le
                | Self::Rgba16Le
                | Self::RgbF32
                | Self::RgbaF32
                | Self::Hsv8
                | Self::Hsva8
        )
    }

    /// Returns `true` for 1-bit packed mask layouts.
    pub fn is_bit_packed(self) -> (mask: bool)
        ensures
            mask == self.is_mask(),
    {
        matches!(self, Self::Binary1Lsb | Self::Binary1Msb)
    }

    /// Returns `true` for planar/interleaved YUV layouts.
    pub fn is_yuv(self) -> (yuv: bool)
        ensures
            yuv == self.is_luma_chroma(),
    {
        matches!(
            self,
            Self::Yuv444p8 | Self::Yuv422p8 | Self::Yuv420p8 | Self::Nv12
        )
    }

    /// Number of planes.
    pub fn plane_count(self) -> (count: usize)
        ensures
            count == self.planes(),
    {
        match self {
            Self::Yuv444p8 | Self::Yuv422p8 | Self::Yuv420p8 => 3,
            Self::Nv12 => 2,
            _ => 1,
        }
    }

    /// Bytes per pixel for packed layouts.
    pub fn bytes_per_pixel(self) -> (bytes: Option<usize>)
        ensures
            bytes == self.pixel_bytes(),
    {
        match self {
            Self::Luma8 => Some(1),
            Self::Rgb8 | Self::Bgr8 | Self::Hsv8 => Some(3),
            Self::Rgba8 | Self::Bgra8 | Self::Hsva8 => Some(4),
            Self::Luma16Le => Some(2),
            Self::Rgb16Le => Some(6),
            Self::Rgba16Le => Some(8),
            Self::RgbF32 => Some(12),
            Self::RgbaF32 => Some(16),
            _ => None,
        }
    }

    /// How many logical channels the layout has: one for luma and masks, four
    /// with alpha, otherwise three.
    pub open spec fn channels(self) -> nat {
        match self {
            PixelFormat::Luma8
            | PixelFormat::Luma16Le
            | PixelFormat::Binary1Lsb
            | PixelFormat::Binary1Msb => 1,
            PixelFormat::Rgba8
            | PixelFormat::Bgra8
            | PixelFormat::Rgba16Le
            | PixelFormat::RgbaF32
            | PixelFormat::Hsva8 => 4,
            _ => 3,
        }
    }

    /// Logical channels included by the format.
    pub fn channel_count(self) -> (count: usize)
        ensures
            count == self.channels(),
    {
        match self {
            Self::Luma8 | Self::Luma16Le => 1,
            Self::Rgb8 | Self::Bgr8 | Self::Rgb16Le | Self::RgbF32 | Self::Hsv8 => 3,
            Self::Rgba8 | Self::Bgra8 | Self::Rgba16Le | Self::RgbaF32 | Self::Hsva8 => 4,
            Self::Yuv444p8 | Self::Yuv422p8 | Self::Yuv420p8 => 3,
            Self::Nv12 => 3,
            Self::Binary1Lsb | Self::Binary1Msb => 1,
        }
    }

    /// Suggested color space for the format.
    pub fn default_color_space(self) -> (space: ColorSpace)
        ensures
            space == if self.is_luma_chroma() {
                ColorSpace::Bt709
            } else {
                ColorSpace::Srgb
            },
    {
        if self.is_yuv() {
            ColorSpace::Bt709
        } else {
            ColorSpace::Srgb
        }
    }

    /// The variant's name as text.
    pub fn name(self) -> (text: &'static str)
        ensures
            text@ == self.label(),
    {
        match self {
            Self::Luma8 => "Luma8",
            Self::Rgb8 => "Rgb8",
            Self::Rgba8 => "Rgba8",
            Self::Bgr8 => "Bgr8",
            Self::Bgra8 => "Bgra8",
            Self::Luma16Le => "Luma16Le",
            Self::Rgb16Le => "Rgb16Le",
            Self::Rgba16Le => "Rgba16Le",
            Self::RgbF32 => "RgbF32",
            Self::RgbaF32 => "RgbaF32",
            Self::Yuv444p8 => "Yuv444p8",
            Self::Yuv422p8 => "Yuv422p8",
            Self::Yuv420p8 => "Yuv420p8",
            Self::Nv12 => "Nv12",
            Self::Hsv8 => "Hsv8",
            Self::Hsva8 => "Hsva8",
            Self::Binary1Lsb => "Binary1Lsb",
            Self::Binary1Msb => "Binary1Msb",
        }
    }

    /// Returns the plane dimensions for a plane index.
    ///
    /// The width counts bytes for packed and mask layouts, samples otherwise.
    pub fn plane_dimensions(self, dims: Dimensions, plane: usize) -> (result: Result<Dimensions>)
        ensures
            outcome(result) == self.checked_plane_dimensions(dims, plane as nat),
    {
        let w: u64 = dims.width as u64;
        let h: u64 = dims.height as u64;
        let (pw, ph): (u64, u64) = match self {
            Self::Yuv420p8 => match plane {
                0 => (w, h),
                1 | 2 => ((w + 1) / 2, (h + 1) / 2),
                _ => return Err(Error::invalid_frame("YUV420p has exactly three planes")),
            },
            Self::Yuv422p8 => match plane {
                0 => (w, h),
                1 | 2 => ((w + 1) / 2, h),
                _ => return Err(Error::invalid_frame("YUV422p has exactly three planes")),
            },
            Self::Yuv444p8 => match plane {
                0 | 1 | 2 => (w, h),
                _ => return Err(Error::invalid_frame("YUV444p has exactly three planes")),
            },
            Self::Nv12 => match plane {
                0 => (w, h),
                1 => ((w + 1) / 2 * 2, (h + 1) / 2),
                _ => return Err(Error::invalid_frame("NV12 has exactly two planes")),
            },
            Self::Binary1Lsb | Self::Binary1Msb => match plane {
                0 => ((w + 7) / 8, h),
                _ => return Err(
                    Error::invalid_frame("binary packed formats have exactly one plane"),
                ),
            },
            _ => match plane {
                0 => match self.bytes_per_pixel() {
                    Some(bytes) => {
                        proof {
                            lemma_row_product(dims.width, bytes);
                        }
                        (w * bytes as u64, h)
                    },
                    None => (w, h),
                },
                _ => return Err(Error::invalid_frame("packed formats have exactly one plane")),
            },
        };
        if pw > u32::MAX as u64 {
            return Err(Error::invalid_frame("plane width overflows u32"));
        }
        Dimensions::new(pw as u32, ph as u32)
    }

    /// Minimum useful bytes in one row for the requested plane.
    pub fn plane_row_bytes(self, dims: Dimensions, plane: usize) -> (result: Result<usize>)
        ensures
            outcome(result) == self.checked_row_bytes(dims, plane as nat),
    {
        if plane >= self.plane_count() {
            return Err(
                Error::invalid_frame(
                    concat4(
                        "plane ",
                        decimal(plane as u64).as_str(),
                        " does not exist for ",
                        self.name(),
                    ).as_str(),
                ),
            );
        }
        if let Some(bytes) = self.bytes_per_pixel() {
            match (dims.width as usize).checked_mul(bytes) {
                Some(row_bytes) => Ok(row_bytes),
                None => Err(Error::invalid_frame("row byte count overflows usize")),
            }
        } else if self.is_bit_packed() {
            Ok(((dims.width as u64 + 7) / 8) as usize)
        } else {
            match self.plane_dimensions(dims, plane) {
                Ok(size) => Ok(size.width as usize),
                Err(error) => Err(error),
            }
        }
    }

    /// Minimum valid byte length for a plane using the supplied row stride.
    pub fn plane_buffer_len(self, dims: Dimensions, plane: usize, stride: usize) -> (result: Result<
        usize,
    >)
        ensures
            outcome(result) == self.checked_buffer_len(dims, plane as nat, stride as nat),
    {
        let row_bytes: usize = match self.plane_row_bytes(dims, plane) {
            Ok(row_bytes) => row_bytes,
            Err(error) => return Err(error),
        };
        if stride < row_bytes {
            return Err(stride_failure(plane, stride, row_bytes));
        }
        let height: usize = if self.is_packed() || self.is_bit_packed() {
            dims.height as usize
        } else {
            match self.plane_dimensions(dims, plane) {
                Ok(size) => size.height as usize,
                Err(error) => return Err(error),
            }
        };
        match stride.checked_mul(height.saturating_sub(1)) {
            Some(length) => match length.checked_add(row_bytes) {
                Some(total) => Ok(total),
                None => Err(Error::invalid_frame("plane buffer length overflows usize")),
            },
            None => Err(Error::invalid_frame("plane buffer length overflows usize")),
        }
    }
}

/// The product of a 32-bit width and a pixel size stays far below 64 bits.
proof fn lemma_row_product(width: u32, bytes: usize)
    requires
        bytes <= 16,
    ensures
        width * bytes <= 0xffff_ffff * 16,
        width as nat * bytes as nat == width * bytes,
{
    assert(width * bytes <= 0xffff_ffff * 16) by (nonlinear_arith)
        requires
            width <= 0xffff_ffff,
            bytes <= 16,
    ;
}

/// Error for a stride that is shorter than a row.
fn stride_failure(plane: usize, stride: usize, row_bytes: usize) -> (error: Error)
    ensures
        error@ == PixelFormat::stride_error(plane as nat, stride as nat, row_bytes as nat),
{
    Error::invalid_frame(
        concat6(
            "plane ",
            decimal(plane as u64).as_str(),
            " stride ",
            decimal(stride as u64).as_str(),
            " is smaller than required row bytes ",
            decimal(row_bytes as u64).as_str(),
        ).as_str(),
    )
}

/// Pixel-format metadata attached to a frame.
#[derive(Debug, Clone, Copy, PartialEq, Eq, Hash, Structural)]
pub struct FormatSpec {
    /// Pixel layout.
    pub pixel_format: PixelFormat,
    /// Color-space metadata.
    pub color_space: ColorSpace,
    /// Transfer-function metadata.
    pub transfer: Transfer,
    /// Full or limited range.
    pub range: ColorRange,
}

impl FormatSpec {
    /// Default metadata: BT.709 with the video curve for YUV, sRGB otherwise, full range.
    pub open spec fn standard(pixel_format: PixelFormat) -> FormatSpec {
        if pixel_format.is_luma_chroma() {
            FormatSpec {
                pixel_format,
                color_space: ColorSpace::Bt709,
                transfer: Transfer::Bt1886,
                range: ColorRange::Full,
            }
        } else {
            FormatSpec {
                pixel_format,
                color_space: ColorSpace::Srgb,
                transfer: Transfer::Srgb,
                range: ColorRange::Full,
            }
        }
    }

    /// Creates a full-range format spec using the pixel format's default color space.
    pub fn new(pixel_format: PixelFormat) -> (format: Self)
        ensures
            format == Self::standard(pixel_format),
    {
        Self {
            pixel_format,
            color_space: pixel_format.default_color_space(),
            transfer: if pixel_format.is_yuv() {
                Transfer::Bt1886
            } else {
                Transfer::Srgb
            },
            range: ColorRange::Full,
        }
    }

    /// Creates a format spec with explicit metadata.
    pub fn with_metadata(
        pixel_format: PixelFormat,
        color_space: ColorSpace,
        transfer: Transfer,
        range: ColorRange,
    ) -> (format: Self)
        ensures
            format == (FormatSpec { pixel_format, color_space, transfer, range }),
    {
        Self { pixel_format, color_space, transfer, range }
    }

    /// Returns the same format with a different range marker.
    pub fn typed_range<R: RangeMarker>(self) -> (format: Self)
        ensures
            format == (FormatSpec { range: R::range(), ..self }),
    {
        Self {
            pixel_format: self.pixel_format,
            color_space: self.color_space,
            transfer: self.transfer,
            range: R::value(),
        }
    }
}

/// Marker: the frame has not been validated.
#[derive(Debug, Clone, Copy)]
pub enum Unchecked {
    /// Only value of the marker.
    Marker,
}

/// Marker: dimensions, plane count, strides, and buffer lengths were validated.
#[derive(Debug, Clone, Copy)]
pub enum Validated {
    /// Only value of the marker.
    Marker,
}

/// What a marker says of the frames that carry it.
pub trait FrameState {
    /// Whether frames with this marker were validated.
    spec fn validated() -> bool;
}

impl FrameState for Unchecked {
    open spec fn validated() -> bool {
        false
    }
}

impl FrameState for Validated {
    open spec fn validated() -> bool {
        true
    }
}

/// Mathematical content of a plane.
#[verifier::ext_equal]
pub struct PlaneModel {
    /// Plane bytes.
    pub data: Seq<u8>,
    /// Bytes between two consecutive rows.
    pub stride: nat,
}

/// Mathematical content of a frame.
#[verifier::ext_equal]
pub struct FrameModel {
    /// Frame size.
    pub dims: Dimensions,
    /// Pixel layout and metadata.
    pub format: FormatSpec,
    /// Planes in layout order.
    pub planes: Seq<PlaneModel>,
}

/// A borrowed plane view.
#[derive(Debug, Clone, Copy)]
pub struct PlaneView<'a> {
    /// Plane bytes.
    pub data: &'a [u8],
    /// Bytes between two consecutive rows in this plane.
    pub stride: usize,
}

impl<'a> View for PlaneView<'a> {
    type V = PlaneModel;

    open spec fn view(&self) -> PlaneModel {
        PlaneModel { data: self.data@, stride: self.stride as nat }
    }
}

impl PlaneModel {
    /// Useful bytes of one row.
    pub open spec fn row(self, y: int, row_bytes: int) -> Seq<u8> {
        self.data.subrange(y * self.stride, y * self.stride + row_bytes)
    }
}

impl<'a> PlaneView<'a> {
    /// Creates a plane view.
    pub fn new(data: &'a [u8], stride: usize) -> (plane: Self)
        ensures
            plane@ == (PlaneModel { data: data@, stride: stride as nat }),
    {
        Self { data, stride }
    }

    /// Returns a row slice with the requested useful byte length.
    pub fn row(&self, y: usize, row_bytes: usize) -> (result: Result<&'a [u8]>)
        ensures
            match result {
                Ok(row) => y * self.stride + row_bytes <= self@.data.len() && row@ == self@.row(
                    y as int,
                    row_bytes as int,
                ),
                Err(error) => error@ == ErrorView::InvalidFrame(
                    if y * self.stride > usize::MAX {
                        "row offset overflows usize"@
                    } else if y * self.stride + row_bytes > usize::MAX {
                        "row end overflows usize"@
                    } else {
                        "plane row is out of bounds"@
                    },
                ),
            },
            result is Ok <==> y * self.stride + row_bytes <= self@.data.len(),
    {
        let available: usize = self.data.len();
        let start: usize = match y.checked_mul(self.stride) {
            Some(start) => start,
            None => return Err(Error::invalid_frame("row offset overflows usize")),
        };
        let end: usize = match start.checked_add(row_bytes) {
            Some(end) => end,
            None => return Err(Error::invalid_frame("row end overflows usize")),
        };
        if end > available {
            return Err(Error::invalid_frame("plane row is out of bounds"));
        }
        Ok(vstd::slice::slice_subrange(self.data, start, end))
    }
}

/// Owned plane buffer.
#[derive(Debug)]
pub struct OwnedPlane {
    /// Plane bytes.
    pub data: Vec<u8>,
    /// Bytes between rows.
    pub stride: usize,
}

impl View for OwnedPlane {
    type V = PlaneModel;

    open spec fn view(&self) -> PlaneModel {
        PlaneModel { data: self.data@, stride: self.stride as nat }
    }
}

impl OwnedPlane {
    /// Creates an owned plane.
    pub fn new(data: Vec<u8>, stride: usize) -> (plane: Self)
        ensures
            plane@ == (PlaneModel { data: data@, stride: stride as nat }),
            plane.data == data,
            plane.stride == stride,
    {
        Self { data, stride }
    }

    /// Borrows this plane.
    pub fn as_view(&self) -> (plane: PlaneView<'_>)
        ensures
            plane@ == self@,
            plane.stride == self.stride,
    {
        PlaneView::new(self.data.as_slice(), self.stride)
    }
}

/// A zero-copy borrowed frame view. With the [`Validated`] marker it always holds a
/// valid frame.
#[derive(Debug)]
pub struct FrameView<'a, State: FrameState = Unchecked> {
    dims: Dimensions,
    format: FormatSpec,
    planes: Vec<PlaneView<'a>>,
    _state: PhantomData<State>,
}

/// The contents of borrowed planes.
pub open spec fn plane_views(planes: Seq<PlaneView<'_>>) -> Seq<PlaneModel> {
    planes.map_values(|plane: PlaneView<'_>| plane@)
}

/// The contents of owned planes.
pub open spec fn owned_planes_model(planes: Seq<OwnedPlane>) -> Seq<PlaneModel> {
    planes.map_values(|plane: OwnedPlane| plane@)
}

impl<'a, S: FrameState> View for FrameView<'a, S> {
    type V = FrameModel;

    closed spec fn view(&self) -> FrameModel {
        FrameModel { dims: self.dims, format: self.format, planes: plane_views(self.planes@) }
    }
}

impl Clone for OwnedPlane {
    fn clone(&self) -> (copy: Self)
        ensures
            copy@ == self@,
    {
        Self { data: self.data.clone(), stride: self.stride }
    }
}

impl<'a, S: FrameState> Clone for FrameView<'a, S> {
    fn clone(&self) -> (copy: Self)
        ensures
            copy@ == self@,
    {
        proof {
            use_type_invariant(self);
        }
        let planes = copy_planes(&self.planes);
        FrameView { dims: self.dims, format: self.format, planes, _state: PhantomData }
    }
}

/// Copies a list of borrowed planes.
fn copy_planes<'a>(planes: &Vec<PlaneView<'a>>) -> (copy: Vec<PlaneView<'a>>)
    ensures
        copy@ == planes@,
{
    let mut copy: Vec<PlaneView<'a>> = Vec::with_capacity(planes.len());
    let mut i: usize = 0;
    while i < planes.len()
        invariant
            i <= planes.len(),
            copy@ == planes@.take(i as int),
        decreases planes.len() - i,
    {
        copy.push(planes[i]);
        i += 1;
    }
    assert(planes@.take(i as int) =~= planes@);
    copy
}

/// Borrows every plane of a list.
fn borrow_planes(planes: &Vec<OwnedPlane>) -> (views: Vec<PlaneView<'_>>)
    ensures
        plane_views(views@) == owned_planes_model(planes@),
{
    let mut views: Vec<PlaneView<'_>> = Vec::with_capacity(planes.len());
    let mut i: usize = 0;
    while i < planes.len()
        invariant
            i <= planes.len(),
            views@.len() == i,
            forall|j: int| 0 <= j < i ==> (#[trigger] views@[j])@ == planes@[j]@,
        decreases planes.len() - i,
    {
        views.push(planes[i].as_view());
        i += 1;
    }
    assert(plane_views(views@) =~= owned_planes_model(planes@));
    views
}

impl FrameModel {
    /// What is wrong with a plane, if anything.
    pub open spec fn plane_error(self, plane: int) -> Option<ErrorView> {
        let layout = self.format.pixel_format;
        let stride = self.planes[plane].stride;
        match layout.checked_plane_dimensions(self.dims, plane as nat) {
            Err(error) => Some(error),
            Ok(_) => match layout.checked_buffer_len(self.dims, plane as nat, stride) {
                Err(error) => Some(error),
                Ok(length) => if self.planes[plane].data.len() < length {
                    Some(
                        ErrorView::InvalidFrame(
                            "plane "@ + decimal_text(plane as nat) + " data length "@
                                + decimal_text(self.planes[plane].data.len())
                                + " is smaller than required "@ + decimal_text(length as nat),
                        ),
                    )
                } else {
                    None
                },
            },
        }
    }

    /// Message for a wrong number of planes.
    pub open spec fn plane_count_error(self) -> ErrorView {
        ErrorView::InvalidFrame(
            "expected "@ + decimal_text(self.format.pixel_format.planes()) + " plane(s), got "@
                + decimal_text(self.planes.len()),
        )
    }

    /// What validation reports when the planes before `plane` are in order: the
    /// problem of the first faulty plane from there on.
    pub open spec fn fault_from(self, plane: int) -> Option<ErrorView>
        decreases self.planes.len() - plane,
    {
        if plane < 0 || plane >= self.planes.len() {
            None
        } else if self.plane_error(plane) is Some {
            self.plane_error(plane)
        } else {
            self.fault_from(plane + 1)
        }
    }

    /// What validation reports: the wrong number of planes, else the problem of
    /// the first faulty plane, else nothing.
    pub open spec fn fault(self) -> Option<ErrorView> {
        if self.planes.len() != self.format.pixel_format.planes() {
            Some(self.plane_count_error())
        } else {
            self.fault_from(0)
        }
    }

    /// Whether every row of a plane lies inside its buffer and does not overlap the next.
    pub open spec fn plane_fits(self, plane: int) -> bool {
        let layout = self.format.pixel_format;
        let row_bytes = layout.row_bytes(self.dims, plane as nat);
        &&& row_bytes <= u32::MAX
        &&& row_bytes <= self.planes[plane].stride
        &&& layout.span(self.dims, plane as nat, self.planes[plane].stride)
            <= self.planes[plane].data.len()
    }

    /// A frame with non-zero size whose planes are those of its layout and hold all their rows.
    pub open spec fn valid(self) -> bool {
        &&& self.dims.width > 0
        &&& self.dims.height > 0
        &&& self.planes.len() == self.format.pixel_format.planes()
        &&& forall|i: int| 0 <= i < self.planes.len() ==> #[trigger] self.plane_fits(i)
    }

    /// The frame when it is valid, else what validation reports.
    pub open spec fn checked(self) -> core::result::Result<FrameModel, ErrorView> {
        if self.valid() {
            Ok(self)
        } else {
            Err(self.fault()->0)
        }
    }

    /// The frame when it is valid; a zero size is reported before anything else.
    pub open spec fn checked_sized(self) -> core::result::Result<FrameModel, ErrorView> {
        match Dimensions::checked(self.dims.width, self.dims.height) {
            Ok(_) => self.checked(),
            Err(error) => Err(error),
        }
    }
}

/// The content of an owned frame, or of the error in its place.
pub open spec fn frame_outcome(result: Result<FrameOwned>) -> core::result::Result<
    FrameModel,
    ErrorView,
> {
    match result {
        Ok(frame) => Ok(frame@),
        Err(error) => Err(error@),
    }
}

/// The packed frame with a given stride, or why there is none.
pub open spec fn checked_packed(
    data: Seq<u8>,
    width: u32,
    height: u32,
    pixel_format: PixelFormat,
    stride: nat,
) -> core::result::Result<FrameModel, ErrorView> {
    if pixel_format.pixel_bytes() is None {
        Err(ErrorView::InvalidFrame("FrameOwned::packed requires a packed pixel format"@))
    } else {
        packed_model(data, width, height, pixel_format, stride).checked_sized()
    }
}

/// The packed frame without row padding, or why there is none.
pub open spec fn checked_tight(
    data: Seq<u8>,
    width: u32,
    height: u32,
    pixel_format: PixelFormat,
) -> core::result::Result<FrameModel, ErrorView> {
    match pixel_format.pixel_bytes() {
        None => Err(ErrorView::InvalidFrame("packed_tight requires a packed pixel format"@)),
        Some(bytes) => if width as nat * bytes as nat > usize::MAX {
            Err(ErrorView::InvalidFrame("stride overflows usize"@))
        } else {
            packed_model(
                data,
                width,
                height,
                pixel_format,
                width as nat * bytes as nat,
            ).checked_sized()
        },
    }
}

/// A plane is reported faulty exactly when the size is zero or its rows do not fit.
proof fn lemma_plane_error(frame: FrameModel, plane: int)
    requires
        0 <= plane < frame.planes.len(),
        frame.planes.len() == frame.format.pixel_format.planes(),
        frame.planes[plane].data.len() <= usize::MAX,
    ensures
        frame.plane_error(plane) is None <==> frame.dims.width > 0 && frame.dims.height > 0
            && frame.plane_fits(plane),
{
    let layout = frame.format.pixel_format;
    let dims = frame.dims;
    if let Some(bytes) = layout.pixel_bytes() {
        assert(dims.width as nat * bytes as nat == 0 <==> dims.width == 0) by (nonlinear_arith)
            requires
                bytes > 0,
        ;
    }
}

/// Checks plane count, strides, and plane lengths.
fn validate_parts(dims: Dimensions, format: FormatSpec, planes: &Vec<PlaneView<'_>>) -> (result:
    Result<()>)
    ensures
        ({
            let frame = FrameModel { dims, format, planes: plane_views(planes@) };
            &&& result is Ok <==> frame.valid()
            &&& result matches Err(error) ==> frame.fault() == Some(error@)
        }),
{
    let ghost frame = FrameModel { dims, format, planes: plane_views(planes@) };
    let layout = format.pixel_format;
    if planes.len() != layout.plane_count() {
        return Err(
            Error::invalid_frame(
                concat4(
                    "expected ",
                    decimal(layout.plane_count() as u64).as_str(),
                    " plane(s), got ",
                    decimal(planes.len() as u64).as_str(),
                ).as_str(),
            ),
        );
    }
    let mut i: usize = 0;
    while i < planes.len()
        invariant
            i <= planes.len(),
            layout == format.pixel_format,
            frame == (FrameModel { dims, format, planes: plane_views(planes@) }),
            planes.len() == layout.planes(),
            forall|j: int| 0 <= j < i ==> #[trigger] frame.plane_error(j) is None,
            frame.fault() == frame.fault_from(i as int),
        decreases planes.len() - i,
    {
        let plane = planes[i];
        let available: usize = plane.data.len();
        assert(frame.planes[i as int] == plane@);
        proof {
            lemma_plane_error(frame, i as int);
        }
        if let Err(error) = layout.plane_dimensions(dims, i) {
            assert(frame.plane_error(i as int) == Some(error@));
            return Err(error);
        }
        match layout.plane_buffer_len(dims, i, plane.stride) {
            Err(error) => {
                assert(frame.plane_error(i as int) == Some(error@));
                return Err(error);
            },
            Ok(min_len) => {
                if available < min_len {
                    let error = Error::invalid_frame(
                        concat6(
                            "plane ",
                            decimal(i as u64).as_str(),
                            " data length ",
                            decimal(available as u64).as_str(),
                            " is smaller than required ",
                            decimal(min_len as u64).as_str(),
                        ).as_str(),
                    );
                    assert(frame.plane_error(i as int) == Some(error@));
                    return Err(error);
                }
            },
        }
        i += 1;
    }
    proof {
        assert forall|j: int| 0 <= j < frame.planes.len() implies #[trigger] frame.plane_fits(j)
            && frame.dims.width > 0 && frame.dims.height > 0 by {
            assert(frame.planes[j] == planes@[j]@);
            assert(planes@[j].data.len() == planes@[j].data@.len());
            lemma_plane_error(frame, j);
            assert(frame.plane_error(j) is None);
        }
        assert(frame.plane_fits(0));
    }
    Ok(())
}

impl<'a> FrameView<'a, Unchecked> {
    /// Creates an unchecked borrowed frame from explicit planes.
    pub fn from_planes(dims: Dimensions, format: FormatSpec, planes: Vec<PlaneView<'a>>) -> (frame:
        Self)
        ensures
            frame@ == (FrameModel { dims, format, planes: plane_views(planes@) }),
    {
        Self { dims, format, planes, _state: PhantomData }
    }

    /// Creates an unchecked packed single-plane frame.
    pub fn packed(
        data: &'a [u8],
        width: u32,
        height: u32,
        pixel_format: PixelFormat,
        stride: usize,
    ) -> (result: Result<Self>)
        ensures
            match result {
                Ok(frame) => pixel_format.pixel_bytes() is Some && width > 0 && height > 0
                    && frame@ == packed_model(data@, width, height, pixel_format, stride as nat),
                Err(error) => error@ == if pixel_format.pixel_bytes() is None {
                    ErrorView::InvalidFrame("FrameView::packed requires a packed pixel format"@)
                } else {
                    zero_size_error()
                },
            },
            result is Ok <==> pixel_format.pixel_bytes() is Some && width > 0 && height > 0,
    {
        if !pixel_format.is_packed() {
            return Err(Error::invalid_frame("FrameView::packed requires a packed pixel format"));
        }
        let dims = match Dimensions::new(width, height) {
            Ok(dims) => dims,
            Err(error) => return Err(error),
        };
        let planes = vec![PlaneView::new(data, stride)];
        assert(plane_views(planes@) =~= seq![PlaneModel { data: data@, stride: stride as nat }]);
        Ok(Self::from_planes(dims, FormatSpec::new(pixel_format), planes))
    }

    /// Creates an unchecked planar YUV frame from three planes.
    pub fn yuv_planar(
        width: u32,
        height: u32,
        pixel_format: PixelFormat,
        y: PlaneView<'a>,
        u: PlaneView<'a>,
        v: PlaneView<'a>,
    ) -> (result: Result<Self>)
        ensures
            match result {
                Ok(frame) => pixel_format.planes() == 3 && width > 0 && height > 0 && frame@ == (
                FrameModel {
                    dims: Dimensions { width, height },
                    format: FormatSpec::standard(pixel_format),
                    planes: seq![y@, u@, v@],
                }),
                Err(error) => error@ == if pixel_format.planes() != 3 {
                    ErrorView::InvalidFrame("yuv_planar requires Yuv444p8/Yuv422p8/Yuv420p8"@)
                } else {
                    zero_size_error()
                },
            },
            result is Ok <==> pixel_format.planes() == 3 && width > 0 && height > 0,
    {
        if !matches!(
            pixel_format,
            PixelFormat::Yuv444p8 | PixelFormat::Yuv422p8 | PixelFormat::Yuv420p8
        ) {
            return Err(Error::invalid_frame("yuv_planar requires Yuv444p8/Yuv422p8/Yuv420p8"));
        }
        let dims = match Dimensions::new(width, height) {
            Ok(dims) => dims,
            Err(error) => return Err(error),
        };
        let planes = vec![y, u, v];
        assert(plane_views(planes@) =~= seq![y@, u@, v@]);
        Ok(Self::from_planes(dims, FormatSpec::new(pixel_format), planes))
    }

    /// Creates an unchecked NV12 frame from Y and interleaved UV planes.
    pub fn nv12(width: u32, height: u32, y: PlaneView<'a>, uv: PlaneView<'a>) -> (result: Result<
        Self,
    >)
        ensures
            match result {
                Ok(frame) => width > 0 && height > 0 && frame@ == (FrameModel {
                    dims: Dimensions { width, height },
                    format: FormatSpec::standard(PixelFormat::Nv12),
                    planes: seq![y@, uv@],
                }),
                Err(error) => error@ == zero_size_error(),
            },
            result is Ok <==> width > 0 && height > 0,
    {
        let dims = match Dimensions::new(width, height) {
            Ok(dims) => dims,
            Err(error) => return Err(error),
        };
        let planes = vec![y, uv];
        assert(plane_views(planes@) =~= seq![y@, uv@]);
        Ok(Self::from_planes(dims, FormatSpec::new(PixelFormat::Nv12), planes))
    }

    /// Validates plane count, stride, and accessible row byte ranges.
    pub fn validate(self) -> (result: Result<FrameView<'a, Validated>>)
        ensures
            match result {
                Ok(frame) => frame@ == self@,
                Err(error) => self@.fault() == Some(error@),
            },
            result is Ok <==> self@.valid(),
    {
        match validate_parts(self.dims, self.format, &self.planes) {
            Ok(_) => Ok(
                FrameView {
                    dims: self.dims,
                    format: self.format,
                    planes: self.planes,
                    _state: PhantomData,
                },
            ),
            Err(error) => Err(error),
        }
    }
}

/// A single-plane frame with default metadata.
pub open spec fn packed_model(
    data: Seq<u8>,
    width: u32,
    height: u32,
    pixel_format: PixelFormat,
    stride: nat,
) -> FrameModel {
    FrameModel {
        dims: Dimensions { width, height },
        format: FormatSpec::standard(pixel_format),
        planes: seq![PlaneModel { data, stride }],
    }
}

impl<'a, S: FrameState> FrameView<'a, S> {
    #[verifier::type_invariant]
    spec fn keeps_promise(self) -> bool {
        S::validated() ==> self@.valid()
    }

    /// Frame dimensions.
    pub fn dimensions(&self) -> (dims: Dimensions)
        ensures
            dims == self@.dims,
            S::validated() ==> self@.valid(),
    {
        proof {
            use_type_invariant(self);
        }
        self.dims
    }

    /// Format spec.
    pub fn format(&self) -> (format: FormatSpec)
        ensures
            format == self@.format,
    {
        self.format
    }

    /// Pixel format.
    pub fn pixel_format(&self) -> (pixel_format: PixelFormat)
        ensures
            pixel_format == self@.format.pixel_format,
    {
        self.format.pixel_format
    }

    /// Borrowed plane list.
    pub fn planes(&self) -> (planes: &[PlaneView<'a>])
        ensures
            plane_views(planes@) == self@.planes,
    {
        self.planes.as_slice()
    }

    /// Returns one plane.
    pub fn plane(&self, index: usize) -> (result: Result<PlaneView<'a>>)
        ensures
            match result {
                Ok(plane) => index < self@.planes.len() && plane@ == self@.planes[index as int],
                Err(error) => error@ == ErrorView::InvalidFrame(
                    "plane "@ + decimal_text(index as nat) + " does not exist"@,
                ),
            },
            result is Ok <==> index < self@.planes.len(),
    {
        if index < self.planes.len() {
            Ok(self.planes[index])
        } else {
            Err(
                Error::invalid_frame(
                    concat3("plane ", decimal(index as u64).as_str(), " does not exist").as_str(),
                ),
            )
        }
    }
}

impl<'a> FrameView<'a, Validated> {
    /// Re-borrows this validated view.
    pub fn as_ref(&self) -> (frame: FrameView<'_, Validated>)
        ensures
            frame@ == self@,
    {
        proof {
            use_type_invariant(self);
        }
        FrameView {
            dims: self.dims,
            format: self.format,
            planes: copy_planes(&self.planes),
            _state: PhantomData,
        }
    }

    /// Returns `true` if the frame is RGBA8 packed with a tight or strided plane.
    pub fn is_rgba8(&self) -> (rgba: bool)
        ensures
            rgba == (self@.format.pixel_format is Rgba8),
    {
        self.format.pixel_format == PixelFormat::Rgba8
    }
}

/// Owned frame storage. Its planes always hold a valid frame.
#[derive(Debug)]
pub struct FrameOwned {
    dims: Dimensions,
    format: FormatSpec,
    planes: Vec<OwnedPlane>,
}

impl View for FrameOwned {
    type V = FrameModel;

    closed spec fn view(&self) -> FrameModel {
        FrameModel {
            dims: self.dims,
            format: self.format,
            planes: owned_planes_model(self.planes@),
        }
    }
}

impl Clone for FrameOwned {
    fn clone(&self) -> (copy: Self)
        ensures
            copy@ == self@,
    {
        proof {
            use_type_invariant(&*self);
        }
        let planes = copy_owned_planes(&self.planes);
        assert(owned_planes_model(planes@) =~= owned_planes_model(self.planes@));
        Self { dims: self.dims, format: self.format, planes }
    }
}

/// Copies a list of owned planes.
fn copy_owned_planes(planes: &Vec<OwnedPlane>) -> (copy: Vec<OwnedPlane>)
    ensures
        owned_planes_model(copy@) == owned_planes_model(planes@),
{
    let mut copy: Vec<OwnedPlane> = Vec::with_capacity(planes.len());
    let mut i: usize = 0;
    while i < planes.len()
        invariant
            i <= planes.len(),
            copy@.len() == i,
            forall|j: int| 0 <= j < i ==> (#[trigger] copy@[j])@ == planes@[j]@,
        decreases planes.len() - i,
    {
        copy.push(planes[i].clone());
        i += 1;
    }
    assert(owned_planes_model(copy@) =~= owned_planes_model(planes@));
    copy
}

impl PlaneModel {
    /// The first `rows` rows of `row_bytes` useful bytes, one behind the other.
    pub open spec fn packed_rows(self, row_bytes: int, rows: int) -> Seq<u8>
        decreases rows,
    {
        if rows <= 0 {
            Seq::empty()
        } else {
            self.packed_rows(row_bytes, rows - 1) + self.row(rows - 1, row_bytes)
        }
    }
}

impl FrameModel {
    /// The same frame with all row padding removed.
    pub open spec fn tight(self) -> FrameModel {
        let layout = self.format.pixel_format;
        FrameModel {
            dims: self.dims,
            format: self.format,
            planes: Seq::new(
                self.planes.len(),
                |i: int|
                    PlaneModel {
                        data: self.planes[i].packed_rows(
                            layout.row_bytes(self.dims, i as nat) as int,
                            layout.rows(self.dims, i as nat) as int,
                        ),
                        stride: layout.row_bytes(self.dims, i as nat),
                    },
            ),
        }
    }
}

/// Packed rows have the length of their rows together.
proof fn lemma_packed_rows_len(plane: PlaneModel, row_bytes: int, rows: int)
    requires
        0 <= row_bytes <= plane.stride,
        0 <= rows,
        rows > 0 ==> plane.stride * (rows - 1) + row_bytes <= plane.data.len(),
    ensures
        plane.packed_rows(row_bytes, rows).len() == row_bytes * rows,
    decreases rows,
{
    if rows > 0 {
        assert(plane.stride * (rows - 2) <= plane.stride * (rows - 1)) by (nonlinear_arith)
            requires
                plane.stride >= 0,
        ;
        lemma_packed_rows_len(plane, row_bytes, rows - 1);
        lemma_row_inside(plane, row_bytes, rows, rows - 1);
        assert(row_bytes * rows == row_bytes * (rows - 1) + row_bytes) by (nonlinear_arith);
    } else {
        assert(row_bytes * 0 == 0);
    }
}

/// Every row of a plane that holds `rows` rows lies inside its data.
proof fn lemma_row_inside(plane: PlaneModel, row_bytes: int, rows: int, y: int)
    requires
        0 <= row_bytes,
        0 <= y < rows,
        plane.stride * (rows - 1) + row_bytes <= plane.data.len(),
    ensures
        0 <= y * plane.stride,
        y * plane.stride + row_bytes <= plane.data.len(),
{
    assert(0 <= y * plane.stride <= plane.stride * (rows - 1)) by (nonlinear_arith)
        requires
            0 <= y < rows,
            plane.stride >= 0,
    ;
}

/// Removing padding keeps the bytes of every row.
proof fn lemma_packed_rows_row(plane: PlaneModel, row_bytes: int, rows: int, y: int)
    requires
        0 <= row_bytes <= plane.stride,
        0 <= y < rows,
        plane.stride * (rows - 1) + row_bytes <= plane.data.len(),
    ensures
        row_bytes * y + row_bytes <= row_bytes * rows,
        plane.packed_rows(row_bytes, rows).len() == row_bytes * rows,
        plane.packed_rows(row_bytes, rows).subrange(row_bytes * y, row_bytes * y + row_bytes)
            == plane.row(y, row_bytes),
    decreases rows,
{
    lemma_packed_rows_len(plane, row_bytes, rows);
    assert(row_bytes * y + row_bytes <= row_bytes * rows) by (nonlinear_arith)
        requires
            0 <= y < rows,
            row_bytes >= 0,
    ;
    assert(row_bytes * y >= 0) by (nonlinear_arith)
        requires
            0 <= y,
            row_bytes >= 0,
    ;
    assert(plane.stride * (rows - 2) <= plane.stride * (rows - 1)) by (nonlinear_arith)
        requires
            plane.stride >= 0,
    ;
    lemma_packed_rows_len(plane, row_bytes, rows - 1);
    let before = plane.packed_rows(row_bytes, rows - 1);
    lemma_row_inside(plane, row_bytes, rows, rows - 1);
    let last = plane.row(rows - 1, row_bytes);
    assert(plane.packed_rows(row_bytes, rows) == before + last);
    if y == rows - 1 {
        assert((before + last).subrange(row_bytes * y, row_bytes * y + row_bytes) =~= last);
    } else {
        lemma_packed_rows_row(plane, row_bytes, rows - 1, y);
        assert((before + last).subrange(row_bytes * y, row_bytes * y + row_bytes)
            =~= before.subrange(row_bytes * y, row_bytes * y + row_bytes));
    }
}

/// A valid frame's plane, as the row lemmas need it.
proof fn lemma_valid_plane(frame: FrameModel, plane: int)
    requires
        frame.valid(),
        0 <= plane < frame.planes.len(),
    ensures
        ({
            let layout = frame.format.pixel_format;
            let row_bytes = layout.row_bytes(frame.dims, plane as nat);
            let rows = layout.rows(frame.dims, plane as nat);
            &&& 0 < row_bytes <= u32::MAX
            &&& row_bytes <= frame.planes[plane].stride
            &&& rows > 0
            &&& frame.planes[plane].stride * (rows - 1) + row_bytes
                <= frame.planes[plane].data.len()
        }),
{
    assert(frame.plane_fits(plane));
    let layout = frame.format.pixel_format;
    if let Some(bytes) = layout.pixel_bytes() {
        assert(frame.dims.width as nat * bytes as nat > 0) by (nonlinear_arith)
            requires
                bytes > 0,
                frame.dims.width > 0,
        ;
    }
}

/// Removing row padding gives a valid frame again.
pub proof fn law_tight_is_valid(frame: FrameModel)
    requires
        frame.valid(),
    ensures
        frame.tight().valid(),
{
    let layout = frame.format.pixel_format;
    assert forall|i: int| 0 <= i < frame.tight().planes.len() implies #[trigger] frame.tight()
        .plane_fits(i) by {
        lemma_valid_plane(frame, i);
        let row_bytes = layout.row_bytes(frame.dims, i as nat) as int;
        let rows = layout.rows(frame.dims, i as nat) as int;
        lemma_packed_rows_len(frame.planes[i], row_bytes, rows);
        assert(row_bytes * rows == row_bytes * (rows - 1) + row_bytes) by (nonlinear_arith);
    }
}

/// Removing row padding does not change the useful bytes of any row of any plane.
pub proof fn law_tight_keeps_rows(frame: FrameModel, plane: int, y: int)
    requires
        frame.valid(),
        0 <= plane < frame.planes.len(),
        0 <= y < frame.format.pixel_format.rows(frame.dims, plane as nat),
    ensures
        ({
            let row_bytes = frame.format.pixel_format.row_bytes(frame.dims, plane as nat) as int;
            frame.tight().planes[plane].row(y, row_bytes) == frame.planes[plane].row(y, row_bytes)
        }),
{
    let layout = frame.format.pixel_format;
    lemma_valid_plane(frame, plane);
    let row_bytes = layout.row_bytes(frame.dims, plane as nat) as int;
    let rows = layout.rows(frame.dims, plane as nat) as int;
    lemma_packed_rows_row(frame.planes[plane], row_bytes, rows, y);
    assert(row_bytes * y == y * row_bytes) by (nonlinear_arith);
}

/// A row of a plane holds the plane's own bytes from the row's start on.
pub proof fn law_row_stands_at_its_stride(plane: PlaneModel, y: int, row_bytes: int, i: int)
    requires
        0 <= y,
        0 <= i < row_bytes,
        y * plane.stride + row_bytes <= plane.data.len(),
    ensures
        plane.row(y, row_bytes).len() == row_bytes,
        plane.row(y, row_bytes)[i] == plane.data[y * plane.stride + i],
{
    assert(y * plane.stride >= 0) by (nonlinear_arith)
        requires
            y >= 0,
            plane.stride >= 0,
    ;
}

/// Removing row padding keeps size, layout and every useful byte: byte `i` of row `y`
/// moves to the place right behind the rows before it, and nothing else is kept.
pub proof fn law_tight_keeps_bytes(frame: FrameModel, plane: int, y: int, i: int)
    requires
        frame.valid(),
        0 <= plane < frame.planes.len(),
        0 <= y < frame.format.pixel_format.rows(frame.dims, plane as nat),
        0 <= i < frame.format.pixel_format.row_bytes(frame.dims, plane as nat),
    ensures
        frame.tight().dims == frame.dims,
        frame.tight().format == frame.format,
        frame.tight().planes.len() == frame.planes.len(),
        ({
            let row_bytes = frame.format.pixel_format.row_bytes(frame.dims, plane as nat) as int;
            let rows = frame.format.pixel_format.rows(frame.dims, plane as nat) as int;
            let tight = frame.tight().planes[plane];
            &&& tight.stride == row_bytes
            &&& tight.data.len() == row_bytes * rows
            &&& tight.data[y * row_bytes + i] == frame.planes[plane].data[y
                * frame.planes[plane].stride + i]
        }),
{
    let row_bytes = frame.format.pixel_format.row_bytes(frame.dims, plane as nat) as int;
    let rows = frame.format.pixel_format.rows(frame.dims, plane as nat) as int;
    let tight = frame.tight().planes[plane];
    lemma_valid_plane(frame, plane);
    lemma_packed_rows_row(frame.planes[plane], row_bytes, rows, y);
    lemma_row_inside(frame.planes[plane], row_bytes, rows, y);
    assert(row_bytes * y == y * row_bytes) by (nonlinear_arith);
    assert(y * row_bytes >= 0) by (nonlinear_arith)
        requires
            y >= 0,
            row_bytes >= 0,
    ;
    assert(tight.data.subrange(row_bytes * y, row_bytes * y + row_bytes)[i] == tight.data[y
        * row_bytes + i]);
    law_row_stands_at_its_stride(frame.planes[plane], y, row_bytes, i);
}

/// The planes of a layout hold every pixel and no more. In packed layouts a row has room
/// for every channel of every pixel, one, two or four bytes each; masks keep eight
/// pixels in a byte; and chroma planes keep one sample per block of one or two pixels,
/// the last block cut at the edge.
pub proof fn law_layouts_hold_every_pixel(format: PixelFormat, dims: Dimensions, plane: nat)
    requires
        plane < format.planes(),
        dims.width > 0,
        dims.height > 0,
    ensures
        ({
            let row_bytes = format.row_bytes(dims, plane);
            let rows = format.rows(dims, plane);
            let chroma = plane > 0;
            let across: nat = if chroma && !(format is Yuv444p8) {
                2
            } else {
                1
            };
            let down: nat = if chroma && (format is Yuv420p8 || format is Nv12) {
                2
            } else {
                1
            };
            let sample: nat = if format is RgbF32 || format is RgbaF32 {
                4
            } else if format is Luma16Le || format is Rgb16Le || format is Rgba16Le {
                2
            } else {
                1
            };
            &&& rows * down >= dims.height
            &&& (rows - 1) * down < dims.height
            &&& if format is Binary1Lsb || format is Binary1Msb {
                row_bytes * 8 >= dims.width && (row_bytes - 1) * 8 < dims.width
            } else if format is Nv12 && chroma {
                row_bytes >= dims.width && row_bytes - 2 < dims.width && row_bytes % 2 == 0
            } else if format is Yuv420p8 || format is Yuv422p8 || format is Yuv444p8
                || format is Nv12 {
                row_bytes * across >= dims.width && (row_bytes - 1) * across < dims.width
            } else {
                row_bytes == (dims.width * format.channels()) * sample
            }
        }),
        !(format is Yuv420p8 || format is Yuv422p8 || format is Yuv444p8 || format is Nv12)
            ==> format.planes() == 1,
        format is Yuv420p8 || format is Yuv422p8 || format is Yuv444p8 ==> format.planes()
            == format.channels(),
        format is Nv12 ==> format.planes() == 2 && format.channels() == 3,
{
    let width = dims.width as int;
    assert((width * 1) * 1 == width * 1 && (width * 3) * 1 == width * 3 && (width * 4) * 1 == width
        * 4 && (width * 1) * 2 == width * 2 && (width * 3) * 2 == width * 6 && (width * 4) * 2
        == width * 8 && (width * 3) * 4 == width * 12 && (width * 4) * 4 == width * 16)
        by (nonlinear_arith);
}

/// In a valid frame every byte of every row of every plane has a place of its own in the
/// plane's data.
pub proof fn law_valid_frames_hold_their_rows(frame: FrameModel, plane: int, y: int, i: int)
    requires
        frame.valid(),
        0 <= plane < frame.planes.len(),
        0 <= y < frame.format.pixel_format.rows(frame.dims, plane as nat),
        0 <= i < frame.format.pixel_format.row_bytes(frame.dims, plane as nat),
    ensures
        frame.dims.width > 0 && frame.dims.height > 0,
        frame.planes.len() == frame.format.pixel_format.planes(),
        0 <= y * frame.planes[plane].stride + i < frame.planes[plane].data.len(),
        i < frame.planes[plane].stride,
{
    lemma_valid_plane(frame, plane);
    lemma_row_inside(
        frame.planes[plane],
        frame.format.pixel_format.row_bytes(frame.dims, plane as nat) as int,
        frame.format.pixel_format.rows(frame.dims, plane as nat) as int,
        y,
    );
}

/// A packed frame is valid as soon as its last row ends inside its data: bytes behind
/// that row and the padding of the last row are not asked for.
pub proof fn law_packed_frames_need_no_more(
    data: Seq<u8>,
    width: u32,
    height: u32,
    pixel_format: PixelFormat,
    stride: nat,
)
    requires
        pixel_format.planes() == 1,
        width > 0,
        height > 0,
        pixel_format.row_bytes(Dimensions { width, height }, 0) <= u32::MAX,
    ensures
        packed_model(data, width, height, pixel_format, stride).valid() <==> {
            let row_bytes = pixel_format.row_bytes(Dimensions { width, height }, 0);
            row_bytes <= stride && (height - 1) * stride + row_bytes <= data.len()
        },
{
    let frame = packed_model(data, width, height, pixel_format, stride);
    assert((height - 1) * stride == stride * (height - 1)) by (nonlinear_arith);
    if frame.valid() {
        assert(frame.plane_fits(0));
    }
}

/// Packing tight rows again gives the same bytes.
proof fn lemma_repacked_rows(plane: PlaneModel, tight: PlaneModel, row_bytes: int, rows: int, n: int)
    requires
        0 <= row_bytes <= plane.stride,
        0 <= n <= rows,
        0 < rows,
        plane.stride * (rows - 1) + row_bytes <= plane.data.len(),
        tight == (PlaneModel {
            data: plane.packed_rows(row_bytes, rows),
            stride: row_bytes as nat,
        }),
    ensures
        tight.packed_rows(row_bytes, n) == plane.packed_rows(row_bytes, n),
    decreases n,
{
    if n > 0 {
        lemma_repacked_rows(plane, tight, row_bytes, rows, n - 1);
        lemma_packed_rows_row(plane, row_bytes, rows, n - 1);
        assert(row_bytes * (n - 1) == (n - 1) * row_bytes) by (nonlinear_arith);
    }
}

/// Removing row padding twice is the same as removing it once.
pub proof fn law_tight_is_idempotent(frame: FrameModel)
    requires
        frame.valid(),
    ensures
        frame.tight().tight() == frame.tight(),
{
    let layout = frame.format.pixel_format;
    let once = frame.tight();
    let twice = once.tight();
    assert forall|i: int| 0 <= i < frame.planes.len() implies twice.planes[i]
        == once.planes[i] by {
        lemma_valid_plane(frame, i);
        let row_bytes = layout.row_bytes(frame.dims, i as nat) as int;
        let rows = layout.rows(frame.dims, i as nat) as int;
        lemma_repacked_rows(frame.planes[i], once.planes[i], row_bytes, rows, rows);
    }
    assert(twice.planes =~= once.planes);
}

/// A frame without row padding and without trailing bytes is unchanged by packing.
pub proof fn law_tight_of_tight_frame(frame: FrameModel)
    requires
        frame.valid(),
        forall|i: int|
            0 <= i < frame.planes.len() ==> (#[trigger] frame.planes[i]).stride
                == frame.format.pixel_format.row_bytes(frame.dims, i as nat)
                && frame.planes[i].data.len() == frame.planes[i].stride
                * frame.format.pixel_format.rows(frame.dims, i as nat),
    ensures
        frame.tight() == frame,
{
    let layout = frame.format.pixel_format;
    assert forall|i: int| 0 <= i < frame.planes.len() implies frame.tight().planes[i]
        == frame.planes[i] by {
        lemma_valid_plane(frame, i);
        let rows = layout.rows(frame.dims, i as nat) as int;
        lemma_packed_prefix(frame.planes[i], rows, rows);
        assert(frame.planes[i].data.subrange(0, frame.planes[i].data.len() as int)
            =~= frame.planes[i].data);
    }
    assert(frame.tight().planes =~= frame.planes);
}

/// Packing the rows of an unpadded plane takes a prefix of its data.
proof fn lemma_packed_prefix(plane: PlaneModel, rows: int, n: int)
    requires
        0 <= n <= rows,
        plane.data.len() == plane.stride * rows,
    ensures
        0 <= plane.stride * n <= plane.data.len(),
        plane.packed_rows(plane.stride as int, n) == plane.data.subrange(0, plane.stride * n),
    decreases n,
{
    let stride = plane.stride as int;
    assert(0 <= stride * n <= stride * rows) by (nonlinear_arith)
        requires
            0 <= n <= rows,
            stride >= 0,
    ;
    if n > 0 {
        lemma_packed_prefix(plane, rows, n - 1);
        assert(stride * (n - 1) + stride == stride * n) by (nonlinear_arith);
        assert((n - 1) * stride == stride * (n - 1)) by (nonlinear_arith);
        assert(plane.data.subrange(0, stride * (n - 1)) + plane.row(n - 1, stride)
            =~= plane.data.subrange(0, stride * n));
    } else {
        assert(stride * 0 == 0);
        assert(plane.packed_rows(stride, 0) =~= plane.data.subrange(0, 0));
    }
}

impl FrameOwned {
    #[verifier::type_invariant]
    spec fn well_formed(self) -> bool {
        self@.valid()
    }

    /// Creates an owned frame after validating its planes.
    pub fn new(dims: Dimensions, format: FormatSpec, planes: Vec<OwnedPlane>) -> (result: Result<
        Self,
    >)
        ensures
            frame_outcome(result) == (FrameModel {
                dims,
                format,
                planes: owned_planes_model(planes@),
            }).checked(),
    {
        let views = borrow_planes(&planes);
        match validate_parts(dims, format, &views) {
            Ok(_) => Ok(Self { dims, format, planes }),
            Err(error) => Err(error),
        }
    }

    /// Creates an owned packed frame.
    pub fn packed(
        data: Vec<u8>,
        width: u32,
        height: u32,
        pixel_format: PixelFormat,
        stride: usize,
    ) -> (result: Result<Self>)
        ensures
            frame_outcome(result) == checked_packed(
                data@,
                width,
                height,
                pixel_format,
                stride as nat,
            ),
    {
        if !pixel_format.is_packed() {
            return Err(Error::invalid_frame("FrameOwned::packed requires a packed pixel format"));
        }
        let dims = match Dimensions::new(width, height) {
            Ok(dims) => dims,
            Err(error) => return Err(error),
        };
        let planes = vec![OwnedPlane::new(data, stride)];
        assert(owned_planes_model(planes@) =~= seq![
            PlaneModel { data: data@, stride: stride as nat },
        ]);
        Self::new(dims, FormatSpec::new(pixel_format), planes)
    }

    /// Creates an owned tightly packed frame.
    pub fn packed_tight(data: Vec<u8>, width: u32, height: u32, pixel_format: PixelFormat) -> (result:
        Result<Self>)
        ensures
            frame_outcome(result) == checked_tight(data@, width, height, pixel_format),
    {
        match pixel_format.bytes_per_pixel() {
            None => Err(Error::invalid_frame("packed_tight requires a packed pixel format")),
            Some(bytes) => match (width as usize).checked_mul(bytes) {
                None => Err(Error::invalid_frame("stride overflows usize")),
                Some(stride) => Self::packed(data, width, height, pixel_format, stride),
            },
        }
    }

    /// Frame dimensions.
    pub fn dimensions(&self) -> (dims: Dimensions)
        ensures
            dims == self@.dims,
    {
        self.dims
    }

    /// Frame format.
    pub fn format(&self) -> (format: FormatSpec)
        ensures
            format == self@.format,
    {
        self.format
    }

    /// Owned plane list.
    pub fn owned_planes(&self) -> (planes: &[OwnedPlane])
        ensures
            owned_planes_model(planes@) == self@.planes,
            self@.valid(),
    {
        proof {
            use_type_invariant(self);
        }
        self.planes.as_slice()
    }

    /// Borrows as a validated zero-copy frame view.
    pub fn as_view(&self) -> (frame: FrameView<'_, Validated>)
        ensures
            frame@ == self@,
            frame@.valid(),
    {
        proof {
            use_type_invariant(self);
        }
        FrameView {
            dims: self.dims,
            format: self.format,
            planes: borrow_planes(&self.planes),
            _state: PhantomData,
        }
    }

    /// Consumes the frame and returns its raw pieces.
    pub fn into_parts(self) -> (parts: (Dimensions, FormatSpec, Vec<OwnedPlane>))
        ensures
            self@ == (FrameModel {
                dims: parts.0,
                format: parts.1,
                planes: owned_planes_model(parts.2@),
            }),
            self@.valid(),
    {
        proof {
            use_type_invariant(&self);
        }
        (self.dims, self.format, self.planes)
    }

    /// Returns a tightly packed copy with per-row padding removed.
    ///
    /// The frame is copied unchanged when every plane is already tight. Packing a
    /// valid frame never fails.
    pub fn to_tightly_packed(&self) -> (result: Result<Self>)
        ensures
            self@.valid(),
            result matches Ok(frame) && frame@ == self@.tight(),
    {
        proof {
            use_type_invariant(self);
        }
        let layout = self.format.pixel_format;
        let ghost model = self@;
        let mut planes: Vec<OwnedPlane> = Vec::with_capacity(self.planes.len());
        let mut index: usize = 0;
        while index < self.planes.len()
            invariant
                index <= self.planes.len(),
                model == self@,
                model.valid(),
                layout == self.format.pixel_format,
                planes@.len() == index,
                forall|j: int|
                    0 <= j < index ==> (#[trigger] planes@[j])@ == model.tight().planes[j],
            decreases self.planes.len() - index,
        {
            let plane = self.planes[index].as_view();
            assert(plane@ == model.planes[index as int]);
            proof {
                lemma_valid_plane(model, index as int);
            }
            let row_bytes: usize = match layout.plane_row_bytes(self.dims, index) {
                Ok(row_bytes) => row_bytes,
                Err(error) => return Err(error),
            };
            let height: usize = if layout.is_packed() || layout.is_bit_packed() {
                self.dims.height as usize
            } else {
                match layout.plane_dimensions(self.dims, index) {
                    Ok(size) => size.height as usize,
                    Err(error) => return Err(error),
                }
            };
            assert(row_bytes == layout.row_bytes(model.dims, index as nat));
            assert(height == layout.rows(model.dims, index as nat));
            let mut data: Vec<u8> = Vec::new();
            let mut y: usize = 0;
            while y < height
                invariant
                    y <= height,
                    row_bytes <= plane@.stride,
                    plane@.stride * (height - 1) + row_bytes <= plane@.data.len(),
                    data@ == plane@.packed_rows(row_bytes as int, y as int),
                decreases height - y,
            {
                proof {
                    lemma_row_inside(plane@, row_bytes as int, height as int, y as int);
                }
                match plane.row(y, row_bytes) {
                    Ok(row) => data.extend_from_slice(row),
                    Err(error) => return Err(error),
                }
                y += 1;
            }
            planes.push(OwnedPlane::new(data, row_bytes));
            index += 1;
        }
        proof {
            assert(owned_planes_model(planes@) =~= model.tight().planes);
            law_tight_is_valid(model);
        }
        Self::new(self.dims, self.format, planes)
    }
}

/// A packed frame is made of what it is given: size, layout, bytes, and stride.
pub proof fn law_packed_frames_are_as_given(
    data: Seq<u8>,
    width: u32,
    height: u32,
    pixel_format: PixelFormat,
    stride: nat,
)
    ensures
        ({
            let frame = packed_model(data, width, height, pixel_format, stride);
            &&& frame.dims.width == width
            &&& frame.dims.height == height
            &&& frame.format.pixel_format == pixel_format
            &&& frame.planes.len() == 1
            &&& frame.planes[0].data == data
            &&& frame.planes[0].stride == stride
        }),
        checked_packed(data, width, height, pixel_format, stride) matches Ok(frame) ==> frame
            == packed_model(data, width, height, pixel_format, stride) && frame.valid(),
        packed_model(data, width, height, pixel_format, stride).valid()
            && pixel_format.pixel_bytes() is Some ==> checked_packed(
            data,
            width,
            height,
            pixel_format,
            stride,
        ) is Ok,
{
}

/// Frames are refused for a reason that holds: a zero size, a wrong number of planes, or a
/// plane whose stride or data is too short.
pub proof fn law_frames_are_refused_for_cause(frame: FrameModel)
    ensures
        frame.checked() is Ok <==> frame.valid(),
        frame.checked() matches Ok(same) ==> same == frame,
        frame.checked_sized() is Ok <==> frame.valid(),
        frame.checked_sized() matches Ok(same) ==> same == frame,
        frame.valid() <==> {
            &&& frame.dims.width > 0 && frame.dims.height > 0
            &&& frame.planes.len() == frame.format.pixel_format.planes()
            &&& forall|i: int|
                0 <= i < frame.planes.len() ==> {
                    let plane = #[trigger] frame.planes[i];
                    let rows = frame.format.pixel_format.rows(frame.dims, i as nat);
                    let row_bytes = frame.format.pixel_format.row_bytes(frame.dims, i as nat);
                    &&& row_bytes <= u32::MAX
                    &&& row_bytes <= plane.stride
                    &&& (rows - 1) * plane.stride + row_bytes <= plane.data.len()
                }
        },
{
    let layout = frame.format.pixel_format;
    if frame.dims.width > 0 && frame.dims.height > 0 {
        assert forall|i: int| 0 <= i < frame.planes.len() implies (#[trigger] frame.plane_fits(i)
            <==> {
            let plane = frame.planes[i];
            let rows = layout.rows(frame.dims, i as nat);
            let row_bytes = layout.row_bytes(frame.dims, i as nat);
            &&& row_bytes <= u32::MAX
            &&& row_bytes <= plane.stride
            &&& (rows - 1) * plane.stride + row_bytes <= plane.data.len()
        }) by {
            let plane = frame.planes[i];
            let rows = layout.rows(frame.dims, i as nat);
            assert((rows - 1) * plane.stride == plane.stride * (rows - 1)) by (nonlinear_arith);
        }
        if frame.valid() {
            assert forall|i: int| 0 <= i < frame.planes.len() implies {
                let plane = #[trigger] frame.planes[i];
                let rows = layout.rows(frame.dims, i as nat);
                let row_bytes = layout.row_bytes(frame.dims, i as nat);
                &&& row_bytes <= u32::MAX
                &&& row_bytes <= plane.stride
                &&& (rows - 1) * plane.stride + row_bytes <= plane.data.len()
            } by {
                assert(frame.plane_fits(i));
            }
        } else if frame.planes.len() == layout.planes() {
            let i = choose|i: int| 0 <= i < frame.planes.len() && !#[trigger] frame.plane_fits(i);
            let plane = frame.planes[i];
        }
    }
}

/// The size of a plane in bytes and rows, the bytes of a row, and the length of a buffer
/// agree: a buffer ends with the last useful byte of its last row.
pub proof fn law_plane_measures_agree(
    format: PixelFormat,
    dims: Dimensions,
    plane: nat,
    stride: nat,
)
    requires
        plane < format.planes(),
        dims.width > 0,
        dims.height > 0,
        format.row_bytes(dims, plane) <= u32::MAX,
    ensures
        format.checked_plane_dimensions(dims, plane) matches Ok(size) && size.width
            == format.row_bytes(dims, plane) && size.height == format.rows(dims, plane),
        format.checked_row_bytes(dims, plane) matches Ok(bytes) && bytes == format.row_bytes(
            dims,
            plane,
        ),
        format.checked_buffer_len(dims, plane, stride) matches Ok(length) ==> stride
            >= format.row_bytes(dims, plane) && length == (format.rows(dims, plane) - 1) * stride
            + format.row_bytes(dims, plane),
        stride < format.row_bytes(dims, plane) ==> format.checked_buffer_len(
            dims,
            plane,
            stride,
        ) is Err,
        stride >= format.row_bytes(dims, plane) && (format.rows(dims, plane) - 1) * stride
            + format.row_bytes(dims, plane) <= usize::MAX ==> format.checked_buffer_len(
            dims,
            plane,
            stride,
        ) is Ok,
{
    law_layouts_hold_every_pixel(format, dims, plane);
    let rows = format.rows(dims, plane);
    assert((rows - 1) * stride == stride * (rows - 1)) by (nonlinear_arith);
    assert(format.row_bytes(dims, plane) > 0) by {
        if let Some(bytes) = format.pixel_bytes() {
            assert(dims.width as nat * bytes as nat > 0) by (nonlinear_arith)
                requires
                    bytes > 0,
                    dims.width > 0,
            ;
        }
    }
}

/// A plane that the layout does not have has no measures.
pub proof fn law_missing_planes_have_no_measures(
    format: PixelFormat,
    dims: Dimensions,
    plane: nat,
    stride: nat,
)
    requires
        plane >= format.planes(),
    ensures
        format.checked_plane_dimensions(dims, plane) is Err,
        format.checked_row_bytes(dims, plane) is Err,
        format.checked_buffer_len(dims, plane, stride) is Err,
{
}

/// Metadata that is not given: the video standards for YUV, sRGB for everything else, and
/// full range throughout.
pub proof fn law_default_metadata(format: PixelFormat)
    ensures
        ({
            let own = FormatSpec::standard(format);
            let video = format is Yuv444p8 || format is Yuv422p8 || format is Yuv420p8
                || format is Nv12;
            &&& own.pixel_format == format
            &&& own.range is Full
            &&& video ==> own.color_space is Bt709 && own.transfer is Bt1886
            &&& !video ==> own.color_space is Srgb && own.transfer is Srgb
        }),
{
}

/// A size is accepted exactly when both sides are there, and is kept.
pub proof fn law_sizes_are_kept(width: u32, height: u32)
    ensures
        Dimensions::checked(width, height) is Ok <==> width > 0 && height > 0,
        Dimensions::checked(width, height) matches Ok(size) ==> size.width == width && size.height
            == height,
{
}

/// A frame is refused with the fault of its first faulty plane, once the number of planes
/// is right.
pub proof fn law_first_faulty_plane_is_reported(frame: FrameModel, i: int)
    requires
        frame.planes.len() == frame.format.pixel_format.planes(),
        0 <= i < frame.planes.len(),
        frame.planes[i].data.len() <= usize::MAX,
        frame.plane_error(i) is Some,
        forall|j: int| 0 <= j < i ==> (#[trigger] frame.plane_error(j)) is None,
    ensures
        frame.fault() == frame.plane_error(i),
        !frame.valid(),
{
    lemma_fault_at(frame, i, 0);
    lemma_plane_error(frame, i);
    if frame.valid() {
        assert(frame.plane_fits(i));
    }
}

proof fn lemma_fault_at(frame: FrameModel, i: int, from: int)
    requires
        0 <= from <= i < frame.planes.len(),
        frame.plane_error(i) is Some,
        forall|j: int| from <= j < i ==> (#[trigger] frame.plane_error(j)) is None,
    ensures
        frame.fault_from(from) == frame.plane_error(i),
    decreases i - from,
{
    if from < i {
        lemma_fault_at(frame, i, from + 1);
        let fault = frame.plane_error(from);
    }
}

/// Planes are read one by one, with their own bytes and strides.
pub proof fn law_planes_are_read_one_by_one(
    views: Seq<PlaneView<'_>>,
    owned: Seq<OwnedPlane>,
    i: int,
    j: int,
)
    requires
        0 <= i < views.len(),
        0 <= j < owned.len(),
    ensures
        plane_views(views).len() == views.len(),
        plane_views(views)[i].data == views[i].data@,
        plane_views(views)[i].stride == views[i].stride,
        owned_planes_model(owned).len() == owned.len(),
        owned_planes_model(owned)[j].data == owned[j].data@,
        owned_planes_model(owned)[j].stride == owned[j].stride,
{
}

} // verus!
