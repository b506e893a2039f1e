//! Samples and buffers of diff images and heatmaps for full-reference comparisons.

use crate::error::{outcome, Error, ErrorView, Result};
use crate::frame::{
    describe_size, law_valid_frames_hold_their_rows, size_text, FrameModel, FrameView, PixelFormat,
    Validated,
};
use crate::text::{concat4, decimal, decimal_text};
use vstd::prelude::*;

verus! {

/// RGBA8 image data returned by diff/heatmap helpers.
#[derive(Debug)]
pub struct RgbaImageData {
    /// Image width in pixels.
    pub width: u32,
    /// Image height in pixels.
    pub height: u32,
    /// Tight RGBA8 pixels in row-major order.
    pub data: Vec<u8>,
}

impl RgbaImageData {
    /// Creates a tight RGBA8 image buffer.
    pub fn new(width: u32, height: u32, data: Vec<u8>) -> (result: Result<Self>)
        ensures
            match result {
                Ok(image) => data@.len() == 4 * (width * height) && image.width == width
                    && image.height == height && image.data == data,
                Err(error) => data@.len() != 4 * (width * height) && error@
                    == ErrorView::InvalidFrame(
                    if 4 * (width * height) > usize::MAX {
                        "RGBA image byte count overflows usize"@
                    } else {
                        "RGBA image has "@ + decimal_text(data@.len()) + " bytes, expected "@
                            + decimal_text((4 * (width * height)) as nat)
                    },
                ),
            },
    {
        let available: usize = data.len();
        assert(width * height <= u64::MAX) by (nonlinear_arith)
            requires
                width <= u32::MAX,
                height <= u32::MAX,
        ;
        let pixels: u64 = width as u64 * height as u64;
        if pixels > usize::MAX as u64 / 4 {
            return Err(Error::invalid_frame("RGBA image byte count overflows usize"));
        }
        let expected: u64 = pixels * 4;
        if available as u64 != expected {
            return Err(
                Error::invalid_frame(
                    concat4(
                        "RGBA image has ",
                        decimal(available as u64).as_str(),
                        " bytes, expected ",
                        decimal(expected).as_str(),
                    ).as_str(),
                ),
            );
        }
        Ok(Self { width, height, data })
    }
}

/// Visual encoding used by diff images.
#[derive(Debug, Clone, Copy, PartialEq, Eq, Structural)]
pub enum DiffImageMode {
    /// Encode absolute per-channel RGB differences directly.
    AbsoluteRgb,
    /// Encode a scalar difference magnitude as a blue/cyan/yellow/red heatmap.
    Heatmap,
    /// Encode signed luma difference: red means distorted is brighter, blue means darker.
    SignedLuma,
}

/// One stored channel value.
#[derive(Debug, Clone, Copy, PartialEq, Eq, Structural)]
pub enum ChannelSample {
    /// Eight-bit code value.
    Code8(u8),
    /// Sixteen-bit code value.
    Code16(u16),
    /// Four bytes of a native-endian 32-bit float, first byte first.
    Float32(u8, u8, u8, u8),
    /// The channel is not stored and counts as fully set.
    Full,
}

/// Red, green, blue, and alpha of one pixel as stored.
#[derive(Debug, Clone, Copy, PartialEq, Eq, Structural)]
pub struct DisplaySample {
    /// Red channel.
    pub red: ChannelSample,
    /// Green channel.
    pub green: ChannelSample,
    /// Blue channel.
    pub blue: ChannelSample,
    /// Alpha channel.
    pub alpha: ChannelSample,
}

/// Eight-bit channel at a byte position.
pub open spec fn code8(pixel: Seq<u8>, at: int) -> ChannelSample {
    ChannelSample::Code8(pixel[at])
}

/// Little-endian sixteen-bit channel at a byte position.
pub open spec fn code16(pixel: Seq<u8>, at: int) -> ChannelSample {
    ChannelSample::Code16((pixel[at] + 256 * pixel[at + 1]) as u16)
}

/// Float channel at a byte position.
pub open spec fn float32(pixel: Seq<u8>, at: int) -> ChannelSample {
    ChannelSample::Float32(pixel[at], pixel[at + 1], pixel[at + 2], pixel[at + 3])
}

/// Channels of a pixel given its bytes; luma fills all three colors. Layouts that
/// are not shown have none.
pub open spec fn pixel_channels(format: PixelFormat, pixel: Seq<u8>) -> Option<DisplaySample> {
    match format {
        PixelFormat::Luma8 => Some(
            DisplaySample {
                red: code8(pixel, 0),
                green: code8(pixel, 0),
                blue: code8(pixel, 0),
                alpha: ChannelSample::Full,
            },
        ),
        PixelFormat::Rgb8 => Some(
            DisplaySample {
                red: code8(pixel, 0),
                green: code8(pixel, 1),
                blue: code8(pixel, 2),
                alpha: ChannelSample::Full,
            },
        ),
        PixelFormat::Rgba8 => Some(
            DisplaySample {
                red: code8(pixel, 0),
                green: code8(pixel, 1),
                blue: code8(pixel, 2),
                alpha: code8(pixel, 3),
            },
        ),
        PixelFormat::Bgr8 => Some(
            DisplaySample {
                red: code8(pixel, 2),
                green: code8(pixel, 1),
                blue: code8(pixel, 0),
                alpha: ChannelSample::Full,
            },
        ),
        PixelFormat::Bgra8 => Some(
            DisplaySample {
                red: code8(pixel, 2),
                green: code8(pixel, 1),
                blue: code8(pixel, 0),
                alpha: code8(pixel, 3),
            },
        ),
        PixelFormat::Luma16Le => Some(
            DisplaySample {
                red: code16(pixel, 0),
                green: code16(pixel, 0),
                blue: code16(pixel, 0),
                alpha: ChannelSample::Full,
            },
        ),
        PixelFormat::Rgb16Le => Some(
            DisplaySample {
                red: code16(pixel, 0),
                green: code16(pixel, 2),
                blue: code16(pixel, 4),
                alpha: ChannelSample::Full,
            },
        ),
        PixelFormat::Rgba16Le => Some(
            DisplaySample {
                red: code16(pixel, 0),
                green: code16(pixel, 2),
                blue: code16(pixel, 4),
                alpha: code16(pixel, 6),
            },
        ),
        PixelFormat::RgbF32 => Some(
            DisplaySample {
                red: float32(pixel, 0),
                green: float32(pixel, 4),
                blue: float32(pixel, 8),
                alpha: ChannelSample::Full,
            },
        ),
        PixelFormat::RgbaF32 => Some(
            DisplaySample {
                red: float32(pixel, 0),
                green: float32(pixel, 4),
                blue: float32(pixel, 8),
                alpha: float32(pixel, 12),
            },
        ),
        _ => None,
    }
}

/// Channels of the pixel at a position of a frame, or why it is not shown.
pub open spec fn display_sample(frame: FrameModel, x: int, y: int) -> core::result::Result<
    DisplaySample,
    ErrorView,
> {
    let format = frame.format.pixel_format;
    match format.pixel_bytes() {
        None => Err(
            ErrorView::UnsupportedInput(
                "diff_image currently requires packed RGB/RGBA/luma inputs"@,
            ),
        ),
        Some(bytes) => {
            let plane = frame.planes[0];
            let start = y * plane.stride + x * bytes;
            match pixel_channels(format, plane.data.subrange(start, start + bytes)) {
                Some(sample) => Ok(sample),
                None => Err(
                    ErrorView::UnsupportedInput(
                        "diff_image currently does not convert planar YUV inputs; compare luma metrics or convert to RGB first"@,
                    ),
                ),
            }
        },
    }
}

fn read_u16_le(pixel: &[u8], offset: usize) -> (value: u16)
    requires
        offset + 2 <= pixel@.len(),
    ensures
        value == (pixel@[offset as int] + 256 * pixel@[offset + 1]) as u16,
        pixel@[offset as int] + 256 * pixel@[offset + 1] <= u16::MAX,
{
    pixel[offset] as u16 + 256 * pixel[offset + 1] as u16
}

fn narrow(pixel: &[u8], at: usize) -> (sample: ChannelSample)
    requires
        at < pixel@.len(),
    ensures
        sample == code8(pixel@, at as int),
{
    ChannelSample::Code8(pixel[at])
}

fn wide(pixel: &[u8], at: usize) -> (sample: ChannelSample)
    requires
        at + 2 <= pixel@.len(),
    ensures
        sample == code16(pixel@, at as int),
{
    ChannelSample::Code16(read_u16_le(pixel, at))
}

fn read_f32_ne(pixel: &[u8], at: usize) -> (sample: ChannelSample)
    requires
        at + 4 <= pixel@.len(),
    ensures
        sample == float32(pixel@, at as int),
{
    ChannelSample::Float32(pixel[at], pixel[at + 1], pixel[at + 2], pixel[at + 3])
}

fn channels_of(format: PixelFormat, pixel: &[u8]) -> (sample: Option<DisplaySample>)
    requires
        format.pixel_bytes() matches Some(bytes) && pixel@.len() == bytes,
    ensures
        sample == pixel_channels(format, pixel@),
{
    let full = ChannelSample::Full;
    let (red, green, blue, alpha) = match format {
        PixelFormat::Luma8 => (narrow(pixel, 0), narrow(pixel, 0), narrow(pixel, 0), full),
        PixelFormat::Rgb8 => (narrow(pixel, 0), narrow(pixel, 1), narrow(pixel, 2), full),
        PixelFormat::Rgba8 => (
            narrow(pixel, 0),
            narrow(pixel, 1),
            narrow(pixel, 2),
            narrow(pixel, 3),
        ),
        PixelFormat::Bgr8 => (narrow(pixel, 2), narrow(pixel, 1), narrow(pixel, 0), full),
        PixelFormat::Bgra8 => (
            narrow(pixel, 2),
            narrow(pixel, 1),
            narrow(pixel, 0),
            narrow(pixel, 3),
        ),
        PixelFormat::Luma16Le => (wide(pixel, 0), wide(pixel, 0), wide(pixel, 0), full),
        PixelFormat::Rgb16Le => (wide(pixel, 0), wide(pixel, 2), wide(pixel, 4), full),
        PixelFormat::Rgba16Le => (wide(pixel, 0), wide(pixel, 2), wide(pixel, 4), wide(pixel, 6)),
        PixelFormat::RgbF32 => (
            read_f32_ne(pixel, 0),
            read_f32_ne(pixel, 4),
            read_f32_ne(pixel, 8),
            full,
        ),
        PixelFormat::RgbaF32 => (
            read_f32_ne(pixel, 0),
            read_f32_ne(pixel, 4),
            read_f32_ne(pixel, 8),
            read_f32_ne(pixel, 12),
        ),
        _ => return None,
    };
    Some(DisplaySample { red, green, blue, alpha })
}

/// Reads the stored channels of one pixel.
pub fn read_display_rgba(frame: &FrameView<'_, Validated>, x: usize, y: usize) -> (result: Result<
    DisplaySample,
>)
    requires
        x < frame@.dims.width,
        y < frame@.dims.height,
    ensures
        outcome(result) == display_sample(frame@, x as int, y as int),
{
    let dims = frame.dimensions();
    let format = frame.pixel_format();
    let plane = match frame.plane(0) {
        Ok(plane) => plane,
        Err(error) => return Err(error),
    };
    let bytes: usize = match format.bytes_per_pixel() {
        Some(bytes) => bytes,
        None => return Err(
            Error::unsupported("diff_image currently requires packed RGB/RGBA/luma inputs"),
        ),
    };
    let available: usize = plane.data.len();
    proof {
        assert(frame@.plane_fits(0));
        let stride = plane@.stride as int;
        let width = dims.width as int;
        let height = dims.height as int;
        assert(0 <= y * stride <= stride * (height - 1)) by (nonlinear_arith)
            requires
                0 <= y < height,
                stride >= 0,
        ;
        assert(0 <= x * bytes && x * bytes + bytes <= width * bytes) by (nonlinear_arith)
            requires
                0 <= x < width,
                bytes >= 0,
        ;
        assert(width * bytes == dims.width as nat * bytes as nat);
    }
    let start: usize = y * plane.stride + x * bytes;
    let pixel = vstd::slice::slice_subrange(plane.data, start, start + bytes);
    match channels_of(format, pixel) {
        Some(sample) => Ok(sample),
        None => Err(
            Error::unsupported(
                "diff_image currently does not convert planar YUV inputs; compare luma metrics or convert to RGB first",
            ),
        ),
    }
}

/// Why frames of a format are not shown, if they are not.
pub open spec fn display_fault(format: PixelFormat) -> Option<ErrorView> {
    match format.pixel_bytes() {
        None => Some(
            ErrorView::UnsupportedInput(
                "diff_image currently requires packed RGB/RGBA/luma inputs"@,
            ),
        ),
        Some(_) => if pixel_channels(format, Seq::empty()) is None {
            Some(
                ErrorView::UnsupportedInput(
                    "diff_image currently does not convert planar YUV inputs; compare luma metrics or convert to RGB first"@,
                ),
            )
        } else {
            None
        },
    }
}

/// Why a pair of frames has no diff image, if it has none.
pub open spec fn diff_fault(reference: FrameModel, distorted: FrameModel) -> Option<ErrorView> {
    let pixels = reference.dims.width * reference.dims.height;
    if reference.dims != distorted.dims {
        Some(
            ErrorView::IncompatibleFrames(
                "dimensions differ: "@ + size_text(reference.dims) + " vs "@ + size_text(
                    distorted.dims,
                ),
            ),
        )
    } else if pixels > usize::MAX {
        Some(ErrorView::InvalidFrame("pixel count overflows usize"@))
    } else if 4 * pixels > usize::MAX {
        Some(ErrorView::InvalidFrame("diff output byte count overflows usize"@))
    } else if display_fault(reference.format.pixel_format) is Some {
        display_fault(reference.format.pixel_format)
    } else {
        display_fault(distorted.format.pixel_format)
    }
}

/// Both samples at the `k`-th pixel in row-major order.
pub open spec fn pair_at(reference: FrameModel, distorted: FrameModel, k: int) -> (
    DisplaySample,
    DisplaySample,
) {
    let width = reference.dims.width as int;
    (
        display_sample(reference, k % width, k / width)->Ok_0,
        display_sample(distorted, k % width, k / width)->Ok_0,
    )
}

/// Reads both frames of a comparison pixel by pixel, in row-major order. A diff
/// image encodes each pair as one RGBA8 pixel.
pub fn diff_samples(
    reference: &FrameView<'_, Validated>,
    distorted: &FrameView<'_, Validated>,
) -> (result: Result<Vec<(DisplaySample, DisplaySample)>>)
    ensures
        match result {
            Ok(pairs) => {
                &&& diff_fault(reference@, distorted@) is None
                &&& pairs@ == Seq::new(
                    (reference@.dims.width * reference@.dims.height) as nat,
                    |k: int| pair_at(reference@, distorted@, k),
                )
            },
            Err(error) => diff_fault(reference@, distorted@) == Some(error@),
        },
{
    let dims = reference.dimensions();
    let other = distorted.dimensions();
    if dims != other {
        return Err(
            Error::incompatible(
                concat4(
                    "dimensions differ: ",
                    describe_size(dims).as_str(),
                    " vs ",
                    describe_size(other).as_str(),
                ).as_str(),
            ),
        );
    }
    let pixels: usize = match dims.pixels() {
        Ok(pixels) => pixels,
        Err(error) => return Err(error),
    };
    if pixels > usize::MAX / 4 {
        return Err(Error::invalid_frame("diff output byte count overflows usize"));
    }
    let width: usize = dims.width as usize;
    let height: usize = dims.height as usize;
    let mut pairs: Vec<(DisplaySample, DisplaySample)> = Vec::with_capacity(pixels);
    let mut y: usize = 0;
    assert(0 * width == 0) by (nonlinear_arith);
    while y < height
        invariant
            y <= height,
            width == reference@.dims.width > 0,
            height == reference@.dims.height > 0,
            reference@.dims == distorted@.dims,
            4 * (width * height) <= usize::MAX,
            y > 0 ==> display_fault(reference@.format.pixel_format) is None && display_fault(
                distorted@.format.pixel_format,
            ) is None,
            pairs@.len() == y * width,
            forall|k: int|
                0 <= k < pairs@.len() ==> #[trigger] pairs@[k] == pair_at(reference@, distorted@, k),
        decreases height - y,
    {
        let mut x: usize = 0;
        while x < width
            invariant
                y < height,
                x <= width,
                width == reference@.dims.width > 0,
                height == reference@.dims.height > 0,
                reference@.dims == distorted@.dims,
                4 * (width * height) <= usize::MAX,
                y > 0 || x > 0 ==> display_fault(reference@.format.pixel_format) is None
                    && display_fault(distorted@.format.pixel_format) is None,
                pairs@.len() == y * width + x,
                forall|k: int|
                    0 <= k < pairs@.len() ==> #[trigger] pairs@[k] == pair_at(
                        reference@,
                        distorted@,
                        k,
                    ),
            decreases width - x,
        {
            let a = match read_display_rgba(reference, x, y) {
                Ok(sample) => sample,
                Err(error) => return Err(error),
            };
            let b = match read_display_rgba(distorted, x, y) {
                Ok(sample) => sample,
                Err(error) => return Err(error),
            };
            proof {
                let k = y * width + x;
                assert(k / (width as int) == y && k % (width as int) == x) by {
                    vstd::arithmetic::div_mod::lemma_fundamental_div_mod_converse(
                        k,
                        width as int,
                        y as int,
                        x as int,
                    );
                }
            }
            pairs.push((a, b));
            x += 1;
        }
        assert((y + 1) * width == y * width + width) by (nonlinear_arith);
        y += 1;
    }
    assert(height * width == width * height) by (nonlinear_arith);
    Ok(pairs)
}

/// Both frames are read at the same place: the pair behind `y` full rows and `x` pixels
/// holds the sample of the reference and the sample of the distorted frame in column `x`
/// of row `y`.
pub proof fn law_pairs_stand_at_one_place(
    pairs: Seq<(DisplaySample, DisplaySample)>,
    reference: FrameModel,
    distorted: FrameModel,
    x: int,
    y: int,
)
    requires
        diff_fault(reference, distorted) is None,
        pairs == Seq::new(
            (reference.dims.width * reference.dims.height) as nat,
            |k: int| pair_at(reference, distorted, k),
        ),
        0 <= x < reference.dims.width,
        0 <= y < reference.dims.height,
    ensures
        0 <= y * reference.dims.width + x < pairs.len(),
        display_sample(reference, x, y) == Ok::<DisplaySample, ErrorView>(
            pairs[y * reference.dims.width + x].0,
        ),
        display_sample(distorted, x, y) == Ok::<DisplaySample, ErrorView>(
            pairs[y * reference.dims.width + x].1,
        ),
{
    let width = reference.dims.width as int;
    let height = reference.dims.height as int;
    let k = y * width + x;
    vstd::arithmetic::div_mod::lemma_fundamental_div_mod_converse(k, width, y, x);
    assert(0 <= k < width * height) by (nonlinear_arith)
        requires
            k == y * width + x,
            0 <= x < width,
            0 <= y < height,
    ;
}

/// A frame compared with itself gives equal samples in every pixel, and exchanging two
/// frames exchanges the samples of every pair.
pub proof fn law_pairs_follow_their_frames(reference: FrameModel, distorted: FrameModel, k: int)
    requires
        reference.dims == distorted.dims,
    ensures
        pair_at(reference, reference, k).0 == pair_at(reference, reference, k).1,
        pair_at(distorted, reference, k) == (
            pair_at(reference, distorted, k).1,
            pair_at(reference, distorted, k).0,
        ),
{
}

/// The sample of a pixel is made of that pixel's own bytes: of the byte, or the low and
/// high byte, or the four bytes of each channel, in the order the layout names. Where
/// there is no alpha channel it is full, and luma is shown in all three colors.
pub proof fn law_samples_are_the_pixels_bytes(frame: FrameModel, x: int, y: int)
    requires
        frame.valid(),
        0 <= x < frame.dims.width,
        0 <= y < frame.dims.height,
    ensures
        ({
            let format = frame.format.pixel_format;
            let data = frame.planes[0].data;
            let row = y * frame.planes[0].stride;
            let byte = |at: int| ChannelSample::Code8(data[row + at]);
            let word = |at: int, value: u16|
                data[row + at] == value % 256 && data[row + at + 1] == value / 256;
            let float = |at: int|
                ChannelSample::Float32(
                    data[row + at],
                    data[row + at + 1],
                    data[row + at + 2],
                    data[row + at + 3],
                );
            match display_sample(frame, x, y) {
                Ok(sample) => {
                    let (r, g, b, a) = (sample.red, sample.green, sample.blue, sample.alpha);
                    match format {
                        PixelFormat::Luma8 => r == byte(x) && g == byte(x) && b == byte(x)
                            && a is Full,
                        PixelFormat::Rgb8 => r == byte(3 * x) && g == byte(3 * x + 1) && b == byte(
                            3 * x + 2,
                        ) && a is Full,
                        PixelFormat::Bgr8 => b == byte(3 * x) && g == byte(3 * x + 1) && r == byte(
                            3 * x + 2,
                        ) && a is Full,
                        PixelFormat::Rgba8 => r == byte(4 * x) && g == byte(4 * x + 1) && b
                            == byte(4 * x + 2) && a == byte(4 * x + 3),
                        PixelFormat::Bgra8 => b == byte(4 * x) && g == byte(4 * x + 1) && r
                            == byte(4 * x + 2) && a == byte(4 * x + 3),
                        PixelFormat::Luma16Le => r is Code16 && word(2 * x, r->Code16_0) && g == r
                            && b == r && a is Full,
                        PixelFormat::Rgb16Le => r is Code16 && word(6 * x, r->Code16_0)
                            && g is Code16 && word(6 * x + 2, g->Code16_0) && b is Code16 && word(
                            6 * x + 4,
                            b->Code16_0,
                        ) && a is Full,
                        PixelFormat::Rgba16Le => r is Code16 && word(8 * x, r->Code16_0)
                            && g is Code16 && word(8 * x + 2, g->Code16_0) && b is Code16 && word(
                            8 * x + 4,
                            b->Code16_0,
                        ) && a is Code16 && word(8 * x + 6, a->Code16_0),
                        PixelFormat::RgbF32 => r == float(12 * x) && g == float(12 * x + 4) && b
                            == float(12 * x + 8) && a is Full,
                        PixelFormat::RgbaF32 => r == float(16 * x) && g == float(16 * x + 4) && b
                            == float(16 * x + 8) && a == float(16 * x + 12),
                        _ => false,
                    }
                },
                Err(_) => format is Hsv8 || format is Hsva8 || format is Binary1Lsb
                    || format is Binary1Msb || format is Yuv444p8 || format is Yuv422p8
                    || format is Yuv420p8 || format is Nv12,
            }
        }),
{
    let format = frame.format.pixel_format;
    let plane = frame.planes[0];
    if let Some(bytes) = format.pixel_bytes() {
        let start = y * plane.stride + x * bytes;
        let pixel = plane.data.subrange(start, start + bytes);
        let row_bytes = frame.dims.width as int * bytes;
        assert(format.row_bytes(frame.dims, 0) == row_bytes);
        assert(0 <= x * bytes && x * bytes + bytes <= row_bytes) by (nonlinear_arith)
            requires
                0 <= x < frame.dims.width,
                row_bytes == frame.dims.width as int * bytes,
                bytes > 0,
        ;
        law_valid_frames_hold_their_rows(frame, 0, y, row_bytes - 1);
        assert(y * plane.stride >= 0) by (nonlinear_arith)
            requires
                y >= 0,
                plane.stride >= 0,
        ;
        let size = bytes as int;
        assert(size == 1 ==> x * size == x) by (nonlinear_arith);
        assert(size == 2 ==> x * size == 2 * x) by (nonlinear_arith);
        assert(size == 3 ==> x * size == 3 * x) by (nonlinear_arith);
        assert(size == 4 ==> x * size == 4 * x) by (nonlinear_arith);
        assert(size == 6 ==> x * size == 6 * x) by (nonlinear_arith);
        assert(size == 8 ==> x * size == 8 * x) by (nonlinear_arith);
        assert(size == 12 ==> x * size == 12 * x) by (nonlinear_arith);
        assert(size == 16 ==> x * size == 16 * x) by (nonlinear_arith);
        assert(forall|i: int| 0 <= i < bytes ==> #[trigger] pixel[i] == plane.data[start + i]);
    }
}

/// Two frames have a diff image exactly when their sizes agree, the image's bytes can be
/// counted, and both are packed gray, RGB or BGR frames. Which one is the reference does
/// not matter for that.
pub proof fn law_shown_pairs(reference: FrameModel, distorted: FrameModel)
    ensures
        ({
            let shown = |format: PixelFormat|
                format is Luma8 || format is Rgb8 || format is Rgba8 || format is Bgr8
                    || format is Bgra8 || format is Luma16Le || format is Rgb16Le
                    || format is Rgba16Le || format is RgbF32 || format is RgbaF32;
            diff_fault(reference, distorted) is None <==> reference.dims == distorted.dims
                && 4 * (reference.dims.width * reference.dims.height) <= usize::MAX && shown(
                reference.format.pixel_format,
            ) && shown(distorted.format.pixel_format)
        }),
        reference.dims != distorted.dims ==> diff_fault(
            reference,
            distorted,
        )->Some_0 is IncompatibleFrames,
        diff_fault(reference, distorted) is None <==> diff_fault(distorted, reference) is None,
{
    assert(reference.dims.width * reference.dims.height >= 0) by (nonlinear_arith);
}

/// Tells whether the difference of two alpha values is shown: it is asked for, and both
/// frames contain alpha.
pub fn shows_alpha(include_alpha: bool, reference: ChannelSample, distorted: ChannelSample) -> (shown:
    bool)
    ensures
        shown == (include_alpha && !(reference is Full) && !(distorted is Full)),
{
    include_alpha && reference != ChannelSample::Full && distorted != ChannelSample::Full
}

} // verus!
