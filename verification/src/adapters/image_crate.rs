//! Adapters for the `image` crate.

use crate::error::{Error, ErrorView, Result};
use crate::frame::{
    checked_tight, frame_outcome, packed_model, FrameModel, FrameOwned, PixelFormat,
};
use image::GenericImageView;
use vstd::prelude::*;

verus! {

/// A decoded image of the `image` crate, in any of its pixel types.
#[verifier::external_type_specification]
#[verifier::external_body]
pub struct ExDynamicImage(image::DynamicImage);

/// A decoding failure of the `image` crate.
#[verifier::external_type_specification]
#[verifier::external_body]
pub struct ExImageError(image::ImageError);

/// Width and height of a decoded image.
pub uninterp spec fn image_size(image: image::DynamicImage) -> (u32, u32);

/// The pixels of a decoded image converted to RGBA with eight bits per channel,
/// row by row.
pub uninterp spec fn rgba8_samples(image: image::DynamicImage) -> Seq<u8>;

/// Whether the RGBA8 pixels of an image fit into one allocation.
pub open spec fn rgba8_fits(image: image::DynamicImage) -> bool {
    4 * (image_size(image).0 * image_size(image).1) <= isize::MAX
}

/// Calls `image::GenericImageView::dimensions` of a decoded image, which returns
/// the width and height stored in it.
#[verifier::external_body]
fn dimensions_of(image: &image::DynamicImage) -> (size: (u32, u32))
    ensures
        size == image_size(*image),
{
    image.dimensions()
}

/// Calls `image::DynamicImage::to_rgba8` and takes the raw buffer of the copy.
///
/// The buffer holds at least four bytes for each pixel; it is longer when the
/// image was already RGBA8 and kept in a longer buffer. The call allocates the
/// converted pixels, so they must fit into one allocation.
#[verifier::external_body]
fn rgba8_of(image: &image::DynamicImage) -> (samples: Vec<u8>)
    requires
        rgba8_fits(*image),
    ensures
        samples@ == rgba8_samples(*image),
        samples@.len() >= 4 * (image_size(*image).0 * image_size(*image).1),
{
    image.to_rgba8().into_raw()
}

/// Calls `image::load_from_memory`, which guesses the format from the first bytes
/// and decodes the image.
///
/// Nothing is claimed of the image: which formats are known depends on the codecs
/// that the program registered.
#[verifier::external_body]
fn decode_dynamic(bytes: &[u8]) -> (result: core::result::Result<
    image::DynamicImage,
    image::ImageError,
>) {
    image::load_from_memory(bytes)
}

/// Calls `image::ImageReader` on bytes in memory, with the format that
/// `image::ImageFormat::from_extension` gives for a file extension, if any:
/// `with_guessed_format` replaces it by the one that the first bytes tell, and `decode`
/// decodes the image. Formats without a signature are known by the extension alone.
///
/// Nothing is claimed of the image: which formats are known depends on the codecs
/// that the program registered.
#[verifier::external_body]
fn decode_hinted(bytes: &[u8], extension: &str) -> (result: core::result::Result<
    image::DynamicImage,
    image::ImageError,
>) {
    let mut reader = image::ImageReader::new(std::io::Cursor::new(bytes));
    if let Some(format) = image::ImageFormat::from_extension(extension) {
        reader.set_format(format);
    }
    reader.with_guessed_format()?.decode()
}

/// The frame that an image converts to.
pub open spec fn rgba8_frame(image: image::DynamicImage) -> FrameModel {
    packed_model(
        rgba8_samples(image),
        image_size(image).0,
        image_size(image).1,
        PixelFormat::Rgba8,
        image_size(image).0 as nat * 4,
    )
}

/// The error for an image whose converted pixels exceed one allocation.
pub open spec fn too_large() -> ErrorView {
    ErrorView::UnsupportedInput("decoded image is too large"@)
}

/// What becomes of a decoded image: its frame, or why there is none.
pub open spec fn decoded_frame(image: image::DynamicImage) -> core::result::Result<
    FrameModel,
    ErrorView,
> {
    if rgba8_fits(image) {
        checked_tight(
            rgba8_samples(image),
            image_size(image).0,
            image_size(image).1,
            PixelFormat::Rgba8,
        )
    } else {
        Err(too_large())
    }
}

/// Whether an error can come of decoding: the decoder reported it, or the decoded image
/// makes no frame.
pub open spec fn decode_failure(error: ErrorView) -> bool {
    ||| error is Image
    ||| {
        &&& error is InvalidFrame || error == too_large()
        &&& exists|image: image::DynamicImage|
            (#[trigger] decoded_frame(image)) == Err::<FrameModel, ErrorView>(error)
    }
}

/// Converts an `image::DynamicImage` to owned tightly packed RGBA8.
///
/// This intentionally normalizes to RGBA8 because it is the most convenient
/// common interchange format for image files, ffmpeg rawvideo, and wgpu kernels.
pub fn from_dynamic_image_rgba8(img: &image::DynamicImage) -> (result: Result<FrameOwned>)
    requires
        rgba8_fits(*img),
    ensures
        frame_outcome(result) == checked_tight(
            rgba8_samples(*img),
            image_size(*img).0,
            image_size(*img).1,
            PixelFormat::Rgba8,
        ),
        result is Ok <==> 0 < image_size(*img).0 <= 0x3fff_ffff && image_size(*img).1 > 0,
{
    let (width, height): (u32, u32) = dimensions_of(img);
    let samples = rgba8_of(img);
    proof {
        lemma_rgba_frame(samples@, width, height);
    }
    FrameOwned::packed_tight(samples, width, height, PixelFormat::Rgba8)
}

/// Enough RGBA8 samples make a valid frame exactly when the size is non-zero and
/// a row's bytes fit 32 bits.
proof fn lemma_rgba_frame(samples: Seq<u8>, width: u32, height: u32)
    requires
        samples.len() >= 4 * (width * height),
    ensures
        packed_model(samples, width, height, PixelFormat::Rgba8, width as nat * 4).valid() <==> 0
            < width <= 0x3fff_ffff && height > 0,
{
    let frame = packed_model(samples, width, height, PixelFormat::Rgba8, width as nat * 4);
    if 0 < width <= 0x3fff_ffff && height > 0 {
        assert((width as nat * 4) * (height - 1) as nat + 4 * width == 4 * (width * height))
            by (nonlinear_arith)
            requires
                height > 0,
        ;
        assert forall|i: int| 0 <= i < frame.planes.len() implies #[trigger] frame.plane_fits(
            i,
        ) by {}
    } else if frame.valid() {
        assert(frame.plane_fits(0));
    }
}

/// Converts the width, height, and samples of an RGBA image to owned tightly
/// packed RGBA8 without another copy.
pub fn from_rgba_image(width: u32, height: u32, samples: Vec<u8>) -> (result: Result<FrameOwned>)
    ensures
        frame_outcome(result) == checked_tight(samples@, width, height, PixelFormat::Rgba8),
{
    FrameOwned::packed_tight(samples, width, height, PixelFormat::Rgba8)
}

/// Converts the width, height, and samples of an RGB image to owned tightly
/// packed RGB8 without another copy.
pub fn from_rgb_image(width: u32, height: u32, samples: Vec<u8>) -> (result: Result<FrameOwned>)
    ensures
        frame_outcome(result) == checked_tight(samples@, width, height, PixelFormat::Rgb8),
{
    FrameOwned::packed_tight(samples, width, height, PixelFormat::Rgb8)
}

/// Decodes image bytes via the `image` crate and returns RGBA8.
///
/// Whatever was decoded, the frame is the conversion of that image, and an image
/// whose converted pixels exceed one allocation is refused. The bytes go to the decoder
/// as they are; the contract leaves open which image, if any, the decoder makes of them,
/// so it does not tie the frame to the bytes. [`frame_of_decoded`] says what becomes of
/// each decoded image.
pub fn decode_image_bytes(bytes: &[u8]) -> (result: Result<FrameOwned>)
    ensures
        match result {
            Ok(frame) => exists|image: image::DynamicImage|
                (#[trigger] decoded_frame(image)) == Ok::<FrameModel, ErrorView>(frame@) && frame@
                    == rgba8_frame(image),
            Err(error) => decode_failure(error@),
        },
{
    match decode_dynamic(bytes) {
        Ok(image) => {
            let result = frame_of_decoded(&image);
            assert(frame_outcome(result) == decoded_frame(image));
            result
        },
        Err(error) => Err(Error::Image(error.to_string())),
    }
}

/// Decodes the content of an image file via the `image` crate and returns RGBA8. The
/// first bytes tell the format, else the extension of the file's name does, which is
/// empty for a name without one.
///
/// As in [`decode_image_bytes`], bytes and extension go to the decoder as they are, and
/// the contract leaves open which image, if any, the decoder makes of them.
pub fn decode_image_file(bytes: &[u8], extension: &str) -> (result: Result<FrameOwned>)
    ensures
        match result {
            Ok(frame) => exists|image: image::DynamicImage|
                (#[trigger] decoded_frame(image)) == Ok::<FrameModel, ErrorView>(frame@) && frame@
                    == rgba8_frame(image),
            Err(error) => decode_failure(error@),
        },
{
    match decode_hinted(bytes, extension) {
        Ok(image) => {
            let result = frame_of_decoded(&image);
            assert(frame_outcome(result) == decoded_frame(image));
            result
        },
        Err(error) => Err(Error::Image(error.to_string())),
    }
}

/// Tells whether the RGBA8 pixels of a decoded image fit into one allocation.
pub fn is_convertible(image: &image::DynamicImage) -> (fits: bool)
    ensures
        fits == rgba8_fits(*image),
{
    let (width, height): (u32, u32) = dimensions_of(image);
    assert(width * height <= u64::MAX) by (nonlinear_arith)
        requires
            width <= u32::MAX,
            height <= u32::MAX,
    ;
    let pixels: u64 = width as u64 * height as u64;
    pixels <= isize::MAX as u64 / 4
}

/// Converts a decoded image unless its RGBA8 pixels exceed one allocation.
pub fn frame_of_decoded(image: &image::DynamicImage) -> (result: Result<FrameOwned>)
    ensures
        frame_outcome(result) == decoded_frame(*image),
        result matches Ok(frame) ==> frame@ == rgba8_frame(*image),
        result is Ok <==> rgba8_fits(*image) && 0 < image_size(*image).0 <= 0x3fff_ffff
            && image_size(*image).1 > 0,
        result matches Err(error) ==> error@ is InvalidFrame || error@ == too_large(),
{
    if !is_convertible(image) {
        return Err(Error::unsupported("decoded image is too large"));
    }
    from_dynamic_image_rgba8(image)
}

/// Lists formats enabled in the `image` dependency's default feature set.
pub fn enabled_format_hint() -> (formats: &'static [&'static str])
    ensures
        formats@ == seq![
            "AVIF",
            "BMP",
            "DDS",
            "EXR",
            "Farbfeld",
            "GIF",
            "HDR",
            "ICO",
            "JPEG",
            "PNG",
            "PNM",
            "QOI",
            "TGA",
            "TIFF",
            "WebP",
        ],
{
    &[
        "AVIF", "BMP", "DDS", "EXR", "Farbfeld", "GIF", "HDR", "ICO", "JPEG", "PNG", "PNM", "QOI",
        "TGA", "TIFF", "WebP",
    ]
}

/// A decoded image becomes a frame of its own size with its own samples, four bytes a
/// pixel and rows without padding; too wide or too large ones, and those without pixels,
/// do not.
pub proof fn law_decoded_images_become_frames(image: image::DynamicImage)
    ensures
        decoded_frame(image) matches Ok(frame) ==> {
            &&& frame.dims.width == image_size(image).0
            &&& frame.dims.height == image_size(image).1
            &&& frame.format.pixel_format is Rgba8
            &&& frame.planes.len() == 1
            &&& frame.planes[0].data == rgba8_samples(image)
            &&& frame.planes[0].stride == 4 * image_size(image).0
            &&& frame.valid()
        },
        image_size(image).0 == 0 || image_size(image).1 == 0 ==> decoded_frame(image) is Err,
        4 * (image_size(image).0 * image_size(image).1) > isize::MAX ==> decoded_frame(
            image,
        ) is Err,
{
}

} // verus!
