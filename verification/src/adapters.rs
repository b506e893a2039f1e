//! Input adapters for raw memory, encoded images, and camera/video buffers.
//!
//! The constructors here do not compute metrics. They only translate external
//! buffer layouts into [`FrameView`] or [`crate::frame::FrameOwned`].

pub mod bit_packed_gray;
pub mod image_crate;

use crate::error::Result;
use crate::frame::{
    packed_model, zero_size_error, Dimensions, FormatSpec, FrameModel, FrameView, PixelFormat,
    PlaneModel, PlaneView, Unchecked, Validated,
};
use vstd::prelude::*;

verus! {

/// What a checked constructor returns for a frame: the frame when it is valid,
/// else the zero-size error, else what validation reports.
pub open spec fn checked_view(
    result: Result<FrameView<'_, Validated>>,
    model: FrameModel,
) -> bool {
    &&& result is Ok <==> model.valid()
    &&& match result {
        Ok(frame) => frame@ == model,
        Err(error) => if model.dims.width == 0 || model.dims.height == 0 {
            error@ == zero_size_error()
        } else {
            model.fault() == Some(error@)
        },
    }
}

/// Validates a packed view.
fn packed_view(
    data: &[u8],
    width: u32,
    height: u32,
    pixel_format: PixelFormat,
    stride: usize,
) -> (result: Result<FrameView<'_, Validated>>)
    requires
        pixel_format.pixel_bytes() is Some,
    ensures
        checked_view(result, packed_model(data@, width, height, pixel_format, stride as nat)),
{
    match FrameView::<Unchecked>::packed(data, width, height, pixel_format, stride) {
        Ok(frame) => frame.validate(),
        Err(error) => Err(error),
    }
}

/// Creates a validated borrowed RGB8 frame.
pub fn rgb8_view(data: &[u8], width: u32, height: u32, stride: usize) -> (result: Result<
    FrameView<'_, Validated>,
>)
    ensures
        checked_view(result, packed_model(data@, width, height, PixelFormat::Rgb8, stride as nat)),
{
    packed_view(data, width, height, PixelFormat::Rgb8, stride)
}

/// Creates a validated borrowed RGBA8 frame.
pub fn rgba8_view(data: &[u8], width: u32, height: u32, stride: usize) -> (result: Result<
    FrameView<'_, Validated>,
>)
    ensures
        checked_view(result, packed_model(data@, width, height, PixelFormat::Rgba8, stride as nat)),
{
    packed_view(data, width, height, PixelFormat::Rgba8, stride)
}

/// Creates a validated borrowed BGR8 frame.
pub fn bgr8_view(data: &[u8], width: u32, height: u32, stride: usize) -> (result: Result<
    FrameView<'_, Validated>,
>)
    ensures
        checked_view(result, packed_model(data@, width, height, PixelFormat::Bgr8, stride as nat)),
{
    packed_view(data, width, height, PixelFormat::Bgr8, stride)
}

/// Creates a validated borrowed BGRA8 frame.
pub fn bgra8_view(data: &[u8], width: u32, height: u32, stride: usize) -> (result: Result<
    FrameView<'_, Validated>,
>)
    ensures
        checked_view(result, packed_model(data@, width, height, PixelFormat::Bgra8, stride as nat)),
{
    packed_view(data, width, height, PixelFormat::Bgra8, stride)
}

/// Creates a validated borrowed YUV420p8 frame from separate Y/U/V planes.
pub fn yuv420p8_view<'a>(
    width: u32,
    height: u32,
    y: &'a [u8],
    y_stride: usize,
    u: &'a [u8],
    u_stride: usize,
    v: &'a [u8],
    v_stride: usize,
) -> (result: Result<FrameView<'a, Validated>>)
    ensures
        checked_view(
            result,
            FrameModel {
                dims: Dimensions { width, height },
                format: FormatSpec::standard(PixelFormat::Yuv420p8),
                planes: seq![
                    PlaneModel { data: y@, stride: y_stride as nat },
                    PlaneModel { data: u@, stride: u_stride as nat },
                    PlaneModel { data: v@, stride: v_stride as nat },
                ],
            },
        ),
{
    match FrameView::<Unchecked>::yuv_planar(
        width,
        height,
        PixelFormat::Yuv420p8,
        PlaneView::new(y, y_stride),
        PlaneView::new(u, u_stride),
        PlaneView::new(v, v_stride),
    ) {
        Ok(frame) => frame.validate(),
        Err(error) => Err(error),
    }
}

/// Creates a validated borrowed NV12 frame.
pub fn nv12_view<'a>(
    width: u32,
    height: u32,
    y: &'a [u8],
    y_stride: usize,
    uv: &'a [u8],
    uv_stride: usize,
) -> (result: Result<FrameView<'a, Validated>>)
    ensures
        checked_view(
            result,
            FrameModel {
                dims: Dimensions { width, height },
                format: FormatSpec::standard(PixelFormat::Nv12),
                planes: seq![
                    PlaneModel { data: y@, stride: y_stride as nat },
                    PlaneModel { data: uv@, stride: uv_stride as nat },
                ],
            },
        ),
{
    match FrameView::<Unchecked>::nv12(
        width,
        height,
        PlaneView::new(y, y_stride),
        PlaneView::new(uv, uv_stride),
    ) {
        Ok(frame) => frame.validate(),
        Err(error) => Err(error),
    }
}

/// A view is given exactly for valid frames, as the frame it was asked for; a zero size is
/// the first thing that is reported.
pub proof fn law_views_are_the_frames(result: Result<FrameView<'_, Validated>>, model: FrameModel)
    requires
        checked_view(result, model),
    ensures
        result is Ok <==> model.valid(),
        result matches Ok(frame) ==> frame@ == model,
        result matches Err(error) ==> (model.dims.width == 0 || model.dims.height == 0 ==> error@
            == zero_size_error()),
{
}

} // verus!
