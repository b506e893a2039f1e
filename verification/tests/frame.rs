use imq::frame::{
    describe_size, ColorRange, ColorSpace, Dimensions, FormatSpec, FrameOwned,
    FrameView, FullRange, LimitedRange, OwnedPlane, PixelFormat, PlaneView, RangeMarker, Transfer,
};
use imq::Error;

#[test]
fn validates_tight_rgba() {
    let data = vec![0u8; 4 * 2 * 3];
    let frame = FrameOwned::packed_tight(data, 2, 3, PixelFormat::Rgba8).unwrap();
    assert_eq!(frame.dimensions().pixels().unwrap(), 6);
}

#[test]
fn rejects_short_plane() {
    let err = FrameOwned::packed_tight(vec![0u8; 3], 2, 1, PixelFormat::Rgba8).unwrap_err();
    assert!(matches!(err, Error::InvalidFrame(_)));
}

#[test]
fn computes_minimum_plane_layouts() {
    let dims = Dimensions::new(5, 3).unwrap();
    assert_eq!(PixelFormat::Rgba8.plane_row_bytes(dims, 0).unwrap(), 20);
    assert_eq!(PixelFormat::Yuv420p8.plane_row_bytes(dims, 1).unwrap(), 3);
    assert_eq!(PixelFormat::Nv12.plane_row_bytes(dims, 1).unwrap(), 6);
    assert_eq!(PixelFormat::Binary1Lsb.plane_row_bytes(dims, 0).unwrap(), 1);
    assert_eq!(
        PixelFormat::Rgba8.plane_buffer_len(dims, 0, 24).unwrap(),
        68
    );
}

#[test]
fn strips_row_padding_without_changing_pixels() {
    let frame = FrameOwned::packed(
        vec![1, 2, 3, 4, 99, 99, 5, 6, 7, 8],
        1,
        2,
        PixelFormat::Rgba8,
        6,
    )
    .unwrap();
    let tight = frame.to_tightly_packed().unwrap();
    assert_eq!(tight.owned_planes()[0].stride, 4);
    assert_eq!(tight.owned_planes()[0].data, [1, 2, 3, 4, 5, 6, 7, 8]);
}

#[test]
fn tightening_a_tight_frame_changes_nothing() {
    let frame = FrameOwned::packed_tight(vec![9; 6], 2, 1, PixelFormat::Rgb8).unwrap();
    let once = frame.to_tightly_packed().unwrap();
    let twice = once.to_tightly_packed().unwrap();
    assert_eq!(once.owned_planes()[0].data, twice.owned_planes()[0].data);
    assert_eq!(once.owned_planes()[0].stride, twice.owned_planes()[0].stride);
}

#[test]
fn empty_sides_are_invalid() {
    for (width, height) in [(0, 1), (1, 0), (0, 0)] {
        let error = Dimensions::new(width, height).unwrap_err();
        assert!(matches!(error, Error::InvalidFrame(_)));
    }
    let dims = Dimensions::new(3, 4).unwrap();
    assert_eq!(dims.as_usize().unwrap(), (3, 4));
    assert_eq!(describe_size(dims), "Dimensions { width: 3, height: 4 }");
}

#[test]
fn rows_of_masks_round_up_to_bytes() {
    for (width, bytes) in [(1, 1), (8, 1), (9, 2), (16, 2), (17, 3)] {
        let dims = Dimensions::new(width, 1).unwrap();
        assert_eq!(
            PixelFormat::Binary1Msb.plane_row_bytes(dims, 0).unwrap(),
            bytes
        );
    }
}

#[test]
fn chroma_planes_round_up() {
    let dims = Dimensions::new(5, 3).unwrap();
    assert_eq!(
        PixelFormat::Yuv420p8.plane_dimensions(dims, 2).unwrap(),
        Dimensions { width: 3, height: 2 }
    );
    assert_eq!(
        PixelFormat::Yuv422p8.plane_dimensions(dims, 1).unwrap(),
        Dimensions { width: 3, height: 3 }
    );
    assert_eq!(
        PixelFormat::Yuv444p8.plane_dimensions(dims, 1).unwrap(),
        dims
    );
    assert!(PixelFormat::Rgb8.plane_dimensions(dims, 1).is_err());
}

#[test]
fn a_stride_below_the_row_is_refused() {
    let dims = Dimensions::new(5, 3).unwrap();
    assert!(PixelFormat::Rgba8.plane_buffer_len(dims, 0, 19).is_err());
    let error =
        FrameOwned::packed(vec![0; 64], 4, 2, PixelFormat::Rgba8, 15).unwrap_err();
    assert!(matches!(error, Error::InvalidFrame(_)));
}

#[test]
fn the_plane_count_must_fit_the_format() {
    let dims = Dimensions::new(2, 2).unwrap();
    let planes = vec![OwnedPlane::new(vec![0; 4], 2)];
    let error = FrameOwned::new(dims, FormatSpec::new(PixelFormat::Yuv420p8), planes).unwrap_err();
    assert!(matches!(error, Error::InvalidFrame(_)));
}

#[test]
fn describes_formats() {
    assert_eq!(PixelFormat::Rgba8.name(), "Rgba8");
    assert_eq!(PixelFormat::Rgba8.bytes_per_pixel(), Some(4));
    assert_eq!(PixelFormat::RgbF32.bytes_per_pixel(), Some(12));
    assert_eq!(PixelFormat::Nv12.bytes_per_pixel(), None);
    assert_eq!(PixelFormat::Nv12.plane_count(), 2);
    assert_eq!(PixelFormat::Yuv420p8.plane_count(), 3);
    assert_eq!(PixelFormat::Luma8.channel_count(), 1);
    assert!(PixelFormat::Nv12.is_yuv());
    assert!(PixelFormat::Binary1Lsb.is_bit_packed());
    assert!(!PixelFormat::Nv12.is_packed());
    assert_eq!(PixelFormat::Rgb8.default_color_space(), ColorSpace::Srgb);
    let format = FormatSpec::new(PixelFormat::Luma8).typed_range::<LimitedRange>();
    assert_eq!(format.range, ColorRange::Limited);
    assert_eq!(FullRange::value(), ColorRange::Full);
    let format = FormatSpec::with_metadata(
        PixelFormat::Rgb8,
        ColorSpace::Bt2020,
        Transfer::Pq,
        ColorRange::Full,
    );
    assert_eq!(format.transfer, Transfer::Pq);
}

#[test]
fn views_borrow_what_frames_own() {
    let frame = FrameOwned::packed(vec![1, 2, 0, 3, 4, 0], 2, 2, PixelFormat::Luma8, 3).unwrap();
    let view = frame.as_view();
    assert_eq!(view.dimensions(), frame.dimensions());
    assert_eq!(view.plane(0).unwrap().row(1, 2).unwrap(), [3, 4]);
    assert!(view.plane(1).is_err());
    assert!(view.plane(0).unwrap().row(2, 2).is_err());
    assert!(!view.is_rgba8());
    let (dims, format, planes) = frame.into_parts();
    assert_eq!(dims.width, 2);
    assert_eq!(format.pixel_format, PixelFormat::Luma8);
    assert_eq!(planes[0].stride, 3);
}

#[test]
fn planar_views_validate() {
    let luma = [0u8; 4];
    let chroma = [0u8; 1];
    let frame = FrameView::yuv_planar(
        2,
        2,
        PixelFormat::Yuv420p8,
        PlaneView::new(&luma, 2),
        PlaneView::new(&chroma, 1),
        PlaneView::new(&chroma, 1),
    )
    .unwrap();
    assert_eq!(frame.validate().unwrap().pixel_format(), PixelFormat::Yuv420p8);
    let pair = [0u8; 2];
    let frame = FrameView::nv12(2, 2, PlaneView::new(&luma, 2), PlaneView::new(&pair, 2)).unwrap();
    assert_eq!(frame.validate().unwrap().planes().len(), 2);
}
