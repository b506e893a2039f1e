use imq::color::ColorTransformOptions;
use imq::diff::{
    diff_samples, read_display_rgba, shows_alpha, ChannelSample, DiffImageMode, RgbaImageData,
};
use imq::{ColorRange, ColorSpace, Error, FrameOwned, PixelFormat, Transfer};

fn full_code(sample: ChannelSample) -> f64 {
    match sample {
        ChannelSample::Code8(code) => f64::from(code) / 255.0,
        ChannelSample::Code16(code) => f64::from(code) / 65535.0,
        ChannelSample::Float32(a, b, c, d) => f64::from(f32::from_ne_bytes([a, b, c, d])),
        ChannelSample::Full => 1.0,
    }
}

#[test]
fn absolute_diff_samples_report_channel_delta() {
    let reference = FrameOwned::packed_tight(vec![0, 0, 0, 255], 1, 1, PixelFormat::Rgba8).unwrap();
    let distorted =
        FrameOwned::packed_tight(vec![255, 0, 0, 255], 1, 1, PixelFormat::Rgba8).unwrap();
    let samples = diff_samples(&reference.as_view(), &distorted.as_view()).unwrap();
    assert_eq!(samples.len(), 1);
    let (a, b) = samples[0];
    assert_eq!(full_code(b.red) - full_code(a.red), 1.0);
    assert_eq!(full_code(b.green) - full_code(a.green), 0.0);
    assert_eq!(full_code(b.blue) - full_code(a.blue), 0.0);
}

#[test]
fn alpha_is_shown_when_both_frames_have_it() {
    let rgba = FrameOwned::packed_tight(vec![0, 0, 0, 128], 1, 1, PixelFormat::Rgba8).unwrap();
    let rgb = FrameOwned::packed_tight(vec![0, 0, 0], 1, 1, PixelFormat::Rgb8).unwrap();
    let (a, b) = diff_samples(&rgba.as_view(), &rgb.as_view()).unwrap()[0];
    assert!(shows_alpha(true, a.alpha, a.alpha));
    assert!(!shows_alpha(false, a.alpha, a.alpha));
    assert!(!shows_alpha(true, a.alpha, b.alpha));
    assert!(!shows_alpha(true, b.alpha, a.alpha));
}

#[test]
fn samples_follow_the_format() {
    let bgr = FrameOwned::packed_tight(vec![1, 2, 3], 1, 1, PixelFormat::Bgr8).unwrap();
    let sample = read_display_rgba(&bgr.as_view(), 0, 0).unwrap();
    assert_eq!(sample.red, ChannelSample::Code8(3));
    assert_eq!(sample.blue, ChannelSample::Code8(1));
    assert_eq!(sample.alpha, ChannelSample::Full);

    let gray = FrameOwned::packed_tight(vec![0x34, 0x12], 1, 1, PixelFormat::Luma16Le).unwrap();
    let sample = read_display_rgba(&gray.as_view(), 0, 0).unwrap();
    assert_eq!(sample.red, ChannelSample::Code16(0x1234));
    assert_eq!(sample.green, ChannelSample::Code16(0x1234));

    let mut bytes = Vec::new();
    for value in [0.25f32, 0.5, 0.75] {
        bytes.extend_from_slice(&value.to_ne_bytes());
    }
    let float = FrameOwned::packed_tight(bytes, 1, 1, PixelFormat::RgbF32).unwrap();
    let sample = read_display_rgba(&float.as_view(), 0, 0).unwrap();
    assert_eq!(full_code(sample.green), 0.5);
}

#[test]
fn planar_frames_and_far_pixels_are_refused() {
    let luma = FrameOwned::packed_tight(vec![1, 2], 2, 1, PixelFormat::Luma8).unwrap();
    assert!(read_display_rgba(&luma.as_view(), 1, 0).is_ok());
    let hsv = FrameOwned::packed_tight(vec![1, 2, 3], 1, 1, PixelFormat::Hsv8).unwrap();
    let error = read_display_rgba(&hsv.as_view(), 0, 0).unwrap_err();
    assert!(matches!(error, Error::UnsupportedInput(_)));
}

#[test]
fn differing_sizes_have_no_diff() {
    let a = FrameOwned::packed_tight(vec![0; 4], 1, 1, PixelFormat::Rgba8).unwrap();
    let b = FrameOwned::packed_tight(vec![0; 8], 2, 1, PixelFormat::Rgba8).unwrap();
    let error = diff_samples(&a.as_view(), &b.as_view()).unwrap_err();
    assert!(matches!(error, Error::IncompatibleFrames(_)));
}

#[test]
fn image_data_needs_every_pixel() {
    let image = RgbaImageData::new(1, 2, vec![0; 8]).unwrap();
    assert_eq!((image.width, image.height), (1, 2));
    let error = RgbaImageData::new(1, 2, vec![0; 7]).unwrap_err();
    assert!(matches!(error, Error::InvalidFrame(_)));
    assert!(DiffImageMode::Heatmap != DiffImageMode::SignedLuma);
}

#[test]
fn color_options_start_from_srgb() {
    let options = ColorTransformOptions::default();
    assert_eq!(options.color_space, ColorSpace::Srgb);
    let options = ColorTransformOptions::new(ColorSpace::Bt709, Transfer::Bt1886, ColorRange::Limited)
        .with_linearize_rgb(true);
    assert!(options.linearize_rgb);
    assert_eq!(options.range, ColorRange::Limited);
}
