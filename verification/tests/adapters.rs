use imq::adapters::bit_packed_gray::{decode_bit_packed_gray, BitOrder, BitPackedGrayFormat};
use imq::adapters::image_crate::{
    decode_image_bytes, decode_image_file, enabled_format_hint, frame_of_decoded, from_dynamic_image_rgba8,
    from_rgb_image, from_rgba_image, is_convertible,
};
use imq::adapters::{bgr8_view, bgra8_view, nv12_view, rgb8_view, rgba8_view, yuv420p8_view};
use imq::{Error, FrameOwned, PixelFormat};

fn decoded_plane(frame: &FrameOwned) -> &[u8] {
    &frame.owned_planes()[0].data
}

#[test]
fn decodes_gray1_lsb_bit_order() {
    let format = BitPackedGrayFormat::new(1, BitOrder::LsbFirst).unwrap();
    let frame = decode_bit_packed_gray(&[0b0000_1011], 4, 1, format, None).unwrap();
    assert_eq!(decoded_plane(&frame), [255, 255, 0, 255]);
}

#[test]
fn decodes_gray1_msb_bit_order() {
    let format = BitPackedGrayFormat::new(1, BitOrder::MsbFirst).unwrap();
    let frame = decode_bit_packed_gray(&[0b1011_0000], 4, 1, format, None).unwrap();
    assert_eq!(decoded_plane(&frame), [255, 0, 255, 255]);
}

#[test]
fn decodes_gray2_lsb_partial_byte() {
    let format = BitPackedGrayFormat::new(2, BitOrder::LsbFirst).unwrap();
    let frame = decode_bit_packed_gray(&[0b0011_1001], 3, 1, format, None).unwrap();
    assert_eq!(decoded_plane(&frame), [85, 170, 255]);
}

#[test]
fn decodes_gray2_msb_partial_byte() {
    let format = BitPackedGrayFormat::new(2, BitOrder::MsbFirst).unwrap();
    let frame = decode_bit_packed_gray(&[0b0110_1100], 3, 1, format, None).unwrap();
    assert_eq!(decoded_plane(&frame), [85, 170, 255]);
}

#[test]
fn decodes_gray4_lsb_with_row_stride() {
    let format = BitPackedGrayFormat::new(4, BitOrder::LsbFirst).unwrap();
    let frame = decode_bit_packed_gray(&[0x21, 0xff, 0x43, 0xee], 2, 2, format, Some(2)).unwrap();
    assert_eq!(decoded_plane(&frame), [17, 34, 51, 68]);
}

#[test]
fn decodes_gray4_msb_with_row_stride() {
    let format = BitPackedGrayFormat::new(4, BitOrder::MsbFirst).unwrap();
    let frame = decode_bit_packed_gray(&[0x12, 0xff, 0x34, 0xee], 2, 2, format, Some(2)).unwrap();
    assert_eq!(decoded_plane(&frame), [17, 34, 51, 68]);
}

#[test]
fn gray_depths_other_than_one_two_four_are_refused() {
    for bits in [0, 3, 8] {
        let error = BitPackedGrayFormat::new(bits, BitOrder::LsbFirst).unwrap_err();
        assert!(matches!(error, Error::UnsupportedInput(_)));
    }
    let format = BitPackedGrayFormat::new(4, BitOrder::MsbFirst).unwrap();
    assert!(decode_bit_packed_gray(&[0x12], 2, 2, format, None).is_err());
    assert!(decode_bit_packed_gray(&[0x12], 4, 1, format, Some(1)).is_err());
    assert!(decode_bit_packed_gray(&[0x12], 0, 1, format, None).is_err());
}

#[test]
fn packed_views_keep_their_format() {
    let data = [0u8; 8];
    assert_eq!(
        rgb8_view(&data, 2, 1, 6).unwrap().pixel_format(),
        PixelFormat::Rgb8
    );
    assert_eq!(
        bgr8_view(&data, 2, 1, 6).unwrap().pixel_format(),
        PixelFormat::Bgr8
    );
    assert_eq!(
        rgba8_view(&data, 2, 1, 8).unwrap().pixel_format(),
        PixelFormat::Rgba8
    );
    assert_eq!(
        bgra8_view(&data, 2, 1, 8).unwrap().pixel_format(),
        PixelFormat::Bgra8
    );
    assert!(rgba8_view(&data, 3, 1, 12).is_err());
}

#[test]
fn planar_views_keep_their_planes() {
    let y = [1u8; 4];
    let c = [2u8; 1];
    let frame = yuv420p8_view(2, 2, &y, 2, &c, 1, &c, 1).unwrap();
    assert_eq!(frame.planes().len(), 3);
    let uv = [3u8; 2];
    let frame = nv12_view(2, 2, &y, 2, &uv, 2).unwrap();
    assert_eq!(frame.plane(1).unwrap().data, [3, 3]);
    assert!(nv12_view(2, 2, &y, 2, &c, 1).is_err());
}

#[test]
fn dynamic_images_become_rgba8() {
    let gray = image::GrayImage::from_raw(2, 1, vec![7, 200]).unwrap();
    let dynamic = image::DynamicImage::ImageLuma8(gray);
    assert!(is_convertible(&dynamic));
    let frame = from_dynamic_image_rgba8(&dynamic).unwrap();
    assert_eq!(frame.dimensions().width, 2);
    assert_eq!(decoded_plane(&frame), [7, 7, 7, 255, 200, 200, 200, 255]);
    assert_eq!(
        decoded_plane(&frame_of_decoded(&dynamic).unwrap()),
        decoded_plane(&frame)
    );
}

#[test]
fn empty_dynamic_images_are_invalid() {
    let dynamic = image::DynamicImage::new_rgba8(0, 0);
    let error = frame_of_decoded(&dynamic).unwrap_err();
    assert!(matches!(error, Error::InvalidFrame(_)));
}

#[test]
fn encoded_bytes_decode_to_rgba8() {
    let rgb = image::RgbImage::from_pixel(3, 2, image::Rgb([11, 22, 33]));
    let mut bytes = std::io::Cursor::new(Vec::new());
    image::DynamicImage::ImageRgb8(rgb)
        .write_to(&mut bytes, image::ImageFormat::Png)
        .unwrap();
    let frame = decode_image_bytes(bytes.get_ref()).unwrap();
    assert_eq!(frame.dimensions().width, 3);
    assert_eq!(frame.dimensions().height, 2);
    assert_eq!(decoded_plane(&frame)[..8], [11, 22, 33, 255, 11, 22, 33, 255]);
    let error = decode_image_bytes(b"no image").unwrap_err();
    assert!(matches!(error, Error::Image(_)));
}

#[test]
fn files_are_decoded_by_content_or_by_extension() {
    let image = image::DynamicImage::ImageRgba8(image::RgbaImage::from_pixel(
        2,
        1,
        image::Rgba([11, 22, 33, 44]),
    ));
    let pixels = [11, 22, 33, 44, 11, 22, 33, 44];
    let encoded = |format: image::ImageFormat| {
        let mut bytes = std::io::Cursor::new(Vec::new());
        image.write_to(&mut bytes, format).unwrap();
        bytes.into_inner()
    };
    let png = encoded(image::ImageFormat::Png);
    for extension in ["png", "PNG", "tga", "xyz", ""] {
        let frame = decode_image_file(&png, extension).unwrap();
        assert_eq!(decoded_plane(&frame), pixels);
    }
    let tga = encoded(image::ImageFormat::Tga);
    for extension in ["tga", "TGA"] {
        let frame = decode_image_file(&tga, extension).unwrap();
        assert_eq!((frame.dimensions().width, frame.dimensions().height), (2, 1));
        assert_eq!(decoded_plane(&frame), pixels);
    }
    for extension in ["png", "xyz", ""] {
        let error = decode_image_file(&tga, extension).unwrap_err();
        assert!(matches!(error, Error::Image(_)));
    }
    assert!(decode_image_bytes(&tga).is_err());
}

#[test]
fn raw_samples_become_frames() {
    let frame = from_rgba_image(1, 1, vec![1, 2, 3, 4]).unwrap();
    assert_eq!(frame.format().pixel_format, PixelFormat::Rgba8);
    let frame = from_rgb_image(1, 1, vec![1, 2, 3]).unwrap();
    assert_eq!(frame.format().pixel_format, PixelFormat::Rgb8);
    assert!(from_rgb_image(1, 1, vec![1, 2]).is_err());
    assert_eq!(enabled_format_hint().len(), 15);
    assert_eq!(enabled_format_hint()[9], "PNG");
}
