use imq::capi::{
    imqraw_bundle_decode, imqraw_bundle_image_count, imqraw_bundle_image_info,
    imqraw_bundle_image_label, imqraw_bundle_image_plane, imqraw_bundle_image_tag,
    imqraw_bundle_image_tag_count, imqraw_encode_bundle, imqraw_encode_image, imqraw_encode_luma8,
    imqraw_encode_rgba8, status_of, CApiError, ImqrawByteView, ImqrawEncodeImage,
    ImqrawEncodePlane, ImqrawStatusCode, ImqrawStringView, STATUS_MESSAGE_CAP,
};
use imq::{ColorRange, ColorSpace, FormatSpec, PixelFormat, Transfer};

fn str_view(value: &str) -> ImqrawStringView<'_> {
    ImqrawStringView {
        bytes: Some(value.as_bytes()),
        len: value.len(),
    }
}

fn byte_view(value: &[u8]) -> ImqrawByteView<'_> {
    ImqrawByteView {
        bytes: Some(value),
        len: value.len(),
    }
}

fn packed_image<'a>(format: u16, data: &'a [u8], label: &'a str) -> ImqrawEncodeImage<'a> {
    ImqrawEncodeImage {
        width: 2,
        height: 1,
        pixel_format: format,
        color_space: 0,
        transfer: 0,
        range: 0,
        data: byte_view(data),
        planes: None,
        plane_count: 0,
        label: str_view(label),
        tags: None,
        tag_count: 0,
    }
}

#[test]
fn encodes_and_decodes_rgba8_bundle() {
    let pixels = [0, 0, 0, 255, 255, 255, 255, 255];
    let tags = [str_view("reference")];
    let image = ImqrawEncodeImage {
        tags: Some(&tags),
        tag_count: tags.len(),
        ..packed_image(3, &pixels, "ref")
    };

    let encoded = imqraw_encode_rgba8(Some(&[image]), false).unwrap();
    assert_eq!(status_of(&Ok(())).code, ImqrawStatusCode::Success.as_i32());
    assert!(!encoded.bytes.is_empty());

    let bundle = imqraw_bundle_decode(byte_view(&encoded.bytes), false).unwrap();
    assert_eq!(imqraw_bundle_image_count(Some(&bundle), false).unwrap(), 1);

    let info = imqraw_bundle_image_info(Some(&bundle), 0, false).unwrap();
    assert_eq!(info.width, 2);
    assert_eq!(info.height, 1);
    assert_eq!(info.pixel_format, 3);
    assert_eq!(info.plane_count, 1);

    let plane = imqraw_bundle_image_plane(Some(&bundle), 0, 0, false).unwrap();
    assert_eq!(plane.data.len(), pixels.len());
    assert_eq!(plane.data, pixels);
    assert_eq!(plane.stride, 8);

    let label = imqraw_bundle_image_label(Some(&bundle), 0, false).unwrap();
    assert_eq!(label.bytes, Some("ref".as_bytes()));
    assert_eq!(
        imqraw_bundle_image_tag_count(Some(&bundle), 0, false).unwrap(),
        1
    );
    let tag = imqraw_bundle_image_tag(Some(&bundle), 0, 0, false).unwrap();
    assert_eq!(tag.bytes, Some("reference".as_bytes()));
}

#[test]
fn encodes_multiple_images_with_generic_api() {
    let rgba = [0, 0, 0, 255, 255, 255, 255, 255];
    let luma = [10, 20];
    let images = [
        packed_image(3, &rgba, "rgba"),
        packed_image(1, &luma, "luma"),
    ];

    let encoded = imqraw_encode_bundle(Some(&images), images.len(), false).unwrap();
    let bundle = imqraw_bundle_decode(byte_view(&encoded.bytes), false).unwrap();
    assert_eq!(imqraw_bundle_image_count(Some(&bundle), false).unwrap(), 2);
}

#[test]
fn explicit_planes_are_kept() {
    let luma = [1u8, 2, 9, 3, 4, 9];
    let planes = [ImqrawEncodePlane {
        data: byte_view(&luma),
        stride: 3,
    }];
    let image = ImqrawEncodeImage {
        height: 2,
        planes: Some(&planes),
        plane_count: 1,
        data: ImqrawByteView { bytes: None, len: 0 },
        ..packed_image(1, &[], "padded")
    };
    let encoded = imqraw_encode_image(Some(&[image]), false).unwrap();
    let bundle = imqraw_bundle_decode(byte_view(&encoded.bytes), false).unwrap();
    let plane = imqraw_bundle_image_plane(Some(&bundle), 0, 0, false).unwrap();
    assert_eq!(plane.stride, 3);
    assert_eq!(plane.data, luma);
}

#[test]
fn metadata_codes_of_tight_pixels_are_kept() {
    let pixels = [1u8, 2, 3, 255];
    let image = ImqrawEncodeImage {
        width: 1,
        color_space: 5,
        transfer: 5,
        range: 2,
        ..packed_image(3, &pixels, "hdr")
    };
    for encoded in [
        imqraw_encode_image(Some(&[image]), false).unwrap(),
        imqraw_encode_rgba8(Some(&[image]), false).unwrap(),
    ] {
        let bundle = imqraw_bundle_decode(byte_view(&encoded.bytes), false).unwrap();
        let info = imqraw_bundle_image_info(Some(&bundle), 0, false).unwrap();
        assert_eq!((info.color_space, info.transfer, info.range), (5, 5, 2));
        let plane = imqraw_bundle_image_plane(Some(&bundle), 0, 0, false).unwrap();
        assert_eq!((plane.data, plane.stride), (&pixels[..], 4));
        let decoded = imq::decode_imqraw_bundle(&encoded.bytes).unwrap();
        assert_eq!(
            decoded.records[0].frame.format(),
            FormatSpec::with_metadata(
                PixelFormat::Rgba8,
                ColorSpace::Bt2020,
                Transfer::Pq,
                ColorRange::Limited,
            )
        );
    }
    let image = ImqrawEncodeImage {
        width: 1,
        range: 2,
        ..packed_image(3, &pixels, "sdr")
    };
    let encoded = imqraw_encode_image(Some(&[image]), false).unwrap();
    let decoded = imq::decode_imqraw_bundle(&encoded.bytes).unwrap();
    let default = FormatSpec::new(PixelFormat::Rgba8);
    let format = decoded.records[0].frame.format();
    assert_eq!(format.color_space, default.color_space);
    assert_eq!(format.transfer, default.transfer);
    assert_eq!(format.range, ColorRange::Limited);
}

#[test]
fn tight_pixels_are_checked() {
    let message = |image| imqraw_encode_image(Some(&[image]), false).unwrap_err().message;
    let pixels = [0u8; 8];
    let planar = packed_image(12, &pixels, "planar");
    assert!(message(planar).contains("packed_tight requires a packed pixel format"));
    let flat = ImqrawEncodeImage {
        height: 0,
        ..packed_image(3, &pixels, "flat")
    };
    assert!(!message(flat).is_empty());
    assert!(message(packed_image(3, &pixels[..7], "short"))
        .contains("plane 0 data length 7 is smaller than required 8"));
}

#[test]
fn null_pointers_are_reported() {
    let error = imqraw_encode_rgba8(None, false).unwrap_err();
    assert_eq!(error.code, ImqrawStatusCode::NullPointer);
    let pixels = [0u8; 8];
    let image = packed_image(3, &pixels, "x");
    let error = imqraw_encode_rgba8(Some(&[image]), true).unwrap_err();
    assert_eq!(error.code, ImqrawStatusCode::NullPointer);
    let error = imqraw_bundle_image_count(None, false).unwrap_err();
    assert_eq!(error.code, ImqrawStatusCode::NullPointer);
    let missing = ImqrawByteView { bytes: None, len: 4 };
    let error = imqraw_bundle_decode(missing, false).unwrap_err();
    assert_eq!(error.code, ImqrawStatusCode::NullPointer);
}

#[test]
fn bad_arguments_are_reported() {
    let short = [1u8; 3];
    let error = imqraw_encode_luma8(Some(&[packed_image(1, &short[..1], "x")]), false).unwrap_err();
    assert_eq!(error.code, ImqrawStatusCode::EncodeError);
    let error = imqraw_encode_image(Some(&[packed_image(77, &short, "x")]), false).unwrap_err();
    assert_eq!(error.code, ImqrawStatusCode::InvalidArgument);
    let bad_label = ImqrawEncodeImage {
        label: ImqrawStringView {
            bytes: Some(&[0xff, 0xfe]),
            len: 2,
        },
        ..packed_image(1, &short[..2], "x")
    };
    let error = imqraw_encode_image(Some(&[bad_label]), false).unwrap_err();
    assert_eq!(error.code, ImqrawStatusCode::InvalidArgument);
    let error = imqraw_bundle_decode(byte_view(b"not imqraw"), false).unwrap_err();
    assert_eq!(error.code, ImqrawStatusCode::DecodeError);
    assert!(error.message.contains("not an imqraw"));
}

#[test]
fn indices_out_of_range_are_reported() {
    let luma = [10u8, 20];
    let encoded = imqraw_encode_luma8(Some(&[packed_image(1, &luma, "l")]), false).unwrap();
    let bundle = imqraw_bundle_decode(byte_view(&encoded.bytes), false).unwrap();
    for error in [
        imqraw_bundle_image_info(Some(&bundle), 1, false).unwrap_err(),
        imqraw_bundle_image_plane(Some(&bundle), 0, 1, false).unwrap_err(),
        imqraw_bundle_image_tag(Some(&bundle), 0, 0, false).unwrap_err(),
    ] {
        assert_eq!(error.code, ImqrawStatusCode::InvalidArgument);
    }
}

#[test]
fn status_messages_are_cut_and_terminated() {
    let long = CApiError::new(ImqrawStatusCode::DecodeError, "x".repeat(400));
    let status = status_of(&Err(long));
    assert_eq!(status.code, ImqrawStatusCode::DecodeError.as_i32());
    assert_eq!(status.message.len(), STATUS_MESSAGE_CAP);
    assert_eq!(status.message[STATUS_MESSAGE_CAP - 2], b'x');
    assert_eq!(status.message[STATUS_MESSAGE_CAP - 1], 0);
    let short = CApiError::new(ImqrawStatusCode::NullPointer, "no".to_string());
    let status = status_of(&Err(short));
    assert_eq!(status.code, 1);
    assert_eq!(status.message[..3], [b'n', b'o', 0]);
    assert_eq!(ImqrawStatusCode::EncodeError.as_i32(), 4);
}

#[test]
fn status_messages_are_cut_between_characters() {
    let status = |text: String| status_of(&Err(CApiError::new(ImqrawStatusCode::DecodeError, text)));
    let text = |message: &[u8]| {
        let end = message.iter().position(|&byte| byte == 0).unwrap();
        assert!(message[end..].iter().all(|&byte| byte == 0));
        String::from_utf8(message[..end].to_vec()).unwrap()
    };
    let ascii = "a".repeat(254);
    let cut = status(format!("{ascii}\u{e9}"));
    assert_eq!(cut.message.len(), STATUS_MESSAGE_CAP);
    assert_eq!(text(&cut.message), ascii);
    let whole = format!("{}\u{e9}", "a".repeat(253));
    assert_eq!(text(&status(whole.clone()).message), whole);
    let wide = "\u{1f600}".repeat(64);
    assert_eq!(text(&status(wide.clone()).message), wide[..252]);
}
