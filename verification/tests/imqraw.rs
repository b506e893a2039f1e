use imq::frame::{ColorRange, ColorSpace, Dimensions, FormatSpec, FrameOwned, OwnedPlane};
use imq::frame::{PixelFormat, Transfer};
use imq::imqraw::{
    color_range_code, color_space_code, decode_bundle, encode_bundle, pixel_format_code,
    pixel_format_from_code, record_from_dynamic_image, record_from_rgb_image,
    record_from_rgba_image, transfer_code, RawImageBundle, RawImageRecord, RawImageSelector,
};
use imq::Error;

fn tiny_record(label: &str, tag: &str, pixel: [u8; 4]) -> RawImageRecord {
    RawImageRecord::new(
        Some(label.to_string()),
        vec![tag.to_string()],
        FrameOwned::packed_tight(pixel.to_vec(), 1, 1, PixelFormat::Rgba8).unwrap(),
    )
}

#[test]
fn roundtrips_single_rgba_record() {
    let bundle = RawImageBundle::new(vec![tiny_record("ref", "reference", [1, 2, 3, 255])]);
    let decoded = decode_bundle(&encode_bundle(&bundle).unwrap()).unwrap();

    assert_eq!(decoded.records.len(), 1);
    assert_eq!(decoded.records[0].label.as_deref(), Some("ref"));
    assert_eq!(decoded.records[0].tags, ["reference"]);
    assert_eq!(
        decoded.records[0].frame.owned_planes()[0].data,
        [1, 2, 3, 255]
    );
}

#[test]
fn roundtrips_multiple_records_and_tag_selection() {
    let bundle = RawImageBundle::new(vec![
        tiny_record("ref", "reference", [0, 0, 0, 255]),
        tiny_record("dist", "candidate", [255, 0, 0, 255]),
    ]);
    let decoded = decode_bundle(&encode_bundle(&bundle).unwrap()).unwrap();

    assert_eq!(
        decoded.select_index(1).unwrap().label.as_deref(),
        Some("dist")
    );
    assert_eq!(
        decoded
            .select_tag("candidate")
            .unwrap()
            .frame
            .owned_planes()[0]
            .data,
        [255, 0, 0, 255]
    );
}

#[test]
fn rejects_bad_magic() {
    let error = decode_bundle(b"not imqraw").unwrap_err();
    assert!(error.message().contains("not an imqraw"));
}

#[test]
fn writes_the_documented_layout() {
    let bundle = RawImageBundle::new(vec![tiny_record("r", "t", [1, 2, 3, 4])]);
    let bytes = encode_bundle(&bundle).unwrap();
    let mut expected = b"IMQRAW1\n".to_vec();
    expected.extend_from_slice(&1u32.to_le_bytes());
    // Size, then the codes of format, space, transfer and range.
    expected.extend_from_slice(&1u32.to_le_bytes());
    expected.extend_from_slice(&1u32.to_le_bytes());
    expected.extend_from_slice(&3u16.to_le_bytes());
    for code in [
        color_space_code(ColorSpace::Srgb),
        transfer_code(Transfer::Srgb),
        color_range_code(ColorRange::Full),
    ] {
        expected.extend_from_slice(&code.to_le_bytes());
    }
    assert_eq!(bytes[..expected.len()], expected[..]);
    assert_eq!(bytes[bytes.len() - 4..], [1, 2, 3, 4]);
}

#[test]
fn keeps_missing_labels_apart_from_empty_ones() {
    let frame = FrameOwned::packed_tight(vec![7], 1, 1, PixelFormat::Luma8).unwrap();
    for label in [None, Some(String::new()), Some("snow \u{2603}".to_string())] {
        let record = RawImageRecord::new(label.clone(), vec![], frame.clone());
        let bytes = encode_bundle(&RawImageBundle::new(vec![record])).unwrap();
        assert_eq!(decode_bundle(&bytes).unwrap().records[0].label, label);
    }
}

#[test]
fn encoding_undoes_decoding() {
    let padded =
        FrameOwned::packed(vec![1, 2, 9, 3, 4, 9], 2, 2, PixelFormat::Luma8, 3).unwrap();
    let planar = FrameOwned::new(
        Dimensions::new(2, 2).unwrap(),
        FormatSpec::with_metadata(
            PixelFormat::Nv12,
            ColorSpace::Bt709,
            Transfer::Bt1886,
            ColorRange::Limited,
        ),
        vec![
            OwnedPlane::new(vec![1, 2, 3, 4], 2),
            OwnedPlane::new(vec![5, 6], 2),
        ],
    )
    .unwrap();
    let bundle = RawImageBundle::new(vec![
        RawImageRecord::new(None, vec!["a".to_string(), "b".to_string()], padded),
        RawImageRecord::new(Some("yuv".to_string()), vec![], planar),
    ]);
    let bytes = encode_bundle(&bundle).unwrap();
    let decoded = decode_bundle(&bytes).unwrap();
    assert_eq!(decoded.records[0].frame.owned_planes()[0].stride, 3);
    assert_eq!(decoded.records[1].frame.format().range, ColorRange::Limited);
    assert_eq!(encode_bundle(&decoded).unwrap(), bytes);
}

#[test]
fn every_truncation_is_refused() {
    let bundle = RawImageBundle::new(vec![tiny_record("ref", "reference", [1, 2, 3, 4])]);
    let bytes = encode_bundle(&bundle).unwrap();
    for end in 0..bytes.len() {
        let error = decode_bundle(&bytes[..end]).unwrap_err();
        assert!(
            matches!(&error, Error::UnsupportedInput(text) if text == "truncated imqraw bundle")
        );
    }
    for extra in [&[0u8][..], &bytes] {
        let mut longer = bytes.clone();
        longer.extend_from_slice(extra);
        let error = decode_bundle(&longer).unwrap_err();
        assert!(matches!(
            &error,
            Error::UnsupportedInput(text) if text == "imqraw bundle has trailing bytes"
        ));
    }
}

#[test]
fn hsv_and_mask_frames_are_stored() {
    for format in [
        PixelFormat::Hsv8,
        PixelFormat::Hsva8,
        PixelFormat::Binary1Lsb,
        PixelFormat::Binary1Msb,
    ] {
        let frame = FrameOwned::new(
            Dimensions::new(1, 1).unwrap(),
            FormatSpec::new(format),
            vec![OwnedPlane::new(vec![1, 2, 3, 4], 4)],
        )
        .unwrap();
        let bundle = RawImageBundle::new(vec![RawImageRecord::new(None, vec![], frame)]);
        let decoded = decode_bundle(&encode_bundle(&bundle).unwrap()).unwrap();
        assert_eq!(decoded.records[0].frame.format(), FormatSpec::new(format));
        assert_eq!(decoded.records[0].frame.owned_planes()[0].data, [1, 2, 3, 4]);
    }
}

#[test]
fn labels_must_be_utf8() {
    let bundle = RawImageBundle::new(vec![tiny_record("ref", "reference", [1, 2, 3, 4])]);
    let mut bytes = encode_bundle(&bundle).unwrap();
    let at = bytes.windows(3).position(|window| window == b"ref").unwrap();
    bytes[at] = 0xff;
    assert!(decode_bundle(&bytes).is_err());
}

#[test]
fn unknown_codes_are_refused() {
    let bundle = RawImageBundle::new(vec![tiny_record("ref", "reference", [1, 2, 3, 4])]);
    let bytes = encode_bundle(&bundle).unwrap();
    for at in [20, 22, 24, 26] {
        let mut broken = bytes.clone();
        broken[at] = 200;
        let message = decode_bundle(&broken).unwrap_err().message();
        assert!(message.contains("200"), "{message}");
    }
    assert!(pixel_format_from_code(0).is_err());
    assert!(pixel_format_from_code(999).is_err());
}

#[test]
fn format_codes_are_inverse() {
    for code in 1..=18u16 {
        let format = pixel_format_from_code(code).unwrap();
        assert_eq!(pixel_format_code(format), code);
    }
    assert_eq!(pixel_format_code(PixelFormat::Rgba8), 3);
    assert_eq!(pixel_format_code(PixelFormat::Binary1Lsb), 17);
}

#[test]
fn selection_reports_what_is_missing() {
    let bundle = RawImageBundle::new(vec![tiny_record("ref", "reference", [0; 4])]);
    assert!(bundle.select_index(1).is_err());
    assert!(bundle.select_tag("nothing").is_err());
    assert!(bundle.records[0].has_tag("reference"));
    let chosen = bundle.select(&RawImageSelector::Tag("reference".to_string()));
    assert_eq!(chosen.unwrap().label.as_deref(), Some("ref"));
    assert!(bundle.select(&RawImageSelector::Index(3)).is_err());
}

#[test]
fn records_come_from_decoded_images() {
    let mut rgb = image::RgbImage::new(2, 1);
    rgb.put_pixel(0, 0, image::Rgb([10, 20, 30]));
    rgb.put_pixel(1, 0, image::Rgb([40, 50, 60]));
    let dynamic = image::DynamicImage::ImageRgb8(rgb.clone());
    let record = record_from_dynamic_image(None, vec![], &dynamic).unwrap();
    assert_eq!(record.frame.format().pixel_format, PixelFormat::Rgba8);
    assert_eq!(
        record.frame.owned_planes()[0].data,
        [10, 20, 30, 255, 40, 50, 60, 255]
    );
    let record = record_from_rgb_image(None, vec![], 2, 1, rgb.into_raw()).unwrap();
    assert_eq!(record.frame.format().pixel_format, PixelFormat::Rgb8);
    let record = record_from_rgba_image(None, vec![], 1, 1, vec![1, 2, 3, 4]).unwrap();
    assert_eq!(record.frame.owned_planes()[0].data, [1, 2, 3, 4]);
}
