use imq::web::{
    decode_imqraw_image, decode_imqraw_images, encode_imqraw_image, encode_imqraw_rgba8,
    encode_imqraw_rgba8_bundle, imqraw_find_tag, imqraw_image_count, WebImage,
};

fn image(value: u8, label: &str, tags: &[&str]) -> WebImage {
    WebImage {
        data: vec![value; 4],
        width: 1,
        height: 1,
        label: label.to_string(),
        tags: tags.iter().map(|tag| tag.to_string()).collect(),
    }
}

#[test]
fn rgba_images_come_back() {
    let bytes = encode_imqraw_rgba8(
        vec![1, 2, 3, 4],
        1,
        1,
        "ref".to_string(),
        vec!["reference".to_string()],
    )
    .unwrap();
    assert_eq!(imqraw_image_count(&bytes).unwrap(), 1);
    let record = decode_imqraw_image(&bytes, 0).unwrap();
    assert_eq!(record.index, 0);
    assert_eq!((record.width, record.height), (1, 1));
    assert_eq!(record.pixel_format, 3);
    assert_eq!(record.label.as_deref(), Some("ref"));
    assert_eq!(record.tags, ["reference"]);
    assert_eq!(record.planes[0].data, [1, 2, 3, 4]);
    assert!(record.has_single_plane());
}

#[test]
fn an_empty_label_is_no_label() {
    let bytes = encode_imqraw_rgba8(vec![0; 4], 1, 1, String::new(), vec![]).unwrap();
    assert_eq!(decode_imqraw_image(&bytes, 0).unwrap().label, None);
}

#[test]
fn bundles_find_tags() {
    let images = vec![image(1, "a", &["first"]), image(2, "b", &["second", "last"])];
    let bytes = encode_imqraw_rgba8_bundle(&images).unwrap();
    assert_eq!(imqraw_image_count(&bytes).unwrap(), 2);
    assert_eq!(imqraw_find_tag(&bytes, "last").unwrap(), 1);
    assert!(imqraw_find_tag(&bytes, "none").is_err());
    let records = decode_imqraw_images(&bytes).unwrap();
    assert_eq!(records.len(), 2);
    assert_eq!(records[1].index, 1);
    assert_eq!(records[1].planes[0].data, [2; 4]);
    assert!(decode_imqraw_image(&bytes, 2).is_err());
}

#[test]
fn any_format_code_can_be_written() {
    let bytes = encode_imqraw_image(
        vec![1, 2, 0, 3, 4],
        2,
        2,
        1,
        3,
        "gray".to_string(),
        vec![],
    )
    .unwrap();
    let record = decode_imqraw_image(&bytes, 0).unwrap();
    assert_eq!(record.pixel_format, 1);
    assert_eq!(record.planes[0].stride, 3);
    let mask = encode_imqraw_image(vec![0b101], 3, 1, 17, 0, String::new(), vec![]).unwrap();
    assert_eq!(decode_imqraw_image(&mask, 0).unwrap().planes[0].stride, 1);
    assert!(encode_imqraw_image(vec![0; 4], 1, 1, 99, 0, String::new(), vec![]).is_err());
    assert!(encode_imqraw_rgba8(vec![0; 3], 1, 1, String::new(), vec![]).is_err());
    assert!(imqraw_image_count(b"junk").is_err());
}
