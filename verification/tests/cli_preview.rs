use imq::cli::montage::{
    can_montage, diff_preview, montage_previews, preview_samples, sample_preview_pixel_scaled,
    PreviewImage,
};
use imq::cli::pack::{
    bundle_info_csv_header, bundle_info_csv_rows, pack_labels, pack_records, parse_pack_tags,
    render_bundle_info_text, BundleInfoReport,
};
use imq::cli::preview::{
    check_preview_inputs, default_preview_size, native_pixels, parse_preview_size, preview_layout,
    preview_source, requested_size, PreviewDisplayArg, PreviewSize, PreviewSource,
};
use imq::cli::remote::{InputSpec, SshInput};
use imq::{FrameOwned, PixelFormat};

fn preview(width: u32, height: u32, value: u8) -> PreviewImage {
    PreviewImage {
        width,
        height,
        source_width: width,
        source_height: height,
        pixels: vec![[value, value, value]; (width * height) as usize],
        source: "file".to_string(),
    }
}

fn strings(values: &[&str]) -> Vec<String> {
    values.iter().map(|value| value.to_string()).collect()
}

#[test]
fn preview_sizes_are_parsed() {
    assert_eq!(
        parse_preview_size("120x60").unwrap(),
        PreviewSize { width: 120, height: 60 }
    );
    assert_eq!(
        parse_preview_size("120").unwrap_err(),
        "expected WIDTHxHEIGHT, for example 120x60"
    );
    assert_eq!(
        parse_preview_size("ax60").unwrap_err(),
        "width must be a positive integer"
    );
    assert_eq!(
        parse_preview_size("5x-1").unwrap_err(),
        "height must be a positive integer"
    );
    assert_eq!(
        parse_preview_size("0x60").unwrap_err(),
        "width and height must be non-zero"
    );
}

#[test]
fn layouts_hold_every_preview() {
    assert_eq!(preview_layout(0, None, None), (1, 1));
    assert_eq!(preview_layout(5, None, None), (3, 2));
    assert_eq!(preview_layout(9, None, None), (3, 3));
    assert_eq!(preview_layout(5, Some(1), None), (5, 1));
    assert_eq!(preview_layout(5, None, Some(2)), (2, 3));
    assert_eq!(preview_layout(5, Some(1), Some(2)), (2, 3));
    for count in 1..200usize {
        let (columns, rows) = preview_layout(count, None, None);
        let expected = (count as f64).sqrt().ceil() as usize;
        assert_eq!(columns, expected);
        assert!(columns * rows >= count);
    }
}

#[test]
fn cells_share_the_terminal() {
    assert_eq!(
        default_preview_size(1, 1, false, 80, 24),
        PreviewSize { width: 80, height: 48 }
    );
    assert_eq!(
        default_preview_size(2, 1, true, 82, 20),
        PreviewSize { width: 400, height: 400 }
    );
    assert_eq!(
        default_preview_size(9, 9, false, 10, 10),
        PreviewSize { width: 16, height: 16 }
    );
    assert_eq!(
        default_preview_size(0, 0, false, 200, 100),
        PreviewSize { width: 80, height: 48 }
    );
    assert_eq!(
        default_preview_size(usize::MAX, usize::MAX, true, u32::MAX, u32::MAX),
        PreviewSize { width: 160, height: 160 }
    );
    assert_eq!(
        default_preview_size(1, 1, true, u32::MAX, u32::MAX),
        PreviewSize { width: u32::MAX, height: u32::MAX }
    );
    let default_size = PreviewSize { width: 7, height: 5 };
    assert_eq!(
        requested_size(false, None, Some(9), None, default_size),
        PreviewSize { width: 9, height: 5 }
    );
    assert_eq!(requested_size(true, None, None, None, default_size).width, u32::MAX);
    assert!(native_pixels(PreviewDisplayArg::Auto, true));
    assert!(!native_pixels(PreviewDisplayArg::Ansi, true));
}

#[test]
fn preview_sources_follow_the_input() {
    let local = InputSpec::Local("a.png".to_string());
    assert!(matches!(preview_source(&local, false, None), Ok(PreviewSource::LocalFile)));
    let remote = InputSpec::Ssh(SshInput {
        user: None,
        host: "h".to_string(),
        port: None,
        path: "/v.mkv".to_string(),
    });
    assert!(matches!(
        preview_source(&remote, true, Some(3)),
        Ok(PreviewSource::RemoteFrame(3))
    ));
    assert!(matches!(
        preview_source(&remote, false, None),
        Ok(PreviewSource::RemoteImage)
    ));
    assert!(check_preview_inputs(0).is_err());
    assert!(check_preview_inputs(1).is_ok());
}

#[test]
fn montages_show_every_pixel() {
    let previews = vec![preview(2, 1, 10), preview(1, 2, 20), preview(2, 2, 30)];
    assert!(can_montage(&previews, 2, 2));
    let image = montage_previews(&previews, None, Some(2));
    assert_eq!((image.width, image.height), (6, 6));
    assert_eq!(image.source, "montage");
    assert_eq!(image.pixel(0, 0), [10; 3]);
    assert_eq!(image.pixel(1, 0), [10; 3]);
    assert_eq!(image.pixel(0, 1), [0; 3]);
    assert_eq!(image.pixel(4, 1), [20; 3]);
    assert_eq!(image.pixel(5, 0), [0; 3]);
    assert_eq!(image.pixel(1, 5), [30; 3]);
    assert_eq!(image.pixel(4, 4), [0; 3]);
    assert_eq!(preview_samples(&previews[1]), [20; 6]);
}

#[test]
fn differences_are_tripled() {
    let reference = preview(2, 2, 100);
    let target = preview(2, 1, 90);
    let diff = diff_preview(&reference, &target).unwrap();
    assert_eq!((diff.width, diff.height), (2, 1));
    assert_eq!(diff.pixels, [[30; 3], [30; 3]]);
    let far = preview(1, 1, 0);
    assert_eq!(diff_preview(&reference, &far).unwrap().pixels, [[255; 3]]);
    assert!(diff_preview(&reference, &preview(0, 0, 0)).is_none());
}

#[test]
fn sampling_scales_down() {
    let mut image = preview(4, 1, 0);
    image.pixels = vec![[1; 3], [2; 3], [3; 3], [4; 3]];
    assert_eq!(sample_preview_pixel_scaled(&image, 1, 0, 2, 1, false), [3; 3]);
    assert_eq!(sample_preview_pixel_scaled(&image, 1, 0, 2, 1, true), [2; 3]);
}

#[test]
fn packed_inputs_are_labelled_and_tagged() {
    let inputs = strings(&["a.png", "b.png"]);
    assert_eq!(pack_labels(&inputs, &vec![]).unwrap(), inputs);
    assert_eq!(pack_labels(&inputs, &strings(&["x", "y"])).unwrap(), ["x", "y"]);
    assert_eq!(
        pack_labels(&inputs, &strings(&["x"])).unwrap_err(),
        "--label must be passed once per input when used; got 1 label(s) for 2 input(s)"
    );
    let tags = parse_pack_tags(2, &strings(&["set", "ALL:every", "2:last"])).unwrap();
    assert_eq!(tags[0], ["set", "every"]);
    assert_eq!(tags[1], ["set", "every", "last"]);
    assert_eq!(
        parse_pack_tags(2, &strings(&["3:x"])).unwrap_err(),
        "tag target `3` is out of range; use 1..=2"
    );
    assert_eq!(
        parse_pack_tags(2, &strings(&["x:y"])).unwrap_err(),
        "invalid tag target `x` in `x:y`"
    );
    assert!(parse_pack_tags(2, &strings(&["0:x"])).is_err());
}

#[test]
fn bundles_describe_their_images() {
    let frame = FrameOwned::packed_tight(vec![0; 8], 2, 1, PixelFormat::Rgba8).unwrap();
    let bundle = pack_records(
        vec![frame],
        strings(&["ref"]),
        vec![strings(&["reference", "first"])],
    );
    let report = BundleInfoReport::from_bundle("bundle.imqraw".to_string(), &bundle);
    assert_eq!(
        render_bundle_info_text(&report),
        "bundle : bundle.imqraw\nimages : 1\n[0] ref 2x1 Rgba8 planes=1 bytes=8\n    tags: reference,first\n"
    );
    let rows = bundle_info_csv_rows(&report);
    assert_eq!(rows.len(), 1);
    assert_eq!(rows[0].len(), bundle_info_csv_header().len());
}
