use imq::cli::compare::{
    check_single_input, output_format, pair_source, plan_compare, ComparePlan, CompareRequest,
    OutputFormatArg, PairSource,
};
use imq::cli::stdin::{
    decode_raw_stdin_frame, decode_stdin_image, imqraw_comparison_input, imqraw_record_label,
    load_imqraw_image_pair, loaded_imqraw_image, pair_stdin_selectors, pick,
    single_stdin_selector, LoadedImage, RawPixelFormatArg, StdinImageArgs, StdinImageFormatArg,
};
use imq::cli::remote::{InputSpec, SshInput};
use imq::cli::suite::{
    parse_weights, plan_suite, resolve_baseline_label, resolved_path_key, weight_number,
    CandidateFailurePolicy, PathChoice, PathPart, SuiteRequest,
};
use imq::cli::rules::RuleNumber;
use imq::cli::video::{
    check_aligned_pairs, check_frame_pairs, check_pair_size, compare_uses_timestamp_options,
    parse_optional_scale, plan_alignment, plan_video, selected_video_frame_pairs, TimestampArgs,
    VideoAlignmentArg, VideoFramePair,
};
use imq::metrics::Score;
use imq::{
    Dimensions, FrameOwned, PixelFormat, RawImageBundle, RawImageRecord, RawImageSelector,
};
use std::path::{Component, Path};

fn score(value: f64) -> Score {
    Score::from_bits(value.to_bits())
}

fn plane_bytes(frame: &FrameOwned) -> &[u8] {
    &frame.owned_planes()[0].data
}

fn parts_of(path: &Path) -> Vec<PathPart> {
    path.components()
        .map(|part| match part {
            Component::CurDir => PathPart::CurDir,
            Component::ParentDir => PathPart::ParentDir,
            other => PathPart::Named(other.as_os_str().to_string_lossy().into_owned()),
        })
        .collect()
}

fn choice(path: &str) -> PathChoice {
    let path = Path::new(path);
    PathChoice {
        label: path.display().to_string(),
        parts: parts_of(path),
        resolved: std::path::absolute(path).ok().map(|path| parts_of(&path)),
    }
}

fn stdin_args(format: StdinImageFormatArg) -> StdinImageArgs {
    StdinImageArgs {
        stdin_format: format,
        raw_width: None,
        raw_height: None,
        raw_pixel_format: RawPixelFormatArg::Rgba8,
        raw_stride: None,
        stdin_index: None,
        stdin_tag: None,
        stdin_reference_index: None,
        stdin_reference_tag: None,
        stdin_distorted_index: None,
        stdin_distorted_tag: None,
    }
}

fn timestamps(align: VideoAlignmentArg) -> TimestampArgs {
    TimestampArgs {
        align,
        max_timestamp_delta: None,
        allow_reuse_distorted: false,
        no_estimate_timestamp_transform: false,
        timestamp_scale: None,
        timestamp_offset: None,
    }
}

fn record(label: Option<&str>, tag: &str, value: u8) -> RawImageRecord {
    RawImageRecord::new(
        label.map(str::to_string),
        vec![tag.to_string()],
        FrameOwned::packed_tight(vec![value], 1, 1, PixelFormat::Luma8).unwrap(),
    )
}

fn two_records() -> RawImageBundle {
    RawImageBundle::new(vec![
        record(Some("ref"), "reference", 1),
        record(None, "candidate", 2),
    ])
}

#[test]
fn resolves_baseline_flag_against_candidate_labels() {
    let candidates = vec![choice("ref.png"), choice("./a.png"), choice("sub/b.png")];

    assert_eq!(
        resolve_baseline_label(&choice("sub/b.png"), &candidates).as_deref(),
        Some("sub/b.png")
    );
    assert_eq!(
        resolve_baseline_label(&choice("./a.png"), &candidates).as_deref(),
        Some("./a.png")
    );
    assert_eq!(
        resolve_baseline_label(&choice("a.png"), &candidates).as_deref(),
        Some("./a.png")
    );
    assert_eq!(
        resolve_baseline_label(&choice("sub/../a.png"), &candidates).as_deref(),
        Some("./a.png")
    );
    assert_eq!(
        resolve_baseline_label(&choice("missing.png"), &candidates),
        None
    );
}

#[test]
fn path_keys_drop_dots() {
    let key = resolved_path_key(&parts_of(Path::new("/a/./b/../c")));
    assert_eq!(key, ["/", "a", "c"]);
}

#[test]
fn raw_stdin_gray1_lsb_decodes_to_luma8() {
    let frame =
        decode_raw_stdin_frame(vec![0b0000_1011], 4, 1, RawPixelFormatArg::Gray1Lsb, None).unwrap();

    assert_eq!(frame.format().pixel_format, PixelFormat::Luma8);
    assert_eq!(plane_bytes(&frame), [255, 255, 0, 255]);
}

#[test]
fn raw_stdin_gray4_msb_honors_stride() {
    let frame = decode_raw_stdin_frame(
        vec![0x12, 0xff, 0x34, 0xee],
        2,
        2,
        RawPixelFormatArg::Gray4Msb,
        Some(2),
    )
    .unwrap();

    assert_eq!(plane_bytes(&frame), [17, 34, 51, 68]);
}

#[test]
fn bit_packed_raw_roundtrips_through_imqraw_as_luma8() {
    let frame =
        decode_raw_stdin_frame(vec![0b0000_1011], 4, 1, RawPixelFormatArg::Gray1Lsb, None).unwrap();
    let bundle = RawImageBundle::new(vec![RawImageRecord::new(
        Some("mask".to_string()),
        vec!["mask".to_string()],
        frame,
    )]);
    let decoded = imq::decode_imqraw_bundle(&imq::encode_imqraw_bundle(&bundle).unwrap()).unwrap();
    let record = decoded.select_tag("mask").unwrap();

    assert_eq!(record.frame.format().pixel_format, PixelFormat::Luma8);
    assert_eq!(plane_bytes(&record.frame), [255, 255, 0, 255]);
}

#[test]
fn raw_stdin_binary1_lsb_stays_native_binary() {
    let frame =
        decode_raw_stdin_frame(vec![0b0000_1011], 4, 1, RawPixelFormatArg::Binary1Lsb, None)
            .unwrap();

    assert_eq!(frame.format().pixel_format, PixelFormat::Binary1Lsb);
    assert_eq!(plane_bytes(&frame), [0b0000_1011]);
}

#[test]
fn raw_stdin_packed_formats_keep_their_stride() {
    let frame =
        decode_raw_stdin_frame(vec![1, 2, 3, 0, 4, 5, 6], 1, 2, RawPixelFormatArg::Rgb8, Some(4))
            .unwrap();
    assert_eq!(frame.owned_planes()[0].stride, 4);
    assert!(decode_raw_stdin_frame(vec![1], 1, 1, RawPixelFormatArg::Rgb8, None).is_err());
    assert_eq!(RawPixelFormatArg::Hsva8.pixel_format(), Some(PixelFormat::Hsva8));
    assert_eq!(
        RawPixelFormatArg::Binary1Msb.binary_pixel_format(),
        Some(PixelFormat::Binary1Msb)
    );
    assert_eq!(
        RawPixelFormatArg::Gray2Msb.bit_packed_gray_format().unwrap().bits_per_pixel,
        2
    );
}

#[test]
fn stdin_images_follow_their_format() {
    let raw = StdinImageArgs {
        raw_width: Some(1),
        raw_height: Some(1),
        ..stdin_args(StdinImageFormatArg::Raw)
    };
    let frame = decode_stdin_image(vec![9, 8, 7, 6], &raw).unwrap();
    assert_eq!(plane_bytes(&frame), [9, 8, 7, 6]);
    let error = decode_stdin_image(vec![0; 4], &stdin_args(StdinImageFormatArg::Raw)).unwrap_err();
    assert!(error.contains("raw-width"), "{error}");
    let bytes = imq::encode_imqraw_bundle(&two_records()).unwrap();
    let tagged = StdinImageArgs {
        stdin_tag: Some("candidate".to_string()),
        ..stdin_args(StdinImageFormatArg::Imqraw)
    };
    assert_eq!(plane_bytes(&decode_stdin_image(bytes, &tagged).unwrap()), [2]);
    assert!(decode_stdin_image(vec![1, 2], &stdin_args(StdinImageFormatArg::Encoded)).is_err());
}

#[test]
fn stdin_selectors_have_defaults() {
    let args = stdin_args(StdinImageFormatArg::Imqraw);
    assert!(matches!(single_stdin_selector(&args), RawImageSelector::Index(0)));
    let (reference, distorted) = pair_stdin_selectors(&args);
    assert!(matches!(reference, RawImageSelector::Index(0)));
    assert!(matches!(distorted, RawImageSelector::Index(1)));
    let bundle = two_records();
    let record = pick(&bundle, &distorted).unwrap();
    assert_eq!(imqraw_record_label(record, &distorted), "imqraw[1]");
    assert_eq!(
        imqraw_record_label(&bundle.records[0], &RawImageSelector::Index(0)),
        "ref"
    );
    let input = imqraw_comparison_input(record, &RawImageSelector::Tag("candidate".to_string()));
    assert_eq!(input.tag.as_deref(), Some("candidate"));
    assert!(pick(&bundle, &RawImageSelector::Index(7)).is_err());
}

#[test]
fn imqraw_pairs_load_both_sides() {
    let bundle = two_records();
    let bytes = imq::encode_imqraw_bundle(&bundle).unwrap();
    let args = stdin_args(StdinImageFormatArg::Imqraw);
    let (reference, distorted) = load_imqraw_image_pair(&bytes, &args).unwrap();
    assert_eq!(plane_bytes(&reference.frame), [1]);
    assert_eq!(plane_bytes(&distorted.frame), [2]);
    assert_eq!(reference.display_label, "ref");
    let one = imq::encode_imqraw_bundle(&RawImageBundle::new(vec![record(None, "x", 1)])).unwrap();
    assert!(load_imqraw_image_pair(&one, &args).is_err());
    let loaded = loaded_imqraw_image(&bundle.records[0], &RawImageSelector::Index(0));
    assert_eq!(loaded.input.index, Some(0));
}

#[test]
fn loaded_images_know_their_source() {
    let frame = || FrameOwned::packed_tight(vec![1], 1, 1, PixelFormat::Luma8).unwrap();
    let local = InputSpec::Local("a.png".to_string());
    let image = LoadedImage::from_input(&local, "a.png".to_string(), "a.png", frame());
    assert_eq!(image.input.path.as_deref(), Some("a.png"));
    let remote = InputSpec::Ssh(SshInput {
        user: None,
        host: "h".to_string(),
        port: None,
        path: "/a.png".to_string(),
    });
    let image = LoadedImage::from_input(&remote, "x".to_string(), "ssh://h/a.png", frame());
    assert_eq!(image.display_label, "x");
}

#[test]
fn comparisons_are_planned_by_kind() {
    let request = |reference_is_video: bool, distorted_is_video: bool| CompareRequest {
        reference_is_video,
        distorted_is_video,
        reference_is_local: true,
        distorted_is_local: true,
        stats: false,
        frames_chosen: false,
        every: 1,
        max_frames: None,
        timestamps: timestamps(VideoAlignmentArg::Decode),
    };
    assert!(matches!(
        plan_compare(&request(false, false), Ok(None)),
        Ok(ComparePlan::Images { .. })
    ));
    assert!(plan_compare(&request(true, false), Ok(None)).is_err());
    let plan = plan_compare(&request(true, true), Ok(Some(vec![VideoFramePair::new(1, 2)])));
    assert!(matches!(plan, Ok(ComparePlan::FramePairs(_))));
    assert!(matches!(
        plan_compare(&request(true, true), Ok(None)),
        Ok(ComparePlan::Videos)
    ));
}

#[test]
fn single_inputs_need_stats() {
    assert!(check_single_input(true, &timestamps(VideoAlignmentArg::Decode)).is_ok());
    assert!(check_single_input(false, &timestamps(VideoAlignmentArg::Decode)).is_err());
    assert!(check_single_input(true, &timestamps(VideoAlignmentArg::Timestamp)).is_err());
    assert_eq!(output_format(true, OutputFormatArg::Csv), OutputFormatArg::Json);
    assert_eq!(output_format(false, OutputFormatArg::Csv), OutputFormatArg::Csv);
    assert!(matches!(
        pair_source(&InputSpec::Stdin, &InputSpec::Stdin, true),
        Ok(PairSource::OneBundle)
    ));
    assert!(pair_source(&InputSpec::Stdin, &InputSpec::Stdin, false).is_err());
}

#[test]
fn frame_pairs_come_from_either_flag() {
    let chosen = selected_video_frame_pairs(Some(3), None).unwrap().unwrap();
    assert_eq!((chosen[0].reference, chosen[0].distorted), (3, 3));
    assert!(selected_video_frame_pairs(None, None).unwrap().is_none());
    assert!(check_frame_pairs(1).is_ok());
    assert!(check_frame_pairs(0).is_err());
    assert!(check_aligned_pairs(1, None).is_ok());
    assert!(check_aligned_pairs(0, None).is_err());
}

#[test]
fn timestamp_flags_need_timestamp_alignment() {
    assert!(plan_alignment(&timestamps(VideoAlignmentArg::Decode)).unwrap().is_none());
    let plan = plan_alignment(&timestamps(VideoAlignmentArg::Timestamp)).unwrap().unwrap();
    assert!(plan.estimate_transform);
    assert!(plan.transform.is_none());
    let scaled = TimestampArgs {
        timestamp_scale: Some(score(1.001)),
        ..timestamps(VideoAlignmentArg::Timestamp)
    };
    let transform = plan_alignment(&scaled).unwrap().unwrap().transform.unwrap();
    assert_eq!(transform.scale, score(1.001));
    assert_eq!(transform.offset_seconds, score(0.0));
    let stray = TimestampArgs {
        timestamp_scale: Some(score(1.001)),
        ..timestamps(VideoAlignmentArg::Decode)
    };
    assert!(plan_alignment(&stray).is_err());
    assert!(compare_uses_timestamp_options(&stray));
}

#[test]
fn video_runs_are_planned() {
    let args = timestamps(VideoAlignmentArg::Decode);
    let plan = plan_video(&args, 0, Some(9), Some(8), Some(6)).unwrap();
    assert_eq!(plan.every, 1);
    assert_eq!(plan.max_frames, Some(9));
    assert_eq!(plan.scale, Some(Dimensions { width: 8, height: 6 }));
    assert!(plan.timestamps.is_none());
    assert!(plan_video(&args, 1, None, Some(8), None).is_err());
}

#[test]
fn pairs_keep_one_size() {
    let small = Dimensions { width: 2, height: 2 };
    let large = Dimensions { width: 4, height: 2 };
    assert_eq!(check_pair_size(None, small, small).unwrap(), small);
    assert_eq!(
        check_pair_size(None, small, large).unwrap_err(),
        "decoded frame dimensions differ: Dimensions { width: 2, height: 2 } vs Dimensions { width: 4, height: 2 }"
    );
    assert_eq!(
        check_pair_size(Some(large), small, small).unwrap_err(),
        "decoded frame dimensions changed across pairs: Dimensions { width: 4, height: 2 } vs Dimensions { width: 2, height: 2 }"
    );
}

#[test]
fn scales_need_both_sides() {
    assert!(parse_optional_scale(None, None).unwrap().is_none());
    assert_eq!(
        parse_optional_scale(Some(4), Some(2)).unwrap(),
        Some(Dimensions { width: 4, height: 2 })
    );
    assert!(parse_optional_scale(Some(4), None).is_err());
    assert!(parse_optional_scale(Some(0), Some(2)).is_err());
}

#[test]
fn weights_are_named_numbers() {
    assert_eq!(weight_number("psnr=2"), Some("2"));
    let specs = vec!["psnr=2".to_string(), "ssim=0.5".to_string()];
    let weights = parse_weights(&specs, &vec![Some(score(2.0)), Some(score(0.5))]).unwrap();
    assert_eq!(weights.get("ssim"), Some(score(0.5)));
    assert!(parse_weights(&vec!["psnr".to_string()], &vec![None]).is_err());
}

#[test]
fn suites_are_planned() {
    let request = |jobs: usize, fail_fast: bool| SuiteRequest {
        primary_metric: Some("psnr".to_string()),
        weights: vec![],
        weight_values: vec![],
        baseline: Some(choice("a.png")),
        candidates: vec![choice("./a.png"), choice("b.png")],
        rules: vec!["psnr>=30".to_string()],
        rule_numbers: vec![RuleNumber {
            value: Some(score(30.0)),
            reciprocal: score(1.0 / 30.0),
        }],
        jobs,
        available: 6,
        fail_fast,
        rank_abs_tolerance: score(1e-12),
        rank_rel_tolerance: score(1e-9),
    };
    let plan = plan_suite(request(0, true)).unwrap();
    assert_eq!(plan.baseline_candidate.as_deref(), Some("./a.png"));
    assert_eq!(plan.rules[0].threshold, score(30.0));
    assert_eq!(plan.max_threads, 6);
    assert!(matches!(plan.failure_policy, CandidateFailurePolicy::FailFast));
    let plan = plan_suite(request(2, false)).unwrap();
    assert_eq!(plan.max_threads, 2);
    assert_eq!(plan.rank_abs_tolerance, score(1e-12));
    assert_eq!(plan.rank_rel_tolerance, score(1e-9));
    assert!(matches!(plan.failure_policy, CandidateFailurePolicy::Continue));
    let missing = SuiteRequest {
        baseline: Some(choice("nowhere.png")),
        ..request(0, false)
    };
    assert!(plan_suite(missing).is_err());
}
