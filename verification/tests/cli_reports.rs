use imq::cli::quality::{
    decision_line, evaluate_quality, gate_result, needs_baseline, prints_full_report,
    BaselineResults,
};
use imq::cli::ranking::{
    render_suite_text, suite_csv_header, suite_csv_rows, ComparisonSuiteReport, RankedMetric,
    SuiteCandidate,
};
use imq::cli::render::{
    execution_name, format_optional_seconds, render_comparison_text, render_formats_text,
    render_gpu_capabilities, render_gpu_report, render_metrics, render_probe_text, render_timestamp_video_text,
    render_video_pair_text, render_video_text, AlignmentReport, CountText, FrameReport,
    GpuCliComparison, GpuCliReport, GpuRun, ProbeReport, TimestampVideoComparison,
    VideoFramePairComparisonReport, VideoReport,
};
use imq::cli::report::{
    evaluate_gate, find_violations, gate_failed, normalized_delta, selected_metric,
    thresholds_have_any, AlphaCounts, AlphaDiagnostics, ComparisonGateReport, ComparisonInput,
    ComparisonReport, ComparisonThresholds, GateArgs, GateTexts, MetricEntry, NumberText,
};
use imq::cli::rows::{
    alignment_diagnostics, comparison_csv_header, comparison_csv_rows, metric_csv_header,
    probe_csv_header, probe_csv_row, timestamp_video_csv_rows, video_csv_rows, video_pair_csv_rows,
};
use imq::cli::stats::{render_stats_text, stats_csv_header, stats_csv_rows, ImageStatsReport};
use imq::cli::stats_comparison::{
    comparison_csv, comparison_stats_csv, render_comparison_stats_text, stats_csv,
    ImageComparisonStatsReport,
};
use imq::cli::gpu_rows::{gpu_csv_header, gpu_csv_rows};
use imq::cli::store::{
    plan_image_rows, plan_pair_rows, plan_probe_row, plan_timestamp_rows, plan_video_rows, sql_u64,
    sqlite_f64, sqlite_optional_f64, SqlValue,
};
use imq::cli::table::csv_string;
use imq::cli::video::{group_pair_metrics, mean_output, FramePairReport};
use imq::gate::{GateOperator, MetricThresholdRule};
use imq::gpu::{GpuCapabilities, GpuExecution};
use imq::metrics::{Direction, MetricOutput, Score};
use imq::{Dimensions, FormatSpec, PixelFormat};

fn score(value: f64) -> Score {
    Score::from_bits(value.to_bits())
}

fn number(value: f64) -> NumberText {
    NumberText {
        value: score(value),
        fixed: format!("{value:.6}"),
        plain: value.to_string(),
    }
}

fn entry(output: MetricOutput) -> MetricEntry {
    let value = f64::from_bits(output.score.bits);
    MetricEntry {
        output,
        fixed: format!("{value:.6}"),
        plain: value.to_string(),
        details_json: "{}".to_string(),
    }
}

fn metric(name: &str, value: f64, unit: &str, direction: Direction) -> MetricEntry {
    entry(MetricOutput::new(
        name.to_string(),
        score(value),
        unit.to_string(),
        direction,
    ))
}

fn report(metrics: Vec<MetricEntry>) -> ComparisonReport {
    ComparisonReport::new(
        Dimensions::new(1, 1).unwrap(),
        FormatSpec::new(PixelFormat::Rgba8),
        FormatSpec::new(PixelFormat::Rgba8),
        metrics,
    )
}

fn texts() -> GateTexts {
    GateTexts {
        score: "39".to_string(),
        minimum: "40".to_string(),
        delta: "5".to_string(),
        maximum: "4".to_string(),
    }
}

fn video(frames: Vec<FrameReport>) -> VideoReport {
    VideoReport {
        reference: "ref.mkv".to_string(),
        distorted: "cand.mkv".to_string(),
        dimensions: Dimensions { width: 4, height: 2 },
        compared_frames: frames.len() as u64,
        mean_metrics: vec![metric("mean_psnr", 40.0, "dB", Direction::HigherIsBetter)],
        frames,
    }
}

fn frame(index: u64) -> FrameReport {
    FrameReport {
        frame_index: index,
        pts_seconds: Some(number(0.5)),
        metrics: vec![metric("psnr", 40.0, "dB", Direction::HigherIsBetter)],
    }
}

fn count(value: u64) -> CountText {
    CountText {
        count: value,
        number: number(value as f64),
    }
}

fn alignment() -> AlignmentReport {
    AlignmentReport {
        planned_pairs: count(1),
        unmatched_reference: count(2),
        unmatched_distorted: count(3),
        scale: number(1.0),
        offset_seconds: number(0.0),
        mean_signed: Some(number(0.25)),
        mean_absolute: None,
        rms: None,
        maximum: None,
    }
}

fn pair(index: u64, name: &str, value: f64) -> FramePairReport {
    FramePairReport {
        pair_index: index,
        reference_frame_index: index,
        distorted_frame_index: index + 1,
        label_frame_index: None,
        metrics: vec![metric(name, value, "dB", Direction::HigherIsBetter)],
    }
}

#[test]
fn selected_metric_accepts_domain_only() {
    let output = MetricOutput::new(
        "psnr:rgb-visible".to_string(),
        score(35.0),
        "dB".to_string(),
        Direction::HigherIsBetter,
    )
    .with_detail("max_channel_delta_code".to_string(), score(3.0));
    let report = report(vec![entry(output)]);
    let gate = evaluate_gate(
        &report,
        ComparisonThresholds {
            selected_metric: Some("rgb-visible".to_string()),
            fail_under: Some(score(34.0)),
            max_selected_channel_delta: Some(score(4.0)),
            ..ComparisonThresholds::default()
        },
        score(0.0),
        &texts(),
    )
    .unwrap();
    assert!(gate.passed);
}

#[test]
fn gate_rejects_non_finite_thresholds() {
    let report = report(vec![metric("psnr", 40.0, "dB", Direction::HigherIsBetter)]);

    for thresholds in [
        ComparisonThresholds {
            fail_under: Some(score(f64::NAN)),
            ..ComparisonThresholds::default()
        },
        ComparisonThresholds {
            max_selected_channel_delta: Some(score(f64::INFINITY)),
            ..ComparisonThresholds::default()
        },
    ] {
        assert!(evaluate_gate(&report, thresholds, score(0.0), &texts()).is_err());
    }
}

#[test]
fn comparison_csv_preserves_gate_decision() {
    let report = report(vec![metric("psnr", 39.0, "dB", Direction::HigherIsBetter)]).with_gate(
        ComparisonGateReport {
            thresholds: ComparisonThresholds {
                fail_under: Some(score(40.0)),
                ..ComparisonThresholds::default()
            },
            passed: false,
            failures: vec!["psnr below threshold".to_string()],
        },
    );
    let gate = report.gate.as_ref().unwrap();
    let fail_under = f64::from_bits(gate.thresholds.fail_under.unwrap().bits);
    let gate_json = format!(
        "{{\"thresholds\":{{\"fail_under\":{fail_under:?}}},\"passed\":{},\"failures\":{:?}}}",
        gate.passed, gate.failures
    );

    let csv = csv_string(
        &comparison_csv_header(),
        &comparison_csv_rows(&report, &gate_json),
    )
    .unwrap();
    let mut reader = csv::Reader::from_reader(csv.as_bytes());
    let headers = reader.headers().unwrap().clone();
    let gate_index = headers.iter().position(|name| name == "gate_json").unwrap();
    let record = reader.records().next().unwrap().unwrap();
    let gate: serde_json::Value = serde_json::from_str(record.get(gate_index).unwrap()).unwrap();

    assert_eq!(gate["passed"], false);
    assert_eq!(gate["thresholds"]["fail_under"], 40.0);
    assert_eq!(gate["failures"][0], "psnr below threshold");
}

#[test]
fn sqlite_preserves_non_finite_scores_as_canonical_text() {
    let report = report(vec![
        metric("finite", 1.25, "", Direction::Neutral),
        metric("nan", f64::NAN, "", Direction::Neutral),
        metric("pos_inf", f64::INFINITY, "", Direction::Neutral),
        metric("neg_inf", f64::NEG_INFINITY, "", Direction::Neutral),
    ]);
    let plan = plan_image_rows(&report);

    let conn = rusqlite::Connection::open_in_memory().unwrap();
    conn.execute_batch(
        "CREATE TABLE imq_metrics (id INTEGER PRIMARY KEY, name TEXT NOT NULL, score REAL)",
    )
    .unwrap();
    for row in &plan.metrics {
        let value = match &row.score {
            SqlValue::Null => rusqlite::types::Value::Null,
            SqlValue::Real(number) => rusqlite::types::Value::Real(f64::from_bits(number.bits)),
            SqlValue::Text(text) => rusqlite::types::Value::Text(text.clone()),
        };
        conn.execute(
            "INSERT INTO imq_metrics (name, score) VALUES (?1, ?2)",
            (&row.name, value),
        )
        .unwrap();
    }
    let mut statement = conn
        .prepare("SELECT name, typeof(score), score FROM imq_metrics ORDER BY id")
        .unwrap();
    let rows = statement
        .query_map([], |row| {
            Ok((
                row.get::<_, String>(0)?,
                row.get::<_, String>(1)?,
                row.get::<_, rusqlite::types::Value>(2)?,
            ))
        })
        .unwrap()
        .collect::<rusqlite::Result<Vec<_>>>()
        .unwrap();
    assert_eq!(
        rows[0],
        (
            "finite".into(),
            "real".into(),
            rusqlite::types::Value::Real(1.25)
        )
    );
    for (index, expected) in [(1, "NaN"), (2, "Infinity"), (3, "-Infinity")] {
        assert_eq!(rows[index].1, "text");
        assert_eq!(
            rows[index].2,
            rusqlite::types::Value::Text(expected.into())
        );
    }
}

#[test]
fn csv_fields_are_quoted() {
    let header = vec!["a".to_string(), "b".to_string()];
    let rows = vec![vec!["x,y".to_string(), "say \"hi\"".to_string()]];
    assert_eq!(
        csv_string(&header, &rows).unwrap(),
        "a,b\n\"x,y\",\"say \"\"hi\"\"\"\n"
    );
    assert_eq!(csv_string(&header, &vec![]).unwrap(), "");
    let rows = vec![
        vec!["".to_string(), "".to_string()],
        vec!["a\rb".to_string(), "c\nd".to_string()],
        vec![" \u{e9};'\t".to_string(), "\"".to_string()],
    ];
    assert_eq!(
        csv_string(&header, &rows).unwrap(),
        "a,b\n,\n\"a\rb\",\"c\nd\"\n \u{e9};'\t,\"\"\"\"\n"
    );
    let single = vec!["".to_string()];
    assert_eq!(csv_string(&single, &vec![vec!["x".to_string()]]).unwrap(), "\"\"\nx\n");
    let long = "\"".repeat(20_000);
    assert_eq!(
        csv_string(&single, &vec![vec![long.clone()]]).unwrap(),
        format!("\"\"\n\"{long}{long}\"\n")
    );
}

#[test]
fn gates_list_every_violation() {
    let mut report = report(vec![entry(
        MetricOutput::new(
            "psnr".to_string(),
            score(39.0),
            "dB".to_string(),
            Direction::HigherIsBetter,
        )
        .with_detail("max_channel_delta".to_string(), score(5.0 / 255.0)),
    )]);
    let counts = AlphaCounts {
        transparent: 0,
        opaque: 1,
        partial: 0,
    };
    report.alpha = Some(AlphaDiagnostics {
        reference: counts,
        distorted: counts,
        mismatch_count: 3,
        max_delta: 9,
        mismatches_beyond_one_lsb: 2,
    });
    let args = GateArgs {
        selected_metric: None,
        fail_under: Some(score(40.0)),
        max_selected_channel_delta: Some(score(4.0)),
        max_alpha_delta: Some(8),
        max_alpha_mismatches: Some(2),
        max_alpha_mismatches_beyond_one_lsb: Some(1),
    };
    let thresholds = args.thresholds();
    assert!(thresholds_have_any(&thresholds));
    assert!(!thresholds_have_any(&ComparisonThresholds::default()));
    assert_eq!(normalized_delta(&report.metrics[0]), score(5.0 / 255.0));
    assert_eq!(find_violations(&report, &thresholds, score(5.0)).unwrap().len(), 5);
    let gate = evaluate_gate(&report, thresholds, score(5.0), &texts()).unwrap();
    assert!(!gate.passed);
    assert_eq!(
        gate.failures,
        [
            "psnr score 39 is below --fail-under 40",
            "psnr max channel delta 5 exceeds --max-selected-channel-delta 4",
            "alpha max delta 9 exceeds --max-alpha-delta 8",
            "alpha mismatches 3 exceeds --max-alpha-mismatches 2",
            "alpha mismatches beyond one LSB 2 exceeds --max-alpha-mismatches-beyond-one-lsb 1",
        ]
    );
    let gated = report.with_gate(gate);
    assert!(gate_failed(&gated));
    let text = render_comparison_text(&gated);
    assert!(text.contains("gate      : "));
    assert!(text.contains("  - alpha max delta 9"));
}

#[test]
fn unknown_metrics_cannot_be_selected() {
    let report = report(vec![metric("psnr", 39.0, "dB", Direction::HigherIsBetter)]);
    assert!(selected_metric(&report, Some("ssim")).is_err());
    assert_eq!(selected_metric(&report, None).unwrap().output.name, "psnr");
}

#[test]
fn metric_lines_are_aligned() {
    let text = render_metrics(&vec![metric("psnr", 41.5, "dB", Direction::HigherIsBetter)]);
    let expected = format!("{:<32} {:>16.6}  {:<20}  ", "psnr", 41.5, "dB");
    let line = text.lines().nth(2).unwrap();
    assert!(line.starts_with(&expected), "{line}");
    assert!(line.ends_with("HigherIsBetter"));
}

#[test]
fn video_reports_reach_every_output() {
    let report = video(vec![frame(0), frame(5)]);
    let text = render_video_text(&report);
    assert!(text.starts_with("reference       : ref.mkv\n"));
    assert!(text.contains("compared frames : 2\n"));
    let rows = video_csv_rows(&report);
    assert_eq!(rows.len(), 3);
    assert_eq!(rows[2].len(), metric_csv_header().len());
    assert_eq!(rows[2][6], "5");
    assert_eq!(rows[2][7], "0.5");
    assert_eq!(rows[2][11], "psnr");
    let plan = plan_video_rows(&report);
    assert_eq!(plan.metrics.len(), 3);
    assert_eq!(plan.report.compared_frames, Some(2));
    assert_eq!(plan.metrics[2].frame_index, Some(5));
}

#[test]
fn alignments_add_diagnostics() {
    let report = TimestampVideoComparison {
        video: video(vec![frame(0)]),
        alignment: alignment(),
    };
    let cells = alignment_diagnostics(&report.alignment, "{}");
    assert_eq!(cells.len(), 6);
    let rows = timestamp_video_csv_rows(&report, "{}");
    assert_eq!(rows.len(), 2 + cells.len());
    assert_eq!(plan_timestamp_rows(&report, "{}").metrics.len(), rows.len());
    let text = render_timestamp_video_text(&report);
    let (video, rest) = text.split_once("\ntimestamp alignment\n").unwrap();
    assert_eq!(video, render_video_text(&report.video));
    assert_eq!(
        rest,
        "planned pairs         : 1\n\
         unmatched reference   : 2\n\
         unmatched distorted   : 3\n\
         timeline transform    : distorted * 1.000000 0.000000s\n\
         mean signed residual  : 0.250000s\n\
         mean absolute residual: n/a\n\
         RMS residual          : n/a\n\
         maximum residual      : n/a\n"
    );
    assert_eq!(format_optional_seconds(&None), "n/a");
}

#[test]
fn frame_pairs_are_averaged_by_metric() {
    let pairs = vec![
        pair(0, "psnr", 40.0),
        pair(1, "psnr", 44.0),
        pair(2, "ssim", f64::INFINITY),
    ];
    let groups = group_pair_metrics(&pairs);
    assert_eq!(groups.len(), 2);
    assert_eq!(groups[0].name, "psnr");
    assert_eq!(groups[0].scores, [score(40.0), score(44.0)]);
    assert!(groups[1].scores.is_empty());
    assert!(groups[1].has_infinite);
    let means = groups
        .into_iter()
        .map(|group| mean_output(group, score(42.0), score(3.0)))
        .collect::<Vec<_>>();
    assert_eq!(means[0].name, "mean_psnr");
    assert_eq!(means[0].score, score(42.0));
    assert_eq!(means[0].details.get("pairs"), Some(score(3.0)));
    assert_eq!(means[1].score, score(f64::INFINITY));

    let report = VideoFramePairComparisonReport {
        reference: "a".to_string(),
        distorted: "b".to_string(),
        dimensions: Dimensions { width: 4, height: 2 },
        pairs,
        mean_metrics: means.into_iter().map(entry).collect(),
    };
    assert_eq!(video_pair_csv_rows(&report).len(), 5);
    assert_eq!(plan_pair_rows(&report).metrics.len(), 5);
    let text = render_video_pair_text(&report);
    assert!(text.starts_with(
        "reference       : a\n\
         distorted       : b\n\
         size            : 4x2\n\
         compared pairs  : 3\n\
         \npair 0: ref=0 distorted=1\n"
    ));
    assert!(text.contains("\nmean metrics\n"));
}

#[test]
fn numbers_are_stored_without_loss() {
    assert!(matches!(sqlite_f64(score(2.5)), SqlValue::Real(value) if value == score(2.5)));
    assert!(matches!(sqlite_optional_f64(None), SqlValue::Null));
    assert_eq!(sql_u64(7), 7);
    assert_eq!(sql_u64(u64::MAX), i64::MAX);
}

#[test]
fn probes_and_formats_are_listed() {
    let probe = ProbeReport {
        input: "v.mkv".to_string(),
        width: 4,
        height: 2,
        avg_frame_rate: Some(number(25.0)),
        nb_frames: None,
        codec_name: Some("h264".to_string()),
        duration_seconds: None,
    };
    assert_eq!(
        render_probe_text(&probe),
        "file      : v.mkv\nsize      : 4x2\ncodec     : h264\nfps       : 25.000000\nframes    : unknown\nduration  : unknown\n"
    );
    let row = probe_csv_row(&probe);
    assert_eq!(row, ["v.mkv", "4", "2", "25", "", "h264", ""]);
    assert_eq!(row.len(), probe_csv_header().len());
    assert_eq!(probe_csv_header()[3], "avg_frame_rate");
    let stored = plan_probe_row(&ProbeReport {
        nb_frames: Some(u64::MAX),
        ..probe
    });
    assert_eq!(stored.input, "v.mkv");
    assert_eq!(stored.dimensions, Dimensions { width: 4, height: 2 });
    assert!(matches!(stored.avg_frame_rate, SqlValue::Real(value) if value == score(25.0)));
    assert_eq!(stored.nb_frames, Some(i64::MAX));
    assert_eq!(stored.codec_name.as_deref(), Some("h264"));
    assert!(matches!(stored.duration_seconds, SqlValue::Null));
    let formats = vec!["PNG".to_string(), "BMP".to_string()];
    assert_eq!(
        render_formats_text(&formats),
        "image crate adapter format hint:\n- PNG\n- BMP\n"
    );
}

#[test]
fn quality_gates_combine_both_kinds_of_rules() {
    let outputs = vec![MetricOutput::new(
        "psnr".to_string(),
        score(41.0),
        "dB".to_string(),
        Direction::HigherIsBetter,
    )];
    let rule = MetricThresholdRule::new(
        "psnr".to_string(),
        GateOperator::GreaterOrEqual,
        score(40.0),
    );
    let good = evaluate_quality(&outputs, &vec![rule.clone()], &vec![], &None);
    assert!(good.passed);
    assert!(!prints_full_report(&good));
    assert!(gate_result(&good).is_ok());
    let strict = MetricThresholdRule::new(
        "psnr".to_string(),
        GateOperator::GreaterThan,
        score(41.0),
    );
    let baseline = Some(BaselineResults {
        metrics: vec![],
        thresholds: vec![],
    });
    let bad = evaluate_quality(&outputs, &vec![rule, strict], &vec![], &baseline);
    assert!(!bad.passed);
    assert!(prints_full_report(&bad));
    assert_eq!(gate_result(&bad).unwrap_err(), "quality gate failed");
    assert_eq!(decision_line(false, "x"), "FAIL: x");
    assert_eq!(decision_line(true, "x"), "PASS: x");
    assert!(needs_baseline(1, false).is_err());
    assert!(needs_baseline(1, true).unwrap());
    assert!(!needs_baseline(0, true).unwrap());
}

#[test]
fn suites_are_written_by_rank() {
    let candidate = SuiteCandidate {
        label: "a.png".to_string(),
        passed: true,
        overall_rank: Some(1),
        mean_rank: Some(number(1.0)),
        pareto_optimal: true,
        error: None,
        metrics: vec![RankedMetric {
            entry: metric("psnr", 41.0, "dB", Direction::HigherIsBetter),
            rank: Some(1),
            delta: Some(number(0.5)),
        }],
        gate_failures: vec![],
        baseline_gate_failures: vec![],
        gate_json: None,
        baseline_gate_json: None,
    };
    let broken = SuiteCandidate {
        label: "b.png".to_string(),
        passed: false,
        overall_rank: None,
        mean_rank: None,
        pareto_optimal: false,
        error: Some("cannot decode".to_string()),
        metrics: vec![],
        gate_failures: vec![],
        baseline_gate_failures: vec![],
        gate_json: None,
        baseline_gate_json: None,
    };
    let report = ComparisonSuiteReport {
        reference: Some("ref.png".to_string()),
        dimensions: Dimensions { width: 4, height: 2 },
        passed: false,
        primary_metric: None,
        baseline_candidate: Some("a.png".to_string()),
        candidates: vec![candidate, broken],
    };
    let text = render_suite_text(&report);
    assert!(text.contains("suite     : failed (2 candidates)\n"));
    let metric_line = format!("  {:<24} {:>14.6} {:<18} rank=1 delta=0.500000\n", "psnr", 41.0, "dB");
    let tail = format!(
        "\n[rank 1] a.png  status=passed  pareto=true  mean_rank=1.000000\n{metric_line}\
         \n[rank -] b.png  status=failed  pareto=false  mean_rank=-\nerror     : cannot decode\n"
    );
    assert!(text.ends_with(&tail), "{text}");
    assert!(text.starts_with("reference : ref.png\nsize      : 4x2\n"));
    assert!(text.contains("primary   : consensus mean rank\nbaseline  : a.png\n"));
    let rows = suite_csv_rows(&report);
    assert_eq!(rows.len(), 2);
    assert_eq!(rows[0].len(), suite_csv_header().len());
    assert_eq!(rows[0][9], "psnr");
    assert_eq!(rows[1][6], "cannot decode");
}

#[test]
fn gpu_reports_name_their_execution() {
    let run = || GpuRun {
        execution: GpuExecution::CpuFallback,
        fallback_reason: Some("no adapter".to_string()),
        metrics: vec![metric("psnr:all", 41.0, "dB", Direction::HigherIsBetter)],
    };
    let report = GpuCliReport {
        capabilities: None,
        initialization_error: Some("no adapter".to_string()),
        reference: "ref.png".to_string(),
        comparisons: vec![GpuCliComparison {
            candidate: "a.png".to_string(),
            error_result: Some(run()),
            wssim_result: Some(run()),
        }],
    };
    let text = render_gpu_report(&report);
    assert!(text.starts_with(
        "GPU unavailable          : no adapter\n\
         reference                : ref.png\n\
         \ncandidate                : a.png\n\
         error execution          : CpuFallback\n\
         error fallback reason    : no adapter\n"
    ));
    assert!(text.contains("wssim execution          : CpuFallback\n"));
    assert_eq!(execution_name(GpuExecution::Gpu), "Gpu");
    let rows = gpu_csv_rows(&report);
    assert_eq!(rows.len(), 2);
    assert_eq!(rows[0].len(), gpu_csv_header().len());
    assert_eq!(rows[0][..4], ["ref.png", "a.png", "CpuFallback", "no adapter"]);
}

fn stats(input: &str) -> ImageStatsReport {
    ImageStatsReport {
        input: input.to_string(),
        width: 4,
        height: 2,
        pixels: 8,
        red_mean: number(0.1),
        green_mean: number(0.2),
        blue_mean: number(0.3),
        dominant_channel: "blue".to_string(),
        luma_mean: number(0.4),
        luma_std_dev: number(0.5),
        luma_p05: number(0.6),
        luma_p95: number(0.7),
        luma_entropy_bits: number(0.8),
        mean_hue_degrees: number(0.9),
        mean_saturation: number(1.0),
        mean_value: number(1.1),
        exposure: "balanced".to_string(),
        contrast: "normal".to_string(),
        saturation: "muted".to_string(),
        temperature: "cool".to_string(),
        tint: "neutral".to_string(),
        likely_grayscale: false,
        color_cast: true,
        shadow_clipping: false,
        highlight_clipping: false,
        has_transparency: true,
    }
}

#[test]
fn statistics_are_listed() {
    let report = stats("a.png");
    assert_eq!(
        render_stats_text(&report),
        "image     : a.png\n\
         size      : 4x2\n\
         pixels    : 8\n\
         exposure  : balanced  contrast: normal  saturation: muted\n\
         temp/tint : cool / neutral\n\
         rgb mean  : r=0.100000 g=0.200000 b=0.300000 dominant=blue\n\
         luma      : mean=0.400000 std=0.500000 p05=0.600000 p95=0.700000 entropy=0.800000\n\
         hsv       : hue=0.900000 sat=1.000000 value=1.100000\n\
         flags     : grayscale=false cast=true shadow_clip=false highlight_clip=false transparency=true\n"
    );
    let rows = stats_csv_rows(&report);
    assert_eq!(rows.len(), 17);
    assert_eq!(rows[0].len(), stats_csv_header().len());
    assert_eq!(rows[0], ["a.png", "4", "2", "8", "red_mean", "0.1"]);
    assert_eq!(rows[7], ["a.png", "4", "2", "8", "hue_degrees", "0.9"]);
    assert_eq!(rows[14], ["a.png", "4", "2", "8", "dominant_channel", "blue"]);
    assert_eq!(rows[16], ["a.png", "4", "2", "8", "color_cast", "true"]);
}

#[test]
fn statistics_follow_their_comparison() {
    let report = ImageComparisonStatsReport {
        comparison: report(vec![metric("psnr", 39.0, "dB", Direction::HigherIsBetter)]),
        reference: stats("a.png"),
        distorted: stats("b.png"),
    };
    let text = render_comparison_stats_text(&report);
    assert_eq!(
        text,
        format!(
            "{}\n{}\n{}",
            render_comparison_text(&report.comparison),
            render_stats_text(&report.reference),
            render_stats_text(&report.distorted)
        )
    );
    let csv = comparison_stats_csv(&report, "{\"passed\":true}").unwrap();
    let lines: Vec<&str> = csv.lines().collect();
    assert_eq!(lines.len(), 2 + 1 + 18 + 1 + 18);
    assert!(lines[0].ends_with(",gate_json"));
    assert!(lines[1].ends_with(",\"{\"\"passed\"\":true}\""));
    assert_eq!(lines[2], "");
    assert_eq!(lines[3], "input,width,height,pixels,metric,value");
    assert_eq!(lines[4], "a.png,4,2,8,red_mean,0.1");
    assert_eq!(lines[21], "");
    assert_eq!(lines[23], "b.png,4,2,8,red_mean,0.1");
    assert_eq!(
        csv,
        format!(
            "{}\n{}\n{}",
            comparison_csv(&report.comparison, "{\"passed\":true}").unwrap(),
            stats_csv(&report.reference).unwrap(),
            stats_csv(&report.distorted).unwrap()
        )
    );
}

#[test]
fn inputs_of_comparisons_are_described() {
    assert_eq!(ComparisonInput::path("p".to_string()).path.as_deref(), Some("p"));
    assert_eq!(ComparisonInput::label("l".to_string()).label.as_deref(), Some("l"));
    let input = ComparisonInput::imqraw_index(2, Some("x".to_string()));
    assert_eq!((input.index, input.label.as_deref()), (Some(2), Some("x")));
    let input = ComparisonInput::imqraw_tag("t".to_string(), None);
    assert_eq!((input.tag.as_deref(), input.label), (Some("t"), None));
}

#[test]
fn capabilities_are_listed() {
    let capabilities = GpuCapabilities {
        adapter_name: "adapter".to_string(),
        backend: "Vulkan".to_string(),
        device_type: "Cpu".to_string(),
        driver: "driver".to_string(),
        driver_info: "info".to_string(),
        vendor_id: 0x1f,
        device_id: 0x12345,
        fallback_adapter: true,
        max_buffer_size: 1,
        max_storage_buffer_binding_size: 2,
        max_compute_workgroups_per_dimension: 3,
        max_rgba8_input_pixels: 4,
        max_error_stats_pixels: 5,
        max_windowed_ssim_windows: 6,
    };
    assert_eq!(
        render_gpu_capabilities(&capabilities),
        format!(
            "adapter                  : adapter\n\
             backend                  : Vulkan\n\
             device type              : Cpu\n\
             driver                   : driver\n\
             driver info              : info\n\
             vendor/device            : {:#06x}/{:#06x}\n\
             fallback adapter         : true\n\
             max buffer bytes         : 1\n\
             max storage binding      : 2\n\
             max workgroups/dimension : 3\n\
             max rgba8 input pixels   : 4\n\
             max error pixels         : 5\n\
             max wssim windows        : 6\n",
            0x1f, 0x12345
        )
    );
}
