//! Reports as text.

use crate::cli::report::{
    direction_name, direction_text, AlphaDiagnostics, ComparisonGateReport, ComparisonReport,
    MetricEntry, NumberText,
};
use crate::cli::video::FramePairReport;
use crate::frame::Dimensions;
use crate::gpu::{GpuCapabilities, GpuExecution};
use crate::strings::{
    law_padding_fills_to_width, pad_left, pad_right, padded_left, padded_right, repeat, repeated,
};
use crate::text::{concat2, concat3, decimal, decimal_text};
use vstd::prelude::*;

verus! {

/// Appends a line made of a label and a value.
fn put_line(text: &mut String, label: &str, value: &str)
    ensures
        final(text)@ == old(text)@ + label@ + value@ + "\n"@,
{
    text.append(label);
    text.append(value);
    text.append("\n");
}

/// A size such as `640x480`.
pub open spec fn extent_text(size: Dimensions) -> Seq<char> {
    decimal_text(size.width as nat) + "x"@ + decimal_text(size.height as nat)
}

fn write_extent(size: Dimensions) -> (text: String)
    ensures
        text@ == extent_text(size),
{
    concat3(decimal(size.width as u64).as_str(), "x", decimal(size.height as u64).as_str())
}

/// A text, or a placeholder for a missing one.
pub open spec fn text_or(value: Option<String>, missing: Seq<char>) -> Seq<char> {
    match value {
        Some(text) => text@,
        None => missing,
    }
}

fn text_or_default<'a>(value: &'a Option<String>, missing: &'a str) -> (text: &'a str)
    ensures
        text@ == text_or(*value, missing@),
{
    match value {
        Some(text) => text.as_str(),
        None => missing,
    }
}

/// Lines over a metric table.
pub open spec fn metric_head() -> Seq<char> {
    padded_right("metric"@, 32, ' ') + " "@ + padded_left("score"@, 16, ' ') + "  "@ + padded_right(
        "unit"@,
        20,
        ' ',
    ) + "  direction\n"@ + repeated('-', 32) + " "@ + repeated('-', 16) + "  "@ + repeated('-', 20)
        + "  "@ + repeated('-', 12) + "\n"@
}

/// Line of one metric.
pub open spec fn metric_line(metric: MetricEntry) -> Seq<char> {
    padded_right(metric.output.name@, 32, ' ') + " "@ + padded_left(metric.fixed@, 16, ' ') + "  "@
        + padded_right(metric.output.unit@, 20, ' ') + "  "@ + direction_text(
        metric.output.direction,
    ) + "\n"@
}

/// Lines of the first `count` metrics.
pub open spec fn metric_lines(metrics: Seq<MetricEntry>, count: int) -> Seq<char>
    decreases count,
{
    if count <= 0 {
        Seq::empty()
    } else {
        metric_lines(metrics, count - 1) + metric_line(metrics[count - 1])
    }
}

/// A metric table.
pub open spec fn metric_table(metrics: Seq<MetricEntry>) -> Seq<char> {
    metric_head() + metric_lines(metrics, metrics.len() as int)
}

fn write_metric(metric: &MetricEntry) -> (text: String)
    ensures
        text@ == metric_line(*metric),
{
    let mut text = pad_right(metric.output.name.as_str(), 32, ' ');
    text.append(" ");
    text.append(pad_left(metric.fixed.as_str(), 16, ' ').as_str());
    text.append("  ");
    text.append(pad_right(metric.output.unit.as_str(), 20, ' ').as_str());
    text.append("  ");
    text.append(direction_name(metric.output.direction));
    text.append("\n");
    text
}

/// Writes a metric table.
pub fn render_metrics(metrics: &Vec<MetricEntry>) -> (text: String)
    ensures
        text@ == metric_table(metrics@),
{
    let mut text = pad_right("metric", 32, ' ');
    text.append(" ");
    text.append(pad_left("score", 16, ' ').as_str());
    text.append("  ");
    text.append(pad_right("unit", 20, ' ').as_str());
    text.append("  direction\n");
    text.append(repeat('-', 32).as_str());
    text.append(" ");
    text.append(repeat('-', 16).as_str());
    text.append("  ");
    text.append(repeat('-', 20).as_str());
    text.append("  ");
    text.append(repeat('-', 12).as_str());
    text.append("\n");
    let mut lines = String::new();
    let mut i: usize = 0;
    assert(lines@ =~= Seq::<char>::empty());
    while i < metrics.len()
        invariant
            i <= metrics@.len(),
            lines@ == metric_lines(metrics@, i as int),
        decreases metrics@.len() - i,
    {
        lines.append(write_metric(&metrics[i]).as_str());
        i += 1;
    }
    text.append(lines.as_str());
    text
}

/// Line about alpha.
pub open spec fn alpha_line(alpha: AlphaDiagnostics) -> Seq<char> {
    "alpha     : ref t/o/p="@ + decimal_text(alpha.reference.transparent as nat) + "/"@
        + decimal_text(alpha.reference.opaque as nat) + "/"@ + decimal_text(
        alpha.reference.partial as nat,
    ) + "  dist t/o/p="@ + decimal_text(alpha.distorted.transparent as nat) + "/"@ + decimal_text(
        alpha.distorted.opaque as nat,
    ) + "/"@ + decimal_text(alpha.distorted.partial as nat) + "  mismatches="@ + decimal_text(
        alpha.mismatch_count as nat,
    ) + "  max_delta="@ + decimal_text(alpha.max_delta as nat) + "  beyond_1_lsb="@ + decimal_text(
        alpha.mismatches_beyond_one_lsb as nat,
    ) + "\n"@
}

fn write_alpha(alpha: AlphaDiagnostics) -> (text: String)
    ensures
        text@ == alpha_line(alpha),
{
    let mut text = concat2(
        "alpha     : ref t/o/p=",
        decimal(alpha.reference.transparent).as_str(),
    );
    text.append("/");
    text.append(decimal(alpha.reference.opaque).as_str());
    text.append("/");
    text.append(decimal(alpha.reference.partial).as_str());
    text.append("  dist t/o/p=");
    text.append(decimal(alpha.distorted.transparent).as_str());
    text.append("/");
    text.append(decimal(alpha.distorted.opaque).as_str());
    text.append("/");
    text.append(decimal(alpha.distorted.partial).as_str());
    text.append("  mismatches=");
    text.append(decimal(alpha.mismatch_count).as_str());
    text.append("  max_delta=");
    text.append(decimal(alpha.max_delta as u64).as_str());
    text.append("  beyond_1_lsb=");
    text.append(decimal(alpha.mismatches_beyond_one_lsb).as_str());
    text.append("\n");
    text
}

/// Lines that list the first `count` texts behind a mark.
pub open spec fn listed(mark: Seq<char>, items: Seq<String>, count: int) -> Seq<char>
    decreases count,
{
    if count <= 0 {
        Seq::empty()
    } else {
        listed(mark, items, count - 1) + mark + items[count - 1]@ + "\n"@
    }
}

fn write_list(mark: &str, items: &Vec<String>) -> (text: String)
    ensures
        text@ == listed(mark@, items@, items@.len() as int),
{
    let mut text = String::new();
    let mut i: usize = 0;
    assert(text@ =~= Seq::<char>::empty());
    while i < items.len()
        invariant
            i <= items@.len(),
            text@ == listed(mark@, items@, i as int),
        decreases items@.len() - i,
    {
        put_line(&mut text, mark, items[i].as_str());
        i += 1;
    }
    text
}

/// Word for an outcome.
pub open spec fn outcome_word(passed: bool) -> Seq<char> {
    if passed {
        "passed"@
    } else {
        "failed"@
    }
}

fn write_outcome(passed: bool) -> (text: &'static str)
    ensures
        text@ == outcome_word(passed),
{
    if passed {
        "passed"
    } else {
        "failed"
    }
}

/// Lines about the quality gate.
pub open spec fn gate_lines(gate: ComparisonGateReport) -> Seq<char> {
    "gate      : "@ + outcome_word(gate.passed) + "\n"@ + listed(
        "  - "@,
        gate.failures@,
        gate.failures@.len() as int,
    )
}

/// Report of an image comparison.
pub open spec fn comparison_text(report: ComparisonReport) -> Seq<char> {
    let head = "reference : "@ + text_or(report.reference, "<none>"@) + "\n"@ + "distorted : "@
        + text_or(report.distorted, "<none>"@) + "\n"@ + "size      : "@ + extent_text(
        report.dimensions,
    ) + "\n"@ + metric_table(report.metrics@);
    let with_alpha = match report.alpha {
        Some(alpha) => head + alpha_line(alpha),
        None => head,
    };
    match report.gate {
        Some(gate) => with_alpha + gate_lines(gate),
        None => with_alpha,
    }
}

/// Writes the report of an image comparison.
pub fn render_comparison_text(report: &ComparisonReport) -> (text: String)
    ensures
        text@ == comparison_text(*report),
{
    let mut text = String::from_str("reference : ");
    text.append(text_or_default(&report.reference, "<none>"));
    text.append("\n");
    put_line(&mut text, "distorted : ", text_or_default(&report.distorted, "<none>"));
    put_line(&mut text, "size      : ", write_extent(report.dimensions).as_str());
    text.append(render_metrics(&report.metrics).as_str());
    if let Some(alpha) = report.alpha {
        text.append(write_alpha(alpha).as_str());
    }
    if let Some(gate) = &report.gate {
        let mut lines = String::from_str("gate      : ");
        lines.append(write_outcome(gate.passed));
        lines.append("\n");
        lines.append(write_list("  - ", &gate.failures).as_str());
        text.append(lines.as_str());
    }
    text
}

/// Metrics of one frame.
#[derive(Debug)]
pub struct FrameReport {
    /// Frame index.
    pub frame_index: u64,
    /// Presentation time in seconds.
    pub pts_seconds: Option<NumberText>,
    /// Metric results.
    pub metrics: Vec<MetricEntry>,
}

/// Report of a video comparison.
#[derive(Debug)]
pub struct VideoReport {
    /// Label of the reference.
    pub reference: String,
    /// Label of the distorted video.
    pub distorted: String,
    /// Frame size.
    pub dimensions: Dimensions,
    /// Number of compared frames.
    pub compared_frames: u64,
    /// Mean results.
    pub mean_metrics: Vec<MetricEntry>,
    /// Results of each frame.
    pub frames: Vec<FrameReport>,
}

/// Text of a video report.
pub open spec fn video_text(report: VideoReport) -> Seq<char> {
    "reference       : "@ + report.reference@ + "\n"@ + "distorted       : "@ + report.distorted@
        + "\n"@ + "size            : "@ + extent_text(report.dimensions) + "\n"@
        + "compared frames : "@ + decimal_text(report.compared_frames as nat) + "\n"@
        + "\nmean metrics\n"@ + metric_table(report.mean_metrics@)
}

/// Writes a video report.
pub fn render_video_text(report: &VideoReport) -> (text: String)
    ensures
        text@ == video_text(*report),
{
    let mut text = concat3("reference       : ", report.reference.as_str(), "\n");
    put_line(&mut text, "distorted       : ", report.distorted.as_str());
    put_line(&mut text, "size            : ", write_extent(report.dimensions).as_str());
    put_line(&mut text, "compared frames : ", decimal(report.compared_frames).as_str());
    text.append("\nmean metrics\n");
    text.append(render_metrics(&report.mean_metrics).as_str());
    text
}

/// A count together with its texts as a number.
#[derive(Debug)]
pub struct CountText {
    /// The count.
    pub count: u64,
    /// The count as a number.
    pub number: NumberText,
}

/// Diagnostics of timestamp alignment. The scale has twelve decimals, the offset
/// twelve and its sign, and the residuals nine.
#[derive(Debug)]
pub struct AlignmentReport {
    /// Planned pairs.
    pub planned_pairs: CountText,
    /// Reference frames without a partner.
    pub unmatched_reference: CountText,
    /// Distorted frames without a partner.
    pub unmatched_distorted: CountText,
    /// Scale of the timeline.
    pub scale: NumberText,
    /// Offset of the timeline.
    pub offset_seconds: NumberText,
    /// Mean signed residual.
    pub mean_signed: Option<NumberText>,
    /// Mean absolute residual.
    pub mean_absolute: Option<NumberText>,
    /// Root mean square residual.
    pub rms: Option<NumberText>,
    /// Largest residual.
    pub maximum: Option<NumberText>,
}

/// Report of a timestamp-aligned video comparison.
#[derive(Debug)]
pub struct TimestampVideoComparison {
    /// The comparison.
    pub video: VideoReport,
    /// The alignment.
    pub alignment: AlignmentReport,
}

/// A number of seconds, or a placeholder.
pub open spec fn seconds_text(value: Option<NumberText>) -> Seq<char> {
    match value {
        Some(number) => number.fixed@ + "s"@,
        None => "n/a"@,
    }
}

/// Writes a number of seconds, or a placeholder.
pub fn format_optional_seconds(value: &Option<NumberText>) -> (text: String)
    ensures
        text@ == seconds_text(*value),
{
    match value {
        Some(number) => concat2(number.fixed.as_str(), "s"),
        None => String::from_str("n/a"),
    }
}

/// Text of a timestamp-aligned comparison.
pub open spec fn timestamp_text(report: TimestampVideoComparison) -> Seq<char> {
    let alignment = report.alignment;
    video_text(report.video) + "\ntimestamp alignment\n"@ + "planned pairs         : "@
        + decimal_text(alignment.planned_pairs.count as nat) + "\n"@ + "unmatched reference   : "@
        + decimal_text(alignment.unmatched_reference.count as nat) + "\n"@ + "unmatched distorted   : "@
        + decimal_text(alignment.unmatched_distorted.count as nat) + "\n"@
        + "timeline transform    : distorted * "@ + alignment.scale.fixed@ + " "@
        + alignment.offset_seconds.fixed@ + "s\n"@ + "mean signed residual  : "@ + seconds_text(
        alignment.mean_signed,
    ) + "\n"@ + "mean absolute residual: "@ + seconds_text(alignment.mean_absolute) + "\n"@
        + "RMS residual          : "@ + seconds_text(alignment.rms) + "\n"@
        + "maximum residual      : "@ + seconds_text(alignment.maximum) + "\n"@
}

/// Writes a timestamp-aligned comparison.
pub fn render_timestamp_video_text(report: &TimestampVideoComparison) -> (text: String)
    ensures
        text@ == timestamp_text(*report),
{
    let alignment = &report.alignment;
    let mut text = render_video_text(&report.video);
    text.append("\ntimestamp alignment\n");
    put_line(&mut text, "planned pairs         : ", decimal(alignment.planned_pairs.count).as_str());
    put_line(
        &mut text,
        "unmatched reference   : ",
        decimal(alignment.unmatched_reference.count).as_str(),
    );
    put_line(
        &mut text,
        "unmatched distorted   : ",
        decimal(alignment.unmatched_distorted.count).as_str(),
    );
    text.append("timeline transform    : distorted * ");
    text.append(alignment.scale.fixed.as_str());
    text.append(" ");
    text.append(alignment.offset_seconds.fixed.as_str());
    text.append("s\n");
    put_line(
        &mut text,
        "mean signed residual  : ",
        format_optional_seconds(&alignment.mean_signed).as_str(),
    );
    put_line(
        &mut text,
        "mean absolute residual: ",
        format_optional_seconds(&alignment.mean_absolute).as_str(),
    );
    put_line(
        &mut text,
        "RMS residual          : ",
        format_optional_seconds(&alignment.rms).as_str(),
    );
    put_line(
        &mut text,
        "maximum residual      : ",
        format_optional_seconds(&alignment.maximum).as_str(),
    );
    text
}

/// Report of compared frame pairs.
#[derive(Debug)]
pub struct VideoFramePairComparisonReport {
    /// Label of the reference.
    pub reference: String,
    /// Label of the distorted video.
    pub distorted: String,
    /// Frame size.
    pub dimensions: Dimensions,
    /// Results of each pair.
    pub pairs: Vec<FramePairReport>,
    /// Mean results.
    pub mean_metrics: Vec<MetricEntry>,
}

/// Lines of one pair.
pub open spec fn pair_lines(pair: FramePairReport) -> Seq<char> {
    let head = "\npair "@ + decimal_text(pair.pair_index as nat) + ": ref="@ + decimal_text(
        pair.reference_frame_index as nat,
    ) + " distorted="@ + decimal_text(pair.distorted_frame_index as nat);
    let labelled = match pair.label_frame_index {
        Some(label) => head + " label="@ + decimal_text(label as nat),
        None => head,
    };
    labelled + "\n"@ + metric_table(pair.metrics@)
}

/// Lines of the first `count` pairs.
pub open spec fn pairs_text(pairs: Seq<FramePairReport>, count: int) -> Seq<char>
    decreases count,
{
    if count <= 0 {
        Seq::empty()
    } else {
        pairs_text(pairs, count - 1) + pair_lines(pairs[count - 1])
    }
}

fn write_pair(pair: &FramePairReport) -> (text: String)
    ensures
        text@ == pair_lines(*pair),
{
    let mut text = concat2("\npair ", decimal(pair.pair_index).as_str());
    text.append(": ref=");
    text.append(decimal(pair.reference_frame_index).as_str());
    text.append(" distorted=");
    text.append(decimal(pair.distorted_frame_index).as_str());
    if let Some(label) = pair.label_frame_index {
        text.append(" label=");
        text.append(decimal(label).as_str());
    }
    text.append("\n");
    text.append(render_metrics(&pair.metrics).as_str());
    text
}

/// Text of compared frame pairs.
pub open spec fn video_pair_text(report: VideoFramePairComparisonReport) -> Seq<char> {
    "reference       : "@ + report.reference@ + "\n"@ + "distorted       : "@ + report.distorted@
        + "\n"@ + "size            : "@ + extent_text(report.dimensions) + "\n"@
        + "compared pairs  : "@ + decimal_text(report.pairs@.len()) + "\n"@ + pairs_text(
        report.pairs@,
        report.pairs@.len() as int,
    ) + "\nmean metrics\n"@ + metric_table(report.mean_metrics@)
}

/// Writes compared frame pairs.
pub fn render_video_pair_text(report: &VideoFramePairComparisonReport) -> (text: String)
    ensures
        text@ == video_pair_text(*report),
{
    let count: usize = report.pairs.len();
    let mut pairs = String::new();
    let mut i: usize = 0;
    assert(pairs@ =~= Seq::<char>::empty());
    while i < count
        invariant
            i <= count,
            count == report.pairs@.len(),
            pairs@ == pairs_text(report.pairs@, i as int),
        decreases count - i,
    {
        pairs.append(write_pair(&report.pairs[i]).as_str());
        i += 1;
    }
    let mut text = concat3("reference       : ", report.reference.as_str(), "\n");
    put_line(&mut text, "distorted       : ", report.distorted.as_str());
    put_line(&mut text, "size            : ", write_extent(report.dimensions).as_str());
    put_line(&mut text, "compared pairs  : ", decimal(count as u64).as_str());
    text.append(pairs.as_str());
    text.append("\nmean metrics\n");
    text.append(render_metrics(&report.mean_metrics).as_str());
    text
}

/// Report of a probed video. The frame rate has six decimals, the duration three.
#[derive(Debug)]
pub struct ProbeReport {
    /// Label of the video.
    pub input: String,
    /// Width in pixels.
    pub width: u32,
    /// Height in pixels.
    pub height: u32,
    /// Mean frame rate.
    pub avg_frame_rate: Option<NumberText>,
    /// Number of frames.
    pub nb_frames: Option<u64>,
    /// Codec.
    pub codec_name: Option<String>,
    /// Duration in seconds.
    pub duration_seconds: Option<NumberText>,
}

/// Text of a probed video.
pub open spec fn probe_text(report: ProbeReport) -> Seq<char> {
    "file      : "@ + report.input@ + "\n"@ + "size      : "@ + extent_text(
        Dimensions { width: report.width, height: report.height },
    ) + "\n"@ + "codec     : "@ + text_or(report.codec_name, "unknown"@) + "\n"@ + "fps       : "@ + (
    match report.avg_frame_rate {
        Some(rate) => rate.fixed@,
        None => "unknown"@,
    }) + "\n"@ + "frames    : "@ + (match report.nb_frames {
        Some(count) => decimal_text(count as nat),
        None => "unknown"@,
    }) + "\n"@ + "duration  : "@ + (match report.duration_seconds {
        Some(seconds) => seconds.fixed@ + "s"@,
        None => "unknown"@,
    }) + "\n"@
}

/// Writes a probed video.
pub fn render_probe_text(report: &ProbeReport) -> (text: String)
    ensures
        text@ == probe_text(*report),
{
    let rate = match &report.avg_frame_rate {
        Some(rate) => rate.fixed.clone(),
        None => String::from_str("unknown"),
    };
    let frames = match report.nb_frames {
        Some(count) => decimal(count),
        None => String::from_str("unknown"),
    };
    let duration = match &report.duration_seconds {
        Some(seconds) => concat2(seconds.fixed.as_str(), "s"),
        None => String::from_str("unknown"),
    };
    let size = Dimensions { width: report.width, height: report.height };
    let mut text = concat3("file      : ", report.input.as_str(), "\n");
    put_line(&mut text, "size      : ", write_extent(size).as_str());
    put_line(&mut text, "codec     : ", text_or_default(&report.codec_name, "unknown"));
    put_line(&mut text, "fps       : ", rate.as_str());
    put_line(&mut text, "frames    : ", frames.as_str());
    put_line(&mut text, "duration  : ", duration.as_str());
    text
}

/// Writes the list of image formats.
pub fn render_formats_text(formats: &Vec<String>) -> (text: String)
    ensures
        text@ == "image crate adapter format hint:\n"@ + listed(
            "- "@,
            formats@,
            formats@.len() as int,
        ),
{
    concat2("image crate adapter format hint:\n", write_list("- ", formats).as_str())
}

/// Digits of a number to the base sixteen.
pub open spec fn hex_text(value: nat) -> Seq<char>
    decreases value,
{
    if value < 16 {
        seq![hex_digit(value)]
    } else {
        hex_text(value / 16).push(hex_digit(value % 16))
    }
}

/// Hexadecimal digit.
pub open spec fn hex_digit(value: nat) -> char {
    if value < 10 {
        (48 + value) as char
    } else {
        (87 + value) as char
    }
}

fn hex(value: u32) -> (text: String)
    ensures
        text@ == hex_text(value as nat),
    decreases value,
{
    let digit: u8 = (value % 16) as u8;
    let c: char = if digit < 10 {
        (48 + digit) as char
    } else {
        (87 + digit) as char
    };
    if value < 16 {
        let mut text = String::new();
        text.push(c);
        assert(text@ =~= seq![hex_digit(value as nat)]);
        text
    } else {
        let mut text = hex(value / 16);
        text.push(c);
        text
    }
}

/// An identifier with at least four hexadecimal digits.
pub open spec fn id_text(value: u32) -> Seq<char> {
    "0x"@ + padded_left(hex_text(value as nat), 4, '0')
}

fn write_id(value: u32) -> (text: String)
    ensures
        text@ == id_text(value),
{
    concat2("0x", pad_left(hex(value).as_str(), 4, '0').as_str())
}

/// Word for a truth value.
pub open spec fn bool_text(value: bool) -> Seq<char> {
    if value {
        "true"@
    } else {
        "false"@
    }
}

/// Writes a truth value.
pub fn bool_word(value: bool) -> (text: &'static str)
    ensures
        text@ == bool_text(value),
{
    if value {
        "true"
    } else {
        "false"
    }
}

/// Text of GPU capabilities.
pub open spec fn capabilities_text(capabilities: GpuCapabilities) -> Seq<char> {
    "adapter                  : "@ + capabilities.adapter_name@ + "\n"@
        + "backend                  : "@ + capabilities.backend@ + "\n"@
        + "device type              : "@ + capabilities.device_type@ + "\n"@
        + "driver                   : "@ + capabilities.driver@ + "\n"@
        + "driver info              : "@ + capabilities.driver_info@ + "\n"@
        + "vendor/device            : "@ + id_text(capabilities.vendor_id) + "/"@ + id_text(
        capabilities.device_id,
    ) + "\n"@ + "fallback adapter         : "@ + bool_text(capabilities.fallback_adapter) + "\n"@
        + "max buffer bytes         : "@ + decimal_text(capabilities.max_buffer_size as nat) + "\n"@
        + "max storage binding      : "@ + decimal_text(
        capabilities.max_storage_buffer_binding_size as nat,
    ) + "\n"@ + "max workgroups/dimension : "@ + decimal_text(
        capabilities.max_compute_workgroups_per_dimension as nat,
    ) + "\n"@ + "max rgba8 input pixels   : "@ + decimal_text(
        capabilities.max_rgba8_input_pixels as nat,
    ) + "\n"@ + "max error pixels         : "@ + decimal_text(
        capabilities.max_error_stats_pixels as nat,
    ) + "\n"@ + "max wssim windows        : "@ + decimal_text(
        capabilities.max_windowed_ssim_windows as nat,
    ) + "\n"@
}

/// Writes GPU capabilities.
pub fn render_gpu_capabilities(capabilities: &GpuCapabilities) -> (text: String)
    ensures
        text@ == capabilities_text(*capabilities),
{
    let mut text = concat3(
        "adapter                  : ",
        capabilities.adapter_name.as_str(),
        "\n",
    );
    put_line(&mut text, "backend                  : ", capabilities.backend.as_str());
    put_line(&mut text, "device type              : ", capabilities.device_type.as_str());
    put_line(&mut text, "driver                   : ", capabilities.driver.as_str());
    put_line(&mut text, "driver info              : ", capabilities.driver_info.as_str());
    text.append("vendor/device            : ");
    text.append(write_id(capabilities.vendor_id).as_str());
    text.append("/");
    text.append(write_id(capabilities.device_id).as_str());
    text.append("\n");
    put_line(
        &mut text,
        "fallback adapter         : ",
        bool_word(capabilities.fallback_adapter),
    );
    put_line(
        &mut text,
        "max buffer bytes         : ",
        decimal(capabilities.max_buffer_size).as_str(),
    );
    put_line(
        &mut text,
        "max storage binding      : ",
        decimal(capabilities.max_storage_buffer_binding_size).as_str(),
    );
    put_line(
        &mut text,
        "max workgroups/dimension : ",
        decimal(capabilities.max_compute_workgroups_per_dimension as u64).as_str(),
    );
    put_line(
        &mut text,
        "max rgba8 input pixels   : ",
        decimal(capabilities.max_rgba8_input_pixels).as_str(),
    );
    put_line(
        &mut text,
        "max error pixels         : ",
        decimal(capabilities.max_error_stats_pixels).as_str(),
    );
    put_line(
        &mut text,
        "max wssim windows        : ",
        decimal(capabilities.max_windowed_ssim_windows).as_str(),
    );
    text
}

/// One finished GPU comparison with its provenance.
#[derive(Debug)]
pub struct GpuRun {
    /// Backend that produced the results.
    pub execution: GpuExecution,
    /// Why the CPU was used.
    pub fallback_reason: Option<String>,
    /// Results.
    pub metrics: Vec<MetricEntry>,
}

/// Results of one candidate.
#[derive(Debug)]
pub struct GpuCliComparison {
    /// Label of the candidate.
    pub candidate: String,
    /// Error metrics, if they were asked for.
    pub error_result: Option<GpuRun>,
    /// Windowed SSIM, if it was asked for.
    pub wssim_result: Option<GpuRun>,
}

/// Report of a GPU comparison.
#[derive(Debug)]
pub struct GpuCliReport {
    /// Capabilities of the adapter.
    pub capabilities: Option<GpuCapabilities>,
    /// Why there is no adapter.
    pub initialization_error: Option<String>,
    /// Label of the reference.
    pub reference: String,
    /// Results of each candidate.
    pub comparisons: Vec<GpuCliComparison>,
}

/// Name of a backend.
pub open spec fn execution_text(execution: GpuExecution) -> Seq<char> {
    match execution {
        GpuExecution::Gpu => "Gpu"@,
        GpuExecution::CpuFallback => "CpuFallback"@,
    }
}

/// Writes the name of a backend.
pub fn execution_name(execution: GpuExecution) -> (text: &'static str)
    ensures
        text@ == execution_text(execution),
{
    match execution {
        GpuExecution::Gpu => "Gpu",
        GpuExecution::CpuFallback => "CpuFallback",
    }
}

/// Lines of one GPU run.
pub open spec fn run_lines(run: GpuRun, execution_label: Seq<char>, reason_label: Seq<char>) -> Seq<
    char,
> {
    let head = execution_label + execution_text(run.execution) + "\n"@;
    let explained = match run.fallback_reason {
        Some(reason) => head + reason_label + reason@ + "\n"@,
        None => head,
    };
    explained + metric_table(run.metrics@)
}

fn write_run(run: &GpuRun, execution_label: &str, reason_label: &str) -> (text: String)
    ensures
        text@ == run_lines(*run, execution_label@, reason_label@),
{
    let mut text = concat3(execution_label, execution_name(run.execution), "\n");
    if let Some(reason) = &run.fallback_reason {
        put_line(&mut text, reason_label, reason.as_str());
    }
    text.append(render_metrics(&run.metrics).as_str());
    text
}

/// Lines of one candidate.
pub open spec fn gpu_candidate_lines(comparison: GpuCliComparison) -> Seq<char> {
    let head = "\ncandidate                : "@ + comparison.candidate@ + "\n"@;
    let errors = match comparison.error_result {
        Some(run) => head + run_lines(
            run,
            "error execution          : "@,
            "error fallback reason    : "@,
        ),
        None => head,
    };
    match comparison.wssim_result {
        Some(run) => errors + run_lines(
            run,
            "wssim execution          : "@,
            "wssim fallback reason    : "@,
        ),
        None => errors,
    }
}

fn write_gpu_candidate(comparison: &GpuCliComparison) -> (text: String)
    ensures
        text@ == gpu_candidate_lines(*comparison),
{
    let mut text = concat3(
        "\ncandidate                : ",
        comparison.candidate.as_str(),
        "\n",
    );
    if let Some(run) = &comparison.error_result {
        text.append(
            write_run(
                run,
                "error execution          : ",
                "error fallback reason    : ",
            ).as_str(),
        );
    }
    if let Some(run) = &comparison.wssim_result {
        text.append(
            write_run(
                run,
                "wssim execution          : ",
                "wssim fallback reason    : ",
            ).as_str(),
        );
    }
    text
}

/// Lines of the first `count` candidates.
pub open spec fn gpu_candidates(comparisons: Seq<GpuCliComparison>, count: int) -> Seq<char>
    decreases count,
{
    if count <= 0 {
        Seq::empty()
    } else {
        gpu_candidates(comparisons, count - 1) + gpu_candidate_lines(comparisons[count - 1])
    }
}

/// Text of a GPU comparison.
pub open spec fn gpu_text(report: GpuCliReport) -> Seq<char> {
    let head = match report.capabilities {
        Some(capabilities) => capabilities_text(capabilities),
        None => match report.initialization_error {
            Some(error) => "GPU unavailable          : "@ + error@ + "\n"@,
            None => Seq::empty(),
        },
    };
    head + "reference                : "@ + report.reference@ + "\n"@ + gpu_candidates(
        report.comparisons@,
        report.comparisons@.len() as int,
    )
}

/// Writes a GPU comparison.
pub fn render_gpu_report(report: &GpuCliReport) -> (text: String)
    ensures
        text@ == gpu_text(*report),
{
    let mut lines = String::new();
    let mut i: usize = 0;
    assert(lines@ =~= Seq::<char>::empty());
    while i < report.comparisons.len()
        invariant
            i <= report.comparisons@.len(),
            lines@ == gpu_candidates(report.comparisons@, i as int),
        decreases report.comparisons@.len() - i,
    {
        lines.append(write_gpu_candidate(&report.comparisons[i]).as_str());
        i += 1;
    }
    let mut text = match &report.capabilities {
        Some(capabilities) => render_gpu_capabilities(capabilities),
        None => match &report.initialization_error {
            Some(error) => concat3("GPU unavailable          : ", error.as_str(), "\n"),
            None => String::new(),
        },
    };
    assert(report.capabilities is None && report.initialization_error is None ==> text@
        =~= Seq::<char>::empty());
    put_line(&mut text, "reference                : ", report.reference.as_str());
    text.append(lines.as_str());
    text
}

/// Every metric has its line in a table, behind the lines before it, and no other line is
/// there.
pub proof fn law_every_metric_is_printed(metrics: Seq<MetricEntry>, count: int, i: int) -> (at: int)
    requires
        0 <= i < count <= metrics.len(),
    ensures
        ({
            let text = metric_lines(metrics, count);
            let own = metric_line(metrics[i]);
            &&& 0 <= at && at + own.len() <= text.len()
            &&& text.subrange(at, at + own.len()) == own
        }),
        metric_lines(metrics, count).len() == metric_lines(metrics, count - 1).len() + metric_line(metrics[count - 1]).len(),
        metric_lines(metrics, 0).len() == 0,
    decreases count,
{
    let before = metric_lines(metrics, count - 1);
    let own = metric_line(metrics[i]);
    let text = metric_lines(metrics, count);
    if i == count - 1 {
        let at = before.len() as int;
        assert(text.subrange(at, at + own.len()) =~= own);
        at
    } else {
        let at = law_every_metric_is_printed(metrics, count - 1, i);
        assert(text.subrange(at, at + own.len()) =~= before.subrange(at, at + own.len()));
        at
    }
}

/// Every item of a list has its line, with the mark before it.
pub proof fn law_every_item_is_listed(mark: Seq<char>, items: Seq<String>, count: int, i: int) -> (at: int)
    requires
        0 <= i < count <= items.len(),
    ensures
        ({
            let text = listed(mark, items, count);
            let own = (mark + items[i]@ + "\n"@);
            &&& 0 <= at && at + own.len() <= text.len()
            &&& text.subrange(at, at + own.len()) == own
        }),
        listed(mark, items, count).len() == listed(mark, items, count - 1).len() + (mark + items[count - 1]@ + "\n"@).len(),
        listed(mark, items, 0).len() == 0,
    decreases count,
{
    let before = listed(mark, items, count - 1);
    let own = (mark + items[i]@ + "\n"@);
    let text = listed(mark, items, count);
    if i == count - 1 {
        let at = before.len() as int;
        assert(text.subrange(at, at + own.len()) =~= own);
        at
    } else {
        let at = law_every_item_is_listed(mark, items, count - 1, i);
        assert(text.subrange(at, at + own.len()) =~= before.subrange(at, at + own.len()));
        at
    }
}

/// Every frame pair is printed, behind the pairs before it.
pub proof fn law_every_pair_is_printed(pairs: Seq<FramePairReport>, count: int, i: int) -> (at: int)
    requires
        0 <= i < count <= pairs.len(),
    ensures
        ({
            let text = pairs_text(pairs, count);
            let own = pair_lines(pairs[i]);
            &&& 0 <= at && at + own.len() <= text.len()
            &&& text.subrange(at, at + own.len()) == own
        }),
        pairs_text(pairs, count).len() == pairs_text(pairs, count - 1).len() + pair_lines(pairs[count - 1]).len(),
        pairs_text(pairs, 0).len() == 0,
    decreases count,
{
    let before = pairs_text(pairs, count - 1);
    let own = pair_lines(pairs[i]);
    let text = pairs_text(pairs, count);
    if i == count - 1 {
        let at = before.len() as int;
        assert(text.subrange(at, at + own.len()) =~= own);
        at
    } else {
        let at = law_every_pair_is_printed(pairs, count - 1, i);
        assert(text.subrange(at, at + own.len()) =~= before.subrange(at, at + own.len()));
        at
    }
}

/// Every candidate of a GPU comparison is printed, behind the candidates before it.
pub proof fn law_every_gpu_candidate_is_printed(comparisons: Seq<GpuCliComparison>, count: int, i: int) -> (at: int)
    requires
        0 <= i < count <= comparisons.len(),
    ensures
        ({
            let text = gpu_candidates(comparisons, count);
            let own = gpu_candidate_lines(comparisons[i]);
            &&& 0 <= at && at + own.len() <= text.len()
            &&& text.subrange(at, at + own.len()) == own
        }),
        gpu_candidates(comparisons, count).len() == gpu_candidates(comparisons, count - 1).len() + gpu_candidate_lines(comparisons[count - 1]).len(),
        gpu_candidates(comparisons, 0).len() == 0,
    decreases count,
{
    let before = gpu_candidates(comparisons, count - 1);
    let own = gpu_candidate_lines(comparisons[i]);
    let text = gpu_candidates(comparisons, count);
    if i == count - 1 {
        let at = before.len() as int;
        assert(text.subrange(at, at + own.len()) =~= own);
        at
    } else {
        let at = law_every_gpu_candidate_is_printed(comparisons, count - 1, i);
        assert(text.subrange(at, at + own.len()) =~= before.subrange(at, at + own.len()));
        at
    }
}

/// A line of a metric table holds name, score, unit, and direction, each in columns of its
/// own: 32, 16, and 20 characters, or more where a text is longer. Nothing is cut.
pub proof fn law_metric_lines_have_columns(metric: MetricEntry)
    ensures
        ({
            let line = metric_line(metric);
            let name = metric.output.name@;
            let score = metric.fixed@;
            let unit = metric.output.unit@;
            let wide = |text: Seq<char>, width: int|
                if text.len() > width {
                    text.len() as int
                } else {
                    width
                };
            let first = wide(name, 32);
            let second = first + 1 + wide(score, 16);
            let third = second + 2 + wide(unit, 20);
            &&& line.len() == third + 2 + direction_text(metric.output.direction).len() + 1
            &&& line.subrange(0, name.len() as int) == name
            &&& line.subrange(second - score.len(), second) == score
            &&& line.subrange(second + 2, second + 2 + unit.len()) == unit
            &&& line.skip(third + 2) == direction_text(metric.output.direction).push('\n')
            &&& forall|i: int|
                name.len() <= i < second - score.len() || second <= i < second + 2 || second + 2
                    + unit.len() <= i < third + 2 ==> #[trigger] line[i] == ' '
        }),
{
    reveal_strlit(" ");
    reveal_strlit("  ");
    reveal_strlit("\n");
    let line = metric_line(metric);
    let own_name = metric.output.name@;
    let own_score = metric.fixed@;
    let own_unit = metric.output.unit@;
    let name = padded_right(own_name, 32, ' ');
    let score = padded_left(own_score, 16, ' ');
    let unit = padded_right(own_unit, 20, ' ');
    let end = direction_text(metric.output.direction);
    law_padding_fills_to_width(own_name, 32, ' ');
    law_padding_fills_to_width(own_score, 16, ' ');
    law_padding_fills_to_width(own_unit, 20, ' ');
    let first = name.len() as int;
    let second = first + 1 + score.len();
    let third = second + 2 + unit.len();
    assert(line.subrange(0, first) =~= name);
    assert(line.subrange(first + 1, second) =~= score);
    assert(line.subrange(second + 2, third) =~= unit);
    assert(line.skip(third + 2) =~= end.push('\n'));
    assert(line.subrange(0, own_name.len() as int) =~= name.take(own_name.len() as int));
    assert(line.subrange(second - own_score.len(), second) =~= score.skip(
        score.len() - own_score.len(),
    ));
    assert(line.subrange(second + 2, second + 2 + own_unit.len()) =~= unit.take(
        own_unit.len() as int,
    ));
    assert forall|i: int|
        own_name.len() <= i < second - own_score.len() || second <= i < second + 2 || second + 2
            + own_unit.len() <= i < third + 2 implies #[trigger] line[i] == ' ' by {
        if i < first {
            assert(line[i] == name[i]);
        } else if first + 1 <= i < second {
            assert(line[i] == score[i - first - 1]);
        } else if second + 2 <= i < third {
            assert(line[i] == unit[i - second - 2]);
        }
    }
}

/// A comparison is printed with its table, and with the lines on alpha and on the quality
/// gate exactly when there are such results.
pub proof fn law_comparisons_print_what_they_have(report: ComparisonReport)
    ensures
        ({
            let text = comparison_text(report);
            let table = metric_table(report.metrics@);
            let alpha = match report.alpha {
                Some(alpha) => alpha_line(alpha),
                None => Seq::empty(),
            };
            let gate = match report.gate {
                Some(gate) => gate_lines(gate),
                None => Seq::empty(),
            };
            let tail = table + alpha + gate;
            &&& text.len() >= tail.len()
            &&& text.skip(text.len() - tail.len()) == tail
        }),
{
    let text = comparison_text(report);
    let table = metric_table(report.metrics@);
    let alpha = match report.alpha {
        Some(alpha) => alpha_line(alpha),
        None => Seq::empty(),
    };
    let gate = match report.gate {
        Some(gate) => gate_lines(gate),
        None => Seq::empty(),
    };
    let tail = table + alpha + gate;
    let head = "reference : "@ + text_or(report.reference, "<none>"@) + "\n"@ + "distorted : "@
        + text_or(report.distorted, "<none>"@) + "\n"@ + "size      : "@ + extent_text(
        report.dimensions,
    ) + "\n"@;
    assert(text =~= head + tail);
    assert(text.skip(text.len() - tail.len()) =~= tail);
}

/// Hexadecimal numbers are written digit by digit, with the letters `a` to `f` for ten to
/// fifteen.
pub proof fn law_hexadecimal_digits(value: nat, digit: nat)
    requires
        digit < 16,
    ensures
        hex_text(digit) == seq![
            if digit < 10 {
                (0x30 + digit) as char
            } else {
                (0x61 + (digit - 10)) as char
            },
        ],
        value > 0 ==> hex_text(16 * value + digit) == hex_text(value) + hex_text(digit),
{
    if value > 0 {
        assert(hex_text(value).push(hex_digit(digit)) =~= hex_text(value) + seq![hex_digit(digit)]);
    }
}

/// A GPU report names every run it has: its execution, and the reason of a fallback where
/// there is one, before its metrics.
pub proof fn law_runs_are_explained(
    run: GpuRun,
    execution_label: Seq<char>,
    reason_label: Seq<char>,
)
    ensures
        ({
            let text = run_lines(run, execution_label, reason_label);
            let table = metric_table(run.metrics@);
            let head = execution_label + (match run.execution {
                GpuExecution::Gpu => "Gpu"@,
                GpuExecution::CpuFallback => "CpuFallback"@,
            }) + "\n"@;
            &&& text.take(head.len() as int) == head
            &&& text.skip(text.len() - table.len()) == table
            &&& run.fallback_reason is None ==> text.len() == head.len() + table.len()
            &&& run.fallback_reason matches Some(reason) ==> text.subrange(
                head.len() as int,
                text.len() - table.len(),
            ) == reason_label + reason@ + "\n"@
        }),
{
    let text = run_lines(run, execution_label, reason_label);
    let table = metric_table(run.metrics@);
    let head = execution_label + (match run.execution {
        GpuExecution::Gpu => "Gpu"@,
        GpuExecution::CpuFallback => "CpuFallback"@,
    }) + "\n"@;
    assert(text.take(head.len() as int) =~= head);
    assert(text.skip(text.len() - table.len()) =~= table);
    if let Some(reason) = run.fallback_reason {
        assert(text.subrange(head.len() as int, text.len() - table.len()) =~= reason_label
            + reason@ + "\n"@);
    }
}

/// Identifiers are hexadecimal numbers of four digits at least.
pub proof fn law_identifiers_have_four_digits(value: u32)
    ensures
        id_text(value).len() >= 6,
        id_text(value).take(2) == seq!['0', 'x'],
        hex_text(value as nat).len() >= 4 ==> id_text(value).skip(2) == hex_text(value as nat),
        hex_text(value as nat).len() < 4 ==> id_text(value).len() == 6 && id_text(value).skip(
            6 - hex_text(value as nat).len(),
        ) == hex_text(value as nat),
{
    reveal_strlit("0x");
    let digits = hex_text(value as nat);
    let padded = padded_left(digits, 4, '0');
    law_padding_fills_to_width(digits, 4, '0');
    assert(id_text(value).take(2) =~= seq!['0', 'x']);
    assert(id_text(value).skip(2) =~= padded);
    if digits.len() >= 4 {
        assert(padded =~= padded.skip(0));
    } else {
        assert(id_text(value).skip(6 - digits.len()) =~= padded.skip(4 - digits.len()));
    }
}

/// Reports on videos end with the table of their means, a frame pair with the table of its
/// own metrics, and the pairs stand before the means.
pub proof fn law_reports_end_with_their_tables(
    video: VideoReport,
    pair: FramePairReport,
    pairs: VideoFramePairComparisonReport,
)
    ensures
        ({
            let text = video_text(video);
            let table = metric_table(video.mean_metrics@);
            &&& text.len() >= table.len()
            &&& text.skip(text.len() - table.len()) == table
        }),
        ({
            let text = pair_lines(pair);
            let table = metric_table(pair.metrics@);
            &&& text.len() >= table.len()
            &&& text.skip(text.len() - table.len()) == table
        }),
        ({
            let text = video_pair_text(pairs);
            let tail = pairs_text(pairs.pairs@, pairs.pairs@.len() as int) + "\nmean metrics\n"@
                + metric_table(pairs.mean_metrics@);
            &&& text.len() >= tail.len()
            &&& text.skip(text.len() - tail.len()) == tail
        }),
{
    let text = video_text(video);
    let table = metric_table(video.mean_metrics@);
    assert(text.skip(text.len() - table.len()) =~= table);
    let lines = pair_lines(pair);
    let own = metric_table(pair.metrics@);
    assert(lines.skip(lines.len() - own.len()) =~= own);
    let all = video_pair_text(pairs);
    let tail = pairs_text(pairs.pairs@, pairs.pairs@.len() as int) + "\nmean metrics\n"@
        + metric_table(pairs.mean_metrics@);
    let head = "reference       : "@ + pairs.reference@ + "\n"@ + "distorted       : "@
        + pairs.distorted@ + "\n"@ + "size            : "@ + extent_text(pairs.dimensions) + "\n"@
        + "compared pairs  : "@ + decimal_text(pairs.pairs@.len()) + "\n"@;
    assert(all =~= head + tail);
    assert(all.skip(all.len() - tail.len()) =~= tail);
}

/// A GPU report ends with its candidates.
pub proof fn law_gpu_reports_end_with_their_candidates(report: GpuCliReport)
    ensures
        ({
            let text = gpu_text(report);
            let tail = gpu_candidates(report.comparisons@, report.comparisons@.len() as int);
            &&& text.len() >= tail.len()
            &&& text.skip(text.len() - tail.len()) == tail
        }),
{
    let text = gpu_text(report);
    let tail = gpu_candidates(report.comparisons@, report.comparisons@.len() as int);
    assert(text.skip(text.len() - tail.len()) =~= tail);
}

} // verus!
