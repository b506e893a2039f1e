//! Options, frame pairs, and mean metrics of video comparisons.

use crate::cli::report::MetricEntry;
use crate::cli::CliResult;
use crate::frame::{describe_size, size_text, Dimensions};
use crate::metrics::{law_scores_follow_their_bits, Comparison, Direction, MetricOutput, Score};
use crate::strings::{comes_before, lemma_precedes_total, lemma_precedes_transitive, precedes};
use crate::text::{concat2, concat4, same_text};
use vstd::prelude::*;

verus! {

/// Frames that are compared with each other.
#[derive(Debug, Clone, Copy, PartialEq, Eq, Structural)]
pub struct VideoFramePair {
    /// Frame of the reference.
    pub reference: u64,
    /// Frame of the distorted video.
    pub distorted: u64,
    /// Frame shown as the label of the pair.
    pub label_frame_index: Option<u64>,
}

impl VideoFramePair {
    /// A pair without a label.
    pub fn new(reference: u64, distorted: u64) -> (pair: Self)
        ensures
            pair == (VideoFramePair { reference, distorted, label_frame_index: None }),
    {
        Self { reference, distorted, label_frame_index: None }
    }
}

/// Takes the requested frame pairs. A single frame is compared with itself and
/// goes before a list; `parsed` is what the list reads as, if one is given.
pub fn selected_video_frame_pairs(
    video_frame: Option<u64>,
    parsed: Option<CliResult<Vec<VideoFramePair>>>,
) -> (result: CliResult<Option<Vec<VideoFramePair>>>)
    ensures
        match video_frame {
            Some(frame) => {
                &&& result matches Ok(Some(pairs))
                &&& pairs@ == seq![
                    VideoFramePair { reference: frame, distorted: frame, label_frame_index: None },
                ]
            },
            None => result == match parsed {
                None => Ok::<Option<Vec<VideoFramePair>>, String>(None),
                Some(Ok(pairs)) => Ok(Some(pairs)),
                Some(Err(message)) => Err(message),
            },
        },
{
    if let Some(frame) = video_frame {
        return Ok(Some(vec![VideoFramePair::new(frame, frame)]));
    }
    match parsed {
        None => Ok(None),
        Some(Ok(pairs)) => Ok(Some(pairs)),
        Some(Err(message)) => Err(message),
    }
}

/// How frames of two videos are paired.
#[derive(Debug, Clone, Copy, PartialEq, Eq, Structural)]
pub enum VideoAlignmentArg {
    /// In decode order.
    Decode,
    /// By presentation timestamp.
    Timestamp,
}

/// Switches of timestamp alignment.
#[derive(Debug, Clone, Copy, PartialEq, Eq, Structural)]
pub struct TimestampArgs {
    /// Requested pairing.
    pub align: VideoAlignmentArg,
    /// Largest accepted residual in seconds.
    pub max_timestamp_delta: Option<Score>,
    /// One distorted frame may match several reference frames.
    pub allow_reuse_distorted: bool,
    /// Do not estimate offset and drift.
    pub no_estimate_timestamp_transform: bool,
    /// Scale of the distorted timeline.
    pub timestamp_scale: Option<Score>,
    /// Offset of the distorted timeline in seconds.
    pub timestamp_offset: Option<Score>,
}

impl TimestampArgs {
    /// Whether a switch beside the pairing is used.
    pub open spec fn refines(self) -> bool {
        ||| self.max_timestamp_delta is Some
        ||| self.allow_reuse_distorted
        ||| self.no_estimate_timestamp_transform
        ||| self.timestamp_scale is Some
        ||| self.timestamp_offset is Some
    }

    fn has_refinement(&self) -> (yes: bool)
        ensures
            yes == self.refines(),
    {
        self.max_timestamp_delta.is_some() || self.allow_reuse_distorted
            || self.no_estimate_timestamp_transform || self.timestamp_scale.is_some()
            || self.timestamp_offset.is_some()
    }
}

/// Tells whether any switch of timestamp alignment is used.
pub fn compare_uses_timestamp_options(args: &TimestampArgs) -> (yes: bool)
    ensures
        yes == (!(args.align is Decode) || args.refines()),
{
    args.align != VideoAlignmentArg::Decode || args.has_refinement()
}

/// A linear map of the distorted timeline.
#[derive(Debug, Clone, Copy, PartialEq, Eq, Structural)]
pub struct TimestampTransform {
    /// Factor.
    pub scale: Score,
    /// Offset in seconds.
    pub offset_seconds: Score,
}

/// Checked options of timestamp alignment.
#[derive(Debug, Clone, Copy, PartialEq, Eq, Structural)]
pub struct TimestampPlan {
    /// Largest accepted residual, if one is given.
    pub max_delta_seconds: Option<Score>,
    /// One distorted frame may match several reference frames.
    pub allow_reuse_distorted: bool,
    /// Explicit map of the timeline.
    pub transform: Option<TimestampTransform>,
    /// Estimate offset and drift.
    pub estimate_transform: bool,
}

/// The number one.
pub open spec fn unit_scale() -> Score {
    Score { bits: 0x3ff0_0000_0000_0000 }
}

/// The number zero.
pub open spec fn no_offset() -> Score {
    Score { bits: 0 }
}

/// Explicit map that the switches ask for; a missing half is neutral.
pub open spec fn asked_transform(args: TimestampArgs) -> Option<TimestampTransform> {
    if args.timestamp_scale is Some || args.timestamp_offset is Some {
        Some(
            TimestampTransform {
                scale: match args.timestamp_scale {
                    Some(scale) => scale,
                    None => unit_scale(),
                },
                offset_seconds: match args.timestamp_offset {
                    Some(offset) => offset,
                    None => no_offset(),
                },
            },
        )
    } else {
        None
    }
}

/// Why the switches do not go together, if they do not.
pub open spec fn alignment_fault(args: TimestampArgs) -> Option<Seq<char>> {
    if args.align is Decode {
        if args.refines() {
            Some("timestamp alignment options require `--align timestamp`"@)
        } else {
            None
        }
    } else if args.max_timestamp_delta matches Some(delta) && (!delta.finite() || delta.compared(
        no_offset(),
    ) is Less) {
        Some("--max-timestamp-delta must be finite and non-negative"@)
    } else if asked_transform(args) matches Some(transform) && (!transform.scale.finite()
        || !(transform.scale.compared(no_offset()) is Greater)) {
        Some("--timestamp-scale must be finite and greater than zero"@)
    } else if asked_transform(args) matches Some(transform)
        && !transform.offset_seconds.finite() {
        Some("--timestamp-offset must be finite"@)
    } else {
        None
    }
}

/// Alignment that the switches ask for; without timestamps there is none.
pub open spec fn alignment(args: TimestampArgs) -> Option<TimestampPlan> {
    if args.align is Decode {
        None
    } else {
        Some(
            TimestampPlan {
                max_delta_seconds: args.max_timestamp_delta,
                allow_reuse_distorted: args.allow_reuse_distorted,
                transform: asked_transform(args),
                estimate_transform: !args.no_estimate_timestamp_transform,
            },
        )
    }
}

/// Each switch decides its own part of a timestamp alignment: the residual and the two
/// permissions are taken over, and a map of the timeline is there as soon as one half of
/// it is given, with one or zero for the other half. Without timestamps there is no
/// alignment, and no switch for one is accepted.
pub proof fn law_switches_decide_the_alignment(args: TimestampArgs)
    ensures
        args.align is Decode ==> alignment(args) is None && (alignment_fault(args) is None <==> (
        args.max_timestamp_delta is None && args.timestamp_scale is None
            && args.timestamp_offset is None && !args.allow_reuse_distorted
            && !args.no_estimate_timestamp_transform)),
        args.align is Timestamp ==> (alignment(args) matches Some(plan) && {
            &&& plan.max_delta_seconds == args.max_timestamp_delta
            &&& plan.allow_reuse_distorted == args.allow_reuse_distorted
            &&& plan.estimate_transform != args.no_estimate_timestamp_transform
            &&& plan.transform is None <==> args.timestamp_scale is None
                && args.timestamp_offset is None
            &&& plan.transform matches Some(transform) ==> {
                &&& transform.scale.bits == match args.timestamp_scale {
                    Some(scale) => scale.bits,
                    None => 0x3ff0_0000_0000_0000,
                }
                &&& transform.offset_seconds.bits == match args.timestamp_offset {
                    Some(offset) => offset.bits,
                    None => 0,
                }
            }
        }),
        args.align is Timestamp ==> (alignment_fault(args) is None <==> {
            &&& args.max_timestamp_delta matches Some(delta) ==> delta.bits
                < 0x7ff0_0000_0000_0000 || delta.bits == 0x8000_0000_0000_0000
            &&& args.timestamp_scale matches Some(scale) ==> 0 < scale.bits
                < 0x7ff0_0000_0000_0000
            &&& args.timestamp_offset matches Some(offset) ==> offset.bits
                % 0x8000_0000_0000_0000 < 0x7ff0_0000_0000_0000
        }),
{
    if let Some(delta) = args.max_timestamp_delta {
        law_scores_follow_their_bits(delta, no_offset());
        law_scores_follow_their_bits(no_offset(), delta);
    }
    if let Some(scale) = args.timestamp_scale {
        law_scores_follow_their_bits(scale, no_offset());
        law_scores_follow_their_bits(no_offset(), scale);
    }
    law_scores_follow_their_bits(unit_scale(), no_offset());
    if let Some(offset) = args.timestamp_offset {
        law_scores_follow_their_bits(offset, no_offset());
    }
}

/// Checks the switches of timestamp alignment.
pub fn plan_alignment(args: &TimestampArgs) -> (result: CliResult<Option<TimestampPlan>>)
    ensures
        match result {
            Ok(plan) => alignment_fault(*args) is None && plan == alignment(*args),
            Err(message) => alignment_fault(*args) == Some(message@),
        },
{
    if args.align == VideoAlignmentArg::Decode {
        if args.has_refinement() {
            return Err(
                String::from_str("timestamp alignment options require `--align timestamp`"),
            );
        }
        return Ok(None);
    }
    if let Some(delta) = args.max_timestamp_delta {
        if !delta.is_finite() || delta.compare(Score::zero()) == Comparison::Less {
            return Err(
                String::from_str("--max-timestamp-delta must be finite and non-negative"),
            );
        }
    }
    let transform = if args.timestamp_scale.is_some() || args.timestamp_offset.is_some() {
        let scale = match args.timestamp_scale {
            Some(scale) => scale,
            None => Score::one(),
        };
        let offset_seconds = match args.timestamp_offset {
            Some(offset) => offset,
            None => Score::zero(),
        };
        if !scale.is_finite() || scale.compare(Score::zero()) != Comparison::Greater {
            return Err(
                String::from_str("--timestamp-scale must be finite and greater than zero"),
            );
        }
        if !offset_seconds.is_finite() {
            return Err(String::from_str("--timestamp-offset must be finite"));
        }
        Some(TimestampTransform { scale, offset_seconds })
    } else {
        None
    };
    Ok(
        Some(
            TimestampPlan {
                max_delta_seconds: args.max_timestamp_delta,
                allow_reuse_distorted: args.allow_reuse_distorted,
                transform,
                estimate_transform: !args.no_estimate_timestamp_transform,
            },
        ),
    )
}

/// Size that width and height ask for, or the message why they ask for none.
pub open spec fn asked_scale(width: Option<u32>, height: Option<u32>) -> core::result::Result<
    Option<Dimensions>,
    Seq<char>,
> {
    match (width, height) {
        (Some(width), Some(height)) => match Dimensions::checked(width, height) {
            Ok(size) => Ok(Some(size)),
            Err(error) => Err(error.message()),
        },
        (None, None) => Ok(None),
        _ => Err("--width and --height must be specified together"@),
    }
}

/// Reads an optional size; both sides or none must be given.
pub fn parse_optional_scale(width: Option<u32>, height: Option<u32>) -> (result: CliResult<
    Option<Dimensions>,
>)
    ensures
        crate::cli::told(result) == asked_scale(width, height),
{
    match (width, height) {
        (Some(width), Some(height)) => match Dimensions::new(width, height) {
            Ok(size) => Ok(Some(size)),
            Err(error) => Err(error.message()),
        },
        (None, None) => Ok(None),
        _ => Err(String::from_str("--width and --height must be specified together")),
    }
}

/// Checked options of a video comparison.
#[derive(Debug, Clone, Copy, PartialEq, Eq, Structural)]
pub struct VideoPlan {
    /// Distance of compared frames.
    pub every: u64,
    /// Largest number of compared pairs.
    pub max_frames: Option<u64>,
    /// Timestamp alignment, if it is used.
    pub timestamps: Option<TimestampPlan>,
    /// Size that frames are scaled to.
    pub scale: Option<Dimensions>,
}

/// Plans a video comparison; alignment is checked before the size.
pub fn plan_video(
    args: &TimestampArgs,
    every: u64,
    max_frames: Option<u64>,
    width: Option<u32>,
    height: Option<u32>,
) -> (result: CliResult<VideoPlan>)
    ensures
        match result {
            Ok(plan) => {
                &&& alignment_fault(*args) is None
                &&& asked_scale(width, height) == Ok::<Option<Dimensions>, Seq<char>>(plan.scale)
                &&& plan.every == if every == 0 {
                    1
                } else {
                    every
                }
                &&& plan.max_frames == max_frames
                &&& plan.timestamps == alignment(*args)
            },
            Err(message) => match alignment_fault(*args) {
                Some(fault) => message@ == fault,
                None => asked_scale(width, height) == Err::<Option<Dimensions>, Seq<char>>(
                    message@,
                ),
            },
        },
{
    let timestamps = match plan_alignment(args) {
        Ok(plan) => plan,
        Err(message) => return Err(message),
    };
    let scale = match parse_optional_scale(width, height) {
        Ok(scale) => scale,
        Err(message) => return Err(message),
    };
    Ok(
        VideoPlan {
            every: if every == 0 {
                1
            } else {
                every
            },
            max_frames,
            timestamps,
            scale,
        },
    )
}

/// Refuses a timestamp alignment that paired nothing, unless nothing was asked for.
pub fn check_aligned_pairs(pairs: usize, max_frames: Option<u64>) -> (result: CliResult<()>)
    ensures
        match result {
            Ok(_) => pairs > 0 || max_frames == Some(0u64),
            Err(message) => pairs == 0 && max_frames != Some(0u64) && message@
                == "timestamp alignment accepted no frame pairs; increase --max-timestamp-delta or verify the timeline transform"@,
        },
{
    let none_wanted = match max_frames {
        Some(count) => count == 0,
        None => false,
    };
    if pairs == 0 && !none_wanted {
        return Err(
            String::from_str(
                "timestamp alignment accepted no frame pairs; increase --max-timestamp-delta or verify the timeline transform",
            ),
        );
    }
    Ok(())
}

/// Refuses an empty list of frame pairs.
pub fn check_frame_pairs(count: usize) -> (result: CliResult<()>)
    ensures
        match result {
            Ok(_) => count > 0,
            Err(message) => count == 0 && message@
                == "--video-frames must contain at least one frame or frame pair"@,
        },
{
    if count == 0 {
        return Err(
            String::from_str("--video-frames must contain at least one frame or frame pair"),
        );
    }
    Ok(())
}

/// Why the sizes of a decoded pair do not fit, if they do not.
pub open spec fn pair_size_fault(
    expected: Option<Dimensions>,
    reference: Dimensions,
    distorted: Dimensions,
) -> Option<Seq<char>> {
    if reference != distorted {
        Some(
            "decoded frame dimensions differ: "@ + size_text(reference) + " vs "@ + size_text(
                distorted,
            ),
        )
    } else if expected matches Some(size) && size != reference {
        Some(
            "decoded frame dimensions changed across pairs: "@ + size_text(expected->0) + " vs "@
                + size_text(reference),
        )
    } else {
        None
    }
}

/// Checks the sizes of a decoded pair against each other and against the pairs
/// before it.
pub fn check_pair_size(
    expected: Option<Dimensions>,
    reference: Dimensions,
    distorted: Dimensions,
) -> (result: CliResult<Dimensions>)
    ensures
        match result {
            Ok(size) => pair_size_fault(expected, reference, distorted) is None && size
                == reference,
            Err(message) => pair_size_fault(expected, reference, distorted) == Some(message@),
        },
{
    if reference != distorted {
        return Err(
            concat4(
                "decoded frame dimensions differ: ",
                describe_size(reference).as_str(),
                " vs ",
                describe_size(distorted).as_str(),
            ),
        );
    }
    if let Some(size) = expected {
        if size != reference {
            return Err(
                concat4(
                    "decoded frame dimensions changed across pairs: ",
                    describe_size(size).as_str(),
                    " vs ",
                    describe_size(reference).as_str(),
                ),
            );
        }
    }
    Ok(reference)
}

/// Metrics of one frame pair.
#[derive(Debug)]
pub struct FramePairReport {
    /// Position of the pair.
    pub pair_index: u64,
    /// Frame of the reference.
    pub reference_frame_index: u64,
    /// Frame of the distorted video.
    pub distorted_frame_index: u64,
    /// Frame shown as the label of the pair.
    pub label_frame_index: Option<u64>,
    /// Metric results.
    pub metrics: Vec<MetricEntry>,
}

/// What goes into the mean of one metric.
#[derive(Debug)]
pub struct MetricGroup {
    /// Metric name.
    pub name: String,
    /// Unit of the first result.
    pub unit: String,
    /// Direction of the first result.
    pub direction: Direction,
    /// Finite scores in order.
    pub scores: Vec<Score>,
    /// Whether a score was infinite.
    pub has_infinite: bool,
}

/// Metrics of the first `count` pairs, one behind the other.
pub open spec fn flat_first(pairs: Seq<FramePairReport>, count: int) -> Seq<MetricEntry>
    decreases count,
{
    if count <= 0 {
        Seq::empty()
    } else {
        flat_first(pairs, count - 1) + pairs[count - 1].metrics@
    }
}

/// Finite scores of a metric, in order.
pub open spec fn finite_scores(metrics: Seq<MetricEntry>, name: Seq<char>) -> Seq<Score>
    decreases metrics.len(),
{
    if metrics.len() == 0 {
        Seq::empty()
    } else {
        let before = finite_scores(metrics.drop_last(), name);
        let last = metrics.last().output;
        if last.name@ == name && last.score.finite() {
            before.push(last.score)
        } else {
            before
        }
    }
}

/// Whether a metric has an infinite score.
pub open spec fn any_infinite(metrics: Seq<MetricEntry>, name: Seq<char>) -> bool {
    exists|i: int|
        0 <= i < metrics.len() && (#[trigger] metrics[i]).output.name@ == name
            && !metrics[i].output.score.finite() && !metrics[i].output.score.nan()
}

/// Whether a result is the first of its metric.
pub open spec fn is_first(metrics: Seq<MetricEntry>, name: Seq<char>, at: int) -> bool {
    &&& 0 <= at < metrics.len()
    &&& metrics[at].output.name@ == name
    &&& forall|j: int| 0 <= j < at ==> (#[trigger] metrics[j]).output.name@ != name
}

/// Whether a group gathers one metric of a list.
#[verifier::opaque]
pub open spec fn gathers(group: MetricGroup, metrics: Seq<MetricEntry>) -> bool {
    &&& exists|i: int|
        #[trigger] is_first(metrics, group.name@, i) && group.unit@ == metrics[i].output.unit@
            && group.direction == metrics[i].output.direction
    &&& group.scores@ == finite_scores(metrics, group.name@)
    &&& group.has_infinite == any_infinite(metrics, group.name@)
}

/// Whether groups stand in dictionary order, each metric once.
#[verifier::opaque]
pub open spec fn groups_ordered(groups: Seq<MetricGroup>) -> bool {
    forall|i: int, j: int|
        0 <= i < j < groups.len() ==> precedes(
            #[trigger] groups[i].name@,
            #[trigger] groups[j].name@,
        )
}

/// Whether every metric of a list has a group.
#[verifier::opaque]
pub open spec fn groups_cover(groups: Seq<MetricGroup>, metrics: Seq<MetricEntry>) -> bool {
    forall|i: int|
        0 <= i < metrics.len() ==> exists|g: int|
            0 <= g < groups.len() && #[trigger] groups[g].name@ == (
            #[trigger] metrics[i]).output.name@
}

/// Whether groups are the metrics of a list, each once, in dictionary order.
pub open spec fn grouped(groups: Seq<MetricGroup>, metrics: Seq<MetricEntry>) -> bool {
    &&& groups_ordered(groups)
    &&& forall|i: int| 0 <= i < groups.len() ==> gathers(#[trigger] groups[i], metrics)
    &&& groups_cover(groups, metrics)
}

/// A result of another metric changes nothing for a group.
proof fn lemma_other_metric(group: MetricGroup, metrics: Seq<MetricEntry>, entry: MetricEntry)
    requires
        gathers(group, metrics),
        entry.output.name@ != group.name@,
    ensures
        gathers(group, metrics.push(entry)),
{
    reveal(gathers);
    let more = metrics.push(entry);
    assert(more.drop_last() =~= metrics);
    let i = choose|i: int|
        #[trigger] is_first(metrics, group.name@, i) && group.unit@ == metrics[i].output.unit@
            && group.direction == metrics[i].output.direction;
    assert(is_first(more, group.name@, i)) by {
        assert(more[i] == metrics[i]);
        assert forall|j: int| 0 <= j < i implies (#[trigger] more[j]).output.name@
            != group.name@ by {
            assert(more[j] == metrics[j]);
        }
    }
    if any_infinite(metrics, group.name@) {
        let k = choose|k: int|
            0 <= k < metrics.len() && (#[trigger] metrics[k]).output.name@ == group.name@
                && !metrics[k].output.score.finite() && !metrics[k].output.score.nan();
        assert(more[k] == metrics[k]);
    }
    if any_infinite(more, group.name@) {
        let k = choose|k: int|
            0 <= k < more.len() && (#[trigger] more[k]).output.name@ == group.name@
                && !more[k].output.score.finite() && !more[k].output.score.nan();
        assert(more[k] == metrics[k]);
    }
}

/// Another result of the same metric extends its group.
proof fn lemma_same_metric(
    group: MetricGroup,
    next: MetricGroup,
    metrics: Seq<MetricEntry>,
    entry: MetricEntry,
)
    requires
        gathers(group, metrics),
        entry.output.name@ == group.name@,
        next.name@ == group.name@,
        next.unit@ == group.unit@,
        next.direction == group.direction,
        next.scores@ == if entry.output.score.finite() {
            group.scores@.push(entry.output.score)
        } else {
            group.scores@
        },
        next.has_infinite == (group.has_infinite || (!entry.output.score.finite()
            && !entry.output.score.nan())),
    ensures
        gathers(next, metrics.push(entry)),
{
    reveal(gathers);
    let more = metrics.push(entry);
    assert(more.drop_last() =~= metrics);
    let i = choose|i: int|
        #[trigger] is_first(metrics, group.name@, i) && group.unit@ == metrics[i].output.unit@
            && group.direction == metrics[i].output.direction;
    assert(is_first(more, next.name@, i)) by {
        assert(more[i] == metrics[i]);
        assert forall|j: int| 0 <= j < i implies (#[trigger] more[j]).output.name@
            != group.name@ by {
            assert(more[j] == metrics[j]);
        }
    }
    if any_infinite(metrics, group.name@) {
        let k = choose|k: int|
            0 <= k < metrics.len() && (#[trigger] metrics[k]).output.name@ == group.name@
                && !metrics[k].output.score.finite() && !metrics[k].output.score.nan();
        assert(more[k] == metrics[k]);
    }
    if any_infinite(more, group.name@) {
        let k = choose|k: int|
            0 <= k < more.len() && (#[trigger] more[k]).output.name@ == group.name@
                && !more[k].output.score.finite() && !more[k].output.score.nan();
        if k < metrics.len() {
            assert(more[k] == metrics[k]);
        }
    }
    assert(more[metrics.len() as int] == entry);
}

/// The first result of a metric makes a new group.
proof fn lemma_new_metric(next: MetricGroup, metrics: Seq<MetricEntry>, entry: MetricEntry)
    requires
        forall|i: int|
            0 <= i < metrics.len() ==> (#[trigger] metrics[i]).output.name@ != entry.output.name@,
        next.name@ == entry.output.name@,
        next.unit@ == entry.output.unit@,
        next.direction == entry.output.direction,
        next.scores@ == if entry.output.score.finite() {
            seq![entry.output.score]
        } else {
            Seq::empty()
        },
        next.has_infinite == (!entry.output.score.finite() && !entry.output.score.nan()),
    ensures
        gathers(next, metrics.push(entry)),
{
    reveal(gathers);
    let more = metrics.push(entry);
    assert(more.drop_last() =~= metrics);
    lemma_no_scores(metrics, next.name@);
    assert(is_first(more, next.name@, metrics.len() as int)) by {
        assert forall|j: int| 0 <= j < metrics.len() implies (#[trigger] more[j]).output.name@
            != next.name@ by {
            assert(more[j] == metrics[j]);
        }
    }
    assert(Seq::<Score>::empty().push(entry.output.score) =~= seq![entry.output.score]);
    if any_infinite(more, next.name@) {
        let k = choose|k: int|
            0 <= k < more.len() && (#[trigger] more[k]).output.name@ == next.name@
                && !more[k].output.score.finite() && !more[k].output.score.nan();
        if k < metrics.len() {
            assert(more[k] == metrics[k]);
        }
    }
    assert(more[metrics.len() as int] == entry);
}

proof fn lemma_no_scores(metrics: Seq<MetricEntry>, name: Seq<char>)
    requires
        forall|i: int| 0 <= i < metrics.len() ==> (#[trigger] metrics[i]).output.name@ != name,
    ensures
        finite_scores(metrics, name) == Seq::<Score>::empty(),
    decreases metrics.len(),
{
    if metrics.len() > 0 {
        assert(metrics.last() == metrics[metrics.len() - 1]);
        assert forall|i: int| 0 <= i < metrics.drop_last().len() implies (
        #[trigger] metrics.drop_last()[i]).output.name@ != name by {
            assert(metrics.drop_last()[i] == metrics[i]);
        }
        lemma_no_scores(metrics.drop_last(), name);
    }
}

fn new_group(entry: &MetricEntry) -> (group: MetricGroup)
    ensures
        group.name@ == entry.output.name@,
        group.unit@ == entry.output.unit@,
        group.direction == entry.output.direction,
        group.scores@ == if entry.output.score.finite() {
            seq![entry.output.score]
        } else {
            Seq::empty()
        },
        group.has_infinite == (!entry.output.score.finite() && !entry.output.score.nan()),
{
    let score = entry.output.score;
    let mut scores: Vec<Score> = Vec::new();
    if score.is_finite() {
        scores.push(score);
    }
    MetricGroup {
        name: entry.output.name.clone(),
        unit: entry.output.unit.clone(),
        direction: entry.output.direction,
        scores,
        has_infinite: !score.is_finite() && !score.is_nan(),
    }
}

fn extend_group(group: MetricGroup, entry: &MetricEntry) -> (next: MetricGroup)
    ensures
        next.name@ == group.name@,
        next.unit@ == group.unit@,
        next.direction == group.direction,
        next.scores@ == if entry.output.score.finite() {
            group.scores@.push(entry.output.score)
        } else {
            group.scores@
        },
        next.has_infinite == (group.has_infinite || (!entry.output.score.finite()
            && !entry.output.score.nan())),
{
    let score = entry.output.score;
    let mut scores = group.scores;
    if score.is_finite() {
        scores.push(score);
    }
    MetricGroup {
        name: group.name,
        unit: group.unit,
        direction: group.direction,
        scores,
        has_infinite: group.has_infinite || (!score.is_finite() && !score.is_nan()),
    }
}

/// Where a metric belongs among groups in dictionary order.
fn group_position(groups: &Vec<MetricGroup>, name: &str) -> (at: usize)
    ensures
        at <= groups@.len(),
        forall|i: int| 0 <= i < at ==> precedes(#[trigger] groups@[i].name@, name@),
        at < groups@.len() ==> !precedes(groups@[at as int].name@, name@),
{
    let mut at: usize = 0;
    while at < groups.len() && comes_before(groups[at].name.as_str(), name)
        invariant
            at <= groups@.len(),
            forall|i: int| 0 <= i < at ==> precedes(#[trigger] groups@[i].name@, name@),
        decreases groups@.len() - at,
    {
        at += 1;
    }
    at
}

/// Replacing a group by its extension keeps a grouping.
proof fn lemma_updated(
    groups: Seq<MetricGroup>,
    at: int,
    next: MetricGroup,
    metrics: Seq<MetricEntry>,
    entry: MetricEntry,
)
    requires
        grouped(groups, metrics),
        0 <= at < groups.len(),
        next.name@ == groups[at].name@,
        next.name@ == entry.output.name@,
        gathers(next, metrics.push(entry)),
    ensures
        grouped(groups.update(at, next), metrics.push(entry)),
{
    reveal(groups_ordered);
    reveal(groups_cover);
    let more = metrics.push(entry);
    let result = groups.update(at, next);
    assert forall|i: int| 0 <= i < result.len() implies #[trigger] result[i].name@
        == groups[i].name@ by {}
    assert forall|i: int| 0 <= i < result.len() implies gathers(#[trigger] result[i], more) by {
        if i != at {
            assert(result[i] == groups[i]);
            assert(groups[i].name@ != groups[at].name@) by {
                lemma_precedes_total(groups[i].name@, groups[at].name@);
                if i < at {
                    assert(precedes(groups[i].name@, groups[at].name@));
                } else {
                    assert(precedes(groups[at].name@, groups[i].name@));
                }
            }
            lemma_other_metric(groups[i], metrics, entry);
        }
    }
    assert forall|i: int, j: int| 0 <= i < j < result.len() implies precedes(
        #[trigger] result[i].name@,
        #[trigger] result[j].name@,
    ) by {
        assert(precedes(groups[i].name@, groups[j].name@));
    }
    assert forall|i: int| 0 <= i < more.len() implies exists|g: int|
        0 <= g < result.len() && #[trigger] result[g].name@ == (
        #[trigger] more[i]).output.name@ by {
        if i < metrics.len() {
            assert(more[i] == metrics[i]);
            let g = choose|g: int|
                0 <= g < groups.len() && #[trigger] groups[g].name@ == metrics[i].output.name@;
            assert(result[g].name@ == groups[g].name@);
        } else {
            assert(result[at].name@ == more[i].output.name@);
        }
    }
}

/// A name that belongs before a group and is not its name occurs nowhere.
proof fn lemma_unseen(groups: Seq<MetricGroup>, at: int, name: Seq<char>, metrics: Seq<MetricEntry>)
    requires
        grouped(groups, metrics),
        0 <= at <= groups.len(),
        forall|i: int| 0 <= i < at ==> precedes(#[trigger] groups[i].name@, name),
        at < groups.len() ==> !precedes(groups[at].name@, name) && groups[at].name@ != name,
    ensures
        forall|i: int| at <= i < groups.len() ==> precedes(name, #[trigger] groups[i].name@),
        forall|i: int| 0 <= i < groups.len() ==> #[trigger] groups[i].name@ != name,
        forall|i: int| 0 <= i < metrics.len() ==> (#[trigger] metrics[i]).output.name@ != name,
{
    reveal(groups_ordered);
    reveal(groups_cover);
    if at < groups.len() {
        lemma_precedes_total(groups[at].name@, name);
    }
    assert forall|i: int| at <= i < groups.len() implies precedes(
        name,
        #[trigger] groups[i].name@,
    ) by {
        if i > at {
            assert(precedes(groups[at].name@, groups[i].name@));
            lemma_precedes_transitive(name, groups[at].name@, groups[i].name@);
        }
    }
    assert forall|i: int| 0 <= i < groups.len() implies #[trigger] groups[i].name@ != name by {
        lemma_precedes_total(groups[i].name@, name);
    }
    assert forall|i: int| 0 <= i < metrics.len() implies (#[trigger] metrics[i]).output.name@
        != name by {
        let g = choose|g: int|
            0 <= g < groups.len() && #[trigger] groups[g].name@ == metrics[i].output.name@;
        assert(groups[g].name@ != name);
    }
}

/// Inserting the group of a new metric keeps a grouping.
proof fn lemma_inserted(
    groups: Seq<MetricGroup>,
    at: int,
    next: MetricGroup,
    metrics: Seq<MetricEntry>,
    entry: MetricEntry,
)
    requires
        grouped(groups, metrics),
        0 <= at <= groups.len(),
        next.name@ == entry.output.name@,
        gathers(next, metrics.push(entry)),
        forall|i: int| 0 <= i < at ==> precedes(#[trigger] groups[i].name@, next.name@),
        forall|i: int| at <= i < groups.len() ==> precedes(next.name@, #[trigger] groups[i].name@),
        forall|i: int| 0 <= i < groups.len() ==> #[trigger] groups[i].name@ != next.name@,
    ensures
        grouped(groups.insert(at, next), metrics.push(entry)),
{
    reveal(groups_ordered);
    reveal(groups_cover);
    let more = metrics.push(entry);
    let result = groups.insert(at, next);
    assert forall|i: int| 0 <= i < result.len() implies gathers(#[trigger] result[i], more) by {
        if i < at {
            assert(result[i] == groups[i]);
            lemma_other_metric(groups[i], metrics, entry);
        } else if i > at {
            assert(result[i] == groups[i - 1]);
            lemma_other_metric(groups[i - 1], metrics, entry);
        }
    }
    assert forall|i: int, j: int| 0 <= i < j < result.len() implies precedes(
        #[trigger] result[i].name@,
        #[trigger] result[j].name@,
    ) by {
        let a = if i < at {
            i
        } else {
            i - 1
        };
        let b = if j < at {
            j
        } else {
            j - 1
        };
        if i != at {
            assert(result[i] == groups[a]);
        }
        if j != at {
            assert(result[j] == groups[b]);
        }
        if i != at && j != at {
            assert(precedes(groups[a].name@, groups[b].name@));
        }
    }
    assert forall|i: int| 0 <= i < more.len() implies exists|g: int|
        0 <= g < result.len() && #[trigger] result[g].name@ == (
        #[trigger] more[i]).output.name@ by {
        if i < metrics.len() {
            assert(more[i] == metrics[i]);
            let g = choose|g: int|
                0 <= g < groups.len() && #[trigger] groups[g].name@ == metrics[i].output.name@;
            if g < at {
                assert(result[g].name@ == groups[g].name@);
            } else {
                assert(result[g + 1].name@ == groups[g].name@);
            }
        } else {
            assert(result[at].name@ == more[i].output.name@);
        }
    }
}

fn add_entry(
    groups: Vec<MetricGroup>,
    entry: &MetricEntry,
    Ghost(metrics): Ghost<Seq<MetricEntry>>,
) -> (result: Vec<MetricGroup>)
    requires
        grouped(groups@, metrics),
    ensures
        grouped(result@, metrics.push(*entry)),
{
    let ghost before = groups@;
    let name = entry.output.name.as_str();
    let at: usize = group_position(&groups, name);
    let mut result = groups;
    if at < result.len() && same_text(result[at].name.as_str(), name) {
        let group = result.remove(at);
        let next = extend_group(group, entry);
        result.insert(at, next);
        proof {
            lemma_same_metric(before[at as int], next, metrics, *entry);
            lemma_updated(before, at as int, next, metrics, *entry);
            assert(result@ =~= before.update(at as int, next));
        }
    } else {
        let next = new_group(entry);
        result.insert(at, next);
        proof {
            lemma_unseen(before, at as int, name@, metrics);
            lemma_new_metric(next, metrics, *entry);
            lemma_inserted(before, at as int, next, metrics, *entry);
        }
    }
    result
}

/// Gathers the metrics of frame pairs by name, in dictionary order.
pub fn group_pair_metrics(pairs: &Vec<FramePairReport>) -> (groups: Vec<MetricGroup>)
    ensures
        grouped(groups@, flat_first(pairs@, pairs@.len() as int)),
{
    let mut groups: Vec<MetricGroup> = Vec::new();
    let mut i: usize = 0;
    proof {
        reveal(groups_ordered);
        reveal(groups_cover);
    }
    while i < pairs.len()
        invariant
            i <= pairs@.len(),
            grouped(groups@, flat_first(pairs@, i as int)),
        decreases pairs@.len() - i,
    {
        let metrics = &pairs[i].metrics;
        let mut j: usize = 0;
        assert(flat_first(pairs@, i as int) + metrics@.take(0) =~= flat_first(pairs@, i as int));
        while j < metrics.len()
            invariant
                i < pairs@.len(),
                *metrics == pairs@[i as int].metrics,
                j <= metrics@.len(),
                grouped(groups@, flat_first(pairs@, i as int) + metrics@.take(j as int)),
            decreases metrics@.len() - j,
        {
            let ghost done = flat_first(pairs@, i as int) + metrics@.take(j as int);
            groups = add_entry(groups, &metrics[j], Ghost(done));
            assert(done.push(metrics@[j as int]) =~= flat_first(pairs@, i as int) + metrics@.take(
                j + 1,
            ));
            j += 1;
        }
        assert(metrics@.take(metrics@.len() as int) =~= metrics@);
        i += 1;
    }
    groups
}

/// Every result of every pair is gathered: there is a group of its name, a finite score
/// is among the group's scores, and an infinite one is noted.
pub proof fn law_every_result_is_gathered(
    groups: Seq<MetricGroup>,
    pairs: Seq<FramePairReport>,
    p: int,
    m: int,
)
    requires
        grouped(groups, flat_first(pairs, pairs.len() as int)),
        0 <= p < pairs.len(),
        0 <= m < pairs[p].metrics@.len(),
    ensures
        ({
            let result = pairs[p].metrics@[m].output;
            let size = result.score.bits % 0x8000_0000_0000_0000;
            exists|g: int|
                0 <= g < groups.len() && (#[trigger] groups[g]).name@ == result.name@ && (size
                    < 0x7ff0_0000_0000_0000 ==> groups[g].scores@.contains(result.score)) && (size
                    == 0x7ff0_0000_0000_0000 ==> groups[g].has_infinite)
        }),
{
    let all = flat_first(pairs, pairs.len() as int);
    let entry = pairs[p].metrics@[m];
    let at = lemma_flat_place(pairs, pairs.len() as int, p, m);
    law_scores_follow_their_bits(entry.output.score, entry.output.score);
    assert(exists|g: int|
        0 <= g < groups.len() && #[trigger] groups[g].name@ == all[at].output.name@) by {
        reveal(groups_cover);
    }
    let g = choose|g: int|
        0 <= g < groups.len() && #[trigger] groups[g].name@ == all[at].output.name@;
    assert(gathers(groups[g], all));
    reveal(gathers);
    lemma_score_present(all, entry.output.name@, at);
}

/// Place of a result among the results of the first pairs.
proof fn lemma_flat_place(pairs: Seq<FramePairReport>, count: int, p: int, m: int) -> (at: int)
    requires
        0 <= p < count <= pairs.len(),
        0 <= m < pairs[p].metrics@.len(),
    ensures
        0 <= at < flat_first(pairs, count).len(),
        flat_first(pairs, count)[at] == pairs[p].metrics@[m],
    decreases count,
{
    if p == count - 1 {
        flat_first(pairs, count - 1).len() + m
    } else {
        lemma_flat_place(pairs, count - 1, p, m)
    }
}

/// A finite score is among those of its metric.
proof fn lemma_score_present(metrics: Seq<MetricEntry>, name: Seq<char>, at: int)
    requires
        0 <= at < metrics.len(),
        metrics[at].output.name@ == name,
    ensures
        metrics[at].output.score.finite() ==> finite_scores(metrics, name).contains(
            metrics[at].output.score,
        ),
    decreases metrics.len(),
{
    let score = metrics[at].output.score;
    let before = finite_scores(metrics.drop_last(), name);
    if score.finite() {
        if at == metrics.len() - 1 {
            assert(finite_scores(metrics, name).last() == score);
        } else {
            lemma_score_present(metrics.drop_last(), name, at);
            let k = choose|k: int| 0 <= k < before.len() && before[k] == score;
            assert(finite_scores(metrics, name)[k] == score);
        }
    }
}

/// Nothing is gathered twice and nothing is left out: the groups together hold as many
/// scores as all results of all pairs have finite ones.
pub proof fn law_groups_hold_as_many_scores(groups: Seq<MetricGroup>, pairs: Seq<FramePairReport>)
    requires
        grouped(groups, flat_first(pairs, pairs.len() as int)),
    ensures
        groups.fold_left(0nat, |n: nat, group: MetricGroup| n + group.scores@.len()) == pairs.map_values(
            |pair: FramePairReport| pair.metrics@,
        ).flatten().filter(
            |entry: MetricEntry|
                entry.output.score.bits % 0x8000_0000_0000_0000 < 0x7ff0_0000_0000_0000,
        ).len(),
{
    let all = flat_first(pairs, pairs.len() as int);
    let names = groups.map_values(|group: MetricGroup| group.name@);
    lemma_flat_is_flattened(pairs, pairs.len() as int);
    assert(pairs.take(pairs.len() as int) =~= pairs);
    assert forall|i: int, j: int| 0 <= i < j < names.len() implies #[trigger] names[i]
        != #[trigger] names[j] by {
        reveal(groups_ordered);
        assert(precedes(groups[i].name@, groups[j].name@));
        lemma_precedes_total(groups[i].name@, groups[j].name@);
    }
    assert forall|k: int| 0 <= k < all.len() implies names.contains(
        (#[trigger] all[k]).output.name@,
    ) by {
        assert(exists|g: int|
            0 <= g < groups.len() && #[trigger] groups[g].name@ == all[k].output.name@) by {
            reveal(groups_cover);
        }
        let g = choose|g: int|
            0 <= g < groups.len() && #[trigger] groups[g].name@ == all[k].output.name@;
        assert(names[g] == all[k].output.name@);
    }
    lemma_counted(names, all);
    lemma_group_total(groups, all);
}

/// Scores of the named metrics together.
spec fn named_total(names: Seq<Seq<char>>, metrics: Seq<MetricEntry>) -> nat
    decreases names.len(),
{
    if names.len() == 0 {
        0
    } else {
        named_total(names.drop_last(), metrics) + finite_scores(metrics, names.last()).len()
    }
}

proof fn lemma_group_total(groups: Seq<MetricGroup>, metrics: Seq<MetricEntry>)
    requires
        forall|i: int| 0 <= i < groups.len() ==> gathers(#[trigger] groups[i], metrics),
    ensures
        groups.fold_left(0nat, |n: nat, group: MetricGroup| n + group.scores@.len())
            == named_total(groups.map_values(|group: MetricGroup| group.name@), metrics),
    decreases groups.len(),
{
    let names = groups.map_values(|group: MetricGroup| group.name@);
    if groups.len() > 0 {
        let fewer = groups.drop_last();
        assert(fewer.map_values(|group: MetricGroup| group.name@) =~= names.drop_last());
        assert forall|i: int| 0 <= i < fewer.len() implies gathers(
            #[trigger] fewer[i],
            metrics,
        ) by {
            assert(fewer[i] == groups[i]);
        }
        lemma_group_total(fewer, metrics);
        assert(gathers(groups.last(), metrics));
        reveal(gathers);
        assert(names.last() == groups.last().name@);
    }
}

/// One more result counts once where its name is among different names, else not at all.
proof fn lemma_counted_once(names: Seq<Seq<char>>, metrics: Seq<MetricEntry>, entry: MetricEntry)
    requires
        forall|i: int, j: int|
            0 <= i < j < names.len() ==> #[trigger] names[i] != #[trigger] names[j],
    ensures
        named_total(names, metrics.push(entry)) == named_total(names, metrics) + if names.contains(
            entry.output.name@,
        ) && entry.output.score.finite() {
            1nat
        } else {
            0
        },
    decreases names.len(),
{
    if names.len() > 0 {
        let fewer = names.drop_last();
        let name = entry.output.name@;
        lemma_counted_once(fewer, metrics, entry);
        assert(metrics.push(entry).drop_last() =~= metrics);
        if names.last() == name {
            assert(names.contains(name));
            if fewer.contains(name) {
                let i = choose|i: int| 0 <= i < fewer.len() && fewer[i] == name;
                assert(names[i] != names[names.len() - 1]);
            }
        } else if names.contains(name) {
            let i = choose|i: int| 0 <= i < names.len() && names[i] == name;
            assert(fewer[i] == name);
        } else if fewer.contains(name) {
            let i = choose|i: int| 0 <= i < fewer.len() && fewer[i] == name;
            assert(names[i] == name);
        }
    }
}

proof fn lemma_counted(names: Seq<Seq<char>>, metrics: Seq<MetricEntry>)
    requires
        forall|i: int, j: int|
            0 <= i < j < names.len() ==> #[trigger] names[i] != #[trigger] names[j],
        forall|k: int|
            0 <= k < metrics.len() ==> names.contains((#[trigger] metrics[k]).output.name@),
    ensures
        named_total(names, metrics) == metrics.filter(
            |entry: MetricEntry|
                entry.output.score.bits % 0x8000_0000_0000_0000 < 0x7ff0_0000_0000_0000,
        ).len(),
    decreases metrics.len(),
{
    reveal(Seq::filter);
    if metrics.len() > 0 {
        let fewer = metrics.drop_last();
        let entry = metrics.last();
        assert forall|k: int| 0 <= k < fewer.len() implies names.contains(
            (#[trigger] fewer[k]).output.name@,
        ) by {
            assert(fewer[k] == metrics[k]);
        }
        lemma_counted(names, fewer);
        lemma_counted_once(names, fewer, entry);
        assert(fewer.push(entry) =~= metrics);
        law_scores_follow_their_bits(entry.output.score, entry.output.score);
    } else {
        lemma_nothing_counted(names);
        assert(metrics =~= Seq::empty());
    }
}

proof fn lemma_nothing_counted(names: Seq<Seq<char>>)
    ensures
        named_total(names, Seq::empty()) == 0,
    decreases names.len(),
{
    if names.len() > 0 {
        lemma_nothing_counted(names.drop_last());
    }
}

proof fn lemma_flat_is_flattened(pairs: Seq<FramePairReport>, count: int)
    requires
        0 <= count <= pairs.len(),
    ensures
        flat_first(pairs, count) == pairs.take(count).map_values(
            |pair: FramePairReport| pair.metrics@,
        ).flatten(),
    decreases count,
{
    let lists = pairs.take(count).map_values(|pair: FramePairReport| pair.metrics@);
    if count > 0 {
        lemma_flat_is_flattened(pairs, count - 1);
        let fewer = pairs.take(count - 1).map_values(|pair: FramePairReport| pair.metrics@);
        assert(lists =~= fewer.push(pairs[count - 1].metrics@));
        fewer.lemma_flatten_push(pairs[count - 1].metrics@);
    } else {
        assert(lists =~= Seq::empty());
    }
}

/// The scores of a group keep the order of the pairs, and unit and direction come from
/// the first result of its name; a score is noted as infinite only where one is.
pub proof fn law_groups_keep_the_order(
    groups: Seq<MetricGroup>,
    pairs: Seq<FramePairReport>,
    g: int,
)
    requires
        grouped(groups, flat_first(pairs, pairs.len() as int)),
        0 <= g < groups.len(),
    ensures
        ({
            let name = groups[g].name@;
            let named = pairs.map_values(|pair: FramePairReport| pair.metrics@).flatten().filter(
                |entry: MetricEntry| entry.output.name@ == name,
            );
            &&& named.len() > 0
            &&& groups[g].unit@ == named[0].output.unit@
            &&& groups[g].direction == named[0].output.direction
            &&& groups[g].scores@ == named.filter(|entry: MetricEntry| entry.output.score.finite()).map_values(
                |entry: MetricEntry| entry.output.score,
            )
            &&& groups[g].has_infinite == exists|i: int|
                0 <= i < named.len() && (#[trigger] named[i]).output.score.bits
                    % 0x8000_0000_0000_0000 == 0x7ff0_0000_0000_0000
        }),
{
    let all = flat_first(pairs, pairs.len() as int);
    let name = groups[g].name@;
    let pred = |entry: MetricEntry| entry.output.name@ == name;
    let named = all.filter(pred);
    lemma_flat_is_flattened(pairs, pairs.len() as int);
    assert(pairs.take(pairs.len() as int) =~= pairs);
    assert(gathers(groups[g], all));
    reveal(gathers);
    lemma_scores_in_order(all, name);
    let first = choose|i: int|
        #[trigger] is_first(all, name, i) && groups[g].unit@ == all[i].output.unit@
            && groups[g].direction == all[i].output.direction;
    lemma_first_named(all, name, first);
    if any_infinite(all, name) {
        let k = choose|k: int|
            0 <= k < all.len() && (#[trigger] all[k]).output.name@ == name
                && !all[k].output.score.finite() && !all[k].output.score.nan();
        all.lemma_filter_contains(pred, k);
        let i = choose|i: int| 0 <= i < named.len() && named[i] == all[k];
        law_scores_follow_their_bits(named[i].output.score, named[i].output.score);
    }
    assert forall|i: int|
        0 <= i < named.len() && (#[trigger] named[i]).output.score.bits % 0x8000_0000_0000_0000
            == 0x7ff0_0000_0000_0000 implies any_infinite(all, name) by {
        all.lemma_filter_contains_rev(pred, named[i]);
        let k = choose|k: int| 0 <= k < all.len() && all[k] == named[i];
        all.lemma_filter_pred(pred, i);
        law_scores_follow_their_bits(all[k].output.score, all[k].output.score);
    }
}

proof fn lemma_scores_in_order(metrics: Seq<MetricEntry>, name: Seq<char>)
    ensures
        finite_scores(metrics, name) == metrics.filter(
            |entry: MetricEntry| entry.output.name@ == name,
        ).filter(|entry: MetricEntry| entry.output.score.finite()).map_values(
            |entry: MetricEntry| entry.output.score,
        ),
    decreases metrics.len(),
{
    reveal(Seq::filter);
    let named = |entry: MetricEntry| entry.output.name@ == name;
    let finite = |entry: MetricEntry| entry.output.score.finite();
    let score = |entry: MetricEntry| entry.output.score;
    if metrics.len() > 0 {
        let fewer = metrics.drop_last();
        lemma_scores_in_order(fewer, name);
        if named(metrics.last()) {
            let part = fewer.filter(named);
            assert(part.push(metrics.last()).drop_last() =~= part);
            if finite(metrics.last()) {
                assert(part.filter(finite).push(metrics.last()).map_values(score)
                    =~= part.filter(finite).map_values(score).push(metrics.last().output.score));
            }
        }
    }
}

proof fn lemma_first_named(metrics: Seq<MetricEntry>, name: Seq<char>, at: int)
    requires
        is_first(metrics, name, at),
    ensures
        metrics.filter(|entry: MetricEntry| entry.output.name@ == name).len() > 0,
        metrics.filter(|entry: MetricEntry| entry.output.name@ == name)[0] == metrics[at],
    decreases metrics.len(),
{
    reveal(Seq::filter);
    let named = |entry: MetricEntry| entry.output.name@ == name;
    let fewer = metrics.drop_last();
    if at < fewer.len() {
        assert(fewer[at] == metrics[at]);
        assert(is_first(fewer, name, at)) by {
            assert forall|j: int| 0 <= j < at implies (#[trigger] fewer[j]).output.name@ != name by {
                assert(fewer[j] == metrics[j]);
            }
        }
        lemma_first_named(fewer, name, at);
    } else {
        assert forall|j: int| 0 <= j < fewer.len() implies !named(#[trigger] fewer[j]) by {
            assert(fewer[j] == metrics[j]);
        }
        fewer.lemma_all_neg_filter_empty(named);
    }
}

/// Bit pattern of a value that is not a number.
pub const NOT_A_NUMBER: u64 = 0x7ff8_0000_0000_0000;

/// Score of a mean: the mean of the finite scores, else infinity if a score was
/// infinite, else not a number.
pub open spec fn mean_score(group: MetricGroup, mean: Score) -> Score {
    if group.scores@.len() > 0 {
        mean
    } else if group.has_infinite {
        Score { bits: crate::metrics::INFINITY }
    } else {
        Score { bits: NOT_A_NUMBER }
    }
}

/// Writes the mean result of a metric. `mean` is the mean of the group's finite
/// scores, and `pairs` the number of frame pairs as a score.
pub fn mean_output(group: MetricGroup, mean: Score, pairs: Score) -> (output: MetricOutput)
    ensures
        output.name@ == "mean_"@ + group.name@,
        output.unit == group.unit,
        output.direction == group.direction,
        output.score == mean_score(group, mean),
        forall|detail: Seq<char>|
            #[trigger] output.details.spec_get(detail) == if detail == "pairs"@ {
                Some(pairs)
            } else {
                None
            },
{
    let score = if group.scores.len() > 0 {
        mean
    } else if group.has_infinite {
        Score::from_bits(crate::metrics::INFINITY)
    } else {
        Score::from_bits(NOT_A_NUMBER)
    };
    MetricOutput::new(
        concat2("mean_", group.name.as_str()),
        score,
        group.unit,
        group.direction,
    ).with_detail(String::from_str("pairs"), pairs)
}

/// The sizes of a pair fit exactly when they agree with each other and with the pairs
/// before.
pub proof fn law_pair_sizes_must_agree(
    expected: Option<Dimensions>,
    reference: Dimensions,
    distorted: Dimensions,
)
    ensures
        pair_size_fault(expected, reference, distorted) is None <==> reference.width
            == distorted.width && reference.height == distorted.height && (expected matches Some(
            size,
        ) ==> size.width == reference.width && size.height == reference.height),
{
}

/// A size is asked for by both of its sides or by none; zero is no side.
pub proof fn law_scales_have_two_sides(width: Option<u32>, height: Option<u32>)
    ensures
        asked_scale(width, height) is Ok <==> (width is None && height is None) || (width matches Some(
            w,
        ) && w > 0 && (height matches Some(h) && h > 0)),
        asked_scale(width, height) matches Ok(Some(size)) ==> width == Some(size.width) && height
            == Some(size.height),
        asked_scale(width, height) matches Ok(None) ==> width is None,
{
}

/// The mean of a metric is that of its finite scores; without any it is infinite where a
/// score was, and otherwise not a number.
pub proof fn law_means_of_groups(group: MetricGroup, mean: Score)
    ensures
        group.scores@.len() > 0 ==> mean_score(group, mean) == mean,
        group.scores@.len() == 0 && group.has_infinite ==> mean_score(group, mean).bits
            == 0x7ff0_0000_0000_0000,
        group.scores@.len() == 0 && !group.has_infinite ==> mean_score(group, mean).bits
            % 0x8000_0000_0000_0000 > 0x7ff0_0000_0000_0000,
{
}

} // verus!
