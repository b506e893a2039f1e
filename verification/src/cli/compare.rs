//! What a comparison command does with its inputs.

use crate::cli::remote::InputSpec;
use crate::cli::video::{compare_uses_timestamp_options, TimestampArgs, VideoFramePair};
use crate::cli::CliResult;
use vstd::prelude::*;

verus! {

/// Structured output format.
#[derive(Debug, Clone, Copy, PartialEq, Eq, Structural)]
pub enum OutputFormatArg {
    /// Text for people.
    Text,
    /// JSON.
    Json,
    /// YAML.
    Yaml,
    /// TOML.
    Toml,
    /// CSV.
    Csv,
}

/// The JSON switch goes before the format.
pub fn output_format(json: bool, format: OutputFormatArg) -> (chosen: OutputFormatArg)
    ensures
        chosen == if json {
            OutputFormatArg::Json
        } else {
            format
        },
{
    if json {
        OutputFormatArg::Json
    } else {
        format
    }
}

/// Whether switches of timestamp alignment are used.
pub open spec fn uses_timestamps(args: TimestampArgs) -> bool {
    !(args.align is Decode) || args.refines()
}

/// Decides whether a comparison with one input reports image statistics.
pub fn check_single_input(stats: bool, timestamps: &TimestampArgs) -> (result: CliResult<()>)
    ensures
        match result {
            Ok(_) => stats && !uses_timestamps(*timestamps),
            Err(message) => message@ == if uses_timestamps(*timestamps) {
                "timestamp alignment options require two local video inputs"@
            } else {
                "DISTORTED is required unless --stats is used for a single image"@
            } && !(stats && !uses_timestamps(*timestamps)),
        },
{
    if compare_uses_timestamp_options(timestamps) {
        return Err(
            String::from_str("timestamp alignment options require two local video inputs"),
        );
    }
    if stats {
        return Ok(());
    }
    Err(String::from_str("DISTORTED is required unless --stats is used for a single image"))
}

/// What a comparison of two inputs does.
#[derive(Debug)]
pub enum ComparePlan {
    /// Compare two images, with statistics if asked for.
    Images {
        /// Report statistics too.
        stats: bool,
    },
    /// Compare chosen frames of two videos.
    FramePairs(Vec<VideoFramePair>),
    /// Compare two local videos as a whole.
    Videos,
}

/// Two inputs and the switches that decide what is compared.
#[derive(Debug)]
pub struct CompareRequest {
    /// The reference is a video.
    pub reference_is_video: bool,
    /// The distorted input is a video.
    pub distorted_is_video: bool,
    /// The reference is a local file.
    pub reference_is_local: bool,
    /// The distorted input is a local file.
    pub distorted_is_local: bool,
    /// Report image statistics.
    pub stats: bool,
    /// Frames or frame pairs are chosen.
    pub frames_chosen: bool,
    /// Compare every n-th frame.
    pub every: u64,
    /// Largest number of frame pairs.
    pub max_frames: Option<u64>,
    /// Switches of timestamp alignment.
    pub timestamps: TimestampArgs,
}

/// Why two inputs are not compared, before the chosen frames are looked at.
pub open spec fn compare_fault(request: CompareRequest) -> Option<Seq<char>> {
    let videos = request.reference_is_video && request.distorted_is_video;
    let local = request.reference_is_local && request.distorted_is_local;
    if uses_timestamps(request.timestamps) && !(videos && local && !request.frames_chosen) {
        Some(
            "timestamp alignment options require full comparison of two local videos; omit --video-frame/--video-frames"@,
        )
    } else if request.reference_is_video != request.distorted_is_video {
        Some("reference and distorted must both be images or both be videos"@)
    } else if videos && request.stats {
        Some("--stats currently applies to still images; omit it for video comparison"@)
    } else {
        None
    }
}

/// Why two videos are not compared, once the chosen frames are known.
pub open spec fn video_fault(request: CompareRequest, pairs: bool) -> Option<Seq<char>> {
    let local = request.reference_is_local && request.distorted_is_local;
    if pairs && (request.every != 1 || request.max_frames is Some) {
        Some("--video-frame(s) cannot be combined with --every or --max-frames"@)
    } else if !pairs && !local {
        Some(
            "remote video comparison requires --video-frame or --video-frames. Full remote video comparison is intentionally not enabled by default."@,
        )
    } else {
        None
    }
}

/// Decides what a comparison of two inputs does. `frame_pairs` holds the chosen
/// frames, or why they cannot be read.
pub fn plan_compare(
    request: &CompareRequest,
    frame_pairs: CliResult<Option<Vec<VideoFramePair>>>,
) -> (result: CliResult<ComparePlan>)
    ensures
        match compare_fault(*request) {
            Some(fault) => result matches Err(message) && message@ == fault,
            None => if !request.reference_is_video {
                result == Ok::<ComparePlan, String>(ComparePlan::Images { stats: request.stats })
            } else {
                match frame_pairs {
                    Err(error) => result == Err::<ComparePlan, String>(error),
                    Ok(pairs) => match video_fault(*request, pairs is Some) {
                        Some(fault) => result matches Err(message) && message@ == fault,
                        None => result == Ok::<ComparePlan, String>(
                            match pairs {
                                Some(pairs) => ComparePlan::FramePairs(pairs),
                                None => ComparePlan::Videos,
                            },
                        ),
                    },
                }
            },
        },
{
    let videos = request.reference_is_video && request.distorted_is_video;
    let local = request.reference_is_local && request.distorted_is_local;
    if compare_uses_timestamp_options(&request.timestamps) && !(videos && local
        && !request.frames_chosen) {
        return Err(
            String::from_str(
                "timestamp alignment options require full comparison of two local videos; omit --video-frame/--video-frames",
            ),
        );
    }
    if request.reference_is_video != request.distorted_is_video {
        return Err(
            String::from_str("reference and distorted must both be images or both be videos"),
        );
    }
    if !videos {
        return Ok(ComparePlan::Images { stats: request.stats });
    }
    if request.stats {
        return Err(
            String::from_str(
                "--stats currently applies to still images; omit it for video comparison",
            ),
        );
    }
    match frame_pairs {
        Err(error) => Err(error),
        Ok(Some(pairs)) => {
            if request.every != 1 || request.max_frames.is_some() {
                return Err(
                    String::from_str(
                        "--video-frame(s) cannot be combined with --every or --max-frames",
                    ),
                );
            }
            Ok(ComparePlan::FramePairs(pairs))
        },
        Ok(None) => if local {
            Ok(ComparePlan::Videos)
        } else {
            Err(
                String::from_str(
                    "remote video comparison requires --video-frame or --video-frames. Full remote video comparison is intentionally not enabled by default.",
                ),
            )
        },
    }
}

/// How the two images of a comparison are read.
#[derive(Debug, Clone, Copy, PartialEq, Eq, Structural)]
pub enum PairSource {
    /// Both from one bundle on standard input.
    OneBundle,
    /// Each on its own.
    Separate,
}

/// Decides how the two images of a comparison are read; standard input feeds both
/// only as a bundle.
pub fn pair_source(reference: &InputSpec, distorted: &InputSpec, bundle: bool) -> (result: CliResult<
    PairSource,
>)
    ensures
        match result {
            Ok(source) => {
                &&& source is OneBundle <==> *reference is Stdin && *distorted is Stdin && bundle
                &&& source is Separate <==> !(*reference is Stdin && *distorted is Stdin)
            },
            Err(message) => *reference is Stdin && *distorted is Stdin && !bundle && message@
                == "stdin input `-` can only be used for one image argument"@,
        },
{
    if reference.is_stdin() && distorted.is_stdin() && bundle {
        return Ok(PairSource::OneBundle);
    }
    match crate::cli::remote::reject_double_stdin_specs(reference, Some(distorted)) {
        Ok(_) => Ok(PairSource::Separate),
        Err(message) => Err(message),
    }
}

/// Inputs that a comparison accepts are both images or both videos.
pub proof fn law_kinds_agree(request: CompareRequest)
    ensures
        compare_fault(request) is None ==> request.reference_is_video
            == request.distorted_is_video,
{
}

/// What is compared: two images or two videos, statistics of images alone, and timestamps
/// only over two whole local videos. Nothing else is refused.
pub proof fn law_comparisons_that_are_accepted(request: CompareRequest)
    ensures
        compare_fault(request) is None <==> {
            let videos = request.reference_is_video && request.distorted_is_video;
            let timestamps = request.timestamps.align is Timestamp
                || request.timestamps.max_timestamp_delta is Some
                || request.timestamps.allow_reuse_distorted
                || request.timestamps.no_estimate_timestamp_transform
                || request.timestamps.timestamp_scale is Some
                || request.timestamps.timestamp_offset is Some;
            &&& request.reference_is_video == request.distorted_is_video
            &&& videos ==> !request.stats
            &&& timestamps ==> videos && request.reference_is_local && request.distorted_is_local
                && !request.frames_chosen
        },
        video_fault(request, true) is None <==> request.every == 1 && request.max_frames is None,
        video_fault(request, false) is None <==> request.reference_is_local
            && request.distorted_is_local,
{
}

} // verus!
