//! From kernel results to comparison results.

use crate::error::{Error, ErrorView, Result};
use crate::frame::{FrameModel, FrameView, Validated};
use crate::gpu::{
    absolute_sum, cpu_error_sums_rgba8, distance, frames_of, group_count, is_largest, pair_fault,
    rgba8_pixels, squared_sum, sums_channel, validate_rgba8_pair, validate_windowed_ssim_options,
    window_fault, ChannelErrorSums, GpuExecution, GpuFallbackPolicy, GpuRgba8ErrorSums,
    GpuWindowedSsimComparison, GpuWindowedSsimOptions, WORKGROUP_SIZE,
};
use crate::metrics::{Direction, MetricOutput, Score};
use crate::text::{concat4, decimal, decimal_text, optional_text};
use vstd::prelude::*;

verus! {

/// Error sums of one channel over the pixels of one workgroup.
#[derive(Debug, Clone, Copy, PartialEq, Eq, Structural)]
pub struct ChannelGroupSums {
    /// Sum of squared differences.
    pub squared: u32,
    /// Sum of absolute differences.
    pub absolute: u32,
    /// Largest absolute difference.
    pub largest: u8,
}

/// Error sums of one workgroup, as the kernel leaves them.
#[derive(Debug, Clone, Copy, PartialEq, Eq, Structural)]
pub struct GroupSums {
    /// Red channel.
    pub red: ChannelGroupSums,
    /// Green channel.
    pub green: ChannelGroupSums,
    /// Blue channel.
    pub blue: ChannelGroupSums,
    /// Alpha channel.
    pub alpha: ChannelGroupSums,
}

impl GroupSums {
    /// Sums of a channel: red, green, blue, alpha.
    pub open spec fn spec_channel(self, channel: int) -> ChannelGroupSums {
        if channel == 0 {
            self.red
        } else if channel == 1 {
            self.green
        } else if channel == 2 {
            self.blue
        } else {
            self.alpha
        }
    }

    fn channel(&self, channel: usize) -> (sums: ChannelGroupSums)
        ensures
            sums == self.spec_channel(channel as int),
    {
        if channel == 0 {
            self.red
        } else if channel == 1 {
            self.green
        } else if channel == 2 {
            self.blue
        } else {
            self.alpha
        }
    }
}

/// Squared differences of one channel over some of the groups.
pub open spec fn groups_squared(groups: Seq<GroupSums>, channel: int, from: int, to: int) -> nat
    decreases to - from,
{
    if from >= to {
        0
    } else {
        groups_squared(groups, channel, from, to - 1) + groups[to - 1].spec_channel(
            channel,
        ).squared as nat
    }
}

/// Absolute differences of one channel over some of the groups.
pub open spec fn groups_absolute(groups: Seq<GroupSums>, channel: int, from: int, to: int) -> nat
    decreases to - from,
{
    if from >= to {
        0
    } else {
        groups_absolute(groups, channel, from, to - 1) + groups[to - 1].spec_channel(
            channel,
        ).absolute as nat
    }
}

/// Largest difference of one channel over some of the groups.
pub open spec fn groups_largest(groups: Seq<GroupSums>, channel: int, from: int, to: int) -> u8
    decreases to - from,
{
    if from >= to {
        0
    } else {
        let before = groups_largest(groups, channel, from, to - 1);
        let last = groups[to - 1].spec_channel(channel).largest;
        if last > before {
            last
        } else {
            before
        }
    }
}

/// Whether sums are those of one channel over some of the groups.
pub open spec fn merges(
    sums: ChannelErrorSums,
    groups: Seq<GroupSums>,
    channel: int,
    from: int,
    to: int,
) -> bool {
    &&& sums.squared == groups_squared(groups, channel, from, to)
    &&& sums.absolute == groups_absolute(groups, channel, from, to)
    &&& sums.largest == groups_largest(groups, channel, from, to)
}

fn merge_channel(groups: &Vec<GroupSums>, channel: usize, from: usize, to: usize) -> (sums:
    ChannelErrorSums)
    requires
        from <= to <= groups@.len(),
    ensures
        merges(sums, groups@, channel as int, from as int, to as int),
{
    let mut squared: u128 = 0;
    let mut absolute: u128 = 0;
    let mut largest: u8 = 0;
    let mut i: usize = from;
    while i < to
        invariant
            from <= i <= to,
            to <= groups@.len(),
            squared == groups_squared(groups@, channel as int, from as int, i as int),
            absolute == groups_absolute(groups@, channel as int, from as int, i as int),
            largest == groups_largest(groups@, channel as int, from as int, i as int),
            squared <= 0xffff_ffff * (i - from),
            absolute <= 0xffff_ffff * (i - from),
        decreases to - i,
    {
        let group = groups[i].channel(channel);
        squared = squared + group.squared as u128;
        absolute = absolute + group.absolute as u128;
        if group.largest > largest {
            largest = group.largest;
        }
        i += 1;
    }
    ChannelErrorSums { squared, absolute, largest }
}

/// Whether sums are those of a frame whose groups are given.
pub open spec fn merges_frame(
    sums: GpuRgba8ErrorSums,
    groups: Seq<GroupSums>,
    from: int,
    to: int,
) -> bool {
    &&& merges(sums.red, groups, 0, from, to)
    &&& merges(sums.green, groups, 1, from, to)
    &&& merges(sums.blue, groups, 2, from, to)
    &&& merges(sums.alpha, groups, 3, from, to)
}

fn merge_groups(groups: &Vec<GroupSums>, from: usize, to: usize, pixels: u64) -> (sums:
    GpuRgba8ErrorSums)
    requires
        from <= to <= groups@.len(),
    ensures
        sums.pixels == pixels,
        merges_frame(sums, groups@, from as int, to as int),
{
    GpuRgba8ErrorSums {
        red: merge_channel(groups, 0, from, to),
        green: merge_channel(groups, 1, from, to),
        blue: merge_channel(groups, 2, from, to),
        alpha: merge_channel(groups, 3, from, to),
        pixels,
    }
}

/// Merges the group sums of one comparison.
pub fn error_sums_from_partials(groups: &Vec<GroupSums>, pixels: u64) -> (sums: GpuRgba8ErrorSums)
    ensures
        sums.pixels == pixels,
        merges_frame(sums, groups@, 0, groups@.len() as int),
{
    merge_groups(groups, 0, groups.len(), pixels)
}

/// Merges the group sums of a batch, which stand candidate after candidate.
pub fn error_sums_of_batch(groups: &Vec<GroupSums>, per_candidate: usize, pixels: u64) -> (sums:
    Vec<GpuRgba8ErrorSums>)
    requires
        per_candidate > 0,
    ensures
        sums@.len() == groups@.len() / per_candidate as nat,
        forall|i: int|
            0 <= i < sums@.len() ==> (#[trigger] sums@[i]).pixels == pixels && merges_frame(
                sums@[i],
                groups@,
                i * per_candidate,
                (i + 1) * per_candidate,
            ),
{
    let total: usize = groups.len();
    let count: usize = total / per_candidate;
    let mut sums: Vec<GpuRgba8ErrorSums> = Vec::new();
    let mut i: usize = 0;
    let mut at: usize = 0;
    while i < count
        invariant
            i <= count,
            per_candidate > 0,
            total == groups@.len(),
            count == groups@.len() / per_candidate as nat,
            at == i * per_candidate,
            sums@.len() == i,
            forall|j: int|
                0 <= j < i ==> (#[trigger] sums@[j]).pixels == pixels && merges_frame(
                    sums@[j],
                    groups@,
                    j * per_candidate,
                    (j + 1) * per_candidate,
                ),
        decreases count - i,
    {
        assert(at + per_candidate == (i + 1) * per_candidate && (i + 1) * per_candidate
            <= groups@.len()) by (nonlinear_arith)
            requires
                at == i * per_candidate,
                per_candidate > 0,
                i < groups@.len() / per_candidate as nat,
        ;
        sums.push(merge_groups(groups, at, at + per_candidate, pixels));
        at = at + per_candidate;
        i += 1;
    }
    sums
}

/// Whether group sums are those of one channel over pixels `from` to `to`.
pub open spec fn covers(
    group: ChannelGroupSums,
    a: Seq<u8>,
    b: Seq<u8>,
    channel: int,
    from: int,
    to: int,
) -> bool {
    &&& group.squared == squared_sum(a, b, channel, to as nat) - squared_sum(
        a,
        b,
        channel,
        from as nat,
    )
    &&& group.absolute == absolute_sum(a, b, channel, to as nat) - absolute_sum(
        a,
        b,
        channel,
        from as nat,
    )
    &&& forall|i: int|
        from <= i < to ==> distance(
            #[trigger] a[4 * i + channel],
            b[4 * i + channel],
        ) <= group.largest
    &&& group.largest == 0 || exists|i: int|
        from <= i < to && distance(#[trigger] a[4 * i + channel], b[4 * i + channel])
            == group.largest
}

/// First pixel behind the first groups.
pub open spec fn reached(groups: int, pixels: nat) -> nat {
    if WORKGROUP_SIZE * groups <= pixels {
        (WORKGROUP_SIZE * groups) as nat
    } else {
        pixels
    }
}

proof fn lemma_groups_reach(
    groups: Seq<GroupSums>,
    a: Seq<u8>,
    b: Seq<u8>,
    channel: int,
    pixels: nat,
    count: int,
)
    requires
        0 <= count <= groups.len(),
        groups.len() == group_count(pixels),
        forall|i: int|
            0 <= i < groups.len() ==> covers(
                (#[trigger] groups[i]).spec_channel(channel),
                a,
                b,
                channel,
                reached(i, pixels) as int,
                reached(i + 1, pixels) as int,
            ),
    ensures
        groups_squared(groups, channel, 0, count) == squared_sum(
            a,
            b,
            channel,
            reached(count, pixels),
        ),
        groups_absolute(groups, channel, 0, count) == absolute_sum(
            a,
            b,
            channel,
            reached(count, pixels),
        ),
        is_largest(
            a,
            b,
            channel,
            reached(count, pixels),
            groups_largest(groups, channel, 0, count) as nat,
        ),
    decreases count,
{
    if count > 0 {
        lemma_groups_reach(groups, a, b, channel, pixels, count - 1);
        let group = groups[count - 1].spec_channel(channel);
        let from = reached(count - 1, pixels);
        let to = reached(count, pixels);
        let before = groups_largest(groups, channel, 0, count - 1);
        let largest = groups_largest(groups, channel, 0, count);
        assert(covers(group, a, b, channel, from as int, to as int));
        assert(from <= to);
        assert forall|i: int| 0 <= i < to implies distance(
            #[trigger] a[4 * i + channel],
            b[4 * i + channel],
        ) <= largest by {}
        if largest != 0 {
            if largest == before && before != 0 {
                let i = choose|i: int|
                    0 <= i < from && distance(
                        #[trigger] a[4 * i + channel],
                        b[4 * i + channel],
                    ) == before;
                assert(0 <= i < to && distance(a[4 * i + channel], b[4 * i + channel]) == largest);
            } else {
                let i = choose|i: int|
                    from <= i < to && distance(
                        #[trigger] a[4 * i + channel],
                        b[4 * i + channel],
                    ) == group.largest;
                assert(0 <= i < to && distance(a[4 * i + channel], b[4 * i + channel]) == largest);
            }
        }
    }
}

/// Group sums that cover a frame merge into the sums of the frame: the GPU gives
/// the sums that the CPU gives.
pub proof fn law_groups_sum_to_frame(
    groups: Seq<GroupSums>,
    a: Seq<u8>,
    b: Seq<u8>,
    channel: int,
    pixels: nat,
    sums: ChannelErrorSums,
)
    requires
        groups.len() == group_count(pixels),
        forall|i: int|
            0 <= i < groups.len() ==> covers(
                (#[trigger] groups[i]).spec_channel(channel),
                a,
                b,
                channel,
                reached(i, pixels) as int,
                reached(i + 1, pixels) as int,
            ),
        merges(sums, groups, channel, 0, groups.len() as int),
    ensures
        sums_channel(sums, a, b, channel, pixels),
{
    lemma_groups_reach(groups, a, b, channel, pixels, groups.len() as int);
    assert(reached(groups.len() as int, pixels) == pixels);
}

/// Whether sums are those of two frames.
pub open spec fn sums_frames(
    sums: GpuRgba8ErrorSums,
    reference: FrameModel,
    distorted: FrameModel,
) -> bool {
    let a = rgba8_pixels(reference);
    let b = rgba8_pixels(distorted);
    &&& sums.pixels == reference.dims.width * reference.dims.height
    &&& sums_channel(sums.red, a, b, 0, sums.pixels as nat)
    &&& sums_channel(sums.green, a, b, 1, sums.pixels as nat)
    &&& sums_channel(sums.blue, a, b, 2, sums.pixels as nat)
    &&& sums_channel(sums.alpha, a, b, 3, sums.pixels as nat)
}

/// Why two frames cannot be compared.
pub open spec fn comparison_fault(reference: FrameModel, distorted: FrameModel) -> Option<
    ErrorView,
> {
    pair_fault(reference, distorted, "GPU RGBA8 comparison requires RGBA8 inputs"@)
}

/// What the kernel made of one comparison.
#[derive(Debug)]
pub enum KernelSums {
    /// There is no context; the text is the retained initialization failure.
    Unavailable(Option<String>),
    /// The kernel's sums.
    Computed(GpuRgba8ErrorSums),
    /// The kernel failed.
    Failed(Error),
}

/// Error sums with the backend that produced them.
#[derive(Debug)]
pub struct GpuRgba8Comparison {
    /// Exact error sums.
    pub error_sums: GpuRgba8ErrorSums,
    /// Backend that produced the sums.
    pub execution: GpuExecution,
    /// GPU failure that caused CPU fallback, when applicable.
    pub fallback_reason: Option<String>,
}

/// Compares one RGBA8 frame pair from what the kernel made of it. Without a
/// context, or after a failure that the policy covers, the CPU computes the sums.
pub fn compare_rgba8(
    reference: &FrameView<'_, Validated>,
    distorted: &FrameView<'_, Validated>,
    fallback: GpuFallbackPolicy,
    kernel: KernelSums,
) -> (result: Result<GpuRgba8Comparison>)
    ensures
        match comparison_fault(reference@, distorted@) {
            Some(fault) => result matches Err(error) && error@ == fault,
            None => match kernel {
                KernelSums::Computed(sums) => result matches Ok(compared) && compared.error_sums
                    == sums && compared.execution is Gpu && compared.fallback_reason is None,
                KernelSums::Unavailable(reason) => result matches Ok(compared) && sums_frames(
                    compared.error_sums,
                    reference@,
                    distorted@,
                ) && compared.execution is CpuFallback && compared.fallback_reason == reason,
                KernelSums::Failed(failure) => if fallback is AnyGpuError {
                    result matches Ok(compared) && sums_frames(
                        compared.error_sums,
                        reference@,
                        distorted@,
                    ) && compared.execution is CpuFallback && (
                    compared.fallback_reason matches Some(reason) && reason@ == failure@.message())
                } else {
                    result == Err::<GpuRgba8Comparison, Error>(failure)
                },
            },
        },
{
    if let Err(error) = validate_rgba8_pair(reference, distorted) {
        return Err(error);
    }
    let reason = match kernel {
        KernelSums::Computed(sums) => return Ok(
            GpuRgba8Comparison {
                error_sums: sums,
                execution: GpuExecution::Gpu,
                fallback_reason: None,
            },
        ),
        KernelSums::Unavailable(reason) => reason,
        KernelSums::Failed(failure) => {
            if fallback != GpuFallbackPolicy::AnyGpuError {
                return Err(failure);
            }
            Some(failure.message())
        },
    };
    match cpu_error_sums_rgba8(reference, distorted) {
        Ok(sums) => Ok(
            GpuRgba8Comparison {
                error_sums: sums,
                execution: GpuExecution::CpuFallback,
                fallback_reason: reason,
            },
        ),
        Err(error) => Err(error),
    }
}

/// First pair that cannot be compared, from the candidates at `first` on.
pub open spec fn many_fault(
    reference: FrameModel,
    candidates: Seq<FrameModel>,
    first: int,
) -> Option<ErrorView>
    decreases candidates.len() - first,
{
    if first < 0 || first >= candidates.len() {
        None
    } else {
        match comparison_fault(reference, candidates[first]) {
            Some(fault) => Some(fault),
            None => many_fault(reference, candidates, first + 1),
        }
    }
}

/// What the kernel made of a batch.
#[derive(Debug)]
pub enum KernelBatch {
    /// There is no context; the text is the retained initialization failure.
    Unavailable(Option<String>),
    /// The kernel's sums, candidate by candidate.
    Computed(Vec<GpuRgba8ErrorSums>),
    /// The kernel failed.
    Failed(Error),
}

/// Whether every comparison was made by the CPU for the same reason.
pub open spec fn fell_back(
    compared: Seq<GpuRgba8Comparison>,
    reference: FrameModel,
    candidates: Seq<FrameModel>,
    reason: Option<Seq<char>>,
) -> bool {
    &&& compared.len() == candidates.len()
    &&& forall|i: int|
        0 <= i < compared.len() ==> fell_back_one(
            #[trigger] compared[i],
            reference,
            candidates[i],
            reason,
        )
}

/// Whether a comparison was made by the CPU for a reason.
pub open spec fn fell_back_one(
    compared: GpuRgba8Comparison,
    reference: FrameModel,
    candidate: FrameModel,
    reason: Option<Seq<char>>,
) -> bool {
    &&& sums_frames(compared.error_sums, reference, candidate)
    &&& compared.execution is CpuFallback
    &&& optional_text(compared.fallback_reason) == reason
}

fn compare_many_on_cpu(
    reference: &FrameView<'_, Validated>,
    distorted: &Vec<&FrameView<'_, Validated>>,
    reason: Option<String>,
) -> (result: Result<Vec<GpuRgba8Comparison>>)
    requires
        forall|i: int|
            0 <= i < distorted@.len() ==> comparison_fault(
                reference@,
                (#[trigger] frames_of(distorted@)[i]),
            ) is None,
    ensures
        result matches Ok(compared) && fell_back(
            compared@,
            reference@,
            frames_of(distorted@),
            optional_text(reason),
        ),
{
    let mut compared: Vec<GpuRgba8Comparison> = Vec::new();
    let mut i: usize = 0;
    while i < distorted.len()
        invariant
            i <= distorted@.len(),
            compared@.len() == i,
            forall|j: int|
                0 <= j < distorted@.len() ==> comparison_fault(
                    reference@,
                    (#[trigger] frames_of(distorted@)[j]),
                ) is None,
            forall|j: int|
                0 <= j < i ==> fell_back_one(
                    #[trigger] compared@[j],
                    reference@,
                    frames_of(distorted@)[j],
                    optional_text(reason),
                ),
        decreases distorted@.len() - i,
    {
        assert(frames_of(distorted@)[i as int] == distorted@[i as int]@);
        match cpu_error_sums_rgba8(reference, distorted[i]) {
            Ok(sums) => compared.push(
                GpuRgba8Comparison {
                    error_sums: sums,
                    execution: GpuExecution::CpuFallback,
                    fallback_reason: copy_reason(&reason),
                },
            ),
            Err(error) => return Err(error),
        }
        i += 1;
    }
    Ok(compared)
}

fn copy_reason(reason: &Option<String>) -> (copy: Option<String>)
    ensures
        optional_text(copy) == optional_text(*reason),
{
    match reason {
        Some(text) => Some(text.clone()),
        None => None,
    }
}

/// Compares one reference against many candidates from what the kernel made of
/// the batch.
pub fn compare_many_rgba8(
    reference: &FrameView<'_, Validated>,
    distorted: &Vec<&FrameView<'_, Validated>>,
    fallback: GpuFallbackPolicy,
    kernel: KernelBatch,
) -> (result: Result<Vec<GpuRgba8Comparison>>)
    requires
        kernel matches KernelBatch::Computed(sums) ==> sums@.len() == distorted@.len(),
    ensures
        match many_fault(reference@, frames_of(distorted@), 0) {
            Some(fault) => result matches Err(error) && error@ == fault,
            None => if distorted@.len() == 0 {
                result matches Ok(compared) && compared@.len() == 0
            } else {
                match kernel {
                    KernelBatch::Computed(sums) => result matches Ok(compared) && compared@.len()
                        == sums@.len() && forall|i: int|
                        0 <= i < sums@.len() ==> (#[trigger] compared@[i]).error_sums == sums@[i]
                            && compared@[i].execution is Gpu && compared@[i].fallback_reason is None,
                    KernelBatch::Unavailable(reason) => result matches Ok(compared) && fell_back(
                        compared@,
                        reference@,
                        frames_of(distorted@),
                        optional_text(reason),
                    ),
                    KernelBatch::Failed(failure) => if fallback is AnyGpuError {
                        result matches Ok(compared) && fell_back(
                            compared@,
                            reference@,
                            frames_of(distorted@),
                            Some(failure@.message()),
                        )
                    } else {
                        result == Err::<Vec<GpuRgba8Comparison>, Error>(failure)
                    },
                }
            },
        },
{
    let mut i: usize = 0;
    while i < distorted.len()
        invariant
            i <= distorted@.len(),
            many_fault(reference@, frames_of(distorted@), 0) == many_fault(
                reference@,
                frames_of(distorted@),
                i as int,
            ),
            forall|j: int|
                0 <= j < i ==> comparison_fault(
                    reference@,
                    (#[trigger] frames_of(distorted@)[j]),
                ) is None,
        decreases distorted@.len() - i,
    {
        assert(frames_of(distorted@)[i as int] == distorted@[i as int]@);
        if let Err(error) = validate_rgba8_pair(reference, distorted[i]) {
            return Err(error);
        }
        i += 1;
    }
    if distorted.len() == 0 {
        return Ok(Vec::new());
    }
    match kernel {
        KernelBatch::Computed(sums) => {
            let mut compared: Vec<GpuRgba8Comparison> = Vec::new();
            let mut k: usize = 0;
            while k < sums.len()
                invariant
                    k <= sums@.len(),
                    compared@.len() == k,
                    forall|j: int|
                        0 <= j < k ==> (#[trigger] compared@[j]).error_sums == sums@[j]
                            && compared@[j].execution is Gpu && compared@[j].fallback_reason is None,
                decreases sums@.len() - k,
            {
                compared.push(
                    GpuRgba8Comparison {
                        error_sums: sums[k],
                        execution: GpuExecution::Gpu,
                        fallback_reason: None,
                    },
                );
                k += 1;
            }
            Ok(compared)
        },
        KernelBatch::Unavailable(reason) => compare_many_on_cpu(reference, distorted, reason),
        KernelBatch::Failed(failure) => {
            if fallback != GpuFallbackPolicy::AnyGpuError {
                return Err(failure);
            }
            compare_many_on_cpu(reference, distorted, Some(failure.message()))
        },
    }
}

/// Wraps the failure of one pair of a batch.
pub fn batch_pair_failure(index: usize, error: &Error) -> (failure: Error)
    ensures
        failure@ == ErrorView::Gpu(
            "RGBA8 batch pair "@ + decimal_text(index as nat) + " failed: "@ + error@.message(),
        ),
{
    Error::Gpu(
        concat4(
            "RGBA8 batch pair ",
            decimal(index as u64).as_str(),
            " failed: ",
            error.message().as_str(),
        ),
    )
}

/// Checks the inputs of a windowed comparison.
pub fn check_windowed_ssim_rgba8(
    reference: &FrameView<'_, Validated>,
    distorted: &FrameView<'_, Validated>,
    options: GpuWindowedSsimOptions,
) -> (result: Result<()>)
    ensures
        match result {
            Ok(_) => comparison_fault(reference@, distorted@) is None && window_fault(
                options,
            ) is None,
            Err(error) => match comparison_fault(reference@, distorted@) {
                Some(fault) => error@ == fault,
                None => window_fault(options) == Some(error@),
            },
        },
{
    if let Err(error) = validate_rgba8_pair(reference, distorted) {
        return Err(error);
    }
    validate_windowed_ssim_options(options)
}

/// Reports a windowed comparison. Either backend's metric goes by the standard name.
pub fn windowed_ssim_comparison(
    metric: MetricOutput,
    execution: GpuExecution,
    fallback_reason: Option<String>,
) -> (comparison: GpuWindowedSsimComparison)
    ensures
        comparison.metric.name@ == "wssim"@,
        comparison.metric.score == metric.score,
        comparison.metric.unit == metric.unit,
        comparison.metric.direction == metric.direction,
        comparison.metric.details == metric.details,
        comparison.execution == execution,
        comparison.fallback_reason == fallback_reason,
{
    GpuWindowedSsimComparison {
        metric: MetricOutput {
            name: String::from_str("wssim"),
            score: metric.score,
            unit: metric.unit,
            direction: metric.direction,
            details: metric.details,
        },
        execution,
        fallback_reason,
    }
}

/// Error values of one comparison in code values.
#[derive(Debug, Clone, Copy, PartialEq, Eq, Structural)]
pub struct CodeErrors {
    /// Mean squared error.
    pub mse: Score,
    /// Mean squared error of red.
    pub mse_red: Score,
    /// Mean squared error of green.
    pub mse_green: Score,
    /// Mean squared error of blue.
    pub mse_blue: Score,
    /// Mean squared error of alpha.
    pub mse_alpha: Score,
    /// Mean absolute error.
    pub mae: Score,
    /// Maximum absolute error.
    pub max_abs: Score,
    /// Pixel count.
    pub pixels: Score,
}

impl CodeErrors {
    /// Detail of the kernel's metric.
    pub open spec fn detail(self, name: Seq<char>) -> Option<Score> {
        if name == "pixels"@ {
            Some(self.pixels)
        } else if name == "maxae"@ {
            Some(self.max_abs)
        } else if name == "mae"@ {
            Some(self.mae)
        } else if name == "mse_a"@ {
            Some(self.mse_alpha)
        } else if name == "mse_b"@ {
            Some(self.mse_blue)
        } else if name == "mse_g"@ {
            Some(self.mse_green)
        } else if name == "mse_r"@ {
            Some(self.mse_red)
        } else {
            None
        }
    }

    /// Writes the kernel's metric.
    pub fn into_metric_output(self) -> (output: MetricOutput)
        ensures
            output.name@ == "gpu_mse_rgba8"@,
            output.score == self.mse,
            output.unit@ == "code_value^2"@,
            output.direction is LowerIsBetter,
            forall|name: Seq<char>|
                #[trigger] output.details.spec_get(name) == self.detail(name),
    {
        MetricOutput::new(
            String::from_str("gpu_mse_rgba8"),
            self.mse,
            String::from_str("code_value^2"),
            Direction::LowerIsBetter,
        ).with_detail(String::from_str("mse_r"), self.mse_red).with_detail(
            String::from_str("mse_g"),
            self.mse_green,
        ).with_detail(String::from_str("mse_b"), self.mse_blue).with_detail(
            String::from_str("mse_a"),
            self.mse_alpha,
        ).with_detail(String::from_str("mae"), self.mae).with_detail(
            String::from_str("maxae"),
            self.max_abs,
        ).with_detail(String::from_str("pixels"), self.pixels)
    }
}

/// What the windows of one comparison amount to.
#[derive(Debug, Clone, Copy, PartialEq, Eq, Structural)]
pub struct WindowSummary {
    /// Mean of the windows.
    pub mean: Score,
    /// Number of windows.
    pub windows: Score,
    /// Number of pixels.
    pub samples: Score,
    /// Window width.
    pub window_width: Score,
    /// Window height.
    pub window_height: Score,
    /// Horizontal distance of windows.
    pub stride_x: Score,
    /// Vertical distance of windows.
    pub stride_y: Score,
    /// Mean contrast and structure term.
    pub mean_contrast_structure: Score,
    /// Smallest window.
    pub smallest: Score,
    /// Largest window.
    pub largest: Score,
}

impl WindowSummary {
    /// Detail of the kernel's metric.
    pub open spec fn detail(self, name: Seq<char>) -> Option<Score> {
        if name == "max_window_ssim"@ {
            Some(self.largest)
        } else if name == "min_window_ssim"@ {
            Some(self.smallest)
        } else if name == "unweighted_mean"@ {
            Some(self.mean)
        } else if name == "mean_contrast_structure"@ {
            Some(self.mean_contrast_structure)
        } else if name == "stride_y"@ {
            Some(self.stride_y)
        } else if name == "stride_x"@ {
            Some(self.stride_x)
        } else if name == "window_height"@ {
            Some(self.window_height)
        } else if name == "window_width"@ {
            Some(self.window_width)
        } else if name == "samples"@ {
            Some(self.samples)
        } else if name == "windows"@ {
            Some(self.windows)
        } else {
            None
        }
    }

    /// Writes the kernel's metric.
    pub fn into_metric_output(self) -> (output: MetricOutput)
        ensures
            output.name@ == "gpu_wssim_rgba8"@,
            output.score == self.mean,
            output.unit@ == "unitless"@,
            output.direction is HigherIsBetter,
            forall|name: Seq<char>|
                #[trigger] output.details.spec_get(name) == self.detail(name),
    {
        MetricOutput::new(
            String::from_str("gpu_wssim_rgba8"),
            self.mean,
            String::from_str("unitless"),
            Direction::HigherIsBetter,
        ).with_detail(String::from_str("windows"), self.windows).with_detail(
            String::from_str("samples"),
            self.samples,
        ).with_detail(String::from_str("window_width"), self.window_width).with_detail(
            String::from_str("window_height"),
            self.window_height,
        ).with_detail(String::from_str("stride_x"), self.stride_x).with_detail(
            String::from_str("stride_y"),
            self.stride_y,
        ).with_detail(
            String::from_str("mean_contrast_structure"),
            self.mean_contrast_structure,
        ).with_detail(String::from_str("unweighted_mean"), self.mean).with_detail(
            String::from_str("min_window_ssim"),
            self.smallest,
        ).with_detail(String::from_str("max_window_ssim"), self.largest)
    }
}

} // verus!
