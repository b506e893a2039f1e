//! What holds of plans, limits, and sums on the GPU as a whole.

use super::comparison::{
    covers, fell_back, fell_back_one, many_fault, merges_frame, sums_frames, ChannelGroupSums,
    GpuRgba8Comparison, GroupSums,
};
use super::{
    absolute_sum, axis_windows, batch_fits, batch_plan, candidate_fault, distance,
    error_pixel_limit, group_count, input_pixel_limit, last_start, law_dispatch_covers,
    law_pixels_keep_their_place, law_uniform_errors_add_up, law_windows_cover_axis, least,
    pair_fault, pair_plan, projects, rgba8_pixels, squared_sum, ssim_plan, total_length,
    window_fault, window_limit, workload_fault, working_set, ChannelErrorSums, GpuErrorDomain,
    GpuErrorMetric, GpuLimits, GpuRgba8ErrorSums, GpuWindowedSsimOptions, NormalizedErrors,
};
use crate::error::ErrorView;
use crate::frame::{ceil_div, Dimensions, FrameModel};
use crate::metrics::MetricOutput;
use crate::text::{decimal_text, optional_text};
use vstd::prelude::*;

verus! {

/// Whether so many bytes fit one storage buffer of an adapter.
pub open spec fn buffer_holds(limits: GpuLimits, bytes: int) -> bool {
    bytes <= limits.max_buffer_size && bytes <= limits.max_storage_buffer_binding_size
}

/// Whether a number of workgroups is the smallest whose invocations, 256 in each, are
/// enough; at least one is started.
pub open spec fn groups_suffice(groups: int, invocations: nat) -> bool {
    &&& groups >= 1
    &&& groups * 256 >= invocations
    &&& groups == 1 || (groups - 1) * 256 < invocations
}

/// A number of workgroups is fixed by the invocations.
proof fn lemma_groups(invocations: nat)
    ensures
        groups_suffice(group_count(invocations) as int, invocations),
        forall|groups: int|
            groups_suffice(groups, invocations) ==> groups == #[trigger] group_count(invocations),
{
}

/// A dispatch starts the fewest workgroups that cover the invocations, in a grid that
/// fits the adapter's limit on both sides, holds every workgroup, and has no row too
/// many. It fails exactly when no such grid exists.
pub proof fn law_dispatch_grid(limits: GpuLimits, operation: Seq<char>, invocations: nat)
    ensures
        ({
            let side = limits.max_compute_workgroups_per_dimension as int;
            match limits.dispatch(operation, invocations) {
                Ok((groups, x, y)) => {
                    &&& groups_suffice(groups as int, invocations)
                    &&& 1 <= x <= side
                    &&& 1 <= y <= side
                    &&& x * y >= groups
                    &&& x * (y - 1) < groups
                    &&& x == groups || x == side
                },
                Err(_) => forall|groups: int|
                    #[trigger] groups_suffice(groups, invocations) ==> groups > u32::MAX
                        || groups > side * side,
            }
        }),
{
    let groups = group_count(invocations);
    let side = limits.side();
    lemma_groups(invocations);
    law_dispatch_covers(limits, operation, invocations);
    if let Ok((g, x, y)) = limits.dispatch(operation, invocations) {
        assert(side > 0);
        assert(x == least(groups, side));
        assert(y == ceil_div(groups, x as nat));
        assert(x * (y - 1) < groups && y >= 1) by (nonlinear_arith)
            requires
                y == (groups + x - 1) / x as int,
                x >= 1,
                groups >= 1,
        ;
    }
}

/// Two frames can be compared exactly when their sizes agree and both are RGBA8.
pub proof fn law_comparable_pairs(reference: FrameModel, distorted: FrameModel, message: Seq<char>)
    ensures
        pair_fault(reference, distorted, message) is None <==> reference.dims.width
            == distorted.dims.width && reference.dims.height == distorted.dims.height
            && reference.format.pixel_format is Rgba8 && distorted.format.pixel_format is Rgba8,
        reference.dims != distorted.dims ==> pair_fault(
            reference,
            distorted,
            message,
        )->Some_0 is IncompatibleFrames,
        reference.dims == distorted.dims && pair_fault(reference, distorted, message) is Some
            ==> pair_fault(reference, distorted, message) == Some(
            ErrorView::UnsupportedInput(message),
        ),
{
}

/// The plan of a comparison counts what it needs: four bytes for each pixel, one
/// invocation for each pixel, and 48 bytes for each workgroup's sums. It exists exactly
/// when the frames can be compared and the adapter has room for all of it.
pub proof fn law_plans_count_what_they_need(
    limits: GpuLimits,
    reference: FrameModel,
    distorted: FrameModel,
)
    ensures
        ({
            let pixels = reference.dims.width * reference.dims.height;
            let side = limits.max_compute_workgroups_per_dimension as int;
            let comparable = reference.dims == distorted.dims
                && reference.format.pixel_format is Rgba8 && distorted.format.pixel_format is Rgba8;
            match pair_plan(limits, reference, distorted) {
                Ok(plan) => {
                    &&& comparable
                    &&& plan.pixels == pixels
                    &&& plan.input_bytes == 4 * pixels
                    &&& groups_suffice(plan.groups as int, pixels as nat)
                    &&& plan.partial_bytes == 48 * plan.groups
                    &&& plan.groups_x * plan.groups_y >= plan.groups
                    &&& plan.groups_x <= side && plan.groups_y <= side
                    &&& buffer_holds(limits, plan.input_bytes as int)
                    &&& buffer_holds(limits, plan.partial_bytes as int)
                },
                Err(_) => {
                    ||| !comparable
                    ||| pixels > u32::MAX
                    ||| !buffer_holds(limits, 4 * pixels)
                    ||| forall|groups: int|
                        #[trigger] groups_suffice(groups, pixels as nat) ==> groups > side * side
                            || !buffer_holds(limits, 48 * groups)
                },
            }
        }),
{
    let pixels = reference.dims.width * reference.dims.height;
    assert(pixels == reference.dims.width as nat * reference.dims.height as nat);
    assert(pixels >= 0) by (nonlinear_arith)
        requires
            pixels == reference.dims.width * reference.dims.height,
    ;
    law_dispatch_grid(limits, "gpu_mse_rgba8"@, pixels as nat);
    lemma_groups(pixels as nat);
    if pair_plan(limits, reference, distorted) is Err && pixels <= u32::MAX {
        assert forall|groups: int|
            #[trigger] groups_suffice(groups, pixels as nat) && buffer_holds(limits, 4 * pixels)
                && reference.dims == distorted.dims && reference.format.pixel_format is Rgba8
                && distorted.format.pixel_format is Rgba8 implies groups
            > limits.max_compute_workgroups_per_dimension
            * limits.max_compute_workgroups_per_dimension || !buffer_holds(
            limits,
            48 * groups,
        ) by {
            assert(groups == group_count(pixels as nat));
            assert(groups <= u32::MAX);
        }
    }
}

/// The transient memory of a batch is the largest of three moments: two copies of the
/// reference, the reference with two copies of the candidates, and everything resident
/// with the sums and their copy.
pub proof fn law_working_set_is_the_peak(reference: nat, candidates: nat, partials: nat)
    ensures
        ({
            let peak = working_set(reference, candidates, partials);
            let uploading = 2 * reference;
            let filling = reference + 2 * candidates;
            let running = reference + candidates + 2 * partials;
            &&& peak >= uploading && peak >= filling && peak >= running
            &&& peak == uploading || peak == filling || peak == running
        }),
{
}

/// What a batch of candidates asks of an adapter, in bytes and workgroups.
pub proof fn law_batches_count_what_they_need(
    limits: GpuLimits,
    pixels: nat,
    count: nat,
    groups: int,
)
    requires
        groups_suffice(groups, pixels),
    ensures
        batch_fits(limits, pixels, count) <==> {
            let side = limits.max_compute_workgroups_per_dimension as int;
            let image = 4 * pixels;
            let images = 4 * (pixels * count);
            let sums = 48 * (groups * count);
            &&& count <= side
            &&& groups <= side * side && groups <= 0xffff_ffff
            &&& pixels * count <= 0xffff_ffff
            &&& groups * count <= 0xffff_ffff
            &&& buffer_holds(limits, images as int)
            &&& buffer_holds(limits, sums)
            &&& 2 * image <= 0x2000_0000
            &&& image + 2 * images <= 0x2000_0000
            &&& image + images + 2 * sums <= 0x2000_0000
        },
        pixels <= u32::MAX ==> (batch_plan(limits, pixels, count) matches Ok(plan) ==> {
            &&& plan.pixels == pixels
            &&& plan.candidates == count
            &&& plan.input_bytes == 4 * pixels
            &&& plan.candidate_bytes == 4 * (pixels * count)
            &&& plan.groups == groups
            &&& plan.groups_x * plan.groups_y >= plan.groups
            &&& plan.partial_bytes == 48 * (groups * count)
        }),
{
    lemma_groups(pixels);
    assert(groups == group_count(pixels));
    law_dispatch_grid(limits, "gpu_mse_rgba8"@, pixels);
    let n = group_count(pixels);
    assert(groups * count == n * count);
    law_working_set_is_the_peak(4 * pixels, 4 * (pixels * count), 48nat * (n * count));
}

/// A smaller batch fits wherever a larger one does.
pub proof fn law_smaller_batches_fit(limits: GpuLimits, pixels: nat, fewer: nat, count: nat)
    requires
        fewer <= count,
        batch_fits(limits, pixels, count),
    ensures
        batch_fits(limits, pixels, fewer),
{
    let groups = group_count(pixels);
    lemma_groups(pixels);
    assert(pixels * fewer <= pixels * count) by (nonlinear_arith)
        requires
            fewer <= count,
    ;
    assert(groups * fewer <= groups * count) by (nonlinear_arith)
        requires
            fewer <= count,
    ;
    law_batches_count_what_they_need(limits, pixels, fewer, groups as int);
    law_batches_count_what_they_need(limits, pixels, count, groups as int);
    assert(groups as int * fewer == groups * fewer && groups as int * count == groups * count);
}

/// The lengths of the chunks are added up.
pub proof fn law_chunk_lengths_add_up(lengths: Seq<usize>)
    ensures
        total_length(lengths) == lengths.fold_left(0, |sum: int, length: usize| sum + length),
    decreases lengths.len(),
{
    if lengths.len() > 0 {
        law_chunk_lengths_add_up(lengths.drop_last());
    }
}

/// Windows reach the end of an axis and no window is left over: the last one ends at or
/// behind the end, the one before it ends earlier, and an axis no longer than the window
/// has one.
pub proof fn law_windows_reach_the_end(size: nat, window: nat, stride: nat)
    requires
        stride > 0,
    ensures
        ({
            let count = axis_windows(size, window, stride);
            &&& count >= 1
            &&& (count - 1) * stride + window >= size
            &&& count > 1 ==> (count - 2) * stride + window < size
            &&& size <= window ==> count == 1
        }),
{
    law_windows_cover_axis(size, window, stride);
    let count = axis_windows(size, window, stride);
    assert(count == 2 ==> (count - 2) * stride == 0) by (nonlinear_arith);
    if size <= window {
        assert(last_start(size, window) == 0);
        if count > 1 {
            assert((count - 2) * stride >= 0) by (nonlinear_arith)
                requires
                    count > 1,
                    stride > 0,
            ;
        }
    }
}

/// Windows are visited within the two safety caps: 1048576 samples in a window, and
/// 268435456 samples over all windows.
pub proof fn law_workload_caps(width: nat, height: nat, count: nat)
    ensures
        workload_fault(width, height, count) is None <==> width * height <= 1048576 && (width
            * height) * count <= 268435456,
{
}

/// The plan of a windowed comparison: windows are cut to the frame, they cover both axes,
/// each is one invocation and 16 bytes of output, and both inputs are four bytes a pixel.
pub proof fn law_window_plans(limits: GpuLimits, dims: Dimensions, options: GpuWindowedSsimOptions)
    requires
        window_fault(options) is None,
    ensures
        ssim_plan(limits, dims, options) matches Ok(plan) ==> {
            let windows_y = plan.window_count as int / plan.windows_x as int;
            &&& plan.width == dims.width && plan.height == dims.height
            &&& plan.window_width <= options.window_width && plan.window_width <= dims.width
            &&& plan.window_width == options.window_width || plan.window_width == dims.width
            &&& plan.window_height <= options.window_height && plan.window_height <= dims.height
            &&& plan.window_height == options.window_height || plan.window_height == dims.height
            &&& plan.stride_x == options.stride_x && plan.stride_y == options.stride_y
            &&& plan.window_count == plan.windows_x * windows_y
            &&& (plan.windows_x - 1) * plan.stride_x + plan.window_width >= plan.width
            &&& plan.windows_x > 1 ==> (plan.windows_x - 2) * plan.stride_x + plan.window_width
                < plan.width
            &&& (windows_y - 1) * plan.stride_y + plan.window_height >= plan.height
            &&& windows_y > 1 ==> (windows_y - 2) * plan.stride_y + plan.window_height
                < plan.height
            &&& groups_suffice(plan.groups as int, plan.window_count as nat)
            &&& plan.groups_x * plan.groups_y >= plan.groups
            &&& plan.input_pixels == dims.width * dims.height
            &&& plan.output_bytes == 16 * plan.window_count
            &&& buffer_holds(limits, 4 * plan.input_pixels)
            &&& buffer_holds(limits, plan.output_bytes as int)
            &&& plan.window_width * plan.window_height <= 1048576
            &&& (plan.window_width * plan.window_height) * plan.window_count <= 268435456
        },
{
    if let Ok(plan) = ssim_plan(limits, dims, options) {
        let width = dims.width as nat;
        let height = dims.height as nat;
        let window_width = least(options.window_width as nat, width);
        let window_height = least(options.window_height as nat, height);
        let windows_x = axis_windows(width, window_width, options.stride_x as nat);
        let windows_y = axis_windows(height, window_height, options.stride_y as nat);
        law_windows_reach_the_end(width, window_width, options.stride_x as nat);
        law_windows_reach_the_end(height, window_height, options.stride_y as nat);
        let count = windows_x * windows_y;
        law_dispatch_grid(limits, "gpu_wssim_rgba8"@, count);
        law_workload_caps(window_width, window_height, count);
        assert(windows_x <= count && count / windows_x == windows_y) by (nonlinear_arith)
            requires
                count == windows_x * windows_y,
                windows_x >= 1,
                windows_y >= 1,
        ;
        assert(plan.windows_x == windows_x);
        assert(plan.window_count == count);
        assert(width * height == dims.width * dims.height);
    }
}

/// Options are refused exactly when a side or a stride of the window is zero.
pub proof fn law_window_options(options: GpuWindowedSsimOptions)
    ensures
        window_fault(options) is None <==> options.window_width > 0 && options.window_height > 0
            && options.stride_x > 0 && options.stride_y > 0,
{
}

/// The published limits are the largest numbers that fit: of pixels in an input, of
/// pixels whose errors can be summed, and of windows.
pub proof fn law_published_limits(limits: GpuLimits, n: nat, groups: int)
    requires
        n > 0,
        groups_suffice(groups, n),
    ensures
        n <= input_pixel_limit(limits) <==> n <= u32::MAX && buffer_holds(limits, 4 * n as int),
        n <= error_pixel_limit(limits) <==> {
            let side = limits.max_compute_workgroups_per_dimension as int;
            &&& n <= u32::MAX
            &&& buffer_holds(limits, 4 * n as int)
            &&& buffer_holds(limits, 48 * groups)
            &&& groups <= side * side
        },
        n <= window_limit(limits) <==> {
            let side = limits.max_compute_workgroups_per_dimension as int;
            &&& n <= u32::MAX
            &&& buffer_holds(limits, 16 * n as int)
            &&& groups <= side * side
        },
{
    let side = limits.max_compute_workgroups_per_dimension as int;
    let square = side * side;
    assert((limits.side() * limits.side()) * 256 == square * 256);
    assert(square >= 0) by (nonlinear_arith)
        requires
            square == side * side,
    ;
    let storage = limits.storage();
    assert(n <= (storage / 48) * 256 <==> groups <= storage / 48);
    assert(n <= square * 256 <==> groups <= square);
}

/// A batch is refused for the first candidate that cannot be compared, which is named,
/// and for no other.
pub proof fn law_first_bad_candidate_is_reported(
    reference: FrameModel,
    candidates: Seq<FrameModel>,
    i: int,
)
    requires
        0 <= i <= candidates.len(),
        forall|j: int|
            0 <= j < i ==> (#[trigger] candidates[j]).dims == reference.dims
                && candidates[j].format.pixel_format is Rgba8,
        reference.format.pixel_format is Rgba8,
        i < candidates.len() ==> candidates[i].dims != reference.dims || !(
        candidates[i].format.pixel_format is Rgba8),
    ensures
        i == candidates.len() ==> candidate_fault(reference, candidates, 0) is None && many_fault(
            reference,
            candidates,
            0,
        ) is None,
        i < candidates.len() ==> {
            let fault = pair_fault(
                reference,
                candidates[i],
                "GPU RGBA8 comparison requires RGBA8 inputs"@,
            );
            &&& fault is Some
            &&& many_fault(reference, candidates, 0) == fault
            &&& candidate_fault(reference, candidates, 0) == Some(
                ErrorView::Gpu(
                    "RGBA8 candidate "@ + decimal_text(i as nat)
                        + " is incompatible: "@ + fault->Some_0.message(),
                ),
            )
        },
{
    lemma_first_bad(reference, candidates, i, 0);
}

proof fn lemma_first_bad(reference: FrameModel, candidates: Seq<FrameModel>, i: int, from: int)
    requires
        0 <= from <= i <= candidates.len(),
        forall|j: int|
            from <= j < i ==> (#[trigger] candidates[j]).dims == reference.dims
                && candidates[j].format.pixel_format is Rgba8,
        reference.format.pixel_format is Rgba8,
        i < candidates.len() ==> candidates[i].dims != reference.dims || !(
        candidates[i].format.pixel_format is Rgba8),
    ensures
        candidate_fault(reference, candidates, from) == candidate_fault(reference, candidates, i),
        many_fault(reference, candidates, from) == many_fault(reference, candidates, i),
    decreases i - from,
{
    if from < i {
        lemma_first_bad(reference, candidates, i, from + 1);
        let candidate = candidates[from];
    }
}

/// The sums of workgroups are added channel by channel: without groups they are zero, and
/// one more group adds its own sums and raises the largest difference where its own is
/// larger.
pub proof fn law_each_group_adds_its_sums(
    none: GpuRgba8ErrorSums,
    fewer: GpuRgba8ErrorSums,
    more: GpuRgba8ErrorSums,
    groups: Seq<GroupSums>,
    from: int,
    to: int,
)
    requires
        0 <= from <= to < groups.len(),
        merges_frame(none, groups, from, from),
        merges_frame(fewer, groups, from, to),
        merges_frame(more, groups, from, to + 1),
    ensures
        ({
            let zero = |sums: ChannelErrorSums|
                sums.squared == 0 && sums.absolute == 0 && sums.largest == 0;
            let grows = |a: ChannelErrorSums, b: ChannelErrorSums, group: ChannelGroupSums|
                {
                    &&& b.squared == a.squared + group.squared
                    &&& b.absolute == a.absolute + group.absolute
                    &&& b.largest == if group.largest > a.largest {
                        group.largest
                    } else {
                        a.largest
                    }
                };
            &&& zero(none.red) && zero(none.green) && zero(none.blue) && zero(none.alpha)
            &&& grows(fewer.red, more.red, groups[to].red)
            &&& grows(fewer.green, more.green, groups[to].green)
            &&& grows(fewer.blue, more.blue, groups[to].blue)
            &&& grows(fewer.alpha, more.alpha, groups[to].alpha)
        }),
{
}

/// The sums of a workgroup are those of its own pixels: a group of one pixel has the
/// square and the size of that pixel's difference, and a group of two ranges has the sums
/// of both.
pub proof fn law_group_sums_are_those_of_its_pixels(
    group: ChannelGroupSums,
    left: ChannelGroupSums,
    right: ChannelGroupSums,
    a: Seq<u8>,
    b: Seq<u8>,
    channel: int,
    from: int,
    cut: int,
    to: int,
)
    requires
        0 <= from <= cut <= to,
        covers(group, a, b, channel, from, to),
        covers(left, a, b, channel, from, cut),
        covers(right, a, b, channel, cut, to),
    ensures
        group.squared == left.squared + right.squared,
        group.absolute == left.absolute + right.absolute,
        group.largest == if left.largest > right.largest {
            left.largest
        } else {
            right.largest
        },
        to == from + 1 ==> {
            let d = a[4 * from + channel] - b[4 * from + channel];
            &&& group.squared == d * d
            &&& group.absolute == if d < 0 {
                -d
            } else {
                d
            }
            &&& group.largest == group.absolute
        },
{
    if to == from + 1 {
        let d = a[4 * from + channel] - b[4 * from + channel];
        let size = distance(a[4 * from + channel], b[4 * from + channel]);
        assert(d * d == size * size) by (nonlinear_arith)
            requires
                size == d || size == -d,
        ;
        assert(squared_sum(a, b, channel, to as nat) == squared_sum(a, b, channel, from as nat)
            + size * size);
        assert(absolute_sum(a, b, channel, to as nat) == absolute_sum(a, b, channel, from as nat)
            + size);
    }
    if left.largest != 0 {
        let i = choose|i: int|
            from <= i < cut && distance(#[trigger] a[4 * i + channel], b[4 * i + channel])
                == left.largest;
        assert(distance(a[4 * i + channel], b[4 * i + channel]) <= group.largest);
    }
    if right.largest != 0 {
        let i = choose|i: int|
            cut <= i < to && distance(#[trigger] a[4 * i + channel], b[4 * i + channel])
                == right.largest;
        assert(distance(a[4 * i + channel], b[4 * i + channel]) <= group.largest);
    }
    if group.largest != 0 {
        let i = choose|i: int|
            from <= i < to && distance(#[trigger] a[4 * i + channel], b[4 * i + channel])
                == group.largest;
        if i < cut {
            assert(distance(a[4 * i + channel], b[4 * i + channel]) <= left.largest);
        } else {
            assert(distance(a[4 * i + channel], b[4 * i + channel]) <= right.largest);
        }
    }
}

/// The sums of two frames speak of their own bytes: where a channel of every pixel differs
/// by the same amount, in whatever rows the frames are kept, its sums are those of that
/// amount once for each pixel, whatever the other channels hold.
pub proof fn law_frame_sums_are_those_of_the_bytes(
    sums: GpuRgba8ErrorSums,
    reference: FrameModel,
    distorted: FrameModel,
    c: int,
    d: int,
)
    requires
        reference.valid(),
        distorted.valid(),
        pair_fault(reference, distorted, Seq::empty()) is None,
        sums_frames(sums, reference, distorted),
        0 <= c < 4,
        forall|x: int, y: int|
            0 <= x < reference.dims.width && 0 <= y < reference.dims.height ==> #[trigger] byte_at(
                reference,
                x,
                y,
                c,
            ) - byte_at(distorted, x, y, c) == d,
    ensures
        ({
            let pixels = reference.dims.width * reference.dims.height;
            let own = if c == 0 {
                sums.red
            } else if c == 1 {
                sums.green
            } else if c == 2 {
                sums.blue
            } else {
                sums.alpha
            };
            let size = if d < 0 {
                -d
            } else {
                d
            };
            &&& sums.pixels == pixels
            &&& own.squared == pixels * (d * d)
            &&& own.absolute == pixels * size
            &&& own.largest == size
        }),
{
    let width = reference.dims.width as int;
    let height = reference.dims.height as int;
    let pixels = width * height;
    let a = rgba8_pixels(reference);
    let b = rgba8_pixels(distorted);
    assert(pixels > 0) by (nonlinear_arith)
        requires
            pixels == width * height,
            width > 0,
            height > 0,
    ;
    assert forall|i: int| 0 <= i < pixels implies #[trigger] a[4 * i + c] - b[4 * i + c] == d by {
        let x = i % width;
        let y = i / width;
        assert(0 <= x < width && 0 <= y < height && i == y * width + x) by (nonlinear_arith)
            requires
                0 <= i < width * height,
                x == i % width,
                y == i / width,
                width > 0,
        ;
        law_pixels_keep_their_place(reference, x, y, c);
        law_pixels_keep_their_place(distorted, x, y, c);
        assert(byte_at(reference, x, y, c) - byte_at(distorted, x, y, c) == d);
    }
    law_uniform_errors_add_up(
        if c == 0 {
            sums.red
        } else if c == 1 {
            sums.green
        } else if c == 2 {
            sums.blue
        } else {
            sums.alpha
        },
        a,
        b,
        c,
        pixels as nat,
        d,
    );
}

/// Byte of a channel of a pixel in an RGBA8 frame.
pub open spec fn byte_at(frame: FrameModel, x: int, y: int, c: int) -> int {
    frame.planes[0].data[y * frame.planes[0].stride + 4 * x + c] as int
}

/// Whatever the frames hold, no pixel's difference is lost: the largest difference is at
/// least that of every pixel and is reached by one, or there is none.
pub proof fn law_no_difference_is_lost(
    sums: GpuRgba8ErrorSums,
    reference: FrameModel,
    distorted: FrameModel,
    x: int,
    y: int,
)
    requires
        reference.valid(),
        distorted.valid(),
        pair_fault(reference, distorted, Seq::empty()) is None,
        sums_frames(sums, reference, distorted),
        0 <= x < reference.dims.width,
        0 <= y < reference.dims.height,
    ensures
        ({
            let apart = |c: int| byte_at(reference, x, y, c) - byte_at(distorted, x, y, c);
            &&& -sums.red.largest <= apart(0) <= sums.red.largest
            &&& -sums.green.largest <= apart(1) <= sums.green.largest
            &&& -sums.blue.largest <= apart(2) <= sums.blue.largest
            &&& -sums.alpha.largest <= apart(3) <= sums.alpha.largest
        }),
{
    let width = reference.dims.width as int;
    let height = reference.dims.height as int;
    let i = y * width + x;
    assert(0 <= i < width * height) by (nonlinear_arith)
        requires
            i == y * width + x,
            0 <= x < width,
            0 <= y < height,
    ;
    let a = rgba8_pixels(reference);
    let b = rgba8_pixels(distorted);
    law_pixels_keep_their_place(reference, x, y, 0);
    law_pixels_keep_their_place(reference, x, y, 1);
    law_pixels_keep_their_place(reference, x, y, 2);
    law_pixels_keep_their_place(reference, x, y, 3);
    law_pixels_keep_their_place(distorted, x, y, 0);
    law_pixels_keep_their_place(distorted, x, y, 1);
    law_pixels_keep_their_place(distorted, x, y, 2);
    law_pixels_keep_their_place(distorted, x, y, 3);
    assert(distance(a[4 * i + 0], b[4 * i + 0]) <= sums.red.largest);
    assert(distance(a[4 * i + 1], b[4 * i + 1]) <= sums.green.largest);
    assert(distance(a[4 * i + 2], b[4 * i + 2]) <= sums.blue.largest);
    assert(distance(a[4 * i + 3], b[4 * i + 3]) <= sums.alpha.largest);
}

/// When a batch falls back, every candidate is compared with the reference, in order, and
/// the reason is kept.
pub proof fn law_every_candidate_falls_back(
    compared: Seq<GpuRgba8Comparison>,
    reference: FrameModel,
    candidates: Seq<FrameModel>,
    reason: Option<Seq<char>>,
    i: int,
)
    requires
        fell_back(compared, reference, candidates, reason),
        0 <= i < candidates.len(),
    ensures
        compared.len() == candidates.len(),
        sums_frames(compared[i].error_sums, reference, candidates[i]),
        compared[i].execution is CpuFallback,
        optional_text(compared[i].fallback_reason) == reason,
{
    assert(fell_back_one(compared[i], reference, candidates[i], reason));
}

/// A projected metric carries the value of its own kind.
pub proof fn law_projected_metrics_carry_their_value(
    output: MetricOutput,
    metric: GpuErrorMetric,
    domain: GpuErrorDomain,
    errors: NormalizedErrors,
)
    requires
        projects(output, metric, domain, errors),
    ensures
        metric is Mse ==> output.score == errors.mse,
        metric is Rmse ==> output.score == errors.rmse,
        metric is Psnr ==> output.score == errors.psnr,
        metric is Mae ==> output.score == errors.mae,
        metric is MaxAbsoluteError ==> output.score == errors.max_abs,
        output.direction is HigherIsBetter <==> metric is Psnr,
        output.direction is LowerIsBetter <==> !(metric is Psnr),
        output.details.spec_get("channels"@) == Some(errors.channels),
        output.details.spec_get("mse"@) is Some ==> metric is Psnr,
{
    reveal_strlit("channels");
    reveal_strlit("samples");
    reveal_strlit("pixels");
    reveal_strlit("mse");
    assert("mse"@.len() == 3 && "channels"@.len() == 8 && "samples"@.len() == 7 && "pixels"@.len()
        == 6);
}

/// A windowed comparison is planned exactly when its strides, windows, and pixels can be
/// counted in 32 bits, both safety caps are kept, and the adapter has room for the input,
/// the output, and the workgroups. The numbers of windows are the smallest that cover
/// both axes.
pub proof fn law_window_plans_that_exist(
    limits: GpuLimits,
    dims: Dimensions,
    options: GpuWindowedSsimOptions,
    across: int,
    down: int,
    groups: int,
)
    requires
        window_fault(options) is None,
        ({
            let window = if options.window_width < dims.width {
                options.window_width as int
            } else {
                dims.width as int
            };
            &&& across >= 1
            &&& (across - 1) * options.stride_x + window >= dims.width
            &&& across > 1 ==> (across - 2) * options.stride_x + window < dims.width
        }),
        ({
            let window = if options.window_height < dims.height {
                options.window_height as int
            } else {
                dims.height as int
            };
            &&& down >= 1
            &&& (down - 1) * options.stride_y + window >= dims.height
            &&& down > 1 ==> (down - 2) * options.stride_y + window < dims.height
        }),
        groups_suffice(groups, (across * down) as nat),
    ensures
        ({
            let side = limits.max_compute_workgroups_per_dimension as int;
            let w = if options.window_width < dims.width {
                options.window_width as int
            } else {
                dims.width as int
            };
            let h = if options.window_height < dims.height {
                options.window_height as int
            } else {
                dims.height as int
            };
            ssim_plan(limits, dims, options) is Ok <==> {
                &&& options.stride_x <= u32::MAX && options.stride_y <= u32::MAX
                &&& across * down <= u32::MAX
                &&& w * h <= 1048576
                &&& (w * h) * (across * down) <= 268435456
                &&& dims.width * dims.height <= u32::MAX
                &&& buffer_holds(limits, 4 * (dims.width * dims.height))
                &&& groups <= side * side
                &&& 16 * (across * down) <= usize::MAX
                &&& buffer_holds(limits, 16 * (across * down))
            }
        }),
{
    let width = dims.width as nat;
    let height = dims.height as nat;
    let window_width = least(options.window_width as nat, width);
    let window_height = least(options.window_height as nat, height);
    law_windows_reach_the_end(width, window_width, options.stride_x as nat);
    law_windows_reach_the_end(height, window_height, options.stride_y as nat);
    let windows_x = axis_windows(width, window_width, options.stride_x as nat);
    let windows_y = axis_windows(height, window_height, options.stride_y as nat);
    lemma_window_count(
        width as int,
        window_width as int,
        options.stride_x as int,
        across,
        windows_x as int,
    );
    lemma_window_count(
        height as int,
        window_height as int,
        options.stride_y as int,
        down,
        windows_y as int,
    );
    let count = windows_x * windows_y;
    assert(count == across * down);
    law_workload_caps(window_width, window_height, count);
    law_dispatch_covers(limits, "gpu_wssim_rgba8"@, count);
    lemma_groups(count);
    assert(width * height == dims.width * dims.height);
    assert(groups == group_count(count));
    let side = limits.max_compute_workgroups_per_dimension as int;
    assert(limits.side() * limits.side() == side * side);
    assert(count <= u32::MAX ==> groups <= u32::MAX);
}

/// The number of windows is fixed by what it covers.
proof fn lemma_window_count(size: int, window: int, stride: int, a: int, b: int)
    requires
        stride > 0,
        a >= 1,
        b >= 1,
        (a - 1) * stride + window >= size,
        a > 1 ==> (a - 2) * stride + window < size,
        (b - 1) * stride + window >= size,
        b > 1 ==> (b - 2) * stride + window < size,
    ensures
        a == b,
{
    if a < b {
        assert((b - 2) * stride >= (a - 1) * stride) by (nonlinear_arith)
            requires
                a < b,
                stride > 0,
        ;
    } else if b < a {
        assert((a - 2) * stride >= (b - 1) * stride) by (nonlinear_arith)
            requires
                b < a,
                stride > 0,
        ;
    }
}

} // verus!
