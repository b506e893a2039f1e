//! Planning of GPU comparisons: limits, dispatch sizes, batches, and fallback.
//!
//! The kernels work on RGBA8 frames, one 32-bit word per pixel. Everything that
//! can be decided before a buffer is created is decided here.

use crate::error::{outcome, Error, ErrorView, Result};
use crate::frame::{
    ceil_div, describe_size, law_tight_keeps_bytes, size_text, Dimensions, FrameModel, FrameView,
    PixelFormat, Validated,
};
use crate::metrics::{Direction, MetricOutput, Score};
use crate::text::{concat2, concat3, concat4, concat5, concat6, decimal, decimal_text};
use vstd::prelude::*;

pub mod comparison;
pub mod laws;

verus! {

/// Invocations in one compute workgroup.
pub const WORKGROUP_SIZE: u64 = 256;

/// A window is scanned serially by one shader invocation, so its samples are capped.
pub const MAX_GPU_WSSIM_SAMPLES_PER_WINDOW: u64 = 1_048_576;

/// Cap on the samples that all windows of one comparison visit together.
pub const MAX_GPU_WSSIM_TOTAL_SAMPLE_VISITS: u64 = 268_435_456;

/// Cap on the transient memory of a batch: upload overlap, output, and readback.
pub const MAX_GPU_BATCH_WORKING_SET_BYTES: u64 = 536_870_912;

/// Bytes of one partial error reduction: three times four 32-bit channels.
pub const PARTIAL_STATS_BYTES: u64 = 48;

/// Bytes of one window result.
pub const SSIM_WINDOW_BYTES: u64 = 16;

/// Adapter power preference used while creating a GPU context.
#[derive(Debug, Clone, Copy, PartialEq, Eq, Structural)]
pub enum GpuPowerPreference {
    /// Let wgpu choose without a power preference.
    NoPreference,
    /// Prefer an integrated or otherwise power-efficient adapter.
    LowPower,
    /// Prefer the highest-performance adapter.
    HighPerformance,
}

impl Default for GpuPowerPreference {
    fn default() -> (preference: Self)
        ensures
            preference == GpuPowerPreference::HighPerformance,
    {
        GpuPowerPreference::HighPerformance
    }
}

/// Options controlling wgpu adapter selection.
#[derive(Debug, Clone, Copy, PartialEq, Eq, Structural)]
pub struct GpuContextOptions {
    /// Adapter power preference.
    pub power_preference: GpuPowerPreference,
    /// Require a fallback adapter, which is normally a software implementation.
    pub force_fallback_adapter: bool,
}

impl Default for GpuContextOptions {
    fn default() -> (options: Self)
        ensures
            options == (GpuContextOptions {
                power_preference: GpuPowerPreference::HighPerformance,
                force_fallback_adapter: false,
            }),
    {
        Self {
            power_preference: GpuPowerPreference::HighPerformance,
            force_fallback_adapter: false,
        }
    }
}

/// Error metric derivations available from one GPU reduction pass.
#[derive(Debug, Clone, Copy, PartialEq, Eq, Hash, Structural)]
pub enum GpuErrorMetric {
    /// Mean squared error.
    Mse,
    /// Root mean squared error.
    Rmse,
    /// Peak signal-to-noise ratio.
    Psnr,
    /// Mean absolute error.
    Mae,
    /// Maximum absolute error.
    MaxAbsoluteError,
}

/// RGBA8 channel domain used when projecting GPU error statistics.
#[derive(Debug, Clone, Copy, PartialEq, Eq, Hash, Structural)]
pub enum GpuErrorDomain {
    /// Compare RGB channels and ignore alpha.
    Color,
    /// Compare all RGBA channels.
    All,
}

impl Default for GpuErrorDomain {
    fn default() -> (domain: Self)
        ensures
            domain == GpuErrorDomain::All,
    {
        GpuErrorDomain::All
    }
}

impl GpuErrorDomain {
    /// Suffix of metric names in this domain.
    pub open spec fn label(self) -> Seq<char> {
        match self {
            GpuErrorDomain::Color => "color"@,
            GpuErrorDomain::All => "all"@,
        }
    }

    /// Suffix of metric names in this domain.
    pub fn suffix(self) -> (text: &'static str)
        ensures
            text@ == self.label(),
    {
        match self {
            GpuErrorDomain::Color => "color",
            GpuErrorDomain::All => "all",
        }
    }

    /// Number of channels that the domain covers, red first.
    pub fn channels(self) -> (count: usize)
        ensures
            count == if self is Color {
                3usize
            } else {
                4usize
            },
    {
        match self {
            GpuErrorDomain::Color => 3,
            GpuErrorDomain::All => 4,
        }
    }
}

impl GpuErrorMetric {
    /// Name stem of the metric.
    pub open spec fn stem(self) -> Seq<char> {
        match self {
            GpuErrorMetric::Mse => "mse"@,
            GpuErrorMetric::Rmse => "rmse"@,
            GpuErrorMetric::Psnr => "psnr"@,
            GpuErrorMetric::Mae => "mae"@,
            GpuErrorMetric::MaxAbsoluteError => "maxae"@,
        }
    }

    /// Unit of the normalized metric.
    pub open spec fn unit_text(self) -> Seq<char> {
        match self {
            GpuErrorMetric::Mse => "normalized_code^2"@,
            GpuErrorMetric::Psnr => "dB"@,
            _ => "normalized_code"@,
        }
    }

    /// Every metric derived by the RGBA8 error kernel.
    pub fn all() -> (metrics: Vec<GpuErrorMetric>)
        ensures
            metrics@ == seq![
                GpuErrorMetric::Mse,
                GpuErrorMetric::Rmse,
                GpuErrorMetric::Psnr,
                GpuErrorMetric::Mae,
                GpuErrorMetric::MaxAbsoluteError,
            ],
    {
        vec![
            GpuErrorMetric::Mse,
            GpuErrorMetric::Rmse,
            GpuErrorMetric::Psnr,
            GpuErrorMetric::Mae,
            GpuErrorMetric::MaxAbsoluteError,
        ]
    }

    /// Name of the metric in a domain.
    pub fn output_name(self, domain: GpuErrorDomain) -> (name: String)
        ensures
            name@ == self.stem() + ":"@ + domain.label(),
    {
        let stem = match self {
            GpuErrorMetric::Mse => "mse",
            GpuErrorMetric::Rmse => "rmse",
            GpuErrorMetric::Psnr => "psnr",
            GpuErrorMetric::Mae => "mae",
            GpuErrorMetric::MaxAbsoluteError => "maxae",
        };
        concat3(stem, ":", domain.suffix())
    }

    /// Unit of the normalized metric.
    pub fn unit(self) -> (text: &'static str)
        ensures
            text@ == self.unit_text(),
    {
        match self {
            GpuErrorMetric::Mse => "normalized_code^2",
            GpuErrorMetric::Psnr => "dB",
            _ => "normalized_code",
        }
    }

    /// Only the signal-to-noise ratio grows with quality.
    pub fn direction(self) -> (direction: Direction)
        ensures
            direction == if self is Psnr {
                Direction::HigherIsBetter
            } else {
                Direction::LowerIsBetter
            },
    {
        match self {
            GpuErrorMetric::Psnr => Direction::HigherIsBetter,
            _ => Direction::LowerIsBetter,
        }
    }
}

/// Local-window configuration for the GPU SSIM kernel.
#[derive(Debug, Clone, Copy, PartialEq, Eq, Structural)]
pub struct GpuWindowedSsimOptions {
    /// Window width in pixels.
    pub window_width: usize,
    /// Window height in pixels.
    pub window_height: usize,
    /// Horizontal distance between adjacent windows.
    pub stride_x: usize,
    /// Vertical distance between adjacent windows.
    pub stride_y: usize,
}

impl Default for GpuWindowedSsimOptions {
    fn default() -> (options: Self)
        ensures
            options == (GpuWindowedSsimOptions {
                window_width: 8,
                window_height: 8,
                stride_x: 8,
                stride_y: 8,
            }),
    {
        Self { window_width: 8, window_height: 8, stride_x: 8, stride_y: 8 }
    }
}

/// Policy controlling transparent CPU fallback.
#[derive(Debug, Clone, Copy, PartialEq, Eq, Structural)]
pub enum GpuFallbackPolicy {
    /// GPU initialization and execution failures are returned to the caller.
    Never,
    /// Fall back only when no GPU context can be initialized.
    InitializationOnly,
    /// Fall back on initialization, dispatch, or readback failure.
    AnyGpuError,
}

impl Default for GpuFallbackPolicy {
    fn default() -> (policy: Self)
        ensures
            policy == GpuFallbackPolicy::AnyGpuError,
    {
        GpuFallbackPolicy::AnyGpuError
    }
}

/// Options for the reusable high-level GPU comparator.
#[derive(Debug, Clone, Copy, PartialEq, Eq, Structural)]
pub struct GpuComparatorOptions {
    /// wgpu adapter-selection options.
    pub context: GpuContextOptions,
    /// CPU fallback policy.
    pub fallback: GpuFallbackPolicy,
}

impl Default for GpuComparatorOptions {
    fn default() -> (options: Self)
        ensures
            options.context == (GpuContextOptions {
                power_preference: GpuPowerPreference::HighPerformance,
                force_fallback_adapter: false,
            }),
            options.fallback == GpuFallbackPolicy::AnyGpuError,
    {
        Self {
            context: GpuContextOptions {
                power_preference: GpuPowerPreference::HighPerformance,
                force_fallback_adapter: false,
            },
            fallback: GpuFallbackPolicy::AnyGpuError,
        }
    }
}

/// Backend that produced a comparison result.
#[derive(Debug, Clone, Copy, PartialEq, Eq, Structural)]
pub enum GpuExecution {
    /// The wgpu compute kernel produced the result.
    Gpu,
    /// The deterministic CPU implementation produced the result.
    CpuFallback,
}

/// Result of a windowed-luma-SSIM comparison with backend provenance.
#[derive(Debug)]
pub struct GpuWindowedSsimComparison {
    /// Standard `wssim` metric output.
    pub metric: MetricOutput,
    /// Backend that produced the metric.
    pub execution: GpuExecution,
    /// GPU failure that caused CPU fallback, when applicable.
    pub fallback_reason: Option<String>,
}

/// What happened on the GPU side of a comparison.
#[derive(Debug)]
pub enum GpuAttempt {
    /// There is no GPU context; the text is the retained initialization failure.
    Unavailable(Option<String>),
    /// The kernel produced a result.
    Succeeded,
    /// The GPU failed with this message.
    Failed(String),
}

/// How a comparison goes on after the GPU attempt.
#[derive(Debug)]
pub enum GpuNextStep {
    /// Keep the GPU result.
    UseGpu,
    /// Compute on the CPU and report this reason.
    RunCpu(Option<String>),
    /// Return the GPU failure to the caller.
    Fail,
}

impl GpuFallbackPolicy {
    /// Tells whether a comparator is still created when initialization fails.
    pub fn keeps_initialization_failure(self) -> (keeps: bool)
        ensures
            keeps == !(self is Never),
    {
        match self {
            GpuFallbackPolicy::Never => false,
            _ => true,
        }
    }

    /// Decides how a comparison goes on: a missing context and, where the policy
    /// covers it, a failed kernel are replaced by the CPU implementation.
    pub fn next_step(self, attempt: GpuAttempt) -> (step: GpuNextStep)
        ensures
            match attempt {
                GpuAttempt::Unavailable(reason) => step == GpuNextStep::RunCpu(reason),
                GpuAttempt::Succeeded => step is UseGpu,
                GpuAttempt::Failed(message) => if self is AnyGpuError {
                    step == GpuNextStep::RunCpu(Some(message))
                } else {
                    step is Fail
                },
            },
    {
        match attempt {
            GpuAttempt::Unavailable(reason) => GpuNextStep::RunCpu(reason),
            GpuAttempt::Succeeded => GpuNextStep::UseGpu,
            GpuAttempt::Failed(message) => match self {
                GpuFallbackPolicy::AnyGpuError => GpuNextStep::RunCpu(Some(message)),
                _ => GpuNextStep::Fail,
            },
        }
    }
}

impl GpuNextStep {
    /// Backend named in a result of this step; a failure has none.
    pub fn execution(&self) -> (execution: Option<GpuExecution>)
        ensures
            execution == match *self {
                GpuNextStep::UseGpu => Some(GpuExecution::Gpu),
                GpuNextStep::RunCpu(_) => Some(GpuExecution::CpuFallback),
                GpuNextStep::Fail => None,
            },
    {
        match self {
            GpuNextStep::UseGpu => Some(GpuExecution::Gpu),
            GpuNextStep::RunCpu(_) => Some(GpuExecution::CpuFallback),
            GpuNextStep::Fail => None,
        }
    }
}

/// Device limits that the kernels depend on.
#[derive(Debug, Clone, Copy, PartialEq, Eq, Structural)]
pub struct GpuLimits {
    /// Maximum size of an individual GPU buffer.
    pub max_buffer_size: u64,
    /// Maximum size exposed through one storage binding.
    pub max_storage_buffer_binding_size: u64,
    /// Maximum workgroup count in each dispatch dimension.
    pub max_compute_workgroups_per_dimension: u32,
}

/// Smaller of two numbers.
pub open spec fn least(a: nat, b: nat) -> nat {
    if a <= b {
        a
    } else {
        b
    }
}

/// Workgroups for a number of invocations; there is always at least one.
pub open spec fn group_count(invocations: nat) -> nat {
    if invocations == 0 {
        1
    } else {
        ceil_div(invocations, WORKGROUP_SIZE as nat)
    }
}

impl GpuLimits {
    /// Largest storage buffer.
    pub open spec fn storage(self) -> nat {
        least(self.max_buffer_size as nat, self.max_storage_buffer_binding_size as nat)
    }

    /// Largest number of workgroups per dimension.
    pub open spec fn side(self) -> nat {
        self.max_compute_workgroups_per_dimension as nat
    }

    /// Whether the workgroups can be dispatched over two dimensions.
    pub open spec fn dispatches(self, groups: nat) -> bool {
        groups <= u32::MAX && groups <= self.side() * self.side()
    }

    /// Error for a buffer that exceeds the storage limit.
    pub open spec fn storage_error(self, operation: Seq<char>, bytes: nat) -> ErrorView {
        ErrorView::UnsupportedInput(
            operation + " requires "@ + decimal_text(bytes)
                + " bytes, exceeding the adapter storage-buffer limit of "@ + decimal_text(
                self.storage(),
            ) + " bytes"@,
        )
    }

    /// Workgroup counts of a dispatch, or why it cannot run.
    pub open spec fn dispatch(self, operation: Seq<char>, invocations: nat) -> core::result::Result<
        (u32, u32, u32),
        ErrorView,
    > {
        let groups = group_count(invocations);
        let x = least(groups, self.side());
        if groups > u32::MAX {
            Err(ErrorView::UnsupportedInput(operation + " requires too many workgroups"@))
        } else if self.side() == 0 {
            Err(
                ErrorView::Gpu(
                    operation
                        + " cannot run because the adapter reports a zero compute dispatch limit"@,
                ),
            )
        } else if ceil_div(groups, x) > self.side() {
            Err(
                ErrorView::UnsupportedInput(
                    operation + " requires "@ + decimal_text(groups)
                        + " workgroups, exceeding the adapter dispatch capacity of "@
                        + decimal_text(self.side() * self.side()),
                ),
            )
        } else {
            Ok((groups as u32, x as u32, ceil_div(groups, x) as u32))
        }
    }

    fn storage_limit(&self) -> (limit: u64)
        ensures
            limit == self.storage(),
    {
        if self.max_buffer_size <= self.max_storage_buffer_binding_size {
            self.max_buffer_size
        } else {
            self.max_storage_buffer_binding_size
        }
    }

    fn ensure_storage_buffer_size(&self, operation: &str, bytes: u64) -> (result: Result<()>)
        ensures
            outcome(result) == if bytes > self.storage() {
                Err::<(), ErrorView>(self.storage_error(operation@, bytes as nat))
            } else {
                Ok(())
            },
    {
        let limit: u64 = self.storage_limit();
        if bytes > limit {
            return Err(
                Error::unsupported(
                    concat6(
                        operation,
                        " requires ",
                        decimal(bytes).as_str(),
                        " bytes, exceeding the adapter storage-buffer limit of ",
                        decimal(limit).as_str(),
                        " bytes",
                    ).as_str(),
                ),
            );
        }
        Ok(())
    }

    /// Spreads workgroups over two dispatch dimensions.
    pub fn dispatch_dimensions(&self, operation: &str, invocations: u64) -> (result: Result<
        (u32, u32, u32),
    >)
        ensures
            outcome(result) == self.dispatch(operation@, invocations as nat),
    {
        let groups: u64 = if invocations == 0 {
            1
        } else {
            (invocations - 1) / WORKGROUP_SIZE + 1
        };
        assert(groups == group_count(invocations as nat));
        if groups > u32::MAX as u64 {
            return Err(
                Error::unsupported(concat2(operation, " requires too many workgroups").as_str()),
            );
        }
        let side: u64 = self.max_compute_workgroups_per_dimension as u64;
        if side == 0 {
            return Err(
                Error::Gpu(
                    concat2(
                        operation,
                        " cannot run because the adapter reports a zero compute dispatch limit",
                    ),
                ),
            );
        }
        let groups_x: u64 = if groups <= side {
            groups
        } else {
            side
        };
        let groups_y: u64 = (groups + groups_x - 1) / groups_x;
        proof {
            assert(side * side <= u64::MAX) by (nonlinear_arith)
                requires
                    side <= u32::MAX,
            ;
        }
        if groups_y > side {
            return Err(
                Error::unsupported(
                    concat5(
                        operation,
                        " requires ",
                        decimal(groups).as_str(),
                        " workgroups, exceeding the adapter dispatch capacity of ",
                        decimal(side * side).as_str(),
                    ).as_str(),
                ),
            );
        }
        Ok((groups as u32, groups_x as u32, groups_y as u32))
    }
}

/// A dispatch succeeds exactly when its workgroups fit the square of the dimension
/// limit; it then launches at least as many workgroups as needed, within the limit.
pub proof fn law_dispatch_covers(limits: GpuLimits, operation: Seq<char>, invocations: nat)
    ensures
        limits.dispatch(operation, invocations) is Ok <==> limits.dispatches(
            group_count(invocations),
        ),
        limits.dispatch(operation, invocations) matches Ok((groups, x, y)) ==> groups
            == group_count(invocations) && x * y >= groups && x <= limits.side() && y
            <= limits.side() && groups * WORKGROUP_SIZE >= invocations,
{
    let groups = group_count(invocations);
    let side = limits.side();
    assert(groups >= 1);
    if side > 0 {
        let x = least(groups, side);
        lemma_ceil(groups, x);
        if groups <= side {
            assert(ceil_div(groups, groups) == 1) by {
                lemma_ceil_bound(groups, groups, 1);
                lemma_ceil_bound(groups, groups, 0);
            }
            assert(side * side >= side) by (nonlinear_arith)
                requires
                    side >= 1,
            ;
        } else {
            lemma_ceil_bound(groups, side, side);
        }
    } else {
        assert(side * side == 0) by (nonlinear_arith)
            requires
                side == 0,
        ;
    }
}

/// Rounded-up division covers the value.
proof fn lemma_ceil(value: nat, divisor: nat)
    requires
        divisor > 0,
    ensures
        divisor * ceil_div(value, divisor) >= value,
        ceil_div(value, divisor) >= 1 <==> value >= 1,
{
    lemma_ceil_bound(value, divisor, ceil_div(value, divisor));
    lemma_ceil_bound(value, divisor, 0);
}

/// A rounded-up quotient is within a bound exactly when the value is within its multiple.
proof fn lemma_ceil_bound(value: nat, divisor: nat, bound: nat)
    requires
        divisor > 0,
    ensures
        ceil_div(value, divisor) <= bound <==> value <= divisor * bound,
{
    let q = (value + divisor - 1) / (divisor as int);
    assert(ceil_div(value, divisor) == q);
    assert(q <= bound <==> value <= divisor * bound) by (nonlinear_arith)
        requires
            q == (value + divisor - 1) / (divisor as int),
            divisor > 0,
    ;
}

/// Error for frames of different size.
pub open spec fn size_mismatch(a: Dimensions, b: Dimensions) -> ErrorView {
    ErrorView::IncompatibleFrames(
        "dimension mismatch: "@ + size_text(a) + " vs "@ + size_text(b),
    )
}

/// Frames must have the same size and be RGBA8.
pub open spec fn pair_fault(
    reference: FrameModel,
    distorted: FrameModel,
    format_message: Seq<char>,
) -> Option<ErrorView> {
    if reference.dims != distorted.dims {
        Some(size_mismatch(reference.dims, distorted.dims))
    } else if !(reference.format.pixel_format is Rgba8) || !(
    distorted.format.pixel_format is Rgba8) {
        Some(ErrorView::UnsupportedInput(format_message))
    } else {
        None
    }
}

fn check_pair(
    reference: &FrameView<'_, Validated>,
    distorted: &FrameView<'_, Validated>,
    format_message: &str,
) -> (result: Result<()>)
    ensures
        match result {
            Ok(_) => pair_fault(reference@, distorted@, format_message@) is None,
            Err(error) => pair_fault(reference@, distorted@, format_message@) == Some(error@),
        },
{
    let a = reference.dimensions();
    let b = distorted.dimensions();
    if a != b {
        return Err(
            Error::incompatible(
                concat4(
                    "dimension mismatch: ",
                    describe_size(a).as_str(),
                    " vs ",
                    describe_size(b).as_str(),
                ).as_str(),
            ),
        );
    }
    if reference.pixel_format() != PixelFormat::Rgba8 || distorted.pixel_format()
        != PixelFormat::Rgba8 {
        return Err(Error::unsupported(format_message));
    }
    Ok(())
}

/// Checks that two frames can be compared by the RGBA8 kernels.
pub fn validate_rgba8_pair(
    reference: &FrameView<'_, Validated>,
    distorted: &FrameView<'_, Validated>,
) -> (result: Result<()>)
    ensures
        match result {
            Ok(_) => pair_fault(
                reference@,
                distorted@,
                "GPU RGBA8 comparison requires RGBA8 inputs"@,
            ) is None,
            Err(error) => pair_fault(
                reference@,
                distorted@,
                "GPU RGBA8 comparison requires RGBA8 inputs"@,
            ) == Some(error@),
        },
{
    check_pair(reference, distorted, "GPU RGBA8 comparison requires RGBA8 inputs")
}

/// Buffer sizes and workgroup counts of one error-statistics run.
#[derive(Debug, Clone, Copy, PartialEq, Eq, Structural)]
pub struct GpuErrorPlan {
    /// Pixels per frame.
    pub pixels: u32,
    /// Bytes of one uploaded frame.
    pub input_bytes: u64,
    /// Workgroups per frame pair.
    pub groups: u32,
    /// Workgroups in the first dispatch dimension.
    pub groups_x: u32,
    /// Workgroups in the second dispatch dimension.
    pub groups_y: u32,
    /// Bytes of the partial reductions.
    pub partial_bytes: u64,
}

/// Pixels of a frame as a machine-sized number, or the error for too many.
pub open spec fn counted_pixels(dims: Dimensions, message: Seq<char>) -> core::result::Result<
    nat,
    ErrorView,
> {
    let pixels = dims.width as nat * dims.height as nat;
    if pixels > usize::MAX {
        Err(ErrorView::InvalidFrame("pixel count overflows usize"@))
    } else if pixels > u32::MAX {
        Err(ErrorView::UnsupportedInput(message))
    } else {
        Ok(pixels)
    }
}

fn count_pixels(dims: Dimensions, message: &str) -> (result: Result<u32>)
    ensures
        match result {
            Ok(pixels) => counted_pixels(dims, message@) == Ok::<nat, ErrorView>(pixels as nat),
            Err(error) => counted_pixels(dims, message@) == Err::<nat, ErrorView>(error@),
        },
{
    assert(dims.width as nat * dims.height as nat == dims.width * dims.height);
    match dims.pixels() {
        Ok(pixels) => if pixels as u64 > u32::MAX as u64 {
            Err(Error::unsupported(message))
        } else {
            Ok(pixels as u32)
        },
        Err(error) => Err(error),
    }
}

/// The plan of one error-statistics run over a number of pixels, or why it cannot run.
pub open spec fn error_plan(limits: GpuLimits, pixels: nat) -> core::result::Result<
    GpuErrorPlan,
    ErrorView,
> {
    if 4 * pixels > limits.storage() {
        Err(limits.storage_error("gpu_mse_rgba8 input"@, 4 * pixels))
    } else {
        match limits.dispatch("gpu_mse_rgba8"@, pixels) {
            Err(error) => Err(error),
            Ok((groups, groups_x, groups_y)) => if groups * PARTIAL_STATS_BYTES
                > limits.storage() {
                Err(
                    limits.storage_error(
                        "gpu_mse_rgba8 partial output"@,
                        (groups * PARTIAL_STATS_BYTES) as nat,
                    ),
                )
            } else {
                Ok(
                    GpuErrorPlan {
                        pixels: pixels as u32,
                        input_bytes: (4 * pixels) as u64,
                        groups,
                        groups_x,
                        groups_y,
                        partial_bytes: (groups * PARTIAL_STATS_BYTES) as u64,
                    },
                )
            },
        }
    }
}

/// The plan of one error-statistics run for two frames, or why it cannot run.
pub open spec fn pair_plan(
    limits: GpuLimits,
    reference: FrameModel,
    distorted: FrameModel,
) -> core::result::Result<GpuErrorPlan, ErrorView> {
    match pair_fault(
        reference,
        distorted,
        "gpu_mse_rgba8 currently requires RGBA8 inputs"@,
    ) {
        Some(fault) => Err(fault),
        None => match counted_pixels(
            reference.dims,
            "gpu_mse_rgba8 supports up to u32::MAX pixels per dispatch"@,
        ) {
            Err(error) => Err(error),
            Ok(pixels) => error_plan(limits, pixels),
        },
    }
}

impl GpuLimits {
    fn plan_pixels(&self, pixels: u32) -> (result: Result<GpuErrorPlan>)
        ensures
            outcome(result) == error_plan(*self, pixels as nat),
    {
        let input_bytes: u64 = pixels as u64 * 4;
        if let Err(error) = self.ensure_storage_buffer_size("gpu_mse_rgba8 input", input_bytes) {
            return Err(error);
        }
        let (groups, groups_x, groups_y): (u32, u32, u32) = match self.dispatch_dimensions(
            "gpu_mse_rgba8",
            pixels as u64,
        ) {
            Ok(sizes) => sizes,
            Err(error) => return Err(error),
        };
        let partial_bytes: u64 = groups as u64 * PARTIAL_STATS_BYTES;
        if let Err(error) = self.ensure_storage_buffer_size(
            "gpu_mse_rgba8 partial output",
            partial_bytes,
        ) {
            return Err(error);
        }
        Ok(GpuErrorPlan { pixels, input_bytes, groups, groups_x, groups_y, partial_bytes })
    }

    /// Plans the error statistics of two RGBA8 frames.
    pub fn plan_error_stats(
        &self,
        reference: &FrameView<'_, Validated>,
        distorted: &FrameView<'_, Validated>,
    ) -> (result: Result<GpuErrorPlan>)
        ensures
            outcome(result) == pair_plan(*self, reference@, distorted@),
    {
        if let Err(error) = check_pair(
            reference,
            distorted,
            "gpu_mse_rgba8 currently requires RGBA8 inputs",
        ) {
            return Err(error);
        }
        match count_pixels(
            reference.dimensions(),
            "gpu_mse_rgba8 supports up to u32::MAX pixels per dispatch",
        ) {
            Ok(pixels) => self.plan_pixels(pixels),
            Err(error) => Err(error),
        }
    }
}

/// Peak transient bytes of a batch: while the reference is uploaded, while the
/// candidates are uploaded, and while the kernel runs.
pub open spec fn working_set(reference: nat, candidates: nat, partials: nat) -> nat {
    let upload = if 2 * reference >= reference + 2 * candidates {
        2 * reference
    } else {
        reference + 2 * candidates
    };
    let execution = reference + candidates + 2 * partials;
    if upload >= execution {
        upload
    } else {
        execution
    }
}

/// Peak transient bytes of a batch, unless they exceed 64 bits.
pub fn batch_working_set_bytes(
    reference_bytes: u64,
    candidate_bytes: u64,
    partial_bytes: u64,
) -> (bytes: Option<u64>)
    ensures
        bytes == if working_set(
            reference_bytes as nat,
            candidate_bytes as nat,
            partial_bytes as nat,
        ) <= u64::MAX {
            Some(
                working_set(
                    reference_bytes as nat,
                    candidate_bytes as nat,
                    partial_bytes as nat,
                ) as u64,
            )
        } else {
            None
        },
{
    let reference_upload: u64 = match reference_bytes.checked_mul(2) {
        Some(bytes) => bytes,
        None => return None,
    };
    let doubled: u64 = match candidate_bytes.checked_mul(2) {
        Some(bytes) => bytes,
        None => return None,
    };
    let candidate_upload: u64 = match reference_bytes.checked_add(doubled) {
        Some(bytes) => bytes,
        None => return None,
    };
    let both: u64 = match reference_bytes.checked_add(candidate_bytes) {
        Some(bytes) => bytes,
        None => return None,
    };
    let readback: u64 = match partial_bytes.checked_mul(2) {
        Some(bytes) => bytes,
        None => return None,
    };
    let execution: u64 = match both.checked_add(readback) {
        Some(bytes) => bytes,
        None => return None,
    };
    let upload: u64 = if reference_upload >= candidate_upload {
        reference_upload
    } else {
        candidate_upload
    };
    Some(
        if upload >= execution {
            upload
        } else {
            execution
        },
    )
}

/// Whether a number of candidates of some size fits one batch: every candidate has
/// its own layer of the dispatch, all sizes are indexable, the buffers fit the
/// adapter, and the transient memory fits the cap.
pub open spec fn batch_fits(limits: GpuLimits, pixels: nat, count: nat) -> bool {
    let groups = group_count(pixels);
    &&& count <= limits.side()
    &&& pixels * count <= u32::MAX
    &&& 4 * (pixels * count) <= limits.storage()
    &&& limits.dispatches(groups)
    &&& groups * count <= u32::MAX
    &&& PARTIAL_STATS_BYTES * (groups * count) <= limits.storage()
    &&& working_set(4 * pixels, 4 * (pixels * count), PARTIAL_STATS_BYTES as nat * (groups * count))
        <= MAX_GPU_BATCH_WORKING_SET_BYTES
}

/// Largest number that stays within a bound when multiplied.
proof fn lemma_quotient(bound: nat, unit: nat, count: nat)
    requires
        unit > 0,
    ensures
        count <= bound / unit <==> unit * count <= bound,
{
    let q = bound / unit;
    assert(count <= q <==> unit * count <= bound) by (nonlinear_arith)
        requires
            q == bound / unit,
            unit > 0,
    ;
}

impl GpuLimits {
    /// Returns the maximum candidate count that one batch accepts for a given pixel
    /// count: zero when not even one candidate fits.
    pub fn max_error_stats_candidates(&self, pixels: u64) -> (candidates: u32)
        ensures
            pixels == 0 ==> candidates == 0,
            pixels > 0 ==> forall|count: nat|
                1 <= count ==> (#[trigger] batch_fits(*self, pixels as nat, count) <==> count
                    <= candidates),
    {
        if pixels == 0 || pixels > u32::MAX as u64 {
            proof {
                assert forall|count: nat| 1 <= count && pixels > u32::MAX implies !(
                #[trigger] batch_fits(*self, pixels as nat, count)) by {
                    assert(pixels as nat * count >= pixels) by (nonlinear_arith)
                        requires
                            count >= 1,
                    ;
                }
            }
            return 0;
        }
        let storage: u64 = self.storage_limit();
        let candidate_bytes: u64 = pixels * 4;
        let groups: u64 = (pixels - 1) / WORKGROUP_SIZE + 1;
        let side: u64 = self.max_compute_workgroups_per_dimension as u64;
        assert(groups == group_count(pixels as nat));
        assert(side * side <= u64::MAX) by (nonlinear_arith)
            requires
                side <= u32::MAX,
        ;
        if groups > side * side {
            return 0;
        }
        let partial_bytes: u64 = groups * PARTIAL_STATS_BYTES;
        if candidate_bytes > MAX_GPU_BATCH_WORKING_SET_BYTES / 2 {
            return 0;
        }
        let budget: u64 = MAX_GPU_BATCH_WORKING_SET_BYTES - candidate_bytes;
        let upload: u64 = candidate_bytes * 2;
        let execution: u64 = partial_bytes * 2 + candidate_bytes;
        let mut best: u64 = storage / candidate_bytes;
        let by_partials: u64 = storage / partial_bytes;
        if by_partials < best {
            best = by_partials;
        }
        let by_pixels: u64 = u32::MAX as u64 / pixels;
        if by_pixels < best {
            best = by_pixels;
        }
        let by_groups: u64 = u32::MAX as u64 / groups;
        if by_groups < best {
            best = by_groups;
        }
        if side < best {
            best = side;
        }
        let by_upload: u64 = budget / upload;
        if by_upload < best {
            best = by_upload;
        }
        let by_execution: u64 = budget / execution;
        if by_execution < best {
            best = by_execution;
        }
        proof {
            assert forall|count: nat| 1 <= count implies (#[trigger] batch_fits(
                *self,
                pixels as nat,
                count,
            ) <==> count <= best) by {
                lemma_quotient(storage as nat, candidate_bytes as nat, count);
                lemma_quotient(storage as nat, partial_bytes as nat, count);
                lemma_quotient(u32::MAX as nat, pixels as nat, count);
                lemma_quotient(u32::MAX as nat, groups as nat, count);
                lemma_quotient(budget as nat, upload as nat, count);
                lemma_quotient(budget as nat, execution as nat, count);
                lemma_batch_terms(pixels as nat, groups as nat, count);
            }
        }
        best as u32
    }
}

/// Products of a batch in the forms that the limits use.
proof fn lemma_batch_terms(pixels: nat, groups: nat, count: nat)
    ensures
        (4 * pixels) * count == 4 * (pixels * count),
        (groups * PARTIAL_STATS_BYTES as nat) * count == PARTIAL_STATS_BYTES as nat * (groups
            * count),
        (8 * pixels) * count == 2 * (4 * (pixels * count)),
        (groups * PARTIAL_STATS_BYTES as nat * 2 + 4 * pixels) * count == 2 * (
        PARTIAL_STATS_BYTES as nat * (groups * count)) + 4 * (pixels * count),
{
    assert((4 * pixels) * count == 4 * (pixels * count)) by (nonlinear_arith);
    assert((groups * 48) * count == 48 * (groups * count)) by (nonlinear_arith);
    assert((8 * pixels) * count == 8 * (pixels * count)) by (nonlinear_arith);
    assert((groups * 48 * 2 + 4 * pixels) * count == 96 * (groups * count) + 4 * (pixels * count))
        by (nonlinear_arith);
}

/// Buffer sizes and workgroup counts of one batch.
#[derive(Debug, Clone, Copy, PartialEq, Eq, Structural)]
pub struct GpuBatchPlan {
    /// Pixels per frame.
    pub pixels: u32,
    /// Number of candidates.
    pub candidates: u32,
    /// Bytes of the uploaded reference.
    pub input_bytes: u64,
    /// Bytes of all uploaded candidates.
    pub candidate_bytes: u64,
    /// Workgroups per candidate.
    pub groups: u32,
    /// Workgroups in the first dispatch dimension.
    pub groups_x: u32,
    /// Workgroups in the second dispatch dimension.
    pub groups_y: u32,
    /// Bytes of the partial reductions of all candidates.
    pub partial_bytes: u64,
}

/// The plan of a batch of candidates of some size, or the first limit it exceeds.
pub open spec fn batch_plan(limits: GpuLimits, pixels: nat, count: nat) -> core::result::Result<
    GpuBatchPlan,
    ErrorView,
> {
    let input = 4 * pixels;
    let candidates = 4 * (pixels * count);
    if count > u32::MAX {
        Err(ErrorView::UnsupportedInput("gpu_mse_rgba8 candidate count exceeds u32::MAX"@))
    } else if count > limits.side() {
        Err(
            ErrorView::UnsupportedInput(
                "gpu_mse_rgba8 candidate count "@ + decimal_text(count)
                    + " exceeds the adapter Z-dispatch limit of "@ + decimal_text(limits.side()),
            ),
        )
    } else if pixels * count > u32::MAX {
        Err(
            ErrorView::UnsupportedInput(
                "gpu_mse_rgba8 batch supports up to u32::MAX combined candidate pixels"@,
            ),
        )
    } else if input > limits.storage() {
        Err(limits.storage_error("gpu_mse_rgba8 reference"@, input))
    } else if candidates > limits.storage() {
        Err(limits.storage_error("gpu_mse_rgba8 candidates"@, candidates))
    } else {
        match limits.dispatch("gpu_mse_rgba8"@, pixels) {
            Err(error) => Err(error),
            Ok((groups, groups_x, groups_y)) => {
                let partials = PARTIAL_STATS_BYTES as nat * (groups as nat * count);
                let peak = working_set(input, candidates, partials);
                if groups as nat * count > u32::MAX {
                    Err(
                        ErrorView::UnsupportedInput(
                            "gpu_mse_rgba8 batch supports up to u32::MAX partial reductions"@,
                        ),
                    )
                } else if partials > limits.storage() {
                    Err(limits.storage_error("gpu_mse_rgba8 partial output"@, partials))
                } else if peak > MAX_GPU_BATCH_WORKING_SET_BYTES {
                    Err(
                        ErrorView::UnsupportedInput(
                            "gpu_mse_rgba8 batch requires an estimated "@ + decimal_text(peak)
                                + " transient bytes, exceeding the safety cap of "@ + decimal_text(
                                MAX_GPU_BATCH_WORKING_SET_BYTES as nat,
                            ) + " bytes"@,
                        ),
                    )
                } else {
                    Ok(
                        GpuBatchPlan {
                            pixels: pixels as u32,
                            candidates: count as u32,
                            input_bytes: input as u64,
                            candidate_bytes: candidates as u64,
                            groups,
                            groups_x,
                            groups_y,
                            partial_bytes: partials as u64,
                        },
                    )
                }
            },
        }
    }
}

/// A batch plan exists exactly for the batches that fit.
pub proof fn law_batch_plan_iff_fits(limits: GpuLimits, pixels: nat, count: nat)
    requires
        1 <= count,
        1 <= pixels <= u32::MAX,
    ensures
        batch_plan(limits, pixels, count) is Ok <==> batch_fits(limits, pixels, count),
{
    law_dispatch_covers(limits, "gpu_mse_rgba8"@, pixels);
    assert(pixels * count >= pixels) by (nonlinear_arith)
        requires
            count >= 1,
    ;
}

/// The first candidate that cannot be compared, as reported.
pub open spec fn candidate_fault(
    reference: FrameModel,
    candidates: Seq<FrameModel>,
    first: int,
) -> Option<ErrorView>
    decreases candidates.len() - first,
{
    if first < 0 || first >= candidates.len() {
        None
    } else {
        match pair_fault(
            reference,
            candidates[first],
            "GPU RGBA8 comparison requires RGBA8 inputs"@,
        ) {
            Some(fault) => Some(
                ErrorView::Gpu(
                    "RGBA8 candidate "@ + decimal_text(first as nat) + " is incompatible: "@
                        + fault.message(),
                ),
            ),
            None => candidate_fault(reference, candidates, first + 1),
        }
    }
}

/// The contents of borrowed frames.
pub open spec fn frames_of(frames: Seq<&FrameView<'_, Validated>>) -> Seq<FrameModel> {
    frames.map_values(|frame: &FrameView<'_, Validated>| frame@)
}

impl GpuLimits {
    fn plan_batch(&self, pixels: u32, count: usize) -> (result: Result<GpuBatchPlan>)
        ensures
            outcome(result) == batch_plan(*self, pixels as nat, count as nat),
    {
        if count as u64 > u32::MAX as u64 {
            return Err(
                Error::unsupported("gpu_mse_rgba8 candidate count exceeds u32::MAX"),
            );
        }
        let limit: u32 = self.max_compute_workgroups_per_dimension;
        if count as u64 > limit as u64 {
            return Err(
                Error::unsupported(
                    concat4(
                        "gpu_mse_rgba8 candidate count ",
                        decimal(count as u64).as_str(),
                        " exceeds the adapter Z-dispatch limit of ",
                        decimal(limit as u64).as_str(),
                    ).as_str(),
                ),
            );
        }
        assert(pixels * count <= 0xffff_ffff * 0xffff_ffff) by (nonlinear_arith)
            requires
                pixels <= 0xffff_ffff,
                count <= 0xffff_ffff,
        ;
        assert(pixels as nat * count as nat == pixels * count);
        let combined: u64 = pixels as u64 * count as u64;
        if combined > u32::MAX as u64 {
            return Err(
                Error::unsupported(
                    "gpu_mse_rgba8 batch supports up to u32::MAX combined candidate pixels",
                ),
            );
        }
        let input_bytes: u64 = pixels as u64 * 4;
        let candidate_bytes: u64 = combined * 4;
        if let Err(error) = self.ensure_storage_buffer_size(
            "gpu_mse_rgba8 reference",
            input_bytes,
        ) {
            return Err(error);
        }
        if let Err(error) = self.ensure_storage_buffer_size(
            "gpu_mse_rgba8 candidates",
            candidate_bytes,
        ) {
            return Err(error);
        }
        let (groups, groups_x, groups_y): (u32, u32, u32) = match self.dispatch_dimensions(
            "gpu_mse_rgba8",
            pixels as u64,
        ) {
            Ok(sizes) => sizes,
            Err(error) => return Err(error),
        };
        assert(groups * count <= 0xffff_ffff * 0xffff_ffff) by (nonlinear_arith)
            requires
                groups <= 0xffff_ffff,
                count <= 0xffff_ffff,
        ;
        assert(groups as nat * count as nat == groups * count);
        let partial_count: u64 = groups as u64 * count as u64;
        if partial_count > u32::MAX as u64 {
            return Err(
                Error::unsupported(
                    "gpu_mse_rgba8 batch supports up to u32::MAX partial reductions",
                ),
            );
        }
        let partial_bytes: u64 = partial_count * PARTIAL_STATS_BYTES;
        if let Err(error) = self.ensure_storage_buffer_size(
            "gpu_mse_rgba8 partial output",
            partial_bytes,
        ) {
            return Err(error);
        }
        if let Err(error) = ensure_batch_working_set_size(
            input_bytes,
            candidate_bytes,
            partial_bytes,
        ) {
            return Err(error);
        }
        Ok(
            GpuBatchPlan {
                pixels,
                candidates: count as u32,
                input_bytes,
                candidate_bytes,
                groups,
                groups_x,
                groups_y,
                partial_bytes,
            },
        )
    }

    /// Plans the comparison of one reference with many candidates in a single
    /// submission. Without candidates there is nothing to plan.
    pub fn plan_error_stats_many(
        &self,
        reference: &FrameView<'_, Validated>,
        distorted: &Vec<&FrameView<'_, Validated>>,
    ) -> (result: Result<Option<GpuBatchPlan>>)
        ensures
            outcome(result) == if distorted@.len() == 0 {
                Ok::<Option<GpuBatchPlan>, ErrorView>(None)
            } else {
                match candidate_fault(reference@, frames_of(distorted@), 0) {
                    Some(fault) => Err(fault),
                    None => match counted_pixels(
                        reference@.dims,
                        "gpu_mse_rgba8 supports up to u32::MAX pixels per candidate"@,
                    ) {
                        Err(error) => Err(error),
                        Ok(pixels) => match batch_plan(*self, pixels, distorted@.len()) {
                            Err(error) => Err(error),
                            Ok(plan) => Ok(Some(plan)),
                        },
                    },
                }
            },
    {
        if distorted.len() == 0 {
            return Ok(None);
        }
        let mut index: usize = 0;
        while index < distorted.len()
            invariant
                index <= distorted@.len(),
                distorted@.len() > 0,
                candidate_fault(reference@, frames_of(distorted@), 0) == candidate_fault(
                    reference@,
                    frames_of(distorted@),
                    index as int,
                ),
            decreases distorted@.len() - index,
        {
            assert(frames_of(distorted@)[index as int] == distorted@[index as int]@);
            if let Err(error) = validate_rgba8_pair(reference, distorted[index]) {
                return Err(
                    Error::Gpu(
                        concat4(
                            "RGBA8 candidate ",
                            decimal(index as u64).as_str(),
                            " is incompatible: ",
                            error.message().as_str(),
                        ),
                    ),
                );
            }
            index += 1;
        }
        let pixels: u32 = match count_pixels(
            reference.dimensions(),
            "gpu_mse_rgba8 supports up to u32::MAX pixels per candidate",
        ) {
            Ok(pixels) => pixels,
            Err(error) => return Err(error),
        };
        match self.plan_batch(pixels, distorted.len()) {
            Ok(plan) => Ok(Some(plan)),
            Err(error) => Err(error),
        }
    }

    /// Lengths of the batches that candidates are compared in: full batches of the
    /// largest size that fits, and a shorter last one.
    pub fn chunk_lengths(&self, pixels: u64, candidates: usize) -> (result: Result<Vec<usize>>)
        ensures
            match result {
                Ok(lengths) => {
                    &&& pixels > 0
                    &&& batch_fits(*self, pixels as nat, 1)
                    &&& total_length(lengths@) == candidates
                    &&& forall|i: int|
                        0 <= i < lengths@.len() ==> 1 <= #[trigger] lengths@[i] && batch_fits(
                            *self,
                            pixels as nat,
                            lengths@[i] as nat,
                        )
                    &&& forall|i: int|
                        0 <= i < lengths@.len() - 1 ==> !(#[trigger] batch_fits(
                            *self,
                            pixels as nat,
                            (lengths@[i] + 1) as nat,
                        ))
                },
                Err(error) => !(pixels > 0 && batch_fits(*self, pixels as nat, 1)) && error@
                    == ErrorView::UnsupportedInput(
                    "gpu_mse_rgba8 cannot fit a "@ + decimal_text(pixels as nat)
                        + "-pixel candidate on this adapter"@,
                ),
            },
    {
        let size: u32 = self.max_error_stats_candidates(pixels);
        assert(pixels > 0 ==> (batch_fits(*self, pixels as nat, 1) <==> 1 <= size));
        if size == 0 {
            return Err(
                Error::unsupported(
                    concat3(
                        "gpu_mse_rgba8 cannot fit a ",
                        decimal(pixels).as_str(),
                        "-pixel candidate on this adapter",
                    ).as_str(),
                ),
            );
        }
        let mut lengths: Vec<usize> = Vec::new();
        let mut left: usize = candidates;
        while left > size as usize
            invariant
                1 <= size,
                forall|count: nat|
                    1 <= count ==> (#[trigger] batch_fits(*self, pixels as nat, count) <==> count
                        <= size),
                total_length(lengths@) + left == candidates,
                forall|i: int| 0 <= i < lengths@.len() ==> #[trigger] lengths@[i] == size,
            decreases left,
        {
            let ghost before = lengths@;
            lengths.push(size as usize);
            assert(lengths@.drop_last() =~= before);
            left -= size as usize;
        }
        let ghost before = lengths@;
        if left > 0 {
            lengths.push(left);
            assert(lengths@.drop_last() =~= before);
        }
        proof {
            assert forall|i: int| 0 <= i < lengths@.len() implies 1 <= #[trigger] lengths@[i]
                && batch_fits(*self, pixels as nat, lengths@[i] as nat) by {
                assert(lengths@[i] == size || lengths@[i] == left);
            }
            assert forall|i: int| 0 <= i < lengths@.len() - 1 implies !(#[trigger] batch_fits(
                *self,
                pixels as nat,
                (lengths@[i] + 1) as nat,
            )) by {
                assert(lengths@[i] == size);
            }
        }
        Ok(lengths)
    }
}

/// Sum of batch lengths.
pub open spec fn total_length(lengths: Seq<usize>) -> nat
    decreases lengths.len(),
{
    if lengths.len() == 0 {
        0
    } else {
        total_length(lengths.drop_last()) + lengths.last() as nat
    }
}

fn ensure_batch_working_set_size(
    reference_bytes: u64,
    candidate_bytes: u64,
    partial_bytes: u64,
) -> (result: Result<()>)
    ensures
        outcome(result) == {
            let peak = working_set(
                reference_bytes as nat,
                candidate_bytes as nat,
                partial_bytes as nat,
            );
            if peak > u64::MAX {
                Err::<(), ErrorView>(
                    ErrorView::UnsupportedInput("gpu_mse_rgba8 batch working set overflows u64"@),
                )
            } else if peak > MAX_GPU_BATCH_WORKING_SET_BYTES {
                Err(
                    ErrorView::UnsupportedInput(
                        "gpu_mse_rgba8 batch requires an estimated "@ + decimal_text(peak)
                            + " transient bytes, exceeding the safety cap of "@ + decimal_text(
                            MAX_GPU_BATCH_WORKING_SET_BYTES as nat,
                        ) + " bytes"@,
                    ),
                )
            } else {
                Ok(())
            }
        },
{
    let bytes: u64 = match batch_working_set_bytes(
        reference_bytes,
        candidate_bytes,
        partial_bytes,
    ) {
        Some(bytes) => bytes,
        None => return Err(
            Error::unsupported("gpu_mse_rgba8 batch working set overflows u64"),
        ),
    };
    if bytes > MAX_GPU_BATCH_WORKING_SET_BYTES {
        return Err(
            Error::unsupported(
                concat5(
                    "gpu_mse_rgba8 batch requires an estimated ",
                    decimal(bytes).as_str(),
                    " transient bytes, exceeding the safety cap of ",
                    decimal(MAX_GPU_BATCH_WORKING_SET_BYTES).as_str(),
                    " bytes",
                ).as_str(),
            ),
        );
    }
    Ok(())
}

/// What is wrong with window options, if anything.
pub open spec fn window_fault(options: GpuWindowedSsimOptions) -> Option<ErrorView> {
    if options.window_width == 0 || options.window_height == 0 {
        Some(ErrorView::UnsupportedInput("GPU SSIM window dimensions must be non-zero"@))
    } else if options.stride_x == 0 || options.stride_y == 0 {
        Some(ErrorView::UnsupportedInput("GPU SSIM window strides must be non-zero"@))
    } else {
        None
    }
}

/// Checks that windows and strides are non-zero.
pub fn validate_windowed_ssim_options(options: GpuWindowedSsimOptions) -> (result: Result<()>)
    ensures
        match result {
            Ok(_) => window_fault(options) is None,
            Err(error) => window_fault(options) == Some(error@),
        },
{
    if options.window_width == 0 || options.window_height == 0 {
        return Err(Error::unsupported("GPU SSIM window dimensions must be non-zero"));
    }
    if options.stride_x == 0 || options.stride_y == 0 {
        return Err(Error::unsupported("GPU SSIM window strides must be non-zero"));
    }
    Ok(())
}

/// Largest start of a window along an axis.
pub open spec fn last_start(size: nat, window: nat) -> nat {
    if size >= window {
        (size - window) as nat
    } else {
        0
    }
}

/// Number of windows along an axis: one at the start, and one for every stride
/// that is begun before the last start.
pub open spec fn axis_windows(size: nat, window: nat, stride: nat) -> nat {
    1 + ceil_div(last_start(size, window), if stride == 0 {
        1
    } else {
        stride
    })
}

/// Counts the windows along an axis.
pub fn window_axis_count(size: usize, window: usize, stride: usize) -> (count: usize)
    requires
        axis_windows(size as nat, window as nat, stride as nat) <= usize::MAX,
    ensures
        count == axis_windows(size as nat, window as nat, stride as nat),
{
    let start: usize = size.saturating_sub(window);
    let step: usize = if stride == 0 {
        1
    } else {
        stride
    };
    if start == 0 {
        proof {
            lemma_ceil_bound(0, step as nat, 0);
        }
        return 1;
    }
    proof {
        lemma_ceil_split(start as nat, step as nat);
    }
    1 + ((start - 1) / step + 1)
}

/// Rounded-up division of a positive value by way of its predecessor.
proof fn lemma_ceil_split(value: nat, divisor: nat)
    requires
        value >= 1,
        divisor >= 1,
    ensures
        ceil_div(value, divisor) == (value - 1) / (divisor as int) + 1,
{
    assert((value + divisor - 1) / (divisor as int) == (value - 1) / (divisor as int) + 1)
        by (nonlinear_arith)
        requires
            divisor >= 1,
            value >= 1,
    ;
}

/// The windows along an axis reach its end, and without the last one they would not.
pub proof fn law_windows_cover_axis(size: nat, window: nat, stride: nat)
    requires
        stride > 0,
    ensures
        (axis_windows(size, window, stride) - 1) * stride >= last_start(size, window),
        axis_windows(size, window, stride) > 1 ==> (axis_windows(size, window, stride) - 2) * stride
            < last_start(size, window),
{
    let start = last_start(size, window);
    let n = ceil_div(start, stride);
    lemma_ceil(start, stride);
    assert(n * stride == stride * n) by (nonlinear_arith);
    if n > 0 {
        lemma_ceil_bound(start, stride, (n - 1) as nat);
        assert((n - 1) * stride == stride * (n - 1)) by (nonlinear_arith);
    }
}

/// Why a window layout is too much work for one dispatch, if it is.
pub open spec fn workload_fault(window_width: nat, window_height: nat, window_count: nat) -> Option<
    ErrorView,
> {
    let samples = window_width * window_height;
    let visits = samples * window_count;
    if samples > u64::MAX {
        Some(ErrorView::UnsupportedInput("gpu_wssim_rgba8 window area overflows u64"@))
    } else if samples > MAX_GPU_WSSIM_SAMPLES_PER_WINDOW {
        Some(
            ErrorView::UnsupportedInput(
                "gpu_wssim_rgba8 window contains "@ + decimal_text(samples)
                    + " samples, exceeding the per-invocation safety cap of "@ + decimal_text(
                    MAX_GPU_WSSIM_SAMPLES_PER_WINDOW as nat,
                ),
            ),
        )
    } else if visits > u64::MAX {
        Some(ErrorView::UnsupportedInput("gpu_wssim_rgba8 total work overflows u64"@))
    } else if visits > MAX_GPU_WSSIM_TOTAL_SAMPLE_VISITS {
        Some(
            ErrorView::UnsupportedInput(
                "gpu_wssim_rgba8 layout requires "@ + decimal_text(visits)
                    + " sample visits, exceeding the GPU work safety cap of "@ + decimal_text(
                    MAX_GPU_WSSIM_TOTAL_SAMPLE_VISITS as nat,
                ),
            ),
        )
    } else {
        None
    }
}

/// Checks that a window layout stays within the work caps.
pub fn ensure_gpu_wssim_workload(
    window_width: usize,
    window_height: usize,
    window_count: usize,
) -> (result: Result<()>)
    ensures
        match result {
            Ok(_) => workload_fault(
                window_width as nat,
                window_height as nat,
                window_count as nat,
            ) is None,
            Err(error) => workload_fault(
                window_width as nat,
                window_height as nat,
                window_count as nat,
            ) == Some(error@),
        },
{
    let samples: u64 = match (window_width as u64).checked_mul(window_height as u64) {
        Some(samples) => samples,
        None => return Err(Error::unsupported("gpu_wssim_rgba8 window area overflows u64")),
    };
    if samples > MAX_GPU_WSSIM_SAMPLES_PER_WINDOW {
        return Err(
            Error::unsupported(
                concat4(
                    "gpu_wssim_rgba8 window contains ",
                    decimal(samples).as_str(),
                    " samples, exceeding the per-invocation safety cap of ",
                    decimal(MAX_GPU_WSSIM_SAMPLES_PER_WINDOW).as_str(),
                ).as_str(),
            ),
        );
    }
    let visits: u64 = match samples.checked_mul(window_count as u64) {
        Some(visits) => visits,
        None => return Err(Error::unsupported("gpu_wssim_rgba8 total work overflows u64")),
    };
    if visits > MAX_GPU_WSSIM_TOTAL_SAMPLE_VISITS {
        return Err(
            Error::unsupported(
                concat4(
                    "gpu_wssim_rgba8 layout requires ",
                    decimal(visits).as_str(),
                    " sample visits, exceeding the GPU work safety cap of ",
                    decimal(MAX_GPU_WSSIM_TOTAL_SAMPLE_VISITS).as_str(),
                ).as_str(),
            ),
        );
    }
    Ok(())
}

/// Kernel parameters and buffer sizes of one windowed SSIM run.
#[derive(Debug, Clone, Copy, PartialEq, Eq, Structural)]
pub struct GpuSsimPlan {
    /// Frame width in pixels.
    pub width: u32,
    /// Frame height in pixels.
    pub height: u32,
    /// Window width, at most the frame width.
    pub window_width: u32,
    /// Window height, at most the frame height.
    pub window_height: u32,
    /// Horizontal stride.
    pub stride_x: u32,
    /// Vertical stride.
    pub stride_y: u32,
    /// Windows per row.
    pub windows_x: u32,
    /// Windows in all.
    pub window_count: u32,
    /// Workgroups in all.
    pub groups: u32,
    /// Workgroups in the first dispatch dimension.
    pub groups_x: u32,
    /// Workgroups in the second dispatch dimension.
    pub groups_y: u32,
    /// Pixels per frame.
    pub input_pixels: u64,
    /// Bytes of the window results.
    pub output_bytes: u64,
}

/// The plan of a windowed SSIM run over a frame size, or the first limit it exceeds.
pub open spec fn ssim_plan(limits: GpuLimits, dims: Dimensions, options: GpuWindowedSsimOptions) -> core::result::Result<
    GpuSsimPlan,
    ErrorView,
> {
    let width = dims.width as nat;
    let height = dims.height as nat;
    let window_width = least(options.window_width as nat, width);
    let window_height = least(options.window_height as nat, height);
    let windows_x = axis_windows(width, window_width, options.stride_x as nat);
    let windows_y = axis_windows(height, window_height, options.stride_y as nat);
    let count = windows_x * windows_y;
    let pixels = width * height;
    if options.stride_x > u32::MAX {
        Err(
            ErrorView::UnsupportedInput("gpu_wssim_rgba8 horizontal stride exceeds u32::MAX"@),
        )
    } else if options.stride_y > u32::MAX {
        Err(ErrorView::UnsupportedInput("gpu_wssim_rgba8 vertical stride exceeds u32::MAX"@))
    } else if count > usize::MAX {
        Err(ErrorView::UnsupportedInput("gpu_wssim_rgba8 window count overflows usize"@))
    } else if count > u32::MAX {
        Err(ErrorView::UnsupportedInput("gpu_wssim_rgba8 supports up to u32::MAX local windows"@))
    } else {
        match workload_fault(window_width, window_height, count) {
            Some(fault) => Err(fault),
            None => if pixels > u32::MAX {
                Err(ErrorView::UnsupportedInput("gpu_wssim_rgba8 supports up to u32::MAX pixels"@))
            } else if 4 * pixels > limits.storage() {
                Err(limits.storage_error("gpu_wssim_rgba8 input"@, 4 * pixels))
            } else {
                match limits.dispatch("gpu_wssim_rgba8"@, count) {
                    Err(error) => Err(error),
                    Ok((groups, groups_x, groups_y)) => if SSIM_WINDOW_BYTES * count
                        > usize::MAX {
                        Err(
                            ErrorView::UnsupportedInput(
                                "gpu_wssim_rgba8 output byte count overflows usize"@,
                            ),
                        )
                    } else if SSIM_WINDOW_BYTES * count > limits.storage() {
                        Err(
                            limits.storage_error(
                                "gpu_wssim_rgba8 output"@,
                                (SSIM_WINDOW_BYTES * count) as nat,
                            ),
                        )
                    } else {
                        Ok(
                            GpuSsimPlan {
                                width: dims.width,
                                height: dims.height,
                                window_width: window_width as u32,
                                window_height: window_height as u32,
                                stride_x: options.stride_x as u32,
                                stride_y: options.stride_y as u32,
                                windows_x: windows_x as u32,
                                window_count: count as u32,
                                groups,
                                groups_x,
                                groups_y,
                                input_pixels: pixels as u64,
                                output_bytes: (SSIM_WINDOW_BYTES * count) as u64,
                            },
                        )
                    },
                }
            },
        }
    }
}

/// An axis never has more windows than pixels, when windows are not empty.
proof fn lemma_axis_bound(size: nat, window: nat, stride: nat)
    requires
        1 <= window <= size,
    ensures
        1 <= axis_windows(size, window, stride) <= size,
{
    let step = if stride == 0 {
        1
    } else {
        stride
    };
    let start = last_start(size, window);
    assert(start <= step * start) by (nonlinear_arith)
        requires
            step >= 1,
    ;
    lemma_ceil_bound(start, step, start);
}

impl GpuLimits {
    /// Plans windowed SSIM for two RGBA8 frames.
    pub fn plan_windowed_ssim(
        &self,
        reference: &FrameView<'_, Validated>,
        distorted: &FrameView<'_, Validated>,
        options: GpuWindowedSsimOptions,
    ) -> (result: Result<GpuSsimPlan>)
        ensures
            outcome(result) == match pair_fault(
                reference@,
                distorted@,
                "gpu_wssim_rgba8 currently requires RGBA8 inputs"@,
            ) {
                Some(fault) => Err::<GpuSsimPlan, ErrorView>(fault),
                None => match window_fault(options) {
                    Some(fault) => Err(fault),
                    None => ssim_plan(*self, reference@.dims, options),
                },
            },
    {
        if let Err(error) = check_pair(
            reference,
            distorted,
            "gpu_wssim_rgba8 currently requires RGBA8 inputs",
        ) {
            return Err(error);
        }
        if let Err(error) = validate_windowed_ssim_options(options) {
            return Err(error);
        }
        let dims = reference.dimensions();
        self.plan_windows(dims, options)
    }

    fn plan_windows(&self, dims: Dimensions, options: GpuWindowedSsimOptions) -> (result: Result<
        GpuSsimPlan,
    >)
        requires
            window_fault(options) is None,
            dims.width > 0,
            dims.height > 0,
        ensures
            outcome(result) == ssim_plan(*self, dims, options),
    {
        let width: usize = dims.width as usize;
        let height: usize = dims.height as usize;
        let window_width: usize = if options.window_width <= width {
            options.window_width
        } else {
            width
        };
        let window_height: usize = if options.window_height <= height {
            options.window_height
        } else {
            height
        };
        if options.stride_x as u64 > u32::MAX as u64 {
            return Err(
                Error::unsupported("gpu_wssim_rgba8 horizontal stride exceeds u32::MAX"),
            );
        }
        if options.stride_y as u64 > u32::MAX as u64 {
            return Err(Error::unsupported("gpu_wssim_rgba8 vertical stride exceeds u32::MAX"));
        }
        proof {
            lemma_axis_bound(width as nat, window_width as nat, options.stride_x as nat);
            lemma_axis_bound(height as nat, window_height as nat, options.stride_y as nat);
            assert(width as nat * height as nat <= u64::MAX) by (nonlinear_arith)
                requires
                    width <= u32::MAX,
                    height <= u32::MAX,
            ;
        }
        let windows_x: usize = window_axis_count(width, window_width, options.stride_x);
        let windows_y: usize = window_axis_count(height, window_height, options.stride_y);
        let count: usize = match windows_x.checked_mul(windows_y) {
            Some(count) => count,
            None => return Err(
                Error::unsupported("gpu_wssim_rgba8 window count overflows usize"),
            ),
        };
        assert(count == windows_x as nat * windows_y as nat);
        if count as u64 > u32::MAX as u64 {
            return Err(
                Error::unsupported("gpu_wssim_rgba8 supports up to u32::MAX local windows"),
            );
        }
        if let Err(error) = ensure_gpu_wssim_workload(window_width, window_height, count) {
            return Err(error);
        }
        let input_pixels: u64 = width as u64 * height as u64;
        if input_pixels > u32::MAX as u64 {
            return Err(Error::unsupported("gpu_wssim_rgba8 supports up to u32::MAX pixels"));
        }
        if let Err(error) = self.ensure_storage_buffer_size(
            "gpu_wssim_rgba8 input",
            input_pixels * 4,
        ) {
            return Err(error);
        }
        let (groups, groups_x, groups_y): (u32, u32, u32) = match self.dispatch_dimensions(
            "gpu_wssim_rgba8",
            count as u64,
        ) {
            Ok(sizes) => sizes,
            Err(error) => return Err(error),
        };
        let output_bytes: u64 = count as u64 * SSIM_WINDOW_BYTES;
        if output_bytes > usize::MAX as u64 {
            return Err(
                Error::unsupported("gpu_wssim_rgba8 output byte count overflows usize"),
            );
        }
        if let Err(error) = self.ensure_storage_buffer_size(
            "gpu_wssim_rgba8 output",
            output_bytes,
        ) {
            return Err(error);
        }
        Ok(
            GpuSsimPlan {
                width: dims.width,
                height: dims.height,
                window_width: window_width as u32,
                window_height: window_height as u32,
                stride_x: options.stride_x as u32,
                stride_y: options.stride_y as u32,
                windows_x: windows_x as u32,
                window_count: count as u32,
                groups,
                groups_x,
                groups_y,
                input_pixels,
                output_bytes,
            },
        )
    }
}

/// Pixels of an RGBA8 frame without row padding.
pub open spec fn rgba8_pixels(frame: FrameModel) -> Seq<u8> {
    frame.planes[0].packed_rows(4 * frame.dims.width as int, frame.dims.height as int)
}

/// Copies the pixels of an RGBA8 frame for upload, rows one behind the other.
pub fn rgba8_bytes(frame: &FrameView<'_, Validated>) -> (result: Result<Vec<u8>>)
    requires
        frame@.format.pixel_format is Rgba8,
    ensures
        result matches Ok(bytes) && bytes@ == rgba8_pixels(frame@) && bytes@.len() == 4 * (
        frame@.dims.width * frame@.dims.height),
{
    let dims = frame.dimensions();
    let width: usize = dims.width as usize;
    let height: usize = dims.height as usize;
    assert(frame@.plane_fits(0));
    assert(frame@.format.pixel_format.row_bytes(dims, 0) == 4 * width);
    let row_bytes: usize = match width.checked_mul(4) {
        Some(row_bytes) => row_bytes,
        None => return Err(Error::invalid_frame("RGBA row byte size overflow")),
    };
    let plane = match frame.plane(0) {
        Ok(plane) => plane,
        Err(error) => return Err(error),
    };
    let mut bytes: Vec<u8> = Vec::new();
    let mut y: usize = 0;
    assert(4 * width as int * 0 == 0);
    while y < height
        invariant
            y <= height,
            row_bytes == 4 * width,
            row_bytes <= plane@.stride,
            plane@.stride * (height - 1) + row_bytes <= plane@.data.len(),
            bytes@ == plane@.packed_rows(row_bytes as int, y as int),
            bytes@.len() == row_bytes * y,
        decreases height - y,
    {
        assert(0 <= y * plane@.stride <= plane@.stride * (height - 1)) by (nonlinear_arith)
            requires
                0 <= y < height,
                plane@.stride >= 0,
        ;
        assert(row_bytes * y + row_bytes == row_bytes * (y + 1)) by (nonlinear_arith);
        match plane.row(y, row_bytes) {
            Ok(row) => bytes.extend_from_slice(row),
            Err(error) => return Err(error),
        }
        y += 1;
    }
    assert(row_bytes * height == 4 * (dims.width * dims.height)) by (nonlinear_arith)
        requires
            row_bytes == 4 * width,
            width == dims.width,
            height == dims.height,
    ;
    Ok(bytes)
}

/// Exact error sums of one channel.
#[derive(Debug, Clone, Copy, PartialEq, Eq, Structural)]
pub struct ChannelErrorSums {
    /// Sum of squared differences.
    pub squared: u128,
    /// Sum of absolute differences.
    pub absolute: u128,
    /// Largest absolute difference.
    pub largest: u8,
}

/// Distance of two bytes.
pub open spec fn distance(a: u8, b: u8) -> nat {
    if a >= b {
        (a - b) as nat
    } else {
        (b - a) as nat
    }
}

/// Sum of squared differences of one channel over the first pixels.
pub open spec fn squared_sum(a: Seq<u8>, b: Seq<u8>, channel: int, pixels: nat) -> nat
    decreases pixels,
{
    if pixels == 0 {
        0
    } else {
        let at = 4 * (pixels - 1) + channel;
        squared_sum(a, b, channel, (pixels - 1) as nat) + distance(a[at], b[at]) * distance(
            a[at],
            b[at],
        )
    }
}

/// Sum of absolute differences of one channel over the first pixels.
pub open spec fn absolute_sum(a: Seq<u8>, b: Seq<u8>, channel: int, pixels: nat) -> nat
    decreases pixels,
{
    if pixels == 0 {
        0
    } else {
        let at = 4 * (pixels - 1) + channel;
        absolute_sum(a, b, channel, (pixels - 1) as nat) + distance(a[at], b[at])
    }
}

/// Whether a value is the largest difference of one channel over the first pixels;
/// without pixels it is zero.
pub open spec fn is_largest(a: Seq<u8>, b: Seq<u8>, channel: int, pixels: nat, value: nat) -> bool {
    &&& forall|i: int|
        0 <= i < pixels ==> distance(
            #[trigger] a[4 * i + channel],
            b[4 * i + channel],
        ) <= value
    &&& value == 0 || exists|i: int|
        0 <= i < pixels && distance(#[trigger] a[4 * i + channel], b[4 * i + channel]) == value
}

/// Whether sums are those of one channel over the first pixels.
pub open spec fn sums_channel(
    sums: ChannelErrorSums,
    a: Seq<u8>,
    b: Seq<u8>,
    channel: int,
    pixels: nat,
) -> bool {
    &&& sums.squared == squared_sum(a, b, channel, pixels)
    &&& sums.absolute == absolute_sum(a, b, channel, pixels)
    &&& is_largest(a, b, channel, pixels, sums.largest as nat)
}

/// Exact error sums of two RGBA8 frames.
#[derive(Debug, Clone, Copy, PartialEq, Eq, Structural)]
pub struct GpuRgba8ErrorSums {
    /// Red channel.
    pub red: ChannelErrorSums,
    /// Green channel.
    pub green: ChannelErrorSums,
    /// Blue channel.
    pub blue: ChannelErrorSums,
    /// Alpha channel.
    pub alpha: ChannelErrorSums,
    /// Pixel count.
    pub pixels: u64,
}

proof fn lemma_sum_bounds(a: Seq<u8>, b: Seq<u8>, channel: int, pixels: nat)
    ensures
        squared_sum(a, b, channel, pixels) <= 65025 * pixels,
        absolute_sum(a, b, channel, pixels) <= 255 * pixels,
    decreases pixels,
{
    if pixels > 0 {
        lemma_sum_bounds(a, b, channel, (pixels - 1) as nat);
        let at = 4 * (pixels - 1) + channel;
        let d = distance(a[at], b[at]);
        assert(d * d <= 65025) by (nonlinear_arith)
            requires
                0 <= d <= 255,
        ;
    }
}

fn channel_sums(a: &Vec<u8>, b: &Vec<u8>, channel: usize, pixels: usize) -> (sums:
    ChannelErrorSums)
    requires
        channel < 4,
        a@.len() == 4 * pixels,
        b@.len() == 4 * pixels,
    ensures
        sums_channel(sums, a@, b@, channel as int, pixels as nat),
{
    let total: usize = a.len();
    let mut squared: u128 = 0;
    let mut absolute: u128 = 0;
    let mut largest: u8 = 0;
    let mut i: usize = 0;
    while i < pixels
        invariant
            i <= pixels,
            channel < 4,
            total == 4 * pixels,
            a@.len() == 4 * pixels,
            b@.len() == 4 * pixels,
            squared == squared_sum(a@, b@, channel as int, i as nat),
            absolute == absolute_sum(a@, b@, channel as int, i as nat),
            is_largest(a@, b@, channel as int, i as nat, largest as nat),
        decreases pixels - i,
    {
        let at: usize = 4 * i + channel;
        let delta: u8 = if a[at] >= b[at] {
            a[at] - b[at]
        } else {
            b[at] - a[at]
        };
        let wide: u128 = delta as u128;
        proof {
            lemma_sum_bounds(a@, b@, channel as int, i as nat);
            assert(wide * wide <= 65025) by (nonlinear_arith)
                requires
                    wide <= 255,
            ;
            assert(at == 4 * i + channel);
            assert(delta == distance(a@[4 * i + channel], b@[4 * i + channel]));
        }
        squared = squared + wide * wide;
        absolute = absolute + wide;
        let ghost before = largest;
        if delta > largest {
            largest = delta;
        }
        proof {
            assert forall|j: int| 0 <= j < i + 1 implies distance(
                #[trigger] a@[4 * j + channel],
                b@[4 * j + channel],
            ) <= largest by {}
            if delta > before {
                assert(distance(a@[4 * i + channel], b@[4 * i + channel]) == largest);
            }
        }
        i += 1;
    }
    ChannelErrorSums { squared, absolute, largest }
}

/// Computes the exact error sums of two RGBA8 frames on the CPU.
pub fn cpu_error_sums_rgba8(
    reference: &FrameView<'_, Validated>,
    distorted: &FrameView<'_, Validated>,
) -> (result: Result<GpuRgba8ErrorSums>)
    ensures
        match result {
            Ok(sums) => {
                let a = rgba8_pixels(reference@);
                let b = rgba8_pixels(distorted@);
                &&& pair_fault(
                    reference@,
                    distorted@,
                    "GPU RGBA8 comparison requires RGBA8 inputs"@,
                ) is None
                &&& sums.pixels == reference@.dims.width * reference@.dims.height
                &&& sums_channel(sums.red, a, b, 0, sums.pixels as nat)
                &&& sums_channel(sums.green, a, b, 1, sums.pixels as nat)
                &&& sums_channel(sums.blue, a, b, 2, sums.pixels as nat)
                &&& sums_channel(sums.alpha, a, b, 3, sums.pixels as nat)
            },
            Err(error) => pair_fault(
                reference@,
                distorted@,
                "GPU RGBA8 comparison requires RGBA8 inputs"@,
            ) == Some(error@),
        },
{
    if let Err(error) = validate_rgba8_pair(reference, distorted) {
        return Err(error);
    }
    let a = match rgba8_bytes(reference) {
        Ok(bytes) => bytes,
        Err(error) => return Err(error),
    };
    let b = match rgba8_bytes(distorted) {
        Ok(bytes) => bytes,
        Err(error) => return Err(error),
    };
    let pixels: usize = a.len() / 4;
    Ok(
        GpuRgba8ErrorSums {
            red: channel_sums(&a, &b, 0, pixels),
            green: channel_sums(&a, &b, 1, pixels),
            blue: channel_sums(&a, &b, 2, pixels),
            alpha: channel_sums(&a, &b, 3, pixels),
            pixels: pixels as u64,
        },
    )
}

/// Equal frames have no error in any channel.
pub proof fn law_equal_frames_have_no_error(a: Seq<u8>, channel: int, pixels: nat)
    ensures
        squared_sum(a, a, channel, pixels) == 0,
        absolute_sum(a, a, channel, pixels) == 0,
        is_largest(a, a, channel, pixels, 0),
    decreases pixels,
{
    if pixels > 0 {
        law_equal_frames_have_no_error(a, channel, (pixels - 1) as nat);
        let at = 4 * (pixels - 1) + channel;
        let d = distance(a[at], a[at]);
        assert(d * d == 0) by (nonlinear_arith)
            requires
                d == 0,
        ;
    }
}

/// Exchanging reference and candidate does not change the error sums.
pub proof fn law_error_sums_are_symmetric(a: Seq<u8>, b: Seq<u8>, channel: int, pixels: nat)
    ensures
        squared_sum(a, b, channel, pixels) == squared_sum(b, a, channel, pixels),
        absolute_sum(a, b, channel, pixels) == absolute_sum(b, a, channel, pixels),
    decreases pixels,
{
    if pixels > 0 {
        law_error_sums_are_symmetric(a, b, channel, (pixels - 1) as nat);
    }
}

/// Error sums grow pixel by pixel: without pixels they are zero, and one more pixel
/// adds the square and the size of its difference and raises the largest difference
/// to that size where it was smaller. Nothing is capped.
pub proof fn law_each_pixel_adds_its_error(
    none: ChannelErrorSums,
    fewer: ChannelErrorSums,
    more: ChannelErrorSums,
    a: Seq<u8>,
    b: Seq<u8>,
    channel: int,
    pixels: nat,
)
    requires
        sums_channel(none, a, b, channel, 0),
        sums_channel(fewer, a, b, channel, pixels),
        sums_channel(more, a, b, channel, pixels + 1),
    ensures
        none.squared == 0 && none.absolute == 0 && none.largest == 0,
        ({
            let d = a[4 * pixels + channel] - b[4 * pixels + channel];
            let size = if d < 0 {
                -d
            } else {
                d
            };
            &&& more.squared - fewer.squared == d * d
            &&& more.absolute - fewer.absolute == size
            &&& more.largest == if size > fewer.largest {
                size
            } else {
                fewer.largest as int
            }
        }),
{
    let at = 4 * pixels + channel;
    let d = a[at] - b[at];
    let size = distance(a[at], b[at]);
    assert(d * d == size * size) by (nonlinear_arith)
        requires
            size == d || size == -d,
    ;
    assert(squared_sum(a, b, channel, pixels + 1) == squared_sum(a, b, channel, pixels) + size
        * size);
    assert(absolute_sum(a, b, channel, pixels + 1) == absolute_sum(a, b, channel, pixels) + size);
    if more.largest != 0 {
        let j = choose|j: int|
            0 <= j < pixels + 1 && distance(#[trigger] a[4 * j + channel], b[4 * j + channel])
                == more.largest;
        assert(j == pixels || distance(a[4 * j + channel], b[4 * j + channel]) <= fewer.largest);
    }
    if fewer.largest != 0 {
        let j = choose|j: int|
            0 <= j < pixels && distance(#[trigger] a[4 * j + channel], b[4 * j + channel])
                == fewer.largest;
        assert(distance(a[4 * j + channel], b[4 * j + channel]) <= more.largest);
    }
    assert(distance(a[4 * pixels + channel], b[4 * pixels + channel]) <= more.largest);
}

/// Where a channel differs by the same amount in every pixel, the squared sum is the
/// number of pixels times the square of the amount, the absolute sum that number times
/// its size, and the largest difference is its size.
pub proof fn law_uniform_errors_add_up(
    sums: ChannelErrorSums,
    a: Seq<u8>,
    b: Seq<u8>,
    channel: int,
    pixels: nat,
    d: int,
)
    requires
        sums_channel(sums, a, b, channel, pixels),
        forall|i: int|
            0 <= i < pixels ==> #[trigger] a[4 * i + channel] - b[4 * i + channel] == d,
    ensures
        sums.squared == pixels * (d * d),
        sums.absolute == pixels * (if d < 0 {
            -d
        } else {
            d
        }),
        pixels > 0 ==> sums.largest == if d < 0 {
            -d
        } else {
            d
        },
{
    lemma_uniform_sums(a, b, channel, pixels, d);
    if pixels > 0 {
        assert(a[4 * 0 + channel] - b[4 * 0 + channel] == d);
        assert(distance(a[4 * 0 + channel], b[4 * 0 + channel]) <= sums.largest);
        if sums.largest != 0 {
            let j = choose|j: int|
                0 <= j < pixels && distance(#[trigger] a[4 * j + channel], b[4 * j + channel])
                    == sums.largest;
            assert(a[4 * j + channel] - b[4 * j + channel] == d);
        }
    }
}

proof fn lemma_uniform_sums(a: Seq<u8>, b: Seq<u8>, channel: int, pixels: nat, d: int)
    requires
        forall|i: int|
            0 <= i < pixels ==> #[trigger] a[4 * i + channel] - b[4 * i + channel] == d,
    ensures
        squared_sum(a, b, channel, pixels) == pixels * (d * d),
        absolute_sum(a, b, channel, pixels) == pixels * (if d < 0 {
            -d
        } else {
            d
        }),
    decreases pixels,
{
    let size: int = if d < 0 {
        -d
    } else {
        d
    };
    if pixels > 0 {
        let last = pixels - 1;
        lemma_uniform_sums(a, b, channel, last as nat, d);
        assert(a[4 * last + channel] - b[4 * last + channel] == d);
        assert(size * size == d * d) by (nonlinear_arith)
            requires
                size == d || size == -d,
        ;
        assert(pixels * (d * d) == last * (d * d) + d * d) by (nonlinear_arith)
            requires
                last == pixels - 1,
        ;
        assert(pixels * size == last * size + size) by (nonlinear_arith)
            requires
                last == pixels - 1,
        ;
    } else {
        assert(0 * (d * d) == 0) by (nonlinear_arith);
        assert(0 * size == 0) by (nonlinear_arith);
    }
}

/// The pixels that are compared stand in the frame's own rows: channel `c` of the pixel
/// in column `x` of row `y` is the byte `4x + c` of that row, and padding is left out.
pub proof fn law_pixels_keep_their_place(frame: FrameModel, x: int, y: int, c: int)
    requires
        frame.valid(),
        frame.format.pixel_format is Rgba8,
        0 <= x < frame.dims.width,
        0 <= y < frame.dims.height,
        0 <= c < 4,
    ensures
        rgba8_pixels(frame).len() == 4 * (frame.dims.width * frame.dims.height),
        rgba8_pixels(frame)[4 * (y * frame.dims.width + x) + c] == frame.planes[0].data[y
            * frame.planes[0].stride + 4 * x + c],
{
    let width = frame.dims.width as int;
    let height = frame.dims.height as int;
    law_tight_keeps_bytes(frame, 0, y, 4 * x + c);
    assert(frame.format.pixel_format.row_bytes(frame.dims, 0) == 4 * width);
    assert(rgba8_pixels(frame) == frame.tight().planes[0].data);
    assert((4 * width) * height == 4 * (width * height)) by (nonlinear_arith);
    assert(y * (4 * width) + (4 * x + c) == 4 * (y * width + x) + c) by (nonlinear_arith);
}

/// Adapter facts that diagnostics repeat.
#[derive(Debug)]
pub struct GpuAdapterFacts {
    /// Human-readable adapter name.
    pub name: String,
    /// Graphics API backend.
    pub backend: String,
    /// Physical device category.
    pub device_type: String,
    /// Driver name.
    pub driver: String,
    /// Backend-specific driver information.
    pub driver_info: String,
    /// Backend-specific vendor identifier.
    pub vendor: u32,
    /// Backend-specific device identifier.
    pub device: u32,
}

/// Stable adapter and limit information for diagnostics.
#[derive(Debug)]
pub struct GpuCapabilities {
    /// Human-readable adapter name.
    pub adapter_name: String,
    /// Graphics API backend, for example `Metal`, `Vulkan`, or `Dx12`.
    pub backend: String,
    /// Physical device category reported by wgpu.
    pub device_type: String,
    /// Driver name.
    pub driver: String,
    /// Backend-specific driver information.
    pub driver_info: String,
    /// Backend-specific vendor identifier.
    pub vendor_id: u32,
    /// Backend-specific device identifier.
    pub device_id: u32,
    /// Whether this context explicitly requested a fallback adapter.
    pub fallback_adapter: bool,
    /// Maximum size of an individual GPU buffer.
    pub max_buffer_size: u64,
    /// Maximum size exposed through one storage binding.
    pub max_storage_buffer_binding_size: u64,
    /// Maximum workgroup count in each dispatch dimension.
    pub max_compute_workgroups_per_dimension: u32,
    /// Maximum tightly packed RGBA8 input pixel count accepted by one buffer.
    pub max_rgba8_input_pixels: u64,
    /// Maximum RGBA8 pixel count accepted by the error kernel.
    pub max_error_stats_pixels: u64,
    /// Maximum local-window count accepted by the SSIM kernel.
    pub max_windowed_ssim_windows: u64,
}

/// Pixels that one storage buffer holds.
pub open spec fn input_pixel_limit(limits: GpuLimits) -> nat {
    least(limits.storage() / 4, u32::MAX as nat)
}

/// Invocations that one dispatch reaches.
pub open spec fn invocation_limit(limits: GpuLimits) -> nat {
    limits.side() * limits.side() * WORKGROUP_SIZE as nat
}

/// Pixels that the error kernel accepts.
pub open spec fn error_pixel_limit(limits: GpuLimits) -> nat {
    least(
        least(limits.storage() / 4, (limits.storage() / PARTIAL_STATS_BYTES as nat)
            * WORKGROUP_SIZE as nat),
        least(invocation_limit(limits), u32::MAX as nat),
    )
}

/// Windows that the SSIM kernel accepts.
pub open spec fn window_limit(limits: GpuLimits) -> nat {
    least(
        limits.storage() / SSIM_WINDOW_BYTES as nat,
        least(invocation_limit(limits), u32::MAX as nat),
    )
}

/// Describes an adapter and the sizes that its limits allow.
pub fn capabilities_from_adapter(
    adapter: GpuAdapterFacts,
    limits: GpuLimits,
    options: GpuContextOptions,
) -> (capabilities: GpuCapabilities)
    ensures
        capabilities.adapter_name == adapter.name,
        capabilities.backend == adapter.backend,
        capabilities.device_type == adapter.device_type,
        capabilities.driver == adapter.driver,
        capabilities.driver_info == adapter.driver_info,
        capabilities.vendor_id == adapter.vendor,
        capabilities.device_id == adapter.device,
        capabilities.fallback_adapter == options.force_fallback_adapter,
        capabilities.max_buffer_size == limits.max_buffer_size,
        capabilities.max_storage_buffer_binding_size == limits.max_storage_buffer_binding_size,
        capabilities.max_compute_workgroups_per_dimension
            == limits.max_compute_workgroups_per_dimension,
        capabilities.max_rgba8_input_pixels == input_pixel_limit(limits),
        capabilities.max_error_stats_pixels == error_pixel_limit(limits),
        capabilities.max_windowed_ssim_windows == window_limit(limits),
{
    let storage: u64 = limits.storage_limit();
    let side: u64 = limits.max_compute_workgroups_per_dimension as u64;
    assert(side * side <= u64::MAX) by (nonlinear_arith)
        requires
            side <= u32::MAX,
    ;
    let groups: u64 = side * side;
    let cap: u64 = u32::MAX as u64;
    let invocations: u64 = match groups.checked_mul(WORKGROUP_SIZE) {
        Some(invocations) => smaller(invocations, cap),
        None => cap,
    };
    assert(invocations == least(invocation_limit(limits), u32::MAX as nat));
    let input: u64 = storage / 4;
    let partial: u64 = storage / PARTIAL_STATS_BYTES;
    let partial_pixels: u64 = match partial.checked_mul(WORKGROUP_SIZE) {
        Some(pixels) => pixels,
        None => u64::MAX,
    };
    GpuCapabilities {
        adapter_name: adapter.name,
        backend: adapter.backend,
        device_type: adapter.device_type,
        driver: adapter.driver,
        driver_info: adapter.driver_info,
        vendor_id: adapter.vendor,
        device_id: adapter.device,
        fallback_adapter: options.force_fallback_adapter,
        max_buffer_size: limits.max_buffer_size,
        max_storage_buffer_binding_size: limits.max_storage_buffer_binding_size,
        max_compute_workgroups_per_dimension: limits.max_compute_workgroups_per_dimension,
        max_rgba8_input_pixels: smaller(input, cap),
        max_error_stats_pixels: smaller(smaller(input, partial_pixels), invocations),
        max_windowed_ssim_windows: smaller(storage / SSIM_WINDOW_BYTES, invocations),
    }
}

fn smaller(a: u64, b: u64) -> (result: u64)
    ensures
        result == least(a as nat, b as nat),
{
    if a <= b {
        a
    } else {
        b
    }
}

/// Error values of one comparison, normalized to the largest code value.
#[derive(Debug, Clone, Copy, PartialEq, Eq, Structural)]
pub struct NormalizedErrors {
    /// Mean squared error.
    pub mse: Score,
    /// Root mean squared error.
    pub rmse: Score,
    /// Peak signal-to-noise ratio.
    pub psnr: Score,
    /// Mean absolute error.
    pub mae: Score,
    /// Maximum absolute error.
    pub max_abs: Score,
    /// Pixel count.
    pub pixels: Score,
    /// Sample count.
    pub samples: Score,
    /// Channel count.
    pub channels: Score,
}

impl NormalizedErrors {
    /// Value of a metric.
    pub open spec fn value(self, metric: GpuErrorMetric) -> Score {
        match metric {
            GpuErrorMetric::Mse => self.mse,
            GpuErrorMetric::Rmse => self.rmse,
            GpuErrorMetric::Psnr => self.psnr,
            GpuErrorMetric::Mae => self.mae,
            GpuErrorMetric::MaxAbsoluteError => self.max_abs,
        }
    }

    /// Detail of a metric: the counts, and for the signal-to-noise ratio the
    /// squared error behind it.
    pub open spec fn detail(self, metric: GpuErrorMetric, name: Seq<char>) -> Option<Score> {
        if name == "channels"@ {
            Some(self.channels)
        } else if name == "samples"@ {
            Some(self.samples)
        } else if name == "pixels"@ {
            Some(self.pixels)
        } else if name == "mse"@ && metric is Psnr {
            Some(self.mse)
        } else {
            None
        }
    }
}

/// Whether an output is a metric of a comparison.
pub open spec fn projects(
    output: MetricOutput,
    metric: GpuErrorMetric,
    domain: GpuErrorDomain,
    errors: NormalizedErrors,
) -> bool {
    &&& output.name@ == metric.stem() + ":"@ + domain.label()
    &&& output.score == errors.value(metric)
    &&& output.unit@ == metric.unit_text()
    &&& output.direction == if metric is Psnr {
        Direction::HigherIsBetter
    } else {
        Direction::LowerIsBetter
    }
    &&& forall|name: Seq<char>|
        #[trigger] output.details.spec_get(name) == errors.detail(metric, name)
}

fn metric_output(metric: GpuErrorMetric, domain: GpuErrorDomain, errors: &NormalizedErrors) -> (output:
    MetricOutput)
    ensures
        projects(output, metric, domain, *errors),
{
    let score = match metric {
        GpuErrorMetric::Mse => errors.mse,
        GpuErrorMetric::Rmse => errors.rmse,
        GpuErrorMetric::Psnr => errors.psnr,
        GpuErrorMetric::Mae => errors.mae,
        GpuErrorMetric::MaxAbsoluteError => errors.max_abs,
    };
    let mut output = MetricOutput::new(
        metric.output_name(domain),
        score,
        String::from_str(metric.unit()),
        metric.direction(),
    );
    if metric == GpuErrorMetric::Psnr {
        output = output.with_detail(String::from_str("mse"), errors.mse);
    }
    output.with_detail(String::from_str("pixels"), errors.pixels).with_detail(
        String::from_str("samples"),
        errors.samples,
    ).with_detail(String::from_str("channels"), errors.channels)
}

/// Writes the selected metrics of a comparison, in the order asked for.
pub fn normalized_metric_outputs_in_domain(
    metrics: &Vec<GpuErrorMetric>,
    domain: GpuErrorDomain,
    errors: &NormalizedErrors,
) -> (outputs: Vec<MetricOutput>)
    ensures
        outputs@.len() == metrics@.len(),
        forall|i: int|
            0 <= i < metrics@.len() ==> projects(
                #[trigger] outputs@[i],
                metrics@[i],
                domain,
                *errors,
            ),
{
    let mut outputs: Vec<MetricOutput> = Vec::new();
    let mut i: usize = 0;
    while i < metrics.len()
        invariant
            i <= metrics@.len(),
            outputs@.len() == i,
            forall|j: int|
                0 <= j < i ==> projects(#[trigger] outputs@[j], metrics@[j], domain, *errors),
        decreases metrics@.len() - i,
    {
        outputs.push(metric_output(metrics[i], domain, errors));
        i += 1;
    }
    outputs
}

/// The reported pixel limit is exactly the largest frame that the error kernel
/// accepts, and the reported window limit the largest number of windows that can be
/// dispatched with their results stored.
pub proof fn law_capabilities_are_exact(limits: GpuLimits, count: nat)
    requires
        1 <= count <= u32::MAX,
    ensures
        error_plan(limits, count) is Ok <==> count <= error_pixel_limit(limits),
        limits.dispatches(group_count(count)) && SSIM_WINDOW_BYTES * count <= limits.storage()
            <==> count <= window_limit(limits),
{
    let groups = group_count(count);
    let storage = limits.storage();
    let square = limits.side() * limits.side();
    law_dispatch_covers(limits, "gpu_mse_rgba8"@, count);
    lemma_quotient(storage, 4, count);
    lemma_quotient(storage, PARTIAL_STATS_BYTES as nat, groups);
    lemma_quotient(storage, SSIM_WINDOW_BYTES as nat, count);
    lemma_ceil_bound(count, WORKGROUP_SIZE as nat, square);
    lemma_ceil_bound(count, WORKGROUP_SIZE as nat, storage / PARTIAL_STATS_BYTES as nat);
    assert(square * 256 == 256 * square) by (nonlinear_arith);
    let stored = storage / PARTIAL_STATS_BYTES as nat;
    assert(stored * 256 == 256 * stored) by (nonlinear_arith);
    assert(groups <= count);
}

} // verus!
