//! Choices of the GPU commands.

use crate::cli::CliResult;
use crate::gpu::{
    GpuComparatorOptions, GpuContextOptions, GpuErrorDomain, GpuErrorMetric, GpuFallbackPolicy,
    GpuPowerPreference, GpuWindowedSsimOptions,
};
use crate::strings::{
    law_pieces_are_cut_one_by_one, lowered, split_all, split_pieces, to_ascii_lowercase, trim,
    trimmed,
};
use crate::text::{concat3, same_text};
use vstd::prelude::*;

verus! {

/// Adapter power on the command line.
#[derive(Debug, Clone, Copy, PartialEq, Eq, Structural)]
pub enum GpuPowerArg {
    /// No preference.
    Any,
    /// Low power.
    Low,
    /// High performance.
    High,
}

/// Fallback policy on the command line.
#[derive(Debug, Clone, Copy, PartialEq, Eq, Structural)]
pub enum GpuFallbackArg {
    /// Never fall back.
    Never,
    /// Fall back when initialization fails.
    Initialization,
    /// Fall back on any failure.
    Any,
}

/// Error domain on the command line.
#[derive(Debug, Clone, Copy, PartialEq, Eq, Structural)]
pub enum GpuDomainArg {
    /// RGB channels.
    Color,
    /// All channels.
    All,
}

/// Adapter choice on the command line.
#[derive(Debug, Clone, Copy, PartialEq, Eq, Structural)]
pub struct GpuAdapterArgs {
    /// Power preference.
    pub power: GpuPowerArg,
    /// Require a fallback adapter.
    pub fallback_adapter: bool,
}

/// Context options that an adapter choice asks for.
pub open spec fn asked_context(adapter: GpuAdapterArgs) -> GpuContextOptions {
    GpuContextOptions {
        power_preference: match adapter.power {
            GpuPowerArg::Any => GpuPowerPreference::NoPreference,
            GpuPowerArg::Low => GpuPowerPreference::LowPower,
            GpuPowerArg::High => GpuPowerPreference::HighPerformance,
        },
        force_fallback_adapter: adapter.fallback_adapter,
    }
}

/// Turns an adapter choice into context options.
pub fn gpu_context_options(adapter: &GpuAdapterArgs) -> (options: GpuContextOptions)
    ensures
        options == asked_context(*adapter),
{
    GpuContextOptions {
        power_preference: match adapter.power {
            GpuPowerArg::Any => GpuPowerPreference::NoPreference,
            GpuPowerArg::Low => GpuPowerPreference::LowPower,
            GpuPowerArg::High => GpuPowerPreference::HighPerformance,
        },
        force_fallback_adapter: adapter.fallback_adapter,
    }
}

/// What a metric name asks of the GPU.
#[derive(Debug, Clone, Copy, PartialEq, Eq, Structural)]
pub enum GpuMetricChoice {
    /// An error metric.
    Error(GpuErrorMetric),
    /// Windowed SSIM.
    Windowed,
}

/// Choice that a metric name in lower case stands for.
pub open spec fn named_choice(name: Seq<char>) -> Option<GpuMetricChoice> {
    if name == "mse"@ || name == "mse:all"@ {
        Some(GpuMetricChoice::Error(GpuErrorMetric::Mse))
    } else if name == "rmse"@ || name == "rmse:all"@ {
        Some(GpuMetricChoice::Error(GpuErrorMetric::Rmse))
    } else if name == "psnr"@ || name == "psnr:all"@ {
        Some(GpuMetricChoice::Error(GpuErrorMetric::Psnr))
    } else if name == "mae"@ || name == "mae:all"@ {
        Some(GpuMetricChoice::Error(GpuErrorMetric::Mae))
    } else if name == "maxae"@ || name == "max_ae"@ || name == "max-error"@ || name
        == "maxae:all"@ {
        Some(GpuMetricChoice::Error(GpuErrorMetric::MaxAbsoluteError))
    } else if name == "wssim"@ || name == "windowed-ssim"@ || name == "windowed_ssim"@ {
        Some(GpuMetricChoice::Windowed)
    } else {
        None
    }
}

fn choice_of(name: &str) -> (choice: Option<GpuMetricChoice>)
    ensures
        choice == named_choice(name@),
{
    if same_text(name, "mse") || same_text(name, "mse:all") {
        Some(GpuMetricChoice::Error(GpuErrorMetric::Mse))
    } else if same_text(name, "rmse") || same_text(name, "rmse:all") {
        Some(GpuMetricChoice::Error(GpuErrorMetric::Rmse))
    } else if same_text(name, "psnr") || same_text(name, "psnr:all") {
        Some(GpuMetricChoice::Error(GpuErrorMetric::Psnr))
    } else if same_text(name, "mae") || same_text(name, "mae:all") {
        Some(GpuMetricChoice::Error(GpuErrorMetric::Mae))
    } else if same_text(name, "maxae") || same_text(name, "max_ae") || same_text(name, "max-error")
        || same_text(name, "maxae:all") {
        Some(GpuMetricChoice::Error(GpuErrorMetric::MaxAbsoluteError))
    } else if same_text(name, "wssim") || same_text(name, "windowed-ssim") || same_text(
        name,
        "windowed_ssim",
    ) {
        Some(GpuMetricChoice::Windowed)
    } else {
        None
    }
}

/// Error metrics in order, and whether windowed SSIM is asked for.
pub struct GpuMetrics {
    pub errors: Seq<GpuErrorMetric>,
    pub windowed: bool,
}

/// What the first `count` items ask for; blank items are skipped.
pub open spec fn asked_first(items: Seq<Seq<char>>, count: int) -> core::result::Result<
    GpuMetrics,
    Seq<char>,
>
    decreases count,
{
    if count <= 0 {
        Ok(GpuMetrics { errors: Seq::empty(), windowed: false })
    } else {
        let item = trimmed(items[count - 1]);
        match asked_first(items, count - 1) {
            Err(message) => Err(message),
            Ok(before) => if item.len() == 0 {
                Ok(before)
            } else {
                match named_choice(lowered(item)) {
                    Some(GpuMetricChoice::Error(metric)) => Ok(
                        GpuMetrics { errors: before.errors.push(metric), ..before },
                    ),
                    Some(GpuMetricChoice::Windowed) => Ok(GpuMetrics { windowed: true, ..before }),
                    None => Err(
                        "unsupported GPU metric `"@ + item
                            + "`; expected mse,rmse,psnr,mae,maxae,wssim"@,
                    ),
                }
            },
        }
    }
}

/// What a list of metrics asks for, or the message why it is refused.
pub open spec fn asked_metrics(input: Seq<char>) -> core::result::Result<GpuMetrics, Seq<char>> {
    let items = split_pieces(input, ',');
    match asked_first(items, items.len() as int) {
        Err(message) => Err(message),
        Ok(metrics) => if metrics.errors.len() == 0 && !metrics.windowed {
            Err("at least one GPU metric is required"@)
        } else {
            Ok(metrics)
        },
    }
}

proof fn lemma_refused(items: Seq<Seq<char>>, count: int, more: int)
    requires
        0 <= count <= more,
        asked_first(items, count) is Err,
    ensures
        asked_first(items, more) == asked_first(items, count),
    decreases more - count,
{
    if count < more {
        lemma_refused(items, count, more - 1);
    }
}

/// Reads a comma-separated list of GPU metrics: the error metrics in order, and
/// whether windowed SSIM is asked for.
pub fn parse_gpu_metrics(input: &str) -> (result: CliResult<(Vec<GpuErrorMetric>, bool)>)
    ensures
        match result {
            Ok((errors, windowed)) => asked_metrics(input@) == Ok::<GpuMetrics, Seq<char>>(
                GpuMetrics { errors: errors@, windowed },
            ),
            Err(message) => asked_metrics(input@) == Err::<GpuMetrics, Seq<char>>(message@),
        },
{
    let pieces = split_all(input, ',');
    let ghost items = split_pieces(input@, ',');
    let mut errors: Vec<GpuErrorMetric> = Vec::new();
    let mut windowed = false;
    let mut i: usize = 0;
    assert(errors@ =~= Seq::<GpuErrorMetric>::empty());
    while i < pieces.len()
        invariant
            i <= pieces@.len(),
            items == split_pieces(input@, ','),
            pieces@.map_values(|piece: &str| piece@) == items,
            asked_first(items, i as int) == Ok::<GpuMetrics, Seq<char>>(
                GpuMetrics { errors: errors@, windowed },
            ),
        decreases pieces@.len() - i,
    {
        assert(items[i as int] == pieces@[i as int]@);
        let item = trim(pieces[i]);
        if !item.is_empty() {
            let name = to_ascii_lowercase(item);
            match choice_of(name.as_str()) {
                Some(GpuMetricChoice::Error(metric)) => {
                    errors.push(metric);
                },
                Some(GpuMetricChoice::Windowed) => {
                    windowed = true;
                },
                None => {
                    proof {
                        lemma_refused(items, i + 1, items.len() as int);
                    }
                    return Err(
                        concat3(
                            "unsupported GPU metric `",
                            item,
                            "`; expected mse,rmse,psnr,mae,maxae,wssim",
                        ),
                    );
                },
            }
        }
        i += 1;
    }
    assert(items.len() == pieces@.len());
    if errors.len() == 0 && !windowed {
        return Err(String::from_str("at least one GPU metric is required"));
    }
    Ok((errors, windowed))
}

/// What a GPU comparison does.
#[derive(Debug)]
pub struct GpuComparePlan {
    /// Comparator options.
    pub options: GpuComparatorOptions,
    /// Error metrics; none of them means that no error comparison runs.
    pub error_metrics: Vec<GpuErrorMetric>,
    /// Channels of the error comparison.
    pub domain: GpuErrorDomain,
    /// Windows of the SSIM comparison, if it runs.
    pub windows: Option<GpuWindowedSsimOptions>,
}

/// Plans a GPU comparison.
pub fn plan_gpu_compare(
    metrics: &str,
    adapter: &GpuAdapterArgs,
    fallback: GpuFallbackArg,
    domain: GpuDomainArg,
    window: usize,
    window_stride: usize,
) -> (result: CliResult<GpuComparePlan>)
    ensures
        match asked_metrics(metrics@) {
            Err(message) => result matches Err(text) && text@ == message,
            Ok(asked) => {
                &&& result matches Ok(plan)
                &&& plan.options.context == asked_context(*adapter)
                &&& plan.options.fallback == match fallback {
                    GpuFallbackArg::Never => GpuFallbackPolicy::Never,
                    GpuFallbackArg::Initialization => GpuFallbackPolicy::InitializationOnly,
                    GpuFallbackArg::Any => GpuFallbackPolicy::AnyGpuError,
                }
                &&& plan.error_metrics@ == asked.errors
                &&& plan.domain == match domain {
                    GpuDomainArg::Color => GpuErrorDomain::Color,
                    GpuDomainArg::All => GpuErrorDomain::All,
                }
                &&& plan.windows == if asked.windowed {
                    Some(
                        GpuWindowedSsimOptions {
                            window_width: window,
                            window_height: window,
                            stride_x: window_stride,
                            stride_y: window_stride,
                        },
                    )
                } else {
                    None
                }
            },
        },
{
    let (error_metrics, windowed) = match parse_gpu_metrics(metrics) {
        Ok(parsed) => parsed,
        Err(message) => return Err(message),
    };
    let options = GpuComparatorOptions {
        context: gpu_context_options(adapter),
        fallback: match fallback {
            GpuFallbackArg::Never => GpuFallbackPolicy::Never,
            GpuFallbackArg::Initialization => GpuFallbackPolicy::InitializationOnly,
            GpuFallbackArg::Any => GpuFallbackPolicy::AnyGpuError,
        },
    };
    let domain = match domain {
        GpuDomainArg::Color => GpuErrorDomain::Color,
        GpuDomainArg::All => GpuErrorDomain::All,
    };
    let windows = if windowed {
        Some(
            GpuWindowedSsimOptions {
                window_width: window,
                window_height: window,
                stride_x: window_stride,
                stride_y: window_stride,
            },
        )
    } else {
        None
    };
    Ok(GpuComparePlan { options, error_metrics, domain, windows })
}

/// A list of metrics is read name by name: one more name, behind a comma and in any case
/// of its letters, adds its metric at the end, an empty one adds nothing, and an unknown
/// one makes the list an error.
pub proof fn law_metric_lists_are_read_in_order(input: Seq<char>, item: Seq<char>)
    requires
        !item.contains(','),
        asked_metrics(input) is Ok,
    ensures
        ({
            let before = asked_metrics(input)->Ok_0;
            let after = asked_metrics(input.push(',') + item);
            if trimmed(item).len() == 0 {
                after == asked_metrics(input)
            } else {
                match named_choice(lowered(trimmed(item))) {
                    Some(GpuMetricChoice::Error(metric)) => after matches Ok(metrics)
                        && metrics.errors == before.errors.push(metric) && metrics.windowed
                        == before.windowed,
                    Some(GpuMetricChoice::Windowed) => after matches Ok(metrics) && metrics.errors
                        == before.errors && metrics.windowed,
                    None => after is Err,
                }
            }
        }),
{
    let items = split_pieces(input, ',');
    let more = split_pieces(input.push(',') + item, ',');
    law_pieces_are_cut_one_by_one(input, ',', item);
    assert(more == items.push(item));
    lemma_same_items(more, items, items.len() as int);
}

proof fn lemma_same_items(a: Seq<Seq<char>>, b: Seq<Seq<char>>, count: int)
    requires
        count <= a.len(),
        count <= b.len(),
        forall|i: int| 0 <= i < count ==> #[trigger] a[i] == b[i],
    ensures
        asked_first(a, count) == asked_first(b, count),
    decreases count,
{
    if count > 0 {
        lemma_same_items(a, b, count - 1);
        assert(a[count - 1] == b[count - 1]);
    }
}

/// A single name asks for its own metric, and a list of nothing for none: that is an
/// error.
pub proof fn law_single_metrics_are_read(item: Seq<char>)
    requires
        !item.contains(','),
    ensures
        trimmed(item).len() == 0 ==> asked_metrics(item) is Err,
        trimmed(item).len() > 0 ==> match named_choice(lowered(trimmed(item))) {
            Some(GpuMetricChoice::Error(metric)) => asked_metrics(item) matches Ok(metrics)
                && metrics.errors == seq![metric] && !metrics.windowed,
            Some(GpuMetricChoice::Windowed) => asked_metrics(item) matches Ok(metrics)
                && metrics.errors.len() == 0 && metrics.windowed,
            None => asked_metrics(item) is Err,
        },
{
    law_pieces_are_cut_one_by_one(Seq::empty(), ',', item);
    let items = split_pieces(item, ',');
    assert(items[0] == item);
    assert(asked_first(items, 0) is Ok);
    if let Some(GpuMetricChoice::Error(metric)) = named_choice(lowered(trimmed(item))) {
        assert(Seq::<GpuErrorMetric>::empty().push(metric) =~= seq![metric]);
    }
}

/// The names of the metrics: each short name and its form for all channels.
pub proof fn law_metric_names(name: Seq<char>)
    ensures
        name == "mse"@ || name == "mse:all"@ ==> named_choice(name) == Some(
            GpuMetricChoice::Error(GpuErrorMetric::Mse),
        ),
        name == "rmse"@ || name == "rmse:all"@ ==> named_choice(name) == Some(
            GpuMetricChoice::Error(GpuErrorMetric::Rmse),
        ),
        name == "psnr"@ || name == "psnr:all"@ ==> named_choice(name) == Some(
            GpuMetricChoice::Error(GpuErrorMetric::Psnr),
        ),
        name == "mae"@ || name == "mae:all"@ ==> named_choice(name) == Some(
            GpuMetricChoice::Error(GpuErrorMetric::Mae),
        ),
        name == "maxae"@ || name == "maxae:all"@ ==> named_choice(name) == Some(
            GpuMetricChoice::Error(GpuErrorMetric::MaxAbsoluteError),
        ),
        name == "wssim"@ ==> named_choice(name) == Some(GpuMetricChoice::Windowed),
{
    reveal_strlit("mse");
    reveal_strlit("mse:all");
    reveal_strlit("rmse");
    reveal_strlit("rmse:all");
    reveal_strlit("psnr");
    reveal_strlit("psnr:all");
    reveal_strlit("mae");
    reveal_strlit("mae:all");
    reveal_strlit("maxae");
    reveal_strlit("max_ae");
    reveal_strlit("max-error");
    reveal_strlit("maxae:all");
    reveal_strlit("wssim");
    reveal_strlit("windowed-ssim");
    reveal_strlit("windowed_ssim");
    assert("mse"@[1] == 's' && "mae"@[1] == 'a' && "rmse"@[0] == 'r' && "psnr"@[0] == 'p'
        && "wssim"@[0] == 'w' && "maxae"@[0] == 'm');
    assert("mse:all"@[1] == 's' && "mae:all"@[1] == 'a' && "rmse:all"@[0] == 'r' && "psnr:all"@[0]
        == 'p' && "maxae:all"@.len() == 9);
    assert("maxae"@.len() == 5 && "mse"@.len() == 3 && "mae"@.len() == 3 && "mse:all"@.len() == 7
        && "mae:all"@.len() == 7 && "psnr"@.len() == 4 && "rmse"@.len() == 4 && "psnr:all"@.len() == 8
        && "rmse:all"@.len() == 8);
}

/// The adapter is asked for as given: its power, and whether a fallback is forced.
pub proof fn law_adapter_requests(adapter: GpuAdapterArgs)
    ensures
        asked_context(adapter).force_fallback_adapter == adapter.fallback_adapter,
        asked_context(adapter).power_preference is LowPower <==> adapter.power is Low,
        asked_context(adapter).power_preference is HighPerformance <==> adapter.power is High,
        asked_context(adapter).power_preference is NoPreference <==> adapter.power is Any,
{
}

} // verus!
