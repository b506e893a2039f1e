//! Comparison reports and the pass/fail gate over one report.

use crate::cli::CliResult;
use crate::frame::{Dimensions, FormatSpec};
use crate::metrics::{law_scores_follow_their_bits, Comparison, Direction, MetricOutput, Score};
use crate::strings::{
    has_prefix, law_split_first_cuts_once, law_split_first_finds_the_token, split_first, split_once,
    strip_prefix, trim, trimmed,
};
use crate::text::{concat3, concat4, concat5, decimal, decimal_text, optional_text, same_text};
use vstd::prelude::*;

verus! {

/// A metric result together with the texts of its numbers.
#[derive(Debug)]
pub struct MetricEntry {
    /// Metric result.
    pub output: MetricOutput,
    /// Score with eight decimals.
    pub fixed: String,
    /// Shortest text of the score.
    pub plain: String,
    /// Details as a JSON object.
    pub details_json: String,
}

/// A number together with its texts.
#[derive(Debug)]
pub struct NumberText {
    /// The number.
    pub value: Score,
    /// Text with a fixed number of decimals.
    pub fixed: String,
    /// Shortest text.
    pub plain: String,
}

/// Where an input of a comparison came from.
#[derive(Debug)]
pub struct ComparisonInput {
    /// Path or address.
    pub path: Option<String>,
    /// Label.
    pub label: Option<String>,
    /// Index in an imqraw bundle.
    pub index: Option<usize>,
    /// Tag in an imqraw bundle.
    pub tag: Option<String>,
}

impl ComparisonInput {
    /// An input with a path.
    pub fn path(path: String) -> (input: Self)
        ensures
            input == (ComparisonInput { path: Some(path), label: None, index: None, tag: None }),
    {
        Self { path: Some(path), label: None, index: None, tag: None }
    }

    /// An input with only a label.
    pub fn label(label: String) -> (input: Self)
        ensures
            input == (ComparisonInput { path: None, label: Some(label), index: None, tag: None }),
    {
        Self { path: None, label: Some(label), index: None, tag: None }
    }

    /// An image of a bundle, selected by index.
    pub fn imqraw_index(index: usize, label: Option<String>) -> (input: Self)
        ensures
            input == (ComparisonInput { path: None, label, index: Some(index), tag: None }),
    {
        Self { path: None, label, index: Some(index), tag: None }
    }

    /// An image of a bundle, selected by tag.
    pub fn imqraw_tag(tag: String, label: Option<String>) -> (input: Self)
        ensures
            input == (ComparisonInput { path: None, label, index: None, tag: Some(tag) }),
    {
        Self { path: None, label, index: None, tag: Some(tag) }
    }
}

/// How many pixels of an image are transparent, opaque, and in between.
#[derive(Debug, Clone, Copy, PartialEq, Eq, Structural)]
pub struct AlphaCounts {
    /// Pixels with alpha zero.
    pub transparent: u64,
    /// Pixels with full alpha.
    pub opaque: u64,
    /// Other pixels.
    pub partial: u64,
}

/// Alpha of both inputs.
#[derive(Debug, Clone, Copy, PartialEq, Eq, Structural)]
pub struct AlphaDiagnostics {
    /// Counts of the reference.
    pub reference: AlphaCounts,
    /// Counts of the distorted image.
    pub distorted: AlphaCounts,
    /// Pixels whose alpha differs.
    pub mismatch_count: u64,
    /// Largest alpha difference.
    pub max_delta: u8,
    /// Pixels whose alpha differs by more than one.
    pub mismatches_beyond_one_lsb: u64,
}

/// Bounds of the pass/fail gate.
#[derive(Debug)]
pub struct ComparisonThresholds {
    /// Metric name or domain that the first two bounds apply to.
    pub selected_metric: Option<String>,
    /// Smallest accepted score.
    pub fail_under: Option<Score>,
    /// Largest accepted channel delta.
    pub max_selected_channel_delta: Option<Score>,
    /// Largest accepted alpha delta.
    pub max_alpha_delta: Option<u8>,
    /// Largest accepted number of alpha mismatches.
    pub max_alpha_mismatches: Option<u64>,
    /// Largest accepted number of alpha mismatches beyond one code value.
    pub max_alpha_mismatches_beyond_one_lsb: Option<u64>,
}

impl Default for ComparisonThresholds {
    fn default() -> (thresholds: Self)
        ensures
            !thresholds.any(),
    {
        Self {
            selected_metric: None,
            fail_under: None,
            max_selected_channel_delta: None,
            max_alpha_delta: None,
            max_alpha_mismatches: None,
            max_alpha_mismatches_beyond_one_lsb: None,
        }
    }
}

impl ComparisonThresholds {
    /// Whether any bound is set.
    pub open spec fn any(self) -> bool {
        ||| self.selected_metric is Some
        ||| self.fail_under is Some
        ||| self.max_selected_channel_delta is Some
        ||| self.max_alpha_delta is Some
        ||| self.max_alpha_mismatches is Some
        ||| self.max_alpha_mismatches_beyond_one_lsb is Some
    }
}

/// Bounds of the quality gate on the command line.
#[derive(Debug)]
pub struct GateArgs {
    /// Metric name or domain that the first two bounds apply to.
    pub selected_metric: Option<String>,
    /// Smallest accepted score.
    pub fail_under: Option<Score>,
    /// Largest accepted channel delta.
    pub max_selected_channel_delta: Option<Score>,
    /// Largest accepted alpha delta.
    pub max_alpha_delta: Option<u8>,
    /// Largest accepted number of alpha mismatches.
    pub max_alpha_mismatches: Option<u64>,
    /// Largest accepted number of alpha mismatches beyond one code value.
    pub max_alpha_mismatches_beyond_one_lsb: Option<u64>,
}

impl GateArgs {
    /// Bounds that the arguments ask for.
    pub fn thresholds(&self) -> (thresholds: ComparisonThresholds)
        ensures
            optional_text(thresholds.selected_metric) == optional_text(self.selected_metric),
            thresholds.fail_under == self.fail_under,
            thresholds.max_selected_channel_delta == self.max_selected_channel_delta,
            thresholds.max_alpha_delta == self.max_alpha_delta,
            thresholds.max_alpha_mismatches == self.max_alpha_mismatches,
            thresholds.max_alpha_mismatches_beyond_one_lsb
                == self.max_alpha_mismatches_beyond_one_lsb,
    {
        ComparisonThresholds {
            selected_metric: match &self.selected_metric {
                Some(metric) => Some(metric.clone()),
                None => None,
            },
            fail_under: self.fail_under,
            max_selected_channel_delta: self.max_selected_channel_delta,
            max_alpha_delta: self.max_alpha_delta,
            max_alpha_mismatches: self.max_alpha_mismatches,
            max_alpha_mismatches_beyond_one_lsb: self.max_alpha_mismatches_beyond_one_lsb,
        }
    }
}

/// Tells whether any bound is set.
pub fn thresholds_have_any(thresholds: &ComparisonThresholds) -> (any: bool)
    ensures
        any == thresholds.any(),
{
    thresholds.selected_metric.is_some() || thresholds.fail_under.is_some()
        || thresholds.max_selected_channel_delta.is_some() || thresholds.max_alpha_delta.is_some()
        || thresholds.max_alpha_mismatches.is_some()
        || thresholds.max_alpha_mismatches_beyond_one_lsb.is_some()
}

/// One violated bound.
#[derive(Debug, Clone, Copy, PartialEq, Eq, Structural)]
pub enum GateViolation {
    /// The score is below the minimum.
    Score {
        /// Score of the selected metric.
        actual: Score,
        /// Minimum.
        minimum: Score,
    },
    /// The channel delta is above the maximum.
    ChannelDelta {
        /// Channel delta of the selected metric.
        actual: Score,
        /// Maximum.
        maximum: Score,
    },
    /// The alpha delta is above the maximum.
    AlphaDelta {
        /// Largest alpha delta.
        actual: u8,
        /// Maximum.
        maximum: u8,
    },
    /// There are too many alpha mismatches.
    AlphaMismatches {
        /// Number of mismatches.
        actual: u64,
        /// Maximum.
        maximum: u64,
    },
    /// There are too many alpha mismatches beyond one code value.
    AlphaBeyondOneLsb {
        /// Number of mismatches.
        actual: u64,
        /// Maximum.
        maximum: u64,
    },
}

/// Message of a violated bound. `metric` is the name of the selected metric,
/// `actual` and `bound` are the scores with eight decimals.
pub open spec fn violation_text(
    violation: GateViolation,
    metric: Seq<char>,
    actual: Seq<char>,
    bound: Seq<char>,
) -> Seq<char> {
    match violation {
        GateViolation::Score { .. } => metric + " score "@ + actual + " is below --fail-under "@
            + bound,
        GateViolation::ChannelDelta { .. } => metric + " max channel delta "@ + actual
            + " exceeds --max-selected-channel-delta "@ + bound,
        GateViolation::AlphaDelta { actual, maximum } => "alpha max delta "@ + decimal_text(
            actual as nat,
        ) + " exceeds --max-alpha-delta "@ + decimal_text(maximum as nat),
        GateViolation::AlphaMismatches { actual, maximum } => "alpha mismatches "@ + decimal_text(
            actual as nat,
        ) + " exceeds --max-alpha-mismatches "@ + decimal_text(maximum as nat),
        GateViolation::AlphaBeyondOneLsb { actual, maximum } =>
            "alpha mismatches beyond one LSB "@ + decimal_text(actual as nat)
            + " exceeds --max-alpha-mismatches-beyond-one-lsb "@ + decimal_text(maximum as nat),
    }
}

impl GateViolation {
    /// Writes the message of this violation.
    pub fn message(&self, metric: &str, actual: &str, bound: &str) -> (text: String)
        ensures
            text@ == violation_text(*self, metric@, actual@, bound@),
    {
        match *self {
            GateViolation::Score { .. } => concat5(
                metric,
                " score ",
                actual,
                " is below --fail-under ",
                bound,
            ),
            GateViolation::ChannelDelta { .. } => concat5(
                metric,
                " max channel delta ",
                actual,
                " exceeds --max-selected-channel-delta ",
                bound,
            ),
            GateViolation::AlphaDelta { actual, maximum } => concat4(
                "alpha max delta ",
                decimal(actual as u64).as_str(),
                " exceeds --max-alpha-delta ",
                decimal(maximum as u64).as_str(),
            ),
            GateViolation::AlphaMismatches { actual, maximum } => concat4(
                "alpha mismatches ",
                decimal(actual).as_str(),
                " exceeds --max-alpha-mismatches ",
                decimal(maximum).as_str(),
            ),
            GateViolation::AlphaBeyondOneLsb { actual, maximum } => concat4(
                "alpha mismatches beyond one LSB ",
                decimal(actual).as_str(),
                " exceeds --max-alpha-mismatches-beyond-one-lsb ",
                decimal(maximum).as_str(),
            ),
        }
    }
}

/// Outcome of the quality gate.
#[derive(Debug)]
pub struct ComparisonGateReport {
    /// The bounds.
    pub thresholds: ComparisonThresholds,
    /// Whether every bound held.
    pub passed: bool,
    /// Messages of the violated bounds.
    pub failures: Vec<String>,
}

/// Report of one image comparison.
#[derive(Debug)]
pub struct ComparisonReport {
    /// Label of the reference.
    pub reference: Option<String>,
    /// Label of the distorted image.
    pub distorted: Option<String>,
    /// Where the reference came from.
    pub reference_input: Option<ComparisonInput>,
    /// Where the distorted image came from.
    pub distorted_input: Option<ComparisonInput>,
    /// Size of both images.
    pub dimensions: Dimensions,
    /// Format of the reference.
    pub reference_format: FormatSpec,
    /// Format of the distorted image.
    pub distorted_format: FormatSpec,
    /// Metric results.
    pub metrics: Vec<MetricEntry>,
    /// Alpha of both images.
    pub alpha: Option<AlphaDiagnostics>,
    /// Outcome of the quality gate.
    pub gate: Option<ComparisonGateReport>,
}

impl ComparisonReport {
    /// Creates a report that holds metric results only.
    pub fn new(
        dimensions: Dimensions,
        reference_format: FormatSpec,
        distorted_format: FormatSpec,
        metrics: Vec<MetricEntry>,
    ) -> (report: Self)
        ensures
            report == (ComparisonReport {
                reference: None,
                distorted: None,
                reference_input: None,
                distorted_input: None,
                dimensions,
                reference_format,
                distorted_format,
                metrics,
                alpha: None,
                gate: None,
            }),
    {
        Self {
            reference: None,
            distorted: None,
            reference_input: None,
            distorted_input: None,
            dimensions,
            reference_format,
            distorted_format,
            metrics,
            alpha: None,
            gate: None,
        }
    }

    /// Adds the outcome of the quality gate.
    pub fn with_gate(self, gate: ComparisonGateReport) -> (report: Self)
        ensures
            report == (ComparisonReport { gate: Some(gate), ..self }),
    {
        let mut report = self;
        report.gate = Some(gate);
        report
    }
}

/// Whether a metric name is meant by a request: the name itself, or the domain
/// behind its first colon.
pub open spec fn is_meant(name: Seq<char>, requested: Seq<char>) -> bool {
    ||| name == requested
    ||| has_prefix(name, "psnr:"@) && name.skip("psnr:"@.len() as int) == requested
    ||| split_first(name, ":"@) matches Some((_, domain)) && domain == requested
}

/// First metric at or behind `from` that a request means.
pub open spec fn meant_from(metrics: Seq<MetricEntry>, requested: Seq<char>, from: int) -> Option<int>
    decreases metrics.len() - from,
{
    if from < 0 || from >= metrics.len() {
        None
    } else if is_meant(metrics[from].output.name@, requested) {
        Some(from)
    } else {
        meant_from(metrics, requested, from + 1)
    }
}

/// Request without blanks around it, if anything is left.
pub open spec fn request_of(requested: Option<Seq<char>>) -> Option<Seq<char>> {
    match requested {
        Some(text) => if trimmed(text).len() == 0 {
            None
        } else {
            Some(trimmed(text))
        },
        None => None,
    }
}

/// Index of the metric that a gate looks at: the first one that is meant, or the
/// first of all without a request.
pub open spec fn selected_index(metrics: Seq<MetricEntry>, requested: Option<Seq<char>>) -> core::result::Result<
    int,
    Seq<char>,
> {
    match request_of(requested) {
        None => if metrics.len() == 0 {
            Err("cannot apply threshold gate without metrics"@)
        } else {
            Ok(0)
        },
        Some(wanted) => match meant_from(metrics, wanted, 0) {
            Some(index) => Ok(index),
            None => Err("selected metric `"@ + wanted + "` was not computed"@),
        },
    }
}

fn means(name: &str, requested: &str) -> (yes: bool)
    ensures
        yes == is_meant(name@, requested@),
{
    if same_text(name, requested) {
        return true;
    }
    if let Some(domain) = strip_prefix(name, "psnr:") {
        if same_text(domain, requested) {
            return true;
        }
    }
    match split_once(name, ":") {
        Some((_, domain)) => same_text(domain, requested),
        None => false,
    }
}

/// Finds the metric that a gate looks at.
pub fn selected_metric<'a>(report: &'a ComparisonReport, requested: Option<&str>) -> (result: CliResult<
    &'a MetricEntry,
>)
    ensures
        match result {
            Ok(metric) => {
                &&& selected_index(
                    report.metrics@,
                    match requested {
                        Some(text) => Some(text@),
                        None => None,
                    },
                ) matches Ok(index)
                &&& 0 <= index < report.metrics@.len()
                &&& *metric == report.metrics@[index]
            },
            Err(message) => selected_index(
                report.metrics@,
                match requested {
                    Some(text) => Some(text@),
                    None => None,
                },
            ) == Err::<int, Seq<char>>(message@),
        },
{
    let wanted = match requested {
        Some(text) => trim(text),
        None => "",
    };
    proof {
        reveal_strlit("");
    }
    if wanted.is_empty() {
        if report.metrics.len() == 0 {
            return Err(String::from_str("cannot apply threshold gate without metrics"));
        }
        return Ok(&report.metrics[0]);
    }
    let mut i: usize = 0;
    while i < report.metrics.len()
        invariant
            i <= report.metrics.len(),
            request_of(
                match requested {
                    Some(text) => Some(text@),
                    None => None,
                },
            ) == Some(wanted@),
            meant_from(report.metrics@, wanted@, 0) == meant_from(
                report.metrics@,
                wanted@,
                i as int,
            ),
        decreases report.metrics.len() - i,
    {
        if means(report.metrics[i].output.name.as_str(), wanted) {
            return Ok(&report.metrics[i]);
        }
        i += 1;
    }
    Err(concat3("selected metric `", wanted, "` was not computed"))
}

/// Channel delta of a metric as a code value: the detail that holds one, else
/// `scaled`, the normalized delta times the largest code value.
pub open spec fn delta_code(metric: MetricEntry, scaled: Score) -> Score {
    match metric.output.details.spec_get("max_channel_delta_code"@) {
        Some(code) => code,
        None => scaled,
    }
}

/// Normalized channel delta of a metric; zero if it has none.
pub fn normalized_delta(metric: &MetricEntry) -> (delta: Score)
    ensures
        delta == match metric.output.details.spec_get("max_channel_delta"@) {
            Some(delta) => delta,
            None => Score { bits: 0 },
        },
{
    match metric.output.details.get("max_channel_delta") {
        Some(delta) => delta,
        None => Score::zero(),
    }
}

/// A violation in a list of its own, if the condition holds.
pub open spec fn one_if(condition: bool, violation: GateViolation) -> Seq<GateViolation> {
    if condition {
        seq![violation]
    } else {
        Seq::empty()
    }
}

/// Violations of the bounds on the selected metric.
pub open spec fn metric_violations(
    metric: MetricEntry,
    scaled: Score,
    thresholds: ComparisonThresholds,
) -> Seq<GateViolation> {
    let score = match thresholds.fail_under {
        Some(minimum) => one_if(
            metric.output.score.compared(minimum) is Less,
            GateViolation::Score { actual: metric.output.score, minimum },
        ),
        None => Seq::empty(),
    };
    let delta = match thresholds.max_selected_channel_delta {
        Some(maximum) => one_if(
            delta_code(metric, scaled).compared(maximum) is Greater,
            GateViolation::ChannelDelta { actual: delta_code(metric, scaled), maximum },
        ),
        None => Seq::empty(),
    };
    score + delta
}

/// Violations of the bounds on alpha.
pub open spec fn alpha_violations(
    alpha: AlphaDiagnostics,
    thresholds: ComparisonThresholds,
) -> Seq<GateViolation> {
    let delta = match thresholds.max_alpha_delta {
        Some(maximum) => one_if(
            alpha.max_delta > maximum,
            GateViolation::AlphaDelta { actual: alpha.max_delta, maximum },
        ),
        None => Seq::empty(),
    };
    let mismatches = match thresholds.max_alpha_mismatches {
        Some(maximum) => one_if(
            alpha.mismatch_count > maximum,
            GateViolation::AlphaMismatches { actual: alpha.mismatch_count, maximum },
        ),
        None => Seq::empty(),
    };
    let beyond = match thresholds.max_alpha_mismatches_beyond_one_lsb {
        Some(maximum) => one_if(
            alpha.mismatches_beyond_one_lsb > maximum,
            GateViolation::AlphaBeyondOneLsb { actual: alpha.mismatches_beyond_one_lsb, maximum },
        ),
        None => Seq::empty(),
    };
    delta + mismatches + beyond
}

/// Violated bounds of a report in the order they are checked, or why the quality gate
/// cannot be applied.
pub open spec fn gate_violations(
    report: ComparisonReport,
    thresholds: ComparisonThresholds,
    scaled: Score,
) -> core::result::Result<Seq<GateViolation>, Seq<char>> {
    let requested = match thresholds.selected_metric {
        Some(text) => Some(text@),
        None => None,
    };
    if thresholds.fail_under matches Some(minimum) && !minimum.finite() {
        Err("--fail-under must be finite"@)
    } else if thresholds.max_selected_channel_delta matches Some(maximum) && !maximum.finite() {
        Err("--max-selected-channel-delta must be finite"@)
    } else {
        match selected_index(report.metrics@, requested) {
            Err(message) => Err(message),
            Ok(index) => Ok(
                metric_violations(report.metrics@[index], scaled, thresholds) + match report.alpha {
                    Some(alpha) => alpha_violations(alpha, thresholds),
                    None => Seq::empty(),
                },
            ),
        }
    }
}

/// Finds the violated bounds of a report. `scaled` is the delta given by
/// [`normalized_delta`] for the selected metric times the largest code value.
pub fn find_violations(
    report: &ComparisonReport,
    thresholds: &ComparisonThresholds,
    scaled: Score,
) -> (result: CliResult<Vec<GateViolation>>)
    ensures
        match result {
            Ok(violations) => gate_violations(*report, *thresholds, scaled) == Ok::<
                Seq<GateViolation>,
                Seq<char>,
            >(violations@),
            Err(message) => gate_violations(*report, *thresholds, scaled) == Err::<
                Seq<GateViolation>,
                Seq<char>,
            >(message@),
        },
{
    if let Some(minimum) = thresholds.fail_under {
        if !minimum.is_finite() {
            return Err(String::from_str("--fail-under must be finite"));
        }
    }
    if let Some(maximum) = thresholds.max_selected_channel_delta {
        if !maximum.is_finite() {
            return Err(String::from_str("--max-selected-channel-delta must be finite"));
        }
    }
    let requested = match &thresholds.selected_metric {
        Some(text) => Some(text.as_str()),
        None => None,
    };
    let metric = match selected_metric(report, requested) {
        Ok(metric) => metric,
        Err(message) => return Err(message),
    };
    let mut found: Vec<GateViolation> = Vec::new();
    if let Some(minimum) = thresholds.fail_under {
        if metric.output.score.compare(minimum) == Comparison::Less {
            found.push(GateViolation::Score { actual: metric.output.score, minimum });
        }
    }
    if let Some(maximum) = thresholds.max_selected_channel_delta {
        let actual = match metric.output.details.get("max_channel_delta_code") {
            Some(code) => code,
            None => scaled,
        };
        if actual.compare(maximum) == Comparison::Greater {
            found.push(GateViolation::ChannelDelta { actual, maximum });
        }
    }
    assert(found@ =~= metric_violations(*metric, scaled, *thresholds));
    let ghost first = found@;
    if let Some(alpha) = report.alpha {
        if let Some(maximum) = thresholds.max_alpha_delta {
            if alpha.max_delta > maximum {
                found.push(GateViolation::AlphaDelta { actual: alpha.max_delta, maximum });
            }
        }
        if let Some(maximum) = thresholds.max_alpha_mismatches {
            if alpha.mismatch_count > maximum {
                found.push(
                    GateViolation::AlphaMismatches { actual: alpha.mismatch_count, maximum },
                );
            }
        }
        if let Some(maximum) = thresholds.max_alpha_mismatches_beyond_one_lsb {
            if alpha.mismatches_beyond_one_lsb > maximum {
                found.push(
                    GateViolation::AlphaBeyondOneLsb {
                        actual: alpha.mismatches_beyond_one_lsb,
                        maximum,
                    },
                );
            }
        }
        assert(found@ =~= first + alpha_violations(alpha, *thresholds));
    }
    assert(report.alpha is None ==> found@ =~= first + Seq::<GateViolation>::empty());
    Ok(found)
}

/// Texts of the numbers that a gate speaks of, with eight decimals.
#[derive(Debug)]
pub struct GateTexts {
    /// Score of the selected metric.
    pub score: String,
    /// Smallest accepted score.
    pub minimum: String,
    /// Channel delta of the selected metric.
    pub delta: String,
    /// Largest accepted channel delta.
    pub maximum: String,
}

/// Message of a violation, with the texts that belong to it.
pub open spec fn failure_text(violation: GateViolation, metric: Seq<char>, numbers: GateTexts) -> Seq<
    char,
> {
    match violation {
        GateViolation::Score { .. } => violation_text(
            violation,
            metric,
            numbers.score@,
            numbers.minimum@,
        ),
        _ => violation_text(violation, metric, numbers.delta@, numbers.maximum@),
    }
}

/// Applies the quality gate to a report.
pub fn evaluate_gate(
    report: &ComparisonReport,
    thresholds: ComparisonThresholds,
    scaled: Score,
    numbers: &GateTexts,
) -> (result: CliResult<ComparisonGateReport>)
    ensures
        match result {
            Ok(gate) => {
                &&& gate.thresholds == thresholds
                &&& gate_violations(*report, thresholds, scaled) matches Ok(violations)
                &&& gate.passed == (violations.len() == 0)
                &&& selected_index(
                    report.metrics@,
                    match thresholds.selected_metric {
                        Some(text) => Some(text@),
                        None => None,
                    },
                ) matches Ok(index)
                &&& gate.failures@.len() == violations.len()
                &&& forall|i: int|
                    0 <= i < violations.len() ==> (#[trigger] gate.failures@[i])@ == failure_text(
                        violations[i],
                        report.metrics@[index].output.name@,
                        *numbers,
                    )
            },
            Err(message) => gate_violations(*report, thresholds, scaled) == Err::<
                Seq<GateViolation>,
                Seq<char>,
            >(message@),
        },
{
    let violations = match find_violations(report, &thresholds, scaled) {
        Ok(violations) => violations,
        Err(message) => return Err(message),
    };
    let requested = match &thresholds.selected_metric {
        Some(text) => Some(text.as_str()),
        None => None,
    };
    let metric = match selected_metric(report, requested) {
        Ok(metric) => metric,
        Err(message) => return Err(message),
    };
    let name = metric.output.name.as_str();
    let mut failures: Vec<String> = Vec::new();
    let mut i: usize = 0;
    while i < violations.len()
        invariant
            i <= violations.len(),
            failures@.len() == i,
            name@ == metric.output.name@,
            forall|j: int|
                0 <= j < i ==> (#[trigger] failures@[j])@ == failure_text(
                    violations@[j],
                    metric.output.name@,
                    *numbers,
                ),
        decreases violations.len() - i,
    {
        let text = match violations[i] {
            GateViolation::Score { .. } => violations[i].message(
                name,
                numbers.score.as_str(),
                numbers.minimum.as_str(),
            ),
            _ => violations[i].message(name, numbers.delta.as_str(), numbers.maximum.as_str()),
        };
        failures.push(text);
        i += 1;
    }
    Ok(ComparisonGateReport { thresholds, passed: failures.len() == 0, failures })
}

/// Tells whether a run has to end with a failure status.
pub fn gate_failed(report: &ComparisonReport) -> (failed: bool)
    ensures
        failed == (report.gate matches Some(gate) && !gate.passed),
{
    match &report.gate {
        Some(gate) => !gate.passed,
        None => false,
    }
}

/// A gate without bounds on alpha does not depend on alpha.
pub proof fn law_gate_ignores_unbounded_alpha(
    report: ComparisonReport,
    other: ComparisonReport,
    thresholds: ComparisonThresholds,
    scaled: Score,
)
    requires
        other.metrics == report.metrics,
        thresholds.max_alpha_delta is None,
        thresholds.max_alpha_mismatches is None,
        thresholds.max_alpha_mismatches_beyond_one_lsb is None,
    ensures
        gate_violations(report, thresholds, scaled) == gate_violations(other, thresholds, scaled),
{
    if let Some(alpha) = report.alpha {
        assert(alpha_violations(alpha, thresholds) =~= Seq::<GateViolation>::empty());
    }
    if let Some(alpha) = other.alpha {
        assert(alpha_violations(alpha, thresholds) =~= Seq::<GateViolation>::empty());
    }
}

/// Name of a direction.
pub open spec fn direction_text(direction: Direction) -> Seq<char> {
    match direction {
        Direction::HigherIsBetter => "HigherIsBetter"@,
        Direction::LowerIsBetter => "LowerIsBetter"@,
        Direction::Neutral => "Neutral"@,
    }
}

/// Returns the name of a direction.
pub fn direction_name(direction: Direction) -> (text: &'static str)
    ensures
        text@ == direction_text(direction),
{
    match direction {
        Direction::HigherIsBetter => "HigherIsBetter",
        Direction::LowerIsBetter => "LowerIsBetter",
        Direction::Neutral => "Neutral",
    }
}

/// A request means a metric by its whole name, or by what stands behind the first colon
/// of the name.
pub proof fn law_requests_mean_names_or_domains(name: Seq<char>, requested: Seq<char>)
    ensures
        is_meant(name, requested) <==> name == requested || exists|stem: Seq<char>|
            !stem.contains(':') && name == #[trigger] stem.push(':') + requested,
{
    reveal_strlit(":");
    reveal_strlit("psnr:");
    assert(":"@ =~= seq![':']);
    law_split_first_cuts_once(name, ":"@);
    let p = seq!['p', 's', 'n', 'r'];
    assert("psnr:"@ =~= p.push(':'));
    if has_prefix(name, "psnr:"@) && name.skip("psnr:"@.len() as int) == requested {
        assert(name.subrange(0, 5) == p.push(':'));
        assert(name =~= name.subrange(0, 5) + name.skip(5));
        assert(!p.contains(':'));
        assert(name == p.push(':') + requested);
    }
    if let Some((stem, domain)) = split_first(name, ":"@) {
        assert(name =~= stem.push(':') + domain);
        assert forall|j: int| 0 <= j < stem.len() implies #[trigger] stem[j] != ':' by {
            assert(name.subrange(j, j + 1) != seq![':']);
            assert(name.subrange(j, j + 1)[0] == stem[j]);
            if stem[j] == ':' {
                assert(name.subrange(j, j + 1) =~= seq![':']);
            }
        }
        assert(!stem.contains(':'));
        if domain == requested {
            assert(name == stem.push(':') + requested);
        }
    }
    if exists|stem: Seq<char>|
        !stem.contains(':') && name == #[trigger] stem.push(':') + requested {
        let stem = choose|stem: Seq<char>|
            !stem.contains(':') && name == #[trigger] stem.push(':') + requested;
        assert(name =~= stem + seq![':'] + requested);
        assert forall|j: int| 0 <= j < stem.len() implies #[trigger] name.subrange(
            j,
            j + seq![':'].len(),
        ) != seq![':'] by {
            assert(name.subrange(j, j + 1)[0] == stem[j]);
            assert(seq![':'][0] == ':');
            assert(stem.contains(stem[j]));
        }
        law_split_first_finds_the_token(stem, seq![':'], requested);
        assert(split_first(name, ":"@) == Some((stem, requested)));
    }
}

/// The selected metric is the first one that the request, without the blanks around it,
/// means; without a request, or with a blank one, it is the first of all.
pub proof fn law_first_meant_metric_is_selected(
    metrics: Seq<MetricEntry>,
    requested: Seq<char>,
    i: int,
)
    requires
        0 <= i < metrics.len(),
        trimmed(requested).len() > 0 ==> is_meant(metrics[i].output.name@, trimmed(requested)),
        trimmed(requested).len() > 0 ==> forall|j: int|
            0 <= j < i ==> !is_meant((#[trigger] metrics[j]).output.name@, trimmed(requested)),
    ensures
        trimmed(requested).len() > 0 ==> selected_index(metrics, Some(requested)) == Ok::<
            int,
            Seq<char>,
        >(i),
        trimmed(requested).len() == 0 ==> selected_index(metrics, Some(requested)) == Ok::<
            int,
            Seq<char>,
        >(0),
        selected_index(metrics, None) == Ok::<int, Seq<char>>(0),
{
    if trimmed(requested).len() > 0 {
        lemma_meant_first(metrics, trimmed(requested), i, 0);
    }
}

proof fn lemma_meant_first(metrics: Seq<MetricEntry>, requested: Seq<char>, i: int, from: int)
    requires
        0 <= from <= i < metrics.len(),
        is_meant(metrics[i].output.name@, requested),
        forall|j: int| from <= j < i ==> !is_meant((#[trigger] metrics[j]).output.name@, requested),
    ensures
        meant_from(metrics, requested, from) == Some(i),
    decreases i - from,
{
    if from < i {
        lemma_meant_first(metrics, requested, i, from + 1);
        let metric = metrics[from];
    }
}

/// A request that means no metric is an error, as is a gate without metrics.
pub proof fn law_unknown_metrics_are_refused(metrics: Seq<MetricEntry>, requested: Seq<char>)
    requires
        trimmed(requested).len() > 0,
        forall|j: int|
            0 <= j < metrics.len() ==> !is_meant(
                (#[trigger] metrics[j]).output.name@,
                trimmed(requested),
            ),
    ensures
        selected_index(metrics, Some(requested)) is Err,
        selected_index(Seq::empty(), None) is Err,
{
    lemma_meant_nowhere(metrics, trimmed(requested), 0);
}

proof fn lemma_meant_nowhere(metrics: Seq<MetricEntry>, requested: Seq<char>, from: int)
    requires
        0 <= from,
        forall|j: int|
            from <= j < metrics.len() ==> !is_meant((#[trigger] metrics[j]).output.name@, requested),
    ensures
        meant_from(metrics, requested, from) is None,
    decreases metrics.len() - from,
{
    if from < metrics.len() {
        lemma_meant_nowhere(metrics, requested, from + 1);
        let metric = metrics[from];
    }
}

/// What exceeds its bound is reported, and nothing else: each of the five bounds gives
/// one violation exactly when it is set and not kept, and each violation carries the value
/// and the bound it is about. They come in a fixed order.
pub proof fn law_violations_are_those_of_the_bounds(
    report: ComparisonReport,
    thresholds: ComparisonThresholds,
    scaled: Score,
)
    requires
        gate_violations(report, thresholds, scaled) is Ok,
    ensures
        ({
            let found = gate_violations(report, thresholds, scaled)->Ok_0;
            let index = selected_index(
                report.metrics@,
                match thresholds.selected_metric {
                    Some(text) => Some(text@),
                    None => None,
                },
            )->Ok_0;
            let metric = report.metrics@[index].output;
            let delta = match metric.details.spec_get("max_channel_delta_code"@) {
                Some(code) => code,
                None => scaled,
            };
            let low = thresholds.fail_under matches Some(bound) && metric.score.compared(
                bound,
            ) is Less;
            let wide = thresholds.max_selected_channel_delta matches Some(bound)
                && delta.compared(bound) is Greater;
            let far = thresholds.max_alpha_delta matches Some(bound)
                && report.alpha matches Some(alpha) && alpha.max_delta > bound;
            let many = thresholds.max_alpha_mismatches matches Some(bound)
                && report.alpha matches Some(alpha) && alpha.mismatch_count > bound;
            let beyond = thresholds.max_alpha_mismatches_beyond_one_lsb matches Some(bound)
                && report.alpha matches Some(alpha) && alpha.mismatches_beyond_one_lsb > bound;
            let second: int = if low {
                1
            } else {
                0
            };
            let third: int = if wide {
                second + 1
            } else {
                second
            };
            let fourth: int = if far {
                third + 1
            } else {
                third
            };
            let fifth: int = if many {
                fourth + 1
            } else {
                fourth
            };
            &&& found.len() == if beyond {
                fifth + 1
            } else {
                fifth
            }
            &&& low ==> found[0] == (GateViolation::Score {
                actual: metric.score,
                minimum: thresholds.fail_under->Some_0,
            })
            &&& wide ==> found[second] == (GateViolation::ChannelDelta {
                actual: delta,
                maximum: thresholds.max_selected_channel_delta->Some_0,
            })
            &&& far ==> found[third] == (GateViolation::AlphaDelta {
                actual: report.alpha->Some_0.max_delta,
                maximum: thresholds.max_alpha_delta->Some_0,
            })
            &&& many ==> found[fourth] == (GateViolation::AlphaMismatches {
                actual: report.alpha->Some_0.mismatch_count,
                maximum: thresholds.max_alpha_mismatches->Some_0,
            })
            &&& beyond ==> found[fifth] == (GateViolation::AlphaBeyondOneLsb {
                actual: report.alpha->Some_0.mismatches_beyond_one_lsb,
                maximum: thresholds.max_alpha_mismatches_beyond_one_lsb->Some_0,
            })
        }),
{
    let index = selected_index(
        report.metrics@,
        match thresholds.selected_metric {
            Some(text) => Some(text@),
            None => None,
        },
    )->Ok_0;
    let entry = report.metrics@[index];
    lemma_metric_violations(entry, scaled, thresholds);
    if let Some(alpha) = report.alpha {
        lemma_alpha_violations(alpha, thresholds);
    }
}

proof fn lemma_metric_violations(
    entry: MetricEntry,
    scaled: Score,
    thresholds: ComparisonThresholds,
)
    ensures
        ({
            let found = metric_violations(entry, scaled, thresholds);
            let delta = match entry.output.details.spec_get("max_channel_delta_code"@) {
                Some(code) => code,
                None => scaled,
            };
            let low = thresholds.fail_under matches Some(bound) && entry.output.score.compared(
                bound,
            ) is Less;
            let wide = thresholds.max_selected_channel_delta matches Some(bound)
                && delta.compared(bound) is Greater;
            let second: int = if low {
                1
            } else {
                0
            };
            &&& found.len() == if wide {
                second + 1
            } else {
                second
            }
            &&& low ==> found[0] == (GateViolation::Score {
                actual: entry.output.score,
                minimum: thresholds.fail_under->Some_0,
            })
            &&& wide ==> found[second] == (GateViolation::ChannelDelta {
                actual: delta,
                maximum: thresholds.max_selected_channel_delta->Some_0,
            })
        }),
{
}

proof fn lemma_alpha_violations(alpha: AlphaDiagnostics, thresholds: ComparisonThresholds)
    ensures
        ({
            let found = alpha_violations(alpha, thresholds);
            let far = thresholds.max_alpha_delta matches Some(bound) && alpha.max_delta > bound;
            let many = thresholds.max_alpha_mismatches matches Some(bound) && alpha.mismatch_count
                > bound;
            let beyond = thresholds.max_alpha_mismatches_beyond_one_lsb matches Some(bound)
                && alpha.mismatches_beyond_one_lsb > bound;
            let second: int = if far {
                1
            } else {
                0
            };
            let third: int = if many {
                second + 1
            } else {
                second
            };
            &&& found.len() == if beyond {
                third + 1
            } else {
                third
            }
            &&& far ==> found[0] == (GateViolation::AlphaDelta {
                actual: alpha.max_delta,
                maximum: thresholds.max_alpha_delta->Some_0,
            })
            &&& many ==> found[second] == (GateViolation::AlphaMismatches {
                actual: alpha.mismatch_count,
                maximum: thresholds.max_alpha_mismatches->Some_0,
            })
            &&& beyond ==> found[third] == (GateViolation::AlphaBeyondOneLsb {
                actual: alpha.mismatches_beyond_one_lsb,
                maximum: thresholds.max_alpha_mismatches_beyond_one_lsb->Some_0,
            })
        }),
{
}

/// Bounds are compared with scores exactly when they are finite numbers and the metric to
/// compare is there.
pub proof fn law_bounds_must_be_finite(
    report: ComparisonReport,
    thresholds: ComparisonThresholds,
    scaled: Score,
)
    ensures
        ({
            let infinite = |bound: Option<Score>|
                bound matches Some(value) && value.bits % 0x8000_0000_0000_0000
                    >= 0x7ff0_0000_0000_0000;
            gate_violations(report, thresholds, scaled) is Err <==> infinite(thresholds.fail_under)
                || infinite(thresholds.max_selected_channel_delta) || selected_index(
                report.metrics@,
                match thresholds.selected_metric {
                    Some(text) => Some(text@),
                    None => None,
                },
            ) is Err
        }),
{
    if let Some(value) = thresholds.fail_under {
        law_scores_follow_their_bits(value, value);
    }
    if let Some(value) = thresholds.max_selected_channel_delta {
        law_scores_follow_their_bits(value, value);
    }
}

/// A violation is told with the numbers it is about: the printed score and minimum for the
/// score, the printed delta and maximum for a channel, and its own counts for alpha.
pub proof fn law_violations_are_told_with_their_numbers(
    metric: Seq<char>,
    numbers: GateTexts,
    score: Score,
    bound: Score,
    actual: u64,
    maximum: u64,
)
    ensures
        failure_text(GateViolation::Score { actual: score, minimum: bound }, metric, numbers)
            == metric + " score "@ + numbers.score@ + " is below --fail-under "@
            + numbers.minimum@,
        failure_text(
            GateViolation::ChannelDelta { actual: score, maximum: bound },
            metric,
            numbers,
        ) == metric + " max channel delta "@ + numbers.delta@
            + " exceeds --max-selected-channel-delta "@ + numbers.maximum@,
        failure_text(GateViolation::AlphaMismatches { actual, maximum }, metric, numbers)
            == "alpha mismatches "@ + decimal_text(actual as nat)
            + " exceeds --max-alpha-mismatches "@ + decimal_text(maximum as nat),
        failure_text(GateViolation::AlphaBeyondOneLsb { actual, maximum }, metric, numbers)
            == "alpha mismatches beyond one LSB "@ + decimal_text(actual as nat)
            + " exceeds --max-alpha-mismatches-beyond-one-lsb "@ + decimal_text(maximum as nat),
{
}

} // verus!
