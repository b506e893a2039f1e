//! Decisions of the quality gate command.

use crate::cli::CliResult;
use crate::gate::{
    decides, decides_baseline, evaluate_baseline_thresholds, evaluate_thresholds,
    BaselineGateEvaluation, BaselineThresholdRule, GateEvaluation, MetricThresholdRule,
};
use crate::metrics::{MetricOutput, Score};
use vstd::prelude::*;

verus! {

/// Decides whether a baseline is compared: only if a rule needs it, and then it
/// must be given.
pub fn needs_baseline(baseline_rules: usize, has_baseline: bool) -> (result: CliResult<bool>)
    ensures
        match result {
            Ok(used) => used == (baseline_rules > 0) && (used ==> has_baseline),
            Err(message) => baseline_rules > 0 && !has_baseline && message@
                == "baseline-relative rules require --baseline PATH"@,
        },
{
    if baseline_rules > 0 && !has_baseline {
        return Err(String::from_str("baseline-relative rules require --baseline PATH"));
    }
    Ok(baseline_rules > 0)
}

/// Metrics of the baseline and the thresholds derived from them.
#[derive(Debug)]
pub struct BaselineResults {
    /// Metric results of the baseline.
    pub metrics: Vec<MetricOutput>,
    /// Threshold of each baseline rule.
    pub thresholds: Vec<Score>,
}

/// Outcome of the quality gate.
#[derive(Debug)]
pub struct QualityGateReport {
    /// Decisions on absolute rules.
    pub thresholds: GateEvaluation,
    /// Decisions on baseline rules, if a baseline was compared.
    pub baseline_thresholds: Option<BaselineGateEvaluation>,
    /// Whether every rule holds.
    pub passed: bool,
}

/// Evaluates absolute rules and, with a baseline, baseline rules.
pub fn evaluate_quality(
    outputs: &Vec<MetricOutput>,
    rules: &Vec<MetricThresholdRule>,
    baseline_rules: &Vec<BaselineThresholdRule>,
    baseline: &Option<BaselineResults>,
) -> (report: QualityGateReport)
    requires
        baseline matches Some(results) ==> results.thresholds@.len() == baseline_rules@.len(),
    ensures
        report.thresholds.checks@.len() == rules@.len(),
        forall|i: int|
            0 <= i < rules@.len() ==> decides(
                #[trigger] report.thresholds.checks@[i],
                outputs@,
                rules@[i]@,
            ),
        report.baseline_thresholds is Some <==> baseline is Some,
        baseline matches Some(results) ==> report.baseline_thresholds->0.checks@.len()
            == baseline_rules@.len() && forall|i: int|
            0 <= i < baseline_rules@.len() ==> decides_baseline(
                #[trigger] report.baseline_thresholds->0.checks@[i],
                outputs@,
                results.metrics@,
                baseline_rules@[i]@,
                results.thresholds@[i],
            ),
        report.passed == ((forall|i: int|
            0 <= i < rules@.len() ==> (#[trigger] report.thresholds.checks@[i]).passed) && (
        report.baseline_thresholds matches Some(evaluation) ==> forall|i: int|
            0 <= i < evaluation.checks@.len() ==> (#[trigger] evaluation.checks@[i]).passed)),
{
    let thresholds = evaluate_thresholds(outputs, rules);
    match baseline {
        None => {
            let passed = thresholds.passed;
            QualityGateReport { thresholds, baseline_thresholds: None, passed }
        },
        Some(results) => {
            let evaluation = evaluate_baseline_thresholds(
                outputs,
                &results.metrics,
                baseline_rules,
                &results.thresholds,
            );
            let passed = thresholds.passed && evaluation.passed;
            QualityGateReport { thresholds, baseline_thresholds: Some(evaluation), passed }
        },
    }
}

/// Tells whether the full report is printed as JSON; without a baseline only the
/// decisions on absolute rules are.
pub fn prints_full_report(report: &QualityGateReport) -> (full: bool)
    ensures
        full == (report.baseline_thresholds is Some),
{
    report.baseline_thresholds.is_some()
}

/// Line of one decision.
pub fn decision_line(passed: bool, message: &str) -> (line: String)
    ensures
        line@ == if passed {
            "PASS: "@ + message@
        } else {
            "FAIL: "@ + message@
        },
{
    if passed {
        crate::text::concat2("PASS: ", message)
    } else {
        crate::text::concat2("FAIL: ", message)
    }
}

/// Result of the command.
pub fn gate_result(report: &QualityGateReport) -> (result: CliResult<()>)
    ensures
        match result {
            Ok(_) => report.passed,
            Err(message) => !report.passed && message@ == "quality gate failed"@,
        },
{
    if report.passed {
        Ok(())
    } else {
        Err(String::from_str("quality gate failed"))
    }
}

} // verus!
