use imq::gate::{
    baseline_form, baseline_scores, evaluate_baseline_thresholds, evaluate_thresholds, metric_value,
    split_rule, BaselineForm, BaselineGateEvaluation, BaselineThresholdRule, GateOperator,
    MetricThresholdRule, MetricValueLookup,
};
use imq::metrics::{Comparison, Direction, MetricDetails, MetricOutput, Score};
use imq::cli::rules::{
    gate_rule_uses_baseline, parse_gate_rules, parse_suite_rules, rule_number, rule_rhs,
};
use imq::cli::rules::{rule_threshold_uses_baseline, RuleNumber};
use imq::{Error, Result};

fn score(value: f64) -> Score {
    Score::from_bits(value.to_bits())
}

fn float(value: Score) -> f64 {
    f64::from_bits(value.bits)
}

fn number_of(rule: &str, baseline: bool) -> RuleNumber {
    let value = rule_number(rule, baseline).and_then(|text| text.parse::<f64>().ok());
    RuleNumber {
        value: value.map(score),
        reciprocal: score(1.0 / value.unwrap_or(1.0)),
    }
}

fn numbers_of(rules: &[String], suite: bool) -> Vec<RuleNumber> {
    rules
        .iter()
        .map(|rule| {
            let baseline = if suite {
                rule_threshold_uses_baseline(rule)
            } else {
                gate_rule_uses_baseline(rule)
            };
            number_of(rule, baseline)
        })
        .collect()
}

fn absolute(rule: &str) -> Result<MetricThresholdRule> {
    MetricThresholdRule::parse(rule, number_of(rule, false).value)
}

fn relative(rule: &str) -> Result<BaselineThresholdRule> {
    let number = number_of(rule, true);
    BaselineThresholdRule::parse(rule, number.value, number.reciprocal)
}

fn metric(name: &str, value: f64, unit: &str, direction: Direction) -> MetricOutput {
    MetricOutput::new(name.to_string(), score(value), unit.to_string(), direction)
}

fn evaluate_relative(
    candidate: &Vec<MetricOutput>,
    baseline: &Vec<MetricOutput>,
    rules: &Vec<BaselineThresholdRule>,
) -> BaselineGateEvaluation {
    let scores = baseline_scores(baseline, rules);
    let thresholds = rules
        .iter()
        .zip(&scores)
        .map(|(rule, value)| {
            let value = value.map_or(f64::NAN, float);
            score(value * float(rule.baseline_scale) + float(rule.offset))
        })
        .collect();
    evaluate_baseline_thresholds(candidate, baseline, rules, &thresholds)
}

#[test]
fn parses_and_evaluates_rules() {
    let rule = absolute("psnr>=40").unwrap();
    let metrics = vec![metric("psnr", 41.0, "dB", Direction::HigherIsBetter)];
    let evaluation = evaluate_thresholds(&metrics, &vec![rule]);
    assert!(evaluation.passed);
    assert_eq!(
        evaluation.checks[0].message("41", "40"),
        "psnr=41 satisfies >=40"
    );
}

#[test]
fn missing_metric_fails() {
    let rule = absolute("ssim>=0.99").unwrap();
    let evaluation = evaluate_thresholds(&vec![], &vec![rule]);
    assert!(!evaluation.passed);
    assert_eq!(evaluation.failures().len(), 1);
    assert_eq!(
        evaluation.failures()[0].message("", "0.99"),
        "metric `ssim` was not produced"
    );
}

#[test]
fn evaluates_metric_detail_selectors() {
    let output = metric("mae:color", 0.1, "normalized", Direction::LowerIsBetter)
        .with_detail("red_mae".to_string(), score(0.02));
    let rule = absolute("mae:color.red_mae<=0.03").unwrap();
    let evaluation = evaluate_thresholds(&vec![output], &vec![rule]);
    assert!(evaluation.passed);
    assert_eq!(evaluation.checks[0].score, Some(score(0.02)));
}

#[test]
fn baseline_rules_support_offsets_and_scales() {
    let candidate = vec![
        metric("psnr", 39.6, "dB", Direction::HigherIsBetter),
        metric("mae", 0.011, "normalized", Direction::LowerIsBetter),
    ];
    let baseline = vec![
        metric("psnr", 40.0, "dB", Direction::HigherIsBetter),
        metric("mae", 0.01, "normalized", Direction::LowerIsBetter),
    ];
    let rules = vec![
        relative("psnr>=baseline-0.5").unwrap(),
        relative("mae<=baseline*1.1").unwrap(),
    ];
    let evaluation = evaluate_relative(&candidate, &baseline, &rules);
    assert!(evaluation.passed);
    assert_eq!(evaluation.checks[0].threshold, Some(score(39.5)));
    assert!((float(evaluation.checks[1].threshold.unwrap()) - 0.011).abs() < 1e-12);
}

#[test]
fn missing_baseline_detail_fails_structurally() {
    let candidate = metric("mae", 0.01, "normalized", Direction::LowerIsBetter)
        .with_detail("red_mae".to_string(), score(0.01));
    let baseline = metric("mae", 0.01, "normalized", Direction::LowerIsBetter);
    let rule = relative("mae.red_mae<=baseline").unwrap();
    let evaluation = evaluate_relative(&vec![candidate], &vec![baseline], &vec![rule]);
    assert!(!evaluation.passed);
    assert!(evaluation.checks[0]
        .message("0.01", "", "")
        .contains("baseline metric detail"));
    assert_eq!(evaluation.failures().len(), 1);
}

#[test]
fn equal_infinite_psnr_passes_baseline_floor() {
    let candidate = vec![metric("psnr", f64::INFINITY, "dB", Direction::HigherIsBetter)];
    let baseline = vec![metric("psnr", f64::INFINITY, "dB", Direction::HigherIsBetter)];
    let rule = relative("psnr>=baseline").unwrap();
    let evaluation = evaluate_relative(&candidate, &baseline, &vec![rule]);
    assert!(evaluation.passed);
}

#[test]
fn partitions_absolute_and_baseline_rules() {
    let rules = vec![
        "ssim>=0.99".to_string(),
        "mae:color.red_mae<=baseline*1.05".to_string(),
    ];
    let (absolute, baseline) = parse_gate_rules(&rules, &numbers_of(&rules, false)).unwrap();
    assert_eq!(absolute.len(), 1);
    assert_eq!(baseline.len(), 1);
    assert_eq!(baseline[0].metric, "mae:color.red_mae");
}

#[test]
fn gate_rules_have_their_own_operator_order() {
    assert!(gate_rule_uses_baseline("psnr>= baseline-0.5"));
    assert!(!gate_rule_uses_baseline("baseline_ssim>=0.9"));
    assert!(!gate_rule_uses_baseline("psnr"));
    assert!(!gate_rule_uses_baseline("a>=b<=baseline"));
    assert!(rule_threshold_uses_baseline("a>=b<=baseline"));
    assert!(gate_rule_uses_baseline("a<=b>=baseline"));
    assert!(!rule_threshold_uses_baseline("a<=b>=baseline"));
}

#[test]
fn suite_rules_route_by_threshold_side() {
    let rules = vec![
        "psnr>=35".to_string(),
        "psnr>=baseline-0.5".to_string(),
        "baseline_ssim>=0.9".to_string(),
        "mse<=baseline*1.1".to_string(),
    ];

    let (absolute, baseline) = parse_suite_rules(&rules, &numbers_of(&rules, true)).unwrap();

    assert_eq!(
        absolute
            .iter()
            .map(|rule| rule.metric.as_str())
            .collect::<Vec<_>>(),
        ["psnr", "baseline_ssim"]
    );
    assert_eq!(absolute[0].threshold, score(35.0));
    assert_eq!(absolute[1].threshold, score(0.9));
    assert_eq!(
        baseline
            .iter()
            .map(|rule| rule.metric.as_str())
            .collect::<Vec<_>>(),
        ["psnr", "mse"]
    );
    let scaled = BaselineThresholdRule::new(
        "mse".to_string(),
        GateOperator::LessOrEqual,
        score(1.1),
        score(0.0),
    );
    assert_eq!(baseline[1].metric, scaled.metric);
    assert_eq!(baseline[1].operator, scaled.operator);
    assert_eq!(baseline[1].baseline_scale, scaled.baseline_scale);
    assert_eq!(baseline[1].offset, scaled.offset);
}

#[test]
fn suite_rules_reject_invalid_thresholds() {
    for rule in ["psnr>=abc", "psnr>=baseline=oops"] {
        let rules = vec![rule.to_string()];
        assert!(parse_suite_rules(&rules, &numbers_of(&rules, true)).is_err());
    }
}

#[test]
fn baseline_forms_are_told_apart() {
    let rule = relative("psnr>=baseline/4").unwrap();
    assert_eq!(float(rule.baseline_scale), 0.25);
    assert_eq!(float(rule.offset), 0.0);
    let rule = relative("psnr>baseline+1.5").unwrap();
    assert_eq!(rule.operator, GateOperator::GreaterThan);
    assert_eq!(float(rule.baseline_scale), 1.0);
    assert_eq!(float(rule.offset), 1.5);
    assert!(relative("psnr>=baseline/0").is_err());
    assert!(relative("psnr>=other").is_err());
    assert!(matches!(
        baseline_form("baseline*2", "x>=baseline*2"),
        Ok((BaselineForm::Times, _))
    ));
}

#[test]
fn rules_without_an_operator_are_refused() {
    for rule in ["psnr", "psnr=40", ">=40", ""] {
        let error = split_rule(rule).unwrap_err();
        assert!(matches!(error, Error::UnsupportedInput(_)));
    }
    let (name, operator, value) = split_rule(" psnr <= 40 ").unwrap();
    assert_eq!((name, operator, value), ("psnr", GateOperator::LessOrEqual, "40"));
    assert!(absolute("psnr>=").is_err());
    assert!(absolute("psnr>=inf").is_err());
    assert!(absolute("psnr>=nan").is_err());
    assert_eq!(rule_rhs("a>=b"), Some("b"));
}

#[test]
fn operators_order_scores() {
    let (low, high) = (score(-1.0), score(2.0));
    assert!(GateOperator::GreaterOrEqual.evaluate(high, low));
    assert!(GateOperator::GreaterThan.evaluate(high, low));
    assert!(!GateOperator::LessOrEqual.evaluate(high, low));
    assert!(GateOperator::LessThan.evaluate(low, high));
    assert!(GateOperator::GreaterOrEqual.evaluate(low, low));
    assert!(!GateOperator::GreaterThan.evaluate(low, low));
    let nan = score(f64::NAN);
    for operator in [
        GateOperator::GreaterOrEqual,
        GateOperator::GreaterThan,
        GateOperator::LessOrEqual,
        GateOperator::LessThan,
    ] {
        assert!(!operator.evaluate(nan, low));
        assert!(!operator.evaluate(low, nan));
    }
    assert_eq!(GateOperator::LessThan.as_str(), "<");
}

#[test]
fn scores_compare_as_floats() {
    let values = [
        f64::NEG_INFINITY,
        -3.5,
        -0.0,
        0.0,
        f64::MIN_POSITIVE,
        1.0,
        7.25,
        f64::INFINITY,
        f64::NAN,
    ];
    for a in values {
        assert_eq!(score(a).is_nan(), a.is_nan());
        assert_eq!(score(a).is_finite(), a.is_finite());
        assert_eq!(score(a).is_zero(), a == 0.0);
        for b in values {
            let expected = if a < b {
                Comparison::Less
            } else if a > b {
                Comparison::Greater
            } else if a == b {
                Comparison::Equal
            } else {
                Comparison::Unordered
            };
            assert_eq!(score(a).compare(score(b)), expected);
        }
    }
    assert_eq!(float(Score::zero()), 0.0);
    assert_eq!(float(Score::one()), 1.0);
}

#[test]
fn details_stay_sorted_and_unique() {
    let details = MetricDetails::new()
        .with("b".to_string(), score(1.0))
        .with("a".to_string(), score(2.0))
        .with("b".to_string(), score(3.0));
    assert_eq!(details.len(), 2);
    assert_eq!(details.at(0), ("a", score(2.0)));
    assert_eq!(details.at(1), ("b", score(3.0)));
    assert_eq!(details.get("c"), None);
    let details = details.with("ab".to_string(), score(4.0));
    let names: Vec<&str> = (0..details.len()).map(|index| details.at(index).0).collect();
    assert_eq!(names, ["a", "ab", "b"]);
    let output = metric("m", 1.0, "", Direction::Neutral)
        .with_detail("y".to_string(), score(5.0))
        .with_detail("x".to_string(), score(6.0))
        .with_detail("y".to_string(), score(7.0));
    assert_eq!(output.details.len(), 2);
    assert_eq!(output.details.at(1), ("y", score(7.0)));
}

#[test]
fn lookups_prefer_exact_metric_names() {
    let metrics = vec![
        metric("a.b", 1.0, "", Direction::Neutral),
        metric("a", 2.0, "", Direction::Neutral).with_detail("c".to_string(), score(3.0)),
    ];
    assert_eq!(metric_value(&metrics, "a.b"), MetricValueLookup::Found(score(1.0)));
    assert_eq!(metric_value(&metrics, "a.c"), MetricValueLookup::Found(score(3.0)));
    assert_eq!(metric_value(&metrics, "a.d"), MetricValueLookup::MissingDetail);
    assert_eq!(metric_value(&metrics, "x"), MetricValueLookup::MissingMetric);
    assert_eq!(metric_value(&metrics, "x.y").found(), None);
}
