//! Sorting of threshold rules and parsing of metric weights.

use crate::error::{ErrorView, Result};
use crate::gate::{
    baseline_form, expression_form, law_baseline_forms_are_told_apart, law_operators_are_written,
    law_parsing_undoes_writing, lemma_operator_is_found, parsed_baseline, parsed_rule, rule_parts,
    split_rule, BaselineForm, BaselineModel, BaselineThresholdRule, GateOperator,
    MetricThresholdRule, RuleModel,
};
use crate::metrics::Score;
use crate::strings::{
    has_prefix, is_blank, split_first, split_once, strip_prefix, trim,
    trimmed,
};

use vstd::prelude::*;

verus! {

/// What the number of a rule reads as.
#[derive(Debug, Clone, Copy, PartialEq, Eq, Structural)]
pub struct RuleNumber {
    /// The number, if the text is one.
    pub value: Option<Score>,
    /// One divided by the number.
    pub reciprocal: Score,
}

/// The right-hand side of the first operator that a rule contains, in the order
/// `>=`, `<=`, `>`, `<`.
pub open spec fn rhs_of(rule: Seq<char>) -> Option<Seq<char>> {
    if let Some(sides) = split_first(rule, ">="@) {
        Some(sides.1)
    } else if let Some(sides) = split_first(rule, "<="@) {
        Some(sides.1)
    } else if let Some(sides) = split_first(rule, ">"@) {
        Some(sides.1)
    } else if let Some(sides) = split_first(rule, "<"@) {
        Some(sides.1)
    } else {
        None
    }
}

/// The same with the operators in the order `<=`, `>=`, `<`, `>`.
pub open spec fn suite_rhs_of(rule: Seq<char>) -> Option<Seq<char>> {
    if let Some(sides) = split_first(rule, "<="@) {
        Some(sides.1)
    } else if let Some(sides) = split_first(rule, ">="@) {
        Some(sides.1)
    } else if let Some(sides) = split_first(rule, "<"@) {
        Some(sides.1)
    } else if let Some(sides) = split_first(rule, ">"@) {
        Some(sides.1)
    } else {
        None
    }
}

/// Whether a right-hand side is an expression over the baseline.
pub open spec fn names_baseline(rhs: Option<Seq<char>>) -> bool {
    rhs matches Some(text) && has_prefix(trimmed(text), "baseline"@)
}

/// Right-hand side of a rule.
pub fn rule_rhs(rule: &str) -> (rhs: Option<&str>)
    ensures
        match rhs {
            Some(text) => rhs_of(rule@) == Some(text@),
            None => rhs_of(rule@) is None,
        },
{
    if let Some((_, rhs)) = split_once(rule, ">=") {
        return Some(rhs);
    }
    if let Some((_, rhs)) = split_once(rule, "<=") {
        return Some(rhs);
    }
    if let Some((_, rhs)) = split_once(rule, ">") {
        return Some(rhs);
    }
    if let Some((_, rhs)) = split_once(rule, "<") {
        return Some(rhs);
    }
    None
}

fn starts_with_baseline(rhs: &str) -> (yes: bool)
    ensures
        yes == names_baseline(Some(rhs@)),
{
    strip_prefix(trim(rhs), "baseline").is_some()
}

/// Tells whether a suite rule is relative to the baseline.
///
/// Only the right-hand side of the operator decides, so a metric name that
/// contains `baseline`, such as in `baseline_ssim>=0.9`, makes an absolute rule.
pub fn rule_threshold_uses_baseline(rule: &str) -> (yes: bool)
    ensures
        yes == names_baseline(suite_rhs_of(rule@)),
{
    if let Some((_, rhs)) = split_once(rule, "<=") {
        return starts_with_baseline(rhs);
    }
    if let Some((_, rhs)) = split_once(rule, ">=") {
        return starts_with_baseline(rhs);
    }
    if let Some((_, rhs)) = split_once(rule, "<") {
        return starts_with_baseline(rhs);
    }
    if let Some((_, rhs)) = split_once(rule, ">") {
        return starts_with_baseline(rhs);
    }
    false
}

/// Tells whether a gate rule is relative to the baseline. Only the right-hand side of the
/// operator decides.
pub fn gate_rule_uses_baseline(rule: &str) -> (yes: bool)
    ensures
        yes == names_baseline(rhs_of(rule@)),
{
    match rule_rhs(rule) {
        Some(rhs) => starts_with_baseline(rhs),
        None => false,
    }
}

/// The text that stands for the number of a rule, if the rule has one.
pub open spec fn number_text(rule: Seq<char>, baseline: bool) -> Option<Seq<char>> {
    match rule_parts(rule) {
        Err(_) => None,
        Ok(parts) => if !baseline {
            Some(parts.value)
        } else {
            match expression_form(parts.value, rule) {
                Err(_) => None,
                Ok((form, number)) => if form is Plain {
                    None
                } else {
                    Some(number)
                },
            }
        },
    }
}

/// Finds the text that has to be read as the number of a rule.
pub fn rule_number<'a>(rule: &'a str, baseline: bool) -> (number: Option<&'a str>)
    ensures
        match number {
            Some(text) => number_text(rule@, baseline) == Some(text@),
            None => number_text(rule@, baseline) is None,
        },
{
    match split_rule(rule) {
        Err(_) => None,
        Ok((_, _, value)) => if !baseline {
            Some(value)
        } else {
            match baseline_form(value, rule) {
                Err(_) => None,
                Ok((form, number)) => if form == BaselineForm::Plain {
                    None
                } else {
                    Some(number)
                },
            }
        },
    }
}

/// Absolute and baseline-relative rules, each in the order given.
pub struct SortedRules {
    pub absolute: Seq<RuleModel>,
    pub baseline: Seq<BaselineModel>,
}

/// One more rule sorted in.
pub open spec fn with_rule(
    sorted: SortedRules,
    rule: Seq<char>,
    number: RuleNumber,
    relative: bool,
) -> core::result::Result<SortedRules, ErrorView> {
    if relative {
        match parsed_baseline(rule, number.value, number.reciprocal) {
            Ok(parsed) => Ok(
                SortedRules { absolute: sorted.absolute, baseline: sorted.baseline.push(parsed) },
            ),
            Err(error) => Err(error),
        }
    } else {
        match parsed_rule(rule, number.value) {
            Ok(parsed) => Ok(
                SortedRules { absolute: sorted.absolute.push(parsed), baseline: sorted.baseline },
            ),
            Err(error) => Err(error),
        }
    }
}

/// The first `count` rules, parsed and sorted; the first rule that is none gives
/// the error.
pub open spec fn sorted_rules(
    rules: Seq<String>,
    numbers: Seq<RuleNumber>,
    suite: bool,
    count: int,
) -> core::result::Result<SortedRules, ErrorView>
    decreases count,
{
    if count <= 0 {
        Ok(SortedRules { absolute: Seq::empty(), baseline: Seq::empty() })
    } else {
        match sorted_rules(rules, numbers, suite, count - 1) {
            Err(error) => Err(error),
            Ok(sorted) => {
                let rule = rules[count - 1]@;
                let rhs = if suite {
                    suite_rhs_of(rule)
                } else {
                    rhs_of(rule)
                };
                with_rule(sorted, rule, numbers[count - 1], names_baseline(rhs))
            },
        }
    }
}

/// Once a rule is none, the longer lists fail alike.
proof fn lemma_failed_rules(
    rules: Seq<String>,
    numbers: Seq<RuleNumber>,
    suite: bool,
    count: int,
    more: int,
)
    requires
        0 <= count <= more,
        sorted_rules(rules, numbers, suite, count) is Err,
    ensures
        sorted_rules(rules, numbers, suite, more) == sorted_rules(rules, numbers, suite, count),
    decreases more - count,
{
    if count < more {
        lemma_failed_rules(rules, numbers, suite, count, more - 1);
    }
}

/// Models of absolute rules.
pub open spec fn rule_models(rules: Seq<MetricThresholdRule>) -> Seq<RuleModel> {
    rules.map_values(|rule: MetricThresholdRule| rule@)
}

/// Models of baseline rules.
pub open spec fn baseline_models(rules: Seq<BaselineThresholdRule>) -> Seq<BaselineModel> {
    rules.map_values(|rule: BaselineThresholdRule| rule@)
}

fn sort_rules(rules: &Vec<String>, numbers: &Vec<RuleNumber>, suite: bool) -> (result: Result<
    (Vec<MetricThresholdRule>, Vec<BaselineThresholdRule>),
>)
    requires
        rules@.len() == numbers@.len(),
    ensures
        match result {
            Ok((absolute, baseline)) => sorted_rules(
                rules@,
                numbers@,
                suite,
                rules@.len() as int,
            ) == Ok::<SortedRules, ErrorView>(
                SortedRules {
                    absolute: rule_models(absolute@),
                    baseline: baseline_models(baseline@),
                },
            ),
            Err(error) => sorted_rules(rules@, numbers@, suite, rules@.len() as int) == Err::<
                SortedRules,
                ErrorView,
            >(error@),
        },
{
    let mut absolute: Vec<MetricThresholdRule> = Vec::new();
    let mut baseline: Vec<BaselineThresholdRule> = Vec::new();
    let mut i: usize = 0;
    assert(rule_models(absolute@) =~= Seq::<RuleModel>::empty());
    assert(baseline_models(baseline@) =~= Seq::<BaselineModel>::empty());
    while i < rules.len()
        invariant
            i <= rules.len(),
            rules@.len() == numbers@.len(),
            sorted_rules(rules@, numbers@, suite, i as int) == Ok::<SortedRules, ErrorView>(
                SortedRules {
                    absolute: rule_models(absolute@),
                    baseline: baseline_models(baseline@),
                },
            ),
        decreases rules.len() - i,
    {
        let rule = rules[i].as_str();
        let number = numbers[i];
        let relative = if suite {
            rule_threshold_uses_baseline(rule)
        } else {
            gate_rule_uses_baseline(rule)
        };
        if relative {
            match BaselineThresholdRule::parse(rule, number.value, number.reciprocal) {
                Ok(parsed) => {
                    let ghost before = baseline@;
                    baseline.push(parsed);
                    assert(baseline_models(baseline@) =~= baseline_models(before).push(parsed@));
                },
                Err(error) => {
                    proof {
                        lemma_failed_rules(
                            rules@,
                            numbers@,
                            suite,
                            i + 1,
                            rules@.len() as int,
                        );
                    }
                    return Err(error);
                },
            }
        } else {
            match MetricThresholdRule::parse(rule, number.value) {
                Ok(parsed) => {
                    let ghost before = absolute@;
                    absolute.push(parsed);
                    assert(rule_models(absolute@) =~= rule_models(before).push(parsed@));
                },
                Err(error) => {
                    proof {
                        lemma_failed_rules(
                            rules@,
                            numbers@,
                            suite,
                            i + 1,
                            rules@.len() as int,
                        );
                    }
                    return Err(error);
                },
            }
        }
        i += 1;
    }
    Ok((absolute, baseline))
}

/// Splits suite rules into absolute and baseline-relative rules. `numbers` holds
/// what the texts found by [`rule_number`] read as.
pub fn parse_suite_rules(rules: &Vec<String>, numbers: &Vec<RuleNumber>) -> (result: Result<
    (Vec<MetricThresholdRule>, Vec<BaselineThresholdRule>),
>)
    requires
        rules@.len() == numbers@.len(),
    ensures
        match result {
            Ok((absolute, baseline)) => sorted_rules(rules@, numbers@, true, rules@.len() as int)
                == Ok::<SortedRules, ErrorView>(
                SortedRules {
                    absolute: rule_models(absolute@),
                    baseline: baseline_models(baseline@),
                },
            ),
            Err(error) => sorted_rules(rules@, numbers@, true, rules@.len() as int) == Err::<
                SortedRules,
                ErrorView,
            >(error@),
        },
{
    sort_rules(rules, numbers, true)
}

/// Splits gate rules into absolute and baseline-relative rules. `numbers` holds
/// what the texts found by [`rule_number`] read as.
pub fn parse_gate_rules(rules: &Vec<String>, numbers: &Vec<RuleNumber>) -> (result: Result<
    (Vec<MetricThresholdRule>, Vec<BaselineThresholdRule>),
>)
    requires
        rules@.len() == numbers@.len(),
    ensures
        match result {
            Ok((absolute, baseline)) => sorted_rules(rules@, numbers@, false, rules@.len() as int)
                == Ok::<SortedRules, ErrorView>(
                SortedRules {
                    absolute: rule_models(absolute@),
                    baseline: baseline_models(baseline@),
                },
            ),
            Err(error) => sorted_rules(rules@, numbers@, false, rules@.len() as int) == Err::<
                SortedRules,
                ErrorView,
            >(error@),
        },
{
    sort_rules(rules, numbers, false)
}

/// Sorting loses no rule and invents none.
pub proof fn law_sorting_keeps_every_rule(
    rules: Seq<String>,
    numbers: Seq<RuleNumber>,
    suite: bool,
    count: int,
)
    requires
        count >= 0,
    ensures
        sorted_rules(rules, numbers, suite, count) matches Ok(sorted) ==> sorted.absolute.len()
            + sorted.baseline.len() == count,
    decreases count,
{
    if count > 0 {
        law_sorting_keeps_every_rule(rules, numbers, suite, count - 1);
    }
}

/// The right-hand side of a rule is what stands behind its operator, in a gate and in a
/// suite alike.
pub proof fn law_right_hand_sides(metric: Seq<char>, operator: GateOperator, value: Seq<char>)
    requires
        !metric.contains('<') && !metric.contains('>'),
        !value.contains('<') && !value.contains('>'),
        value.len() > 0 ==> value[0] != '=',
    ensures
        ({
            let rule = metric + match operator {
                GateOperator::GreaterOrEqual => seq!['>', '='],
                GateOperator::GreaterThan => seq!['>'],
                GateOperator::LessOrEqual => seq!['<', '='],
                GateOperator::LessThan => seq!['<'],
            } + value;
            rhs_of(rule) == Some(value) && suite_rhs_of(rule) == Some(value)
        }),
{
    law_operators_are_written(operator);
    lemma_operator_is_found(metric, operator, value);
}

/// A rule is relative to the baseline exactly when its trimmed right-hand side begins
/// with the word `baseline`.
pub proof fn law_relative_rules_name_the_baseline(text: Seq<char>)
    ensures
        names_baseline(Some(text)) <==> trimmed(text).len() >= 8 && trimmed(text).take(8) == seq![
            'b',
            'a',
            's',
            'e',
            'l',
            'i',
            'n',
            'e',
        ],
        !names_baseline(None),
{
    reveal_strlit("baseline");
    assert("baseline"@ =~= seq!['b', 'a', 's', 'e', 'l', 'i', 'n', 'e']);
    if trimmed(text).len() >= 8 {
        assert(trimmed(text).take(8) =~= trimmed(text).subrange(0, 8));
    }
}

/// The number of a rule is its trimmed right-hand side; of a rule relative to the baseline
/// it is what stands behind the baseline and its sign, and the baseline alone has none.
pub proof fn law_rule_numbers(
    metric: Seq<char>,
    operator: GateOperator,
    sign: char,
    number: Seq<char>,
)
    requires
        metric.len() > 0,
        !is_blank(metric[0]) && !is_blank(metric.last()),
        !metric.contains('<') && !metric.contains('>'),
        number.len() > 0,
        !is_blank(number[0]) && !is_blank(number.last()),
        !number.contains('<') && !number.contains('>'),
        number[0] != '=',
        sign == '*' || sign == '/' || sign == '+' || sign == '-',
    ensures
        ({
            let head = metric + match operator {
                GateOperator::GreaterOrEqual => seq!['>', '='],
                GateOperator::GreaterThan => seq!['>'],
                GateOperator::LessOrEqual => seq!['<', '='],
                GateOperator::LessThan => seq!['<'],
            };
            let word = seq!['b', 'a', 's', 'e', 'l', 'i', 'n', 'e'];
            &&& number_text(head + number, false) == Some(number)
            &&& number_text(head + word, true) is None
            &&& number_text(head + (word.push(sign) + number), true) == Some(
                if sign == '*' || sign == '/' {
                    number
                } else {
                    seq![sign] + number
                },
            )
        }),
{
    let word = seq!['b', 'a', 's', 'e', 'l', 'i', 'n', 'e'];
    let shifted = word.push(sign) + number;
    law_parsing_undoes_writing(metric, operator, number);
    assert forall|i: int| 0 <= i < word.len() implies #[trigger] word[i] != '<' && word[i] != '>' by {}
    law_parsing_undoes_writing(metric, operator, word);
    assert forall|i: int| 0 <= i < shifted.len() implies #[trigger] shifted[i] != '<' && shifted[i]
        != '>' by {
        if i > 8 {
            assert(number.contains(number[i - 9]));
        }
    }
    assert(shifted.last() == number.last());
    law_parsing_undoes_writing(metric, operator, shifted);
    law_operators_are_written(operator);
    let head = metric + operator.symbol();
    law_baseline_forms_are_told_apart(sign, number, head + shifted);
    law_baseline_forms_are_told_apart(sign, number, head + word);
}

/// Rules are sorted one after the other: each goes behind those of its kind, relative to
/// the baseline or not, and leaves the other kind as it was. One that cannot be read
/// stops the sorting.
pub proof fn law_rules_are_sorted_in_order(
    rules: Seq<String>,
    numbers: Seq<RuleNumber>,
    suite: bool,
    count: int,
)
    requires
        0 <= count < rules.len(),
        rules.len() == numbers.len(),
    ensures
        sorted_rules(rules, numbers, suite, 0) matches Ok(none) && none.absolute.len() == 0
            && none.baseline.len() == 0,
        ({
            let rule = rules[count]@;
            let number = numbers[count];
            let relative = if suite {
                names_baseline(suite_rhs_of(rule))
            } else {
                names_baseline(rhs_of(rule))
            };
            match (
                sorted_rules(rules, numbers, suite, count),
                sorted_rules(rules, numbers, suite, count + 1),
            ) {
                (Ok(before), Ok(after)) => if relative {
                    &&& after.absolute == before.absolute
                    &&& after.baseline.drop_last() == before.baseline
                    &&& after.baseline.len() == before.baseline.len() + 1
                    &&& parsed_baseline(rule, number.value, number.reciprocal) == Ok::<
                        BaselineModel,
                        ErrorView,
                    >(after.baseline.last())
                } else {
                    &&& after.baseline == before.baseline
                    &&& after.absolute.drop_last() == before.absolute
                    &&& after.absolute.len() == before.absolute.len() + 1
                    &&& parsed_rule(rule, number.value) == Ok::<RuleModel, ErrorView>(
                        after.absolute.last(),
                    )
                },
                (Ok(_), Err(_)) => if relative {
                    parsed_baseline(rule, number.value, number.reciprocal) is Err
                } else {
                    parsed_rule(rule, number.value) is Err
                },
                (Err(first), Err(error)) => error == first,
                (Err(_), Ok(_)) => false,
            }
        }),
{
    if let Ok(before) = sorted_rules(rules, numbers, suite, count) {
        if let Ok(after) = sorted_rules(rules, numbers, suite, count + 1) {
            let rule = rules[count]@;
            let number = numbers[count];
            if let Ok(parsed) = parsed_baseline(rule, number.value, number.reciprocal) {
                assert(before.baseline.push(parsed).drop_last() =~= before.baseline);
            }
            if let Ok(parsed) = parsed_rule(rule, number.value) {
                assert(before.absolute.push(parsed).drop_last() =~= before.absolute);
            }
        }
    }
}

/// Lists of rules are read rule by rule.
pub proof fn law_rules_are_read_one_by_one(
    rules: Seq<MetricThresholdRule>,
    baseline: Seq<BaselineThresholdRule>,
    i: int,
    j: int,
)
    requires
        0 <= i < rules.len(),
        0 <= j < baseline.len(),
    ensures
        rule_models(rules).len() == rules.len(),
        rule_models(rules)[i].metric == rules[i].metric@,
        rule_models(rules)[i].operator == rules[i].operator,
        rule_models(rules)[i].threshold == rules[i].threshold,
        baseline_models(baseline).len() == baseline.len(),
        baseline_models(baseline)[j].metric == baseline[j].metric@,
        baseline_models(baseline)[j].operator == baseline[j].operator,
        baseline_models(baseline)[j].baseline_scale == baseline[j].baseline_scale,
        baseline_models(baseline)[j].offset == baseline[j].offset,
{
}

} // verus!
