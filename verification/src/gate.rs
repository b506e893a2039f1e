//! Threshold gates for CI and regression tests.
//!
//! This module turns metric rows into pass/fail decisions, allowing callers or
//! small CLIs to fail a build when PSNR/SSIM drops below a floor or an error
//! metric rises above a ceiling. Reading a decimal number and multiplying scores
//! is left to the caller, who hands the numbers over as [`Score`] values.

use crate::error::{Error, ErrorView, Result};
use crate::metrics::{law_scores_follow_their_bits, Comparison, MetricOutput, Score};
use crate::strings::{
    has_prefix, is_blank, law_split_first_cuts_once, law_split_first_finds_the_token,
    law_split_last_cuts_once, law_trimmed_text_stays, law_trimming_forgets_blanks, rsplit_once, split_first, split_last, split_once, strip_prefix, trim,
    trimmed,
};
use crate::text::{concat3, concat4, concat5, concat6, concat7, same_text};
use vstd::prelude::*;

verus! {

/// Comparison operator used by a metric threshold rule.
#[derive(Debug, Clone, Copy, PartialEq, Eq, Structural)]
pub enum GateOperator {
    /// Pass when the metric score is greater than or equal to the threshold.
    GreaterOrEqual,
    /// Pass when the metric score is greater than the threshold.
    GreaterThan,
    /// Pass when the metric score is less than or equal to the threshold.
    LessOrEqual,
    /// Pass when the metric score is less than the threshold.
    LessThan,
}

impl GateOperator {
    /// Whether a score satisfies a threshold. Nothing holds of what is not a number.
    pub open spec fn holds(self, score: Score, threshold: Score) -> bool {
        let comparison = score.compared(threshold);
        match self {
            GateOperator::GreaterOrEqual => comparison is Greater || comparison is Equal,
            GateOperator::GreaterThan => comparison is Greater,
            GateOperator::LessOrEqual => comparison is Less || comparison is Equal,
            GateOperator::LessThan => comparison is Less,
        }
    }

    /// The operator's text.
    pub open spec fn symbol(self) -> Seq<char> {
        match self {
            GateOperator::GreaterOrEqual => ">="@,
            GateOperator::GreaterThan => ">"@,
            GateOperator::LessOrEqual => "<="@,
            GateOperator::LessThan => "<"@,
        }
    }

    /// Evaluates this operator against a metric score and threshold.
    pub fn evaluate(self, score: Score, threshold: Score) -> (passed: bool)
        ensures
            passed == self.holds(score, threshold),
    {
        let comparison = score.compare(threshold);
        match self {
            Self::GreaterOrEqual => comparison == Comparison::Greater || comparison
                == Comparison::Equal,
            Self::GreaterThan => comparison == Comparison::Greater,
            Self::LessOrEqual => comparison == Comparison::Less || comparison == Comparison::Equal,
            Self::LessThan => comparison == Comparison::Less,
        }
    }

    /// Returns the textual operator used by [`MetricThresholdRule::parse`].
    pub fn as_str(self) -> (text: &'static str)
        ensures
            text@ == self.symbol(),
    {
        match self {
            Self::GreaterOrEqual => ">=",
            Self::GreaterThan => ">",
            Self::LessOrEqual => "<=",
            Self::LessThan => "<",
        }
    }
}

/// A score that equals its threshold passes a floor and a ceiling but neither
/// strict rule, unless it is not a number: then it passes nothing.
pub proof fn law_equal_scores(score: Score, threshold: Score)
    requires
        score.rank() == threshold.rank(),
        score.nan() == threshold.nan(),
    ensures
        GateOperator::GreaterOrEqual.holds(score, threshold) <==> !score.nan(),
        GateOperator::LessOrEqual.holds(score, threshold) <==> !score.nan(),
        !GateOperator::GreaterThan.holds(score, threshold),
        !GateOperator::LessThan.holds(score, threshold),
{
}

/// A rule and its opposite are never both satisfied, and one of them is unless
/// something is not a number.
pub proof fn law_opposite_rules(score: Score, threshold: Score)
    ensures
        !(GateOperator::GreaterOrEqual.holds(score, threshold) && GateOperator::LessThan.holds(
            score,
            threshold,
        )),
        !(GateOperator::LessOrEqual.holds(score, threshold) && GateOperator::GreaterThan.holds(
            score,
            threshold,
        )),
        (GateOperator::GreaterOrEqual.holds(score, threshold) || GateOperator::LessThan.holds(
            score,
            threshold,
        )) <==> !score.nan() && !threshold.nan(),
        (GateOperator::LessOrEqual.holds(score, threshold) || GateOperator::GreaterThan.holds(
            score,
            threshold,
        )) <==> !score.nan() && !threshold.nan(),
{
}

/// Metric, operator, and right-hand side of a rule.
pub struct RuleParts {
    pub metric: Seq<char>,
    pub operator: GateOperator,
    pub value: Seq<char>,
}

/// Error for a rule without a metric name.
pub open spec fn empty_metric_error() -> ErrorView {
    ErrorView::UnsupportedInput("threshold rule metric name is empty"@)
}

/// Error for a text without an operator.
pub open spec fn rule_form_error(input: Seq<char>) -> ErrorView {
    ErrorView::UnsupportedInput(
        "invalid threshold rule `"@ + input
            + "`; expected metric>=value, metric>value, metric<=value, or metric<value"@,
    )
}

/// A rule text cut at its operator, with blanks removed around both sides.
pub open spec fn rule_at(
    sides: (Seq<char>, Seq<char>),
    operator: GateOperator,
) -> core::result::Result<RuleParts, ErrorView> {
    if trimmed(sides.0).len() == 0 {
        Err(empty_metric_error())
    } else {
        Ok(RuleParts { metric: trimmed(sides.0), operator, value: trimmed(sides.1) })
    }
}

/// A rule text cut at its operator; the two-character operators are looked for first.
pub open spec fn rule_parts(input: Seq<char>) -> core::result::Result<RuleParts, ErrorView> {
    if let Some(sides) = split_first(input, ">="@) {
        rule_at(sides, GateOperator::GreaterOrEqual)
    } else if let Some(sides) = split_first(input, "<="@) {
        rule_at(sides, GateOperator::LessOrEqual)
    } else if let Some(sides) = split_first(input, ">"@) {
        rule_at(sides, GateOperator::GreaterThan)
    } else if let Some(sides) = split_first(input, "<"@) {
        rule_at(sides, GateOperator::LessThan)
    } else {
        Err(rule_form_error(input))
    }
}

fn finish_rule<'a>(sides: (&'a str, &'a str), operator: GateOperator) -> (result: Result<
    (&'a str, GateOperator, &'a str),
>)
    ensures
        match result {
            Ok((metric, op, value)) => rule_at((sides.0@, sides.1@), operator) == Ok::<
                RuleParts,
                ErrorView,
            >(RuleParts { metric: metric@, operator: op, value: value@ }),
            Err(error) => rule_at((sides.0@, sides.1@), operator) == Err::<RuleParts, ErrorView>(
                error@,
            ),
        },
{
    let metric = trim(sides.0);
    if metric.is_empty() {
        return Err(Error::unsupported("threshold rule metric name is empty"));
    }
    Ok((metric, operator, trim(sides.1)))
}

/// Cuts a rule text into metric, operator, and right-hand side.
pub fn split_rule<'a>(input: &'a str) -> (result: Result<(&'a str, GateOperator, &'a str)>)
    ensures
        match result {
            Ok((metric, operator, value)) => rule_parts(input@) == Ok::<RuleParts, ErrorView>(
                RuleParts { metric: metric@, operator, value: value@ },
            ),
            Err(error) => rule_parts(input@) == Err::<RuleParts, ErrorView>(error@),
        },
{
    if let Some(sides) = split_once(input, ">=") {
        return finish_rule(sides, GateOperator::GreaterOrEqual);
    }
    if let Some(sides) = split_once(input, "<=") {
        return finish_rule(sides, GateOperator::LessOrEqual);
    }
    if let Some(sides) = split_once(input, ">") {
        return finish_rule(sides, GateOperator::GreaterThan);
    }
    if let Some(sides) = split_once(input, "<") {
        return finish_rule(sides, GateOperator::LessThan);
    }
    Err(
        Error::unsupported(
            concat3(
                "invalid threshold rule `",
                input,
                "`; expected metric>=value, metric>value, metric<=value, or metric<value",
            ).as_str(),
        ),
    )
}

/// Operators mean what they say: of two numbers from zero up, the larger bit pattern is
/// the larger number, and an operator holds as it does of these patterns. Of anything
/// that is not a number no operator holds.
pub proof fn law_operators_compare_numbers(score: Score, threshold: Score)
    ensures
        score.bits <= 0x7ff0_0000_0000_0000 && threshold.bits <= 0x7ff0_0000_0000_0000 ==> {
            &&& GateOperator::GreaterOrEqual.holds(score, threshold) <==> score.bits
                >= threshold.bits
            &&& GateOperator::GreaterThan.holds(score, threshold) <==> score.bits > threshold.bits
            &&& GateOperator::LessOrEqual.holds(score, threshold) <==> score.bits
                <= threshold.bits
            &&& GateOperator::LessThan.holds(score, threshold) <==> score.bits < threshold.bits
        },
        0x8000_0000_0000_0000 < score.bits <= 0xfff0_0000_0000_0000 && threshold.bits
            <= 0x7ff0_0000_0000_0000 ==> {
            &&& GateOperator::LessThan.holds(score, threshold) && GateOperator::LessOrEqual.holds(
                score,
                threshold,
            )
            &&& GateOperator::GreaterThan.holds(threshold, score)
                && GateOperator::GreaterOrEqual.holds(threshold, score)
        },
        forall|operator: GateOperator|
            score.bits % 0x8000_0000_0000_0000 > 0x7ff0_0000_0000_0000
                ==> !#[trigger] operator.holds(score, threshold) && !operator.holds(
                threshold,
                score,
            ),
{
    law_scores_follow_their_bits(score, threshold);
    law_scores_follow_their_bits(threshold, score);
}

/// How each operator is written.
pub proof fn law_operators_are_written(operator: GateOperator)
    ensures
        operator.symbol() == match operator {
            GateOperator::GreaterOrEqual => seq!['>', '='],
            GateOperator::GreaterThan => seq!['>'],
            GateOperator::LessOrEqual => seq!['<', '='],
            GateOperator::LessThan => seq!['<'],
        },
{
    reveal_strlit(">=");
    reveal_strlit("<=");
    reveal_strlit(">");
    reveal_strlit("<");
    assert(">="@ =~= seq!['>', '=']);
    assert("<="@ =~= seq!['<', '=']);
    assert(">"@ =~= seq!['>']);
    assert("<"@ =~= seq!['<']);
}

/// A token that starts with a character is found behind a text without that character.
proof fn lemma_sign_found(before: Seq<char>, token: Seq<char>, behind: Seq<char>)
    requires
        token.len() > 0,
        !before.contains(token[0]),
    ensures
        split_first(before + token + behind, token) == Some((before, behind)),
{
    let text = before + token + behind;
    assert forall|j: int| 0 <= j < before.len() implies #[trigger] text.subrange(
        j,
        j + token.len(),
    ) != token by {
        assert(before.contains(before[j]));
        assert(text.subrange(j, j + token.len())[0] == before[j]);
    }
    law_split_first_finds_the_token(before, token, behind);
}

/// A token is not found in a text where its first character never stands before the rest
/// of it.
proof fn lemma_sign_missing(text: Seq<char>, token: Seq<char>)
    requires
        1 <= token.len() <= 2,
        forall|j: int|
            0 <= j < text.len() && #[trigger] text[j] == token[0] ==> token.len() == 2 && (j + 1
                >= text.len() || text[j + 1] != token[1]),
    ensures
        split_first(text, token) is None,
{
    law_split_first_cuts_once(text, token);
    if let Some((before, behind)) = split_first(text, token) {
        let at = before.len() as int;
        assert(text[at] == token[0]);
        if token.len() == 2 {
            assert(text[at + 1] == token[1]);
        }
    }
}

/// In a rule only its own operator is found, and it is found behind the metric.
pub proof fn lemma_operator_is_found(metric: Seq<char>, operator: GateOperator, value: Seq<char>)
    requires
        !metric.contains('<') && !metric.contains('>'),
        !value.contains('<') && !value.contains('>'),
        value.len() > 0 ==> value[0] != '=',
    ensures
        ({
            let text = metric + operator.symbol() + value;
            &&& split_first(text, operator.symbol()) == Some((metric, value))
            &&& !(operator is GreaterOrEqual) ==> split_first(text, ">="@) is None
            &&& !(operator is LessOrEqual) ==> split_first(text, "<="@) is None
            &&& operator is LessThan || operator is LessOrEqual ==> split_first(text, ">"@) is None
            &&& operator is GreaterThan || operator is GreaterOrEqual ==> split_first(
                text,
                "<"@,
            ) is None
        }),
{
    law_operators_are_written(GateOperator::GreaterOrEqual);
    law_operators_are_written(GateOperator::GreaterThan);
    law_operators_are_written(GateOperator::LessOrEqual);
    law_operators_are_written(GateOperator::LessThan);
    let symbol = operator.symbol();
    let text = metric + symbol + value;
    assert forall|j: int| 0 <= j < text.len() && (#[trigger] text[j] == '<' || text[j] == '>')
        implies j == metric.len() && text[j] == symbol[0] by {
        if j < metric.len() {
            assert(metric.contains(metric[j]));
        } else if j < metric.len() + symbol.len() {
        } else {
            assert(value.contains(value[j - metric.len() - symbol.len()]));
        }
    }
    if symbol.len() == 1 && value.len() > 0 {
        assert(text[metric.len() as int + 1] == value[0]);
    }
    if !(operator is GreaterOrEqual) {
        lemma_sign_missing(text, ">="@);
    }
    if !(operator is LessOrEqual) {
        lemma_sign_missing(text, "<="@);
    }
    if operator is LessThan || operator is LessOrEqual {
        lemma_sign_missing(text, ">"@);
    } else {
        lemma_sign_missing(text, "<"@);
    }
    lemma_sign_found(metric, symbol, value);
}

/// A rule is cut at its operator: a metric without `<` and `>`, an operator, and a
/// right-hand side without these that does not start with `=` are told apart again, with
/// the blanks around them gone. A metric of nothing but blanks is an error.
pub proof fn law_rules_are_cut_at_the_operator(
    metric: Seq<char>,
    operator: GateOperator,
    value: Seq<char>,
)
    requires
        !metric.contains('<') && !metric.contains('>'),
        !value.contains('<') && !value.contains('>'),
        value.len() > 0 ==> value[0] != '=',
    ensures
        rule_parts(metric + operator.symbol() + value) == if trimmed(metric).len() == 0 {
            Err::<RuleParts, ErrorView>(empty_metric_error())
        } else {
            Ok(RuleParts { metric: trimmed(metric), operator, value: trimmed(value) })
        },
{
    lemma_operator_is_found(metric, operator, value);
}

/// Parsing undoes writing: a trimmed metric name, an operator, and a trimmed right-hand
/// side are read back as exactly these.
pub proof fn law_parsing_undoes_writing(
    metric: Seq<char>,
    operator: GateOperator,
    value: Seq<char>,
)
    requires
        metric.len() > 0,
        !is_blank(metric[0]) && !is_blank(metric.last()),
        value.len() > 0 ==> !is_blank(value[0]) && !is_blank(value.last()) && value[0] != '=',
        !metric.contains('<') && !metric.contains('>'),
        !value.contains('<') && !value.contains('>'),
    ensures
        rule_parts(
            metric + match operator {
                GateOperator::GreaterOrEqual => seq!['>', '='],
                GateOperator::GreaterThan => seq!['>'],
                GateOperator::LessOrEqual => seq!['<', '='],
                GateOperator::LessThan => seq!['<'],
            } + value,
        ) == Ok::<RuleParts, ErrorView>(RuleParts { metric, operator, value }),
{
    law_operators_are_written(operator);
    law_rules_are_cut_at_the_operator(metric, operator, value);
    law_trimmed_text_stays(metric);
    law_trimmed_text_stays(value);
}

/// A text without `<` and `>` is no rule.
pub proof fn law_rules_need_an_operator(input: Seq<char>)
    requires
        !input.contains('<') && !input.contains('>'),
    ensures
        rule_parts(input) == Err::<RuleParts, ErrorView>(rule_form_error(input)),
{
    law_operators_are_written(GateOperator::GreaterOrEqual);
    law_operators_are_written(GateOperator::GreaterThan);
    law_operators_are_written(GateOperator::LessOrEqual);
    law_operators_are_written(GateOperator::LessThan);
    assert forall|j: int| 0 <= j < input.len() implies #[trigger] input[j] != '<' && input[j]
        != '>' by {
        assert(input.contains(input[j]));
    }
    lemma_sign_missing(input, ">="@);
    lemma_sign_missing(input, "<="@);
    lemma_sign_missing(input, ">"@);
    lemma_sign_missing(input, "<"@);
}

/// Operators are looked for in turn, `>=`, `<=`, `>`, `<`: whatever the text holds, it is
/// cut at the first occurrence of the first of these that it holds at all.
pub proof fn law_operators_are_looked_for_in_turn(
    before: Seq<char>,
    operator: GateOperator,
    behind: Seq<char>,
)
    requires
        ({
            let text = before + operator.symbol() + behind;
            let width = operator.symbol().len();
            let nowhere = |token: Seq<char>|
                forall|j: int|
                    0 <= j && j + token.len() <= text.len() ==> #[trigger] text.subrange(
                        j,
                        j + token.len(),
                    ) != token;
            &&& forall|j: int|
                0 <= j < before.len() ==> #[trigger] text.subrange(j, j + width)
                    != operator.symbol()
            &&& !(operator is GreaterOrEqual) ==> nowhere(seq!['>', '='])
            &&& operator is GreaterThan || operator is LessThan ==> nowhere(seq!['<', '='])
            &&& operator is LessThan ==> nowhere(seq!['>'])
        }),
    ensures
        rule_parts(before + operator.symbol() + behind) == if trimmed(before).len() == 0 {
            Err::<RuleParts, ErrorView>(empty_metric_error())
        } else {
            Ok(RuleParts { metric: trimmed(before), operator, value: trimmed(behind) })
        },
{
    law_operators_are_written(GateOperator::GreaterOrEqual);
    law_operators_are_written(GateOperator::GreaterThan);
    law_operators_are_written(GateOperator::LessOrEqual);
    law_operators_are_written(GateOperator::LessThan);
    let text = before + operator.symbol() + behind;
    law_split_first_finds_the_token(before, operator.symbol(), behind);
    law_split_first_cuts_once(text, ">="@);
    law_split_first_cuts_once(text, "<="@);
    law_split_first_cuts_once(text, ">"@);
    if !(operator is GreaterOrEqual) {
        if let Some((left, right)) = split_first(text, ">="@) {
            assert(text.subrange(left.len() as int, left.len() + ">="@.len() as int) =~= ">="@);
        }
    }
    if operator is GreaterThan || operator is LessThan {
        if let Some((left, right)) = split_first(text, "<="@) {
            assert(text.subrange(left.len() as int, left.len() + "<="@.len() as int) =~= "<="@);
        }
    }
    if operator is LessThan {
        if let Some((left, right)) = split_first(text, ">"@) {
            assert(text.subrange(left.len() as int, left.len() + ">"@.len() as int) =~= ">"@);
        }
    }
}

/// One metric threshold rule, such as `psnr>=40`, `mae<0.01`, or
/// `mae:color.red_mae<=0.02` for a metric detail value.
#[derive(Debug)]
pub struct MetricThresholdRule {
    /// Metric name or `metric.detail` selector to match.
    pub metric: String,
    /// Comparison operator.
    pub operator: GateOperator,
    /// Numeric threshold value.
    pub threshold: Score,
}

/// Content of a threshold rule.
pub struct RuleModel {
    pub metric: Seq<char>,
    pub operator: GateOperator,
    pub threshold: Score,
}

impl View for MetricThresholdRule {
    type V = RuleModel;

    open spec fn view(&self) -> RuleModel {
        RuleModel { metric: self.metric@, operator: self.operator, threshold: self.threshold }
    }
}

/// The rule that a text and the number on its right-hand side make.
pub open spec fn parsed_rule(input: Seq<char>, value: Option<Score>) -> core::result::Result<
    RuleModel,
    ErrorView,
> {
    match rule_parts(input) {
        Err(error) => Err(error),
        Ok(parts) => match value {
            None => Err(
                ErrorView::UnsupportedInput("invalid threshold value in `"@ + input + "`"@),
            ),
            Some(threshold) => if !threshold.finite() {
                Err(ErrorView::UnsupportedInput("threshold value must be finite"@))
            } else {
                Ok(RuleModel { metric: parts.metric, operator: parts.operator, threshold })
            },
        },
    }
}

impl MetricThresholdRule {
    /// Creates a new rule.
    pub fn new(metric: String, operator: GateOperator, threshold: Score) -> (rule: Self)
        ensures
            rule.metric == metric,
            rule.operator == operator,
            rule.threshold == threshold,
    {
        Self { metric, operator, threshold }
    }

    /// Parses `metric>=value`, `metric>value`, `metric<=value`, or `metric<value`.
    ///
    /// `value` is the number that the right-hand side reads as, if it is a number.
    pub fn parse(input: &str, value: Option<Score>) -> (result: Result<Self>)
        ensures
            match result {
                Ok(rule) => parsed_rule(input@, value) == Ok::<RuleModel, ErrorView>(rule@),
                Err(error) => parsed_rule(input@, value) == Err::<RuleModel, ErrorView>(error@),
            },
    {
        let (metric, operator, _) = match split_rule(input) {
            Ok(parts) => parts,
            Err(error) => return Err(error),
        };
        match value {
            None => Err(
                Error::unsupported(
                    concat3("invalid threshold value in `", input, "`").as_str(),
                ),
            ),
            Some(threshold) => if !threshold.is_finite() {
                Err(Error::unsupported("threshold value must be finite"))
            } else {
                Ok(Self::new(String::from_str(metric), operator, threshold))
            },
        }
    }
}

/// A rule is read from its text and its number: any finite number becomes the threshold,
/// and no other number, nor the want of one, makes a rule.
pub proof fn law_rules_are_read_from_text(
    metric: Seq<char>,
    operator: GateOperator,
    value: Seq<char>,
    number: Option<Score>,
)
    requires
        metric.len() > 0,
        !is_blank(metric[0]) && !is_blank(metric.last()),
        value.len() > 0 ==> !is_blank(value[0]) && !is_blank(value.last()) && value[0] != '=',
        !metric.contains('<') && !metric.contains('>'),
        !value.contains('<') && !value.contains('>'),
    ensures
        ({
            let text = metric + match operator {
                GateOperator::GreaterOrEqual => seq!['>', '='],
                GateOperator::GreaterThan => seq!['>'],
                GateOperator::LessOrEqual => seq!['<', '='],
                GateOperator::LessThan => seq!['<'],
            } + value;
            match number {
                Some(threshold) => if threshold.bits % 0x8000_0000_0000_0000
                    < 0x7ff0_0000_0000_0000 {
                    parsed_rule(text, number) == Ok::<RuleModel, ErrorView>(
                        RuleModel { metric, operator, threshold },
                    )
                } else {
                    parsed_rule(text, number) is Err
                },
                None => parsed_rule(text, number) is Err,
            }
        }),
{
    law_parsing_undoes_writing(metric, operator, value);
    if let Some(threshold) = number {
        law_scores_follow_their_bits(threshold, threshold);
    }
}

/// How the right-hand side of a baseline rule uses its number.
#[derive(Debug, Clone, Copy, PartialEq, Eq, Structural)]
pub enum BaselineForm {
    /// The baseline itself.
    Plain,
    /// The baseline times a number.
    Times,
    /// The baseline divided by a number.
    Divided,
    /// The baseline plus a signed number.
    Shifted,
}

/// Error for a right-hand side that does not name the baseline.
pub open spec fn no_baseline_error(input: Seq<char>) -> ErrorView {
    ErrorView::UnsupportedInput(
        "invalid baseline threshold in `"@ + input
            + "`; right-hand side must start with `baseline`"@,
    )
}

/// Error for something behind the baseline that is no arithmetic.
pub open spec fn expression_error(expression: Seq<char>, input: Seq<char>) -> ErrorView {
    ErrorView::UnsupportedInput(
        "invalid baseline expression `"@ + expression + "` in `"@ + input + "`"@,
    )
}

/// Form of a baseline expression and the text of its number.
pub open spec fn expression_form(
    expression: Seq<char>,
    input: Seq<char>,
) -> core::result::Result<(BaselineForm, Seq<char>), ErrorView> {
    let inner = trimmed(expression);
    if !has_prefix(inner, "baseline"@) {
        Err(no_baseline_error(input))
    } else {
        let suffix = trimmed(inner.skip("baseline"@.len() as int));
        if suffix.len() == 0 {
            Ok((BaselineForm::Plain, suffix))
        } else if has_prefix(suffix, "*"@) {
            Ok((BaselineForm::Times, trimmed(suffix.skip("*"@.len() as int))))
        } else if has_prefix(suffix, "/"@) {
            Ok((BaselineForm::Divided, trimmed(suffix.skip("/"@.len() as int))))
        } else if has_prefix(suffix, "+"@) || has_prefix(suffix, "-"@) {
            Ok((BaselineForm::Shifted, trimmed(suffix)))
        } else {
            Err(expression_error(inner, input))
        }
    }
}

/// Reads the form of a baseline expression and the text of its number.
pub fn baseline_form<'a>(expression: &'a str, input: &str) -> (result: Result<
    (BaselineForm, &'a str),
>)
    ensures
        match result {
            Ok((form, number)) => expression_form(expression@, input@) == Ok::<
                (BaselineForm, Seq<char>),
                ErrorView,
            >((form, number@)),
            Err(error) => expression_form(expression@, input@) == Err::<
                (BaselineForm, Seq<char>),
                ErrorView,
            >(error@),
        },
{
    let inner = trim(expression);
    let rest = match strip_prefix(inner, "baseline") {
        Some(rest) => rest,
        None => return Err(
            Error::unsupported(
                concat3(
                    "invalid baseline threshold in `",
                    input,
                    "`; right-hand side must start with `baseline`",
                ).as_str(),
            ),
        ),
    };
    let suffix = trim(rest);
    if suffix.is_empty() {
        Ok((BaselineForm::Plain, suffix))
    } else if let Some(number) = strip_prefix(suffix, "*") {
        Ok((BaselineForm::Times, trim(number)))
    } else if let Some(number) = strip_prefix(suffix, "/") {
        Ok((BaselineForm::Divided, trim(number)))
    } else if strip_prefix(suffix, "+").is_some() || strip_prefix(suffix, "-").is_some() {
        Ok((BaselineForm::Shifted, trim(suffix)))
    } else {
        Err(
            Error::unsupported(
                concat5("invalid baseline expression `", inner, "` in `", input, "`").as_str(),
            ),
        )
    }
}

/// A threshold rule whose right-hand side is derived from a baseline result.
///
/// Supported expressions are `metric>=baseline`, `metric>=baseline-0.5`,
/// `metric<=baseline*1.05`, and `metric<=baseline/2` (with any gate operator).
#[derive(Debug)]
pub struct BaselineThresholdRule {
    /// Metric name or `metric.detail` selector to evaluate.
    pub metric: String,
    /// Comparison operator applied to the candidate and derived threshold.
    pub operator: GateOperator,
    /// Multiplier applied to the baseline value.
    pub baseline_scale: Score,
    /// Offset added after multiplying the baseline value.
    pub offset: Score,
}

/// Content of a baseline rule.
pub struct BaselineModel {
    pub metric: Seq<char>,
    pub operator: GateOperator,
    pub baseline_scale: Score,
    pub offset: Score,
}

impl View for BaselineThresholdRule {
    type V = BaselineModel;

    open spec fn view(&self) -> BaselineModel {
        BaselineModel {
            metric: self.metric@,
            operator: self.operator,
            baseline_scale: self.baseline_scale,
            offset: self.offset,
        }
    }
}

/// The bit pattern of one.
pub open spec fn one() -> Score {
    Score { bits: 0x3ff0_0000_0000_0000 }
}

/// Scale and offset that a form and its number stand for.
pub open spec fn baseline_terms(
    form: BaselineForm,
    value: Option<Score>,
    reciprocal: Score,
    input: Seq<char>,
) -> core::result::Result<(Score, Score), ErrorView> {
    let zero = Score { bits: 0 };
    if form is Plain {
        Ok((one(), zero))
    } else {
        match value {
            None => Err(
                ErrorView::UnsupportedInput(
                    "invalid baseline threshold value in `"@ + input + "`"@,
                ),
            ),
            Some(value) => if !value.finite() {
                Err(ErrorView::UnsupportedInput("baseline threshold values must be finite"@))
            } else if form is Times {
                Ok((value, zero))
            } else if form is Shifted {
                Ok((one(), value))
            } else if value.rank() == 0 {
                Err(ErrorView::UnsupportedInput("baseline divisor must not be zero"@))
            } else if !reciprocal.finite() {
                Err(ErrorView::UnsupportedInput("baseline scale must be finite"@))
            } else {
                Ok((reciprocal, zero))
            },
        }
    }
}

/// The baseline rule that a text, its number, and the number's reciprocal make.
pub open spec fn parsed_baseline(
    input: Seq<char>,
    value: Option<Score>,
    reciprocal: Score,
) -> core::result::Result<BaselineModel, ErrorView> {
    match rule_parts(input) {
        Err(error) => Err(error),
        Ok(parts) => match expression_form(parts.value, input) {
            Err(error) => Err(error),
            Ok((form, _)) => match baseline_terms(form, value, reciprocal, input) {
                Err(error) => Err(error),
                Ok((baseline_scale, offset)) => Ok(
                    BaselineModel {
                        metric: parts.metric,
                        operator: parts.operator,
                        baseline_scale,
                        offset,
                    },
                ),
            },
        },
    }
}

fn terms_of(form: BaselineForm, value: Option<Score>, reciprocal: Score, input: &str) -> (result:
    Result<(Score, Score)>)
    ensures
        match result {
            Ok(terms) => baseline_terms(form, value, reciprocal, input@) == Ok::<
                (Score, Score),
                ErrorView,
            >(terms),
            Err(error) => baseline_terms(form, value, reciprocal, input@) == Err::<
                (Score, Score),
                ErrorView,
            >(error@),
        },
{
    if form == BaselineForm::Plain {
        return Ok((Score::one(), Score::zero()));
    }
    let value = match value {
        Some(value) => value,
        None => return Err(
            Error::unsupported(
                concat3("invalid baseline threshold value in `", input, "`").as_str(),
            ),
        ),
    };
    if !value.is_finite() {
        return Err(Error::unsupported("baseline threshold values must be finite"));
    }
    match form {
        BaselineForm::Times => Ok((value, Score::zero())),
        BaselineForm::Shifted => Ok((Score::one(), value)),
        _ => if value.is_zero() {
            Err(Error::unsupported("baseline divisor must not be zero"))
        } else if !reciprocal.is_finite() {
            Err(Error::unsupported("baseline scale must be finite"))
        } else {
            Ok((reciprocal, Score::zero()))
        },
    }
}

impl BaselineThresholdRule {
    /// Creates a baseline-relative rule.
    pub fn new(metric: String, operator: GateOperator, baseline_scale: Score, offset: Score) -> (rule:
        Self)
        ensures
            rule.metric == metric,
            rule.operator == operator,
            rule.baseline_scale == baseline_scale,
            rule.offset == offset,
    {
        Self { metric, operator, baseline_scale, offset }
    }

    /// Parses a rule with a `baseline` expression on its right-hand side.
    ///
    /// `value` is the number that the text found by [`baseline_form`] reads as, and
    /// `reciprocal` is one divided by it.
    pub fn parse(input: &str, value: Option<Score>, reciprocal: Score) -> (result: Result<Self>)
        ensures
            match result {
                Ok(rule) => parsed_baseline(input@, value, reciprocal) == Ok::<
                    BaselineModel,
                    ErrorView,
                >(rule@),
                Err(error) => parsed_baseline(input@, value, reciprocal) == Err::<
                    BaselineModel,
                    ErrorView,
                >(error@),
            },
    {
        let (metric, operator, expression) = match split_rule(input) {
            Ok(parts) => parts,
            Err(error) => return Err(error),
        };
        let (form, _) = match baseline_form(expression, input) {
            Ok(form) => form,
            Err(error) => return Err(error),
        };
        match terms_of(form, value, reciprocal, input) {
            Ok((baseline_scale, offset)) => Ok(
                Self::new(String::from_str(metric), operator, baseline_scale, offset),
            ),
            Err(error) => Err(error),
        }
    }
}

impl Clone for MetricThresholdRule {
    fn clone(&self) -> (copy: Self)
        ensures
            copy@ == self@,
    {
        Self { metric: self.metric.clone(), operator: self.operator, threshold: self.threshold }
    }
}

impl Clone for BaselineThresholdRule {
    fn clone(&self) -> (copy: Self)
        ensures
            copy@ == self@,
    {
        Self {
            metric: self.metric.clone(),
            operator: self.operator,
            baseline_scale: self.baseline_scale,
            offset: self.offset,
        }
    }
}

/// Behind the word `baseline`, a sign of arithmetic and a number tell the form: `*` and
/// `/` are taken off the number, `+` and `-` stay with it, and with nothing behind it the
/// baseline stands for itself.
pub proof fn law_baseline_forms_are_told_apart(sign: char, number: Seq<char>, input: Seq<char>)
    requires
        sign == '*' || sign == '/' || sign == '+' || sign == '-',
        number.len() > 0,
        !is_blank(number[0]) && !is_blank(number.last()),
    ensures
        ({
            let word = seq!['b', 'a', 's', 'e', 'l', 'i', 'n', 'e'];
            &&& expression_form(word, input) == Ok::<(BaselineForm, Seq<char>), ErrorView>(
                (BaselineForm::Plain, Seq::empty()),
            )
            &&& expression_form(word.push(sign) + number, input) == Ok::<
                (BaselineForm, Seq<char>),
                ErrorView,
            >(
                if sign == '*' {
                    (BaselineForm::Times, number)
                } else if sign == '/' {
                    (BaselineForm::Divided, number)
                } else {
                    (BaselineForm::Shifted, seq![sign] + number)
                },
            )
        }),
{
    reveal_strlit("baseline");
    reveal_strlit("*");
    reveal_strlit("/");
    reveal_strlit("+");
    reveal_strlit("-");
    let word = seq!['b', 'a', 's', 'e', 'l', 'i', 'n', 'e'];
    assert("baseline"@ =~= word);
    assert("*"@ =~= seq!['*']);
    assert("/"@ =~= seq!['/']);
    assert("+"@ =~= seq!['+']);
    assert("-"@ =~= seq!['-']);
    law_trimmed_text_stays(word);
    assert(word.subrange(0, 8) =~= word);
    assert(word.skip(8) =~= Seq::<char>::empty());
    law_trimmed_text_stays(Seq::empty());
    let text = word.push(sign) + number;
    let suffix = seq![sign] + number;
    assert(text.last() == number.last());
    law_trimmed_text_stays(text);
    assert(text.subrange(0, 8) =~= word);
    assert(text.skip(8) =~= suffix);
    assert(suffix.last() == number.last());
    law_trimmed_text_stays(suffix);
    assert(suffix.subrange(0, 1) =~= seq![sign]);
    assert(seq![sign][0] == sign);
    assert(suffix.skip(1) =~= number);
    law_trimmed_text_stays(number);
    assert(seq!['*'][0] == '*' && seq!['/'][0] == '/' && seq!['+'][0] == '+' && seq!['-'][0]
        == '-');
}

/// Blanks around the baseline, its sign, and its number do not matter, except that those
/// between a plus or minus sign and its number stay with the number.
pub proof fn law_blanks_in_baseline_rules(
    a: Seq<char>,
    b: Seq<char>,
    sign: char,
    c: Seq<char>,
    number: Seq<char>,
    d: Seq<char>,
    input: Seq<char>,
)
    requires
        forall|i: int| 0 <= i < a.len() ==> is_blank(#[trigger] a[i]),
        forall|i: int| 0 <= i < b.len() ==> is_blank(#[trigger] b[i]),
        forall|i: int| 0 <= i < c.len() ==> is_blank(#[trigger] c[i]),
        forall|i: int| 0 <= i < d.len() ==> is_blank(#[trigger] d[i]),
        sign == '*' || sign == '/' || sign == '+' || sign == '-',
        number.len() > 0,
        !is_blank(number[0]) && !is_blank(number.last()),
    ensures
        ({
            let word = seq!['b', 'a', 's', 'e', 'l', 'i', 'n', 'e'];
            expression_form(a + (word + b + (seq![sign] + c + number)) + d, input) == Ok::<
                (BaselineForm, Seq<char>),
                ErrorView,
            >(
                if sign == '*' {
                    (BaselineForm::Times, number)
                } else if sign == '/' {
                    (BaselineForm::Divided, number)
                } else {
                    (BaselineForm::Shifted, seq![sign] + c + number)
                },
            )
        }),
{
    reveal_strlit("baseline");
    reveal_strlit("*");
    reveal_strlit("/");
    reveal_strlit("+");
    reveal_strlit("-");
    let word = seq!['b', 'a', 's', 'e', 'l', 'i', 'n', 'e'];
    assert("baseline"@ =~= word);
    assert("*"@ =~= seq!['*']);
    assert("/"@ =~= seq!['/']);
    assert("+"@ =~= seq!['+']);
    assert("-"@ =~= seq!['-']);
    let tail = seq![sign] + c + number;
    let inner = word + b + tail;
    assert(inner[0] == 'b');
    assert(inner.last() == number.last());
    law_trimming_forgets_blanks(a, inner, d);
    assert(inner.subrange(0, 8) =~= word);
    assert(inner.skip(8) =~= b + tail + Seq::<char>::empty());
    assert(tail[0] == sign && tail.last() == number.last());
    law_trimming_forgets_blanks(b, tail, Seq::empty());
    assert(tail.subrange(0, 1) =~= seq![sign]);
    assert(seq![sign][0] == sign);
    assert(tail.skip(1) =~= c + number + Seq::<char>::empty());
    law_trimming_forgets_blanks(c, number, Seq::empty());
    law_trimmed_text_stays(tail);
    assert(seq!['*'][0] == '*' && seq!['/'][0] == '/' && seq!['+'][0] == '+' && seq!['-'][0]
        == '-');
}

/// Anything else behind the baseline is no arithmetic.
pub proof fn law_other_signs_are_refused(sign: char, rest: Seq<char>, input: Seq<char>)
    requires
        sign != '*' && sign != '/' && sign != '+' && sign != '-',
        !is_blank(sign),
        rest.len() > 0 ==> !is_blank(rest.last()),
    ensures
        expression_form(
            seq!['b', 'a', 's', 'e', 'l', 'i', 'n', 'e'].push(sign) + rest,
            input,
        ) is Err,
{
    reveal_strlit("baseline");
    reveal_strlit("*");
    reveal_strlit("/");
    reveal_strlit("+");
    reveal_strlit("-");
    let word = seq!['b', 'a', 's', 'e', 'l', 'i', 'n', 'e'];
    let text = word.push(sign) + rest;
    let suffix = seq![sign] + rest;
    assert("baseline"@ =~= word);
    assert(text[0] == 'b');
    assert(text.last() == if rest.len() > 0 {
        rest.last()
    } else {
        sign
    });
    law_trimmed_text_stays(text);
    assert(text.subrange(0, 8) =~= word);
    assert(text.skip(8) =~= suffix);
    assert(suffix.last() == text.last());
    law_trimmed_text_stays(suffix);
    assert(suffix.subrange(0, 1)[0] == sign);
    assert("*"@[0] == '*' && "/"@[0] == '/' && "+"@[0] == '+' && "-"@[0] == '-');
}

/// A right-hand side that does not begin with the word `baseline` makes no baseline rule.
pub proof fn law_baseline_must_be_named(expression: Seq<char>, input: Seq<char>)
    requires
        expression.len() > 0 ==> !is_blank(expression[0]) && !is_blank(expression.last()),
        expression.len() < 8 || expression.take(8) != seq!['b', 'a', 's', 'e', 'l', 'i', 'n', 'e'],
    ensures
        expression_form(expression, input) == Err::<(BaselineForm, Seq<char>), ErrorView>(
            no_baseline_error(input),
        ),
{
    reveal_strlit("baseline");
    assert("baseline"@ =~= seq!['b', 'a', 's', 'e', 'l', 'i', 'n', 'e']);
    law_trimmed_text_stays(expression);
    if expression.len() >= 8 {
        assert(expression.take(8) =~= expression.subrange(0, 8));
    }
}

/// What a form makes of its number: the baseline alone has scale one and offset zero, a
/// factor is the scale, a summand the offset, and a divisor gives its reciprocal as the
/// scale unless it is zero. Numbers that are not finite make no rule.
pub proof fn law_baseline_terms(number: Score, reciprocal: Score, input: Seq<char>)
    ensures
        ({
            let finite = number.bits % 0x8000_0000_0000_0000 < 0x7ff0_0000_0000_0000;
            let times = baseline_terms(BaselineForm::Times, Some(number), reciprocal, input);
            let shifted = baseline_terms(BaselineForm::Shifted, Some(number), reciprocal, input);
            let divided = baseline_terms(BaselineForm::Divided, Some(number), reciprocal, input);
            &&& forall|value: Option<Score>|
                (#[trigger] baseline_terms(BaselineForm::Plain, value, reciprocal, input)) matches Ok((
                    scale,
                    offset,
                )) && scale.bits == 0x3ff0_0000_0000_0000 && offset.bits == 0
            &&& finite <==> times is Ok
            &&& finite <==> shifted is Ok
            &&& finite && number.bits % 0x8000_0000_0000_0000 != 0 && reciprocal.bits
                % 0x8000_0000_0000_0000 < 0x7ff0_0000_0000_0000 <==> divided is Ok
            &&& times matches Ok((scale, offset)) ==> scale == number && offset.bits == 0
            &&& shifted matches Ok((scale, offset)) ==> scale.bits == 0x3ff0_0000_0000_0000
                && offset == number
            &&& divided matches Ok((scale, offset)) ==> scale == reciprocal && offset.bits == 0
        }),
        forall|form: BaselineForm|
            !(form is Plain) ==> (#[trigger] baseline_terms(form, None, reciprocal, input)) is Err,
{
    law_scores_follow_their_bits(number, number);
    law_scores_follow_their_bits(reciprocal, reciprocal);
}

/// A rule relative to the baseline is read from its text and its number: a factor and a
/// divisor scale the baseline, a signed number shifts it, and the word alone takes it as
/// it is.
pub proof fn law_baseline_rules_are_read_from_text(
    metric: Seq<char>,
    operator: GateOperator,
    sign: char,
    number: Seq<char>,
    value: Score,
    reciprocal: Score,
    any: Option<Score>,
)
    requires
        metric.len() > 0,
        !is_blank(metric[0]) && !is_blank(metric.last()),
        !metric.contains('<') && !metric.contains('>'),
        number.len() > 0,
        !is_blank(number[0]) && !is_blank(number.last()),
        !number.contains('<') && !number.contains('>'),
        sign == '*' || sign == '/' || sign == '+' || sign == '-',
        value.bits % 0x8000_0000_0000_0000 < 0x7ff0_0000_0000_0000,
        value.bits % 0x8000_0000_0000_0000 != 0,
        reciprocal.bits % 0x8000_0000_0000_0000 < 0x7ff0_0000_0000_0000,
    ensures
        ({
            let head = metric + match operator {
                GateOperator::GreaterOrEqual => seq!['>', '='],
                GateOperator::GreaterThan => seq!['>'],
                GateOperator::LessOrEqual => seq!['<', '='],
                GateOperator::LessThan => seq!['<'],
            };
            let word = seq!['b', 'a', 's', 'e', 'l', 'i', 'n', 'e'];
            let unit = Score { bits: 0x3ff0_0000_0000_0000 };
            let zero = Score { bits: 0 };
            &&& parsed_baseline(head + word, any, reciprocal) == Ok::<BaselineModel, ErrorView>(
                BaselineModel { metric, operator, baseline_scale: unit, offset: zero },
            )
            &&& parsed_baseline(head + (word.push(sign) + number), Some(value), reciprocal) == Ok::<
                BaselineModel,
                ErrorView,
            >(
                BaselineModel {
                    metric,
                    operator,
                    baseline_scale: if sign == '*' {
                        value
                    } else if sign == '/' {
                        reciprocal
                    } else {
                        unit
                    },
                    offset: if sign == '*' || sign == '/' {
                        zero
                    } else {
                        value
                    },
                },
            )
            &&& parsed_baseline(head + (word.push(sign) + number), None, reciprocal) is Err
        }),
{
    let word = seq!['b', 'a', 's', 'e', 'l', 'i', 'n', 'e'];
    let shifted = word.push(sign) + number;
    assert forall|i: int| 0 <= i < word.len() implies #[trigger] word[i] != '<' && word[i] != '>' by {}
    law_parsing_undoes_writing(metric, operator, word);
    assert forall|i: int| 0 <= i < shifted.len() implies #[trigger] shifted[i] != '<' && shifted[i]
        != '>' by {
        if i > 8 {
            assert(number.contains(number[i - 9]));
        }
    }
    assert(shifted.last() == number.last());
    law_parsing_undoes_writing(metric, operator, shifted);
    law_operators_are_written(operator);
    let head = metric + operator.symbol();
    law_baseline_forms_are_told_apart(sign, number, head + shifted);
    law_baseline_forms_are_told_apart(sign, number, head + word);
    law_baseline_terms(value, reciprocal, head + shifted);
    law_baseline_terms(value, reciprocal, head + word);
}

/// Outcome of looking a selector up among metric outputs.
#[derive(Debug, Clone, Copy, PartialEq, Eq, Structural)]
pub enum MetricValueLookup {
    /// The value was found.
    Found(Score),
    /// No metric has the name.
    MissingMetric,
    /// The metric has no such detail.
    MissingDetail,
}

impl MetricValueLookup {
    /// The value, if it was found.
    pub open spec fn value(self) -> Option<Score> {
        match self {
            MetricValueLookup::Found(score) => Some(score),
            _ => None,
        }
    }

    /// Returns the value, if it was found.
    pub fn found(self) -> (score: Option<Score>)
        ensures
            score == self.value(),
    {
        match self {
            Self::Found(score) => Some(score),
            Self::MissingMetric | Self::MissingDetail => None,
        }
    }
}

/// First output at or behind `from` with a name.
pub open spec fn named_from(metrics: Seq<MetricOutput>, name: Seq<char>, from: int) -> Option<int>
    decreases metrics.len() - from,
{
    if from < 0 || from >= metrics.len() {
        None
    } else if metrics[from].name@ == name {
        Some(from)
    } else {
        named_from(metrics, name, from + 1)
    }
}

/// The value that a selector names: the score of the first metric with that name,
/// else the detail behind the last dot of the first metric named before the dot.
pub open spec fn selected_value(metrics: Seq<MetricOutput>, selector: Seq<char>) -> MetricValueLookup {
    match named_from(metrics, selector, 0) {
        Some(i) => MetricValueLookup::Found(metrics[i].score),
        None => match split_last(selector, '.') {
            None => MetricValueLookup::MissingMetric,
            Some((metric, detail)) => match named_from(metrics, metric, 0) {
                None => MetricValueLookup::MissingMetric,
                Some(i) => match metrics[i].details.spec_get(detail) {
                    Some(value) => MetricValueLookup::Found(value),
                    None => MetricValueLookup::MissingDetail,
                },
            },
        },
    }
}

fn find_named(metrics: &Vec<MetricOutput>, name: &str) -> (found: Option<usize>)
    ensures
        match found {
            Some(i) => i < metrics@.len() && named_from(metrics@, name@, 0) == Some(i as int),
            None => named_from(metrics@, name@, 0) is None,
        },
{
    let mut i: usize = 0;
    while i < metrics.len()
        invariant
            i <= metrics.len(),
            named_from(metrics@, name@, 0) == named_from(metrics@, name@, i as int),
        decreases metrics.len() - i,
    {
        if same_text(metrics[i].name.as_str(), name) {
            return Some(i);
        }
        i += 1;
    }
    None
}

/// Looks a selector up among metric outputs.
pub fn metric_value(metrics: &Vec<MetricOutput>, selector: &str) -> (lookup: MetricValueLookup)
    ensures
        lookup == selected_value(metrics@, selector@),
{
    if let Some(i) = find_named(metrics, selector) {
        return MetricValueLookup::Found(metrics[i].score);
    }
    let (metric, detail) = match rsplit_once(selector, '.') {
        Some(parts) => parts,
        None => return MetricValueLookup::MissingMetric,
    };
    match find_named(metrics, metric) {
        None => MetricValueLookup::MissingMetric,
        Some(i) => match metrics[i].details.get(detail) {
            Some(value) => MetricValueLookup::Found(value),
            None => MetricValueLookup::MissingDetail,
        },
    }
}

/// A selector names the first metric of that name, whatever stands behind it.
pub proof fn law_selectors_name_metrics(metrics: Seq<MetricOutput>, selector: Seq<char>, i: int)
    requires
        0 <= i < metrics.len(),
        metrics[i].name@ == selector,
        forall|j: int| 0 <= j < i ==> (#[trigger] metrics[j]).name@ != selector,
    ensures
        selected_value(metrics, selector) == MetricValueLookup::Found(metrics[i].score),
{
    lemma_named_first(metrics, selector, i, 0);
}

/// A selector that is no metric's name is cut at its last dot: it names the detail
/// behind the dot of the first metric with the name before it.
pub proof fn law_selectors_name_details(
    metrics: Seq<MetricOutput>,
    metric: Seq<char>,
    detail: Seq<char>,
    i: int,
)
    requires
        0 <= i < metrics.len(),
        metrics[i].name@ == metric,
        forall|j: int| 0 <= j < i ==> (#[trigger] metrics[j]).name@ != metric,
        forall|j: int|
            0 <= j < metrics.len() ==> (#[trigger] metrics[j]).name@ != metric.push('.') + detail,
        !detail.contains('.'),
    ensures
        selected_value(metrics, metric.push('.') + detail) == match metrics[i].details.spec_get(
            detail,
        ) {
            Some(value) => MetricValueLookup::Found(value),
            None => MetricValueLookup::MissingDetail,
        },
{
    let selector = metric.push('.') + detail;
    lemma_named_nowhere(metrics, selector, 0);
    lemma_named_first(metrics, metric, i, 0);
    law_split_last_cuts_once(selector, '.');
    assert(selector[metric.len() as int] == '.');
    let (before, behind) = split_last(selector, '.')->Some_0;
    let at = before.len() as int;
    assert(selector[at] == '.');
    if at > metric.len() {
        assert(detail[at - metric.len() - 1] == '.');
        assert(detail.contains('.'));
    }
    if at < metric.len() {
        assert(behind[metric.len() - at - 1] == '.');
        assert(behind.contains('.'));
    }
    assert(before =~= selector.take(at));
    assert(metric =~= selector.take(at));
    assert(behind =~= selector.skip(at + 1));
    assert(detail =~= selector.skip(at + 1));
}

/// Without a metric of the name, nor one of the part before the last dot, nothing is
/// found.
pub proof fn law_unknown_selectors_find_nothing(metrics: Seq<MetricOutput>, selector: Seq<char>)
    requires
        forall|j: int| 0 <= j < metrics.len() ==> (#[trigger] metrics[j]).name@ != selector,
        forall|j: int, rest: Seq<char>|
            0 <= j < metrics.len() ==> #[trigger] ((#[trigger] metrics[j]).name@.push('.') + rest)
                != selector,
    ensures
        selected_value(metrics, selector) == MetricValueLookup::MissingMetric,
{
    lemma_named_nowhere(metrics, selector, 0);
    if let Some((before, behind)) = split_last(selector, '.') {
        law_split_last_cuts_once(selector, '.');
        assert forall|j: int| 0 <= j < metrics.len() implies (#[trigger] metrics[j]).name@
            != before by {
            assert(metrics[j].name@.push('.') + behind != selector);
        }
        lemma_named_nowhere(metrics, before, 0);
    }
}

proof fn lemma_named_first(metrics: Seq<MetricOutput>, name: Seq<char>, i: int, from: int)
    requires
        0 <= from <= i < metrics.len(),
        metrics[i].name@ == name,
        forall|j: int| from <= j < i ==> (#[trigger] metrics[j]).name@ != name,
    ensures
        named_from(metrics, name, from) == Some(i),
    decreases i - from,
{
    if from < i {
        lemma_named_first(metrics, name, i, from + 1);
    }
}

proof fn lemma_named_nowhere(metrics: Seq<MetricOutput>, name: Seq<char>, from: int)
    requires
        0 <= from,
        forall|j: int| from <= j < metrics.len() ==> (#[trigger] metrics[j]).name@ != name,
    ensures
        named_from(metrics, name, from) is None,
    decreases metrics.len() - from,
{
    if from < metrics.len() {
        lemma_named_nowhere(metrics, name, from + 1);
    }
}

/// Result for a single metric threshold check.
#[derive(Debug)]
pub struct MetricThresholdCheck {
    /// Rule that was evaluated.
    pub rule: MetricThresholdRule,
    /// Metric score, if the metric was present.
    pub score: Option<Score>,
    /// Whether this check passed.
    pub passed: bool,
    /// What looking the metric up gave.
    pub lookup: MetricValueLookup,
}

/// Whether a check is the decision on a rule.
pub open spec fn decides(
    check: MetricThresholdCheck,
    metrics: Seq<MetricOutput>,
    rule: RuleModel,
) -> bool {
    let lookup = selected_value(metrics, rule.metric);
    &&& check.rule@ == rule
    &&& check.lookup == lookup
    &&& check.score == lookup.value()
    &&& check.passed == (lookup matches MetricValueLookup::Found(score) && rule.operator.holds(
        score,
        rule.threshold,
    ))
}

/// Reason for a decision, given the printed score and threshold.
pub open spec fn reason(
    metric: Seq<char>,
    operator: GateOperator,
    lookup: MetricValueLookup,
    passed: bool,
    score: Seq<char>,
    threshold: Seq<char>,
) -> Seq<char> {
    match lookup {
        MetricValueLookup::Found(_) => if passed {
            metric + "="@ + score + " satisfies "@ + operator.symbol() + threshold
        } else {
            metric + "="@ + score + " violates "@ + operator.symbol() + threshold
        },
        MetricValueLookup::MissingMetric => "metric `"@ + metric + "` was not produced"@,
        MetricValueLookup::MissingDetail => "metric detail `"@ + metric + "` was not produced"@,
    }
}

impl MetricThresholdCheck {
    /// Human-readable reason for the decision, given the printed score and threshold.
    pub fn message(&self, score: &str, threshold: &str) -> (text: String)
        ensures
            text@ == reason(
                self.rule.metric@,
                self.rule.operator,
                self.lookup,
                self.passed,
                score@,
                threshold@,
            ),
    {
        let metric = self.rule.metric.as_str();
        match self.lookup {
            MetricValueLookup::Found(_) => if self.passed {
                concat6(
                    metric,
                    "=",
                    score,
                    " satisfies ",
                    self.rule.operator.as_str(),
                    threshold,
                )
            } else {
                concat6(metric, "=", score, " violates ", self.rule.operator.as_str(), threshold)
            },
            MetricValueLookup::MissingMetric => concat3("metric `", metric, "` was not produced"),
            MetricValueLookup::MissingDetail => concat3(
                "metric detail `",
                metric,
                "` was not produced",
            ),
        }
    }
}

/// Aggregate pass/fail result for a group of rules.
#[derive(Debug)]
pub struct GateEvaluation {
    /// Whether all checks passed.
    pub passed: bool,
    /// Per-rule decisions.
    pub checks: Vec<MetricThresholdCheck>,
}

fn evaluate_one(metrics: &Vec<MetricOutput>, rule: MetricThresholdRule) -> (check:
    MetricThresholdCheck)
    ensures
        decides(check, metrics@, rule@),
{
    let lookup = metric_value(metrics, rule.metric.as_str());
    let passed: bool = match lookup {
        MetricValueLookup::Found(score) => rule.operator.evaluate(score, rule.threshold),
        _ => false,
    };
    MetricThresholdCheck { rule, score: lookup.found(), passed, lookup }
}

/// Evaluates metric outputs against threshold rules.
pub fn evaluate_thresholds(
    metrics: &Vec<MetricOutput>,
    rules: &Vec<MetricThresholdRule>,
) -> (evaluation: GateEvaluation)
    ensures
        evaluation.checks@.len() == rules@.len(),
        forall|i: int|
            0 <= i < rules@.len() ==> decides(
                #[trigger] evaluation.checks@[i],
                metrics@,
                rules@[i]@,
            ),
        evaluation.passed == forall|i: int|
            0 <= i < rules@.len() ==> (#[trigger] evaluation.checks@[i]).passed,
{
    let mut checks: Vec<MetricThresholdCheck> = Vec::with_capacity(rules.len());
    let mut passed: bool = true;
    let mut i: usize = 0;
    while i < rules.len()
        invariant
            i <= rules.len(),
            checks@.len() == i,
            forall|j: int| 0 <= j < i ==> decides(#[trigger] checks@[j], metrics@, rules@[j]@),
            passed == forall|j: int| 0 <= j < i ==> (#[trigger] checks@[j]).passed,
        decreases rules.len() - i,
    {
        let check = evaluate_one(metrics, rules[i].clone());
        let ghost before = checks@;
        passed = passed && check.passed;
        checks.push(check);
        proof {
            assert(checks@[i as int] == check);
            assert(forall|j: int| 0 <= j < i ==> checks@[j] == before[j]);
        }
        i += 1;
    }
    GateEvaluation { passed, checks }
}

impl GateEvaluation {
    /// Returns only failing checks, in order.
    pub fn failures(&self) -> (failing: Vec<&MetricThresholdCheck>)
        ensures
            ({
                let expected = self.checks@.filter(|check: MetricThresholdCheck| !check.passed);
                &&& failing@.len() == expected.len()
                &&& forall|i: int| 0 <= i < expected.len() ==> *(#[trigger] failing@[i])
                    == expected[i]
            }),
    {
        let mut failing: Vec<&MetricThresholdCheck> = Vec::new();
        let mut i: usize = 0;
        let ghost wanted = |check: MetricThresholdCheck| !check.passed;
        proof {
            reveal(Seq::filter);
        }
        while i < self.checks.len()
            invariant
                i <= self.checks.len(),
                wanted == (|check: MetricThresholdCheck| !check.passed),
                failing@.len() == self.checks@.take(i as int).filter(wanted).len(),
                forall|j: int|
                    0 <= j < failing@.len() ==> *(#[trigger] failing@[j]) == self.checks@.take(
                        i as int,
                    ).filter(wanted)[j],
            decreases self.checks.len() - i,
        {
            proof {
                reveal(Seq::filter);
                assert(self.checks@.take(i + 1).drop_last() =~= self.checks@.take(i as int));
            }
            if !self.checks[i].passed {
                failing.push(&self.checks[i]);
            }
            i += 1;
        }
        assert(self.checks@.take(i as int) =~= self.checks@);
        failing
    }
}

/// Result for one baseline-relative threshold check.
#[derive(Debug)]
pub struct BaselineThresholdCheck {
    /// Rule that was evaluated.
    pub rule: BaselineThresholdRule,
    /// Candidate metric or detail value, when found.
    pub candidate_score: Option<Score>,
    /// Baseline metric or detail value, when found.
    pub baseline_score: Option<Score>,
    /// Concrete threshold derived from the baseline, when available.
    pub threshold: Option<Score>,
    /// Whether this check passed.
    pub passed: bool,
    /// What looking the candidate's value up gave.
    pub candidate: MetricValueLookup,
    /// What looking the baseline's value up gave.
    pub baseline: MetricValueLookup,
}

/// Whether a check is the decision on a baseline rule with its derived threshold.
pub open spec fn decides_baseline(
    check: BaselineThresholdCheck,
    candidate_metrics: Seq<MetricOutput>,
    baseline_metrics: Seq<MetricOutput>,
    rule: BaselineModel,
    threshold: Score,
) -> bool {
    let candidate = selected_value(candidate_metrics, rule.metric);
    let baseline = selected_value(baseline_metrics, rule.metric);
    &&& check.rule@ == rule
    &&& check.candidate == candidate
    &&& check.baseline == baseline
    &&& check.candidate_score == candidate.value()
    &&& check.baseline_score == baseline.value()
    &&& check.threshold == if candidate is Found && baseline is Found {
        Some(threshold)
    } else {
        None
    }
    &&& check.passed == (baseline is Found && (candidate matches MetricValueLookup::Found(score)
        && rule.operator.holds(score, threshold)))
}

/// What is missing for a baseline decision; the candidate is named first.
pub open spec fn missing_part(candidate: MetricValueLookup, baseline: MetricValueLookup) -> Seq<
    char,
> {
    if candidate is MissingDetail {
        "candidate metric detail"@
    } else if candidate is MissingMetric {
        "candidate metric"@
    } else if baseline is MissingDetail {
        "baseline metric detail"@
    } else {
        "baseline metric"@
    }
}

impl BaselineThresholdCheck {
    /// Human-readable reason for the decision, given the printed numbers.
    pub fn message(&self, candidate: &str, threshold: &str, baseline: &str) -> (text: String)
        ensures
            text@ == if self.candidate is Found && self.baseline is Found {
                self.rule.metric@ + "="@ + candidate@ + (if self.passed {
                    " satisfies "@
                } else {
                    " violates "@
                }) + self.rule.operator.symbol() + threshold@ + (" (baseline="@ + baseline@ + ")"@)
            } else {
                missing_part(self.candidate, self.baseline) + " `"@ + self.rule.metric@
                    + "` was not produced"@
            },
    {
        let metric = self.rule.metric.as_str();
        let missing = match (self.candidate, self.baseline) {
            (MetricValueLookup::Found(_), MetricValueLookup::Found(_)) => {
                let verb = if self.passed {
                    " satisfies "
                } else {
                    " violates "
                };
                let tail = concat3(" (baseline=", baseline, ")");
                return concat7(
                    metric,
                    "=",
                    candidate,
                    verb,
                    self.rule.operator.as_str(),
                    threshold,
                    tail.as_str(),
                );
            },
            (MetricValueLookup::MissingDetail, _) => "candidate metric detail",
            (MetricValueLookup::MissingMetric, _) => "candidate metric",
            (_, MetricValueLookup::MissingDetail) => "baseline metric detail",
            (_, MetricValueLookup::MissingMetric) => "baseline metric",
        };
        concat4(missing, " `", metric, "` was not produced")
    }
}

/// Aggregate result for baseline-relative threshold rules.
#[derive(Debug)]
pub struct BaselineGateEvaluation {
    /// Whether all checks passed.
    pub passed: bool,
    /// Per-rule decisions.
    pub checks: Vec<BaselineThresholdCheck>,
}

/// Looks the baseline value of every rule up, for deriving the thresholds.
pub fn baseline_scores(
    baseline_metrics: &Vec<MetricOutput>,
    rules: &Vec<BaselineThresholdRule>,
) -> (scores: Vec<Option<Score>>)
    ensures
        scores@.len() == rules@.len(),
        forall|i: int|
            0 <= i < rules@.len() ==> #[trigger] scores@[i] == selected_value(
                baseline_metrics@,
                rules@[i].metric@,
            ).value(),
{
    let mut scores: Vec<Option<Score>> = Vec::with_capacity(rules.len());
    let mut i: usize = 0;
    while i < rules.len()
        invariant
            i <= rules.len(),
            scores@.len() == i,
            forall|j: int|
                0 <= j < i ==> #[trigger] scores@[j] == selected_value(
                    baseline_metrics@,
                    rules@[j].metric@,
                ).value(),
        decreases rules.len() - i,
    {
        scores.push(metric_value(baseline_metrics, rules[i].metric.as_str()).found());
        i += 1;
    }
    scores
}

fn evaluate_baseline_one(
    candidate_metrics: &Vec<MetricOutput>,
    baseline_metrics: &Vec<MetricOutput>,
    rule: BaselineThresholdRule,
    threshold: Score,
) -> (check: BaselineThresholdCheck)
    ensures
        decides_baseline(check, candidate_metrics@, baseline_metrics@, rule@, threshold),
{
    let candidate = metric_value(candidate_metrics, rule.metric.as_str());
    let baseline = metric_value(baseline_metrics, rule.metric.as_str());
    match (candidate, baseline) {
        (MetricValueLookup::Found(score), MetricValueLookup::Found(_)) => {
            let passed: bool = rule.operator.evaluate(score, threshold);
            BaselineThresholdCheck {
                rule,
                candidate_score: candidate.found(),
                baseline_score: baseline.found(),
                threshold: Some(threshold),
                passed,
                candidate,
                baseline,
            }
        },
        _ => BaselineThresholdCheck {
            rule,
            candidate_score: candidate.found(),
            baseline_score: baseline.found(),
            threshold: None,
            passed: false,
            candidate,
            baseline,
        },
    }
}

/// Evaluates candidate metrics against thresholds derived from baseline metrics.
///
/// `thresholds` holds, for each rule, the baseline value found by
/// [`baseline_scores`] times the rule's scale plus its offset.
pub fn evaluate_baseline_thresholds(
    candidate_metrics: &Vec<MetricOutput>,
    baseline_metrics: &Vec<MetricOutput>,
    rules: &Vec<BaselineThresholdRule>,
    thresholds: &Vec<Score>,
) -> (evaluation: BaselineGateEvaluation)
    requires
        thresholds@.len() == rules@.len(),
    ensures
        evaluation.checks@.len() == rules@.len(),
        forall|i: int|
            0 <= i < rules@.len() ==> decides_baseline(
                #[trigger] evaluation.checks@[i],
                candidate_metrics@,
                baseline_metrics@,
                rules@[i]@,
                thresholds@[i],
            ),
        evaluation.passed == forall|i: int|
            0 <= i < rules@.len() ==> (#[trigger] evaluation.checks@[i]).passed,
{
    let mut checks: Vec<BaselineThresholdCheck> = Vec::with_capacity(rules.len());
    let mut passed: bool = true;
    let mut i: usize = 0;
    while i < rules.len()
        invariant
            i <= rules.len(),
            thresholds@.len() == rules@.len(),
            checks@.len() == i,
            forall|j: int|
                0 <= j < i ==> decides_baseline(
                    #[trigger] checks@[j],
                    candidate_metrics@,
                    baseline_metrics@,
                    rules@[j]@,
                    thresholds@[j],
                ),
            passed == forall|j: int| 0 <= j < i ==> (#[trigger] checks@[j]).passed,
        decreases rules.len() - i,
    {
        let check = evaluate_baseline_one(
            candidate_metrics,
            baseline_metrics,
            rules[i].clone(),
            thresholds[i],
        );
        let ghost before = checks@;
        passed = passed && check.passed;
        checks.push(check);
        proof {
            assert(checks@[i as int] == check);
            assert(forall|j: int| 0 <= j < i ==> checks@[j] == before[j]);
        }
        i += 1;
    }
    BaselineGateEvaluation { passed, checks }
}

impl BaselineGateEvaluation {
    /// Returns only failing checks, in order.
    pub fn failures(&self) -> (failing: Vec<&BaselineThresholdCheck>)
        ensures
            ({
                let expected = self.checks@.filter(|check: BaselineThresholdCheck| !check.passed);
                &&& failing@.len() == expected.len()
                &&& forall|i: int| 0 <= i < expected.len() ==> *(#[trigger] failing@[i])
                    == expected[i]
            }),
    {
        let mut failing: Vec<&BaselineThresholdCheck> = Vec::new();
        let mut i: usize = 0;
        let ghost wanted = |check: BaselineThresholdCheck| !check.passed;
        proof {
            reveal(Seq::filter);
        }
        while i < self.checks.len()
            invariant
                i <= self.checks.len(),
                wanted == (|check: BaselineThresholdCheck| !check.passed),
                failing@.len() == self.checks@.take(i as int).filter(wanted).len(),
                forall|j: int|
                    0 <= j < failing@.len() ==> *(#[trigger] failing@[j]) == self.checks@.take(
                        i as int,
                    ).filter(wanted)[j],
            decreases self.checks.len() - i,
        {
            proof {
                reveal(Seq::filter);
                assert(self.checks@.take(i + 1).drop_last() =~= self.checks@.take(i as int));
            }
            if !self.checks[i].passed {
                failing.push(&self.checks[i]);
            }
            i += 1;
        }
        assert(self.checks@.take(i as int) =~= self.checks@);
        failing
    }
}

/// A gate fails exactly when some rule's metric is missing or violates its threshold.
pub proof fn law_gate_fails_on_any_violation(
    evaluation: GateEvaluation,
    metrics: Seq<MetricOutput>,
    rules: Seq<RuleModel>,
)
    requires
        evaluation.checks@.len() == rules.len(),
        forall|i: int|
            0 <= i < rules.len() ==> decides(#[trigger] evaluation.checks@[i], metrics, rules[i]),
        evaluation.passed == forall|i: int|
            0 <= i < rules.len() ==> (#[trigger] evaluation.checks@[i]).passed,
    ensures
        evaluation.passed <==> forall|i: int|
            0 <= i < rules.len() ==> (selected_value(metrics, (#[trigger] rules[i]).metric)
                matches MetricValueLookup::Found(score) && rules[i].operator.holds(
                score,
                rules[i].threshold,
            )),
{
    if evaluation.passed {
        assert forall|i: int| 0 <= i < rules.len() implies (selected_value(
            metrics,
            (#[trigger] rules[i]).metric,
        ) matches MetricValueLookup::Found(score) && rules[i].operator.holds(
            score,
            rules[i].threshold,
        )) by {
            assert(evaluation.checks@[i].passed);
            assert(decides(evaluation.checks@[i], metrics, rules[i]));
        }
    } else {
        let i = choose|i: int|
            0 <= i < rules.len() && !(#[trigger] evaluation.checks@[i]).passed;
        assert(decides(evaluation.checks@[i], metrics, rules[i]));
        let rule = rules[i];
    }
}

/// A check reports what it decided on: it passes exactly when the value it reports was
/// found and satisfies the rule it reports.
pub proof fn law_checks_report_their_decision(
    check: MetricThresholdCheck,
    metrics: Seq<MetricOutput>,
    rule: RuleModel,
)
    requires
        decides(check, metrics, rule),
    ensures
        check.rule@ == rule,
        check.score is Some <==> selected_value(metrics, rule.metric) is Found,
        check.score matches Some(score) ==> selected_value(metrics, rule.metric)
            == MetricValueLookup::Found(score) && check.passed == rule.operator.holds(
            score,
            rule.threshold,
        ),
        check.score is None ==> !check.passed,
{
}

/// A baseline gate passes exactly when every rule finds its value in the candidate and in
/// the baseline, and the candidate's satisfies the threshold derived for that rule.
pub proof fn law_baseline_gate_asks_every_rule(
    evaluation: BaselineGateEvaluation,
    candidate: Seq<MetricOutput>,
    baseline: Seq<MetricOutput>,
    rules: Seq<BaselineModel>,
    thresholds: Seq<Score>,
)
    requires
        evaluation.checks@.len() == rules.len(),
        thresholds.len() == rules.len(),
        forall|i: int|
            0 <= i < rules.len() ==> decides_baseline(
                #[trigger] evaluation.checks@[i],
                candidate,
                baseline,
                rules[i],
                thresholds[i],
            ),
        evaluation.passed == forall|i: int|
            0 <= i < rules.len() ==> (#[trigger] evaluation.checks@[i]).passed,
    ensures
        evaluation.passed <==> forall|i: int|
            0 <= i < rules.len() ==> selected_value(baseline, (#[trigger] rules[i]).metric) is Found
                && (selected_value(candidate, rules[i].metric) matches MetricValueLookup::Found(
                score,
            ) && rules[i].operator.holds(score, thresholds[i])),
{
    if evaluation.passed {
        assert forall|i: int| 0 <= i < rules.len() implies selected_value(
            baseline,
            (#[trigger] rules[i]).metric,
        ) is Found && (selected_value(candidate, rules[i].metric) matches MetricValueLookup::Found(
            score,
        ) && rules[i].operator.holds(score, thresholds[i])) by {
            assert(evaluation.checks@[i].passed);
            assert(decides_baseline(
                evaluation.checks@[i],
                candidate,
                baseline,
                rules[i],
                thresholds[i],
            ));
        }
    } else {
        let i = choose|i: int|
            0 <= i < rules.len() && !(#[trigger] evaluation.checks@[i]).passed;
        assert(decides_baseline(
            evaluation.checks@[i],
            candidate,
            baseline,
            rules[i],
            thresholds[i],
        ));
        let rule = rules[i];
    }
}

} // verus!
