//! External metric commands.
//!
//! Some metrics, such as VMAF or model-heavy perceptual scores, are better kept
//! outside the core. This module fills the `{reference}` and `{distorted}`
//! placeholders of a command and interprets what the command printed.

use crate::error::{Error, ErrorView, Result};
use crate::metrics::{law_scores_follow_their_bits, Direction, MetricOutput, Score};
use crate::strings::{char_list, law_replacing_goes_left_to_right, replace, replaced};
use crate::text::{from_utf8_lossy, lossy_text};
use vstd::prelude::*;

verus! {

/// How stdout from an external metric command should be interpreted.
#[derive(Debug, Clone, Copy, PartialEq, Eq, Structural)]
pub enum ExternalMetricParser {
    /// Parse the first finite floating-point token in stdout.
    FirstFloat,
    /// Keep stdout/stderr only; no numeric metric output is produced.
    RawOnly,
}

/// Command specification for an external full-reference metric.
#[derive(Debug)]
pub struct ExternalMetricCommand {
    /// Program path or executable name.
    pub program: String,
    /// Arguments. `{reference}` and `{distorted}` are replaced before execution.
    pub args: Vec<String>,
    /// Metric name to emit when parsing succeeds.
    pub metric_name: String,
    /// Metric unit.
    pub unit: String,
    /// Metric direction.
    pub direction: Direction,
    /// Stdout parser.
    pub parser: ExternalMetricParser,
}

/// An argument with both placeholders filled, the reference first.
pub open spec fn expanded(arg: Seq<char>, reference: Seq<char>, distorted: Seq<char>) -> Seq<char> {
    replaced(replaced(arg, "{reference}"@, reference), "{distorted}"@, distorted)
}

/// Characters that a printed number can be made of.
pub open spec fn is_number_char(c: char) -> bool {
    ('0' <= c && c <= '9') || c == '-' || c == '+' || c == '.' || c == 'e' || c == 'E'
}

/// Whether a run of number characters is worth reading as a number.
pub open spec fn is_candidate(token: Seq<char>) -> bool {
    token.len() > 0 && token != seq!['+'] && token != seq!['-'] && token != seq!['.']
}

/// A token appended to the candidates, if it is one.
pub open spec fn flushed(tokens: Seq<Seq<char>>, current: Seq<char>) -> Seq<Seq<char>> {
    if is_candidate(current) {
        tokens.push(current)
    } else {
        tokens
    }
}

/// Finished candidates and the open run after the first `n` characters.
pub open spec fn scanned(text: Seq<char>, n: int) -> (Seq<Seq<char>>, Seq<char>)
    decreases n,
{
    if n <= 0 {
        (Seq::empty(), Seq::empty())
    } else {
        let (tokens, current) = scanned(text, n - 1);
        if is_number_char(text[n - 1]) {
            (tokens, current.push(text[n - 1]))
        } else {
            (flushed(tokens, current), Seq::empty())
        }
    }
}

/// The maximal runs of number characters that are worth reading, in order.
pub open spec fn number_tokens(text: Seq<char>) -> Seq<Seq<char>> {
    let (tokens, current) = scanned(text, text.len() as int);
    flushed(tokens, current)
}

fn number_char(c: char) -> (yes: bool)
    ensures
        yes == is_number_char(c),
{
    ('0' <= c && c <= '9') || c == '-' || c == '+' || c == '.' || c == 'e' || c == 'E'
}

fn candidate(text: &str) -> (yes: bool)
    ensures
        yes == is_candidate(text@),
{
    let list = char_list(text);
    if list.len() == 1 {
        proof {
            assert(text@ =~= seq![text@[0]]);
            assert(text@ == seq!['+'] <==> text@[0] == '+');
            assert(text@ == seq!['-'] <==> text@[0] == '-');
            assert(text@ == seq!['.'] <==> text@[0] == '.');
        }
        list[0] != '+' && list[0] != '-' && list[0] != '.'
    } else {
        list.len() > 0
    }
}

/// Lists the tokens of a text that are worth reading as numbers, in order.
pub fn float_tokens(text: &str) -> (tokens: Vec<String>)
    ensures
        tokens@.map_values(|token: String| token@) == number_tokens(text@),
{
    let list = char_list(text);
    let total: usize = list.len();
    let mut tokens: Vec<String> = Vec::new();
    let mut start: usize = 0;
    let mut i: usize = 0;
    assert(tokens@.map_values(|token: String| token@) =~= Seq::<Seq<char>>::empty());
    assert(text@.subrange(0, 0) =~= Seq::<char>::empty());
    while i < total
        invariant
            start <= i <= total,
            total == text@.len(),
            list@ == text@,
            scanned(text@, i as int) == (
                tokens@.map_values(|token: String| token@),
                text@.subrange(start as int, i as int),
            ),
        decreases total - i,
    {
        if number_char(list[i]) {
            assert(text@.subrange(start as int, i as int).push(text@[i as int]) =~= text@.subrange(
                start as int,
                i + 1,
            ));
        } else {
            let run = text.substring_char(start, i);
            let ghost before = tokens@;
            if candidate(run) {
                tokens.push(String::from_str(run));
                assert(tokens@.map_values(|token: String| token@) =~= before.map_values(
                    |token: String| token@,
                ).push(run@));
            }
            start = i + 1;
            assert(text@.subrange(start as int, i + 1) =~= Seq::<char>::empty());
        }
        i += 1;
    }
    let run = text.substring_char(start, total);
    let ghost before = tokens@;
    if candidate(run) {
        tokens.push(String::from_str(run));
        assert(tokens@.map_values(|token: String| token@) =~= before.map_values(
            |token: String| token@,
        ).push(run@));
    }
    tokens
}

/// First finite number at or behind `from`.
pub open spec fn finite_from(values: Seq<Option<Score>>, from: int) -> Option<Score>
    decreases values.len() - from,
{
    if from < 0 || from >= values.len() {
        None
    } else if values[from] matches Some(value) && value.finite() {
        values[from]
    } else {
        finite_from(values, from + 1)
    }
}

/// Lists the parts of a command's output that may be numbers.
pub fn output_tokens(stdout: &[u8]) -> (tokens: Vec<String>)
    ensures
        tokens@.map_values(|token: String| token@) == number_tokens(lossy_text(stdout@)),
{
    let text = from_utf8_lossy(stdout);
    float_tokens(text.as_str())
}

/// Picks the first finite number among what the tokens of a command's output read as.
pub fn parse_first_float(values: &Vec<Option<Score>>) -> (result: Result<Score>)
    ensures
        match result {
            Ok(value) => finite_from(values@, 0) == Some(value),
            Err(error) => finite_from(values@, 0) is None && error@ == ErrorView::UnsupportedInput(
                "external metric stdout did not contain a finite float"@,
            ),
        },
{
    let mut i: usize = 0;
    while i < values.len()
        invariant
            i <= values.len(),
            finite_from(values@, 0) == finite_from(values@, i as int),
        decreases values.len() - i,
    {
        if let Some(value) = values[i] {
            if value.is_finite() {
                return Ok(value);
            }
        }
        i += 1;
    }
    Err(Error::unsupported("external metric stdout did not contain a finite float"))
}

/// Captured result of an external metric command.
#[derive(Debug)]
pub struct ExternalMetricRun {
    /// Program that was executed.
    pub program: String,
    /// Expanded arguments.
    pub args: Vec<String>,
    /// Process status code when available.
    pub status_code: Option<i32>,
    /// Captured stdout.
    pub stdout: String,
    /// Captured stderr.
    pub stderr: String,
    /// Parsed metric output when requested.
    pub metric: Option<MetricOutput>,
}

/// What a finished process left behind.
#[derive(Debug)]
pub struct ExternalMetricExit {
    /// Whether the process reported success.
    pub success: bool,
    /// Exit status as text.
    pub status: String,
    /// Process status code when available.
    pub status_code: Option<i32>,
    /// Captured stdout.
    pub stdout: Vec<u8>,
    /// Captured stderr.
    pub stderr: Vec<u8>,
}

impl ExternalMetricCommand {
    /// Creates a command that parses the first float from stdout.
    pub fn first_float(
        program: String,
        args: Vec<String>,
        metric_name: String,
        unit: String,
        direction: Direction,
    ) -> (command: Self)
        ensures
            command == (ExternalMetricCommand {
                program,
                args,
                metric_name,
                unit,
                direction,
                parser: ExternalMetricParser::FirstFloat,
            }),
    {
        Self {
            program,
            args,
            metric_name,
            unit,
            direction,
            parser: ExternalMetricParser::FirstFloat,
        }
    }

    /// Builds concrete command arguments for a reference/distorted pair.
    pub fn expanded_args(&self, reference: &str, distorted: &str) -> (args: Vec<String>)
        ensures
            args@.len() == self.args@.len(),
            forall|i: int|
                0 <= i < args@.len() ==> (#[trigger] args@[i])@ == expanded(
                    self.args@[i]@,
                    reference@,
                    distorted@,
                ),
    {
        proof {
            reveal_strlit("{reference}");
            reveal_strlit("{distorted}");
        }
        let mut args: Vec<String> = Vec::with_capacity(self.args.len());
        let mut i: usize = 0;
        while i < self.args.len()
            invariant
                i <= self.args.len(),
                "{reference}"@.len() > 0,
                "{distorted}"@.len() > 0,
                args@.len() == i,
                forall|j: int|
                    0 <= j < i ==> (#[trigger] args@[j])@ == expanded(
                        self.args@[j]@,
                        reference@,
                        distorted@,
                    ),
            decreases self.args.len() - i,
        {
            let first = replace(self.args[i].as_str(), "{reference}", reference);
            args.push(replace(first.as_str(), "{distorted}", distorted));
            i += 1;
        }
        args
    }

    /// Interprets a finished process. `values` holds what the tokens found by
    /// [`float_tokens`] in its stdout read as.
    pub fn finish(&self, args: Vec<String>, exit: ExternalMetricExit, values: &Vec<Option<Score>>) -> (result:
        Result<ExternalMetricRun>)
        ensures
            match result {
                Ok(run) => {
                    &&& exit.success
                    &&& run.program@ == self.program@
                    &&& run.args == args
                    &&& run.status_code == exit.status_code
                    &&& run.stdout@ == lossy_text(exit.stdout@)
                    &&& run.stderr@ == lossy_text(exit.stderr@)
                    &&& match self.parser {
                        ExternalMetricParser::FirstFloat => run.metric matches Some(metric)
                            && finite_from(values@, 0) == Some(metric.score) && metric.name@
                            == self.metric_name@ && metric.unit@ == self.unit@ && metric.direction
                            == self.direction && (forall|detail: Seq<char>|
                            #[trigger] metric.details.spec_get(detail) is None),
                        ExternalMetricParser::RawOnly => run.metric is None,
                    }
                },
                Err(error) => if !exit.success {
                    error@ == (ErrorView::ProcessFailed {
                        program: self.program@,
                        status: exit.status@,
                        stderr: lossy_text(exit.stderr@),
                    })
                } else {
                    self.parser is FirstFloat && finite_from(values@, 0) is None && error@
                        == ErrorView::UnsupportedInput(
                        "external metric stdout did not contain a finite float"@,
                    )
                },
            },
    {
        if !exit.success {
            return Err(
                Error::ProcessFailed {
                    program: self.program.clone(),
                    status: exit.status,
                    stderr: from_utf8_lossy(exit.stderr.as_slice()),
                },
            );
        }
        let metric = match self.parser {
            ExternalMetricParser::FirstFloat => match parse_first_float(values) {
                Ok(score) => Some(
                    MetricOutput::new(
                        self.metric_name.clone(),
                        score,
                        self.unit.clone(),
                        self.direction,
                    ),
                ),
                Err(error) => return Err(error),
            },
            ExternalMetricParser::RawOnly => None,
        };
        Ok(
            ExternalMetricRun {
                program: self.program.clone(),
                args,
                status_code: exit.status_code,
                stdout: from_utf8_lossy(exit.stdout.as_slice()),
                stderr: from_utf8_lossy(exit.stderr.as_slice()),
                metric,
            },
        )
    }
}

/// Tokens are cut at every character that no number holds: what stands before such a
/// character and what stands behind it give their tokens one after the other.
pub proof fn law_tokens_end_at_other_characters(before: Seq<char>, c: char, behind: Seq<char>)
    requires
        !('0' <= c && c <= '9'),
        c != '-' && c != '+' && c != '.' && c != 'e' && c != 'E',
    ensures
        number_tokens(before.push(c) + behind) == number_tokens(before) + number_tokens(behind),
{
    let text = before.push(c) + behind;
    let cut = before.len() as int + 1;
    lemma_scanned_prefix(text, before, before.len() as int);
    lemma_scanned_behind(text, behind, cut, behind.len() as int);
    let (tokens, current) = scanned(behind, behind.len() as int);
    let first = number_tokens(before);
    assert(scanned(text, cut) == (first, Seq::<char>::empty()));
    if is_candidate(current) {
        assert((first + tokens).push(current) =~= first + tokens.push(current));
    }
}

proof fn lemma_scanned_prefix(a: Seq<char>, b: Seq<char>, n: int)
    requires
        n <= a.len(),
        n <= b.len(),
        forall|i: int| 0 <= i < n ==> #[trigger] a[i] == b[i],
    ensures
        scanned(a, n) == scanned(b, n),
    decreases n,
{
    if n > 0 {
        lemma_scanned_prefix(a, b, n - 1);
        assert(a[n - 1] == b[n - 1]);
    }
}

/// Behind a place where no token is open, scanning starts afresh.
proof fn lemma_scanned_behind(text: Seq<char>, rest: Seq<char>, cut: int, n: int)
    requires
        0 <= n <= rest.len(),
        0 < cut,
        cut + rest.len() <= text.len(),
        scanned(text, cut).1 == Seq::<char>::empty(),
        forall|i: int| 0 <= i < rest.len() ==> text[cut + i] == #[trigger] rest[i],
    ensures
        scanned(text, cut + n) == (
            scanned(text, cut).0 + scanned(rest, n).0,
            scanned(rest, n).1,
        ),
    decreases n,
{
    let first = scanned(text, cut).0;
    if n > 0 {
        lemma_scanned_behind(text, rest, cut, n - 1);
        let (tokens, current) = scanned(rest, n - 1);
        assert(text[cut + (n - 1)] == rest[n - 1]);
        assert((first + tokens).push(current) =~= first + tokens.push(current));
    } else {
        assert(first + Seq::<Seq<char>>::empty() =~= first);
    }
}

/// A text of nothing but digits, signs, dots and exponent letters is one token, unless it
/// is empty or a sign or dot alone.
pub proof fn law_a_run_is_one_token(text: Seq<char>)
    requires
        forall|i: int|
            0 <= i < text.len() ==> ('0' <= #[trigger] text[i] && text[i] <= '9') || text[i] == '-'
                || text[i] == '+' || text[i] == '.' || text[i] == 'e' || text[i] == 'E',
    ensures
        number_tokens(text) == if text.len() == 0 || (text.len() == 1 && (text[0] == '+'
            || text[0] == '-' || text[0] == '.')) {
            Seq::<Seq<char>>::empty()
        } else {
            seq![text]
        },
{
    lemma_run_stays_open(text, text.len() as int);
    assert(text.take(text.len() as int) =~= text);
    if text.len() == 1 {
        assert(text[0] == '+' ==> text =~= seq!['+']);
        assert(text[0] == '-' ==> text =~= seq!['-']);
        assert(text[0] == '.' ==> text =~= seq!['.']);
    }
    assert(seq!['+'][0] == '+' && seq!['-'][0] == '-' && seq!['.'][0] == '.');
    assert(Seq::<Seq<char>>::empty().push(text) =~= seq![text]);
}

proof fn lemma_run_stays_open(text: Seq<char>, n: int)
    requires
        0 <= n <= text.len(),
        forall|i: int| 0 <= i < text.len() ==> is_number_char(#[trigger] text[i]),
    ensures
        scanned(text, n) == (Seq::<Seq<char>>::empty(), text.take(n)),
    decreases n,
{
    if n > 0 {
        lemma_run_stays_open(text, n - 1);
        assert(is_number_char(text[n - 1]));
        assert(text.take(n) =~= text.take(n - 1).push(text[n - 1]));
    } else {
        assert(text.take(0) =~= Seq::<char>::empty());
    }
}

/// The score is the first finite value: what could not be read and what is infinite or
/// not a number before it is passed over, and what stands behind it does not matter.
pub proof fn law_first_finite_value_counts(values: Seq<Option<Score>>, i: int)
    requires
        0 <= i <= values.len(),
        forall|j: int|
            0 <= j < i ==> ((#[trigger] values[j]) matches Some(value) ==> value.bits
                % 0x8000_0000_0000_0000 >= 0x7ff0_0000_0000_0000),
        i < values.len() ==> (values[i] matches Some(value) && value.bits % 0x8000_0000_0000_0000
            < 0x7ff0_0000_0000_0000),
    ensures
        finite_from(values, 0) == if i < values.len() {
            values[i]
        } else {
            None
        },
{
    lemma_first_finite(values, i, 0);
}

proof fn lemma_first_finite(values: Seq<Option<Score>>, i: int, from: int)
    requires
        0 <= from <= i <= values.len(),
        forall|j: int|
            from <= j < i ==> ((#[trigger] values[j]) matches Some(value) ==> value.bits
                % 0x8000_0000_0000_0000 >= 0x7ff0_0000_0000_0000),
        i < values.len() ==> (values[i] matches Some(value) && value.bits % 0x8000_0000_0000_0000
            < 0x7ff0_0000_0000_0000),
    ensures
        finite_from(values, from) == if i < values.len() {
            values[i]
        } else {
            None
        },
    decreases i - from,
{
    if from < values.len() {
        if let Some(value) = values[from] {
            law_scores_follow_their_bits(value, value);
        }
    }
    if from < i {
        lemma_first_finite(values, i, from + 1);
    }
}

/// A pattern that starts with a brace is replaced where it stands behind a text without
/// braces.
proof fn lemma_placeholder(before: Seq<char>, pattern: Seq<char>, behind: Seq<char>, with: Seq<char>)
    requires
        pattern.len() > 0,
        pattern[0] == '{',
        !before.contains('{'),
    ensures
        replaced(before + pattern + behind, pattern, with) == before + with + replaced(
            behind,
            pattern,
            with,
        ),
{
    let text = before + pattern + behind;
    let at = before.len() as int;
    assert(text.subrange(at, at + pattern.len()) =~= pattern);
    assert forall|j: int| 0 <= j < at && j + pattern.len() <= text.len() implies #[trigger] text.subrange(
        j,
        j + pattern.len(),
    ) != pattern by {
        assert(text.subrange(j, j + pattern.len())[0] == before[j]);
        assert(before.contains(before[j]));
    }
    law_replacing_goes_left_to_right(text, pattern, with, at);
    assert(text.take(at) =~= before);
    assert(text.skip(at + pattern.len()) =~= behind);
}

/// A pattern that starts with a brace is found nowhere in a text where no brace stands
/// before the pattern's second character.
proof fn lemma_no_placeholder(text: Seq<char>, pattern: Seq<char>, with: Seq<char>)
    requires
        pattern.len() > 1,
        pattern[0] == '{',
        forall|j: int|
            0 <= j < text.len() - 1 && #[trigger] text[j] == '{' ==> text[j + 1] != pattern[1],
    ensures
        replaced(text, pattern, with) == text,
{
    assert forall|j: int| 0 <= j < text.len() && j + pattern.len() <= text.len() implies #[trigger] text.subrange(
        j,
        j + pattern.len(),
    ) != pattern by {
        let part = text.subrange(j, j + pattern.len());
        assert(part[0] == text[j] && part[1] == text[j + 1]);
    }
    law_replacing_goes_left_to_right(text, pattern, with, text.len() as int);
}

/// Arguments are filled in where the two placeholders stand, each with its own path, and
/// are kept as they are everywhere else.
pub proof fn law_placeholders_are_filled_in(
    a: Seq<char>,
    b: Seq<char>,
    c: Seq<char>,
    reference: Seq<char>,
    distorted: Seq<char>,
)
    requires
        !a.contains('{') && !b.contains('{') && !c.contains('{'),
        !reference.contains('{'),
    ensures
        expanded(a, reference, distorted) == a,
        expanded(a + "{reference}"@ + b, reference, distorted) == a + reference + b,
        expanded(a + "{distorted}"@ + b, reference, distorted) == a + distorted + b,
        expanded(a + "{reference}"@ + (b + "{distorted}"@ + c), reference, distorted) == a
            + reference + (b + distorted + c),
        expanded(a + "{distorted}"@ + (b + "{reference}"@ + c), reference, distorted) == a
            + distorted + (b + reference + c),
{
    reveal_strlit("{reference}");
    reveal_strlit("{distorted}");
    let first = "{reference}"@;
    let second = "{distorted}"@;
    assert(first[0] == '{' && first[1] == 'r' && second[0] == '{' && second[1] == 'd');
    lemma_unbraced(a, first, reference);
    lemma_unbraced(a, second, distorted);
    lemma_unbraced(b, first, reference);
    lemma_unbraced(b, second, distorted);
    lemma_unbraced(c, first, reference);
    lemma_unbraced(c, second, distorted);
    // One placeholder.
    lemma_placeholder(a, first, b, reference);
    let plain = a + reference + b;
    assert forall|j: int| 0 <= j < plain.len() implies #[trigger] plain[j] != '{' by {
        if j < a.len() {
            assert(a.contains(a[j]));
        } else if j < a.len() + reference.len() {
            assert(reference.contains(reference[j - a.len()]));
        } else {
            assert(b.contains(b[j - a.len() - reference.len()]));
        }
    }
    lemma_unbraced(plain, second, distorted);
    let other = a + second + b;
    lemma_only_brace(a, second, b);
    lemma_no_placeholder(other, first, reference);
    lemma_placeholder(a, second, b, distorted);
    // Reference before distorted.
    let tail = b + second + c;
    lemma_only_brace(b, second, c);
    lemma_no_placeholder(tail, first, reference);
    lemma_placeholder(a, first, tail, reference);
    assert(a + reference + tail =~= plain + second + c);
    lemma_placeholder(plain, second, c, distorted);
    assert(plain + distorted + c =~= a + reference + (b + distorted + c));
    // Distorted before reference.
    let head = a + second + b;
    lemma_placeholder(b, first, c, reference);
    lemma_reference_behind_distorted(a, b, c, reference);
    let filled = b + reference + c;
    assert forall|j: int| 0 <= j < filled.len() implies #[trigger] filled[j] != '{' by {
        if j < b.len() {
            assert(b.contains(b[j]));
        } else if j < b.len() + reference.len() {
            assert(reference.contains(reference[j - b.len()]));
        } else {
            assert(c.contains(c[j - b.len() - reference.len()]));
        }
    }
    lemma_unbraced(filled, second, distorted);
    lemma_placeholder(a, second, filled, distorted);
}

proof fn lemma_unbraced(text: Seq<char>, pattern: Seq<char>, with: Seq<char>)
    requires
        !text.contains('{'),
        pattern.len() > 1,
        pattern[0] == '{',
    ensures
        replaced(text, pattern, with) == text,
{
    assert forall|j: int| 0 <= j < text.len() - 1 && #[trigger] text[j] == '{' implies text[j + 1]
        != pattern[1] by {
        assert(text.contains(text[j]));
    }
    lemma_no_placeholder(text, pattern, with);
}

/// Around a placeholder for the distorted image no brace stands before an `r`.
proof fn lemma_only_brace(a: Seq<char>, token: Seq<char>, b: Seq<char>)
    requires
        !a.contains('{') && !b.contains('{'),
        token == "{distorted}"@,
    ensures
        forall|j: int|
            0 <= j < (a + token + b).len() - 1 && #[trigger] (a + token + b)[j] == '{' ==> (a
                + token + b)[j + 1] == 'd',
{
    reveal_strlit("{distorted}");
    let text = a + token + b;
    assert forall|j: int| 0 <= j < text.len() - 1 && #[trigger] text[j] == '{' implies text[j + 1]
        == 'd' by {
        if j < a.len() {
            assert(a.contains(a[j]));
        } else if j < a.len() + token.len() {
            assert(text[j] == token[j - a.len()]);
            assert(j == a.len());
            assert(text[j + 1] == token[1]);
        } else {
            assert(b.contains(b[j - a.len() - token.len()]));
        }
    }
}

proof fn lemma_reference_behind_distorted(
    a: Seq<char>,
    b: Seq<char>,
    c: Seq<char>,
    reference: Seq<char>,
)
    requires
        !a.contains('{') && !b.contains('{') && !c.contains('{'),
    ensures
        replaced(a + "{distorted}"@ + (b + "{reference}"@ + c), "{reference}"@, reference) == a
            + "{distorted}"@ + (b + reference + c),
{
    reveal_strlit("{reference}");
    reveal_strlit("{distorted}");
    let first = "{reference}"@;
    let second = "{distorted}"@;
    let text = a + second + (b + first + c);
    let head = a + second + b;
    let at = head.len() as int;
    assert(text =~= head + first + c);
    assert(text.subrange(at, at + first.len()) =~= first);
    lemma_only_brace(a, second, b);
    assert forall|j: int| 0 <= j < at && j + first.len() <= text.len() implies #[trigger] text.subrange(
        j,
        j + first.len(),
    ) != first by {
        let part = text.subrange(j, j + first.len());
        assert(part[0] == text[j] && part[1] == text[j + 1]);
        assert(text[j] == head[j]);
        if part == first {
            assert(first[0] == '{' && first[1] == 'r');
            if j < at - 1 {
                assert(head[j + 1] == 'd');
                assert(text[j + 1] == head[j + 1]);
            } else {
                assert(text[j + 1] == first[0]);
            }
        }
    }
    law_replacing_goes_left_to_right(text, first, reference, at);
    assert(text.take(at) =~= head);
    assert(text.skip(at + first.len()) =~= c);
    lemma_unbraced(c, first, reference);
    assert(head + reference + c =~= a + second + (b + reference + c));
}

} // verus!
