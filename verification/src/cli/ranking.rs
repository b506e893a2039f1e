//! Reports of candidate suites.

use crate::cli::render::{bool_text, bool_word, extent_text, outcome_word};
use crate::cli::report::{direction_name, direction_text, MetricEntry, NumberText};
use crate::frame::Dimensions;
use crate::strings::{
    law_padding_fills_to_width, pad_left, pad_right, padded_left, padded_right,
};
use crate::text::{concat3, decimal, decimal_text, texts};
use vstd::prelude::*;

verus! {

/// A metric of a candidate with its rank and its distance from the baseline.
#[derive(Debug)]
pub struct RankedMetric {
    /// Metric result.
    pub entry: MetricEntry,
    /// Rank among the candidates.
    pub rank: Option<usize>,
    /// Distance from the baseline, with eight decimals and a sign.
    pub delta: Option<NumberText>,
}

/// One candidate of a suite.
#[derive(Debug)]
pub struct SuiteCandidate {
    /// Label.
    pub label: String,
    /// Whether it was compared and met every rule.
    pub passed: bool,
    /// Rank among the candidates.
    pub overall_rank: Option<usize>,
    /// Mean rank over the metrics, with four decimals.
    pub mean_rank: Option<NumberText>,
    /// Whether no other candidate is better everywhere.
    pub pareto_optimal: bool,
    /// Why it could not be compared.
    pub error: Option<String>,
    /// Metric results.
    pub metrics: Vec<RankedMetric>,
    /// Messages of violated absolute rules.
    pub gate_failures: Vec<String>,
    /// Messages of violated baseline rules.
    pub baseline_gate_failures: Vec<String>,
    /// Outcome of the absolute rules as JSON.
    pub gate_json: Option<String>,
    /// Outcome of the baseline rules as JSON.
    pub baseline_gate_json: Option<String>,
}

/// Report of a suite.
#[derive(Debug)]
pub struct ComparisonSuiteReport {
    /// Label of the reference.
    pub reference: Option<String>,
    /// Size of the images.
    pub dimensions: Dimensions,
    /// Whether every candidate passed.
    pub passed: bool,
    /// Metric used for the top-level rank.
    pub primary_metric: Option<String>,
    /// Label of the baseline.
    pub baseline_candidate: Option<String>,
    /// Candidates in report order.
    pub candidates: Vec<SuiteCandidate>,
}

/// A rank, or a dash.
pub open spec fn rank_text(rank: Option<usize>) -> Seq<char> {
    match rank {
        Some(rank) => decimal_text(rank as nat),
        None => "-"@,
    }
}

fn write_rank(rank: Option<usize>) -> (text: String)
    ensures
        text@ == rank_text(rank),
{
    match rank {
        Some(rank) => decimal(rank as u64),
        None => String::from_str("-"),
    }
}

/// Line of one metric of a candidate.
pub open spec fn ranked_line(metric: RankedMetric) -> Seq<char> {
    "  "@ + padded_right(metric.entry.output.name@, 24, ' ') + " "@ + padded_left(
        metric.entry.fixed@,
        14,
        ' ',
    ) + " "@ + padded_right(metric.entry.output.unit@, 18, ' ') + " rank="@ + rank_text(
        metric.rank,
    ) + (match metric.delta {
        Some(delta) => " delta="@ + delta.fixed@,
        None => Seq::empty(),
    }) + "\n"@
}

fn write_ranked(metric: &RankedMetric) -> (text: String)
    ensures
        text@ == ranked_line(*metric),
{
    let mut text = String::from_str("  ");
    text.append(pad_right(metric.entry.output.name.as_str(), 24, ' ').as_str());
    text.append(" ");
    text.append(pad_left(metric.entry.fixed.as_str(), 14, ' ').as_str());
    text.append(" ");
    text.append(pad_right(metric.entry.output.unit.as_str(), 18, ' ').as_str());
    text.append(" rank=");
    text.append(write_rank(metric.rank).as_str());
    let ghost before = text@;
    match &metric.delta {
        Some(delta) => {
            text.append(" delta=");
            text.append(delta.fixed.as_str());
            assert(text@ =~= before + (" delta="@ + delta.fixed@));
        },
        None => {
            assert(before =~= before + Seq::<char>::empty());
        },
    }
    text.append("\n");
    text
}

/// Lines of the first `count` metrics of a candidate.
pub open spec fn ranked_lines(metrics: Seq<RankedMetric>, count: int) -> Seq<char>
    decreases count,
{
    if count <= 0 {
        Seq::empty()
    } else {
        ranked_lines(metrics, count - 1) + ranked_line(metrics[count - 1])
    }
}

fn write_ranked_all(metrics: &Vec<RankedMetric>) -> (text: String)
    ensures
        text@ == ranked_lines(metrics@, metrics@.len() as int),
{
    let mut text = String::new();
    let mut i: usize = 0;
    assert(text@ =~= Seq::<char>::empty());
    while i < metrics.len()
        invariant
            i <= metrics@.len(),
            text@ == ranked_lines(metrics@, i as int),
        decreases metrics@.len() - i,
    {
        text.append(write_ranked(&metrics[i]).as_str());
        i += 1;
    }
    text
}

/// Lines of the first `count` messages.
pub open spec fn failure_lines(mark: Seq<char>, failures: Seq<String>, count: int) -> Seq<char>
    decreases count,
{
    if count <= 0 {
        Seq::empty()
    } else {
        failure_lines(mark, failures, count - 1) + mark + failures[count - 1]@ + "\n"@
    }
}

fn write_failures(mark: &str, failures: &Vec<String>) -> (text: String)
    ensures
        text@ == failure_lines(mark@, failures@, failures@.len() as int),
{
    let mut text = String::new();
    let mut i: usize = 0;
    assert(text@ =~= Seq::<char>::empty());
    while i < failures.len()
        invariant
            i <= failures@.len(),
            text@ == failure_lines(mark@, failures@, i as int),
        decreases failures@.len() - i,
    {
        text.append(mark);
        text.append(failures[i].as_str());
        text.append("\n");
        i += 1;
    }
    text
}

/// Lines of one candidate; one that could not be compared shows only its error.
pub open spec fn candidate_lines(candidate: SuiteCandidate) -> Seq<char> {
    let head = "\n[rank "@ + rank_text(candidate.overall_rank) + "] "@ + candidate.label@
        + "  status="@ + outcome_word(candidate.passed) + "  pareto="@ + bool_text(
        candidate.pareto_optimal,
    ) + "  mean_rank="@ + (match candidate.mean_rank {
        Some(rank) => rank.fixed@,
        None => "-"@,
    }) + "\n"@;
    match candidate.error {
        Some(error) => head + "error     : "@ + error@ + "\n"@,
        None => head + ranked_lines(candidate.metrics@, candidate.metrics@.len() as int)
            + failure_lines(
            "  gate failure: "@,
            candidate.gate_failures@,
            candidate.gate_failures@.len() as int,
        ) + failure_lines(
            "  baseline gate failure: "@,
            candidate.baseline_gate_failures@,
            candidate.baseline_gate_failures@.len() as int,
        ),
    }
}

fn write_candidate(candidate: &SuiteCandidate) -> (text: String)
    ensures
        text@ == candidate_lines(*candidate),
{
    let status = if candidate.passed {
        "passed"
    } else {
        "failed"
    };
    let mean = match &candidate.mean_rank {
        Some(rank) => rank.fixed.as_str(),
        None => "-",
    };
    let mut text = concat3("\n[rank ", write_rank(candidate.overall_rank).as_str(), "] ");
    text.append(candidate.label.as_str());
    text.append("  status=");
    text.append(status);
    text.append("  pareto=");
    text.append(bool_word(candidate.pareto_optimal));
    text.append("  mean_rank=");
    text.append(mean);
    text.append("\n");
    if let Some(error) = &candidate.error {
        text.append("error     : ");
        text.append(error.as_str());
        text.append("\n");
        return text;
    }
    text.append(write_ranked_all(&candidate.metrics).as_str());
    text.append(write_failures("  gate failure: ", &candidate.gate_failures).as_str());
    text.append(
        write_failures("  baseline gate failure: ", &candidate.baseline_gate_failures).as_str(),
    );
    text
}

/// Lines of the first `count` candidates.
pub open spec fn candidates_text(candidates: Seq<SuiteCandidate>, count: int) -> Seq<char>
    decreases count,
{
    if count <= 0 {
        Seq::empty()
    } else {
        candidates_text(candidates, count - 1) + candidate_lines(candidates[count - 1])
    }
}

/// Lines above the candidates.
pub open spec fn suite_head(report: ComparisonSuiteReport) -> Seq<char> {
    let head = "reference : "@ + (match report.reference {
        Some(reference) => reference@,
        None => "<none>"@,
    }) + "\n"@ + "size      : "@ + extent_text(report.dimensions) + "\n"@ + "suite     : "@
        + outcome_word(report.passed) + " ("@ + decimal_text(report.candidates@.len())
        + " candidates)\n"@;
    let primary = match report.primary_metric {
        Some(metric) => head + "primary   : "@ + metric@ + "\n"@,
        None => head + "primary   : consensus mean rank\n"@,
    };
    match report.baseline_candidate {
        Some(baseline) => primary + "baseline  : "@ + baseline@ + "\n"@,
        None => primary,
    }
}

/// Text of a suite report.
pub open spec fn suite_text(report: ComparisonSuiteReport) -> Seq<char> {
    suite_head(report) + candidates_text(report.candidates@, report.candidates@.len() as int)
}

fn write_suite_head(report: &ComparisonSuiteReport) -> (text: String)
    ensures
        text@ == suite_head(*report),
{
    let reference = match &report.reference {
        Some(reference) => reference.as_str(),
        None => "<none>",
    };
    let size = concat3(
        decimal(report.dimensions.width as u64).as_str(),
        "x",
        decimal(report.dimensions.height as u64).as_str(),
    );
    let mut text = concat3("reference : ", reference, "\n");
    text.append("size      : ");
    text.append(size.as_str());
    text.append("\n");
    text.append("suite     : ");
    if report.passed {
        text.append("passed");
    } else {
        text.append("failed");
    }
    text.append(" (");
    text.append(decimal(report.candidates.len() as u64).as_str());
    text.append(" candidates)\n");
    match &report.primary_metric {
        Some(metric) => {
            text.append("primary   : ");
            text.append(metric.as_str());
            text.append("\n");
        },
        None => text.append("primary   : consensus mean rank\n"),
    }
    if let Some(baseline) = &report.baseline_candidate {
        text.append("baseline  : ");
        text.append(baseline.as_str());
        text.append("\n");
    }
    text
}

/// Writes a suite report.
pub fn render_suite_text(report: &ComparisonSuiteReport) -> (text: String)
    ensures
        text@ == suite_text(*report),
{
    let mut lines = String::new();
    let mut i: usize = 0;
    assert(lines@ =~= Seq::<char>::empty());
    while i < report.candidates.len()
        invariant
            i <= report.candidates@.len(),
            lines@ == candidates_text(report.candidates@, i as int),
        decreases report.candidates@.len() - i,
    {
        lines.append(write_candidate(&report.candidates[i]).as_str());
        i += 1;
    }
    let mut text = write_suite_head(report);
    text.append(lines.as_str());
    text
}

/// A text, or nothing.
pub open spec fn field_text(value: Option<String>) -> Seq<char> {
    match value {
        Some(text) => text@,
        None => Seq::empty(),
    }
}

fn write_field(value: &Option<String>) -> (text: String)
    ensures
        text@ == field_text(*value),
{
    match value {
        Some(text) => text.clone(),
        None => {
            let text = String::new();
            assert(text@ =~= Seq::<char>::empty());
            text
        },
    }
}

/// A rank, or nothing.
pub open spec fn rank_field(rank: Option<usize>) -> Seq<char> {
    match rank {
        Some(rank) => decimal_text(rank as nat),
        None => Seq::empty(),
    }
}

fn write_rank_field(rank: Option<usize>) -> (text: String)
    ensures
        text@ == rank_field(rank),
{
    match rank {
        Some(rank) => decimal(rank as u64),
        None => {
            let text = String::new();
            assert(text@ =~= Seq::<char>::empty());
            text
        },
    }
}

/// Shortest text of a number, or nothing.
pub open spec fn number_field(value: Option<NumberText>) -> Seq<char> {
    match value {
        Some(number) => number.plain@,
        None => Seq::empty(),
    }
}

fn write_number_field(value: &Option<NumberText>) -> (text: String)
    ensures
        text@ == number_field(*value),
{
    match value {
        Some(number) => number.plain.clone(),
        None => {
            let text = String::new();
            assert(text@ =~= Seq::<char>::empty());
            text
        },
    }
}

/// Columns of a suite report.
pub open spec fn suite_columns() -> Seq<Seq<char>> {
    seq![
        "reference"@,
        "candidate"@,
        "candidate_passed"@,
        "overall_rank"@,
        "mean_rank"@,
        "pareto_optimal"@,
        "error"@,
        "gate_json"@,
        "baseline_gate_json"@,
        "metric"@,
        "score"@,
        "unit"@,
        "direction"@,
        "metric_rank"@,
        "baseline_delta"@,
        "details_json"@,
    ]
}

/// Header of a suite report.
pub fn suite_csv_header() -> (header: Vec<String>)
    ensures
        texts(header@) == suite_columns(),
{
    let header = vec![
        String::from_str("reference"),
        String::from_str("candidate"),
        String::from_str("candidate_passed"),
        String::from_str("overall_rank"),
        String::from_str("mean_rank"),
        String::from_str("pareto_optimal"),
        String::from_str("error"),
        String::from_str("gate_json"),
        String::from_str("baseline_gate_json"),
        String::from_str("metric"),
        String::from_str("score"),
        String::from_str("unit"),
        String::from_str("direction"),
        String::from_str("metric_rank"),
        String::from_str("baseline_delta"),
        String::from_str("details_json"),
    ];
    assert(texts(header@) =~= suite_columns());
    header
}

/// Fields that all rows of a candidate share.
pub open spec fn candidate_fields(reference: Seq<char>, candidate: SuiteCandidate) -> Seq<Seq<char>> {
    seq![
        reference,
        candidate.label@,
        bool_text(candidate.passed),
        rank_field(candidate.overall_rank),
        number_field(candidate.mean_rank),
        bool_text(candidate.pareto_optimal),
        field_text(candidate.error),
        field_text(candidate.gate_json),
        field_text(candidate.baseline_gate_json),
    ]
}

/// Fields of one metric of a candidate.
pub open spec fn ranked_fields(metric: RankedMetric) -> Seq<Seq<char>> {
    seq![
        metric.entry.output.name@,
        metric.entry.plain@,
        metric.entry.output.unit@,
        direction_text(metric.entry.output.direction),
        rank_field(metric.rank),
        number_field(metric.delta),
        metric.entry.details_json@,
    ]
}

/// Seven empty fields.
pub open spec fn no_metric_fields() -> Seq<Seq<char>> {
    Seq::new(7, |i: int| Seq::<char>::empty())
}

/// Rows of one candidate: one for each metric, or one without a metric.
pub open spec fn candidate_rows(reference: Seq<char>, candidate: SuiteCandidate) -> Seq<Seq<Seq<char>>> {
    if candidate.metrics@.len() == 0 {
        seq![candidate_fields(reference, candidate) + no_metric_fields()]
    } else {
        Seq::new(
            candidate.metrics@.len(),
            |i: int|
                candidate_fields(reference, candidate) + ranked_fields(candidate.metrics@[i]),
        )
    }
}

/// Rows of the first `count` candidates.
pub open spec fn suite_rows(
    reference: Seq<char>,
    candidates: Seq<SuiteCandidate>,
    count: int,
) -> Seq<Seq<Seq<char>>>
    decreases count,
{
    if count <= 0 {
        Seq::empty()
    } else {
        suite_rows(reference, candidates, count - 1) + candidate_rows(
            reference,
            candidates[count - 1],
        )
    }
}

fn shared_fields(reference: &str, candidate: &SuiteCandidate) -> (fields: Vec<String>)
    ensures
        texts(fields@) == candidate_fields(reference@, *candidate),
{
    let fields = vec![
        String::from_str(reference),
        candidate.label.clone(),
        String::from_str(bool_word(candidate.passed)),
        write_rank_field(candidate.overall_rank),
        write_number_field(&candidate.mean_rank),
        String::from_str(bool_word(candidate.pareto_optimal)),
        write_field(&candidate.error),
        write_field(&candidate.gate_json),
        write_field(&candidate.baseline_gate_json),
    ];
    assert(texts(fields@) =~= candidate_fields(reference@, *candidate));
    fields
}

fn plain_row(reference: &str, candidate: &SuiteCandidate) -> (row: Vec<String>)
    ensures
        texts(row@) == candidate_fields(reference@, *candidate) + no_metric_fields(),
{
    let mut row = shared_fields(reference, candidate);
    let ghost shared = row@;
    let mut i: usize = 0;
    assert(texts(row@) =~= texts(shared) + no_metric_fields().take(0));
    while i < 7
        invariant
            i <= 7,
            texts(row@) == texts(shared) + no_metric_fields().take(i as int),
        decreases 7 - i,
    {
        let empty = String::new();
        assert(empty@ =~= Seq::<char>::empty());
        let ghost before = row@;
        row.push(empty);
        assert(texts(row@) =~= texts(before).push(Seq::<char>::empty()));
        assert(no_metric_fields().take(i + 1) =~= no_metric_fields().take(i as int).push(
            Seq::<char>::empty(),
        ));
        i += 1;
    }
    assert(no_metric_fields().take(7) =~= no_metric_fields());
    row
}

fn ranked_row(reference: &str, candidate: &SuiteCandidate, metric: &RankedMetric) -> (row: Vec<String>)
    ensures
        texts(row@) == candidate_fields(reference@, *candidate) + ranked_fields(*metric),
{
    let mut row = shared_fields(reference, candidate);
    let ghost shared = row@;
    row.push(metric.entry.output.name.clone());
    row.push(metric.entry.plain.clone());
    row.push(metric.entry.output.unit.clone());
    row.push(String::from_str(direction_name(metric.entry.output.direction)));
    row.push(write_rank_field(metric.rank));
    row.push(write_number_field(&metric.delta));
    row.push(metric.entry.details_json.clone());
    assert(texts(row@) =~= texts(shared) + ranked_fields(*metric));
    row
}

fn rows_of_candidate(reference: &str, candidate: &SuiteCandidate) -> (rows: Vec<Vec<String>>)
    ensures
        crate::cli::table::row_texts(rows@) == candidate_rows(reference@, *candidate),
{
    let mut rows: Vec<Vec<String>> = Vec::new();
    if candidate.metrics.len() == 0 {
        rows.push(plain_row(reference, candidate));
        assert(crate::cli::table::row_texts(rows@) =~= candidate_rows(reference@, *candidate));
        return rows;
    }
    let mut i: usize = 0;
    while i < candidate.metrics.len()
        invariant
            i <= candidate.metrics@.len(),
            rows@.len() == i,
            forall|j: int|
                0 <= j < i ==> texts((#[trigger] rows@[j])@) == candidate_fields(
                    reference@,
                    *candidate,
                ) + ranked_fields(candidate.metrics@[j]),
        decreases candidate.metrics@.len() - i,
    {
        rows.push(ranked_row(reference, candidate, &candidate.metrics[i]));
        i += 1;
    }
    assert(crate::cli::table::row_texts(rows@) =~= candidate_rows(reference@, *candidate));
    rows
}

/// Rows of a suite report.
pub fn suite_csv_rows(report: &ComparisonSuiteReport) -> (rows: Vec<Vec<String>>)
    ensures
        crate::cli::table::row_texts(rows@) == suite_rows(
            field_text(report.reference),
            report.candidates@,
            report.candidates@.len() as int,
        ),
{
    let reference = write_field(&report.reference);
    let mut rows: Vec<Vec<String>> = Vec::new();
    let mut i: usize = 0;
    assert(crate::cli::table::row_texts(rows@) =~= Seq::<Seq<Seq<char>>>::empty());
    while i < report.candidates.len()
        invariant
            i <= report.candidates@.len(),
            reference@ == field_text(report.reference),
            crate::cli::table::row_texts(rows@) == suite_rows(
                field_text(report.reference),
                report.candidates@,
                i as int,
            ),
        decreases report.candidates@.len() - i,
    {
        let mut more = rows_of_candidate(reference.as_str(), &report.candidates[i]);
        let ghost before = rows@;
        let ghost added = more@;
        rows.append(&mut more);
        assert(rows@ =~= before + added);
        assert(crate::cli::table::row_texts(rows@) =~= crate::cli::table::row_texts(before)
            + crate::cli::table::row_texts(added));
        i += 1;
    }
    rows
}

/// Every column of a suite table holds what its name says, for each metric of a
/// candidate.
pub proof fn law_suite_columns_hold_what_they_name(
    reference: Seq<char>,
    candidate: SuiteCandidate,
    m: int,
)
    requires
        0 <= m < candidate.metrics@.len(),
    ensures
        ({
            let rows = candidate_rows(reference, candidate);
            let row = rows[m];
            let name = suite_columns();
            let metric = candidate.metrics@[m];
            let rank = |value: Option<usize>|
                match value {
                    Some(rank) => decimal_text(rank as nat),
                    None => Seq::<char>::empty(),
                };
            &&& rows.len() == candidate.metrics@.len()
            &&& name.len() == 16 && row.len() == 16
            &&& name[0] == "reference"@ && row[0] == reference
            &&& name[1] == "candidate"@ && row[1] == candidate.label@
            &&& name[2] == "candidate_passed"@ && row[2] == bool_text(candidate.passed)
            &&& name[3] == "overall_rank"@ && row[3] == rank(candidate.overall_rank)
            &&& name[4] == "mean_rank"@ && row[4] == number_field(candidate.mean_rank)
            &&& name[5] == "pareto_optimal"@ && row[5] == bool_text(candidate.pareto_optimal)
            &&& name[6] == "error"@ && row[6] == field_text(candidate.error)
            &&& name[7] == "gate_json"@ && row[7] == field_text(candidate.gate_json)
            &&& name[8] == "baseline_gate_json"@ && row[8] == field_text(
                candidate.baseline_gate_json,
            )
            &&& name[9] == "metric"@ && row[9] == metric.entry.output.name@
            &&& name[10] == "score"@ && row[10] == metric.entry.plain@
            &&& name[11] == "unit"@ && row[11] == metric.entry.output.unit@
            &&& name[12] == "direction"@ && row[12] == direction_text(
                metric.entry.output.direction,
            )
            &&& name[13] == "metric_rank"@ && row[13] == rank(metric.rank)
            &&& name[14] == "baseline_delta"@ && row[14] == number_field(metric.delta)
            &&& name[15] == "details_json"@ && row[15] == metric.entry.details_json@
        }),
{
}

/// Every candidate has its rows, behind those of the candidates before it: one for each
/// metric, and a single one where it has none.
pub proof fn law_every_candidate_has_rows(
    reference: Seq<char>,
    candidates: Seq<SuiteCandidate>,
    count: int,
    c: int,
) -> (at: int)
    requires
        0 <= c < count <= candidates.len(),
    ensures
        ({
            let rows = suite_rows(reference, candidates, count);
            let own = candidate_rows(reference, candidates[c]);
            &&& 0 <= at && at + own.len() <= rows.len()
            &&& rows.subrange(at, at + own.len()) == own
            &&& own.len() == if candidates[c].metrics@.len() == 0 {
                1
            } else {
                candidates[c].metrics@.len()
            }
        }),
        suite_rows(reference, candidates, count).len() == suite_rows(
            reference,
            candidates,
            count - 1,
        ).len() + candidate_rows(reference, candidates[count - 1]).len(),
        suite_rows(reference, candidates, 0).len() == 0,
    decreases count,
{
    let before = suite_rows(reference, candidates, count - 1);
    let own = candidate_rows(reference, candidates[c]);
    let rows = suite_rows(reference, candidates, count);
    if c == count - 1 {
        let at = before.len() as int;
        assert(rows.subrange(at, at + own.len()) =~= own);
        at
    } else {
        let at = law_every_candidate_has_rows(reference, candidates, count - 1, c);
        assert(rows.subrange(at, at + own.len()) =~= before.subrange(at, at + own.len()));
        at
    }
}

/// Every candidate of a suite is printed, behind the candidates before it.
pub proof fn law_every_candidate_is_printed(candidates: Seq<SuiteCandidate>, count: int, i: int) -> (at: int)
    requires
        0 <= i < count <= candidates.len(),
    ensures
        ({
            let text = candidates_text(candidates, count);
            let own = candidate_lines(candidates[i]);
            &&& 0 <= at && at + own.len() <= text.len()
            &&& text.subrange(at, at + own.len()) == own
        }),
        candidates_text(candidates, count).len() == candidates_text(candidates, count - 1).len() + candidate_lines(candidates[count - 1]).len(),
        candidates_text(candidates, 0).len() == 0,
    decreases count,
{
    let before = candidates_text(candidates, count - 1);
    let own = candidate_lines(candidates[i]);
    let text = candidates_text(candidates, count);
    if i == count - 1 {
        let at = before.len() as int;
        assert(text.subrange(at, at + own.len()) =~= own);
        at
    } else {
        let at = law_every_candidate_is_printed(candidates, count - 1, i);
        assert(text.subrange(at, at + own.len()) =~= before.subrange(at, at + own.len()));
        at
    }
}

/// Every ranked metric of a candidate has its line, behind the lines before it.
pub proof fn law_every_ranked_metric_is_printed(metrics: Seq<RankedMetric>, count: int, i: int) -> (at: int)
    requires
        0 <= i < count <= metrics.len(),
    ensures
        ({
            let text = ranked_lines(metrics, count);
            let own = ranked_line(metrics[i]);
            &&& 0 <= at && at + own.len() <= text.len()
            &&& text.subrange(at, at + own.len()) == own
        }),
        ranked_lines(metrics, count).len() == ranked_lines(metrics, count - 1).len() + ranked_line(metrics[count - 1]).len(),
        ranked_lines(metrics, 0).len() == 0,
    decreases count,
{
    let before = ranked_lines(metrics, count - 1);
    let own = ranked_line(metrics[i]);
    let text = ranked_lines(metrics, count);
    if i == count - 1 {
        let at = before.len() as int;
        assert(text.subrange(at, at + own.len()) =~= own);
        at
    } else {
        let at = law_every_ranked_metric_is_printed(metrics, count - 1, i);
        assert(text.subrange(at, at + own.len()) =~= before.subrange(at, at + own.len()));
        at
    }
}

/// A candidate without metrics, such as one that failed, has a row with its own fields and
/// nothing in the fields of a metric.
pub proof fn law_candidates_without_metrics(
    reference: Seq<char>,
    candidate: SuiteCandidate,
    i: int,
)
    requires
        candidate.metrics@.len() == 0,
        0 <= i < 16,
    ensures
        ({
            let row = candidate_rows(reference, candidate)[0];
            &&& candidate_rows(reference, candidate).len() == 1
            &&& row.len() == 16
            &&& row[0] == reference
            &&& row[1] == candidate.label@
            &&& candidate.error matches Some(error) ==> row[6] == error@
            &&& i >= 9 ==> row[i].len() == 0
        }),
        field_text(candidate.error) == match candidate.error {
            Some(error) => error@,
            None => Seq::empty(),
        },
        number_field(candidate.mean_rank) == match candidate.mean_rank {
            Some(rank) => rank.plain@,
            None => Seq::empty(),
        },
{
}

/// A ranked metric is printed with its whole name first and its rank last, before the
/// difference to the baseline where there is one.
pub proof fn law_ranked_lines_tell_rank_and_difference(metric: RankedMetric)
    ensures
        ({
            let line = ranked_line(metric);
            let name = metric.entry.output.name@;
            let rank = " rank="@ + (match metric.rank {
                Some(rank) => decimal_text(rank as nat),
                None => seq!['-'],
            });
            let tail = rank + (match metric.delta {
                Some(delta) => " delta="@ + delta.fixed@,
                None => Seq::empty(),
            }) + "\n"@;
            &&& line.len() >= 2 + name.len() + tail.len()
            &&& line.subrange(2, 2 + name.len() as int) == name
            &&& line.skip(line.len() - tail.len()) == tail
        }),
{
    reveal_strlit("  ");
    reveal_strlit("-");
    assert("-"@ =~= seq!['-']);
    let line = ranked_line(metric);
    let name = metric.entry.output.name@;
    let padded = padded_right(name, 24, ' ');
    law_padding_fills_to_width(name, 24, ' ');
    let tail = " rank="@ + rank_text(metric.rank) + (match metric.delta {
        Some(delta) => " delta="@ + delta.fixed@,
        None => Seq::empty(),
    }) + "\n"@;
    assert(line.skip(line.len() - tail.len()) =~= tail);
    assert(line.subrange(2, 2 + padded.len() as int) =~= padded);
    assert(line.subrange(2, 2 + name.len() as int) =~= padded.take(name.len() as int));
}

/// A candidate that failed is printed with its error at the end; one that did not, with
/// its ranked metrics and the failures of its gates.
pub proof fn law_candidates_end_with_their_outcome(candidate: SuiteCandidate)
    ensures
        ({
            let text = candidate_lines(candidate);
            let tail = match candidate.error {
                Some(error) => "error     : "@ + error@ + "\n"@,
                None => ranked_lines(candidate.metrics@, candidate.metrics@.len() as int)
                    + failure_lines(
                    "  gate failure: "@,
                    candidate.gate_failures@,
                    candidate.gate_failures@.len() as int,
                ) + failure_lines(
                    "  baseline gate failure: "@,
                    candidate.baseline_gate_failures@,
                    candidate.baseline_gate_failures@.len() as int,
                ),
            };
            &&& text.len() >= tail.len()
            &&& text.skip(text.len() - tail.len()) == tail
        }),
{
    let text = candidate_lines(candidate);
    match candidate.error {
        Some(error) => {
            let tail = "error     : "@ + error@ + "\n"@;
            assert(text.skip(text.len() - tail.len()) =~= tail);
        },
        None => {
            let tail = ranked_lines(candidate.metrics@, candidate.metrics@.len() as int)
                + failure_lines(
                "  gate failure: "@,
                candidate.gate_failures@,
                candidate.gate_failures@.len() as int,
            ) + failure_lines(
                "  baseline gate failure: "@,
                candidate.baseline_gate_failures@,
                candidate.baseline_gate_failures@.len() as int,
            );
            assert(text.skip(text.len() - tail.len()) =~= tail);
        },
    }
}

} // verus!
