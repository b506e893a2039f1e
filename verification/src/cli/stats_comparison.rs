//! Reports of an image comparison that come with the statistics of both images.

use crate::cli::render::{comparison_text, render_comparison_text};
use crate::cli::report::ComparisonReport;
use crate::cli::rows::{
    comparison_csv_header, comparison_csv_rows, comparison_rows, metric_columns,
};
use crate::cli::stats::{
    render_stats_text, stats_body, stats_columns, stats_csv_header, stats_csv_rows, stats_head,
    stats_rows, ImageStatsReport,
};
use crate::cli::table::{csv_document, csv_string, row_texts};
use crate::cli::CliResult;
use crate::text::{concat5, texts};
use vstd::prelude::*;

verus! {

/// An image comparison and the statistics of its two images.
#[derive(Debug)]
pub struct ImageComparisonStatsReport {
    /// The comparison.
    pub comparison: ComparisonReport,
    /// Statistics of the reference.
    pub reference: ImageStatsReport,
    /// Statistics of the distorted image.
    pub distorted: ImageStatsReport,
}

/// Writes a comparison, and below it the statistics of the reference and of the
/// distorted image, with an empty line between the parts.
pub fn render_comparison_stats_text(report: &ImageComparisonStatsReport) -> (text: String)
    ensures
        text@ == comparison_text(report.comparison) + "\n"@ + (stats_head(report.reference)
            + stats_body(report.reference)) + "\n"@ + (stats_head(report.distorted) + stats_body(
            report.distorted,
        )),
{
    concat5(
        render_comparison_text(&report.comparison).as_str(),
        "\n",
        render_stats_text(&report.reference).as_str(),
        "\n",
        render_stats_text(&report.distorted).as_str(),
    )
}

/// Rows whose texts have `width` fields have `width` fields.
proof fn lemma_row_widths(rows: Seq<Vec<String>>, width: nat)
    requires
        forall|i: int|
            0 <= i < row_texts(rows).len() ==> (#[trigger] row_texts(rows)[i]).len() == width,
    ensures
        forall|i: int| 0 <= i < rows.len() ==> (#[trigger] rows[i])@.len() == width,
{
    assert forall|i: int| 0 <= i < rows.len() implies (#[trigger] rows[i])@.len() == width by {
        assert(row_texts(rows)[i] == texts(rows[i]@));
    }
}

/// Table of the statistics of an image.
pub fn stats_csv(report: &ImageStatsReport) -> (result: CliResult<String>)
    ensures
        result matches Ok(document) && document@ == csv_document(
            stats_columns(),
            stats_rows(*report),
        ),
{
    let header = stats_csv_header();
    let rows = stats_csv_rows(report);
    proof {
        assert(texts(header@).len() == header@.len());
        lemma_row_widths(rows@, stats_columns().len());
    }
    csv_string(&header, &rows)
}

/// Table of an image comparison. `gate_json` is the outcome of the quality gate, empty if
/// there was none.
pub fn comparison_csv(report: &ComparisonReport, gate_json: &str) -> (result: CliResult<String>)
    ensures
        result matches Ok(document) && document@ == csv_document(
            metric_columns().push("gate_json"@),
            comparison_rows(*report, gate_json@),
        ),
{
    let header = comparison_csv_header();
    let rows = comparison_csv_rows(report, gate_json);
    proof {
        assert(texts(header@).len() == header@.len());
        lemma_row_widths(rows@, metric_columns().len() + 1);
    }
    csv_string(&header, &rows)
}

/// Tables of a comparison and of the statistics of both images, with an empty line between
/// them.
pub fn comparison_stats_csv(report: &ImageComparisonStatsReport, gate_json: &str) -> (result:
    CliResult<String>)
    ensures
        result matches Ok(document) && document@ == csv_document(
            metric_columns().push("gate_json"@),
            comparison_rows(report.comparison, gate_json@),
        ) + "\n"@ + csv_document(stats_columns(), stats_rows(report.reference)) + "\n"@
            + csv_document(stats_columns(), stats_rows(report.distorted)),
{
    let comparison = comparison_csv(&report.comparison, gate_json)?;
    let reference = stats_csv(&report.reference)?;
    let distorted = stats_csv(&report.distorted)?;
    Ok(
        concat5(
            comparison.as_str(),
            "\n",
            reference.as_str(),
            "\n",
            distorted.as_str(),
        ),
    )
}

} // verus!
