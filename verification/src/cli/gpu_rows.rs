//! Table of a GPU comparison.

use crate::cli::render::{execution_name, GpuCliComparison, GpuCliReport, GpuRun};
use crate::cli::report::{direction_name, direction_text};
use crate::cli::rows::{cell_models, cells_of, entry_models, CellModel};
use crate::cli::table::row_texts;
use crate::gpu::GpuExecution;
use crate::text::texts;
use vstd::prelude::*;

verus! {

/// Row of one metric of a GPU comparison.
pub open spec fn gpu_fields(
    reference: Seq<char>,
    candidate: Seq<char>,
    run: GpuRun,
    cell: CellModel,
) -> Seq<Seq<char>> {
    seq![
        reference,
        candidate,
        crate::cli::render::execution_text(run.execution),
        crate::cli::ranking::field_text(run.fallback_reason),
        cell.name,
        cell.plain,
        cell.unit,
        direction_text(cell.direction),
        cell.details_json,
    ]
}

/// Rows of a GPU run, if there is one.
pub open spec fn gpu_run_rows(reference: Seq<char>, candidate: Seq<char>, run: Option<GpuRun>) -> Seq<
    Seq<Seq<char>>,
> {
    match run {
        None => Seq::empty(),
        Some(run) => Seq::new(
            run.metrics@.len(),
            |i: int| gpu_fields(reference, candidate, run, entry_models(run.metrics@)[i]),
        ),
    }
}

/// Rows of the first `count` candidates.
pub open spec fn gpu_rows(
    reference: Seq<char>,
    comparisons: Seq<GpuCliComparison>,
    count: int,
) -> Seq<Seq<Seq<char>>>
    decreases count,
{
    if count <= 0 {
        Seq::empty()
    } else {
        let comparison = comparisons[count - 1];
        gpu_rows(reference, comparisons, count - 1) + gpu_run_rows(
            reference,
            comparison.candidate@,
            comparison.error_result,
        ) + gpu_run_rows(reference, comparison.candidate@, comparison.wssim_result)
    }
}

fn add_gpu_run(
    rows: &mut Vec<Vec<String>>,
    reference: &str,
    candidate: &str,
    run: &Option<GpuRun>,
)
    ensures
        row_texts(final(rows)@) == row_texts(old(rows)@) + gpu_run_rows(
            reference@,
            candidate@,
            *run,
        ),
{
    let ghost before = row_texts(rows@);
    let ghost all = gpu_run_rows(reference@, candidate@, *run);
    let used = match run {
        Some(used) => used,
        None => {
            assert(before + all =~= before);
            return;
        },
    };
    proof {
        reveal_strlit("");
        assert(""@ =~= Seq::<char>::empty());
    }
    let reason = match &used.fallback_reason {
        Some(reason) => reason.as_str(),
        None => "",
    };
    let cells = cells_of(&used.metrics);
    assert(cell_models(cells@).len() == entry_models(used.metrics@).len());
    let mut i: usize = 0;
    assert(before + all.take(0) =~= before);
    while i < cells.len()
        invariant
            i <= cells@.len(),
            *run == Some(*used),
            cells@.len() == used.metrics@.len(),
            cell_models(cells@) == entry_models(used.metrics@),
            reason@ == crate::cli::ranking::field_text(used.fallback_reason),
            all == gpu_run_rows(reference@, candidate@, *run),
            row_texts(rows@) == before + all.take(i as int),
        decreases cells@.len() - i,
    {
        let cell = &cells[i];
        assert(cell@ == cell_models(cells@)[i as int]);
        let row = vec![
            String::from_str(reference),
            String::from_str(candidate),
            String::from_str(crate::cli::render::execution_name(used.execution)),
            String::from_str(reason),
            cell.name.clone(),
            cell.plain.clone(),
            cell.unit.clone(),
            String::from_str(direction_name(cell.direction)),
            cell.details_json.clone(),
        ];
        assert(texts(row@) =~= all[i as int]);
        let ghost done = rows@;
        rows.push(row);
        assert(row_texts(rows@) =~= row_texts(done).push(texts(row@)));
        assert(before + all.take(i + 1) =~= (before + all.take(i as int)).push(all[i as int]));
        i += 1;
    }
    assert(all.take(all.len() as int) =~= all);
}

/// Columns of a GPU comparison.
pub open spec fn gpu_columns() -> Seq<Seq<char>> {
    seq![
        "reference"@,
        "candidate"@,
        "execution"@,
        "fallback_reason"@,
        "metric"@,
        "score"@,
        "unit"@,
        "direction"@,
        "details_json"@,
    ]
}

/// Header of a GPU comparison.
pub fn gpu_csv_header() -> (header: Vec<String>)
    ensures
        texts(header@) == gpu_columns(),
{
    let header = vec![
        String::from_str("reference"),
        String::from_str("candidate"),
        String::from_str("execution"),
        String::from_str("fallback_reason"),
        String::from_str("metric"),
        String::from_str("score"),
        String::from_str("unit"),
        String::from_str("direction"),
        String::from_str("details_json"),
    ];
    assert(texts(header@) =~= gpu_columns());
    header
}

/// Rows of a GPU comparison.
pub fn gpu_csv_rows(report: &GpuCliReport) -> (rows: Vec<Vec<String>>)
    ensures
        row_texts(rows@) == gpu_rows(
            report.reference@,
            report.comparisons@,
            report.comparisons@.len() as int,
        ),
{
    let mut rows: Vec<Vec<String>> = Vec::new();
    let mut i: usize = 0;
    assert(row_texts(rows@) =~= Seq::<Seq<Seq<char>>>::empty());
    while i < report.comparisons.len()
        invariant
            i <= report.comparisons@.len(),
            row_texts(rows@) == gpu_rows(report.reference@, report.comparisons@, i as int),
        decreases report.comparisons@.len() - i,
    {
        let comparison = &report.comparisons[i];
        add_gpu_run(
            &mut rows,
            report.reference.as_str(),
            comparison.candidate.as_str(),
            &comparison.error_result,
        );
        add_gpu_run(
            &mut rows,
            report.reference.as_str(),
            comparison.candidate.as_str(),
            &comparison.wssim_result,
        );
        i += 1;
    }
    rows
}

/// Every metric of both runs of every candidate has a row of its own, under the candidate
/// and the run it belongs to, and no row has another origin.
pub proof fn law_every_gpu_metric_has_a_row(
    reference: Seq<char>,
    comparisons: Seq<GpuCliComparison>,
    count: int,
    c: int,
    windowed: bool,
    m: int,
) -> (at: int)
    requires
        0 <= c < count <= comparisons.len(),
        windowed ==> comparisons[c].wssim_result is Some && 0 <= m
            < comparisons[c].wssim_result->Some_0.metrics@.len(),
        !windowed ==> comparisons[c].error_result is Some && 0 <= m
            < comparisons[c].error_result->Some_0.metrics@.len(),
    ensures
        ({
            let rows = gpu_rows(reference, comparisons, count);
            let run = if windowed {
                comparisons[c].wssim_result->Some_0
            } else {
                comparisons[c].error_result->Some_0
            };
            let entry = run.metrics@[m];
            let name = gpu_columns();
            &&& 0 <= at < rows.len()
            &&& name.len() == 9 && rows[at].len() == 9
            &&& name[0] == "reference"@ && rows[at][0] == reference
            &&& name[1] == "candidate"@ && rows[at][1] == comparisons[c].candidate@
            &&& name[2] == "execution"@ && rows[at][2] == match run.execution {
                GpuExecution::Gpu => "Gpu"@,
                GpuExecution::CpuFallback => "CpuFallback"@,
            }
            &&& name[3] == "fallback_reason"@ && (run.fallback_reason matches Some(reason)
                ==> rows[at][3] == reason@)
            &&& run.fallback_reason is None ==> rows[at][3].len() == 0
            &&& name[4] == "metric"@ && rows[at][4] == entry.output.name@
            &&& name[5] == "score"@ && rows[at][5] == entry.plain@
            &&& name[6] == "unit"@ && rows[at][6] == entry.output.unit@
            &&& name[7] == "direction"@ && rows[at][7] == direction_text(entry.output.direction)
            &&& name[8] == "details_json"@ && rows[at][8] == entry.details_json@
        }),
        gpu_rows(reference, comparisons, 0).len() == 0,
        gpu_rows(reference, comparisons, count).len() == gpu_rows(
            reference,
            comparisons,
            count - 1,
        ).len() + (match comparisons[count - 1].error_result {
            Some(run) => run.metrics@.len(),
            None => 0,
        }) + (match comparisons[count - 1].wssim_result {
            Some(run) => run.metrics@.len(),
            None => 0,
        }),
    decreases count,
{
    let before = gpu_rows(reference, comparisons, count - 1);
    let last = comparisons[count - 1];
    let errors = gpu_run_rows(reference, last.candidate@, last.error_result);
    let windows = gpu_run_rows(reference, last.candidate@, last.wssim_result);
    let rows = gpu_rows(reference, comparisons, count);
    assert(rows == before + errors + windows);
    if c == count - 1 {
        if windowed {
            let at = before.len() + errors.len() + m;
            assert(rows[at] == windows[m]);
            at
        } else {
            let at = before.len() + m;
            assert(rows[at] == errors[m]);
            at
        }
    } else {
        let at = law_every_gpu_metric_has_a_row(reference, comparisons, count - 1, c, windowed, m);
        assert(rows[at] == before[at]);
        at
    }
}

} // verus!
