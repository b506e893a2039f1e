//! CSV rows of comparison reports.

use crate::cli::render::{
    AlignmentReport, FrameReport, ProbeReport, TimestampVideoComparison,
    VideoFramePairComparisonReport, VideoReport,
};
use crate::cli::report::{
    direction_name, direction_text, ComparisonReport, MetricEntry, NumberText,
};
use crate::cli::table::row_texts;
use crate::cli::video::FramePairReport;
use crate::frame::Dimensions;
use crate::metrics::{Direction, Score};
use crate::text::{decimal, decimal_text, texts};
use vstd::prelude::*;

verus! {

/// A metric as a table shows it.
#[derive(Debug)]
pub struct MetricCell {
    /// Metric name.
    pub name: String,
    /// Score.
    pub score: Score,
    /// Shortest text of the score.
    pub plain: String,
    /// Unit.
    pub unit: String,
    /// Direction.
    pub direction: Direction,
    /// Details as a JSON object.
    pub details_json: String,
}

/// A metric of a table as a mathematical value.
#[verifier::ext_equal]
pub struct CellModel {
    pub name: Seq<char>,
    pub score: Score,
    pub plain: Seq<char>,
    pub unit: Seq<char>,
    pub direction: Direction,
    pub details_json: Seq<char>,
}

impl View for MetricCell {
    type V = CellModel;

    open spec fn view(&self) -> CellModel {
        CellModel {
            name: self.name@,
            score: self.score,
            plain: self.plain@,
            unit: self.unit@,
            direction: self.direction,
            details_json: self.details_json@,
        }
    }
}

/// A metric result as a cell.
pub open spec fn entry_model(entry: MetricEntry) -> CellModel {
    CellModel {
        name: entry.output.name@,
        score: entry.output.score,
        plain: entry.plain@,
        unit: entry.output.unit@,
        direction: entry.output.direction,
        details_json: entry.details_json@,
    }
}

/// Metric results as cells.
pub open spec fn entry_models(entries: Seq<MetricEntry>) -> Seq<CellModel> {
    entries.map_values(|entry: MetricEntry| entry_model(entry))
}

/// Cells as mathematical values.
pub open spec fn cell_models(cells: Seq<MetricCell>) -> Seq<CellModel> {
    cells.map_values(|cell: MetricCell| cell@)
}

/// Takes metric results as cells.
pub fn cells_of(entries: &Vec<MetricEntry>) -> (cells: Vec<MetricCell>)
    ensures
        cell_models(cells@) == entry_models(entries@),
{
    let mut cells: Vec<MetricCell> = Vec::new();
    let mut i: usize = 0;
    while i < entries.len()
        invariant
            i <= entries@.len(),
            cells@.len() == i,
            forall|j: int| 0 <= j < i ==> (#[trigger] cells@[j])@ == entry_model(entries@[j]),
        decreases entries@.len() - i,
    {
        let entry = &entries[i];
        cells.push(
            MetricCell {
                name: entry.output.name.clone(),
                score: entry.output.score,
                plain: entry.plain.clone(),
                unit: entry.output.unit.clone(),
                direction: entry.output.direction,
                details_json: entry.details_json.clone(),
            },
        );
        i += 1;
    }
    assert(cell_models(cells@) =~= entry_models(entries@));
    cells
}

/// One alignment diagnostic as a cell.
pub open spec fn diagnostic(
    name: Seq<char>,
    number: NumberText,
    unit: Seq<char>,
    direction: Direction,
    empty_details: Seq<char>,
) -> CellModel {
    CellModel {
        name,
        score: number.value,
        plain: number.plain@,
        unit,
        direction,
        details_json: empty_details,
    }
}

/// A residual as cells: one if it is known.
pub open spec fn residual(name: Seq<char>, value: Option<NumberText>, empty_details: Seq<char>) -> Seq<
    CellModel,
> {
    match value {
        Some(number) => seq![
            diagnostic(name, number, "seconds"@, Direction::LowerIsBetter, empty_details),
        ],
        None => Seq::empty(),
    }
}

/// Diagnostics of timestamp alignment as cells.
pub open spec fn alignment_cells(alignment: AlignmentReport, empty_details: Seq<char>) -> Seq<
    CellModel,
> {
    seq![
        diagnostic(
            "alignment_planned_pairs"@,
            alignment.planned_pairs.number,
            "frames"@,
            Direction::Neutral,
            empty_details,
        ),
        diagnostic(
            "alignment_unmatched_reference_frames"@,
            alignment.unmatched_reference.number,
            "frames"@,
            Direction::LowerIsBetter,
            empty_details,
        ),
        diagnostic(
            "alignment_unmatched_distorted_frames"@,
            alignment.unmatched_distorted.number,
            "frames"@,
            Direction::LowerIsBetter,
            empty_details,
        ),
        diagnostic(
            "alignment_timestamp_scale"@,
            alignment.scale,
            "ratio"@,
            Direction::Neutral,
            empty_details,
        ),
        diagnostic(
            "alignment_timestamp_offset"@,
            alignment.offset_seconds,
            "seconds"@,
            Direction::Neutral,
            empty_details,
        ),
    ] + residual("alignment_mean_signed_residual"@, alignment.mean_signed, empty_details)
        + residual("alignment_mean_absolute_residual"@, alignment.mean_absolute, empty_details)
        + residual("alignment_rms_residual"@, alignment.rms, empty_details) + residual(
        "alignment_max_residual"@,
        alignment.maximum,
        empty_details,
    )
}

fn diagnostic_cell(
    name: &str,
    number: &NumberText,
    unit: &str,
    direction: Direction,
    empty_details: &str,
) -> (cell: MetricCell)
    ensures
        cell@ == diagnostic(name@, *number, unit@, direction, empty_details@),
{
    MetricCell {
        name: String::from_str(name),
        score: number.value,
        plain: number.plain.clone(),
        unit: String::from_str(unit),
        direction,
        details_json: String::from_str(empty_details),
    }
}

fn add_residual(
    cells: &mut Vec<MetricCell>,
    name: &str,
    value: &Option<NumberText>,
    empty_details: &str,
)
    ensures
        cell_models(final(cells)@) == cell_models(old(cells)@) + residual(
            name@,
            *value,
            empty_details@,
        ),
{
    let ghost before = cells@;
    if let Some(number) = value {
        cells.push(
            diagnostic_cell(name, number, "seconds", Direction::LowerIsBetter, empty_details),
        );
    }
    assert(cell_models(cells@) =~= cell_models(before) + residual(name@, *value, empty_details@));
}

/// Writes the diagnostics of timestamp alignment as cells. `empty_details` is the
/// JSON object without members.
pub fn alignment_diagnostics(alignment: &AlignmentReport, empty_details: &str) -> (cells: Vec<
    MetricCell,
>)
    ensures
        cell_models(cells@) == alignment_cells(*alignment, empty_details@),
{
    let mut cells = vec![
        diagnostic_cell(
            "alignment_planned_pairs",
            &alignment.planned_pairs.number,
            "frames",
            Direction::Neutral,
            empty_details,
        ),
        diagnostic_cell(
            "alignment_unmatched_reference_frames",
            &alignment.unmatched_reference.number,
            "frames",
            Direction::LowerIsBetter,
            empty_details,
        ),
        diagnostic_cell(
            "alignment_unmatched_distorted_frames",
            &alignment.unmatched_distorted.number,
            "frames",
            Direction::LowerIsBetter,
            empty_details,
        ),
        diagnostic_cell(
            "alignment_timestamp_scale",
            &alignment.scale,
            "ratio",
            Direction::Neutral,
            empty_details,
        ),
        diagnostic_cell(
            "alignment_timestamp_offset",
            &alignment.offset_seconds,
            "seconds",
            Direction::Neutral,
            empty_details,
        ),
    ];
    let ghost first = cell_models(cells@);
    assert(first =~= alignment_cells(*alignment, empty_details@).take(5));
    add_residual(
        &mut cells,
        "alignment_mean_signed_residual",
        &alignment.mean_signed,
        empty_details,
    );
    add_residual(
        &mut cells,
        "alignment_mean_absolute_residual",
        &alignment.mean_absolute,
        empty_details,
    );
    add_residual(&mut cells, "alignment_rms_residual", &alignment.rms, empty_details);
    add_residual(&mut cells, "alignment_max_residual", &alignment.maximum, empty_details);
    assert(cell_models(cells@) =~= alignment_cells(*alignment, empty_details@));
    cells
}

/// What the rows of one group of metrics share.
pub struct MetricCsvContext<'a> {
    /// Kind of report.
    pub report_kind: &'a str,
    /// Label of the reference.
    pub reference: &'a str,
    /// Label of the distorted input.
    pub distorted: &'a str,
    /// Size.
    pub dimensions: Dimensions,
    /// What the metrics are measured over.
    pub scope: &'a str,
    /// Frame index.
    pub frame_index: Option<u64>,
    /// Presentation time.
    pub pts_seconds: &'a str,
    /// Position of the pair.
    pub pair_index: Option<u64>,
    /// Frame of the reference.
    pub reference_frame_index: Option<u64>,
    /// Frame of the distorted video.
    pub distorted_frame_index: Option<u64>,
}

/// A number, or nothing.
pub open spec fn count_field(value: Option<u64>) -> Seq<char> {
    match value {
        Some(number) => decimal_text(number as nat),
        None => Seq::empty(),
    }
}

fn write_count_field(value: Option<u64>) -> (text: String)
    ensures
        text@ == count_field(value),
{
    match value {
        Some(number) => decimal(number),
        None => {
            let text = String::new();
            assert(text@ =~= Seq::<char>::empty());
            text
        },
    }
}

/// Which frames a group of metrics belongs to.
pub struct RowPlace {
    pub scope: Seq<char>,
    pub frame_index: Option<u64>,
    pub pts_seconds: Seq<char>,
    pub pair_index: Option<u64>,
    pub reference_frame_index: Option<u64>,
    pub distorted_frame_index: Option<u64>,
}

/// What a report says in each of its rows.
pub struct RowReport {
    pub report_kind: Seq<char>,
    pub reference: Seq<char>,
    pub distorted: Seq<char>,
    pub dimensions: Dimensions,
}

/// Fields that the rows of a group share.
pub open spec fn place_fields(report: RowReport, place: RowPlace) -> Seq<Seq<char>> {
    seq![
        report.report_kind,
        report.reference,
        report.distorted,
        decimal_text(report.dimensions.width as nat),
        decimal_text(report.dimensions.height as nat),
        place.scope,
        count_field(place.frame_index),
        place.pts_seconds,
        count_field(place.pair_index),
        count_field(place.reference_frame_index),
        count_field(place.distorted_frame_index),
    ]
}

/// Fields of a metric.
pub open spec fn cell_fields(cell: CellModel) -> Seq<Seq<char>> {
    seq![cell.name, cell.plain, cell.unit, direction_text(cell.direction), cell.details_json]
}

/// Rows of a group of metrics.
pub open spec fn group_rows(report: RowReport, place: RowPlace, cells: Seq<CellModel>) -> Seq<
    Seq<Seq<char>>,
> {
    Seq::new(cells.len(), |i: int| place_fields(report, place) + cell_fields(cells[i]))
}

impl<'a> MetricCsvContext<'a> {
    /// The report of this context.
    pub open spec fn row_report(self) -> RowReport {
        RowReport {
            report_kind: self.report_kind@,
            reference: self.reference@,
            distorted: self.distorted@,
            dimensions: self.dimensions,
        }
    }

    /// The place of this context.
    pub open spec fn row_place(self) -> RowPlace {
        RowPlace {
            scope: self.scope@,
            frame_index: self.frame_index,
            pts_seconds: self.pts_seconds@,
            pair_index: self.pair_index,
            reference_frame_index: self.reference_frame_index,
            distorted_frame_index: self.distorted_frame_index,
        }
    }
}

/// Columns of a metric table.
pub open spec fn metric_columns() -> Seq<Seq<char>> {
    seq![
        "report_kind"@,
        "reference"@,
        "distorted"@,
        "width"@,
        "height"@,
        "scope"@,
        "frame_index"@,
        "pts_seconds"@,
        "pair_index"@,
        "reference_frame_index"@,
        "distorted_frame_index"@,
        "metric"@,
        "score"@,
        "unit"@,
        "direction"@,
        "details_json"@,
    ]
}

/// Header of a metric table.
pub fn metric_csv_header() -> (header: Vec<String>)
    ensures
        texts(header@) == metric_columns(),
{
    let header = vec![
        String::from_str("report_kind"),
        String::from_str("reference"),
        String::from_str("distorted"),
        String::from_str("width"),
        String::from_str("height"),
        String::from_str("scope"),
        String::from_str("frame_index"),
        String::from_str("pts_seconds"),
        String::from_str("pair_index"),
        String::from_str("reference_frame_index"),
        String::from_str("distorted_frame_index"),
        String::from_str("metric"),
        String::from_str("score"),
        String::from_str("unit"),
        String::from_str("direction"),
        String::from_str("details_json"),
    ];
    assert(texts(header@) =~= metric_columns());
    header
}

/// Header of an image comparison, which ends with the outcome of the quality gate.
pub fn comparison_csv_header() -> (header: Vec<String>)
    ensures
        texts(header@) == metric_columns().push("gate_json"@),
{
    let mut header = metric_csv_header();
    let ghost before = header@;
    header.push(String::from_str("gate_json"));
    assert(texts(header@) =~= texts(before).push("gate_json"@));
    header
}

fn metric_row(ctx: &MetricCsvContext<'_>, cell: &MetricCell) -> (row: Vec<String>)
    ensures
        texts(row@) == place_fields(ctx.row_report(), ctx.row_place()) + cell_fields(cell@),
{
    let row = vec![
        String::from_str(ctx.report_kind),
        String::from_str(ctx.reference),
        String::from_str(ctx.distorted),
        decimal(ctx.dimensions.width as u64),
        decimal(ctx.dimensions.height as u64),
        String::from_str(ctx.scope),
        write_count_field(ctx.frame_index),
        String::from_str(ctx.pts_seconds),
        write_count_field(ctx.pair_index),
        write_count_field(ctx.reference_frame_index),
        write_count_field(ctx.distorted_frame_index),
        cell.name.clone(),
        cell.plain.clone(),
        cell.unit.clone(),
        String::from_str(direction_name(cell.direction)),
        cell.details_json.clone(),
    ];
    assert(texts(row@) =~= place_fields(ctx.row_report(), ctx.row_place()) + cell_fields(cell@));
    row
}

/// Rows of a group of metrics.
pub fn metric_csv_rows(ctx: &MetricCsvContext<'_>, cells: &Vec<MetricCell>) -> (rows: Vec<
    Vec<String>,
>)
    ensures
        row_texts(rows@) == group_rows(ctx.row_report(), ctx.row_place(), cell_models(cells@)),
{
    let mut rows: Vec<Vec<String>> = Vec::new();
    let mut i: usize = 0;
    while i < cells.len()
        invariant
            i <= cells@.len(),
            rows@.len() == i,
            forall|j: int|
                0 <= j < i ==> texts((#[trigger] rows@[j])@) == place_fields(
                    ctx.row_report(),
                    ctx.row_place(),
                ) + cell_fields(cells@[j]@),
        decreases cells@.len() - i,
    {
        rows.push(metric_row(ctx, &cells[i]));
        i += 1;
    }
    assert(row_texts(rows@) =~= group_rows(
        ctx.row_report(),
        ctx.row_place(),
        cell_models(cells@),
    ));
    rows
}

/// A place that is no frame.
pub open spec fn whole(scope: Seq<char>) -> RowPlace {
    RowPlace {
        scope,
        frame_index: None,
        pts_seconds: Seq::empty(),
        pair_index: None,
        reference_frame_index: None,
        distorted_frame_index: None,
    }
}

/// Rows of an image comparison.
pub open spec fn comparison_rows(report: ComparisonReport, gate_json: Seq<char>) -> Seq<
    Seq<Seq<char>>,
> {
    let base = group_rows(
        RowReport {
            report_kind: "image"@,
            reference: crate::cli::ranking::field_text(report.reference),
            distorted: crate::cli::ranking::field_text(report.distorted),
            dimensions: report.dimensions,
        },
        whole("image"@),
        entry_models(report.metrics@),
    );
    Seq::new(base.len(), |i: int| base[i].push(gate_json))
}

/// Rows of an image comparison. `gate_json` is the outcome of the quality gate, empty if
/// there was none.
pub fn comparison_csv_rows(report: &ComparisonReport, gate_json: &str) -> (rows: Vec<Vec<String>>)
    ensures
        row_texts(rows@) == comparison_rows(*report, gate_json@),
{
    proof {
        reveal_strlit("");
        assert(""@ =~= Seq::<char>::empty());
    }
    let reference = match &report.reference {
        Some(label) => label.as_str(),
        None => "",
    };
    let distorted = match &report.distorted {
        Some(label) => label.as_str(),
        None => "",
    };
    let ctx = MetricCsvContext {
        report_kind: "image",
        reference,
        distorted,
        dimensions: report.dimensions,
        scope: "image",
        frame_index: None,
        pts_seconds: "",
        pair_index: None,
        reference_frame_index: None,
        distorted_frame_index: None,
    };
    let base = metric_csv_rows(&ctx, &cells_of(&report.metrics));
    let ghost expected = row_texts(base@);
    let mut left = base;
    let mut rows: Vec<Vec<String>> = Vec::new();
    let total: usize = left.len();
    let mut i: usize = 0;
    assert(expected.skip(0) =~= expected);
    while i < total
        invariant
            i <= total,
            total == expected.len(),
            left@.len() == total - i,
            row_texts(left@) == expected.skip(i as int),
            rows@.len() == i,
            forall|j: int|
                0 <= j < i ==> texts((#[trigger] rows@[j])@) == expected[j].push(gate_json@),
        decreases total - i,
    {
        let mut row = left.remove(0);
        let ghost before = row@;
        assert(texts(row@) == expected[i as int]) by {
            assert(expected.skip(i as int)[0] == expected[i as int]);
        }
        row.push(String::from_str(gate_json));
        assert(texts(row@) =~= texts(before).push(gate_json@));
        rows.push(row);
        assert(row_texts(left@) =~= expected.skip(i + 1)) by {
            assert forall|j: int| 0 <= j < left@.len() implies row_texts(left@)[j]
                == expected.skip(i + 1)[j] by {
                assert(expected.skip(i as int)[j + 1] == expected[i + 1 + j]);
            }
        }
        i += 1;
    }
    assert(row_texts(rows@) =~= comparison_rows(*report, gate_json@));
    rows
}

/// Place of a frame.
pub open spec fn frame_place(frame: FrameReport) -> RowPlace {
    RowPlace {
        scope: "frame"@,
        frame_index: Some(frame.frame_index),
        pts_seconds: crate::cli::ranking::number_field(frame.pts_seconds),
        pair_index: None,
        reference_frame_index: None,
        distorted_frame_index: None,
    }
}

/// Rows of the first `count` frames.
pub open spec fn frame_rows(report: RowReport, frames: Seq<FrameReport>, count: int) -> Seq<
    Seq<Seq<char>>,
>
    decreases count,
{
    if count <= 0 {
        Seq::empty()
    } else {
        frame_rows(report, frames, count - 1) + group_rows(
            report,
            frame_place(frames[count - 1]),
            entry_models(frames[count - 1].metrics@),
        )
    }
}

/// What a video report says in each row.
pub open spec fn video_row_report(report: VideoReport, kind: Seq<char>) -> RowReport {
    RowReport {
        report_kind: kind,
        reference: report.reference@,
        distorted: report.distorted@,
        dimensions: report.dimensions,
    }
}

/// Rows of a video report: the means, then the frames.
pub open spec fn video_rows(report: VideoReport, kind: Seq<char>) -> Seq<Seq<Seq<char>>> {
    group_rows(
        video_row_report(report, kind),
        whole("mean"@),
        entry_models(report.mean_metrics@),
    ) + frame_rows(video_row_report(report, kind), report.frames@, report.frames@.len() as int)
}

/// Appends rows to rows.
fn add_rows(rows: &mut Vec<Vec<String>>, more: Vec<Vec<String>>)
    ensures
        row_texts(final(rows)@) == row_texts(old(rows)@) + row_texts(more@),
{
    let ghost before = rows@;
    let ghost added = more@;
    let mut rest = more;
    rows.append(&mut rest);
    assert(rows@ =~= before + added);
    assert(row_texts(rows@) =~= row_texts(before) + row_texts(added));
}

fn video_csv_rows_for_kind(report: &VideoReport, kind: &str) -> (rows: Vec<Vec<String>>)
    ensures
        row_texts(rows@) == video_rows(*report, kind@),
{
    proof {
        reveal_strlit("");
        assert(""@ =~= Seq::<char>::empty());
    }
    let ctx = MetricCsvContext {
        report_kind: kind,
        reference: report.reference.as_str(),
        distorted: report.distorted.as_str(),
        dimensions: report.dimensions,
        scope: "mean",
        frame_index: None,
        pts_seconds: "",
        pair_index: None,
        reference_frame_index: None,
        distorted_frame_index: None,
    };
    let mut rows = metric_csv_rows(&ctx, &cells_of(&report.mean_metrics));
    let ghost means = row_texts(rows@);
    let ghost shared = video_row_report(*report, kind@);
    let mut i: usize = 0;
    assert(means + frame_rows(shared, report.frames@, 0) =~= means);
    while i < report.frames.len()
        invariant
            i <= report.frames@.len(),
            ""@ == Seq::<char>::empty(),
            shared == video_row_report(*report, kind@),
            row_texts(rows@) == means + frame_rows(shared, report.frames@, i as int),
        decreases report.frames@.len() - i,
    {
        let frame = &report.frames[i];
        let pts = match &frame.pts_seconds {
            Some(number) => number.plain.as_str(),
            None => "",
        };
        let place = MetricCsvContext {
            report_kind: kind,
            reference: report.reference.as_str(),
            distorted: report.distorted.as_str(),
            dimensions: report.dimensions,
            scope: "frame",
            frame_index: Some(frame.frame_index),
            pts_seconds: pts,
            pair_index: None,
            reference_frame_index: None,
            distorted_frame_index: None,
        };
        let more = metric_csv_rows(&place, &cells_of(&frame.metrics));
        let ghost before = row_texts(rows@);
        let ghost added = row_texts(more@);
        add_rows(&mut rows, more);
        assert(before + added =~= means + (frame_rows(shared, report.frames@, i as int) + added));
        i += 1;
    }
    rows
}

/// Rows of a video report.
pub fn video_csv_rows(report: &VideoReport) -> (rows: Vec<Vec<String>>)
    ensures
        row_texts(rows@) == video_rows(*report, "video"@),
{
    video_csv_rows_for_kind(report, "video")
}

/// Rows of a timestamp-aligned comparison: those of the video, then the
/// diagnostics of the alignment.
pub fn timestamp_video_csv_rows(report: &TimestampVideoComparison, empty_details: &str) -> (rows: Vec<
    Vec<String>,
>)
    ensures
        row_texts(rows@) == video_rows(report.video, "video_timestamp"@) + group_rows(
            video_row_report(report.video, "video_timestamp"@),
            whole("alignment"@),
            alignment_cells(report.alignment, empty_details@),
        ),
{
    proof {
        reveal_strlit("");
        assert(""@ =~= Seq::<char>::empty());
    }
    let mut rows = video_csv_rows_for_kind(&report.video, "video_timestamp");
    let ctx = MetricCsvContext {
        report_kind: "video_timestamp",
        reference: report.video.reference.as_str(),
        distorted: report.video.distorted.as_str(),
        dimensions: report.video.dimensions,
        scope: "alignment",
        frame_index: None,
        pts_seconds: "",
        pair_index: None,
        reference_frame_index: None,
        distorted_frame_index: None,
    };
    let cells = alignment_diagnostics(&report.alignment, empty_details);
    add_rows(&mut rows, metric_csv_rows(&ctx, &cells));
    rows
}

/// Place of a frame pair.
pub open spec fn pair_place(pair: FramePairReport) -> RowPlace {
    RowPlace {
        scope: "pair"@,
        frame_index: pair.label_frame_index,
        pts_seconds: Seq::empty(),
        pair_index: Some(pair.pair_index),
        reference_frame_index: Some(pair.reference_frame_index),
        distorted_frame_index: Some(pair.distorted_frame_index),
    }
}

/// Rows of the first `count` pairs.
pub open spec fn pair_rows(report: RowReport, pairs: Seq<FramePairReport>, count: int) -> Seq<
    Seq<Seq<char>>,
>
    decreases count,
{
    if count <= 0 {
        Seq::empty()
    } else {
        pair_rows(report, pairs, count - 1) + group_rows(
            report,
            pair_place(pairs[count - 1]),
            entry_models(pairs[count - 1].metrics@),
        )
    }
}

/// What a pair report says in each row.
pub open spec fn pairs_row_report(report: VideoFramePairComparisonReport) -> RowReport {
    RowReport {
        report_kind: "video_pairs"@,
        reference: report.reference@,
        distorted: report.distorted@,
        dimensions: report.dimensions,
    }
}

/// Rows of compared frame pairs: the means, then the pairs.
pub fn video_pair_csv_rows(report: &VideoFramePairComparisonReport) -> (rows: Vec<Vec<String>>)
    ensures
        row_texts(rows@) == group_rows(
            pairs_row_report(*report),
            whole("mean"@),
            entry_models(report.mean_metrics@),
        ) + pair_rows(pairs_row_report(*report), report.pairs@, report.pairs@.len() as int),
{
    proof {
        reveal_strlit("");
        assert(""@ =~= Seq::<char>::empty());
    }
    let ctx = MetricCsvContext {
        report_kind: "video_pairs",
        reference: report.reference.as_str(),
        distorted: report.distorted.as_str(),
        dimensions: report.dimensions,
        scope: "mean",
        frame_index: None,
        pts_seconds: "",
        pair_index: None,
        reference_frame_index: None,
        distorted_frame_index: None,
    };
    let mut rows = metric_csv_rows(&ctx, &cells_of(&report.mean_metrics));
    let ghost means = row_texts(rows@);
    let ghost shared = pairs_row_report(*report);
    let mut i: usize = 0;
    assert(means + pair_rows(shared, report.pairs@, 0) =~= means);
    while i < report.pairs.len()
        invariant
            i <= report.pairs@.len(),
            ""@ == Seq::<char>::empty(),
            shared == pairs_row_report(*report),
            row_texts(rows@) == means + pair_rows(shared, report.pairs@, i as int),
        decreases report.pairs@.len() - i,
    {
        let pair = &report.pairs[i];
        let place = MetricCsvContext {
            report_kind: "video_pairs",
            reference: report.reference.as_str(),
            distorted: report.distorted.as_str(),
            dimensions: report.dimensions,
            scope: "pair",
            frame_index: pair.label_frame_index,
            pts_seconds: "",
            pair_index: Some(pair.pair_index),
            reference_frame_index: Some(pair.reference_frame_index),
            distorted_frame_index: Some(pair.distorted_frame_index),
        };
        let more = metric_csv_rows(&place, &cells_of(&pair.metrics));
        let ghost before = row_texts(rows@);
        let ghost added = row_texts(more@);
        add_rows(&mut rows, more);
        assert(before + added =~= means + (pair_rows(shared, report.pairs@, i as int) + added));
        i += 1;
    }
    rows
}

/// Every row of a metric table has a field for each column.
pub proof fn law_rows_match_columns(report: RowReport, place: RowPlace, cells: Seq<CellModel>, i: int)
    requires
        0 <= i < cells.len(),
    ensures
        group_rows(report, place, cells)[i].len() == metric_columns().len(),
{
}

/// Fields of a probed video.
pub open spec fn probe_fields(report: ProbeReport) -> Seq<Seq<char>> {
    seq![
        report.input@,
        decimal_text(report.width as nat),
        decimal_text(report.height as nat),
        crate::cli::ranking::number_field(report.avg_frame_rate),
        count_field(report.nb_frames),
        crate::cli::ranking::field_text(report.codec_name),
        crate::cli::ranking::number_field(report.duration_seconds),
    ]
}

/// Columns of a probed video.
pub open spec fn probe_columns() -> Seq<Seq<char>> {
    seq![
        "input"@,
        "width"@,
        "height"@,
        "avg_frame_rate"@,
        "nb_frames"@,
        "codec_name"@,
        "duration_seconds"@,
    ]
}

/// Header of a probed video.
pub fn probe_csv_header() -> (header: Vec<String>)
    ensures
        texts(header@) == probe_columns(),
{
    let header = vec![
        String::from_str("input"),
        String::from_str("width"),
        String::from_str("height"),
        String::from_str("avg_frame_rate"),
        String::from_str("nb_frames"),
        String::from_str("codec_name"),
        String::from_str("duration_seconds"),
    ];
    assert(texts(header@) =~= probe_columns());
    header
}

/// Row of a probed video.
pub fn probe_csv_row(report: &ProbeReport) -> (row: Vec<String>)
    ensures
        texts(row@) == probe_fields(*report),
{
    proof {
        reveal_strlit("");
        assert(""@ =~= Seq::<char>::empty());
    }
    let rate = match &report.avg_frame_rate {
        Some(number) => number.plain.as_str(),
        None => "",
    };
    let codec = match &report.codec_name {
        Some(codec) => codec.as_str(),
        None => "",
    };
    let duration = match &report.duration_seconds {
        Some(number) => number.plain.as_str(),
        None => "",
    };
    let row = vec![
        report.input.clone(),
        decimal(report.width as u64),
        decimal(report.height as u64),
        String::from_str(rate),
        write_count_field(report.nb_frames),
        String::from_str(codec),
        String::from_str(duration),
    ];
    assert(texts(row@) =~= probe_fields(*report));
    row
}

/// Every column of a metric table holds what its name says.
pub proof fn law_columns_hold_what_they_name(
    report: RowReport,
    place: RowPlace,
    cells: Seq<CellModel>,
    i: int,
)
    requires
        0 <= i < cells.len(),
    ensures
        ({
            let row = group_rows(report, place, cells)[i];
            let name = metric_columns();
            let cell = cells[i];
            let count = |value: Option<u64>|
                match value {
                    Some(number) => decimal_text(number as nat),
                    None => Seq::<char>::empty(),
                };
            &&& group_rows(report, place, cells).len() == cells.len()
            &&& name.len() == 16 && row.len() == 16
            &&& name[0] == "report_kind"@ && row[0] == report.report_kind
            &&& name[1] == "reference"@ && row[1] == report.reference
            &&& name[2] == "distorted"@ && row[2] == report.distorted
            &&& name[3] == "width"@ && row[3] == decimal_text(report.dimensions.width as nat)
            &&& name[4] == "height"@ && row[4] == decimal_text(report.dimensions.height as nat)
            &&& name[5] == "scope"@ && row[5] == place.scope
            &&& name[6] == "frame_index"@ && row[6] == count(place.frame_index)
            &&& name[7] == "pts_seconds"@ && row[7] == place.pts_seconds
            &&& name[8] == "pair_index"@ && row[8] == count(place.pair_index)
            &&& name[9] == "reference_frame_index"@ && row[9] == count(place.reference_frame_index)
            &&& name[10] == "distorted_frame_index"@ && row[10] == count(
                place.distorted_frame_index,
            )
            &&& name[11] == "metric"@ && row[11] == cell.name
            &&& name[12] == "score"@ && row[12] == cell.plain
            &&& name[13] == "unit"@ && row[13] == cell.unit
            &&& name[14] == "direction"@ && row[14] == match cell.direction {
                Direction::HigherIsBetter => "HigherIsBetter"@,
                Direction::LowerIsBetter => "LowerIsBetter"@,
                Direction::Neutral => "Neutral"@,
            }
            &&& name[15] == "details_json"@ && row[15] == cell.details_json
        }),
{
}

/// Every metric of every frame has a row of its own, with the frame's index, and no row
/// has another origin: a frame adds as many rows as it has metrics.
pub proof fn law_every_frame_metric_has_a_row(
    report: RowReport,
    frames: Seq<FrameReport>,
    count: int,
    f: int,
    m: int,
) -> (at: int)
    requires
        0 <= f < count <= frames.len(),
        0 <= m < frames[f].metrics@.len(),
    ensures
        0 <= at < frame_rows(report, frames, count).len(),
        ({
            let row = frame_rows(report, frames, count)[at];
            let entry = frames[f].metrics@[m];
            &&& row[0] == report.report_kind
            &&& row[1] == report.reference
            &&& row[2] == report.distorted
            &&& row[5] == "frame"@
            &&& row[6] == decimal_text(frames[f].frame_index as nat)
            &&& frames[f].pts_seconds matches Some(time) ==> row[7] == time.plain@
            &&& frames[f].pts_seconds is None ==> row[7].len() == 0
            &&& row[8].len() == 0 && row[9].len() == 0 && row[10].len() == 0
            &&& row[11] == entry.output.name@
            &&& row[12] == entry.plain@
            &&& row[13] == entry.output.unit@
            &&& row[14] == direction_text(entry.output.direction)
            &&& row[15] == entry.details_json@
        }),
        frame_rows(report, frames, count).len() == frame_rows(report, frames, count - 1).len()
            + frames[count - 1].metrics@.len(),
        frame_rows(report, frames, 0).len() == 0,
    decreases count,
{
    let before = frame_rows(report, frames, count - 1);
    let added = group_rows(
        report,
        frame_place(frames[count - 1]),
        entry_models(frames[count - 1].metrics@),
    );
    if f == count - 1 {
        assert(frame_rows(report, frames, count)[before.len() + m] == added[m]);
        before.len() + m
    } else {
        let at = law_every_frame_metric_has_a_row(report, frames, count - 1, f, m);
        assert(frame_rows(report, frames, count)[at] == before[at]);
        at
    }
}

/// Every metric of every frame pair has a row of its own, with the pair's indices, and no
/// row has another origin: a pair adds as many rows as it has metrics.
pub proof fn law_every_pair_metric_has_a_row(
    report: RowReport,
    pairs: Seq<FramePairReport>,
    count: int,
    p: int,
    m: int,
) -> (at: int)
    requires
        0 <= p < count <= pairs.len(),
        0 <= m < pairs[p].metrics@.len(),
    ensures
        0 <= at < pair_rows(report, pairs, count).len(),
        ({
            let row = pair_rows(report, pairs, count)[at];
            let entry = pairs[p].metrics@[m];
            &&& row[0] == report.report_kind
            &&& row[1] == report.reference
            &&& row[2] == report.distorted
            &&& row[5] == "pair"@
            &&& pairs[p].label_frame_index matches Some(label) ==> row[6] == decimal_text(
                label as nat,
            )
            &&& pairs[p].label_frame_index is None ==> row[6].len() == 0
            &&& row[7].len() == 0
            &&& row[8] == decimal_text(pairs[p].pair_index as nat)
            &&& row[9] == decimal_text(pairs[p].reference_frame_index as nat)
            &&& row[10] == decimal_text(pairs[p].distorted_frame_index as nat)
            &&& row[11] == entry.output.name@
            &&& row[12] == entry.plain@
            &&& row[13] == entry.output.unit@
            &&& row[14] == direction_text(entry.output.direction)
            &&& row[15] == entry.details_json@
        }),
        pair_rows(report, pairs, count).len() == pair_rows(report, pairs, count - 1).len()
            + pairs[count - 1].metrics@.len(),
        pair_rows(report, pairs, 0).len() == 0,
    decreases count,
{
    let before = pair_rows(report, pairs, count - 1);
    let added = group_rows(
        report,
        pair_place(pairs[count - 1]),
        entry_models(pairs[count - 1].metrics@),
    );
    if p == count - 1 {
        assert(pair_rows(report, pairs, count)[before.len() + m] == added[m]);
        before.len() + m
    } else {
        let at = law_every_pair_metric_has_a_row(report, pairs, count - 1, p, m);
        assert(pair_rows(report, pairs, count)[at] == before[at]);
        at
    }
}

/// An image comparison has one row for each metric, which ends with the outcome of the
/// quality gate.
pub proof fn law_every_metric_has_a_row(report: ComparisonReport, gate_json: Seq<char>, m: int)
    requires
        0 <= m < report.metrics@.len(),
    ensures
        ({
            let row = comparison_rows(report, gate_json)[m];
            let entry = report.metrics@[m];
            &&& comparison_rows(report, gate_json).len() == report.metrics@.len()
            &&& row.len() == 17
            &&& row[0] == "image"@
            &&& report.reference matches Some(reference) ==> row[1] == reference@
            &&& report.distorted matches Some(distorted) ==> row[2] == distorted@
            &&& row[5] == "image"@
            &&& row[3] == decimal_text(report.dimensions.width as nat)
            &&& row[4] == decimal_text(report.dimensions.height as nat)
            &&& row[11] == entry.output.name@
            &&& row[12] == entry.plain@
            &&& row[13] == entry.output.unit@
            &&& row[14] == direction_text(entry.output.direction)
            &&& row[15] == entry.details_json@
            &&& row[16] == gate_json
        }),
{
}

/// A video report has the rows of its means first and of its frames behind them.
pub proof fn law_means_come_before_frames(report: VideoReport, kind: Seq<char>, m: int, k: int)
    requires
        0 <= m < report.mean_metrics@.len(),
        0 <= k,
    ensures
        ({
            let rows = video_rows(report, kind);
            let frames = frame_rows(
                video_row_report(report, kind),
                report.frames@,
                report.frames@.len() as int,
            );
            &&& rows.len() == report.mean_metrics@.len() + frames.len()
            &&& rows[m][0] == kind
            &&& rows[m][1] == report.reference@
            &&& rows[m][2] == report.distorted@
            &&& rows[m][3] == decimal_text(report.dimensions.width as nat)
            &&& rows[m][4] == decimal_text(report.dimensions.height as nat)
            &&& rows[m][5] == "mean"@
            &&& rows[m][11] == report.mean_metrics@[m].output.name@
            &&& rows[m][12] == report.mean_metrics@[m].plain@
            &&& k < frames.len() ==> rows[report.mean_metrics@.len() + k] == frames[k]
        }),
{
}

/// The diagnostics of an alignment carry its own numbers under their names, and each
/// residual that is known follows in a fixed order.
#[verifier::spinoff_prover]
#[verifier::rlimit(40)]
pub proof fn law_alignment_diagnostics(alignment: AlignmentReport, empty_details: Seq<char>)
    ensures
        ({
            let cells = alignment_cells(alignment, empty_details);
            let is = |i: int, name: Seq<char>, number: NumberText|
                cells[i].name == name && cells[i].score == number.value && cells[i].plain
                    == number.plain@ && cells[i].details_json == empty_details;
            let second: int = if alignment.mean_signed is Some {
                6
            } else {
                5
            };
            let third: int = if alignment.mean_absolute is Some {
                second + 1
            } else {
                second
            };
            let fourth: int = if alignment.rms is Some {
                third + 1
            } else {
                third
            };
            &&& cells.len() == if alignment.maximum is Some {
                fourth + 1
            } else {
                fourth
            }
            &&& is(0, "alignment_planned_pairs"@, alignment.planned_pairs.number)
            &&& is(1, "alignment_unmatched_reference_frames"@, alignment.unmatched_reference.number)
            &&& is(2, "alignment_unmatched_distorted_frames"@, alignment.unmatched_distorted.number)
            &&& is(3, "alignment_timestamp_scale"@, alignment.scale)
            &&& is(4, "alignment_timestamp_offset"@, alignment.offset_seconds)
            &&& cells[0].unit == "frames"@ && cells[0].direction is Neutral
            &&& cells[1].unit == "frames"@ && cells[1].direction is LowerIsBetter
            &&& cells[2].unit == "frames"@ && cells[2].direction is LowerIsBetter
            &&& cells[3].unit == "ratio"@ && cells[3].direction is Neutral
            &&& cells[4].unit == "seconds"@ && cells[4].direction is Neutral
            &&& forall|i: int|
                5 <= i < cells.len() ==> (#[trigger] cells[i]).unit == "seconds"@
                    && cells[i].direction is LowerIsBetter
            &&& alignment.mean_signed matches Some(number) ==> is(
                5,
                "alignment_mean_signed_residual"@,
                number,
            )
            &&& alignment.mean_absolute matches Some(number) ==> is(
                second,
                "alignment_mean_absolute_residual"@,
                number,
            )
            &&& alignment.rms matches Some(number) ==> is(
                third,
                "alignment_rms_residual"@,
                number,
            )
            &&& alignment.maximum matches Some(number) ==> is(
                fourth,
                "alignment_max_residual"@,
                number,
            )
        }),
{
    let fixed = alignment_cells(
        AlignmentReport {
            mean_signed: None,
            mean_absolute: None,
            rms: None,
            maximum: None,
            ..alignment
        },
        empty_details,
    );
    let a = residual("alignment_mean_signed_residual"@, alignment.mean_signed, empty_details);
    let b = residual("alignment_mean_absolute_residual"@, alignment.mean_absolute, empty_details);
    let c = residual("alignment_rms_residual"@, alignment.rms, empty_details);
    let d = residual("alignment_max_residual"@, alignment.maximum, empty_details);
    let cells = alignment_cells(alignment, empty_details);
    assert(fixed.len() == 5);
    assert(cells =~= fixed + a + b + c + d);
    lemma_residual("alignment_mean_signed_residual"@, alignment.mean_signed, empty_details);
    lemma_residual("alignment_mean_absolute_residual"@, alignment.mean_absolute, empty_details);
    lemma_residual("alignment_rms_residual"@, alignment.rms, empty_details);
    lemma_residual("alignment_max_residual"@, alignment.maximum, empty_details);
}

/// A residual is one cell with its own number, or none.
proof fn lemma_residual(name: Seq<char>, value: Option<NumberText>, empty_details: Seq<char>)
    ensures
        ({
            let cells = residual(name, value, empty_details);
            &&& value is None ==> cells.len() == 0
            &&& value matches Some(number) ==> cells.len() == 1 && cells[0].name == name
                && cells[0].score == number.value && cells[0].plain == number.plain@
                && cells[0].details_json == empty_details && cells[0].unit == "seconds"@
                && cells[0].direction is LowerIsBetter
        }),
{
}

/// Every column on a probed video holds what its name says.
pub proof fn law_probe_columns_hold_what_they_name(report: ProbeReport)
    ensures
        ({
            let row = probe_fields(report);
            let name = probe_columns();
            &&& name.len() == 7 && row.len() == 7
            &&& name[0] == "input"@ && row[0] == report.input@
            &&& name[1] == "width"@ && row[1] == decimal_text(report.width as nat)
            &&& name[2] == "height"@ && row[2] == decimal_text(report.height as nat)
            &&& name[3] == "avg_frame_rate"@ && (report.avg_frame_rate matches Some(rate) ==> row[3]
                == rate.plain@)
            &&& report.avg_frame_rate is None ==> row[3].len() == 0
            &&& report.nb_frames is None ==> row[4].len() == 0
            &&& report.codec_name is None ==> row[5].len() == 0
            &&& report.duration_seconds is None ==> row[6].len() == 0
            &&& name[4] == "nb_frames"@ && (report.nb_frames matches Some(frames) ==> row[4]
                == decimal_text(frames as nat))
            &&& name[5] == "codec_name"@ && (report.codec_name matches Some(codec) ==> row[5]
                == codec@)
            &&& name[6] == "duration_seconds"@ && (report.duration_seconds matches Some(seconds)
                ==> row[6] == seconds.plain@)
        }),
{
}

/// Cells are those of the metric results, one for one.
pub proof fn law_cells_are_the_results(entries: Seq<MetricEntry>, cells: Seq<MetricCell>, i: int)
    requires
        cell_models(cells) == entry_models(entries),
        0 <= i < entries.len(),
    ensures
        cells.len() == entries.len(),
        cells[i].name@ == entries[i].output.name@,
        cells[i].score == entries[i].output.score,
        cells[i].plain@ == entries[i].plain@,
        cells[i].unit@ == entries[i].output.unit@,
        cells[i].direction == entries[i].output.direction,
        cells[i].details_json@ == entries[i].details_json@,
{
    assert(cell_models(cells).len() == cells.len());
    assert(entry_models(entries).len() == entries.len());
    assert(cell_models(cells)[i] == cells[i]@);
    assert(entry_models(entries)[i] == entry_model(entries[i]));
}

/// A context gives its rows its own report and place.
pub proof fn law_contexts_give_report_and_place<'a>(context: MetricCsvContext<'a>)
    ensures
        context.row_report().report_kind == context.report_kind@,
        context.row_report().reference == context.reference@,
        context.row_report().distorted == context.distorted@,
        context.row_report().dimensions == context.dimensions,
        context.row_place().scope == context.scope@,
        context.row_place().frame_index == context.frame_index,
        context.row_place().pts_seconds == context.pts_seconds@,
        context.row_place().pair_index == context.pair_index,
        context.row_place().reference_frame_index == context.reference_frame_index,
        context.row_place().distorted_frame_index == context.distorted_frame_index,
{
}

/// The rows of a report on frame pairs name the report's own files and size.
pub proof fn law_pair_reports_name_their_files(report: VideoFramePairComparisonReport)
    ensures
        pairs_row_report(report).report_kind == "video_pairs"@,
        pairs_row_report(report).reference == report.reference@,
        pairs_row_report(report).distorted == report.distorted@,
        pairs_row_report(report).dimensions == report.dimensions,
        whole("mean"@).scope == "mean"@,
        whole("mean"@).frame_index is None && whole("mean"@).pair_index is None,
{
}

} // verus!
