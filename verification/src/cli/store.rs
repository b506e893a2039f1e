//! Rows that reports leave in a database.

use crate::cli::render::{
    FrameReport, ProbeReport, TimestampVideoComparison, VideoFramePairComparisonReport, VideoReport,
};
use crate::cli::report::{direction_name, direction_text, ComparisonReport, NumberText};
use crate::cli::rows::{
    alignment_cells, alignment_diagnostics, cell_models, cells_of, entry_models, CellModel,
    MetricCell,
};
use crate::cli::video::FramePairReport;
use crate::frame::Dimensions;
use crate::metrics::{law_scores_follow_their_bits, Score, SIGN};
use crate::text::optional_text;
use vstd::prelude::*;

verus! {

/// A value of a database column.
#[derive(Debug)]
pub enum SqlValue {
    /// No value.
    Null,
    /// A finite number.
    Real(Score),
    /// A text.
    Text(String),
}

/// A database value as a mathematical value.
pub enum SqlModel {
    Null,
    Real(Score),
    Text(Seq<char>),
}

impl View for SqlValue {
    type V = SqlModel;

    open spec fn view(&self) -> SqlModel {
        match self {
            SqlValue::Null => SqlModel::Null,
            SqlValue::Real(score) => SqlModel::Real(*score),
            SqlValue::Text(text) => SqlModel::Text(text@),
        }
    }
}

/// How a number is stored: finite numbers as such, others as canonical texts.
pub open spec fn stored(value: Score) -> SqlModel {
    if value.finite() {
        SqlModel::Real(value)
    } else if value.nan() {
        SqlModel::Text("NaN"@)
    } else if value.bits < SIGN {
        SqlModel::Text("Infinity"@)
    } else {
        SqlModel::Text("-Infinity"@)
    }
}

/// Turns a number into a database value.
pub fn sqlite_f64(value: Score) -> (stored_value: SqlValue)
    ensures
        stored_value@ == stored(value),
{
    if value.is_finite() {
        SqlValue::Real(value)
    } else if value.is_nan() {
        SqlValue::Text(String::from_str("NaN"))
    } else if value.bits < SIGN {
        SqlValue::Text(String::from_str("Infinity"))
    } else {
        SqlValue::Text(String::from_str("-Infinity"))
    }
}

/// How an optional number is stored.
pub open spec fn stored_optional(value: Option<Score>) -> SqlModel {
    match value {
        Some(score) => stored(score),
        None => SqlModel::Null,
    }
}

/// Turns an optional number into a database value.
pub fn sqlite_optional_f64(value: Option<Score>) -> (stored_value: SqlValue)
    ensures
        stored_value@ == stored_optional(value),
{
    match value {
        Some(score) => sqlite_f64(score),
        None => SqlValue::Null,
    }
}

/// A count capped at the largest database integer.
pub open spec fn capped_count(value: u64) -> i64 {
    if value <= i64::MAX {
        value as i64
    } else {
        i64::MAX
    }
}

/// Turns a count into a database integer.
pub fn sql_u64(value: u64) -> (stored_value: i64)
    ensures
        stored_value == capped_count(value),
{
    if value <= i64::MAX as u64 {
        value as i64
    } else {
        i64::MAX
    }
}

/// Row of a report.
#[derive(Debug)]
pub struct SqlReportInsert {
    /// Kind of report.
    pub kind: String,
    /// Label of the reference.
    pub reference: Option<String>,
    /// Label of the distorted input.
    pub distorted: Option<String>,
    /// Size.
    pub dimensions: Dimensions,
    /// Number of compared frames.
    pub compared_frames: Option<i64>,
}

/// Row of a metric.
#[derive(Debug)]
pub struct SqlMetricInsert {
    /// What the metric is measured over.
    pub scope: String,
    /// Frame index.
    pub frame_index: Option<i64>,
    /// Presentation time.
    pub pts_seconds: SqlValue,
    /// Metric name.
    pub name: String,
    /// Score.
    pub score: SqlValue,
    /// Unit.
    pub unit: String,
    /// Direction.
    pub direction: String,
    /// Details as a JSON object.
    pub details_json: String,
}

/// A report row and its metric rows, which are inserted in one transaction.
#[derive(Debug)]
pub struct SqlPlan {
    /// The report.
    pub report: SqlReportInsert,
    /// Its metrics in order.
    pub metrics: Vec<SqlMetricInsert>,
}

/// Row of a metric as a mathematical value.
pub struct MetricInsertModel {
    pub scope: Seq<char>,
    pub frame_index: Option<i64>,
    pub pts_seconds: SqlModel,
    pub name: Seq<char>,
    pub score: SqlModel,
    pub unit: Seq<char>,
    pub direction: Seq<char>,
    pub details_json: Seq<char>,
}

impl View for SqlMetricInsert {
    type V = MetricInsertModel;

    open spec fn view(&self) -> MetricInsertModel {
        MetricInsertModel {
            scope: self.scope@,
            frame_index: self.frame_index,
            pts_seconds: self.pts_seconds@,
            name: self.name@,
            score: self.score@,
            unit: self.unit@,
            direction: self.direction@,
            details_json: self.details_json@,
        }
    }
}

/// Metric rows as mathematical values.
pub open spec fn insert_models(rows: Seq<SqlMetricInsert>) -> Seq<MetricInsertModel> {
    rows.map_values(|row: SqlMetricInsert| row@)
}

/// Rows of a group of metrics.
pub open spec fn group_inserts(
    scope: Seq<char>,
    frame_index: Option<i64>,
    pts_seconds: Option<Score>,
    cells: Seq<CellModel>,
) -> Seq<MetricInsertModel> {
    Seq::new(
        cells.len(),
        |i: int|
            MetricInsertModel {
                scope,
                frame_index,
                pts_seconds: stored_optional(pts_seconds),
                name: cells[i].name,
                score: stored(cells[i].score),
                unit: cells[i].unit,
                direction: direction_text(cells[i].direction),
                details_json: cells[i].details_json,
            },
    )
}

fn add_metrics(
    rows: &mut Vec<SqlMetricInsert>,
    scope: &str,
    frame_index: Option<i64>,
    pts_seconds: Option<Score>,
    cells: &Vec<MetricCell>,
)
    ensures
        insert_models(final(rows)@) == insert_models(old(rows)@) + group_inserts(
            scope@,
            frame_index,
            pts_seconds,
            cell_models(cells@),
        ),
{
    let ghost before = insert_models(rows@);
    let ghost all = group_inserts(scope@, frame_index, pts_seconds, cell_models(cells@));
    let mut i: usize = 0;
    assert(before + all.take(0) =~= before);
    while i < cells.len()
        invariant
            i <= cells@.len(),
            all == group_inserts(scope@, frame_index, pts_seconds, cell_models(cells@)),
            insert_models(rows@) == before + all.take(i as int),
        decreases cells@.len() - i,
    {
        let cell = &cells[i];
        let row = SqlMetricInsert {
            scope: String::from_str(scope),
            frame_index,
            pts_seconds: sqlite_optional_f64(pts_seconds),
            name: cell.name.clone(),
            score: sqlite_f64(cell.score),
            unit: cell.unit.clone(),
            direction: String::from_str(direction_name(cell.direction)),
            details_json: cell.details_json.clone(),
        };
        assert(row@ == all[i as int]);
        let ghost done = rows@;
        rows.push(row);
        assert(insert_models(rows@) =~= insert_models(done).push(row@));
        assert(all.take(i + 1) =~= all.take(i as int).push(all[i as int]));
        assert(before + all.take(i + 1) =~= (before + all.take(i as int)).push(all[i as int]));
        i += 1;
    }
    assert(all.take(all.len() as int) =~= all);
}

/// Whether a row describes a report.
pub open spec fn reports(
    row: SqlReportInsert,
    kind: Seq<char>,
    reference: Option<Seq<char>>,
    distorted: Option<Seq<char>>,
    dimensions: Dimensions,
    compared_frames: Option<i64>,
) -> bool {
    &&& row.kind@ == kind
    &&& optional_text(row.reference) == reference
    &&& optional_text(row.distorted) == distorted
    &&& row.dimensions == dimensions
    &&& row.compared_frames == compared_frames
}

fn copy_text(value: &Option<String>) -> (copy: Option<String>)
    ensures
        optional_text(copy) == optional_text(*value),
{
    match value {
        Some(text) => Some(text.clone()),
        None => None,
    }
}

/// Plans the rows of an image comparison.
pub fn plan_image_rows(report: &ComparisonReport) -> (plan: SqlPlan)
    ensures
        reports(
            plan.report,
            "image"@,
            optional_text(report.reference),
            optional_text(report.distorted),
            report.dimensions,
            None,
        ),
        insert_models(plan.metrics@) == group_inserts(
            "image"@,
            None,
            None,
            entry_models(report.metrics@),
        ),
{
    let mut metrics: Vec<SqlMetricInsert> = Vec::new();
    add_metrics(&mut metrics, "image", None, None, &cells_of(&report.metrics));
    assert(insert_models(metrics@) =~= group_inserts(
        "image"@,
        None,
        None,
        entry_models(report.metrics@),
    ));
    SqlPlan {
        report: SqlReportInsert {
            kind: String::from_str("image"),
            reference: copy_text(&report.reference),
            distorted: copy_text(&report.distorted),
            dimensions: report.dimensions,
            compared_frames: None,
        },
        metrics,
    }
}

/// Presentation time of a frame.
pub open spec fn frame_time(frame: FrameReport) -> Option<Score> {
    match frame.pts_seconds {
        Some(number) => Some(number.value),
        None => None,
    }
}

/// Rows of the first `count` frames.
pub open spec fn frame_inserts(frames: Seq<FrameReport>, count: int) -> Seq<MetricInsertModel>
    decreases count,
{
    if count <= 0 {
        Seq::empty()
    } else {
        frame_inserts(frames, count - 1) + group_inserts(
            "frame"@,
            Some(capped_count(frames[count - 1].frame_index)),
            frame_time(frames[count - 1]),
            entry_models(frames[count - 1].metrics@),
        )
    }
}

/// Rows of a video report: the means, then the frames.
pub open spec fn video_inserts(report: VideoReport) -> Seq<MetricInsertModel> {
    group_inserts("mean"@, None, None, entry_models(report.mean_metrics@)) + frame_inserts(
        report.frames@,
        report.frames@.len() as int,
    )
}

fn video_metrics(report: &VideoReport) -> (metrics: Vec<SqlMetricInsert>)
    ensures
        insert_models(metrics@) == video_inserts(*report),
{
    let mut metrics: Vec<SqlMetricInsert> = Vec::new();
    add_metrics(&mut metrics, "mean", None, None, &cells_of(&report.mean_metrics));
    let ghost means = group_inserts("mean"@, None, None, entry_models(report.mean_metrics@));
    assert(insert_models(metrics@) =~= means + frame_inserts(report.frames@, 0));
    let mut i: usize = 0;
    while i < report.frames.len()
        invariant
            i <= report.frames@.len(),
            insert_models(metrics@) == means + frame_inserts(report.frames@, i as int),
        decreases report.frames@.len() - i,
    {
        let frame = &report.frames[i];
        let time = match &frame.pts_seconds {
            Some(number) => Some(number.value),
            None => None,
        };
        let ghost before = insert_models(metrics@);
        add_metrics(
            &mut metrics,
            "frame",
            Some(sql_u64(frame.frame_index)),
            time,
            &cells_of(&frame.metrics),
        );
        assert(insert_models(metrics@) =~= means + frame_inserts(report.frames@, i + 1));
        i += 1;
    }
    metrics
}

fn video_report_row(report: &VideoReport, kind: &str) -> (row: SqlReportInsert)
    ensures
        reports(
            row,
            kind@,
            Some(report.reference@),
            Some(report.distorted@),
            report.dimensions,
            Some(capped_count(report.compared_frames)),
        ),
{
    SqlReportInsert {
        kind: String::from_str(kind),
        reference: Some(report.reference.clone()),
        distorted: Some(report.distorted.clone()),
        dimensions: report.dimensions,
        compared_frames: Some(sql_u64(report.compared_frames)),
    }
}

/// Plans the rows of a video comparison.
pub fn plan_video_rows(report: &VideoReport) -> (plan: SqlPlan)
    ensures
        reports(
            plan.report,
            "video"@,
            Some(report.reference@),
            Some(report.distorted@),
            report.dimensions,
            Some(capped_count(report.compared_frames)),
        ),
        insert_models(plan.metrics@) == video_inserts(*report),
{
    SqlPlan { report: video_report_row(report, "video"), metrics: video_metrics(report) }
}

/// Plans the rows of a timestamp-aligned comparison: those of the video, then the
/// diagnostics of the alignment.
pub fn plan_timestamp_rows(report: &TimestampVideoComparison, empty_details: &str) -> (plan: SqlPlan)
    ensures
        reports(
            plan.report,
            "video_timestamp"@,
            Some(report.video.reference@),
            Some(report.video.distorted@),
            report.video.dimensions,
            Some(capped_count(report.video.compared_frames)),
        ),
        insert_models(plan.metrics@) == video_inserts(report.video) + group_inserts(
            "alignment"@,
            None,
            None,
            alignment_cells(report.alignment, empty_details@),
        ),
{
    let mut metrics = video_metrics(&report.video);
    let cells = alignment_diagnostics(&report.alignment, empty_details);
    add_metrics(&mut metrics, "alignment", None, None, &cells);
    SqlPlan { report: video_report_row(&report.video, "video_timestamp"), metrics }
}

/// Frame under which a pair is stored: its label, else its position.
pub open spec fn pair_frame(pair: FramePairReport) -> u64 {
    match pair.label_frame_index {
        Some(label) => label,
        None => pair.pair_index,
    }
}

/// Rows of the first `count` pairs.
pub open spec fn pair_inserts(pairs: Seq<FramePairReport>, count: int) -> Seq<MetricInsertModel>
    decreases count,
{
    if count <= 0 {
        Seq::empty()
    } else {
        pair_inserts(pairs, count - 1) + group_inserts(
            "pair"@,
            Some(capped_count(pair_frame(pairs[count - 1]))),
            None,
            entry_models(pairs[count - 1].metrics@),
        )
    }
}

/// Plans the rows of compared frame pairs.
pub fn plan_pair_rows(report: &VideoFramePairComparisonReport) -> (plan: SqlPlan)
    ensures
        reports(
            plan.report,
            "video_pairs"@,
            Some(report.reference@),
            Some(report.distorted@),
            report.dimensions,
            Some(capped_count(report.pairs@.len() as u64)),
        ),
        insert_models(plan.metrics@) == group_inserts(
            "mean"@,
            None,
            None,
            entry_models(report.mean_metrics@),
        ) + pair_inserts(report.pairs@, report.pairs@.len() as int),
{
    let mut metrics: Vec<SqlMetricInsert> = Vec::new();
    add_metrics(&mut metrics, "mean", None, None, &cells_of(&report.mean_metrics));
    let ghost means = group_inserts("mean"@, None, None, entry_models(report.mean_metrics@));
    assert(insert_models(metrics@) =~= means + pair_inserts(report.pairs@, 0));
    let count: usize = report.pairs.len();
    let mut i: usize = 0;
    while i < count
        invariant
            i <= count,
            count == report.pairs@.len(),
            insert_models(metrics@) == means + pair_inserts(report.pairs@, i as int),
        decreases count - i,
    {
        let pair = &report.pairs[i];
        let frame: u64 = match pair.label_frame_index {
            Some(label) => label,
            None => pair.pair_index,
        };
        add_metrics(
            &mut metrics,
            "pair",
            Some(sql_u64(frame)),
            None,
            &cells_of(&pair.metrics),
        );
        assert(insert_models(metrics@) =~= means + pair_inserts(report.pairs@, i + 1));
        i += 1;
    }
    SqlPlan {
        report: SqlReportInsert {
            kind: String::from_str("video_pairs"),
            reference: Some(report.reference.clone()),
            distorted: Some(report.distorted.clone()),
            dimensions: report.dimensions,
            compared_frames: Some(sql_u64(count as u64)),
        },
        metrics,
    }
}

/// A number is stored as a number exactly when it is finite, and no two different
/// kinds of other numbers share a text.
pub proof fn law_stored_numbers(a: Score, b: Score)
    ensures
        stored(a) is Real <==> a.finite(),
        stored(a) == stored(b) && !a.finite() ==> a.nan() == b.nan() && (a.nan() || a.rank()
            == b.rank()),
{
    reveal_strlit("NaN");
    reveal_strlit("Infinity");
    reveal_strlit("-Infinity");
    assert("NaN"@.len() == 3);
    assert("Infinity"@.len() == 8);
    assert("-Infinity"@.len() == 9);
}

/// Row of a probed video.
#[derive(Debug)]
pub struct SqlProbeInsert {
    /// Label of the video.
    pub input: String,
    /// Size.
    pub dimensions: Dimensions,
    /// Mean frame rate.
    pub avg_frame_rate: SqlValue,
    /// Number of frames.
    pub nb_frames: Option<i64>,
    /// Codec.
    pub codec_name: Option<String>,
    /// Duration in seconds.
    pub duration_seconds: SqlValue,
}

/// The number behind an optional text of a number.
pub open spec fn optional_score(number: Option<NumberText>) -> Option<Score> {
    match number {
        Some(number) => Some(number.value),
        None => None,
    }
}

fn score_of(number: &Option<NumberText>) -> (score: Option<Score>)
    ensures
        score == optional_score(*number),
{
    match number {
        Some(number) => Some(number.value),
        None => None,
    }
}

/// Plans the row of a probed video.
pub fn plan_probe_row(report: &ProbeReport) -> (row: SqlProbeInsert)
    ensures
        row.input@ == report.input@,
        row.dimensions == (Dimensions { width: report.width, height: report.height }),
        row.avg_frame_rate@ == stored_optional(optional_score(report.avg_frame_rate)),
        row.nb_frames == (match report.nb_frames {
            Some(frames) => Some(capped_count(frames)),
            None => None,
        }),
        optional_text(row.codec_name) == optional_text(report.codec_name),
        row.duration_seconds@ == stored_optional(optional_score(report.duration_seconds)),
{
    SqlProbeInsert {
        input: report.input.clone(),
        dimensions: Dimensions { width: report.width, height: report.height },
        avg_frame_rate: sqlite_optional_f64(score_of(&report.avg_frame_rate)),
        nb_frames: match report.nb_frames {
            Some(frames) => Some(sql_u64(frames)),
            None => None,
        },
        codec_name: copy_text(&report.codec_name),
        duration_seconds: sqlite_optional_f64(score_of(&report.duration_seconds)),
    }
}

/// Every metric of every frame is stored once, under the frame's index and time: a frame
/// adds as many rows as it has metrics.
pub proof fn law_every_frame_metric_is_stored(
    frames: Seq<FrameReport>,
    count: int,
    f: int,
    m: int,
) -> (at: int)
    requires
        0 <= f < count <= frames.len(),
        0 <= m < frames[f].metrics@.len(),
    ensures
        0 <= at < frame_inserts(frames, count).len(),
        ({
            let row = frame_inserts(frames, count)[at];
            let entry = frames[f].metrics@[m];
            &&& row.scope == "frame"@
            &&& frames[f].frame_index <= i64::MAX ==> row.frame_index == Some(
                frames[f].frame_index as i64,
            )
            &&& row.pts_seconds == match frames[f].pts_seconds {
                Some(time) => stored(time.value),
                None => SqlModel::Null,
            }
            &&& row.name == entry.output.name@
            &&& row.score == stored(entry.output.score)
            &&& row.unit == entry.output.unit@
            &&& row.direction == direction_text(entry.output.direction)
            &&& row.details_json == entry.details_json@
        }),
        frame_inserts(frames, count).len() == frame_inserts(frames, count - 1).len() + frames[count
            - 1].metrics@.len(),
        frame_inserts(frames, 0).len() == 0,
    decreases count,
{
    let before = frame_inserts(frames, count - 1);
    let last = frames[count - 1];
    let added = group_inserts(
        "frame"@,
        Some(capped_count(last.frame_index)),
        frame_time(last),
        entry_models(last.metrics@),
    );
    if f == count - 1 {
        assert(frame_inserts(frames, count)[before.len() + m] == added[m]);
        before.len() + m
    } else {
        let at = law_every_frame_metric_is_stored(frames, count - 1, f, m);
        assert(frame_inserts(frames, count)[at] == before[at]);
        at
    }
}

/// Every metric of every frame pair is stored once, under the pair's label or else its
/// position: a pair adds as many rows as it has metrics.
pub proof fn law_every_pair_metric_is_stored(
    pairs: Seq<FramePairReport>,
    count: int,
    p: int,
    m: int,
) -> (at: int)
    requires
        0 <= p < count <= pairs.len(),
        0 <= m < pairs[p].metrics@.len(),
    ensures
        0 <= at < pair_inserts(pairs, count).len(),
        ({
            let row = pair_inserts(pairs, count)[at];
            let entry = pairs[p].metrics@[m];
            let index = match pairs[p].label_frame_index {
                Some(label) => label,
                None => pairs[p].pair_index,
            };
            &&& row.scope == "pair"@
            &&& index <= i64::MAX ==> row.frame_index == Some(index as i64)
            &&& row.name == entry.output.name@
            &&& row.score == stored(entry.output.score)
            &&& row.unit == entry.output.unit@
            &&& row.direction == direction_text(entry.output.direction)
            &&& row.pts_seconds is Null
            &&& row.details_json == entry.details_json@
        }),
        pair_inserts(pairs, count).len() == pair_inserts(pairs, count - 1).len() + pairs[count
            - 1].metrics@.len(),
        pair_inserts(pairs, 0).len() == 0,
    decreases count,
{
    let before = pair_inserts(pairs, count - 1);
    let last = pairs[count - 1];
    let added = group_inserts(
        "pair"@,
        Some(capped_count(pair_frame(last))),
        None,
        entry_models(last.metrics@),
    );
    if p == count - 1 {
        assert(pair_inserts(pairs, count)[before.len() + m] == added[m]);
        before.len() + m
    } else {
        let at = law_every_pair_metric_is_stored(pairs, count - 1, p, m);
        assert(pair_inserts(pairs, count)[at] == before[at]);
        at
    }
}

/// A group is stored cell by cell: names, scores, units, directions, and details are the
/// cells' own.
pub proof fn law_groups_are_stored_cell_by_cell(
    scope: Seq<char>,
    frame_index: Option<i64>,
    pts_seconds: Option<Score>,
    cells: Seq<CellModel>,
    i: int,
)
    requires
        0 <= i < cells.len(),
    ensures
        ({
            let rows = group_inserts(scope, frame_index, pts_seconds, cells);
            &&& rows.len() == cells.len()
            &&& rows[i].scope == scope
            &&& rows[i].frame_index == frame_index
            &&& rows[i].pts_seconds == match pts_seconds {
                Some(time) => stored(time),
                None => SqlModel::Null,
            }
            &&& rows[i].name == cells[i].name
            &&& rows[i].score == stored(cells[i].score)
            &&& rows[i].unit == cells[i].unit
            &&& rows[i].direction == direction_text(cells[i].direction)
            &&& rows[i].details_json == cells[i].details_json
        }),
{
}

/// Numbers are stored as they are, infinities and what is not a number by their names.
pub proof fn law_numbers_are_stored_or_named(value: Score)
    ensures
        ({
            let size = value.bits % 0x8000_0000_0000_0000;
            &&& size < 0x7ff0_0000_0000_0000 ==> stored(value) == SqlModel::Real(value)
            &&& value.bits == 0x7ff0_0000_0000_0000 ==> stored(value) == SqlModel::Text(
                "Infinity"@,
            )
            &&& value.bits == 0xfff0_0000_0000_0000 ==> stored(value) == SqlModel::Text(
                "-Infinity"@,
            )
            &&& size > 0x7ff0_0000_0000_0000 ==> stored(value) == SqlModel::Text("NaN"@)
        }),
{
    law_scores_follow_their_bits(value, value);
}

/// Counts are stored as they are up to the largest that fits, which stands for all above.
pub proof fn law_counts_are_capped(value: u64)
    ensures
        value <= 0x7fff_ffff_ffff_ffff ==> capped_count(value) == value,
        value > 0x7fff_ffff_ffff_ffff ==> capped_count(value) == 0x7fff_ffff_ffff_ffff,
{
}

/// A video is stored with its means first, which belong to no frame, and its frames behind
/// them.
pub proof fn law_means_are_stored_before_frames(report: VideoReport, m: int, k: int)
    requires
        0 <= m < report.mean_metrics@.len(),
        0 <= k,
    ensures
        ({
            let rows = video_inserts(report);
            let frames = frame_inserts(report.frames@, report.frames@.len() as int);
            let entry = report.mean_metrics@[m];
            &&& rows.len() == report.mean_metrics@.len() + frames.len()
            &&& rows[m].scope == "mean"@
            &&& rows[m].frame_index is None
            &&& rows[m].name == entry.output.name@
            &&& rows[m].score == stored(entry.output.score)
            &&& rows[m].unit == entry.output.unit@
            &&& k < frames.len() ==> rows[report.mean_metrics@.len() + k] == frames[k]
        }),
{
}

/// Rows that are inserted are those that were planned, one for one.
pub proof fn law_inserts_are_the_rows(rows: Seq<SqlMetricInsert>, i: int)
    requires
        0 <= i < rows.len(),
    ensures
        insert_models(rows).len() == rows.len(),
        insert_models(rows)[i].scope == rows[i].scope@,
        insert_models(rows)[i].frame_index == rows[i].frame_index,
        insert_models(rows)[i].name == rows[i].name@,
        insert_models(rows)[i].unit == rows[i].unit@,
        insert_models(rows)[i].direction == rows[i].direction@,
        insert_models(rows)[i].details_json == rows[i].details_json@,
{
}

/// A report is stored with its own kind, files, size, and number of frames.
pub proof fn law_reports_are_stored_as_they_are(
    row: SqlReportInsert,
    kind: Seq<char>,
    reference: Option<Seq<char>>,
    distorted: Option<Seq<char>>,
    dimensions: Dimensions,
    compared_frames: Option<i64>,
)
    requires
        reports(row, kind, reference, distorted, dimensions, compared_frames),
    ensures
        row.kind@ == kind,
        optional_text(row.reference) == reference,
        optional_text(row.distorted) == distorted,
        row.dimensions.width == dimensions.width,
        row.dimensions.height == dimensions.height,
        row.compared_frames == compared_frames,
{
}

} // verus!
