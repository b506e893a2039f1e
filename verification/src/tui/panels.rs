//! What the panels of the browser show.

use crate::cli::montage::{
    law_scaling_keeps_proportions, sample_preview_pixel_scaled, scaled_at, PreviewImage, Rgb,
};
use crate::metrics::{law_scores_follow_their_bits, Direction};
use crate::text::{concat2, concat3, concat4, concat5, concat7, decimal, decimal_text, texts};
use crate::tui::cache::{KeyModel, PreviewCacheKey};
use crate::tui::entries::{short_path, short_text, FileEntry, FilePath, PathModel};
use crate::tui::layout::Area;
use crate::tui::modes::{bar_text, fit_label, FitMode, PreviewMode};
use crate::tui::state::{
    format_metric_score, lemma_metric_first, metric_from, metric_named, requested_preview_size, App,
    ComparedTarget, PreviewResolution, TargetComparison,
};
use vstd::prelude::*;

verus! {

/// Two pixels in one terminal cell.
#[derive(Debug, Clone, Copy)]
pub struct BlockCell {
    /// Upper pixel.
    pub top: Rgb,
    /// Lower pixel.
    pub bottom: Rgb,
}

/// Pixel of a preview at a display position.
pub open spec fn displayed(
    preview: PreviewImage,
    x: int,
    y: int,
    columns: int,
    pixel_rows: int,
    exact: bool,
) -> Rgb {
    if exact {
        preview.at(x, y)
    } else {
        scaled_at(preview, x, y, columns, pixel_rows)
    }
}

/// Cell of a preview. The last pixel row fills its cell when their number is odd.
pub open spec fn block_at(
    preview: PreviewImage,
    x: int,
    row: int,
    columns: int,
    pixel_rows: int,
    exact: bool,
) -> BlockCell {
    let below = if 2 * row + 1 < pixel_rows {
        2 * row + 1
    } else {
        pixel_rows - 1
    };
    BlockCell {
        top: displayed(preview, x, 2 * row, columns, pixel_rows, exact),
        bottom: displayed(preview, x, below, columns, pixel_rows, exact),
    }
}

/// Draws a preview as rows of cells.
pub fn preview_blocks(preview: &PreviewImage, columns: u32, pixel_rows: u32, exact: bool) -> (rows:
    Vec<Vec<BlockCell>>)
    requires
        preview.complete(),
        exact ==> columns <= preview.width && pixel_rows <= preview.height,
        !exact ==> preview.width > 0 && preview.height > 0,
    ensures
        rows@.len() == (pixel_rows + 1) / 2,
        forall|row: int|
            0 <= row < rows@.len() ==> (#[trigger] rows@[row])@.len() == columns,
        forall|row: int, x: int|
            0 <= row < rows@.len() && 0 <= x < columns ==> #[trigger] rows@[row]@[x] == block_at(
                *preview,
                x,
                row,
                columns as int,
                pixel_rows as int,
                exact,
            ),
{
    let count: u32 = pixel_rows / 2 + pixel_rows % 2;
    let mut rows: Vec<Vec<BlockCell>> = Vec::new();
    let mut row: u32 = 0;
    while row < count
        invariant
            row <= count,
            count == (pixel_rows + 1) / 2,
            preview.complete(),
            exact ==> columns <= preview.width && pixel_rows <= preview.height,
            !exact ==> preview.width > 0 && preview.height > 0,
            rows@.len() == row,
            forall|r: int| 0 <= r < row ==> (#[trigger] rows@[r])@.len() == columns,
            forall|r: int, x: int|
                0 <= r < row && 0 <= x < columns ==> #[trigger] rows@[r]@[x] == block_at(
                    *preview,
                    x,
                    r,
                    columns as int,
                    pixel_rows as int,
                    exact,
                ),
        decreases count - row,
    {
        let y: u32 = 2 * row;
        let below: u32 = if y + 1 < pixel_rows {
            y + 1
        } else {
            pixel_rows - 1
        };
        let mut cells: Vec<BlockCell> = Vec::new();
        let mut x: u32 = 0;
        while x < columns
            invariant
                x <= columns,
                row < count,
                count == (pixel_rows + 1) / 2,
                y == 2 * row,
                y < pixel_rows,
                below == if 2 * row + 1 < pixel_rows {
                    2 * row + 1
                } else {
                    pixel_rows - 1
                },
                preview.complete(),
                exact ==> columns <= preview.width && pixel_rows <= preview.height,
                !exact ==> preview.width > 0 && preview.height > 0,
                cells@.len() == x,
                forall|k: int|
                    0 <= k < x ==> #[trigger] cells@[k] == block_at(
                        *preview,
                        k,
                        row as int,
                        columns as int,
                        pixel_rows as int,
                        exact,
                    ),
            decreases columns - x,
        {
            let top = sample_preview_pixel_scaled(preview, x, y, columns, pixel_rows, exact);
            let bottom = sample_preview_pixel_scaled(preview, x, below, columns, pixel_rows, exact);
            cells.push(BlockCell { top, bottom });
            x += 1;
        }
        rows.push(cells);
        row += 1;
    }
    rows
}

/// A file in the strip of selected files.
#[derive(Debug)]
pub struct StripItem {
    /// Title of its panel.
    pub title: String,
    /// The file.
    pub path: FilePath,
}

/// Content of a [`StripItem`].
pub struct StripModel {
    pub title: Seq<char>,
    pub path: PathModel,
}

/// Item of a file.
pub open spec fn strip_item(kind: Seq<char>, path: PathModel) -> StripModel {
    StripModel { title: " "@ + kind + ": "@ + short_text(path) + " "@, path }
}

/// Contents of items.
pub open spec fn strip_models(items: Seq<StripItem>) -> Seq<StripModel> {
    items.map_values(|item: StripItem| StripModel { title: item.title@, path: item.path@ })
}

/// Number of targets in the strip.
pub open spec fn strip_targets(targets: nat) -> nat {
    if targets < 4 {
        targets
    } else {
        4
    }
}

/// The reference and the first targets.
pub open spec fn strip_of(reference: Option<FilePath>, targets: Seq<FilePath>) -> Seq<StripModel> {
    (match reference {
        Some(path) => seq![strip_item("ref"@, path@)],
        None => Seq::empty(),
    }) + Seq::new(strip_targets(targets.len()), |i: int| strip_item("tgt"@, targets[i]@))
}

fn titled(kind: &str, path: &FilePath) -> (item: StripItem)
    ensures
        item.title@ == strip_item(kind@, path@).title,
        item.path@ == path@,
{
    StripItem { title: concat5(" ", kind, ": ", short_path(path), " "), path: path.clone() }
}

/// Lists the files of the strip: the reference, then up to four targets.
pub fn strip_items(reference: &Option<FilePath>, targets: &Vec<FilePath>) -> (items: Vec<StripItem>)
    ensures
        strip_models(items@) == strip_of(*reference, targets@),
{
    let mut items: Vec<StripItem> = Vec::new();
    let ghost head: Seq<StripModel> = match reference {
        Some(path) => seq![strip_item("ref"@, path@)],
        None => Seq::empty(),
    };
    if let Some(path) = reference {
        items.push(titled("ref", path));
    }
    assert(strip_models(items@) =~= head);
    let mut i: usize = 0;
    while i < targets.len() && i < 4
        invariant
            i <= strip_targets(targets@.len()),
            strip_models(items@) == head + Seq::new(
                i as nat,
                |j: int| strip_item("tgt"@, targets@[j]@),
            ),
        decreases targets@.len() - i,
    {
        let ghost before = items@;
        items.push(titled("tgt", &targets[i]));
        i += 1;
        assert(strip_models(items@) =~= strip_models(before).push(
            strip_item("tgt"@, targets@[i - 1]@),
        ));
        assert(strip_models(items@) =~= head + Seq::new(
            i as nat,
            |j: int| strip_item("tgt"@, targets@[j]@),
        ));
    }
    assert(strip_models(items@) =~= strip_of(*reference, targets@));
    items
}

/// First comparison that succeeded, from `from` on.
pub open spec fn first_compared(comparisons: Seq<TargetComparison>, from: int) -> Option<
    ComparedTarget,
>
    decreases comparisons.len() - from,
{
    if from < 0 || from >= comparisons.len() {
        None
    } else {
        match comparisons[from].result {
            Some(result) => Some(result),
            None => first_compared(comparisons, from + 1),
        }
    }
}

/// Text of the compared size.
pub fn compared_size(comparisons: &Vec<TargetComparison>) -> (text: String)
    ensures
        text@ == match first_compared(comparisons@, 0) {
            Some(result) => decimal_text(result.dimensions.width as nat) + "x"@ + decimal_text(
                result.dimensions.height as nat,
            ),
            None => "--"@,
        },
{
    let mut i: usize = 0;
    while i < comparisons.len()
        invariant
            i <= comparisons@.len(),
            first_compared(comparisons@, 0) == first_compared(comparisons@, i as int),
        decreases comparisons@.len() - i,
    {
        if let Some(result) = &comparisons[i].result {
            return concat3(
                decimal(result.dimensions.width as u64).as_str(),
                "x",
                decimal(result.dimensions.height as u64).as_str(),
            );
        }
        i += 1;
    }
    String::from_str("--")
}

/// Name of the first metric of any comparison, from `from` on.
pub open spec fn first_metric(comparisons: Seq<TargetComparison>, from: int) -> Seq<char>
    decreases comparisons.len() - from,
{
    if from < 0 || from >= comparisons.len() {
        "score"@
    } else {
        match comparisons[from].result {
            Some(result) => if result.metrics@.len() > 0 {
                result.metrics@[0].output.name@
            } else {
                first_metric(comparisons, from + 1)
            },
            None => first_metric(comparisons, from + 1),
        }
    }
}

/// Name of the metric that the bars show.
pub fn primary_metric(comparisons: &Vec<TargetComparison>) -> (name: &str)
    ensures
        name@ == first_metric(comparisons@, 0),
{
    let mut i: usize = 0;
    while i < comparisons.len()
        invariant
            i <= comparisons@.len(),
            first_metric(comparisons@, 0) == first_metric(comparisons@, i as int),
        decreases comparisons@.len() - i,
    {
        if let Some(result) = &comparisons[i].result {
            if result.metrics.len() > 0 {
                return result.metrics[0].output.name.as_str();
            }
        }
        i += 1;
    }
    "score"
}

/// Text about the targets.
pub fn targets_text(count: usize, mode: PreviewMode) -> (text: String)
    ensures
        text@ == decimal_text(count as nat) + " selected ("@ + mode.name() + ")"@,
{
    concat4(decimal(count as u64).as_str(), " selected (", mode.label(), ")")
}

/// Text of a metric: its score, or dashes.
pub open spec fn metric_text(compared: ComparedTarget, name: Seq<char>) -> Seq<char> {
    match metric_from(compared.metrics@, name, 0) {
        Some(at) => {
            let entry = compared.metrics@[at];
            if entry.output.score.finite() {
                entry.fixed@
            } else if entry.output.score.nan() {
                "nan"@
            } else {
                "inf"@
            }
        },
        None => "--"@,
    }
}

/// Writes a metric. The entries hold scores with five decimals.
pub fn metric_value(compared: &ComparedTarget, name: &str) -> (text: String)
    ensures
        text@ == metric_text(*compared, name@),
{
    match metric_named(compared, name) {
        Some(entry) => format_metric_score(entry, entry.fixed.as_str()),
        None => String::from_str("--"),
    }
}

/// A row of the table of comparisons.
#[derive(Debug)]
pub struct ComparisonRow {
    /// Target, three metrics and a bar, or the failure.
    pub cells: Vec<String>,
    /// Direction of the metric in the bar, if there is one.
    pub direction: Option<Direction>,
    /// Whether the comparison failed.
    pub failed: bool,
}

/// Cells of a target.
pub open spec fn row_cells(target: TargetComparison, filled: nat) -> Seq<Seq<char>> {
    match target.result {
        Some(compared) => seq![
            short_text(target.path@),
            metric_text(compared, "psnr"@),
            metric_text(compared, "ssim"@),
            metric_text(compared, "mse"@),
            if compared.metrics@.len() > 0 {
                "["@ + crate::strings::repeated('#', filled) + crate::strings::repeated(
                    '.',
                    (10 - filled) as nat,
                ) + "]"@
            } else {
                Seq::empty()
            },
        ],
        None => seq![
            short_text(target.path@),
            "err"@,
            "err"@,
            "err"@,
            match target.error {
                Some(error) => error@,
                None => Seq::empty(),
            },
        ],
    }
}

/// Writes the row of a target. `filled` is how many cells of its bar are set.
pub fn comparison_row(target: &TargetComparison, filled: usize) -> (row: ComparisonRow)
    requires
        filled <= 10,
    ensures
        texts(row.cells@) == row_cells(*target, filled as nat),
        row.direction == match target.result {
            Some(compared) => if compared.metrics@.len() > 0 {
                Some(compared.metrics@[0].output.direction)
            } else {
                None
            },
            None => None,
        },
        row.failed == (target.result is None),
{
    let name = String::from_str(short_path(&target.path));
    match &target.result {
        Some(compared) => {
            let (bar, direction) = if compared.metrics.len() > 0 {
                (bar_text(filled), Some(compared.metrics[0].output.direction))
            } else {
                let empty = String::new();
                assert(empty@ =~= Seq::<char>::empty());
                (empty, None)
            };
            let cells = vec![
                name,
                metric_value(compared, "psnr"),
                metric_value(compared, "ssim"),
                metric_value(compared, "mse"),
                bar,
            ];
            assert(texts(cells@) =~= row_cells(*target, filled as nat));
            ComparisonRow { cells, direction, failed: false }
        },
        None => {
            let reason = match &target.error {
                Some(error) => error.clone(),
                None => String::new(),
            };
            assert(target.error is None ==> reason@ =~= Seq::<char>::empty());
            let cells = vec![
                name,
                String::from_str("err"),
                String::from_str("err"),
                String::from_str("err"),
                reason,
            ];
            assert(texts(cells@) =~= row_cells(*target, filled as nat));
            ComparisonRow { cells, direction: None, failed: true }
        },
    }
}

/// Text of an empty preview panel.
pub fn preview_message(error: &Option<String>) -> (text: String)
    ensures
        text@ == match *error {
            Some(error) => "Preview failed:\n"@ + error@,
            None => "Select an image or video file"@,
        },
{
    match error {
        Some(error) => concat2("Preview failed:\n", error.as_str()),
        None => String::from_str("Select an image or video file"),
    }
}

/// Title of the preview panel.
pub fn preview_title(source: &str, resolution: &str, fit: FitMode) -> (text: String)
    ensures
        text@ == " preview: "@ + source@ + " "@ + resolution@ + " "@ + fit.name() + " "@,
{
    concat7(" preview: ", source, " ", resolution, " ", fit_label(fit), " ")
}

/// Title of the file list.
pub fn browser_title(cwd: &str, status: &str) -> (text: String)
    ensures
        text@ == " browser: "@ + cwd@ + " | "@ + status@ + " "@,
{
    concat5(" browser: ", cwd, " | ", status, " ")
}

/// How a file of the list is colored.
#[derive(Debug, Clone, Copy, PartialEq, Eq, Structural)]
pub enum EntryTone {
    /// The reference or a target.
    Chosen,
    /// A directory.
    Directory,
    /// A video.
    Video,
    /// Neither image nor video.
    Other,
    /// An image.
    Plain,
}

/// Chooses the color of a file.
pub fn entry_tone(entry: &FileEntry, chosen: bool) -> (tone: EntryTone)
    ensures
        tone == if chosen {
            EntryTone::Chosen
        } else if entry.is_dir {
            EntryTone::Directory
        } else if entry.is_video {
            EntryTone::Video
        } else if entry.is_other {
            EntryTone::Other
        } else {
            EntryTone::Plain
        },
{
    if chosen {
        EntryTone::Chosen
    } else if entry.is_dir {
        EntryTone::Directory
    } else if entry.is_video {
        EntryTone::Video
    } else if entry.is_other {
        EntryTone::Other
    } else {
        EntryTone::Plain
    }
}

/// Key of the preview of a file in a panel.
pub fn panel_key(path: &FilePath, area: Area) -> (key: PreviewCacheKey)
    ensures
        key@ == (KeyModel {
            path: path@.text,
            width: if area.width == 0 {
                1
            } else {
                area.width as u32
            },
            height: if area.height == 0 {
                2
            } else {
                (2 * area.height) as u32
            },
            fit: FitMode::Contain,
        }),
{
    PreviewCacheKey {
        path: path.text.clone(),
        width: if area.width == 0 {
            1
        } else {
            area.width as u32
        },
        height: if area.height == 0 {
            2
        } else {
            2 * area.height as u32
        },
        fit: FitMode::Contain,
    }
}

/// Key of the preview of the selected file. A directory or another file has none.
pub fn selected_key(app: &App) -> (key: Option<PreviewCacheKey>)
    ensures
        match key {
            Some(key) => {
                &&& app@.chosen() matches Some(entry)
                &&& !entry.is_dir && !entry.is_other
                &&& key@.path == entry.path@.text
                &&& key@.fit == app@.preview_fit
                &&& (key@.width, key@.height) == match app@.preview_resolution {
                    PreviewResolution::Fixed { width, height } => (width, height),
                    _ => (u32::MAX, u32::MAX),
                }
            },
            None => app@.chosen() matches Some(entry) ==> entry.is_dir || entry.is_other,
        },
{
    match app.preview_target() {
        None => None,
        Some(path) => {
            let (width, height): (u32, u32) = requested_preview_size(app.preview_resolution);
            Some(
                PreviewCacheKey { path: path.text.clone(), width, height, fit: app.preview_fit },
            )
        },
    }
}

/// A cell shows two pixels of its column, one above the other: rows two by two, and the
/// last one twice where their number is odd. At the image's own size these are its own
/// pixels.
pub proof fn law_cells_show_two_pixels(
    preview: PreviewImage,
    x: int,
    row: int,
    columns: int,
    pixel_rows: int,
)
    requires
        preview.complete(),
        0 <= x < columns <= preview.width,
        0 <= row,
        2 * row < pixel_rows <= preview.height,
    ensures
        ({
            let cell = block_at(preview, x, row, columns, pixel_rows, true);
            &&& cell.top == preview.pixels@[(2 * row) * preview.width + x]
            &&& 2 * row + 1 < pixel_rows ==> cell.bottom == preview.pixels@[(2 * row + 1)
                * preview.width + x]
            &&& 2 * row + 1 == pixel_rows ==> cell.bottom == cell.top
        }),
        columns == preview.width && pixel_rows == preview.height ==> block_at(
            preview,
            x,
            row,
            columns,
            pixel_rows,
            false,
        ) == block_at(preview, x, row, columns, pixel_rows, true),
{
    if columns == preview.width && pixel_rows == preview.height {
        let shown = law_scaling_keeps_proportions(preview, x, 2 * row, columns, pixel_rows);
        let below = if 2 * row + 1 < pixel_rows {
            2 * row + 1
        } else {
            pixel_rows - 1
        };
        let under = law_scaling_keeps_proportions(preview, x, below, columns, pixel_rows);
    }
}

/// The strip shows the reference first, where there is one, and then the first targets,
/// four at most, each under its own path.
pub proof fn law_strip_shows_first_targets(
    reference: Option<FilePath>,
    targets: Seq<FilePath>,
    i: int,
)
    requires
        0 <= i < targets.len(),
        i < 4,
    ensures
        ({
            let strip = strip_of(reference, targets);
            let first: int = if reference is Some {
                1
            } else {
                0
            };
            &&& strip.len() == first + if targets.len() < 4 {
                targets.len() as int
            } else {
                4
            }
            &&& reference matches Some(path) ==> strip[0].path == path@
            &&& strip[first + i].path == targets[i]@
        }),
{
}

/// The size shown is that of the first target whose comparison succeeded.
pub proof fn law_first_success_is_shown(comparisons: Seq<TargetComparison>, i: int)
    requires
        0 <= i <= comparisons.len(),
        forall|j: int| 0 <= j < i ==> (#[trigger] comparisons[j]).result is None,
        i < comparisons.len() ==> comparisons[i].result is Some,
    ensures
        first_compared(comparisons, 0) == if i < comparisons.len() {
            comparisons[i].result
        } else {
            None
        },
{
    lemma_first_success(comparisons, i, 0);
}

proof fn lemma_first_success(comparisons: Seq<TargetComparison>, i: int, from: int)
    requires
        0 <= from <= i <= comparisons.len(),
        forall|j: int| from <= j < i ==> (#[trigger] comparisons[j]).result is None,
        i < comparisons.len() ==> comparisons[i].result is Some,
    ensures
        first_compared(comparisons, from) == if i < comparisons.len() {
            comparisons[i].result
        } else {
            None
        },
    decreases i - from,
{
    if from < i {
        lemma_first_success(comparisons, i, from + 1);
        let other = comparisons[from];
    }
}

/// A metric is shown by the first result of its name: the number where it is finite, else
/// a word for it.
pub proof fn law_metrics_are_shown_by_name(compared: ComparedTarget, name: Seq<char>, i: int)
    requires
        0 <= i < compared.metrics@.len(),
        compared.metrics@[i].output.name@ == name,
        forall|j: int| 0 <= j < i ==> (#[trigger] compared.metrics@[j]).output.name@ != name,
    ensures
        ({
            let entry = compared.metrics@[i];
            let size = entry.output.score.bits % 0x8000_0000_0000_0000;
            metric_text(compared, name) == if size < 0x7ff0_0000_0000_0000 {
                entry.fixed@
            } else if size == 0x7ff0_0000_0000_0000 {
                "inf"@
            } else {
                "nan"@
            }
        }),
{
    lemma_metric_first(compared.metrics@, name, i, 0);
    law_scores_follow_their_bits(
        compared.metrics@[i].output.score,
        compared.metrics@[i].output.score,
    );
}

/// The metric shown for all targets is the first one of the first target that has any.
pub proof fn law_primary_metric_is_the_first(comparisons: Seq<TargetComparison>, i: int)
    requires
        0 <= i < comparisons.len(),
        comparisons[i].result matches Some(result) && result.metrics@.len() > 0,
        forall|j: int|
            0 <= j < i ==> ((#[trigger] comparisons[j]).result matches Some(result)
                ==> result.metrics@.len() == 0),
    ensures
        first_metric(comparisons, 0) == comparisons[i].result->Some_0.metrics@[0].output.name@,
{
    lemma_primary(comparisons, i, 0);
}

proof fn lemma_primary(comparisons: Seq<TargetComparison>, i: int, from: int)
    requires
        0 <= from <= i < comparisons.len(),
        comparisons[i].result matches Some(result) && result.metrics@.len() > 0,
        forall|j: int|
            from <= j < i ==> ((#[trigger] comparisons[j]).result matches Some(result)
                ==> result.metrics@.len() == 0),
    ensures
        first_metric(comparisons, from) == comparisons[i].result->Some_0.metrics@[0].output.name@,
    decreases i - from,
{
    if from < i {
        lemma_primary(comparisons, i, from + 1);
        let other = comparisons[from];
    }
}

/// A target's row holds its name and its three metrics, or the error in their place.
pub proof fn law_target_rows(target: TargetComparison, filled: nat)
    requires
        filled <= 10,
    ensures
        ({
            let cells = row_cells(target, filled);
            &&& cells.len() == 5
            &&& cells[0] == short_text(target.path@)
            &&& target.result matches Some(compared) ==> {
                &&& cells[1] == metric_text(compared, "psnr"@)
                &&& cells[2] == metric_text(compared, "ssim"@)
                &&& cells[3] == metric_text(compared, "mse"@)
                &&& compared.metrics@.len() > 0 ==> cells[4].len() == 12
            }
            &&& target.result is None ==> cells[1] == "err"@ && (target.error matches Some(error)
                ==> cells[4] == error@)
        }),
{
    reveal_strlit("[");
    reveal_strlit("]");
}

} // verus!
