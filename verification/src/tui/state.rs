//! State of the browser and what keys do to it.

use crate::cli::report::MetricEntry;
use crate::frame::Dimensions;
use crate::text::{
    concat2, concat3, concat4, concat5, decimal, decimal_text, optional_text, same_text,
};
use crate::tui::entries::{short_path, short_text, FileEntry, FilePath, ListOptions, PathModel};
use crate::tui::modes::{fit_label, on_off, FitMode, InputMode, PreviewMode, Slot, SortMode};
use vstd::prelude::*;

verus! {

/// Size in which previews are made.
#[derive(Debug, Clone, Copy, PartialEq, Eq, Structural)]
pub enum PreviewResolution {
    /// A fixed size.
    Fixed {
        /// Width.
        width: u32,
        /// Height.
        height: u32,
    },
    /// As large as the source, scaled to the panel.
    Max,
    /// The source's own pixels.
    Actual,
}

/// Size of the source of the shown preview.
#[derive(Debug, Clone, Copy, PartialEq, Eq, Structural)]
pub struct SourceSize {
    /// Width.
    pub width: u32,
    /// Height.
    pub height: u32,
}

/// What has to be done outside after a key.
#[derive(Debug, Clone, Copy, PartialEq, Eq, Structural)]
pub enum Effect {
    /// Nothing.
    Nothing,
    /// Make the preview of the selected file.
    Preview,
    /// Read the directory.
    Refresh,
    /// Compare the targets with the reference.
    Compare,
    /// Forget the comparisons.
    ForgetComparisons,
    /// Leave the browser.
    Quit,
}

/// A key.
#[derive(Debug, Clone, Copy, PartialEq, Eq, Structural)]
pub enum Key {
    /// A character.
    Char(char),
    /// Escape.
    Esc,
    /// Enter.
    Enter,
    /// Backspace.
    Backspace,
    /// Arrow up.
    Up,
    /// Arrow down.
    Down,
    /// Page up.
    PageUp,
    /// Page down.
    PageDown,
    /// Home.
    Home,
    /// End.
    End,
    /// Arrow left.
    Left,
    /// Arrow right.
    Right,
    /// Tab.
    Tab,
    /// Any other key.
    Other,
}

/// State of the browser.
#[derive(Debug)]
pub struct App {
    /// The reference.
    pub reference: Option<FilePath>,
    /// Images compared with the reference.
    pub targets: Vec<FilePath>,
    /// Directory shown.
    pub cwd: String,
    /// Its parent, if it has one.
    pub parent: Option<String>,
    /// Files shown.
    pub entries: Vec<FileEntry>,
    /// Selected file.
    pub selected: usize,
    /// Slot that is set next.
    pub active_slot: Slot,
    /// Show directories.
    pub show_dirs: bool,
    /// Show files that are neither images nor videos.
    pub show_other: bool,
    /// Order of the files.
    pub sort_mode: SortMode,
    /// Extension that files must have.
    pub extension_filter: Option<String>,
    /// Text that names must contain.
    pub name_filter: String,
    /// What keys are taken as.
    pub input_mode: InputMode,
    /// Status line.
    pub status: String,
    /// Size of the source of the shown preview.
    pub preview_source: Option<SourceSize>,
    /// Size in which previews are made.
    pub preview_resolution: PreviewResolution,
    /// How previews fill their area.
    pub preview_fit: FitMode,
    /// What the preview panel shows.
    pub preview_mode: PreviewMode,
}

/// State of the browser as a mathematical value.
#[verifier::ext_equal]
pub struct AppModel {
    pub reference: Option<PathModel>,
    pub targets: Seq<PathModel>,
    pub cwd: Seq<char>,
    pub parent: Option<Seq<char>>,
    pub entries: Seq<FileEntry>,
    pub selected: nat,
    pub active_slot: Slot,
    pub show_dirs: bool,
    pub show_other: bool,
    pub sort_mode: SortMode,
    pub extension_filter: Option<Seq<char>>,
    pub name_filter: Seq<char>,
    pub input_mode: InputMode,
    pub status: Seq<char>,
    pub preview_source: Option<SourceSize>,
    pub preview_resolution: PreviewResolution,
    pub preview_fit: FitMode,
    pub preview_mode: PreviewMode,
}

/// Model of an optional path.
pub open spec fn optional_path(path: Option<FilePath>) -> Option<PathModel> {
    match path {
        Some(path) => Some(path@),
        None => None,
    }
}

/// Models of paths.
pub open spec fn path_models(paths: Seq<FilePath>) -> Seq<PathModel> {
    paths.map_values(|path: FilePath| path@)
}

impl View for App {
    type V = AppModel;

    open spec fn view(&self) -> AppModel {
        AppModel {
            reference: optional_path(self.reference),
            targets: path_models(self.targets@),
            cwd: self.cwd@,
            parent: optional_text(self.parent),
            entries: self.entries@,
            selected: self.selected as nat,
            active_slot: self.active_slot,
            show_dirs: self.show_dirs,
            show_other: self.show_other,
            sort_mode: self.sort_mode,
            extension_filter: optional_text(self.extension_filter),
            name_filter: self.name_filter@,
            input_mode: self.input_mode,
            status: self.status@,
            preview_source: self.preview_source,
            preview_resolution: self.preview_resolution,
            preview_fit: self.preview_fit,
            preview_mode: self.preview_mode,
        }
    }
}

impl AppModel {
    /// The selection is a file of the list, or nothing is listed.
    pub open spec fn in_range(self) -> bool {
        self.selected < self.entries.len() || self.selected == 0
    }

    /// The selected file.
    pub open spec fn chosen(self) -> Option<FileEntry> {
        if self.selected < self.entries.len() {
            Some(self.entries[self.selected as int])
        } else {
            None
        }
    }

    /// With another status line.
    pub open spec fn saying(self, status: Seq<char>) -> AppModel {
        AppModel { status, ..self }
    }

    /// With another selection.
    pub open spec fn selecting(self, selected: nat) -> AppModel {
        AppModel { selected, ..self }
    }
}

/// Word for a switch.
pub open spec fn switch_text(value: bool) -> Seq<char> {
    if value {
        "on"@
    } else {
        "off"@
    }
}

/// Summary of what the list shows.
pub open spec fn browser_text(app: AppModel) -> Seq<char> {
    "dirs:"@ + switch_text(app.show_dirs) + " other:"@ + switch_text(app.show_other) + " sort:"@
        + app.sort_mode.name() + " ext:"@ + (match app.extension_filter {
        Some(extension) => extension,
        None => "*"@,
    }) + " filter:"@ + if app.name_filter.len() == 0 {
        "*"@
    } else {
        app.name_filter
    }
}

/// Moving by a number of files, around the ends of the list.
pub open spec fn moved(app: AppModel, delta: int) -> (AppModel, Effect) {
    if app.entries.len() == 0 {
        (app.selecting(0), Effect::Nothing)
    } else {
        (
            app.selecting(((app.selected + delta) % app.entries.len() as int) as nat),
            Effect::Preview,
        )
    }
}

/// Number of files on a page: ten, or the whole list if it is shorter.
pub open spec fn page_step(app: AppModel) -> int {
    if app.entries.len() == 0 {
        1
    } else if app.entries.len() < 10 {
        app.entries.len() as int
    } else {
        10
    }
}

/// Whether a path is among others.
pub open spec fn among(path: PathModel, paths: Seq<PathModel>, from: int) -> Option<int>
    decreases paths.len() - from,
{
    if from < 0 || from >= paths.len() {
        None
    } else if paths[from].text == path.text {
        Some(from)
    } else {
        among(path, paths, from + 1)
    }
}

/// Paths other than one, among the first `count`.
pub open spec fn without(paths: Seq<PathModel>, path: PathModel, count: int) -> Seq<PathModel>
    decreases count,
{
    if count <= 0 {
        Seq::empty()
    } else {
        let before = without(paths, path, count - 1);
        if paths[count - 1].text == path.text {
            before
        } else {
            before.push(paths[count - 1])
        }
    }
}

/// Comparing the targets, if there is a reference.
pub open spec fn comparing(app: AppModel) -> (AppModel, Effect) {
    match app.reference {
        None => (app.saying("Select a reference image with r"@), Effect::ForgetComparisons),
        Some(_) => (app, Effect::Compare),
    }
}

/// Making a file the reference; it is no target any more.
pub open spec fn with_reference(app: AppModel, path: PathModel) -> (AppModel, Effect) {
    comparing(
        AppModel {
            reference: Some(path),
            targets: without(app.targets, path, app.targets.len() as int),
            status: "Set reference "@ + short_text(path),
            ..app
        },
    )
}

/// Making a file a target, or taking it away; the reference cannot be one.
pub open spec fn with_target(app: AppModel, path: PathModel) -> (AppModel, Effect) {
    if app.reference matches Some(reference) && reference.text == path.text {
        (app.saying("Reference is already selected"@), Effect::Nothing)
    } else {
        match among(path, app.targets, 0) {
            Some(at) => comparing(
                AppModel {
                    targets: app.targets.remove(at),
                    status: "Removed target "@ + short_text(path),
                    ..app
                },
            ),
            None => comparing(
                AppModel {
                    targets: app.targets.push(path),
                    status: "Added target "@ + short_text(path),
                    ..app
                },
            ),
        }
    }
}

/// Message for a file that is no image.
pub open spec fn no_image() -> Seq<char> {
    "Select a still image file for comparison"@
}

/// Opening a directory, or choosing an image.
pub open spec fn opened(app: AppModel) -> (AppModel, Effect) {
    match app.chosen() {
        None => (app, Effect::Nothing),
        Some(entry) => if entry.is_dir {
            (AppModel { cwd: entry.path@.text, selected: 0, ..app }, Effect::Refresh)
        } else if !entry.is_image {
            (app.saying(no_image()), Effect::Nothing)
        } else if app.reference is None {
            with_reference(app, entry.path@)
        } else {
            with_target(app, entry.path@)
        },
    }
}

/// Choosing an image for a slot.
pub open spec fn slot_set(app: AppModel, slot: Slot) -> (AppModel, Effect) {
    match app.chosen() {
        None => (app, Effect::Nothing),
        Some(entry) => if entry.is_dir || !entry.is_image {
            (app.saying(no_image()), Effect::Nothing)
        } else {
            let (next, effect) = match slot {
                Slot::Reference => with_reference(app, entry.path@),
                Slot::Distorted => with_target(app, entry.path@),
            };
            (AppModel { active_slot: slot.other(), ..next }, effect)
        },
    }
}

/// Going to the parent directory.
pub open spec fn to_parent(app: AppModel) -> (AppModel, Effect) {
    match app.parent {
        None => (app, Effect::Nothing),
        Some(parent) => (AppModel { cwd: parent, selected: 0, ..app }, Effect::Refresh),
    }
}

/// A quarter more, at least one.
pub open spec fn grown(value: u32) -> u32 {
    let step = if value / 4 >= 1 {
        value / 4
    } else {
        1
    };
    if value + step <= u32::MAX {
        (value + step) as u32
    } else {
        u32::MAX
    }
}

/// A fifth less, but not below a floor.
pub open spec fn shrunk(value: u32, floor: u32) -> u32 {
    let less = value * 4 / 5;
    if less >= floor {
        less as u32
    } else {
        floor
    }
}

/// A larger or smaller preview size.
pub open spec fn resized(
    resolution: PreviewResolution,
    source: Option<SourceSize>,
    larger: bool,
) -> PreviewResolution {
    match (larger, resolution, source) {
        (true, PreviewResolution::Fixed { width, height }, Some(size)) => if grown(width)
            >= size.width || grown(height) >= size.height {
            PreviewResolution::Max
        } else {
            PreviewResolution::Fixed { width: grown(width), height: grown(height) }
        },
        (true, PreviewResolution::Fixed { width, height }, None) => PreviewResolution::Fixed {
            width: grown(width),
            height: grown(height),
        },
        (true, PreviewResolution::Max, _) => PreviewResolution::Max,
        (true, PreviewResolution::Actual, _) => PreviewResolution::Actual,
        (false, PreviewResolution::Fixed { width, height }, _) => PreviewResolution::Fixed {
            width: shrunk(width, 16),
            height: shrunk(height, 8),
        },
        (false, PreviewResolution::Max, Some(size)) => PreviewResolution::Fixed {
            width: shrunk(size.width, 16),
            height: shrunk(size.height, 8),
        },
        (false, PreviewResolution::Max, None) => PreviewResolution::Fixed { width: 192, height: 96 },
        (false, PreviewResolution::Actual, _) => PreviewResolution::Actual,
    }
}

/// Size after switching actual size on or off.
pub open spec fn actual_toggled(resolution: PreviewResolution, source: Option<SourceSize>) -> PreviewResolution {
    match resolution {
        PreviewResolution::Actual => match source {
            Some(size) => PreviewResolution::Fixed { width: size.width, height: size.height },
            None => PreviewResolution::Fixed { width: 192, height: 96 },
        },
        _ => PreviewResolution::Actual,
    }
}

/// A size such as `192x96`.
pub open spec fn size_label(width: u32, height: u32) -> Seq<char> {
    decimal_text(width as nat) + "x"@ + decimal_text(height as nat)
}

/// Name of a preview size.
pub open spec fn resolution_text(resolution: PreviewResolution, source: Option<SourceSize>) -> Seq<char> {
    match (resolution, source) {
        (PreviewResolution::Fixed { width, height }, _) => size_label(width, height),
        (PreviewResolution::Max, Some(size)) => "max "@ + size_label(size.width, size.height),
        (PreviewResolution::Max, None) => "max"@,
        (PreviewResolution::Actual, Some(size)) => "actual "@ + size_label(size.width, size.height),
        (PreviewResolution::Actual, None) => "actual"@,
    }
}

/// With another preview size.
pub open spec fn with_resolution(app: AppModel, resolution: PreviewResolution) -> (AppModel, Effect) {
    (
        AppModel {
            preview_resolution: resolution,
            status: "Preview size: "@ + resolution_text(resolution, app.preview_source),
            ..app
        },
        Effect::Preview,
    )
}

/// Showing only files with the extension of the selected one.
pub open spec fn by_extension(app: AppModel) -> (AppModel, Effect) {
    match app.chosen() {
        None => (app, Effect::Nothing),
        Some(entry) => match entry.extension {
            None => (app, Effect::Nothing),
            Some(extension) => (
                AppModel { extension_filter: Some(extension@), ..app },
                Effect::Refresh,
            ),
        },
    }
}

/// What a key does while the name filter is typed.
pub open spec fn typed(app: AppModel, key: Key) -> (AppModel, Effect) {
    match key {
        Key::Esc | Key::Enter => (
            AppModel {
                input_mode: InputMode::Normal,
                status: "Filter: "@ + app.name_filter,
                ..app
            },
            Effect::Nothing,
        ),
        Key::Backspace => (
            AppModel {
                name_filter: if app.name_filter.len() == 0 {
                    app.name_filter
                } else {
                    app.name_filter.drop_last()
                },
                ..app
            },
            Effect::Refresh,
        ),
        Key::Char(value) => (
            AppModel { name_filter: app.name_filter.push(value), ..app },
            Effect::Refresh,
        ),
        _ => (app, Effect::Nothing),
    }
}

/// Choosing the selected image as a target.
pub open spec fn target_toggled(app: AppModel) -> (AppModel, Effect) {
    match app.chosen() {
        None => (app, Effect::Nothing),
        Some(entry) => if entry.is_image {
            with_target(app, entry.path@)
        } else {
            (app, Effect::Nothing)
        },
    }
}

/// What a command character does.
pub open spec fn commanded(app: AppModel, value: char) -> (AppModel, Effect) {
    match value {
        'q' => (app, Effect::Quit),
        'k' => moved(app, -1),
        'j' => moved(app, 1),
        'g' => (app.selecting(0), Effect::Preview),
        'G' => (
            app.selecting(
                if app.entries.len() == 0 {
                    0
                } else {
                    (app.entries.len() - 1) as nat
                },
            ),
            Effect::Preview,
        ),
        'h' => to_parent(app),
        'l' => opened(app),
        ' ' => target_toggled(app),
        'r' => slot_set(app, Slot::Reference),
        'd' => slot_set(app, Slot::Distorted),
        'c' => comparing(app),
        '+' | '=' => with_resolution(
            app,
            resized(app.preview_resolution, app.preview_source, true),
        ),
        '-' => with_resolution(app, resized(app.preview_resolution, app.preview_source, false)),
        'f' => (
            AppModel {
                preview_fit: app.preview_fit.following(),
                status: "Preview fit: "@ + app.preview_fit.following().name(),
                ..app
            },
            Effect::Preview,
        ),
        'a' => with_resolution(app, actual_toggled(app.preview_resolution, app.preview_source)),
        'v' => (
            AppModel {
                preview_mode: app.preview_mode.following(),
                status: "Preview view: "@ + app.preview_mode.following().name(),
                ..app
            },
            Effect::Nothing,
        ),
        'i' => (AppModel { show_dirs: !app.show_dirs, ..app }, Effect::Refresh),
        'o' => (AppModel { show_other: !app.show_other, ..app }, Effect::Refresh),
        's' => (AppModel { sort_mode: app.sort_mode.following(), ..app }, Effect::Refresh),
        'e' => by_extension(app),
        'u' => (
            AppModel {
                extension_filter: None,
                name_filter: Seq::empty(),
                input_mode: InputMode::Normal,
                ..app
            },
            Effect::Refresh,
        ),
        '/' => (
            AppModel {
                input_mode: InputMode::Filter,
                status: "Filter: "@ + app.name_filter,
                ..app
            },
            Effect::Nothing,
        ),
        _ => (app, Effect::Nothing),
    }
}

/// What a key does.
pub open spec fn pressed(app: AppModel, key: Key) -> (AppModel, Effect) {
    if app.input_mode is Filter {
        typed(app, key)
    } else {
        match key {
            Key::Char(value) => commanded(app, value),
            Key::Esc => (app, Effect::Quit),
            Key::Up => moved(app, -1),
            Key::Down => moved(app, 1),
            Key::PageUp => moved(app, -page_step(app)),
            Key::PageDown => moved(app, page_step(app)),
            Key::Home => commanded(app, 'g'),
            Key::End => commanded(app, 'G'),
            Key::Left => to_parent(app),
            Key::Enter | Key::Right => opened(app),
            Key::Tab => (
                AppModel {
                    active_slot: app.active_slot.other(),
                    status: "Target: "@ + app.active_slot.other().name(),
                    ..app
                },
                Effect::Nothing,
            ),
            Key::Backspace | Key::Other => (app, Effect::Nothing),
        }
    }
}

/// First position at or behind `from` with a text.
pub open spec fn key_at(keys: Seq<String>, wanted: Seq<char>, from: int) -> Option<int>
    decreases keys.len() - from,
{
    if from < 0 || from >= keys.len() {
        None
    } else if keys[from]@ == wanted {
        Some(from)
    } else {
        key_at(keys, wanted, from + 1)
    }
}

fn same_path(a: &FilePath, b: &FilePath) -> (same: bool)
    ensures
        same == (a@.text == b@.text),
{
    same_text(a.text.as_str(), b.text.as_str())
}

fn find_path(path: &FilePath, paths: &Vec<FilePath>) -> (at: Option<usize>)
    ensures
        match at {
            Some(at) => among(path@, path_models(paths@), 0) == Some(at as int) && at
                < paths@.len(),
            None => among(path@, path_models(paths@), 0) is None,
        },
{
    let mut i: usize = 0;
    while i < paths.len()
        invariant
            i <= paths@.len(),
            among(path@, path_models(paths@), 0) == among(path@, path_models(paths@), i as int),
        decreases paths@.len() - i,
    {
        if same_path(&paths[i], path) {
            return Some(i);
        }
        i += 1;
    }
    None
}

fn remove_path(paths: &Vec<FilePath>, path: &FilePath) -> (rest: Vec<FilePath>)
    ensures
        path_models(rest@) == without(path_models(paths@), path@, paths@.len() as int),
{
    let mut rest: Vec<FilePath> = Vec::new();
    let mut i: usize = 0;
    assert(path_models(rest@) =~= Seq::<PathModel>::empty());
    while i < paths.len()
        invariant
            i <= paths@.len(),
            path_models(rest@) == without(path_models(paths@), path@, i as int),
        decreases paths@.len() - i,
    {
        if !same_path(&paths[i], path) {
            let ghost before = rest@;
            let copy = paths[i].clone();
            rest.push(copy);
            assert(path_models(rest@) =~= path_models(before).push(copy@));
        }
        i += 1;
    }
    rest
}

fn grow(value: u32) -> (larger: u32)
    ensures
        larger == grown(value),
{
    let step: u32 = if value / 4 >= 1 {
        value / 4
    } else {
        1
    };
    if value <= u32::MAX - step {
        value + step
    } else {
        u32::MAX
    }
}

fn shrink(value: u32, floor: u32) -> (smaller: u32)
    ensures
        smaller == shrunk(value, floor),
{
    let less: u64 = value as u64 * 4 / 5;
    if less >= floor as u64 {
        less as u32
    } else {
        floor
    }
}

fn resize(resolution: PreviewResolution, source: Option<SourceSize>, larger: bool) -> (next:
    PreviewResolution)
    ensures
        next == resized(resolution, source, larger),
{
    match resolution {
        PreviewResolution::Fixed { width, height } => if larger {
            let next_width: u32 = grow(width);
            let next_height: u32 = grow(height);
            if let Some(size) = source {
                if next_width >= size.width || next_height >= size.height {
                    return PreviewResolution::Max;
                }
            }
            PreviewResolution::Fixed { width: next_width, height: next_height }
        } else {
            PreviewResolution::Fixed { width: shrink(width, 16), height: shrink(height, 8) }
        },
        PreviewResolution::Max => if larger {
            PreviewResolution::Max
        } else {
            match source {
                Some(size) => PreviewResolution::Fixed {
                    width: shrink(size.width, 16),
                    height: shrink(size.height, 8),
                },
                None => PreviewResolution::Fixed { width: 192, height: 96 },
            }
        },
        PreviewResolution::Actual => PreviewResolution::Actual,
    }
}

fn write_size(width: u32, height: u32) -> (text: String)
    ensures
        text@ == size_label(width, height),
{
    concat3(decimal(width as u64).as_str(), "x", decimal(height as u64).as_str())
}

/// Writes the name of a preview size.
pub fn preview_resolution_label(resolution: PreviewResolution, source: Option<SourceSize>) -> (text:
    String)
    ensures
        text@ == resolution_text(resolution, source),
{
    match resolution {
        PreviewResolution::Fixed { width, height } => write_size(width, height),
        PreviewResolution::Max => match source {
            Some(size) => concat2("max ", write_size(size.width, size.height).as_str()),
            None => String::from_str("max"),
        },
        PreviewResolution::Actual => match source {
            Some(size) => concat2("actual ", write_size(size.width, size.height).as_str()),
            None => String::from_str("actual"),
        },
    }
}

/// Size that a preview is asked for in.
pub fn requested_preview_size(resolution: PreviewResolution) -> (size: (u32, u32))
    ensures
        size == match resolution {
            PreviewResolution::Fixed { width, height } => (width, height),
            _ => (u32::MAX, u32::MAX),
        },
{
    match resolution {
        PreviewResolution::Fixed { width, height } => (width, height),
        _ => (u32::MAX, u32::MAX),
    }
}

/// How the browser starts.
#[derive(Debug)]
pub struct AppConfig {
    /// The reference.
    pub reference: Option<FilePath>,
    /// Images compared with the reference.
    pub targets: Vec<FilePath>,
    /// Directory shown first.
    pub cwd: String,
    /// Size in which previews are made.
    pub preview_resolution: PreviewResolution,
    /// Previews show the source's own pixels.
    pub actual_size: bool,
}

impl App {
    /// Starts the browser; the directory is read next.
    pub fn new(config: AppConfig) -> (app: Self)
        ensures
            app@ == (AppModel {
                reference: optional_path(config.reference),
                targets: path_models(config.targets@),
                cwd: config.cwd@,
                parent: None,
                entries: Seq::empty(),
                selected: 0,
                active_slot: Slot::Reference,
                show_dirs: true,
                show_other: false,
                sort_mode: SortMode::Name,
                extension_filter: None,
                name_filter: Seq::empty(),
                input_mode: InputMode::Normal,
                status: Seq::empty(),
                preview_source: None,
                preview_resolution: if config.actual_size {
                    PreviewResolution::Actual
                } else {
                    config.preview_resolution
                },
                preview_fit: FitMode::Contain,
                preview_mode: PreviewMode::Current,
            }),
            app@.in_range(),
    {
        let app = Self {
            reference: config.reference,
            targets: config.targets,
            cwd: config.cwd,
            parent: None,
            entries: Vec::new(),
            selected: 0,
            active_slot: Slot::Reference,
            show_dirs: true,
            show_other: false,
            sort_mode: SortMode::Name,
            extension_filter: None,
            name_filter: String::new(),
            input_mode: InputMode::Normal,
            status: String::new(),
            preview_source: None,
            preview_resolution: if config.actual_size {
                PreviewResolution::Actual
            } else {
                config.preview_resolution
            },
            preview_fit: FitMode::Contain,
            preview_mode: PreviewMode::Current,
        };
        assert(app@.entries =~= Seq::<FileEntry>::empty());
        assert(app@.name_filter =~= Seq::<char>::empty());
        assert(app@.status =~= Seq::<char>::empty());
        app
    }

    /// Selects the first file whose resolved path is the wanted one. `keys` holds
    /// the resolved path of each file.
    pub fn select_path(&mut self, wanted: &str, keys: &Vec<String>)
        requires
            old(self)@.in_range(),
            keys@.len() == old(self)@.entries.len(),
        ensures
            final(self)@ == match key_at(keys@, wanted@, 0) {
                Some(at) => old(self)@.selecting(at as nat),
                None => old(self)@,
            },
            final(self)@.in_range(),
    {
        let mut i: usize = 0;
        while i < keys.len()
            invariant
                i <= keys@.len(),
                *self == *old(self),
                self@.in_range(),
                keys@.len() == self@.entries.len(),
                key_at(keys@, wanted@, 0) == key_at(keys@, wanted@, i as int),
            decreases keys@.len() - i,
        {
            if same_text(keys[i].as_str(), wanted) {
                self.selected = i;
                return;
            }
            i += 1;
        }
    }

    /// Writes the summary of what the list shows.
    pub fn browser_status(&self) -> (text: String)
        ensures
            text@ == browser_text(self@),
    {
        let extension = match &self.extension_filter {
            Some(extension) => extension.as_str(),
            None => "*",
        };
        let filter = if self.name_filter.as_str().is_empty() {
            "*"
        } else {
            self.name_filter.as_str()
        };
        let mut text = concat4(
            "dirs:",
            on_off(self.show_dirs),
            " other:",
            on_off(self.show_other),
        );
        text.append(" sort:");
        text.append(self.sort_mode.label());
        text.append(" ext:");
        text.append(extension);
        text.append(" filter:");
        text.append(filter);
        text
    }

    /// What the list shows, for reading the directory.
    pub fn list_options(&self) -> (options: ListOptions)
        ensures
            options.show_dirs == self@.show_dirs,
            options.show_other == self@.show_other,
            optional_text(options.extension_filter) == self@.extension_filter,
            options.name_filter@ == self@.name_filter,
            options.sort_mode == self@.sort_mode,
    {
        ListOptions {
            show_dirs: self.show_dirs,
            show_other: self.show_other,
            extension_filter: match &self.extension_filter {
                Some(extension) => Some(extension.clone()),
                None => None,
            },
            name_filter: self.name_filter.clone(),
            sort_mode: self.sort_mode,
        }
    }

    /// Takes the files of the directory; the selection stays inside the list.
    pub fn entries_read(&mut self, entries: Vec<FileEntry>, parent: Option<String>) -> (effect: Effect)
        ensures
            effect == Effect::Preview,
            final(self)@ == (AppModel {
                entries: entries@,
                parent: optional_text(parent),
                selected: if entries@.len() == 0 {
                    0
                } else if old(self)@.selected < entries@.len() {
                    old(self)@.selected
                } else {
                    (entries@.len() - 1) as nat
                },
                status: "Browsing "@ + old(self)@.cwd + " ("@ + browser_text(old(self)@) + ")"@,
                ..old(self)@
            }),
            final(self)@.in_range(),
    {
        let count: usize = entries.len();
        let last: usize = if count == 0 {
            0
        } else {
            count - 1
        };
        let status = concat5(
            "Browsing ",
            self.cwd.as_str(),
            " (",
            self.browser_status().as_str(),
            ")",
        );
        if self.selected > last {
            self.selected = last;
        }
        self.entries = entries;
        self.parent = parent;
        self.status = status;
        Effect::Preview
    }

    /// Notes that the directory could not be read. Its parent can still be gone to.
    pub fn entries_failed(&mut self, error: &str, parent: Option<String>) -> (effect: Effect)
        ensures
            effect == Effect::Preview,
            final(self)@ == (AppModel {
                entries: Seq::empty(),
                parent: optional_text(parent),
                selected: 0,
                status: "Failed to read "@ + old(self)@.cwd + ": "@ + error@,
                ..old(self)@
            }),
            final(self)@.in_range(),
    {
        let status = concat4("Failed to read ", self.cwd.as_str(), ": ", error);
        self.entries = Vec::new();
        self.parent = parent;
        self.selected = 0;
        self.status = status;
        assert(self@.entries =~= Seq::<FileEntry>::empty());
        Effect::Preview
    }

    /// Takes in a preview of the selected file, of which the source size is known.
    pub fn preview_shown(&mut self, source: SourceSize)
        ensures
            final(self)@ == (AppModel { preview_source: Some(source), ..old(self)@ }),
    {
        self.preview_source = Some(source);
    }

    /// Leaves the selected file without a preview.
    pub fn preview_cleared(&mut self)
        ensures
            final(self)@ == (AppModel { preview_source: None, ..old(self)@ }),
    {
        self.preview_source = None;
    }

    /// Takes in that the preview of the selected file failed.
    pub fn preview_failed(&mut self, error: &str)
        ensures
            final(self)@ == (AppModel {
                preview_source: None,
                status: "Preview failed: "@ + error@,
                ..old(self)@
            }),
    {
        self.preview_source = None;
        self.status = concat2("Preview failed: ", error);
    }

    /// Notes that the targets were compared.
    pub fn compared(&mut self, workers: usize)
        ensures
            final(self)@ == old(self)@.saying(
                "Compared "@ + decimal_text(old(self)@.targets.len()) + " target(s) with "@
                    + decimal_text(workers as nat) + " worker(s)"@,
            ),
    {
        assert(self@.targets.len() == self.targets@.len());
        let count: usize = self.targets.len();
        self.status = concat5(
            "Compared ",
            decimal(count as u64).as_str(),
            " target(s) with ",
            decimal(workers as u64).as_str(),
            " worker(s)",
        );
    }

    fn move_by(&mut self, step: usize, forward: bool) -> (effect: Effect)
        requires
            old(self)@.in_range(),
            step >= 1,
            old(self)@.entries.len() > 0 ==> step <= old(self)@.entries.len(),
        ensures
            (final(self)@, effect) == moved(
                old(self)@,
                if forward {
                    step as int
                } else {
                    -(step as int)
                },
            ),
            final(self)@.in_range(),
    {
        let count: usize = self.entries.len();
        if count == 0 {
            self.selected = 0;
            return Effect::Nothing;
        }
        let at: usize = self.selected;
        let next: usize = if forward {
            if at >= count - step {
                at - (count - step)
            } else {
                at + step
            }
        } else if at >= step {
            at - step
        } else {
            at + (count - step)
        };
        proof {
            let delta = if forward {
                step as int
            } else {
                -(step as int)
            };
            let turns = if forward && at >= count - step {
                1int
            } else if !forward && at < step {
                -1int
            } else {
                0int
            };
            assert(at + delta == turns * count + next) by (nonlinear_arith)
                requires
                    turns == 0 || turns == 1 || turns == -1,
                    turns == 0 ==> next == at + delta,
                    turns == 1 ==> next == at + delta - count,
                    turns == -1 ==> next == at + delta + count,
            ;
            vstd::arithmetic::div_mod::lemma_fundamental_div_mod_converse(
                at + delta,
                count as int,
                turns,
                next as int,
            );
        }
        self.selected = next;
        Effect::Preview
    }

    fn page(&self) -> (step: usize)
        ensures
            step == page_step(self@),
    {
        let count: usize = self.entries.len();
        if count == 0 {
            1
        } else if count < 10 {
            count
        } else {
            10
        }
    }

    /// Compares the targets, if there is a reference.
    pub fn compare_targets(&mut self) -> (effect: Effect)
        ensures
            (final(self)@, effect) == comparing(old(self)@),
    {
        if self.reference.is_none() {
            self.status = String::from_str("Select a reference image with r");
            return Effect::ForgetComparisons;
        }
        Effect::Compare
    }

    fn set_reference(&mut self, path: FilePath) -> (effect: Effect)
        ensures
            (final(self)@, effect) == with_reference(old(self)@, path@),
    {
        let rest = remove_path(&self.targets, &path);
        let status = concat2("Set reference ", short_path(&path));
        assert(path_models(self.targets@).len() == self.targets@.len());
        self.targets = rest;
        self.status = status;
        self.reference = Some(path);
        self.compare_targets()
    }

    fn toggle_target(&mut self, path: FilePath) -> (effect: Effect)
        ensures
            (final(self)@, effect) == with_target(old(self)@, path@),
    {
        if let Some(reference) = &self.reference {
            if same_path(reference, &path) {
                self.status = String::from_str("Reference is already selected");
                return Effect::Nothing;
            }
        }
        let ghost before = self.targets@;
        match find_path(&path, &self.targets) {
            Some(at) => {
                self.status = concat2("Removed target ", short_path(&path));
                let _ = self.targets.remove(at);
                assert(path_models(self.targets@) =~= path_models(before).remove(at as int));
            },
            None => {
                self.status = concat2("Added target ", short_path(&path));
                self.targets.push(path);
                assert(path_models(self.targets@) =~= path_models(before).push(path@));
            },
        }
        self.compare_targets()
    }

    fn open_or_select(&mut self) -> (effect: Effect)
        requires
            old(self)@.in_range(),
        ensures
            (final(self)@, effect) == opened(old(self)@),
            final(self)@.in_range(),
    {
        if self.selected >= self.entries.len() {
            return Effect::Nothing;
        }
        let entry = &self.entries[self.selected];
        if entry.is_dir {
            self.cwd = entry.path.text.clone();
            self.selected = 0;
            return Effect::Refresh;
        }
        if !entry.is_image {
            self.status = String::from_str("Select a still image file for comparison");
            return Effect::Nothing;
        }
        let path = entry.path.clone();
        if self.reference.is_none() {
            self.set_reference(path)
        } else {
            self.toggle_target(path)
        }
    }

    fn set_slot(&mut self, slot: Slot) -> (effect: Effect)
        requires
            old(self)@.in_range(),
        ensures
            (final(self)@, effect) == slot_set(old(self)@, slot),
            final(self)@.in_range(),
    {
        if self.selected >= self.entries.len() {
            return Effect::Nothing;
        }
        let entry = &self.entries[self.selected];
        if entry.is_dir || !entry.is_image {
            self.status = String::from_str("Select a still image file for comparison");
            return Effect::Nothing;
        }
        let path = entry.path.clone();
        let effect = match slot {
            Slot::Reference => self.set_reference(path),
            Slot::Distorted => self.toggle_target(path),
        };
        self.active_slot = slot.toggle();
        effect
    }

    fn toggle_selected(&mut self) -> (effect: Effect)
        requires
            old(self)@.in_range(),
        ensures
            (final(self)@, effect) == target_toggled(old(self)@),
            final(self)@.in_range(),
    {
        if self.selected >= self.entries.len() {
            return Effect::Nothing;
        }
        let entry = &self.entries[self.selected];
        if !entry.is_image {
            return Effect::Nothing;
        }
        let path = entry.path.clone();
        self.toggle_target(path)
    }

    fn parent_directory(&mut self) -> (effect: Effect)
        requires
            old(self)@.in_range(),
        ensures
            (final(self)@, effect) == to_parent(old(self)@),
            final(self)@.in_range(),
    {
        match &self.parent {
            None => Effect::Nothing,
            Some(parent) => {
                self.cwd = parent.clone();
                self.selected = 0;
                Effect::Refresh
            },
        }
    }

    fn set_resolution(&mut self, resolution: PreviewResolution) -> (effect: Effect)
        ensures
            (final(self)@, effect) == with_resolution(old(self)@, resolution),
    {
        self.preview_resolution = resolution;
        self.status = concat2(
            "Preview size: ",
            preview_resolution_label(resolution, self.preview_source).as_str(),
        );
        Effect::Preview
    }

    fn resize_preview(&mut self, larger: bool) -> (effect: Effect)
        ensures
            (final(self)@, effect) == with_resolution(
                old(self)@,
                resized(old(self)@.preview_resolution, old(self)@.preview_source, larger),
            ),
    {
        let next = resize(self.preview_resolution, self.preview_source, larger);
        self.set_resolution(next)
    }

    fn toggle_actual_size(&mut self) -> (effect: Effect)
        ensures
            (final(self)@, effect) == with_resolution(
                old(self)@,
                actual_toggled(old(self)@.preview_resolution, old(self)@.preview_source),
            ),
    {
        let next = match self.preview_resolution {
            PreviewResolution::Actual => match self.preview_source {
                Some(size) => PreviewResolution::Fixed { width: size.width, height: size.height },
                None => PreviewResolution::Fixed { width: 192, height: 96 },
            },
            _ => PreviewResolution::Actual,
        };
        self.set_resolution(next)
    }

    fn filter_to_selected_extension(&mut self) -> (effect: Effect)
        ensures
            (final(self)@, effect) == by_extension(old(self)@),
    {
        if self.selected >= self.entries.len() {
            return Effect::Nothing;
        }
        match &self.entries[self.selected].extension {
            None => Effect::Nothing,
            Some(extension) => {
                self.extension_filter = Some(extension.clone());
                Effect::Refresh
            },
        }
    }

    fn type_key(&mut self, key: Key) -> (effect: Effect)
        requires
            old(self)@.in_range(),
        ensures
            (final(self)@, effect) == typed(old(self)@, key),
            final(self)@.in_range(),
    {
        match key {
            Key::Esc | Key::Enter => {
                self.input_mode = InputMode::Normal;
                self.status = concat2("Filter: ", self.name_filter.as_str());
                Effect::Nothing
            },
            Key::Backspace => {
                let count: usize = self.name_filter.as_str().unicode_len();
                if count > 0 {
                    let shorter = String::from_str(
                        self.name_filter.as_str().substring_char(0, count - 1),
                    );
                    assert(shorter@ =~= self.name_filter@.drop_last());
                    self.name_filter = shorter;
                }
                Effect::Refresh
            },
            Key::Char(value) => {
                let mut longer = self.name_filter.clone();
                longer.push(value);
                self.name_filter = longer;
                Effect::Refresh
            },
            _ => Effect::Nothing,
        }
    }

    fn command_selection(&mut self, value: char) -> (effect: Option<Effect>)
        requires
            old(self)@.in_range(),
        ensures
            match effect {
                Some(effect) => (final(self)@, effect) == commanded(old(self)@, value),
                None => final(self)@ == old(self)@ && value != 'q' && value != 'k' && value != 'j'
                    && value != 'g' && value != 'G' && value != 'h' && value != 'l' && value != ' '
                    && value != 'r' && value != 'd' && value != 'c',
            },
            final(self)@.in_range(),
    {
        match value {
            'q' => Some(Effect::Quit),
            'k' => Some(self.move_by(1, false)),
            'j' => Some(self.move_by(1, true)),
            'g' => {
                self.selected = 0;
                Some(Effect::Preview)
            },
            'G' => {
                let count: usize = self.entries.len();
                self.selected = if count == 0 {
                    0
                } else {
                    count - 1
                };
                Some(Effect::Preview)
            },
            'h' => Some(self.parent_directory()),
            'l' => Some(self.open_or_select()),
            ' ' => Some(self.toggle_selected()),
            'r' => Some(self.set_slot(Slot::Reference)),
            'd' => Some(self.set_slot(Slot::Distorted)),
            'c' => Some(self.compare_targets()),
            _ => None,
        }
    }

    fn command_view(&mut self, value: char) -> (effect: Effect)
        requires
            old(self)@.in_range(),
            value != 'q' && value != 'k' && value != 'j' && value != 'g' && value != 'G' && value
                != 'h' && value != 'l' && value != ' ' && value != 'r' && value != 'd' && value
                != 'c',
        ensures
            (final(self)@, effect) == commanded(old(self)@, value),
            final(self)@.in_range(),
    {
        match value {
            '+' | '=' => self.resize_preview(true),
            '-' => self.resize_preview(false),
            'f' => {
                let fit = self.preview_fit.next();
                self.preview_fit = fit;
                self.status = concat2("Preview fit: ", fit_label(fit));
                Effect::Preview
            },
            'a' => self.toggle_actual_size(),
            'v' => {
                let mode = self.preview_mode.next();
                self.preview_mode = mode;
                self.status = concat2("Preview view: ", mode.label());
                Effect::Nothing
            },
            'i' => {
                self.show_dirs = !self.show_dirs;
                Effect::Refresh
            },
            'o' => {
                self.show_other = !self.show_other;
                Effect::Refresh
            },
            's' => {
                self.sort_mode = self.sort_mode.next();
                Effect::Refresh
            },
            'e' => self.filter_to_selected_extension(),
            'u' => {
                self.extension_filter = None;
                self.name_filter = String::new();
                self.input_mode = InputMode::Normal;
                assert(self@.name_filter =~= Seq::<char>::empty());
                Effect::Refresh
            },
            '/' => {
                self.input_mode = InputMode::Filter;
                self.status = concat2("Filter: ", self.name_filter.as_str());
                Effect::Nothing
            },
            _ => Effect::Nothing,
        }
    }

    fn command(&mut self, value: char) -> (effect: Effect)
        requires
            old(self)@.in_range(),
        ensures
            (final(self)@, effect) == commanded(old(self)@, value),
            final(self)@.in_range(),
    {
        match self.command_selection(value) {
            Some(effect) => effect,
            None => self.command_view(value),
        }
    }

    /// Handles a key.
    pub fn press(&mut self, key: Key) -> (effect: Effect)
        requires
            old(self)@.in_range(),
        ensures
            (final(self)@, effect) == pressed(old(self)@, key),
            final(self)@.in_range(),
    {
        if self.input_mode == InputMode::Filter {
            return self.type_key(key);
        }
        match key {
            Key::Char(value) => self.command(value),
            Key::Esc => Effect::Quit,
            Key::Up => self.move_by(1, false),
            Key::Down => self.move_by(1, true),
            Key::PageUp => {
                let step: usize = self.page();
                self.move_by(step, false)
            },
            Key::PageDown => {
                let step: usize = self.page();
                self.move_by(step, true)
            },
            Key::Home => self.command('g'),
            Key::End => self.command('G'),
            Key::Left => self.parent_directory(),
            Key::Enter | Key::Right => self.open_or_select(),
            Key::Tab => {
                let slot = self.active_slot.toggle();
                self.active_slot = slot;
                self.status = concat2("Target: ", slot.label());
                Effect::Nothing
            },
            Key::Backspace | Key::Other => Effect::Nothing,
        }
    }

    /// Selected file whose preview is shown; directories and other files have none.
    pub fn preview_target(&self) -> (path: Option<&FilePath>)
        ensures
            match path {
                Some(path) => self@.chosen() matches Some(entry) && !entry.is_dir
                    && !entry.is_other && path@ == entry.path@,
                None => self@.chosen() matches Some(entry) ==> entry.is_dir || entry.is_other,
            },
    {
        if self.selected >= self.entries.len() {
            return None;
        }
        let entry = &self.entries[self.selected];
        if entry.is_dir || entry.is_other {
            return None;
        }
        Some(&entry.path)
    }

    /// Target that is shown next to the reference: the selected file if it is one,
    /// else the first.
    pub fn selected_target_path(&self) -> (path: Option<&FilePath>)
        ensures
            ({
                let own = self@.chosen() matches Some(entry) && among(
                    entry.path@,
                    self@.targets,
                    0,
                ) is Some;
                match path {
                    Some(path) => if own {
                        path@ == self@.chosen()->0.path@
                    } else {
                        self@.targets.len() > 0 && path@ == self@.targets[0]
                    },
                    None => !own && self@.targets.len() == 0,
                }
            }),
    {
        if self.selected < self.entries.len() {
            let entry = &self.entries[self.selected];
            if find_path(&entry.path, &self.targets).is_some() {
                return Some(&entry.path);
            }
        }
        assert(self@.targets.len() == self.targets@.len());
        if self.targets.len() > 0 {
            Some(&self.targets[0])
        } else {
            None
        }
    }

    /// Mark of a file that is the reference or a target.
    pub fn entry_role(&self, entry: &FileEntry) -> (role: Option<&'static str>)
        ensures
            match role {
                Some(mark) => if self@.reference matches Some(reference) && reference.text
                    == entry.path@.text {
                    mark@ == "R"@
                } else {
                    mark@ == "*"@ && among(entry.path@, self@.targets, 0) is Some
                },
                None => !(self@.reference matches Some(reference) && reference.text
                    == entry.path@.text) && among(entry.path@, self@.targets, 0) is None,
            },
    {
        if let Some(reference) = &self.reference {
            if same_path(reference, &entry.path) {
                return Some("R");
            }
        }
        if find_path(&entry.path, &self.targets).is_some() {
            Some("*")
        } else {
            None
        }
    }
}

proof fn lemma_moved_stays(app: AppModel, delta: int)
    requires
        app.in_range(),
    ensures
        moved(app, delta).0.in_range(),
{
    if app.entries.len() > 0 {
        vstd::arithmetic::div_mod::lemma_mod_bound(
            app.selected + delta,
            app.entries.len() as int,
        );
    }
}

#[verifier::spinoff_prover]
proof fn lemma_commanded_stays(app: AppModel, value: char)
    requires
        app.in_range(),
    ensures
        commanded(app, value).0.in_range(),
{
    lemma_moved_stays(app, -1);
    lemma_moved_stays(app, 1);
}

/// Whatever key is pressed, the selection stays inside the list.
#[verifier::spinoff_prover]
pub proof fn law_selection_stays_inside(app: AppModel, key: Key)
    requires
        app.in_range(),
    ensures
        pressed(app, key).0.in_range(),
{
    lemma_moved_stays(app, -1);
    lemma_moved_stays(app, 1);
    lemma_moved_stays(app, page_step(app));
    lemma_moved_stays(app, -page_step(app));
    lemma_commanded_stays(app, 'g');
    lemma_commanded_stays(app, 'G');
    if let Key::Char(value) = key {
        lemma_commanded_stays(app, value);
    }
}

/// Moving down and up again comes back to the same file.
pub proof fn law_moves_are_inverse(app: AppModel)
    requires
        app.in_range(),
        app.entries.len() > 0,
    ensures
        moved(moved(app, 1).0, -1).0.selected == app.selected,
        moved(moved(app, -1).0, 1).0.selected == app.selected,
{
    let count = app.entries.len() as int;
    let at = app.selected as int;
    if at + 1 < count {
        vstd::arithmetic::div_mod::lemma_small_mod((at + 1) as nat, count as nat);
    } else {
        vstd::arithmetic::div_mod::lemma_fundamental_div_mod_converse(at + 1, count, 1, 0);
        vstd::arithmetic::div_mod::lemma_fundamental_div_mod_converse(-1, count, -1, count - 1);
    }
    vstd::arithmetic::div_mod::lemma_small_mod(at as nat, count as nat);
    if at > 0 {
        vstd::arithmetic::div_mod::lemma_small_mod((at - 1) as nat, count as nat);
    } else {
        vstd::arithmetic::div_mod::lemma_fundamental_div_mod_converse(-1, count, -1, count - 1);
        vstd::arithmetic::div_mod::lemma_fundamental_div_mod_converse(count, count, 1, 0);
    }
}

/// A path that was taken out is not among the rest.
proof fn lemma_without(paths: Seq<PathModel>, path: PathModel, count: int)
    requires
        0 <= count <= paths.len(),
    ensures
        forall|i: int|
            0 <= i < without(paths, path, count).len() ==> (#[trigger] without(
                paths,
                path,
                count,
            )[i]).text != path.text,
    decreases count,
{
    if count > 0 {
        lemma_without(paths, path, count - 1);
    }
}

/// A reference that was just set is no target.
pub proof fn law_reference_is_no_target(app: AppModel, path: PathModel)
    ensures
        with_reference(app, path).0.reference == Some(path),
        forall|i: int|
            0 <= i < with_reference(app, path).0.targets.len() ==> (
            #[trigger] with_reference(app, path).0.targets[i]).text != path.text,
{
    lemma_without(app.targets, path, app.targets.len() as int);
}

/// A new path stands at the end of the list it was added to.
proof fn lemma_added(paths: Seq<PathModel>, path: PathModel, from: int)
    requires
        0 <= from <= paths.len(),
        among(path, paths, from) is None,
    ensures
        among(path, paths.push(path), from) == Some(paths.len() as int),
    decreases paths.len() - from,
{
    reveal_with_fuel(among, 2);
    if from < paths.len() {
        lemma_added(paths, path, from + 1);
    }
}

/// Choosing a new target twice leaves the targets as they were.
pub proof fn law_target_toggles_back(app: AppModel, path: PathModel)
    requires
        app.reference matches Some(reference) && reference.text != path.text,
        among(path, app.targets, 0) is None,
    ensures
        with_target(with_target(app, path).0, path).0.targets == app.targets,
{
    lemma_added(app.targets, path, 0);
    let more = app.targets.push(path);
    assert(more.remove(app.targets.len() as int) =~= app.targets);
}

/// Comparison of one target.
#[derive(Debug)]
pub struct TargetComparison {
    /// Compared file.
    pub path: FilePath,
    /// Size and metrics, if the comparison succeeded.
    pub result: Option<ComparedTarget>,
    /// Why it failed.
    pub error: Option<String>,
}

/// A successful comparison.
#[derive(Debug)]
pub struct ComparedTarget {
    /// Size of both images.
    pub dimensions: Dimensions,
    /// Metric results.
    pub metrics: Vec<MetricEntry>,
}

/// First metric at or behind `from` with a name.
pub open spec fn metric_from(metrics: Seq<MetricEntry>, name: Seq<char>, from: int) -> Option<int>
    decreases metrics.len() - from,
{
    if from < 0 || from >= metrics.len() {
        None
    } else if metrics[from].output.name@ == name {
        Some(from)
    } else {
        metric_from(metrics, name, from + 1)
    }
}

/// Text of a score; `fixed` is the score with five decimals.
pub fn format_metric_score(entry: &MetricEntry, fixed: &str) -> (text: String)
    ensures
        text@ == if entry.output.score.finite() {
            fixed@
        } else if entry.output.score.nan() {
            "nan"@
        } else {
            "inf"@
        },
{
    if entry.output.score.is_finite() {
        String::from_str(fixed)
    } else if entry.output.score.is_nan() {
        String::from_str("nan")
    } else {
        String::from_str("inf")
    }
}

/// Finds a metric of a comparison by name.
pub fn metric_named<'a>(compared: &'a ComparedTarget, name: &str) -> (entry: Option<&'a MetricEntry>)
    ensures
        match entry {
            Some(entry) => {
                &&& metric_from(compared.metrics@, name@, 0) matches Some(at)
                &&& 0 <= at < compared.metrics@.len()
                &&& *entry == compared.metrics@[at]
            },
            None => metric_from(compared.metrics@, name@, 0) is None,
        },
{
    let mut i: usize = 0;
    while i < compared.metrics.len()
        invariant
            i <= compared.metrics@.len(),
            metric_from(compared.metrics@, name@, 0) == metric_from(
                compared.metrics@,
                name@,
                i as int,
            ),
        decreases compared.metrics@.len() - i,
    {
        if same_text(compared.metrics[i].output.name.as_str(), name) {
            return Some(&compared.metrics[i]);
        }
        i += 1;
    }
    None
}

/// Number of workers: as many as the machine offers, but not more than targets.
pub fn comparison_worker_count(available: usize, targets: usize) -> (workers: usize)
    ensures
        workers == if available <= if targets == 0 {
            1
        } else {
            targets as int
        } {
            available as int
        } else if targets == 0 {
            1
        } else {
            targets as int
        },
{
    let most: usize = if targets == 0 {
        1
    } else {
        targets
    };
    if available <= most {
        available
    } else {
        most
    }
}

/// Where the browser starts.
#[derive(Debug)]
pub enum StartDirectory {
    /// A given directory.
    Given(String),
    /// The directory of the first image.
    Beside(String),
    /// The current directory.
    Current,
}

/// Decides where the browser starts. `reference` and `distorted` hold the parents
/// of the given images; an image without a parent has an empty one.
pub fn initial_cwd(
    initial_dir: Option<String>,
    reference: Option<Option<String>>,
    distorted: Option<Option<String>>,
) -> (start: StartDirectory)
    ensures
        start == match initial_dir {
            Some(dir) => StartDirectory::Given(dir),
            None => {
                let candidate = match reference {
                    Some(parent) => parent,
                    None => match distorted {
                        Some(parent) => parent,
                        None => None,
                    },
                };
                match candidate {
                    Some(parent) => if parent@.len() > 0 {
                        StartDirectory::Beside(parent)
                    } else {
                        StartDirectory::Current
                    },
                    None => StartDirectory::Current,
                }
            },
        },
{
    if let Some(dir) = initial_dir {
        return StartDirectory::Given(dir);
    }
    let candidate = match reference {
        Some(parent) => parent,
        None => match distorted {
            Some(parent) => parent,
            None => None,
        },
    };
    match candidate {
        Some(parent) => if parent.as_str().is_empty() {
            StartDirectory::Current
        } else {
            StartDirectory::Beside(parent)
        },
        None => StartDirectory::Current,
    }
}

/// The first result of a name is found.
pub proof fn lemma_metric_first(metrics: Seq<MetricEntry>, name: Seq<char>, i: int, from: int)
    requires
        0 <= from <= i < metrics.len(),
        metrics[i].output.name@ == name,
        forall|j: int| from <= j < i ==> (#[trigger] metrics[j]).output.name@ != name,
    ensures
        metric_from(metrics, name, from) == Some(i),
    decreases i - from,
{
    if from < i {
        lemma_metric_first(metrics, name, i, from + 1);
        let metric = metrics[from];
    }
}

/// Moving changes the selection alone, and goes round at both ends: behind the last file
/// comes the first.
pub proof fn law_moves_go_round(app: AppModel, delta: int)
    requires
        app.in_range(),
        app.entries.len() > 0,
        -app.entries.len() <= delta <= app.entries.len(),
    ensures
        ({
            let count = app.entries.len() as int;
            let next = moved(app, delta).0;
            let to = app.selected + delta;
            &&& next.selected == if to < 0 {
                to + count
            } else if to >= count {
                to - count
            } else {
                to
            }
            &&& app == AppModel { selected: app.selected, ..next }
            &&& moved(app, delta).1 is Preview
        }),
{
    let count = app.entries.len() as int;
    let to = app.selected + delta;
    if to < 0 {
        vstd::arithmetic::div_mod::lemma_fundamental_div_mod_converse(to, count, -1, to + count);
    } else if to >= count {
        vstd::arithmetic::div_mod::lemma_fundamental_div_mod_converse(to, count, 1, to - count);
    } else {
        vstd::arithmetic::div_mod::lemma_small_mod(to as nat, count as nat);
    }
}

/// What the keys that move do: one file up or down, ten at a time or as many as there
/// are, to the first, and to the last.
pub proof fn law_keys_move_the_selection(app: AppModel)
    requires
        app.in_range(),
        app.entries.len() > 0,
        app.input_mode is Normal,
    ensures
        ({
            let count = app.entries.len() as int;
            let page = if count < 10 {
                count
            } else {
                10
            };
            let at = app.selected as int;
            let down = |n: int| if at + n >= count { at + n - count } else { at + n };
            let up = |n: int| if at - n < 0 { at - n + count } else { at - n };
            &&& pressed(app, Key::Down).0.selected == down(1)
            &&& pressed(app, Key::Char('j')) == pressed(app, Key::Down)
            &&& pressed(app, Key::Up).0.selected == up(1)
            &&& pressed(app, Key::Char('k')) == pressed(app, Key::Up)
            &&& pressed(app, Key::PageDown).0.selected == down(page)
            &&& pressed(app, Key::PageUp).0.selected == up(page)
            &&& pressed(app, Key::Home).0.selected == 0
            &&& pressed(app, Key::Char('g')) == pressed(app, Key::Home)
            &&& pressed(app, Key::End).0.selected == count - 1
            &&& pressed(app, Key::Char('G')) == pressed(app, Key::End)
        }),
{
    let count = app.entries.len() as int;
    let page = page_step(app);
    law_moves_go_round(app, 1);
    law_moves_go_round(app, -1);
    law_moves_go_round(app, page);
    law_moves_go_round(app, -page);
}

/// Choosing a reference takes it out of the targets and leaves the other targets in their
/// order.
pub proof fn law_reference_leaves_the_targets(app: AppModel, path: PathModel)
    ensures
        with_reference(app, path).0.reference == Some(path),
        with_reference(app, path).0.targets == app.targets.filter(
            |other: PathModel| other.text != path.text,
        ),
        with_reference(app, path).1 is Compare,
{
    lemma_without_filters(app.targets, path, app.targets.len() as int);
    assert(app.targets.take(app.targets.len() as int) =~= app.targets);
}

proof fn lemma_without_filters(paths: Seq<PathModel>, path: PathModel, count: int)
    requires
        0 <= count <= paths.len(),
    ensures
        without(paths, path, count) == paths.take(count).filter(
            |other: PathModel| other.text != path.text,
        ),
    decreases count,
{
    reveal(Seq::filter);
    if count > 0 {
        lemma_without_filters(paths, path, count - 1);
        assert(paths.take(count).drop_last() =~= paths.take(count - 1));
    }
}

/// A file that is no target becomes the last one; a target is taken out, and the others
/// keep their order. The reference never becomes a target.
pub proof fn law_targets_are_added_and_removed(app: AppModel, path: PathModel, i: int)
    requires
        0 <= i <= app.targets.len(),
        forall|j: int| 0 <= j < i ==> (#[trigger] app.targets[j]).text != path.text,
        i < app.targets.len() ==> app.targets[i].text == path.text,
    ensures
        ({
            let next = with_target(app, path).0;
            let own = app.reference matches Some(reference) && reference.text == path.text;
            &&& own ==> next.targets == app.targets
            &&& !own ==> {
                &&& i == app.targets.len() ==> next.targets == app.targets.push(path)
                &&& i < app.targets.len() ==> next.targets == app.targets.take(i)
                    + app.targets.skip(i + 1)
            }
            &&& next.reference == app.reference
            &&& next.selected == app.selected
            &&& next.entries == app.entries
        }),
{
    lemma_among(path, app.targets, i, 0);
    if i < app.targets.len() {
        assert(app.targets.remove(i) =~= app.targets.take(i) + app.targets.skip(i + 1));
    }
}

proof fn lemma_among(path: PathModel, paths: Seq<PathModel>, i: int, from: int)
    requires
        0 <= from <= i <= paths.len(),
        forall|j: int| from <= j < i ==> (#[trigger] paths[j]).text != path.text,
        i < paths.len() ==> paths[i].text == path.text,
    ensures
        among(path, paths, from) == if i < paths.len() {
            Some(i)
        } else {
            None
        },
    decreases i - from,
{
    if from < i {
        lemma_among(path, paths, i, from + 1);
        let other = paths[from];
    }
}

/// While a filter is typed, a character goes to its end and the backspace key takes it
/// away again; leaving the filter keeps it.
pub proof fn law_typing_edits_the_filter(app: AppModel, c: char)
    requires
        app.input_mode is Filter,
    ensures
        pressed(app, Key::Char(c)).0.name_filter == app.name_filter.push(c),
        pressed(pressed(app, Key::Char(c)).0, Key::Backspace).0 == app,
        pressed(app, Key::Enter).0.name_filter == app.name_filter,
        pressed(app, Key::Enter).0.input_mode is Normal,
        pressed(app, Key::Esc) == pressed(app, Key::Enter),
        app.name_filter.len() == 0 ==> pressed(app, Key::Backspace).0 == app,
{
    assert(app.name_filter.push(c).drop_last() =~= app.name_filter);
}

/// Switches change what they name and nothing else: pressed twice, the ones for
/// directories and other files are back, and clearing the filters clears both.
pub proof fn law_switches_change_their_own(app: AppModel)
    requires
        app.input_mode is Normal,
    ensures
        pressed(app, Key::Char('i')).0 == (AppModel { show_dirs: !app.show_dirs, ..app }),
        pressed(app, Key::Char('o')).0 == (AppModel { show_other: !app.show_other, ..app }),
        pressed(pressed(app, Key::Char('i')).0, Key::Char('i')).0 == app,
        pressed(pressed(app, Key::Char('o')).0, Key::Char('o')).0 == app,
        ({
            let cleared = pressed(app, Key::Char('u')).0;
            &&& cleared.extension_filter is None
            &&& cleared.name_filter.len() == 0
            &&& cleared == AppModel {
                extension_filter: cleared.extension_filter,
                name_filter: cleared.name_filter,
                ..app
            }
        }),
        app.selected < app.entries.len() ==> (app.entries[app.selected as int].extension matches Some(
            own,
        ) ==> pressed(app, Key::Char('e')).0 == (AppModel {
            extension_filter: Some(own@),
            ..app
        })),
        pressed(app, Key::Esc) == (app, Effect::Quit),
        pressed(app, Key::Char('q')) == (app, Effect::Quit),
        pressed(app, Key::Char('/')).0.input_mode is Filter,
{
}

/// Opening goes into directories and takes still images: as the reference first, and as
/// targets once there is one. Other files are not opened.
pub proof fn law_opening_files(app: AppModel)
    requires
        app.input_mode is Normal,
        app.selected < app.entries.len(),
    ensures
        ({
            let entry = app.entries[app.selected as int];
            let next = pressed(app, Key::Enter).0;
            &&& entry.is_dir ==> next.cwd == entry.path@.text && next.selected == 0
                && next.reference == app.reference && next.targets == app.targets
            &&& !entry.is_dir && entry.is_image && app.reference is None ==> next.reference
                == Some(entry.path@)
            &&& !entry.is_dir && entry.is_image && app.reference is Some ==> next
                == with_target(app, entry.path@).0
            &&& !entry.is_dir && !entry.is_image ==> next == AppModel { status: next.status, ..app }
        }),
{
}

/// The preview grows by a quarter and shrinks by a fifth, in whole steps: a growing side
/// gains one at least and stops at the largest number, a shrinking one stops at its floor.
pub proof fn law_sizes_grow_and_shrink(value: u32, floor: u32)
    ensures
        ({
            let more = grown(value) as int;
            &&& more > value || value == u32::MAX
            &&& value >= 4 && more < u32::MAX ==> 4 * (more - value) <= value < 4 * (more - value)
                + 4
            &&& value < 4 ==> more == value + 1
        }),
        ({
            let less = shrunk(value, floor) as int;
            &&& less >= floor
            &&& less > floor ==> 5 * less <= 4 * value < 5 * (less + 1)
            &&& less == floor ==> 4 * value < 5 * (floor + 1)
        }),
{
}

/// A growing preview becomes as large as the image once a side reaches it; a shrinking one
/// has a fixed size of at least 16 by 8.
pub proof fn law_previews_are_resized(width: u32, height: u32, source: Option<SourceSize>)
    ensures
        ({
            let fixed = PreviewResolution::Fixed { width, height };
            &&& match resized(fixed, source, true) {
                PreviewResolution::Max => source matches Some(size) && (grown(width) >= size.width
                    || grown(height) >= size.height),
                PreviewResolution::Fixed { width: w, height: h } => w == grown(width) && h
                    == grown(height) && (source matches Some(size) ==> w < size.width && h
                    < size.height),
                PreviewResolution::Actual => false,
            }
            &&& resized(fixed, source, false) == (PreviewResolution::Fixed {
                width: shrunk(width, 16),
                height: shrunk(height, 8),
            })
            &&& resized(PreviewResolution::Actual, source, true) is Actual
            &&& resized(PreviewResolution::Actual, source, false) is Actual
            &&& resized(PreviewResolution::Max, source, true) is Max
            &&& source matches Some(size) ==> resized(PreviewResolution::Max, source, false)
                == (PreviewResolution::Fixed {
                width: shrunk(size.width, 16),
                height: shrunk(size.height, 8),
            })
        }),
{
}

/// A path is selected where it stands first in the list.
pub proof fn law_paths_are_found_in_the_list(keys: Seq<String>, wanted: Seq<char>, i: int)
    requires
        0 <= i <= keys.len(),
        forall|j: int| 0 <= j < i ==> (#[trigger] keys[j])@ != wanted,
        i < keys.len() ==> keys[i]@ == wanted,
    ensures
        key_at(keys, wanted, 0) == if i < keys.len() {
            Some(i)
        } else {
            None
        },
{
    lemma_key_first(keys, wanted, i, 0);
}

proof fn lemma_key_first(keys: Seq<String>, wanted: Seq<char>, i: int, from: int)
    requires
        0 <= from <= i <= keys.len(),
        forall|j: int| from <= j < i ==> (#[trigger] keys[j])@ != wanted,
        i < keys.len() ==> keys[i]@ == wanted,
    ensures
        key_at(keys, wanted, from) == if i < keys.len() {
            Some(i)
        } else {
            None
        },
    decreases i - from,
{
    if from < i {
        lemma_key_first(keys, wanted, i, from + 1);
        let other = keys[from];
    }
}

/// The actual size is switched on from every other resolution and off to the image's own
/// size, or to the default where that is not known.
pub proof fn law_actual_size_is_switched(resolution: PreviewResolution, source: Option<SourceSize>)
    ensures
        !(resolution is Actual) ==> actual_toggled(resolution, source) is Actual,
        resolution is Actual ==> actual_toggled(resolution, source) == match source {
            Some(size) => PreviewResolution::Fixed { width: size.width, height: size.height },
            None => PreviewResolution::Fixed { width: 192, height: 96 },
        },
{
}

/// Setting a slot takes the selected still image as the reference or as a target and goes
/// on to the other slot; anything else is left as it is.
pub proof fn law_slots_take_images(app: AppModel)
    requires
        app.input_mode is Normal,
        app.selected < app.entries.len(),
    ensures
        ({
            let entry = app.entries[app.selected as int];
            let r = pressed(app, Key::Char('r')).0;
            let d = pressed(app, Key::Char('d')).0;
            let t = pressed(app, Key::Char(' ')).0;
            &&& !entry.is_dir && entry.is_image ==> {
                &&& r.reference == Some(entry.path@)
                &&& r.active_slot is Distorted
                &&& d.targets == with_target(app, entry.path@).0.targets
                &&& d.active_slot is Reference
            }
            &&& entry.is_dir || !entry.is_image ==> r.reference == app.reference && r.targets
                == app.targets && d.targets == app.targets
            &&& entry.is_image ==> t.targets == with_target(app, entry.path@).0.targets
            &&& !entry.is_image ==> t == app
        }),
{
}

/// Going to the parent directory changes the directory and starts at its first file; at
/// the top nothing happens.
pub proof fn law_parent_directory(app: AppModel)
    requires
        app.input_mode is Normal,
    ensures
        app.parent matches Some(parent) ==> pressed(app, Key::Left).0 == (AppModel {
            cwd: parent,
            selected: 0,
            ..app
        }),
        app.parent is None ==> pressed(app, Key::Left).0 == app,
        pressed(app, Key::Char('h')) == pressed(app, Key::Left),
        pressed(app, Key::Char('l')) == pressed(app, Key::Enter),
        pressed(app, Key::Right) == pressed(app, Key::Enter),
{
}

/// Comparing needs a reference; without one nothing is compared.
pub proof fn law_comparing_needs_a_reference(app: AppModel)
    ensures
        app.reference is Some ==> comparing(app) == (app, Effect::Compare),
        app.reference is None ==> comparing(app).1 is ForgetComparisons && comparing(app).0
            == (AppModel { status: comparing(app).0.status, ..app }),
{
}

/// The keys for a larger and a smaller preview change its resolution alone, and say so.
pub proof fn law_resolution_keys(app: AppModel)
    requires
        app.input_mode is Normal,
    ensures
        ({
            let plus = pressed(app, Key::Char('+')).0;
            let minus = pressed(app, Key::Char('-')).0;
            let actual = pressed(app, Key::Char('a')).0;
            &&& plus == AppModel {
                preview_resolution: resized(app.preview_resolution, app.preview_source, true),
                status: plus.status,
                ..app
            }
            &&& pressed(app, Key::Char('=')) == pressed(app, Key::Char('+'))
            &&& minus == AppModel {
                preview_resolution: resized(app.preview_resolution, app.preview_source, false),
                status: minus.status,
                ..app
            }
            &&& actual == AppModel {
                preview_resolution: actual_toggled(app.preview_resolution, app.preview_source),
                status: actual.status,
                ..app
            }
        }),
{
}

/// A fixed resolution is shown as its width and height, and the others with the size of
/// the image where it is known.
pub proof fn law_resolutions_are_shown(width: u32, height: u32, size: SourceSize)
    ensures
        resolution_text(PreviewResolution::Fixed { width, height }, None) == decimal_text(
            width as nat,
        ) + seq!['x'] + decimal_text(height as nat),
        resolution_text(PreviewResolution::Fixed { width, height }, Some(size)) == resolution_text(
            PreviewResolution::Fixed { width, height },
            None,
        ),
        resolution_text(PreviewResolution::Max, Some(size)) == "max "@ + (decimal_text(
            size.width as nat,
        ) + seq!['x'] + decimal_text(size.height as nat)),
        resolution_text(PreviewResolution::Actual, Some(size)) == "actual "@ + (decimal_text(
            size.width as nat,
        ) + seq!['x'] + decimal_text(size.height as nat)),
{
    reveal_strlit("x");
    assert("x"@ =~= seq!['x']);
}

/// Lists of paths are read path by path.
pub proof fn law_paths_are_read_one_by_one(paths: Seq<FilePath>, i: int)
    requires
        0 <= i < paths.len(),
    ensures
        path_models(paths).len() == paths.len(),
        path_models(paths)[i].text == paths[i].text@,
        path_models(paths)[i].name == optional_text(paths[i].name),
{
}

/// The keys that step do one step: through the slots, the orders, the views, and the fits;
/// nothing but the status beside them changes.
pub proof fn law_stepping_keys(app: AppModel)
    requires
        app.input_mode is Normal,
    ensures
        ({
            let tab = pressed(app, Key::Tab).0;
            let fit = pressed(app, Key::Char('f')).0;
            let view = pressed(app, Key::Char('v')).0;
            let sort = pressed(app, Key::Char('s')).0;
            &&& tab.active_slot != app.active_slot
            &&& tab == AppModel { active_slot: tab.active_slot, status: tab.status, ..app }
            &&& app.preview_fit is Contain ==> fit.preview_fit is Cover
            &&& app.preview_fit is Cover ==> fit.preview_fit is Stretch
            &&& app.preview_fit is Stretch ==> fit.preview_fit is Contain
            &&& fit == AppModel { preview_fit: fit.preview_fit, status: fit.status, ..app }
            &&& app.preview_mode is Current ==> view.preview_mode is SideBySide
            &&& app.preview_mode is SideBySide ==> view.preview_mode is Diff
            &&& app.preview_mode is Diff ==> view.preview_mode is Current
            &&& view == AppModel { preview_mode: view.preview_mode, status: view.status, ..app }
            &&& app.sort_mode is Name ==> sort.sort_mode is Kind
            &&& app.sort_mode is Kind ==> sort.sort_mode is Extension
            &&& app.sort_mode is Extension ==> sort.sort_mode is Modified
            &&& app.sort_mode is Modified ==> sort.sort_mode is Name
            &&& sort == AppModel { sort_mode: sort.sort_mode, ..app }
            &&& pressed(app, Key::Backspace) == (app, Effect::Nothing)
        }),
{
}

} // verus!
