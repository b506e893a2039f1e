use imq::cli::montage::PreviewImage;
use imq::cli::report::MetricEntry;
use imq::metrics::{Direction, MetricOutput, Score};
use imq::tui::cache::{PreviewCache, PreviewCacheKey};
use imq::tui::entries::{
    display_path, entry_kind, entry_prefix, is_supported_image, list_entries, matches_extension,
    matches_name_filter, path_extension, short_path, sort_entries, FileEntry, FilePath,
    ListOptions,
};
use imq::tui::layout::{centered, exact_cells, fitted_cells, panel_resolution, strip_panel, Area};
use imq::tui::modes::{
    bar_text, fit_label, on_off, FitMode, InputMode, PreviewMode, Slot, SortMode,
};
use imq::tui::panels::{
    browser_title, compared_size, comparison_row, entry_tone, metric_value, panel_key,
    preview_blocks, preview_message, preview_title, primary_metric, selected_key, strip_items,
    targets_text, EntryTone,
};
use imq::tui::state::{
    comparison_worker_count, format_metric_score, initial_cwd, metric_named,
    preview_resolution_label, requested_preview_size, App, AppConfig, ComparedTarget, Effect, Key,
    PreviewResolution, SourceSize, StartDirectory, TargetComparison,
};
use imq::Dimensions;

fn path(text: &str) -> FilePath {
    FilePath {
        text: text.to_string(),
        name: text.rsplit('/').next().map(str::to_string),
    }
}

fn file(name: &str, modified: i128) -> FileEntry {
    let is_dir = !name.contains('.');
    FileEntry::new(
        path(&format!("/work/{name}")),
        name.to_string(),
        is_dir,
        name.ends_with(".mkv"),
        name.rsplit_once('.').map(|(_, extension)| extension),
        Some(modified),
    )
}

fn names(entries: &[FileEntry]) -> Vec<&str> {
    entries.iter().map(|entry| entry.name.as_str()).collect()
}

fn options() -> ListOptions {
    ListOptions {
        show_dirs: true,
        show_other: false,
        extension_filter: None,
        name_filter: String::new(),
        sort_mode: SortMode::Name,
    }
}

fn app_with(files: Vec<FileEntry>) -> App {
    let mut app = App::new(AppConfig {
        reference: None,
        targets: vec![],
        cwd: "/work".to_string(),
        preview_resolution: PreviewResolution::Fixed {
            width: 80,
            height: 40,
        },
        actual_size: false,
    });
    app.entries_read(files, Some("/".to_string()));
    app
}

fn key(name: &str) -> PreviewCacheKey {
    PreviewCacheKey {
        path: name.to_string(),
        width: 8,
        height: 8,
        fit: FitMode::Contain,
    }
}

fn image(value: u8) -> PreviewImage {
    PreviewImage {
        width: 1,
        height: 1,
        source_width: 1,
        source_height: 1,
        pixels: vec![[value; 3]],
        source: "x".to_string(),
    }
}

#[test]
fn slots_and_modes_cycle() {
    assert_eq!(Slot::Reference.toggle().toggle(), Slot::Reference);
    assert_eq!(SortMode::Name.next().next().next().next(), SortMode::Name);
    assert_eq!(PreviewMode::Current.next().next().next(), PreviewMode::Current);
    assert_eq!(FitMode::Contain.next().next().next(), FitMode::Contain);
    assert_eq!(Slot::Reference.label(), "reference");
    assert_eq!(fit_label(FitMode::Cover), "cover");
    assert_eq!(on_off(true), "on");
    assert!(bar_text(3).contains("###"));
}

#[test]
fn entries_are_classified() {
    assert!(is_supported_image(Some("PNG")));
    assert!(!is_supported_image(Some("txt")));
    assert_eq!(path_extension(Some("JPG")).as_deref(), Some("jpg"));
    assert_eq!(file("\u{c9}T\u{c9}.PNG", 0).folded, "\u{e9}t\u{e9}.png");
    assert_eq!(entry_kind(&file("sub", 0)), 0);
    assert_eq!(entry_kind(&file("a.png", 0)), 1);
    assert_eq!(entry_kind(&file("v.mkv", 0)), 2);
    assert_eq!(entry_prefix(&file("x.txt", 0)), "file ");
    assert!(matches_extension(&Some("png".to_string()), &Some("png".to_string()), false));
    assert!(matches_extension(&Some("png".to_string()), &None, true));
    assert!(!matches_extension(&Some("png".to_string()), &None, false));
    assert!(matches_name_filter("Photo.PNG", "photo"));
    assert!(!matches_name_filter("Photo.PNG", "other"));
    assert_eq!(short_path(&path("/work/a.png")), "a.png");
    assert_eq!(display_path(&None), "<not selected>");
}

#[test]
fn listings_sort_and_filter() {
    let files = || vec![file("b.png", 1), file("A.jpg", 3), file("sub", 2), file("x.txt", 9)];
    let sorted = sort_entries(files(), SortMode::Name);
    assert_eq!(names(&sorted)[0], "sub");
    assert_eq!(names(&sorted)[1..3], ["A.jpg", "b.png"]);
    let newest = sort_entries(vec![file("b.png", 1), file("a.png", 3)], SortMode::Modified);
    assert_eq!(names(&newest), ["a.png", "b.png"]);
    let list = list_entries(None, files(), &options());
    assert_eq!(names(&list), ["sub", "A.jpg", "b.png"]);
    let list = list_entries(
        None,
        files(),
        &ListOptions {
            show_dirs: false,
            show_other: true,
            ..options()
        },
    );
    assert_eq!(list.len(), 3);
    let list = list_entries(
        Some(file("parent", 0)),
        files(),
        &ListOptions {
            name_filter: "b".to_string(),
            ..options()
        },
    );
    assert_eq!(list[0].name, "parent");
}

#[test]
fn equal_entries_keep_their_order() {
    let twin = |number: i128| file("same.png", number);
    let sorted = sort_entries(vec![twin(1), twin(2), twin(3)], SortMode::Name);
    assert_eq!(
        sorted.iter().map(|entry| entry.modified).collect::<Vec<_>>(),
        [Some(1), Some(2), Some(3)]
    );
    let other = |number: i128| file("other.png", number);
    let sorted = sort_entries(
        vec![twin(3), other(9), twin(1), file("SAME.png", 7), other(8), twin(2)],
        SortMode::Name,
    );
    assert_eq!(
        sorted.iter().map(|entry| entry.modified).collect::<Vec<_>>(),
        [Some(9), Some(8), Some(3), Some(1), Some(7), Some(2)]
    );
    let again = sort_entries(sorted, SortMode::Name);
    assert_eq!(again[0].modified, Some(9));
    assert_eq!(again[5].modified, Some(2));
}

#[test]
fn the_oldest_preview_leaves() {
    let mut cache = PreviewCache::new(2);
    cache.insert(key("a"), image(1));
    cache.insert(key("b"), image(2));
    assert_eq!(cache.get(&key("a")).unwrap().pixels, [[1; 3]]);
    cache.insert(key("c"), image(3));
    assert!(cache.get(&key("b")).is_none());
    assert!(cache.get(&key("a")).is_some());
    assert!(cache.get(&key("c")).is_some());
    cache.insert(key("a"), image(9));
    assert_eq!(cache.get(&key("a")).unwrap().pixels, [[9; 3]]);
}

#[test]
fn moves_stay_inside_the_list() {
    let mut app = app_with(vec![file("a.png", 0), file("b.png", 0), file("c.png", 0)]);
    assert!(matches!(app.press(Key::Down), Effect::Preview));
    assert_eq!(app.selected, 1);
    app.press(Key::Up);
    assert_eq!(app.selected, 0);
    app.press(Key::Up);
    assert_eq!(app.selected, 2);
    app.press(Key::Down);
    assert_eq!(app.selected, 0);
    app.press(Key::End);
    assert_eq!(app.selected, 2);
    app.press(Key::PageDown);
    assert_eq!(app.selected, 2);
    app.press(Key::Char('g'));
    assert_eq!(app.selected, 0);
    let mut empty = app_with(vec![]);
    empty.press(Key::Down);
    assert_eq!(empty.selected, 0);
    assert!(matches!(empty.press(Key::Esc), Effect::Quit));
}

#[test]
fn targets_toggle_and_compare() {
    let mut app = app_with(vec![file("a.png", 0), file("b.png", 0)]);
    app.press(Key::Char('r'));
    assert_eq!(app.reference.as_ref().unwrap().text, "/work/a.png");
    app.press(Key::Down);
    app.press(Key::Char('d'));
    assert_eq!(app.targets.len(), 1);
    assert_eq!(app.entry_role(&app.entries[0]), Some("R"));
    assert!(matches!(app.press(Key::Char('c')), Effect::Compare));
    app.compared(2);
    app.press(Key::Char('d'));
    assert!(app.targets.is_empty());
    app.press(Key::Char('r'));
    assert_eq!(app.reference.as_ref().unwrap().text, "/work/b.png");
    assert!(app.targets.iter().all(|target| target.text != "/work/b.png"));
}

#[test]
fn filters_are_typed() {
    let mut app = app_with(vec![file("a.png", 0)]);
    assert!(matches!(app.press(Key::Char('/')), Effect::Nothing));
    assert_eq!(app.input_mode, InputMode::Filter);
    app.press(Key::Char('x'));
    app.press(Key::Char('y'));
    app.press(Key::Backspace);
    assert_eq!(app.name_filter, "x");
    assert_eq!(app.list_options().name_filter, "x");
    app.press(Key::Enter);
    assert_eq!(app.input_mode, InputMode::Normal);
    assert!(matches!(app.press(Key::Char('u')), Effect::Refresh));
    assert_eq!(app.name_filter, "");
    app.press(Key::Char('e'));
    assert_eq!(app.extension_filter.as_deref(), Some("png"));
}

#[test]
fn directories_open_and_close() {
    let mut app = app_with(vec![file("sub", 0)]);
    assert!(matches!(app.press(Key::Enter), Effect::Refresh));
    assert_eq!(app.cwd, "/work/sub");
    app.entries_read(vec![], Some("/work".to_string()));
    app.press(Key::Left);
    assert_eq!(app.cwd, "/work");
    app.entries_failed("denied", Some("/".to_string()));
    assert_eq!(app.status, "Failed to read /work: denied");
    assert!(app.entries.is_empty());
    assert!(matches!(app.press(Key::Left), Effect::Refresh));
    assert_eq!(app.cwd, "/");
    app.entries_failed("denied", None);
    app.press(Key::Left);
    assert_eq!(app.cwd, "/");
}

#[test]
fn paths_can_be_selected() {
    let mut app = app_with(vec![file("a.png", 0), file("b.png", 0)]);
    let keys = vec!["/work/a.png".to_string(), "/work/b.png".to_string()];
    app.select_path("/work/b.png", &keys);
    assert_eq!(app.selected, 1);
    app.select_path("/nowhere", &keys);
    assert_eq!(app.selected, 1);
    assert_eq!(app.preview_target().unwrap().text, "/work/b.png");
    assert!(app.selected_target_path().is_none());
    assert!(!app.browser_status().is_empty());
}

#[test]
fn resolutions_resize() {
    let mut app = app_with(vec![file("a.png", 0)]);
    app.press(Key::Char('+'));
    let larger = requested_preview_size(app.preview_resolution);
    assert!(larger.0 > 80);
    app.press(Key::Char('a'));
    assert!(matches!(app.preview_resolution, PreviewResolution::Actual));
    let source = Some(SourceSize { width: 640, height: 480 });
    assert_eq!(
        preview_resolution_label(PreviewResolution::Max, source),
        "max 640x480"
    );
    assert_eq!(preview_resolution_label(PreviewResolution::Actual, None), "actual");
}

#[test]
fn layouts_fit_their_panels() {
    let area = Area { width: 40, height: 20 };
    assert_eq!(exact_cells(10, 9, area), (10, 9));
    let (columns, rows) = fitted_cells(false, 100, 100, area);
    assert!(columns <= 40 && rows <= 40);
    assert_eq!(centered(area, 10, 10), (15, 7));
    let (left, width) = strip_panel(0, 30, 3, 1);
    assert!(left >= 10 && width <= 10);
    assert_eq!(panel_resolution(area, 8, 16), (320, 320));
}

#[test]
fn scores_and_workers_are_described() {
    let entry = |value: f64| MetricEntry {
        output: MetricOutput::new(
            "psnr".to_string(),
            Score::from_bits(value.to_bits()),
            "dB".to_string(),
            Direction::HigherIsBetter,
        ),
        fixed: String::new(),
        plain: String::new(),
        details_json: String::new(),
    };
    assert_eq!(format_metric_score(&entry(1.5), "1.500"), "1.500");
    assert_eq!(format_metric_score(&entry(f64::NAN), "x"), "nan");
    assert_eq!(format_metric_score(&entry(f64::INFINITY), "x"), "inf");
    assert_eq!(comparison_worker_count(8, 3), 3);
    assert_eq!(comparison_worker_count(2, 3), 2);
    assert_eq!(comparison_worker_count(8, 0), 1);
    let compared = ComparedTarget {
        dimensions: Dimensions { width: 1, height: 1 },
        metrics: vec![entry(1.0)],
    };
    assert!(metric_named(&compared, "psnr").is_some());
    assert!(metric_named(&compared, "ssim").is_none());
}

#[test]
fn sessions_start_somewhere() {
    assert!(matches!(
        initial_cwd(Some("/x".to_string()), None, None),
        StartDirectory::Given(ref text) if text == "/x"
    ));
    assert!(matches!(
        initial_cwd(None, Some(Some("/ref".to_string())), None),
        StartDirectory::Beside(ref text) if text == "/ref"
    ));
    assert!(matches!(initial_cwd(None, None, None), StartDirectory::Current));
}

#[test]
fn previews_become_blocks() {
    let mut image = image(0);
    image.width = 2;
    image.height = 3;
    image.pixels = (0..6).map(|value| [value; 3]).collect();
    let rows = preview_blocks(&image, 2, 3, true);
    assert_eq!(rows.len(), 2);
    assert_eq!(rows[0].len(), 2);
    assert_eq!(rows[0][1].top, [1; 3]);
    assert_eq!(rows[0][1].bottom, [3; 3]);
    assert_eq!(rows[1][0].top, [4; 3]);
    assert_eq!(rows[1][0].bottom, [4; 3]);
    let rows = preview_blocks(&image, 4, 6, false);
    assert_eq!(rows.len(), 3);
    assert_eq!(rows[2][3].bottom, [5; 3]);
    assert!(preview_blocks(&image, 0, 0, true).is_empty());
}

#[test]
fn the_strip_shows_reference_and_four_targets() {
    let targets = (0..6).map(|index| path(&format!("/t/{index}.png"))).collect();
    let items = strip_items(&Some(path("/r/ref.png")), &targets);
    assert_eq!(items.len(), 5);
    assert_eq!(items[0].title, " ref: ref.png ");
    assert_eq!(items[4].title, " tgt: 3.png ");
    assert_eq!(items[4].path.text, "/t/3.png");
    assert!(strip_items(&None, &vec![]).is_empty());
}

#[test]
fn comparisons_become_rows() {
    let entry = |name: &str, value: f64| MetricEntry {
        output: MetricOutput::new(
            name.to_string(),
            Score::from_bits(value.to_bits()),
            "dB".to_string(),
            Direction::HigherIsBetter,
        ),
        fixed: format!("{value:.5}"),
        plain: String::new(),
        details_json: String::new(),
    };
    let good = TargetComparison {
        path: path("/t/a.png"),
        result: Some(ComparedTarget {
            dimensions: Dimensions { width: 4, height: 2 },
            metrics: vec![entry("psnr", 40.25), entry("ssim", f64::NAN)],
        }),
        error: None,
    };
    let bad = TargetComparison {
        path: path("/t/b.png"),
        result: None,
        error: Some("cannot decode".to_string()),
    };
    let row = comparison_row(&good, 3);
    assert_eq!(row.cells, ["a.png", "40.25000", "nan", "--", "[###.......]"]);
    assert_eq!(row.direction, Some(Direction::HigherIsBetter));
    assert!(!row.failed);
    let row = comparison_row(&bad, 0);
    assert_eq!(row.cells, ["b.png", "err", "err", "err", "cannot decode"]);
    assert!(row.failed);
    assert_eq!(metric_value(good.result.as_ref().unwrap(), "mse"), "--");
    let list = vec![bad, good];
    assert_eq!(compared_size(&list), "4x2");
    assert_eq!(primary_metric(&list), "psnr");
    assert_eq!(compared_size(&vec![]), "--");
    assert_eq!(primary_metric(&vec![]), "score");
}

#[test]
fn panels_have_titles() {
    assert_eq!(targets_text(2, PreviewMode::Diff), "2 selected (diff)");
    assert_eq!(preview_message(&None), "Select an image or video file");
    assert_eq!(preview_message(&Some("x".to_string())), "Preview failed:\nx");
    assert_eq!(
        preview_title("a.png", "80x40", FitMode::Cover),
        " preview: a.png 80x40 cover "
    );
    assert_eq!(browser_title("/work", "2 files"), " browser: /work | 2 files ");
    assert_eq!(entry_tone(&file("a.png", 0), true), EntryTone::Chosen);
    assert_eq!(entry_tone(&file("sub", 0), false), EntryTone::Directory);
    assert_eq!(entry_tone(&file("v.mkv", 0), false), EntryTone::Video);
    assert_eq!(entry_tone(&file("x.txt", 0), false), EntryTone::Other);
    assert_eq!(entry_tone(&file("a.png", 0), false), EntryTone::Plain);
}

#[test]
fn preview_keys_follow_the_panel() {
    let key = panel_key(&path("/t/a.png"), Area { width: 0, height: 9 });
    assert_eq!((key.width, key.height), (1, 18));
    let mut app = app_with(vec![file("a.png", 0), file("sub", 0)]);
    let key = selected_key(&app).unwrap();
    assert_eq!((key.width, key.height), (80, 40));
    assert_eq!(key.path, "/work/a.png");
    app.press(Key::Down);
    assert!(selected_key(&app).is_none());
    app.preview_failed("broken");
    assert_eq!(app.status, "Preview failed: broken");
    app.preview_shown(SourceSize { width: 9, height: 8 });
    assert_eq!(app.preview_source.unwrap().width, 9);
    app.preview_cleared();
    assert!(app.preview_source.is_none());
}
