//! The file list of the browser: what it shows and in which order.

use crate::strings::{
    comes_before, contains, law_found_patterns_are_parts, lemma_precedes_total,
    lemma_precedes_transitive, lowered, position_from, precedes, to_ascii_lowercase,
};
use crate::text::{optional_text, same_text};
use crate::tui::modes::SortMode;
use vstd::prelude::*;

verus! {

/// A path and its last component.
#[derive(Debug)]
pub struct FilePath {
    /// The path in normal form.
    pub text: String,
    /// The last component, if there is one.
    pub name: Option<String>,
}

/// A path as a mathematical value.
#[verifier::ext_equal]
pub struct PathModel {
    pub text: Seq<char>,
    pub name: Option<Seq<char>>,
}

impl View for FilePath {
    type V = PathModel;

    open spec fn view(&self) -> PathModel {
        PathModel { text: self.text@, name: optional_text(self.name) }
    }
}

impl Clone for FilePath {
    fn clone(&self) -> (copy: Self)
        ensures
            copy@ == self@,
    {
        Self {
            text: self.text.clone(),
            name: match &self.name {
                Some(name) => Some(name.clone()),
                None => None,
            },
        }
    }
}

/// Short form of a path.
pub open spec fn short_text(path: PathModel) -> Seq<char> {
    match path.name {
        Some(name) => name,
        None => path.text,
    }
}

/// Returns the last component of a path, or the whole path.
pub fn short_path(path: &FilePath) -> (text: &str)
    ensures
        text@ == short_text(path@),
{
    match &path.name {
        Some(name) => name.as_str(),
        None => path.text.as_str(),
    }
}

/// Returns a path as shown, or a placeholder.
pub fn display_path(path: &Option<FilePath>) -> (text: &str)
    ensures
        text@ == match *path {
            Some(path) => path.text@,
            None => "<not selected>"@,
        },
{
    match path {
        Some(path) => path.text.as_str(),
        None => "<not selected>",
    }
}

/// One line of the file list.
#[derive(Debug)]
pub struct FileEntry {
    /// Path of the file.
    pub path: FilePath,
    /// Name shown.
    pub name: String,
    /// Name in lower case, by which it is ordered.
    pub folded: String,
    /// It is a directory.
    pub is_dir: bool,
    /// It is a still image.
    pub is_image: bool,
    /// It is a video.
    pub is_video: bool,
    /// It is something else.
    pub is_other: bool,
    /// Extension in lower case.
    pub extension: Option<String>,
    /// Time of the last change in nanoseconds.
    pub modified: Option<i128>,
}

/// Extensions of still images, in lower case.
pub open spec fn is_image_name(extension: Seq<char>) -> bool {
    ||| extension == "avif"@
    ||| extension == "bmp"@
    ||| extension == "dds"@
    ||| extension == "exr"@
    ||| extension == "ff"@
    ||| extension == "gif"@
    ||| extension == "hdr"@
    ||| extension == "ico"@
    ||| extension == "jpg"@
    ||| extension == "jpeg"@
    ||| extension == "png"@
    ||| extension == "pnm"@
    ||| extension == "qoi"@
    ||| extension == "tga"@
    ||| extension == "tif"@
    ||| extension == "tiff"@
    ||| extension == "webp"@
}

/// Tells from an extension whether a file is a still image.
pub fn is_supported_image(extension: Option<&str>) -> (yes: bool)
    ensures
        yes == (extension matches Some(text) && is_image_name(lowered(text@))),
{
    match extension {
        None => false,
        Some(text) => {
            let lower = to_ascii_lowercase(text);
            let name = lower.as_str();
            same_text(name, "avif") || same_text(name, "bmp") || same_text(name, "dds")
                || same_text(name, "exr") || same_text(name, "ff") || same_text(name, "gif")
                || same_text(name, "hdr") || same_text(name, "ico") || same_text(name, "jpg")
                || same_text(name, "jpeg") || same_text(name, "png") || same_text(name, "pnm")
                || same_text(name, "qoi") || same_text(name, "tga") || same_text(name, "tif")
                || same_text(name, "tiff") || same_text(name, "webp")
        },
    }
}

/// Lower case of an extension.
pub fn path_extension(extension: Option<&str>) -> (lower: Option<String>)
    ensures
        optional_text(lower) == match extension {
            Some(text) => Some(lowered(text@)),
            None => None,
        },
{
    match extension {
        Some(text) => Some(to_ascii_lowercase(text)),
        None => None,
    }
}

/// A text in lower case by the rules of Unicode.
pub uninterp spec fn lowercase_text(text: Seq<char>) -> Seq<char>;

/// Calls `str::to_lowercase`, which maps every character by the Unicode property
/// `Lowercase`; the result depends on the text alone.
#[verifier::external_body]
fn lowercase(text: &str) -> (lower: String)
    ensures
        lower@ == lowercase_text(text@),
{
    text.to_lowercase()
}

impl FileEntry {
    /// Describes a file found in a directory.
    pub fn new(
        path: FilePath,
        name: String,
        is_dir: bool,
        is_video: bool,
        extension: Option<&str>,
        modified: Option<i128>,
    ) -> (entry: Self)
        ensures
            entry.path == path,
            entry.name == name,
            entry.folded@ == lowercase_text(name@),
            entry.is_dir == is_dir,
            entry.is_video == is_video,
            entry.is_image == (extension matches Some(text) && is_image_name(lowered(text@))),
            entry.is_other == (!is_dir && !entry.is_image && !is_video),
            optional_text(entry.extension) == match extension {
                Some(text) => Some(lowered(text@)),
                None => None,
            },
            entry.modified == modified,
    {
        let is_image = is_supported_image(extension);
        let folded = lowercase(name.as_str());
        Self {
            path,
            name,
            folded,
            is_dir,
            is_image,
            is_video,
            is_other: !is_dir && !is_image && !is_video,
            extension: path_extension(extension),
            modified,
        }
    }
}

/// Kind of a file as a number.
pub open spec fn kind_of(entry: FileEntry) -> u8 {
    if entry.is_dir {
        0
    } else if entry.is_image {
        1
    } else if entry.is_video {
        2
    } else {
        3
    }
}

/// Returns the kind of a file as a number.
pub fn entry_kind(entry: &FileEntry) -> (kind: u8)
    ensures
        kind == kind_of(*entry),
{
    if entry.is_dir {
        0
    } else if entry.is_image {
        1
    } else if entry.is_video {
        2
    } else {
        3
    }
}

/// Returns the mark shown before a file.
pub fn entry_prefix(entry: &FileEntry) -> (text: &'static str)
    ensures
        text@ == match kind_of(*entry) {
            0 => "dir  "@,
            1 => "img  "@,
            2 => "vid  "@,
            _ => "file "@,
        },
{
    if entry.is_dir {
        "dir  "
    } else if entry.is_image {
        "img  "
    } else if entry.is_video {
        "vid  "
    } else {
        "file "
    }
}

/// Tells whether an extension passes the filter; directories always do.
pub fn matches_extension(filter: &Option<String>, extension: &Option<String>, is_dir: bool) -> (yes:
    bool)
    ensures
        yes == (is_dir || filter is None || optional_text(*filter) == optional_text(*extension)),
{
    if is_dir {
        return true;
    }
    match filter {
        None => true,
        Some(wanted) => match extension {
            Some(found) => same_text(wanted.as_str(), found.as_str()),
            None => false,
        },
    }
}

/// Tells whether a name contains the filter, regardless of case.
pub fn matches_name_filter(name: &str, filter: &str) -> (yes: bool)
    ensures
        yes == (filter@.len() == 0 || position_from(lowered(name@), lowered(filter@), 0) is Some),
{
    if filter.is_empty() {
        return true;
    }
    contains(to_ascii_lowercase(name).as_str(), to_ascii_lowercase(filter).as_str())
}

/// What the file list shows.
#[derive(Debug)]
pub struct ListOptions {
    /// Show directories.
    pub show_dirs: bool,
    /// Show files that are neither images nor videos.
    pub show_other: bool,
    /// Extension that files must have.
    pub extension_filter: Option<String>,
    /// Text that names must contain.
    pub name_filter: String,
    /// Order.
    pub sort_mode: SortMode,
}

/// Whether the list shows a file.
pub open spec fn shown(entry: FileEntry, options: ListOptions) -> bool {
    &&& entry.is_dir ==> options.show_dirs
    &&& entry.is_other ==> options.show_other
    &&& entry.is_dir || options.extension_filter is None || optional_text(options.extension_filter)
        == optional_text(entry.extension)
    &&& options.name_filter@.len() == 0 || position_from(
        lowered(entry.name@),
        lowered(options.name_filter@),
        0,
    ) is Some
}

fn is_shown(entry: &FileEntry, options: &ListOptions) -> (yes: bool)
    ensures
        yes == shown(*entry, *options),
{
    (!entry.is_dir || options.show_dirs) && (!entry.is_other || options.show_other)
        && matches_extension(&options.extension_filter, &entry.extension, entry.is_dir)
        && matches_name_filter(entry.name.as_str(), options.name_filter.as_str())
}

/// Whether a missing or present text stands before another; missing ones come
/// first.
pub open spec fn optional_before(a: Option<String>, b: Option<String>) -> bool {
    match (a, b) {
        (_, None) => false,
        (None, Some(_)) => true,
        (Some(x), Some(y)) => precedes(x@, y@),
    }
}

/// Whether a missing or present time is older than another; missing ones are
/// oldest.
pub open spec fn older(a: Option<i128>, b: Option<i128>) -> bool {
    match (a, b) {
        (_, None) => false,
        (None, Some(_)) => true,
        (Some(x), Some(y)) => x < y,
    }
}

/// Whether the order looks at something before the name, and puts `a` first by it.
pub open spec fn before_by_mode(a: FileEntry, b: FileEntry, mode: SortMode) -> bool {
    match mode {
        SortMode::Name => false,
        SortMode::Kind => kind_of(a) < kind_of(b),
        SortMode::Extension => optional_before(a.extension, b.extension),
        SortMode::Modified => older(b.modified, a.modified),
    }
}

/// Whether a file stands before another: directories first, then by the order,
/// then by name.
pub open spec fn stands_before(a: FileEntry, b: FileEntry, mode: SortMode) -> bool {
    if a.is_dir != b.is_dir {
        a.is_dir
    } else if before_by_mode(a, b, mode) || before_by_mode(b, a, mode) {
        before_by_mode(a, b, mode)
    } else {
        precedes(a.folded@, b.folded@)
    }
}

fn mode_puts_first(a: &FileEntry, b: &FileEntry, mode: SortMode) -> (yes: bool)
    ensures
        yes == before_by_mode(*a, *b, mode),
{
    match mode {
        SortMode::Name => false,
        SortMode::Kind => entry_kind(a) < entry_kind(b),
        SortMode::Extension => match (&a.extension, &b.extension) {
            (_, None) => false,
            (None, Some(_)) => true,
            (Some(x), Some(y)) => comes_before(x.as_str(), y.as_str()),
        },
        SortMode::Modified => match (b.modified, a.modified) {
            (_, None) => false,
            (None, Some(_)) => true,
            (Some(x), Some(y)) => x < y,
        },
    }
}

fn goes_before(a: &FileEntry, b: &FileEntry, mode: SortMode) -> (yes: bool)
    ensures
        yes == stands_before(*a, *b, mode),
{
    if a.is_dir != b.is_dir {
        return a.is_dir;
    }
    if mode_puts_first(a, b, mode) {
        return true;
    }
    if mode_puts_first(b, a, mode) {
        return false;
    }
    comes_before(a.folded.as_str(), b.folded.as_str())
}

/// First position at or behind `from` whose file stands behind an entry.
pub open spec fn place_from(list: Seq<FileEntry>, entry: FileEntry, mode: SortMode, from: int) -> int
    decreases list.len() - from,
{
    if from < 0 || from >= list.len() {
        list.len() as int
    } else if stands_before(entry, list[from], mode) {
        from
    } else {
        place_from(list, entry, mode, from + 1)
    }
}

/// The first `count` files in order; files that are equal in the order keep their
/// sequence.
pub open spec fn sorted_first(files: Seq<FileEntry>, mode: SortMode, count: int) -> Seq<FileEntry>
    decreases count,
{
    if count <= 0 {
        Seq::empty()
    } else {
        let before = sorted_first(files, mode, count - 1);
        before.insert(place_from(before, files[count - 1], mode, 0), files[count - 1])
    }
}

/// Files in order.
pub open spec fn sorted(files: Seq<FileEntry>, mode: SortMode) -> Seq<FileEntry> {
    sorted_first(files, mode, files.len() as int)
}

/// The place for an entry lies in the list or at its end, behind everything that
/// does not stand behind the entry.
proof fn lemma_place(list: Seq<FileEntry>, entry: FileEntry, mode: SortMode, from: int)
    requires
        0 <= from <= list.len(),
    ensures
        from <= place_from(list, entry, mode, from) <= list.len(),
        forall|j: int|
            from <= j < place_from(list, entry, mode, from) ==> !stands_before(
                entry,
                #[trigger] list[j],
                mode,
            ),
        place_from(list, entry, mode, from) < list.len() ==> stands_before(
            entry,
            list[place_from(list, entry, mode, from)],
            mode,
        ),
    decreases list.len() - from,
{
    if from < list.len() && !stands_before(entry, list[from], mode) {
        lemma_place(list, entry, mode, from + 1);
    }
}

/// Sorting keeps the number of files.
proof fn lemma_sorted_len(files: Seq<FileEntry>, mode: SortMode, count: int)
    requires
        0 <= count,
    ensures
        sorted_first(files, mode, count).len() == count,
    decreases count,
{
    if count > 0 {
        lemma_sorted_len(files, mode, count - 1);
        lemma_place(sorted_first(files, mode, count - 1), files[count - 1], mode, 0);
    }
}

/// Puts files in order; files that are equal in the order keep their sequence.
pub fn sort_entries(files: Vec<FileEntry>, mode: SortMode) -> (list: Vec<FileEntry>)
    ensures
        list@ == sorted(files@, mode),
{
    let ghost all = files@;
    let mut left = files;
    let mut list: Vec<FileEntry> = Vec::new();
    let total: usize = left.len();
    let mut count: usize = 0;
    assert(all.skip(0) =~= all);
    while count < total
        invariant
            count <= total,
            total == all.len(),
            left@ == all.skip(count as int),
            list@ == sorted_first(all, mode, count as int),
        decreases total - count,
    {
        let entry = left.remove(0);
        assert(entry == all[count as int]);
        assert(left@ =~= all.skip(count + 1));
        let mut at: usize = 0;
        while at < list.len() && !goes_before(&entry, &list[at], mode)
            invariant
                at <= list@.len(),
                place_from(list@, entry, mode, 0) == place_from(list@, entry, mode, at as int),
            decreases list@.len() - at,
        {
            at += 1;
        }
        assert(place_from(list@, entry, mode, at as int) == at);
        list.insert(at, entry);
        count += 1;
    }
    list
}

/// Lists a directory: the parent first, then the files that are shown, in order.
pub fn list_entries(parent: Option<FileEntry>, files: Vec<FileEntry>, options: &ListOptions) -> (list:
    Vec<FileEntry>)
    ensures
        ({
            let body = sorted(
                files@.filter(|entry: FileEntry| shown(entry, *options)),
                options.sort_mode,
            );
            list@ == match parent {
                Some(entry) => if options.show_dirs {
                    seq![entry] + body
                } else {
                    body
                },
                None => body,
            }
        }),
{
    let ghost wanted = |entry: FileEntry| shown(entry, *options);
    let ghost all = files@;
    let mut left = files;
    let mut kept: Vec<FileEntry> = Vec::new();
    let total: usize = left.len();
    let mut count: usize = 0;
    proof {
        reveal(Seq::filter);
        assert(all.skip(0) =~= all);
        assert(all.take(0).filter(wanted) =~= Seq::<FileEntry>::empty());
    }
    while count < total
        invariant
            count <= total,
            total == all.len(),
            wanted == (|entry: FileEntry| shown(entry, *options)),
            left@ == all.skip(count as int),
            kept@ == all.take(count as int).filter(wanted),
        decreases total - count,
    {
        let entry = left.remove(0);
        assert(entry == all[count as int]);
        assert(left@ =~= all.skip(count + 1));
        proof {
            reveal(Seq::filter);
            assert(all.take(count + 1).drop_last() =~= all.take(count as int));
            assert(all.take(count + 1).last() == entry);
        }
        if is_shown(&entry, options) {
            kept.push(entry);
        }
        count += 1;
    }
    assert(all.take(total as int) =~= all);
    let mut list = sort_entries(kept, options.sort_mode);
    if options.show_dirs {
        if let Some(entry) = parent {
            let ghost body = list@;
            list.insert(0, entry);
            assert(list@ =~= seq![entry] + body);
        }
    }
    list
}

/// Sorting neither loses nor invents a file.
pub proof fn law_sorting_keeps_files(files: Seq<FileEntry>, mode: SortMode, count: int)
    requires
        0 <= count <= files.len(),
    ensures
        sorted_first(files, mode, count).to_multiset() == files.take(count).to_multiset(),
    decreases count,
{
    if count > 0 {
        let before = sorted_first(files, mode, count - 1);
        let entry = files[count - 1];
        law_sorting_keeps_files(files, mode, count - 1);
        lemma_place(before, entry, mode, 0);
        let at = place_from(before, entry, mode, 0);
        before.to_multiset_ensures();
        files.take(count - 1).to_multiset_ensures();
        vstd::seq_lib::to_multiset_insert(before, at, entry);
        assert(files.take(count) =~= files.take(count - 1).push(entry));
        assert(sorted_first(files, mode, count).to_multiset() =~= files.take(
            count,
        ).to_multiset());
    } else {
        assert(files.take(0) =~= sorted_first(files, mode, 0));
    }
}

/// The order by mode is one: no cycle, and equality passes on.
proof fn lemma_mode_order(a: FileEntry, b: FileEntry, c: FileEntry, mode: SortMode)
    ensures
        !(before_by_mode(a, b, mode) && before_by_mode(b, a, mode)),
        !before_by_mode(b, a, mode) && !before_by_mode(c, b, mode) ==> !before_by_mode(c, a, mode),
{
    if mode is Extension {
        if let (Some(x), Some(y)) = (a.extension, b.extension) {
            lemma_precedes_total(x@, y@);
        }
        if let (Some(x), Some(y), Some(z)) = (a.extension, b.extension, c.extension) {
            lemma_precedes_total(x@, y@);
            lemma_precedes_total(y@, z@);
            lemma_precedes_total(x@, z@);
            if precedes(x@, y@) && precedes(y@, z@) {
                lemma_precedes_transitive(x@, y@, z@);
            }
        }
    }
}

/// Not standing behind passes on.
proof fn lemma_order(a: FileEntry, b: FileEntry, c: FileEntry, mode: SortMode)
    ensures
        !(stands_before(a, b, mode) && stands_before(b, a, mode)),
        !stands_before(b, a, mode) && !stands_before(c, b, mode) ==> !stands_before(c, a, mode),
{
    lemma_mode_order(a, b, c, mode);
    lemma_mode_order(b, a, c, mode);
    lemma_mode_order(a, c, b, mode);
    lemma_mode_order(c, b, a, mode);
    lemma_mode_order(b, c, a, mode);
    lemma_mode_order(c, a, b, mode);
    lemma_precedes_total(a.folded@, b.folded@);
    lemma_precedes_total(b.folded@, c.folded@);
    lemma_precedes_total(a.folded@, c.folded@);
    if precedes(a.folded@, b.folded@) && precedes(b.folded@, c.folded@) {
        lemma_precedes_transitive(a.folded@, b.folded@, c.folded@);
    }
}

/// Whether no file stands behind one that should follow it.
pub open spec fn in_order(list: Seq<FileEntry>, mode: SortMode) -> bool {
    forall|i: int, j: int|
        0 <= i < j < list.len() ==> !stands_before(#[trigger] list[j], #[trigger] list[i], mode)
}

/// Sorted files are in order.
pub proof fn law_sorted_is_in_order(files: Seq<FileEntry>, mode: SortMode, count: int)
    requires
        0 <= count <= files.len(),
    ensures
        in_order(sorted_first(files, mode, count), mode),
    decreases count,
{
    if count > 0 {
        let before = sorted_first(files, mode, count - 1);
        let entry = files[count - 1];
        law_sorted_is_in_order(files, mode, count - 1);
        lemma_place(before, entry, mode, 0);
        let at = place_from(before, entry, mode, 0);
        let after = before.insert(at, entry);
        assert forall|i: int, j: int| 0 <= i < j < after.len() implies !stands_before(
            #[trigger] after[j],
            #[trigger] after[i],
            mode,
        ) by {
            let a = if i < at {
                i
            } else {
                i - 1
            };
            let b = if j < at {
                j
            } else {
                j - 1
            };
            if i != at {
                assert(after[i] == before[a]);
            }
            if j != at {
                assert(after[j] == before[b]);
            }
            if i == at {
                lemma_order(entry, before[at], before[b], mode);
                if b > at {
                    assert(!stands_before(before[b], before[at], mode));
                }
            } else if j == at {
                assert(!stands_before(entry, before[a], mode));
            } else {
                assert(!stands_before(before[b], before[a], mode));
            }
        }
    }
}

/// Whether a file is equal to another in the order: neither stands before the other.
pub open spec fn alike(other: FileEntry, mode: SortMode) -> spec_fn(FileEntry) -> bool {
    |entry: FileEntry| !stands_before(entry, other, mode) && !stands_before(other, entry, mode)
}

/// Files that are equal in the order keep their sequence: for every entry, the files
/// equal to it come in the same sequence before and after sorting.
pub proof fn law_sorting_is_stable(
    files: Seq<FileEntry>,
    mode: SortMode,
    count: int,
    other: FileEntry,
)
    requires
        0 <= count <= files.len(),
    ensures
        sorted_first(files, mode, count).filter(alike(other, mode)) == files.take(count).filter(
            alike(other, mode),
        ),
    decreases count,
{
    let equal = alike(other, mode);
    reveal(Seq::filter);
    if count > 0 {
        law_sorting_is_stable(files, mode, count - 1, other);
        law_sorted_is_in_order(files, mode, count - 1);
        let before = sorted_first(files, mode, count - 1);
        let entry = files[count - 1];
        lemma_place(before, entry, mode, 0);
        let at = place_from(before, entry, mode, 0);
        let head = before.take(at);
        let tail = before.skip(at);
        assert(before =~= head + tail);
        assert(before.insert(at, entry) =~= head.push(entry) + tail);
        Seq::filter_distributes_over_add(head, tail, equal);
        Seq::filter_distributes_over_add(head.push(entry), tail, equal);
        assert(head.push(entry).drop_last() =~= head);
        assert(files.take(count).drop_last() =~= files.take(count - 1));
        if equal(entry) {
            assert forall|j: int| 0 <= j < tail.len() implies !equal(#[trigger] tail[j]) by {
                let later = before[at + j];
                lemma_order(later, other, entry, mode);
                lemma_order(before[at], later, entry, mode);
                lemma_order(later, before[at], entry, mode);
            }
            lemma_filter_none(tail, equal);
            assert(head.filter(equal) + tail.filter(equal) =~= head.filter(equal));
            assert(head.filter(equal).push(entry) + tail.filter(equal) =~= head.filter(
                equal,
            ).push(entry));
        }
    } else {
        assert(files.take(0) =~= sorted_first(files, mode, 0));
    }
}

/// Filtering a list without a wanted file leaves nothing.
proof fn lemma_filter_none(list: Seq<FileEntry>, wanted: spec_fn(FileEntry) -> bool)
    requires
        forall|j: int| 0 <= j < list.len() ==> !wanted(#[trigger] list[j]),
    ensures
        list.filter(wanted) == Seq::<FileEntry>::empty(),
    decreases list.len(),
{
    reveal(Seq::filter);
    if list.len() > 0 {
        assert forall|j: int| 0 <= j < list.drop_last().len() implies !wanted(
            #[trigger] list.drop_last()[j],
        ) by {
            assert(list.drop_last()[j] == list[j]);
        }
        lemma_filter_none(list.drop_last(), wanted);
        assert(!wanted(list[list.len() - 1]));
    }
}

/// Files that are in order already keep their places.
pub proof fn law_sorted_stays_sorted(files: Seq<FileEntry>, mode: SortMode, count: int)
    requires
        in_order(files, mode),
        0 <= count <= files.len(),
    ensures
        sorted_first(files, mode, count) == files.take(count),
    decreases count,
{
    if count > 0 {
        law_sorted_stays_sorted(files, mode, count - 1);
        let before = files.take(count - 1);
        let entry = files[count - 1];
        lemma_place(before, entry, mode, 0);
        let at = place_from(before, entry, mode, 0);
        if at < before.len() {
            assert(before[at] == files[at]);
            assert(!stands_before(files[count - 1], files[at], mode));
        }
        assert(before.insert(at, entry) =~= files.take(count));
    } else {
        assert(files.take(0) =~= sorted_first(files, mode, 0));
    }
}

/// Where one file stands before another: directories come first; by kind, images come
/// before videos and these before the rest; by extension, files without one come first
/// and the others in dictionary order; by time, the newest comes first and unknown times
/// last. Whatever the mode leaves open the names decide, and by name nothing else does.
pub proof fn law_places_of_files(a: FileEntry, b: FileEntry)
    ensures
        forall|mode: SortMode|
            a.is_dir && !b.is_dir ==> #[trigger] stands_before(a, b, mode) && !stands_before(
                b,
                a,
                mode,
            ),
        a.is_dir == b.is_dir ==> (stands_before(a, b, SortMode::Name) <==> precedes(
            a.folded@,
            b.folded@,
        )),
        !a.is_dir && !b.is_dir && a.is_image && !b.is_image ==> stands_before(a, b, SortMode::Kind)
            && !stands_before(b, a, SortMode::Kind),
        !a.is_dir && !b.is_dir && !a.is_image && !b.is_image && a.is_video && !b.is_video
            ==> stands_before(a, b, SortMode::Kind) && !stands_before(b, a, SortMode::Kind),
        a.is_dir == b.is_dir && a.is_image == b.is_image && a.is_video == b.is_video ==> (
        stands_before(a, b, SortMode::Kind) <==> precedes(a.folded@, b.folded@)),
        a.is_dir == b.is_dir && a.extension is None && b.extension is Some ==> stands_before(
            a,
            b,
            SortMode::Extension,
        ) && !stands_before(b, a, SortMode::Extension),
        a.is_dir == b.is_dir && optional_text(a.extension) == optional_text(b.extension) ==> (
        stands_before(a, b, SortMode::Extension) <==> precedes(a.folded@, b.folded@)),
        a.is_dir == b.is_dir && a.extension is Some && b.extension is Some && precedes(
            a.extension->Some_0@,
            b.extension->Some_0@,
        ) ==> stands_before(a, b, SortMode::Extension) && !stands_before(
            b,
            a,
            SortMode::Extension,
        ),
        a.is_dir == b.is_dir && a.modified is Some && (b.modified is None || a.modified->Some_0
            > b.modified->Some_0) ==> stands_before(a, b, SortMode::Modified) && !stands_before(
            b,
            a,
            SortMode::Modified,
        ),
        a.is_dir == b.is_dir && a.modified == b.modified ==> (stands_before(
            a,
            b,
            SortMode::Modified,
        ) <==> precedes(a.folded@, b.folded@)),
{
    if a.extension is Some && b.extension is Some {
        lemma_precedes_total(a.extension->Some_0@, b.extension->Some_0@);
    }
    if optional_text(a.extension) == optional_text(b.extension) {
        assert(a.extension is Some <==> b.extension is Some);
    }
    assert forall|mode: SortMode| a.is_dir && !b.is_dir implies #[trigger] stands_before(a, b, mode)
        && !stands_before(b, a, mode) by {}
}

/// Which files are listed: directories and other files only where they are asked for,
/// files of one extension where one is asked for, directories whatever their extension,
/// and names that hold the filter in any case of ASCII letters.
pub proof fn law_listed_files(entry: FileEntry, options: ListOptions)
    ensures
        shown(entry, options) <==> {
            &&& entry.is_dir ==> options.show_dirs
            &&& entry.is_other ==> options.show_other
            &&& !entry.is_dir ==> (options.extension_filter matches Some(wanted) ==> (
            entry.extension matches Some(own) && own@ == wanted@))
            &&& exists|before: Seq<char>, behind: Seq<char>|
                lowered(entry.name@) == #[trigger] (before + lowered(options.name_filter@)
                    + behind)
        },
{
    let name = lowered(entry.name@);
    let filter = lowered(options.name_filter@);
    law_found_patterns_are_parts(name, filter);
    if options.name_filter@.len() == 0 {
        assert(filter =~= Seq::<char>::empty());
        assert(name =~= name + filter + Seq::<char>::empty());
    }
}

} // verus!
