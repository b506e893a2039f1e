//! Packing of images into bundles and inspection of bundles.

use crate::cli::CliResult;
use crate::frame::{ColorRange, ColorSpace, FrameOwned, PlaneModel, Transfer};
use crate::imqraw::{RawImageBundle, RawImageRecord, RecordModel};
use crate::strings::{
    join, joined, law_lower_case_moves_capitals, law_reading_undoes_writing,
    law_split_first_cuts_once, law_split_first_finds_the_token, lemma_decimal_digits, lowered,
    number_in, parse_number, split_first, split_once, to_ascii_lowercase,
};
use crate::text::{
    concat3, concat4, concat5, copy_texts, decimal, decimal_text, optional_text,
    same_text, texts,
};
use vstd::prelude::*;

verus! {

/// Labels of packed images: the given ones, or the inputs.
pub fn pack_labels(inputs: &Vec<String>, labels: &Vec<String>) -> (result: CliResult<Vec<String>>)
    ensures
        match result {
            Ok(used) => {
                &&& labels@.len() == 0 || labels@.len() == inputs@.len()
                &&& texts(used@) == if labels@.len() == 0 {
                    texts(inputs@)
                } else {
                    texts(labels@)
                }
            },
            Err(message) => labels@.len() != 0 && labels@.len() != inputs@.len() && message@
                == "--label must be passed once per input when used; got "@ + decimal_text(
                labels@.len(),
            ) + " label(s) for "@ + decimal_text(inputs@.len()) + " input(s)"@,
        },
{
    let given: usize = labels.len();
    let wanted: usize = inputs.len();
    if given != 0 && given != wanted {
        return Err(
            concat5(
                "--label must be passed once per input when used; got ",
                decimal(given as u64).as_str(),
                " label(s) for ",
                decimal(wanted as u64).as_str(),
                " input(s)",
            ),
        );
    }
    Ok(
        if given == 0 {
            copy_texts(inputs)
        } else {
            copy_texts(labels)
        },
    )
}

/// Which inputs a tag is attached to.
pub enum TagTarget {
    /// All of them.
    Every(Seq<char>),
    /// The one at a zero-based index.
    One(int, Seq<char>),
}

/// What a tag text asks for: `TAG` and `all:TAG` tag all inputs, `n:TAG` tags the
/// `n`-th.
pub open spec fn tag_target(spec_text: Seq<char>, inputs: nat) -> core::result::Result<
    TagTarget,
    Seq<char>,
> {
    match split_first(spec_text, ":"@) {
        None => Ok(TagTarget::Every(spec_text)),
        Some((target, tag)) => if lowered(target) == "all"@ {
            Ok(TagTarget::Every(tag))
        } else {
            match number_in(target, usize::MAX as nat) {
                None => Err("invalid tag target `"@ + target + "` in `"@ + spec_text + "`"@),
                Some(number) => if 1 <= number <= inputs {
                    Ok(TagTarget::One(number - 1, tag))
                } else {
                    Err(
                        "tag target `"@ + target + "` is out of range; use 1..="@ + decimal_text(
                            inputs,
                        ),
                    )
                },
            }
        },
    }
}

/// Message for the first of the first `count` tag texts that is refused.
pub open spec fn tags_fault(specs: Seq<String>, inputs: nat, count: int) -> Option<Seq<char>>
    decreases count,
{
    if count <= 0 {
        None
    } else if tags_fault(specs, inputs, count - 1) is Some {
        tags_fault(specs, inputs, count - 1)
    } else {
        match tag_target(specs[count - 1]@, inputs) {
            Ok(_) => None,
            Err(message) => Some(message),
        }
    }
}

/// Tags of an input after the first `count` tag texts.
pub open spec fn tags_after(specs: Seq<String>, inputs: nat, input: int, count: int) -> Seq<Seq<char>>
    decreases count,
{
    if count <= 0 {
        Seq::empty()
    } else {
        let before = tags_after(specs, inputs, input, count - 1);
        match tag_target(specs[count - 1]@, inputs) {
            Ok(TagTarget::Every(tag)) => before.push(tag),
            Ok(TagTarget::One(index, tag)) => if index == input {
                before.push(tag)
            } else {
                before
            },
            Err(_) => before,
        }
    }
}

proof fn lemma_tags_fault(specs: Seq<String>, inputs: nat, count: int, more: int)
    requires
        0 <= count <= more,
        tags_fault(specs, inputs, count) is Some,
    ensures
        tags_fault(specs, inputs, more) == tags_fault(specs, inputs, count),
    decreases more - count,
{
    if count < more {
        lemma_tags_fault(specs, inputs, count, more - 1);
    }
}

fn tag_all(tags: Vec<Vec<String>>, tag: &str) -> (result: Vec<Vec<String>>)
    ensures
        result@.len() == tags@.len(),
        forall|i: int|
            0 <= i < result@.len() ==> texts((#[trigger] result@[i])@) == texts(tags@[i]@).push(
                tag@,
            ),
{
    let mut result = tags;
    let mut i: usize = 0;
    while i < result.len()
        invariant
            i <= result@.len(),
            result@.len() == tags@.len(),
            forall|j: int|
                0 <= j < i ==> texts((#[trigger] result@[j])@) == texts(tags@[j]@).push(tag@),
            forall|j: int| i <= j < result@.len() ==> result@[j] == tags@[j],
        decreases result@.len() - i,
    {
        let mut entry = result.remove(i);
        let ghost before = entry@;
        entry.push(String::from_str(tag));
        assert(texts(entry@) =~= texts(before).push(tag@));
        result.insert(i, entry);
        i += 1;
    }
    result
}

fn tag_one(tags: Vec<Vec<String>>, index: usize, tag: &str) -> (result: Vec<Vec<String>>)
    requires
        index < tags@.len(),
    ensures
        result@.len() == tags@.len(),
        forall|i: int|
            0 <= i < result@.len() ==> texts((#[trigger] result@[i])@) == if i == index {
                texts(tags@[i]@).push(tag@)
            } else {
                texts(tags@[i]@)
            },
{
    let mut result = tags;
    let mut entry = result.remove(index);
    let ghost before = entry@;
    entry.push(String::from_str(tag));
    assert(texts(entry@) =~= texts(before).push(tag@));
    result.insert(index, entry);
    result
}

/// Collects the tags of every input.
pub fn parse_pack_tags(input_count: usize, specs: &Vec<String>) -> (result: CliResult<
    Vec<Vec<String>>,
>)
    ensures
        match result {
            Ok(tags) => {
                &&& tags_fault(specs@, input_count as nat, specs@.len() as int) is None
                &&& tags@.len() == input_count
                &&& forall|i: int|
                    0 <= i < input_count ==> texts((#[trigger] tags@[i])@) == tags_after(
                        specs@,
                        input_count as nat,
                        i,
                        specs@.len() as int,
                    )
            },
            Err(message) => tags_fault(specs@, input_count as nat, specs@.len() as int) == Some(
                message@,
            ),
        },
{
    let mut tags: Vec<Vec<String>> = Vec::new();
    let mut k: usize = 0;
    while k < input_count
        invariant
            k <= input_count,
            tags@.len() == k,
            forall|i: int| 0 <= i < k ==> texts((#[trigger] tags@[i])@) == Seq::<Seq<char>>::empty(),
        decreases input_count - k,
    {
        let empty: Vec<String> = Vec::new();
        assert(texts(empty@) =~= Seq::<Seq<char>>::empty());
        tags.push(empty);
        k += 1;
    }
    let mut n: usize = 0;
    while n < specs.len()
        invariant
            n <= specs@.len(),
            tags@.len() == input_count,
            tags_fault(specs@, input_count as nat, n as int) is None,
            forall|i: int|
                0 <= i < input_count ==> texts((#[trigger] tags@[i])@) == tags_after(
                    specs@,
                    input_count as nat,
                    i,
                    n as int,
                ),
        decreases specs@.len() - n,
    {
        let text = specs[n].as_str();
        match split_once(text, ":") {
            None => {
                tags = tag_all(tags, text);
            },
            Some((target, tag)) => {
                let lower = to_ascii_lowercase(target);
                if same_text(lower.as_str(), "all") {
                    tags = tag_all(tags, tag);
                } else {
                    match parse_number(target, usize::MAX as u64) {
                        None => {
                            proof {
                                lemma_tags_fault(
                                    specs@,
                                    input_count as nat,
                                    n + 1,
                                    specs@.len() as int,
                                );
                            }
                            return Err(
                                concat5("invalid tag target `", target, "` in `", text, "`"),
                            );
                        },
                        Some(number) => {
                            if number < 1 || number > input_count as u64 {
                                proof {
                                    lemma_tags_fault(
                                        specs@,
                                        input_count as nat,
                                        n + 1,
                                        specs@.len() as int,
                                    );
                                }
                                return Err(
                                    concat4(
                                        "tag target `",
                                        target,
                                        "` is out of range; use 1..=",
                                        decimal(input_count as u64).as_str(),
                                    ),
                                );
                            }
                            tags = tag_one(tags, (number - 1) as usize, tag);
                        },
                    }
                }
            },
        }
        n += 1;
    }
    Ok(tags)
}

/// A tag without a target reaches every input.
pub proof fn law_plain_tags_reach_every_input(specs: Seq<String>, inputs: nat, input: int, at: int)
    requires
        0 <= at < specs.len(),
        split_first(specs[at]@, ":"@) is None,
    ensures
        tags_after(specs, inputs, input, at + 1) == tags_after(specs, inputs, input, at).push(
            specs[at]@,
        ),
{
}

/// Puts frames, their labels, and their tags together, in order.
pub fn pack_records(frames: Vec<FrameOwned>, labels: Vec<String>, tags: Vec<Vec<String>>) -> (bundle:
    RawImageBundle)
    requires
        frames@.len() == labels@.len(),
        frames@.len() == tags@.len(),
    ensures
        bundle@ == Seq::new(
            frames@.len(),
            |i: int|
                RecordModel {
                    label: Some(labels@[i]@),
                    tags: texts(tags@[i]@),
                    frame: frames@[i]@,
                },
        ),
{
    let ghost all = Seq::new(
        frames@.len(),
        |i: int|
            RecordModel {
                label: Some(labels@[i]@),
                tags: texts(tags@[i]@),
                frame: frames@[i]@,
            },
    );
    let mut records: Vec<RawImageRecord> = Vec::new();
    let mut left_frames = frames;
    let mut left_labels = labels;
    let mut left_tags = tags;
    assert(records@.map_values(|record: RawImageRecord| record@) =~= all.skip(
        all.len() as int,
    ));
    while left_frames.len() > 0
        invariant
            left_frames@.len() == left_labels@.len(),
            left_frames@.len() == left_tags@.len(),
            left_frames@.len() <= frames@.len(),
            left_frames@ == frames@.take(left_frames@.len() as int),
            left_labels@ == labels@.take(left_labels@.len() as int),
            left_tags@ == tags@.take(left_tags@.len() as int),
            frames@.len() == labels@.len(),
            frames@.len() == tags@.len(),
            all == Seq::new(
                frames@.len(),
                |i: int|
                    RecordModel {
                        label: Some(labels@[i]@),
                        tags: texts(tags@[i]@),
                        frame: frames@[i]@,
                    },
            ),
            records@.map_values(|record: RawImageRecord| record@) == all.skip(
                left_frames@.len() as int,
            ),
        decreases left_frames@.len(),
    {
        let ghost at = left_frames@.len() - 1;
        if let (Some(frame), Some(label), Some(tag_list)) = (
            left_frames.pop(),
            left_labels.pop(),
            left_tags.pop(),
        ) {
            let record = RawImageRecord::new(Some(label), tag_list, frame);
            let ghost before = records@.map_values(|record: RawImageRecord| record@);
            assert(record@ == all[at]);
            records.insert(0, record);
            assert(records@.map_values(|record: RawImageRecord| record@) =~= seq![record@]
                + before);
            assert(all.skip(at) =~= seq![all[at]] + all.skip(at + 1));
        }
    }
    assert(all.skip(0) =~= all);
    RawImageBundle::new(records)
}

/// One image of an inspected bundle.
#[derive(Debug)]
pub struct BundleImageInfo {
    /// Position in the bundle.
    pub index: usize,
    /// Label.
    pub label: Option<String>,
    /// Tags.
    pub tags: Vec<String>,
    /// Width in pixels.
    pub width: u32,
    /// Height in pixels.
    pub height: u32,
    /// Pixel format.
    pub pixel_format: String,
    /// Color space.
    pub color_space: String,
    /// Transfer function.
    pub transfer: String,
    /// Color range.
    pub range: String,
    /// Number of planes.
    pub planes: usize,
    /// Bytes of all planes.
    pub bytes: u64,
}

/// Images of an inspected bundle.
#[derive(Debug)]
pub struct BundleInfoReport {
    /// Label of the bundle.
    pub input: String,
    /// Its images.
    pub images: Vec<BundleImageInfo>,
}

/// Name of a color space.
pub open spec fn color_space_text(value: ColorSpace) -> Seq<char> {
    match value {
        ColorSpace::Srgb => "Srgb"@,
        ColorSpace::LinearRgb => "LinearRgb"@,
        ColorSpace::Bt601 => "Bt601"@,
        ColorSpace::Bt709 => "Bt709"@,
        ColorSpace::Bt2020 => "Bt2020"@,
        ColorSpace::Unknown => "Unknown"@,
    }
}

fn color_space_name(value: ColorSpace) -> (text: &'static str)
    ensures
        text@ == color_space_text(value),
{
    match value {
        ColorSpace::Srgb => "Srgb",
        ColorSpace::LinearRgb => "LinearRgb",
        ColorSpace::Bt601 => "Bt601",
        ColorSpace::Bt709 => "Bt709",
        ColorSpace::Bt2020 => "Bt2020",
        ColorSpace::Unknown => "Unknown",
    }
}

/// Name of a transfer function.
pub open spec fn transfer_text(value: Transfer) -> Seq<char> {
    match value {
        Transfer::Srgb => "Srgb"@,
        Transfer::Linear => "Linear"@,
        Transfer::Bt1886 => "Bt1886"@,
        Transfer::Hlg => "Hlg"@,
        Transfer::Pq => "Pq"@,
        Transfer::Unknown => "Unknown"@,
    }
}

fn transfer_name(value: Transfer) -> (text: &'static str)
    ensures
        text@ == transfer_text(value),
{
    match value {
        Transfer::Srgb => "Srgb",
        Transfer::Linear => "Linear",
        Transfer::Bt1886 => "Bt1886",
        Transfer::Hlg => "Hlg",
        Transfer::Pq => "Pq",
        Transfer::Unknown => "Unknown",
    }
}

/// Name of a color range.
pub open spec fn range_text(value: ColorRange) -> Seq<char> {
    match value {
        ColorRange::Full => "Full"@,
        ColorRange::Limited => "Limited"@,
    }
}

fn range_name(value: ColorRange) -> (text: &'static str)
    ensures
        text@ == range_text(value),
{
    match value {
        ColorRange::Full => "Full",
        ColorRange::Limited => "Limited",
    }
}

/// Bytes of the first `count` planes.
pub open spec fn plane_bytes(record: RecordModel, count: int) -> nat
    decreases count,
{
    if count <= 0 {
        0
    } else {
        plane_bytes(record, count - 1) + record.frame.planes[count - 1].data.len()
    }
}

/// Whether an entry describes a record; a size beyond 64 bits counts as the
/// largest one.
pub open spec fn informs(info: BundleImageInfo, record: RecordModel, index: nat) -> bool {
    let total = plane_bytes(record, record.frame.planes.len() as int);
    &&& info.index == index
    &&& optional_text(info.label) == record.label
    &&& texts(info.tags@) == record.tags
    &&& info.width == record.frame.dims.width
    &&& info.height == record.frame.dims.height
    &&& info.pixel_format@ == record.frame.format.pixel_format.label()
    &&& info.color_space@ == color_space_text(record.frame.format.color_space)
    &&& info.transfer@ == transfer_text(record.frame.format.transfer)
    &&& info.range@ == range_text(record.frame.format.range)
    &&& info.planes == record.frame.planes.len()
    &&& info.bytes == if total <= u64::MAX {
        total
    } else {
        u64::MAX as nat
    }
}

fn describe_record(record: &RawImageRecord, index: usize) -> (info: BundleImageInfo)
    ensures
        informs(info, record@, index as nat),
{
    let dims = record.frame.dimensions();
    let format = record.frame.format();
    let planes = record.frame.owned_planes();
    let count: usize = planes.len();
    let ghost model = record@;
    let mut bytes: u64 = 0;
    let mut i: usize = 0;
    assert(model.frame.planes.len() == count);
    while i < count
        invariant
            i <= count,
            count == planes@.len(),
            model == record@,
            crate::frame::owned_planes_model(planes@) == model.frame.planes,
            model.frame.planes.len() == count,
            bytes == if plane_bytes(model, i as int) <= u64::MAX {
                plane_bytes(model, i as int)
            } else {
                u64::MAX as nat
            },
        decreases count - i,
    {
        let length: u64 = planes[i].data.len() as u64;
        assert(model.frame.planes[i as int].data.len() == length);
        bytes = if bytes > u64::MAX - length {
            u64::MAX
        } else {
            bytes + length
        };
        i += 1;
    }
    BundleImageInfo {
        index,
        label: match &record.label {
            Some(label) => Some(label.clone()),
            None => None,
        },
        tags: copy_texts(&record.tags),
        width: dims.width,
        height: dims.height,
        pixel_format: String::from_str(format.pixel_format.name()),
        color_space: String::from_str(color_space_name(format.color_space)),
        transfer: String::from_str(transfer_name(format.transfer)),
        range: String::from_str(range_name(format.range)),
        planes: count,
        bytes,
    }
}

impl BundleInfoReport {
    /// Describes the images of a bundle.
    pub fn from_bundle(input: String, bundle: &RawImageBundle) -> (report: Self)
        ensures
            report.input == input,
            report.images@.len() == bundle@.len(),
            forall|i: int|
                0 <= i < bundle@.len() ==> informs(
                    #[trigger] report.images@[i],
                    bundle@[i],
                    i as nat,
                ),
    {
        let mut images: Vec<BundleImageInfo> = Vec::new();
        let mut i: usize = 0;
        while i < bundle.records.len()
            invariant
                i <= bundle.records@.len(),
                images@.len() == i,
                forall|j: int|
                    0 <= j < i ==> informs(#[trigger] images@[j], bundle@[j], j as nat),
            decreases bundle.records@.len() - i,
        {
            images.push(describe_record(&bundle.records[i], i));
            i += 1;
        }
        Self { input, images }
    }
}

/// Line of one image, and of its tags if it has any.
pub open spec fn image_lines(image: BundleImageInfo) -> Seq<char> {
    let line = "["@ + decimal_text(image.index as nat) + "] "@ + (match image.label {
        Some(label) => label@,
        None => "<unlabeled>"@,
    }) + " "@ + decimal_text(image.width as nat) + "x"@ + decimal_text(image.height as nat) + " "@
        + image.pixel_format@ + " planes="@ + decimal_text(image.planes as nat) + " bytes="@
        + decimal_text(image.bytes as nat) + "\n"@;
    if image.tags@.len() == 0 {
        line
    } else {
        line + "    tags: "@ + joined(texts(image.tags@), ","@) + "\n"@
    }
}

/// Lines of the first `count` images.
pub open spec fn bundle_lines(images: Seq<BundleImageInfo>, count: int) -> Seq<char>
    decreases count,
{
    if count <= 0 {
        Seq::empty()
    } else {
        bundle_lines(images, count - 1) + image_lines(images[count - 1])
    }
}

fn write_image(image: &BundleImageInfo) -> (text: String)
    ensures
        text@ == image_lines(*image),
{
    let label = match &image.label {
        Some(label) => label.as_str(),
        None => "<unlabeled>",
    };
    let mut text = concat3("[", decimal(image.index as u64).as_str(), "] ");
    text.append(label);
    text.append(" ");
    text.append(decimal(image.width as u64).as_str());
    text.append("x");
    text.append(decimal(image.height as u64).as_str());
    text.append(" ");
    text.append(image.pixel_format.as_str());
    text.append(" planes=");
    text.append(decimal(image.planes as u64).as_str());
    text.append(" bytes=");
    text.append(decimal(image.bytes).as_str());
    text.append("\n");
    if image.tags.len() > 0 {
        text.append("    tags: ");
        text.append(join(&image.tags, ",").as_str());
        text.append("\n");
    }
    text
}

/// Writes a bundle report as text.
pub fn render_bundle_info_text(report: &BundleInfoReport) -> (text: String)
    ensures
        text@ == "bundle : "@ + report.input@ + "\n"@ + "images : "@ + decimal_text(
            report.images@.len(),
        ) + "\n"@ + bundle_lines(report.images@, report.images@.len() as int),
{
    let mut lines = String::new();
    let count: usize = report.images.len();
    let mut i: usize = 0;
    assert(lines@ =~= Seq::<char>::empty());
    while i < count
        invariant
            i <= count,
            count == report.images@.len(),
            lines@ == bundle_lines(report.images@, i as int),
        decreases count - i,
    {
        lines.append(write_image(&report.images[i]).as_str());
        i += 1;
    }
    let mut text = concat3("bundle : ", report.input.as_str(), "\n");
    text.append("images : ");
    text.append(decimal(count as u64).as_str());
    text.append("\n");
    text.append(lines.as_str());
    text
}

/// Fields of one image in a CSV document.
pub open spec fn image_fields(input: Seq<char>, image: BundleImageInfo) -> Seq<Seq<char>> {
    seq![
        input,
        decimal_text(image.index as nat),
        (match image.label {
            Some(label) => label@,
            None => Seq::empty(),
        }),
        joined(texts(image.tags@), "|"@),
        decimal_text(image.width as nat),
        decimal_text(image.height as nat),
        image.pixel_format@,
        image.color_space@,
        image.transfer@,
        image.range@,
        decimal_text(image.planes as nat),
        decimal_text(image.bytes as nat),
    ]
}

/// Columns of a bundle report.
pub open spec fn bundle_columns() -> Seq<Seq<char>> {
    seq![
        "input"@,
        "index"@,
        "label"@,
        "tags"@,
        "width"@,
        "height"@,
        "pixel_format"@,
        "color_space"@,
        "transfer"@,
        "range"@,
        "planes"@,
        "bytes"@,
    ]
}

/// Header of a bundle report.
pub fn bundle_info_csv_header() -> (header: Vec<String>)
    ensures
        texts(header@) == bundle_columns(),
{
    let header = vec![
        String::from_str("input"),
        String::from_str("index"),
        String::from_str("label"),
        String::from_str("tags"),
        String::from_str("width"),
        String::from_str("height"),
        String::from_str("pixel_format"),
        String::from_str("color_space"),
        String::from_str("transfer"),
        String::from_str("range"),
        String::from_str("planes"),
        String::from_str("bytes"),
    ];
    assert(texts(header@) =~= bundle_columns());
    header
}

/// Rows of a bundle report.
pub fn bundle_info_csv_rows(report: &BundleInfoReport) -> (rows: Vec<Vec<String>>)
    ensures
        rows@.len() == report.images@.len(),
        forall|i: int|
            0 <= i < rows@.len() ==> texts((#[trigger] rows@[i])@) == image_fields(
                report.input@,
                report.images@[i],
            ),
{
    let mut rows: Vec<Vec<String>> = Vec::new();
    let mut i: usize = 0;
    while i < report.images.len()
        invariant
            i <= report.images@.len(),
            rows@.len() == i,
            forall|j: int|
                0 <= j < i ==> texts((#[trigger] rows@[j])@) == image_fields(
                    report.input@,
                    report.images@[j],
                ),
        decreases report.images@.len() - i,
    {
        let image = &report.images[i];
        let label = match &image.label {
            Some(label) => label.clone(),
            None => String::new(),
        };
        assert(image.label is None ==> label@ =~= Seq::<char>::empty());
        let row = vec![
            report.input.clone(),
            decimal(image.index as u64),
            label,
            join(&image.tags, "|"),
            decimal(image.width as u64),
            decimal(image.height as u64),
            image.pixel_format.clone(),
            image.color_space.clone(),
            image.transfer.clone(),
            image.range.clone(),
            decimal(image.planes as u64),
            decimal(image.bytes),
        ];
        assert(texts(row@) =~= image_fields(report.input@, *image));
        rows.push(row);
        i += 1;
    }
    rows
}

/// Tags are addressed: a tag alone and one behind `all:`, in any case, go to every input;
/// one behind a number and a colon goes to the input of that number, counted from one,
/// and is refused where there is no such input.
pub proof fn law_tags_are_addressed(target: Seq<char>, number: nat, tag: Seq<char>, inputs: nat)
    requires
        target.len() == 3,
        target[0] == 'a' || target[0] == 'A',
        target[1] == 'l' || target[1] == 'L',
        target[2] == 'l' || target[2] == 'L',
        number <= usize::MAX,
    ensures
        !tag.contains(':') ==> tag_target(tag, inputs) == Ok::<TagTarget, Seq<char>>(
            TagTarget::Every(tag),
        ),
        tag_target(target.push(':') + tag, inputs) == Ok::<TagTarget, Seq<char>>(
            TagTarget::Every(tag),
        ),
        1 <= number <= inputs ==> tag_target(decimal_text(number).push(':') + tag, inputs) == Ok::<
            TagTarget,
            Seq<char>,
        >(TagTarget::One(number - 1, tag)),
        number == 0 || number > inputs ==> tag_target(
            decimal_text(number).push(':') + tag,
            inputs,
        ) is Err,
{
    reveal_strlit(":");
    reveal_strlit("all");
    assert(":"@ =~= seq![':']);
    law_split_first_cuts_once(tag, ":"@);
    if let Some((before, behind)) = split_first(tag, ":"@) {
        assert(tag[before.len() as int] == ':');
        assert(tag.contains(':'));
    }
    lemma_colon_found(target, tag);
    law_lower_case_moves_capitals(target, 0);
    law_lower_case_moves_capitals(target, 1);
    law_lower_case_moves_capitals(target, 2);
    assert(lowered(target)[0] == 'a' && lowered(target)[1] == 'l' && lowered(target)[2] == 'l');
    assert(lowered(target) =~= "all"@);
    let digits = decimal_text(number);
    lemma_decimal_digits(number);
    assert forall|j: int| 0 <= j < digits.len() implies #[trigger] digits[j] != ':' by {}
    lemma_colon_found(digits, tag);
    law_reading_undoes_writing(number, usize::MAX as nat);
    law_lower_case_moves_capitals(digits, 0);
    assert(lowered(digits)[0] == digits[0]);
    assert(lowered(digits) != "all"@);
}

proof fn lemma_colon_found(before: Seq<char>, behind: Seq<char>)
    requires
        !before.contains(':'),
    ensures
        split_first(before.push(':') + behind, ":"@) == Some((before, behind)),
{
    reveal_strlit(":");
    let text = before.push(':') + behind;
    assert(":"@ =~= seq![':']);
    assert(text =~= before + seq![':'] + behind);
    assert forall|j: int| 0 <= j < before.len() implies #[trigger] text.subrange(
        j,
        j + seq![':'].len(),
    ) != seq![':'] by {
        assert(text.subrange(j, j + 1)[0] == before[j]);
        assert(seq![':'][0] == ':');
        assert(before.contains(before[j]));
    }
    law_split_first_finds_the_token(before, seq![':'], behind);
}

/// Each tag reaches the inputs it is addressed to and no other, behind the tags given
/// before it.
pub proof fn law_each_tag_reaches_its_inputs(
    specs: Seq<String>,
    inputs: nat,
    input: int,
    count: int,
)
    requires
        0 <= count < specs.len(),
        tag_target(specs[count]@, inputs) is Ok,
    ensures
        tags_after(specs, inputs, input, 0).len() == 0,
        tags_after(specs, inputs, input, count + 1) == match tag_target(specs[count]@, inputs)->Ok_0 {
            TagTarget::Every(tag) => tags_after(specs, inputs, input, count).push(tag),
            TagTarget::One(index, tag) => if index == input {
                tags_after(specs, inputs, input, count).push(tag)
            } else {
                tags_after(specs, inputs, input, count)
            },
        },
{
}

/// Tags are refused exactly when one of them cannot be addressed, with the message of the
/// first such.
pub proof fn law_first_bad_tag_is_reported(specs: Seq<String>, inputs: nat, i: int)
    requires
        0 <= i <= specs.len(),
        forall|j: int| 0 <= j < i ==> (#[trigger] tag_target(specs[j]@, inputs)) is Ok,
        i < specs.len() ==> tag_target(specs[i]@, inputs) is Err,
    ensures
        tags_fault(specs, inputs, specs.len() as int) == if i < specs.len() {
            Some(tag_target(specs[i]@, inputs)->Err_0)
        } else {
            None
        },
{
    lemma_good_tags(specs, inputs, i);
    lemma_bad_tag(specs, inputs, i, specs.len() as int);
}

proof fn lemma_good_tags(specs: Seq<String>, inputs: nat, count: int)
    requires
        forall|j: int| 0 <= j < count ==> (#[trigger] tag_target(specs[j]@, inputs)) is Ok,
    ensures
        tags_fault(specs, inputs, count) is None,
    decreases count,
{
    if count > 0 {
        lemma_good_tags(specs, inputs, count - 1);
        let last = tag_target(specs[count - 1]@, inputs);
    }
}

proof fn lemma_bad_tag(specs: Seq<String>, inputs: nat, i: int, count: int)
    requires
        0 <= i <= count,
        tags_fault(specs, inputs, i) is None,
        i < count ==> tag_target(specs[i]@, inputs) is Err,
    ensures
        tags_fault(specs, inputs, count) == if i < count {
            Some(tag_target(specs[i]@, inputs)->Err_0)
        } else {
            None
        },
    decreases count,
{
    if i < count - 1 {
        lemma_bad_tag(specs, inputs, i, count - 1);
    }
}

/// The information on an image is that of its record: size, label, tags, planes, and the
/// bytes of all planes together.
pub proof fn law_information_is_the_records(info: BundleImageInfo, record: RecordModel, index: nat)
    requires
        informs(info, record, index),
    ensures
        info.index == index,
        info.width == record.frame.dims.width,
        info.height == record.frame.dims.height,
        optional_text(info.label) == record.label,
        texts(info.tags@) == record.tags,
        info.planes == record.frame.planes.len(),
        info.pixel_format@ == record.frame.format.pixel_format.label(),
        info.color_space@ == color_space_text(record.frame.format.color_space),
        info.transfer@ == transfer_text(record.frame.format.transfer),
        info.range@ == range_text(record.frame.format.range),
        ({
            let total = record.frame.planes.fold_left(
                0nat,
                |sum: nat, plane: PlaneModel| sum + plane.data.len(),
            );
            total <= u64::MAX ==> info.bytes == total
        }),
{
    lemma_plane_total(record, record.frame.planes.len() as int);
    assert(record.frame.planes.take(record.frame.planes.len() as int) =~= record.frame.planes);
}

proof fn lemma_plane_total(record: RecordModel, count: int)
    requires
        0 <= count <= record.frame.planes.len(),
    ensures
        plane_bytes(record, count) == record.frame.planes.take(count).fold_left(
            0nat,
            |sum: nat, plane: PlaneModel| sum + plane.data.len(),
        ),
    decreases count,
{
    if count > 0 {
        lemma_plane_total(record, count - 1);
        assert(record.frame.planes.take(count).drop_last() =~= record.frame.planes.take(count - 1));
    }
}

/// Every image of a bundle has its lines, behind those of the images before it.
pub proof fn law_every_image_is_printed(images: Seq<BundleImageInfo>, count: int, i: int) -> (at: int)
    requires
        0 <= i < count <= images.len(),
    ensures
        ({
            let text = bundle_lines(images, count);
            let own = image_lines(images[i]);
            &&& 0 <= at && at + own.len() <= text.len()
            &&& text.subrange(at, at + own.len()) == own
        }),
        bundle_lines(images, count).len() == bundle_lines(images, count - 1).len() + image_lines(images[count - 1]).len(),
        bundle_lines(images, 0).len() == 0,
    decreases count,
{
    let before = bundle_lines(images, count - 1);
    let own = image_lines(images[i]);
    let text = bundle_lines(images, count);
    if i == count - 1 {
        let at = before.len() as int;
        assert(text.subrange(at, at + own.len()) =~= own);
        at
    } else {
        let at = law_every_image_is_printed(images, count - 1, i);
        assert(text.subrange(at, at + own.len()) =~= before.subrange(at, at + own.len()));
        at
    }
}

/// Every column of a bundle table holds what its name says.
pub proof fn law_bundle_columns_hold_what_they_name(input: Seq<char>, image: BundleImageInfo)
    ensures
        ({
            let row = image_fields(input, image);
            let name = bundle_columns();
            &&& name.len() == 12 && row.len() == 12
            &&& name[0] == "input"@ && row[0] == input
            &&& name[1] == "index"@ && row[1] == decimal_text(image.index as nat)
            &&& name[2] == "label"@ && (image.label matches Some(label) ==> row[2] == label@)
            &&& image.label is None ==> row[2].len() == 0
            &&& name[3] == "tags"@ && row[3] == joined(texts(image.tags@), "|"@)
            &&& name[4] == "width"@ && row[4] == decimal_text(image.width as nat)
            &&& name[5] == "height"@ && row[5] == decimal_text(image.height as nat)
            &&& name[6] == "pixel_format"@ && row[6] == image.pixel_format@
            &&& name[7] == "color_space"@ && row[7] == image.color_space@
            &&& name[8] == "transfer"@ && row[8] == image.transfer@
            &&& name[9] == "range"@ && row[9] == image.range@
            &&& name[10] == "planes"@ && row[10] == decimal_text(image.planes as nat)
            &&& name[11] == "bytes"@ && row[11] == decimal_text(image.bytes as nat)
        }),
{
}

} // verus!
