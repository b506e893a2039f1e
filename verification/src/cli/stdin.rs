//! Images read from standard input.

use crate::adapters::bit_packed_gray::{
    decode_bit_packed_gray, law_levels_keep_their_place, packed_fault, BitOrder,
    BitPackedGrayFormat,
};
use crate::adapters::image_crate::{
    decode_failure, decode_image_bytes, decoded_frame, rgba8_frame,
};
use crate::cli::remote::InputSpec;
use crate::cli::report::ComparisonInput;
use crate::cli::CliResult;
use crate::error::{ErrorView, Result};
use crate::frame::{
    ceil_div, checked_packed, checked_tight, frame_outcome, law_frames_are_refused_for_cause,
    owned_planes_model, packed_model, Dimensions, FormatSpec, FrameModel, FrameOwned, OwnedPlane,
    PixelFormat, PlaneModel,
};
use crate::imqraw::{
    bundle_in, decode_bundle, RawImageBundle, RawImageRecord, RawImageSelector, RecordModel,
};
use crate::text::{concat2, concat3, concat4, decimal, decimal_text, optional_text};
use vstd::prelude::*;

verus! {

/// How bytes from standard input are decoded.
#[derive(Debug, Clone, Copy, PartialEq, Eq, Structural)]
pub enum StdinImageFormatArg {
    /// An encoded image such as PNG, JPEG, or WebP.
    Encoded,
    /// Raw packed pixel bytes.
    Raw,
    /// An imqraw bundle.
    Imqraw,
}

/// Pixel format of raw input.
#[derive(Debug, Clone, Copy, PartialEq, Eq, Structural)]
pub enum RawPixelFormatArg {
    /// Eight-bit RGB.
    Rgb8,
    /// Eight-bit RGBA.
    Rgba8,
    /// Eight-bit BGR.
    Bgr8,
    /// Eight-bit BGRA.
    Bgra8,
    /// Eight-bit luma.
    Luma8,
    /// Eight-bit HSV.
    Hsv8,
    /// Eight-bit HSV with alpha.
    Hsva8,
    /// One-bit mask, lowest bit first.
    Binary1Lsb,
    /// One-bit mask, highest bit first.
    Binary1Msb,
    /// One-bit gray, lowest bits first.
    Gray1Lsb,
    /// One-bit gray, highest bits first.
    Gray1Msb,
    /// Two-bit gray, lowest bits first.
    Gray2Lsb,
    /// Two-bit gray, highest bits first.
    Gray2Msb,
    /// Four-bit gray, lowest bits first.
    Gray4Lsb,
    /// Four-bit gray, highest bits first.
    Gray4Msb,
}

/// The three kinds of raw pixel formats.
pub enum RawLayout {
    /// A packed format with whole bytes.
    Packed(PixelFormat),
    /// A native one-bit mask.
    Mask(PixelFormat),
    /// A gray format that is widened to eight bits.
    Gray(BitPackedGrayFormat),
}

impl RawPixelFormatArg {
    /// What the format stands for.
    pub open spec fn layout(self) -> RawLayout {
        match self {
            RawPixelFormatArg::Rgb8 => RawLayout::Packed(PixelFormat::Rgb8),
            RawPixelFormatArg::Rgba8 => RawLayout::Packed(PixelFormat::Rgba8),
            RawPixelFormatArg::Bgr8 => RawLayout::Packed(PixelFormat::Bgr8),
            RawPixelFormatArg::Bgra8 => RawLayout::Packed(PixelFormat::Bgra8),
            RawPixelFormatArg::Luma8 => RawLayout::Packed(PixelFormat::Luma8),
            RawPixelFormatArg::Hsv8 => RawLayout::Packed(PixelFormat::Hsv8),
            RawPixelFormatArg::Hsva8 => RawLayout::Packed(PixelFormat::Hsva8),
            RawPixelFormatArg::Binary1Lsb => RawLayout::Mask(PixelFormat::Binary1Lsb),
            RawPixelFormatArg::Binary1Msb => RawLayout::Mask(PixelFormat::Binary1Msb),
            RawPixelFormatArg::Gray1Lsb => RawLayout::Gray(
                BitPackedGrayFormat { bits_per_pixel: 1, bit_order: BitOrder::LsbFirst },
            ),
            RawPixelFormatArg::Gray1Msb => RawLayout::Gray(
                BitPackedGrayFormat { bits_per_pixel: 1, bit_order: BitOrder::MsbFirst },
            ),
            RawPixelFormatArg::Gray2Lsb => RawLayout::Gray(
                BitPackedGrayFormat { bits_per_pixel: 2, bit_order: BitOrder::LsbFirst },
            ),
            RawPixelFormatArg::Gray2Msb => RawLayout::Gray(
                BitPackedGrayFormat { bits_per_pixel: 2, bit_order: BitOrder::MsbFirst },
            ),
            RawPixelFormatArg::Gray4Lsb => RawLayout::Gray(
                BitPackedGrayFormat { bits_per_pixel: 4, bit_order: BitOrder::LsbFirst },
            ),
            RawPixelFormatArg::Gray4Msb => RawLayout::Gray(
                BitPackedGrayFormat { bits_per_pixel: 4, bit_order: BitOrder::MsbFirst },
            ),
        }
    }

    /// Packed pixel format, if this is one.
    pub fn pixel_format(self) -> (format: Option<PixelFormat>)
        ensures
            format == match self.layout() {
                RawLayout::Packed(format) => Some(format),
                _ => None,
            },
    {
        match self {
            RawPixelFormatArg::Rgb8 => Some(PixelFormat::Rgb8),
            RawPixelFormatArg::Rgba8 => Some(PixelFormat::Rgba8),
            RawPixelFormatArg::Bgr8 => Some(PixelFormat::Bgr8),
            RawPixelFormatArg::Bgra8 => Some(PixelFormat::Bgra8),
            RawPixelFormatArg::Luma8 => Some(PixelFormat::Luma8),
            RawPixelFormatArg::Hsv8 => Some(PixelFormat::Hsv8),
            RawPixelFormatArg::Hsva8 => Some(PixelFormat::Hsva8),
            _ => None,
        }
    }

    /// Native mask format, if this is one.
    pub fn binary_pixel_format(self) -> (format: Option<PixelFormat>)
        ensures
            format == match self.layout() {
                RawLayout::Mask(format) => Some(format),
                _ => None,
            },
    {
        match self {
            RawPixelFormatArg::Binary1Lsb => Some(PixelFormat::Binary1Lsb),
            RawPixelFormatArg::Binary1Msb => Some(PixelFormat::Binary1Msb),
            _ => None,
        }
    }

    /// Bit-packed gray format, if this is one.
    pub fn bit_packed_gray_format(self) -> (format: Option<BitPackedGrayFormat>)
        ensures
            format == match self.layout() {
                RawLayout::Gray(format) => Some(format),
                _ => None,
            },
    {
        let (bits_per_pixel, bit_order): (u8, BitOrder) = match self {
            RawPixelFormatArg::Gray1Lsb => (1, BitOrder::LsbFirst),
            RawPixelFormatArg::Gray1Msb => (1, BitOrder::MsbFirst),
            RawPixelFormatArg::Gray2Lsb => (2, BitOrder::LsbFirst),
            RawPixelFormatArg::Gray2Msb => (2, BitOrder::MsbFirst),
            RawPixelFormatArg::Gray4Lsb => (4, BitOrder::LsbFirst),
            RawPixelFormatArg::Gray4Msb => (4, BitOrder::MsbFirst),
            _ => return None,
        };
        Some(BitPackedGrayFormat { bits_per_pixel, bit_order })
    }
}

/// A model or the message of its error.
pub open spec fn worded(result: core::result::Result<FrameModel, ErrorView>) -> core::result::Result<
    FrameModel,
    Seq<char>,
> {
    match result {
        Ok(frame) => Ok(frame),
        Err(error) => Err(error.message()),
    }
}

/// The frame that bit-packed gray bytes stand for, or the message why there is none.
pub open spec fn gray_frame(
    data: Seq<u8>,
    width: u32,
    height: u32,
    format: BitPackedGrayFormat,
    stride: Option<usize>,
) -> core::result::Result<FrameModel, Seq<char>> {
    match packed_fault(data.len(), width, height, format, stride) {
        Some(error) => Err(error.message()),
        None => Ok(
            packed_model(
                format.levels(
                    data,
                    width as nat,
                    height as nat,
                    match stride {
                        Some(stride) => stride as nat,
                        None => format.row_bytes(width as nat),
                    },
                ),
                width,
                height,
                PixelFormat::Luma8,
                width as nat,
            ),
        ),
    }
}

/// The frame that mask bytes stand for, or the message why there is none.
pub open spec fn mask_frame(
    data: Seq<u8>,
    width: u32,
    height: u32,
    format: PixelFormat,
    stride: Option<usize>,
) -> core::result::Result<FrameModel, Seq<char>> {
    let tight = ceil_div(width as nat, 8);
    let used = match stride {
        Some(stride) => stride as nat,
        None => tight,
    };
    if used < tight {
        Err(
            "raw stride "@ + decimal_text(used) + " is smaller than tight binary row size "@
                + decimal_text(tight),
        )
    } else {
        worded(packed_model(data, width, height, format, used).checked_sized())
    }
}

/// The frame that raw bytes stand for, or the message why they stand for none.
pub open spec fn raw_frame(
    data: Seq<u8>,
    width: u32,
    height: u32,
    pixel_format: RawPixelFormatArg,
    stride: Option<usize>,
) -> core::result::Result<FrameModel, Seq<char>> {
    match pixel_format.layout() {
        RawLayout::Gray(format) => gray_frame(data, width, height, format, stride),
        RawLayout::Mask(format) => mask_frame(data, width, height, format, stride),
        RawLayout::Packed(format) => worded(
            match stride {
                Some(stride) => checked_packed(data, width, height, format, stride as nat),
                None => checked_tight(data, width, height, format),
            },
        ),
    }
}

/// A frame result as a model or message.
pub open spec fn framed(result: CliResult<FrameOwned>) -> core::result::Result<
    FrameModel,
    Seq<char>,
> {
    match result {
        Ok(frame) => Ok(frame@),
        Err(message) => Err(message@),
    }
}

fn worded_frame(result: Result<FrameOwned>) -> (told_result: CliResult<FrameOwned>)
    ensures
        framed(told_result) == worded(frame_outcome(result)),
{
    match result {
        Ok(frame) => Ok(frame),
        Err(error) => Err(error.message()),
    }
}

fn decode_gray_frame(
    bytes: Vec<u8>,
    width: u32,
    height: u32,
    format: BitPackedGrayFormat,
    stride: Option<usize>,
) -> (result: CliResult<FrameOwned>)
    requires
        format.supported(),
    ensures
        framed(result) == gray_frame(bytes@, width, height, format, stride),
{
    match decode_bit_packed_gray(bytes.as_slice(), width, height, format, stride) {
        Ok(frame) => Ok(frame),
        Err(error) => Err(error.message()),
    }
}

fn decode_mask_frame(
    bytes: Vec<u8>,
    width: u32,
    height: u32,
    format: PixelFormat,
    stride: Option<usize>,
) -> (result: CliResult<FrameOwned>)
    ensures
        framed(result) == mask_frame(bytes@, width, height, format, stride),
{
    let columns: usize = width as usize;
    let tight: usize = columns / 8 + if columns % 8 == 0 {
        0
    } else {
        1
    };
    assert(tight == ceil_div(width as nat, 8));
    let used: usize = match stride {
        Some(stride) => stride,
        None => tight,
    };
    if used < tight {
        return Err(
            concat4(
                "raw stride ",
                decimal(used as u64).as_str(),
                " is smaller than tight binary row size ",
                decimal(tight as u64).as_str(),
            ),
        );
    }
    let dims = match Dimensions::new(width, height) {
        Ok(dims) => dims,
        Err(error) => return Err(error.message()),
    };
    let planes = vec![OwnedPlane::new(bytes, used)];
    assert(owned_planes_model(planes@) =~= seq![
        PlaneModel { data: bytes@, stride: used as nat },
    ]);
    worded_frame(FrameOwned::new(dims, FormatSpec::new(format), planes))
}

/// Decodes raw bytes from standard input.
pub fn decode_raw_stdin_frame(
    bytes: Vec<u8>,
    width: u32,
    height: u32,
    pixel_format: RawPixelFormatArg,
    stride: Option<usize>,
) -> (result: CliResult<FrameOwned>)
    ensures
        framed(result) == raw_frame(bytes@, width, height, pixel_format, stride),
{
    if let Some(format) = pixel_format.bit_packed_gray_format() {
        return decode_gray_frame(bytes, width, height, format, stride);
    }
    if let Some(format) = pixel_format.binary_pixel_format() {
        return decode_mask_frame(bytes, width, height, format, stride);
    }
    let format = match pixel_format.pixel_format() {
        Some(format) => format,
        None => return Err(
            String::from_str("raw pixel format is not a packed imq pixel format"),
        ),
    };
    match stride {
        Some(stride) => worded_frame(FrameOwned::packed(bytes, width, height, format, stride)),
        None => worded_frame(FrameOwned::packed_tight(bytes, width, height, format)),
    }
}

/// How images are taken from standard input.
#[derive(Debug)]
pub struct StdinImageArgs {
    /// How the bytes are decoded.
    pub stdin_format: StdinImageFormatArg,
    /// Width of raw input.
    pub raw_width: Option<u32>,
    /// Height of raw input.
    pub raw_height: Option<u32>,
    /// Pixel format of raw input.
    pub raw_pixel_format: RawPixelFormatArg,
    /// Row stride of raw input.
    pub raw_stride: Option<usize>,
    /// Index of the image when a bundle feeds one argument.
    pub stdin_index: Option<usize>,
    /// Tag of the image when a bundle feeds one argument.
    pub stdin_tag: Option<String>,
    /// Index of the reference when a bundle feeds both arguments.
    pub stdin_reference_index: Option<usize>,
    /// Tag of the reference when a bundle feeds both arguments.
    pub stdin_reference_tag: Option<String>,
    /// Index of the distorted image when a bundle feeds both arguments.
    pub stdin_distorted_index: Option<usize>,
    /// Tag of the distorted image when a bundle feeds both arguments.
    pub stdin_distorted_tag: Option<String>,
}

/// A selector as a mathematical value.
pub enum SelectorModel {
    /// By index.
    Index(nat),
    /// By tag.
    Tag(Seq<char>),
}

/// Model of a selector.
pub open spec fn selector_model(selector: RawImageSelector) -> SelectorModel {
    match selector {
        RawImageSelector::Index(index) => SelectorModel::Index(index as nat),
        RawImageSelector::Tag(tag) => SelectorModel::Tag(tag@),
    }
}

/// A tag selects before an index, and an index before the default.
pub open spec fn chosen(tag: Option<String>, index: Option<usize>, default_index: nat) -> SelectorModel {
    match (tag, index) {
        (Some(tag), _) => SelectorModel::Tag(tag@),
        (None, Some(index)) => SelectorModel::Index(index as nat),
        (None, None) => SelectorModel::Index(default_index),
    }
}

fn choose_selector(tag: &Option<String>, index: Option<usize>, default_index: usize) -> (selector:
    RawImageSelector)
    ensures
        selector_model(selector) == chosen(*tag, index, default_index as nat),
{
    match tag {
        Some(tag) => RawImageSelector::Tag(tag.clone()),
        None => match index {
            Some(index) => RawImageSelector::Index(index),
            None => RawImageSelector::Index(default_index),
        },
    }
}

/// Selector of the single image that a bundle on standard input feeds.
pub fn single_stdin_selector(stdin: &StdinImageArgs) -> (selector: RawImageSelector)
    ensures
        selector_model(selector) == chosen(stdin.stdin_tag, stdin.stdin_index, 0),
{
    choose_selector(&stdin.stdin_tag, stdin.stdin_index, 0)
}

/// Selectors of the two images that a bundle on standard input feeds.
pub fn pair_stdin_selectors(stdin: &StdinImageArgs) -> (selectors: (
    RawImageSelector,
    RawImageSelector,
))
    ensures
        selector_model(selectors.0) == chosen(
            stdin.stdin_reference_tag,
            match stdin.stdin_reference_index {
                Some(index) => Some(index),
                None => stdin.stdin_index,
            },
            0,
        ),
        selector_model(selectors.1) == chosen(
            stdin.stdin_distorted_tag,
            stdin.stdin_distorted_index,
            1,
        ),
{
    let reference_index = match stdin.stdin_reference_index {
        Some(index) => Some(index),
        None => stdin.stdin_index,
    };
    (
        choose_selector(&stdin.stdin_reference_tag, reference_index, 0),
        choose_selector(&stdin.stdin_distorted_tag, stdin.stdin_distorted_index, 1),
    )
}

/// First record at or behind `from` that carries a tag.
pub open spec fn tagged_from(records: Seq<RecordModel>, tag: Seq<char>, from: int) -> Option<int>
    decreases records.len() - from,
{
    if from < 0 || from >= records.len() {
        None
    } else if records[from].tags.contains(tag) {
        Some(from)
    } else {
        tagged_from(records, tag, from + 1)
    }
}

/// Index of the record that a selector picks, or why it picks none.
pub open spec fn picked(records: Seq<RecordModel>, selector: SelectorModel) -> core::result::Result<
    int,
    ErrorView,
> {
    match selector {
        SelectorModel::Index(index) => if index < records.len() {
            Ok(index as int)
        } else {
            Err(RawImageBundle::index_error(index, records.len()))
        },
        SelectorModel::Tag(tag) => match tagged_from(records, tag, 0) {
            Some(index) => Ok(index),
            None => Err(RawImageBundle::tag_error(tag)),
        },
    }
}

/// The search finds the first record with the tag, if there is one.
proof fn lemma_tagged(records: Seq<RecordModel>, tag: Seq<char>, from: int)
    requires
        0 <= from <= records.len(),
    ensures
        match tagged_from(records, tag, from) {
            Some(index) => from <= index < records.len() && records[index].tags.contains(tag)
                && forall|j: int| from <= j < index ==> !(#[trigger] records[j]).tags.contains(tag),
            None => forall|j: int|
                from <= j < records.len() ==> !(#[trigger] records[j]).tags.contains(tag),
        },
    decreases records.len() - from,
{
    if from < records.len() && !records[from].tags.contains(tag) {
        lemma_tagged(records, tag, from + 1);
    }
}

/// Picks a record of a bundle.
pub fn pick<'a>(bundle: &'a RawImageBundle, selector: &RawImageSelector) -> (result: CliResult<
    &'a RawImageRecord,
>)
    ensures
        match result {
            Ok(record) => {
                &&& picked(bundle@, selector_model(*selector)) matches Ok(index)
                &&& 0 <= index < bundle@.len()
                &&& *record == bundle.records@[index]
            },
            Err(message) => picked(bundle@, selector_model(*selector)) matches Err(error)
                && message@ == error.message(),
        },
{
    match bundle.select(selector) {
        Ok(record) => {
            proof {
                if let RawImageSelector::Tag(tag) = selector {
                    lemma_tagged(bundle@, tag@, 0);
                    let i = choose|i: int|
                        #[trigger] bundle.first_with_tag(tag@, i) && *record == bundle.records@[i];
                    assert(bundle.first_with_tag(tag@, i));
                    let found = tagged_from(bundle@, tag@, 0);
                    assert(found == Some(i));
                }
            }
            Ok(record)
        },
        Err(error) => {
            proof {
                if let RawImageSelector::Tag(tag) = selector {
                    lemma_tagged(bundle@, tag@, 0);
                    if let Some(i) = tagged_from(bundle@, tag@, 0) {
                        assert(bundle.first_with_tag(tag@, i));
                    }
                }
            }
            Err(error.message())
        },
    }
}

/// Frame of the record that a selector picks in bundle bytes, or the message.
pub open spec fn bundle_frame(bytes: Seq<u8>, selector: SelectorModel) -> core::result::Result<
    FrameModel,
    Seq<char>,
> {
    match bundle_in(bytes) {
        Err(error) => Err(error.message()),
        Ok(records) => match picked(records, selector) {
            Err(error) => Err(error.message()),
            Ok(index) => Ok(records[index].frame),
        },
    }
}

/// Decodes the image that bytes from standard input hold.
///
/// An encoded image goes through the `image` crate, so its content depends on the
/// codecs of the program, and the contract leaves it open; bundles and raw pixels are
/// decoded here.
pub fn decode_stdin_image(bytes: Vec<u8>, stdin: &StdinImageArgs) -> (result: CliResult<FrameOwned>)
    ensures
        match stdin.stdin_format {
            StdinImageFormatArg::Encoded => match result {
                Ok(frame) => exists|image: image::DynamicImage|
                    (#[trigger] decoded_frame(image)) == Ok::<FrameModel, ErrorView>(frame@)
                        && frame@ == rgba8_frame(image),
                Err(message) => exists|error: ErrorView|
                    #[trigger] decode_failure(error) && message@ == error.message(),
            },
            StdinImageFormatArg::Imqraw => framed(result) == bundle_frame(
                bytes@,
                chosen(stdin.stdin_tag, stdin.stdin_index, 0),
            ),
            StdinImageFormatArg::Raw => framed(result) == match (
                stdin.raw_width,
                stdin.raw_height,
            ) {
                (None, _) => Err::<FrameModel, Seq<char>>(
                    "--raw-width is required for raw stdin"@,
                ),
                (Some(_), None) => Err("--raw-height is required for raw stdin"@),
                (Some(width), Some(height)) => raw_frame(
                    bytes@,
                    width,
                    height,
                    stdin.raw_pixel_format,
                    stdin.raw_stride,
                ),
            },
        },
{
    match stdin.stdin_format {
        StdinImageFormatArg::Encoded => match decode_image_bytes(bytes.as_slice()) {
            Ok(frame) => Ok(frame),
            Err(error) => {
                assert(decode_failure(error@));
                Err(error.message())
            },
        },
        StdinImageFormatArg::Imqraw => {
            let bundle = match decode_bundle(bytes.as_slice()) {
                Ok(bundle) => bundle,
                Err(error) => return Err(error.message()),
            };
            let selector = single_stdin_selector(stdin);
            match pick(&bundle, &selector) {
                Ok(record) => Ok(record.frame.clone()),
                Err(message) => Err(message),
            }
        },
        StdinImageFormatArg::Raw => {
            let width: u32 = match stdin.raw_width {
                Some(width) => width,
                None => return Err(String::from_str("--raw-width is required for raw stdin")),
            };
            let height: u32 = match stdin.raw_height {
                Some(height) => height,
                None => return Err(String::from_str("--raw-height is required for raw stdin")),
            };
            decode_raw_stdin_frame(bytes, width, height, stdin.raw_pixel_format, stdin.raw_stride)
        },
    }
}

/// Label shown for a record: its own, or one made from the selector.
pub open spec fn record_label(label: Option<Seq<char>>, selector: SelectorModel) -> Seq<char> {
    match label {
        Some(label) => label,
        None => match selector {
            SelectorModel::Index(index) => "imqraw["@ + decimal_text(index) + "]"@,
            SelectorModel::Tag(tag) => "imqraw:"@ + tag,
        },
    }
}

/// Label shown for a selected record.
pub fn imqraw_record_label(record: &RawImageRecord, selector: &RawImageSelector) -> (label: String)
    ensures
        label@ == record_label(optional_text(record.label), selector_model(*selector)),
{
    match &record.label {
        Some(label) => label.clone(),
        None => match selector {
            RawImageSelector::Index(index) => concat3(
                "imqraw[",
                decimal(*index as u64).as_str(),
                "]",
            ),
            RawImageSelector::Tag(tag) => concat2("imqraw:", tag.as_str()),
        },
    }
}

/// Whether an input description names a record by its selector and label.
pub open spec fn describes(
    input: ComparisonInput,
    label: Option<Seq<char>>,
    selector: SelectorModel,
) -> bool {
    &&& input.path is None
    &&& optional_text(input.label) == label
    &&& match selector {
        SelectorModel::Index(index) => input.tag is None && (input.index matches Some(i) && i
            == index),
        SelectorModel::Tag(tag) => input.index is None && optional_text(input.tag) == Some(tag),
    }
}

/// Describes a selected record as an input of a comparison.
pub fn imqraw_comparison_input(record: &RawImageRecord, selector: &RawImageSelector) -> (input:
    ComparisonInput)
    ensures
        describes(input, optional_text(record.label), selector_model(*selector)),
{
    let label = match &record.label {
        Some(label) => Some(label.clone()),
        None => None,
    };
    match selector {
        RawImageSelector::Index(index) => ComparisonInput::imqraw_index(*index, label),
        RawImageSelector::Tag(tag) => ComparisonInput::imqraw_tag(tag.clone(), label),
    }
}

/// A decoded image with its label and description.
pub struct LoadedImage {
    /// The image.
    pub frame: FrameOwned,
    /// Label shown in reports.
    pub display_label: String,
    /// Where the image came from.
    pub input: ComparisonInput,
}

impl LoadedImage {
    /// Takes an image that was read on its own. `label` is how the input is shown
    /// and `uri` the address of one on another host.
    pub fn from_input(input: &InputSpec, label: String, uri: &str, frame: FrameOwned) -> (image: Self)
        ensures
            image.frame == frame,
            image.display_label == label,
            image.input.index is None,
            image.input.tag is None,
            match *input {
                InputSpec::Local(path) => optional_text(image.input.path) == Some(path@)
                    && image.input.label is None,
                InputSpec::Stdin => image.input.path is None && optional_text(image.input.label)
                    == Some("stdin"@),
                InputSpec::Ssh(_) => optional_text(image.input.path) == Some(uri@)
                    && image.input.label is None,
            },
    {
        let origin = match input {
            InputSpec::Local(path) => ComparisonInput::path(path.clone()),
            InputSpec::Stdin => ComparisonInput::label(String::from_str("stdin")),
            InputSpec::Ssh(_) => ComparisonInput::path(String::from_str(uri)),
        };
        Self { frame, display_label: label, input: origin }
    }
}

/// Whether a loaded image is a record as a selector picked it.
pub open spec fn loads(image: LoadedImage, record: RecordModel, selector: SelectorModel) -> bool {
    &&& image.frame@ == record.frame
    &&& image.display_label@ == record_label(record.label, selector)
    &&& describes(image.input, record.label, selector)
}

/// Takes a selected record as an image.
pub fn loaded_imqraw_image(record: &RawImageRecord, selector: &RawImageSelector) -> (image:
    LoadedImage)
    ensures
        loads(image, record@, selector_model(*selector)),
{
    LoadedImage {
        frame: record.frame.clone(),
        display_label: imqraw_record_label(record, selector),
        input: imqraw_comparison_input(record, selector),
    }
}

/// Takes both images of a comparison from one bundle on standard input.
pub fn load_imqraw_image_pair(bytes: &[u8], stdin: &StdinImageArgs) -> (result: CliResult<
    (LoadedImage, LoadedImage),
>)
    ensures
        ({
            let reference = chosen(
                stdin.stdin_reference_tag,
                match stdin.stdin_reference_index {
                    Some(index) => Some(index),
                    None => stdin.stdin_index,
                },
                0,
            );
            let distorted = chosen(stdin.stdin_distorted_tag, stdin.stdin_distorted_index, 1);
            match bundle_in(bytes@) {
                Err(error) => result matches Err(message) && message@ == error.message(),
                Ok(records) => match picked(records, reference) {
                    Err(error) => result matches Err(message) && message@ == error.message(),
                    Ok(first) => match picked(records, distorted) {
                        Err(error) => result matches Err(message) && message@ == error.message(),
                        Ok(second) => result matches Ok((a, b)) && loads(
                            a,
                            records[first],
                            reference,
                        ) && loads(b, records[second], distorted),
                    },
                },
            }
        }),
{
    let bundle = match decode_bundle(bytes) {
        Ok(bundle) => bundle,
        Err(error) => return Err(error.message()),
    };
    let (reference_selector, distorted_selector) = pair_stdin_selectors(stdin);
    let reference = match pick(&bundle, &reference_selector) {
        Ok(record) => record,
        Err(message) => return Err(message),
    };
    let distorted = match pick(&bundle, &distorted_selector) {
        Ok(record) => record,
        Err(message) => return Err(message),
    };
    Ok(
        (
            loaded_imqraw_image(reference, &reference_selector),
            loaded_imqraw_image(distorted, &distorted_selector),
        ),
    )
}

/// What the name of a raw layout says: the pixel layout of packed and mask rows, and bits
/// and bit order of packed gray.
pub proof fn law_raw_layouts_by_name(format: RawPixelFormatArg)
    ensures
        match format.layout() {
            RawLayout::Packed(pixels) => {
                &&& format is Rgb8 <==> pixels is Rgb8
                &&& format is Rgba8 <==> pixels is Rgba8
                &&& format is Bgr8 <==> pixels is Bgr8
                &&& format is Bgra8 <==> pixels is Bgra8
                &&& format is Luma8 <==> pixels is Luma8
                &&& format is Hsv8 <==> pixels is Hsv8
                &&& format is Hsva8 <==> pixels is Hsva8
                &&& pixels.pixel_bytes() is Some
            },
            RawLayout::Mask(pixels) => {
                &&& format is Binary1Lsb <==> pixels is Binary1Lsb
                &&& format is Binary1Msb <==> pixels is Binary1Msb
                &&& pixels is Binary1Lsb || pixels is Binary1Msb
            },
            RawLayout::Gray(gray) => {
                let lsb = gray.bit_order is LsbFirst;
                &&& format is Gray1Lsb <==> gray.bits_per_pixel == 1 && lsb
                &&& format is Gray1Msb <==> gray.bits_per_pixel == 1 && !lsb
                &&& format is Gray2Lsb <==> gray.bits_per_pixel == 2 && lsb
                &&& format is Gray2Msb <==> gray.bits_per_pixel == 2 && !lsb
                &&& format is Gray4Lsb <==> gray.bits_per_pixel == 4 && lsb
                &&& format is Gray4Msb <==> gray.bits_per_pixel == 4 && !lsb
                &&& gray.supported()
            },
        },
        format.layout() is Gray <==> format is Gray1Lsb || format is Gray1Msb || format is Gray2Lsb
            || format is Gray2Msb || format is Gray4Lsb || format is Gray4Msb,
        format.layout() is Mask <==> format is Binary1Lsb || format is Binary1Msb,
{
}

/// Raw packed and mask rows become a frame as they are: size and bytes are those of the
/// input, and the stride is the one given, or that of rows without padding.
pub proof fn law_raw_bytes_become_the_frame(
    data: Seq<u8>,
    width: u32,
    height: u32,
    pixel_format: RawPixelFormatArg,
    stride: Option<usize>,
)
    requires
        !(pixel_format.layout() is Gray),
        raw_frame(data, width, height, pixel_format, stride) is Ok,
    ensures
        ({
            let frame = raw_frame(data, width, height, pixel_format, stride)->Ok_0;
            &&& frame.dims.width == width && frame.dims.height == height
            &&& frame.format.pixel_format == match pixel_format.layout() {
                RawLayout::Packed(pixels) => pixels,
                RawLayout::Mask(pixels) => pixels,
                RawLayout::Gray(_) => PixelFormat::Luma8,
            }
            &&& frame.planes.len() == 1
            &&& frame.planes[0].data == data
            &&& frame.planes[0].stride == match stride {
                Some(stride) => stride as nat,
                None => frame.format.pixel_format.row_bytes(frame.dims, 0),
            }
            &&& frame.valid()
        }),
{
}

/// Raw gray rows become one byte per pixel: the pixel in column `x` of row `y` is the
/// level that its bits in the input stand for.
pub proof fn law_raw_gray_is_decoded(
    data: Seq<u8>,
    width: u32,
    height: u32,
    pixel_format: RawPixelFormatArg,
    stride: Option<usize>,
    x: nat,
    y: nat,
)
    requires
        pixel_format.layout() is Gray,
        raw_frame(data, width, height, pixel_format, stride) is Ok,
        x < width,
        y < height,
    ensures
        ({
            let frame = raw_frame(data, width, height, pixel_format, stride)->Ok_0;
            let gray = pixel_format.layout()->Gray_0;
            let per = 8nat / gray.bits_per_pixel as nat;
            let start = y * match stride {
                Some(stride) => stride as nat,
                None => gray.row_bytes(width as nat),
            };
            &&& frame.dims.width == width && frame.dims.height == height
            &&& frame.format.pixel_format is Luma8
            &&& frame.planes.len() == 1
            &&& frame.planes[0].stride == width
            &&& frame.planes[0].data.len() == width as nat * height as nat
            &&& 0 <= start + x / per < data.len()
            &&& frame.planes[0].data[(y * width as nat + x) as int] == gray.level(
                seq![data[(start + x / per) as int]],
                x % per,
            )
        }),
{
    let gray = pixel_format.layout()->Gray_0;
    law_raw_layouts_by_name(pixel_format);
    let row_bytes = gray.row_bytes(width as nat);
    let used = match stride {
        Some(stride) => stride as nat,
        None => row_bytes,
    };
    assert(packed_fault(data.len(), width, height, gray, stride) is None);
    assert((height - 1) * used == used * (height - 1)) by (nonlinear_arith);
    law_levels_keep_their_place(gray, data, width as nat, height as nat, used, x, y);
}

/// A tag goes before an index, an index before the default.
pub proof fn law_tags_go_before_indices(tag: String, index: usize, default_index: nat)
    ensures
        chosen(Some(tag), None, default_index) == SelectorModel::Tag(tag@),
        chosen(Some(tag), Some(index), default_index) == SelectorModel::Tag(tag@),
        chosen(None, Some(index), default_index) == SelectorModel::Index(index as nat),
        chosen(None, None, default_index) == SelectorModel::Index(default_index),
{
}

/// An index picks the record at that place, counted from zero; a tag picks the first
/// record that carries it, and fails only where no record does.
pub proof fn law_selectors_pick_records(records: Seq<RecordModel>, index: nat, tag: Seq<char>, i: int)
    requires
        0 <= i <= records.len(),
        i < records.len() ==> records[i].tags.contains(tag),
        forall|j: int| 0 <= j < i ==> !(#[trigger] records[j]).tags.contains(tag),
    ensures
        index < records.len() ==> picked(records, SelectorModel::Index(index)) == Ok::<
            int,
            ErrorView,
        >(index as int),
        index >= records.len() ==> picked(records, SelectorModel::Index(index)) is Err,
        i < records.len() ==> picked(records, SelectorModel::Tag(tag)) == Ok::<int, ErrorView>(i),
        i == records.len() ==> picked(records, SelectorModel::Tag(tag)) is Err,
{
    lemma_first_tagged(records, tag, i, 0);
}

proof fn lemma_first_tagged(records: Seq<RecordModel>, tag: Seq<char>, i: int, from: int)
    requires
        0 <= from <= i <= records.len(),
        i < records.len() ==> records[i].tags.contains(tag),
        forall|j: int| from <= j < i ==> !(#[trigger] records[j]).tags.contains(tag),
    ensures
        tagged_from(records, tag, from) == if i < records.len() {
            Some(i)
        } else {
            None
        },
    decreases i - from,
{
    if from < i {
        lemma_first_tagged(records, tag, i, from + 1);
        let record = records[from];
    }
}

/// A loaded image is the record's own: its frame, its label where it has one, and the
/// selector that found it.
pub proof fn law_loaded_images_are_the_records(
    image: LoadedImage,
    record: RecordModel,
    selector: SelectorModel,
)
    requires
        loads(image, record, selector),
    ensures
        image.frame@ == record.frame,
        image.input.path is None,
        optional_text(image.input.label) == record.label,
        record.label matches Some(label) ==> image.display_label@ == label,
        record.label is None ==> image.display_label@ == match selector {
            SelectorModel::Index(index) => "imqraw["@ + decimal_text(index) + "]"@,
            SelectorModel::Tag(tag) => "imqraw:"@ + tag,
        },
        selector matches SelectorModel::Index(index) ==> image.input.tag is None && (
        image.input.index matches Some(shown) && shown == index),
        selector matches SelectorModel::Tag(tag) ==> image.input.index is None && optional_text(
            image.input.tag,
        ) == Some(tag),
{
}

/// A bundle on standard input gives the frame of the record that is picked.
pub proof fn law_bundles_give_the_picked_frame(
    bytes: Seq<u8>,
    selector: SelectorModel,
    records: Seq<RecordModel>,
)
    requires
        bundle_in(bytes) == Ok::<Seq<RecordModel>, ErrorView>(records),
    ensures
        match picked(records, selector) {
            Ok(index) => bundle_frame(bytes, selector) == Ok::<FrameModel, Seq<char>>(
                records[index].frame,
            ),
            Err(_) => bundle_frame(bytes, selector) is Err,
        },
{
}

/// Raw packed and mask rows are accepted exactly when the size is not zero, the stride
/// holds a row, and the bytes reach to the end of the last row.
pub proof fn law_raw_rows_that_are_accepted(
    data: Seq<u8>,
    width: u32,
    height: u32,
    pixel_format: RawPixelFormatArg,
    stride: Option<usize>,
)
    requires
        !(pixel_format.layout() is Gray),
    ensures
        ({
            let format = match pixel_format.layout() {
                RawLayout::Packed(pixels) => pixels,
                RawLayout::Mask(pixels) => pixels,
                RawLayout::Gray(_) => PixelFormat::Luma8,
            };
            let row = format.row_bytes(Dimensions { width, height }, 0);
            let used = match stride {
                Some(stride) => stride as nat,
                None => row,
            };
            raw_frame(data, width, height, pixel_format, stride) is Ok <==> {
                &&& width > 0 && height > 0
                &&& row <= u32::MAX
                &&& row <= used
                &&& (height - 1) * used + row <= data.len()
            }
        }),
{
    law_raw_layouts_by_name(pixel_format);
    let format = match pixel_format.layout() {
        RawLayout::Packed(pixels) => pixels,
        RawLayout::Mask(pixels) => pixels,
        RawLayout::Gray(_) => PixelFormat::Luma8,
    };
    let row = format.row_bytes(Dimensions { width, height }, 0);
    let used = match stride {
        Some(stride) => stride as nat,
        None => row,
    };
    let frame = packed_model(data, width, height, format, used);
    law_frames_are_refused_for_cause(frame);
    let plane = frame.planes[0];
    if width > 0 && height > 0 && row <= u32::MAX && row <= used && (height - 1) * used + row
        <= data.len() {
        assert(frame.valid());
    }
}

} // verus!
