//! Lossless raw image bundle encoding for cross-platform stdin/stdout pipelines.
//!
//! `imqraw` is intentionally small and dependency-free. It stores validated
//! [`FrameOwned`] planes verbatim with little-endian metadata, optional labels,
//! and arbitrary tags.

pub mod cut;
pub mod layout;
pub mod roundtrip;

use crate::adapters::image_crate::{
    from_dynamic_image_rgba8, from_rgb_image, from_rgba_image, image_size, rgba8_fits,
    rgba8_samples,
};
use crate::bytes::{
    byte_capacity, law_le_bytes_of_value, le_bytes, le_number, le_value, lemma_capacities,
    push_le,
};
use crate::error::{outcome, Error, ErrorView, Result};
use crate::frame::{
    checked_tight, owned_planes_model, ColorRange, ColorSpace, Dimensions, FormatSpec, FrameModel, FrameOwned,
    OwnedPlane, PixelFormat, PlaneModel, Transfer,
};
use crate::text::{
    concat3, concat4, concat5, decimal, decimal_text, optional_text, same_bytes, same_text, texts,
    utf8_text,
};
use vstd::prelude::*;
use vstd::utf8::{decode_utf8, encode_utf8, valid_utf8};

verus! {

/// Magic bytes at the beginning of an `imqraw` bundle: `IMQRAW1` and a line feed.
pub const MAGIC: [u8; 8] = [73, 77, 81, 82, 65, 87, 49, 10];

/// A decoded `imqraw` bundle.
#[derive(Debug)]
pub struct RawImageBundle {
    /// Images in stream order.
    pub records: Vec<RawImageRecord>,
}

/// One image inside an `imqraw` bundle.
#[derive(Debug)]
pub struct RawImageRecord {
    /// Optional human-readable label, commonly the source path.
    pub label: Option<String>,
    /// Caller-defined tags used for selection and grouping.
    pub tags: Vec<String>,
    /// Validated image frame.
    pub frame: FrameOwned,
}

/// A selector for an image in a bundle.
#[derive(Debug, Clone, PartialEq, Eq)]
pub enum RawImageSelector {
    /// Select by zero-based image index.
    Index(usize),
    /// Select the first image containing this tag.
    Tag(String),
}

/// Mathematical content of a record.
#[verifier::ext_equal]
pub struct RecordModel {
    /// Optional label.
    pub label: Option<Seq<char>>,
    /// Tags in order.
    pub tags: Seq<Seq<char>>,
    /// Image frame.
    pub frame: FrameModel,
}

impl View for RawImageRecord {
    type V = RecordModel;

    open spec fn view(&self) -> RecordModel {
        RecordModel {
            label: optional_text(self.label),
            tags: texts(self.tags@),
            frame: self.frame@,
        }
    }
}

impl View for RawImageBundle {
    type V = Seq<RecordModel>;

    open spec fn view(&self) -> Seq<RecordModel> {
        self.records@.map_values(|record: RawImageRecord| record@)
    }
}

impl RawImageRecord {
    /// Creates a record from a validated frame.
    pub fn new(label: Option<String>, tags: Vec<String>, frame: FrameOwned) -> (record: Self)
        ensures
            record.label == label,
            record.tags == tags,
            record.frame == frame,
    {
        Self { label, tags, frame }
    }

    /// Tells whether the record carries a tag.
    pub fn has_tag(&self, tag: &str) -> (found: bool)
        ensures
            found == self@.tags.contains(tag@),
    {
        let mut i: usize = 0;
        while i < self.tags.len()
            invariant
                i <= self.tags.len(),
                forall|j: int| 0 <= j < i ==> #[trigger] self@.tags[j] != tag@,
            decreases self.tags.len() - i,
        {
            if same_text(self.tags[i].as_str(), tag) {
                assert(self@.tags[i as int] == tag@);
                return true;
            }
            i += 1;
        }
        false
    }
}

impl RawImageBundle {
    /// Creates a bundle from image records.
    pub fn new(records: Vec<RawImageRecord>) -> (bundle: Self)
        ensures
            bundle.records == records,
    {
        Self { records }
    }

    /// Message for an index behind the last record.
    pub open spec fn index_error(index: nat, count: nat) -> ErrorView {
        ErrorView::UnsupportedInput(
            "imqraw image index "@ + decimal_text(index) + " is out of range; bundle contains "@
                + decimal_text(count) + " image(s)"@,
        )
    }

    /// Message for a tag that no record carries.
    pub open spec fn tag_error(tag: Seq<char>) -> ErrorView {
        ErrorView::UnsupportedInput("imqraw tag `"@ + tag + "` was not found"@)
    }

    /// Returns the record at a zero-based index.
    pub fn select_index(&self, index: usize) -> (result: Result<&RawImageRecord>)
        ensures
            match result {
                Ok(record) => *record == self.records@[index as int],
                Err(error) => error@ == Self::index_error(index as nat, self.records@.len()),
            },
            result is Ok <==> index < self.records@.len(),
    {
        if index < self.records.len() {
            Ok(&self.records[index])
        } else {
            Err(
                Error::unsupported(
                    concat5(
                        "imqraw image index ",
                        decimal(index as u64).as_str(),
                        " is out of range; bundle contains ",
                        decimal(self.records.len() as u64).as_str(),
                        " image(s)",
                    ).as_str(),
                ),
            )
        }
    }

    /// Whether `index` is the first record that carries the tag.
    pub open spec fn first_with_tag(self, tag: Seq<char>, index: int) -> bool {
        &&& 0 <= index < self@.len()
        &&& self@[index].tags.contains(tag)
        &&& forall|j: int| 0 <= j < index ==> !(#[trigger] self@[j]).tags.contains(tag)
    }

    /// Returns the first record containing the requested tag.
    pub fn select_tag(&self, tag: &str) -> (result: Result<&RawImageRecord>)
        ensures
            match result {
                Ok(record) => exists|i: int|
                    #[trigger] self.first_with_tag(tag@, i) && *record == self.records@[i],
                Err(error) => error@ == Self::tag_error(tag@),
            },
            result is Ok <==> exists|i: int| #[trigger] self.first_with_tag(tag@, i),
    {
        let mut i: usize = 0;
        while i < self.records.len()
            invariant
                i <= self.records.len(),
                forall|j: int| 0 <= j < i ==> !(#[trigger] self@[j]).tags.contains(tag@),
            decreases self.records.len() - i,
        {
            assert(self@[i as int] == self.records@[i as int]@);
            if self.records[i].has_tag(tag) {
                assert(self.first_with_tag(tag@, i as int));
                return Ok(&self.records[i]);
            }
            i += 1;
        }
        Err(
            Error::unsupported(concat3("imqraw tag `", tag, "` was not found").as_str()),
        )
    }

    /// Returns the record selected by tag or index.
    pub fn select(&self, selector: &RawImageSelector) -> (result: Result<&RawImageRecord>)
        ensures
            match *selector {
                RawImageSelector::Index(index) => {
                    &&& result is Ok <==> index < self.records@.len()
                    &&& match result {
                        Ok(record) => *record == self.records@[index as int],
                        Err(error) => error@ == Self::index_error(
                            index as nat,
                            self.records@.len(),
                        ),
                    }
                },
                RawImageSelector::Tag(tag) => {
                    &&& result is Ok <==> exists|i: int| #[trigger] self.first_with_tag(tag@, i)
                    &&& match result {
                        Ok(record) => exists|i: int|
                            #[trigger] self.first_with_tag(tag@, i) && *record == self.records@[i],
                        Err(error) => error@ == Self::tag_error(tag@),
                    }
                },
            },
    {
        match selector {
            RawImageSelector::Index(index) => self.select_index(*index),
            RawImageSelector::Tag(tag) => self.select_tag(tag.as_str()),
        }
    }
}

/// The frame content inside a record result, or of the error in its place.
pub open spec fn record_frame(result: Result<RawImageRecord>) -> core::result::Result<
    FrameModel,
    ErrorView,
> {
    match result {
        Ok(record) => Ok(record.frame@),
        Err(error) => Err(error@),
    }
}

/// Creates an `imqraw` record from an `image::DynamicImage`, normalized to RGBA8.
pub fn record_from_dynamic_image(
    label: Option<String>,
    tags: Vec<String>,
    image: &image::DynamicImage,
) -> (result: Result<RawImageRecord>)
    requires
        rgba8_fits(*image),
    ensures
        record_frame(result) == checked_tight(
            rgba8_samples(*image),
            image_size(*image).0,
            image_size(*image).1,
            PixelFormat::Rgba8,
        ),
        result matches Ok(record) ==> record.label == label && record.tags == tags,
{
    match from_dynamic_image_rgba8(image) {
        Ok(frame) => Ok(RawImageRecord::new(label, tags, frame)),
        Err(error) => Err(error),
    }
}

/// Creates an `imqraw` record from the width, height, and samples of an RGBA
/// image without an extra pixel copy.
pub fn record_from_rgba_image(
    label: Option<String>,
    tags: Vec<String>,
    width: u32,
    height: u32,
    samples: Vec<u8>,
) -> (result: Result<RawImageRecord>)
    ensures
        record_frame(result) == checked_tight(samples@, width, height, PixelFormat::Rgba8),
        result matches Ok(record) ==> record.label == label && record.tags == tags,
{
    match from_rgba_image(width, height, samples) {
        Ok(frame) => Ok(RawImageRecord::new(label, tags, frame)),
        Err(error) => Err(error),
    }
}

/// Creates an `imqraw` record from the width, height, and samples of an RGB image
/// without an extra pixel copy.
pub fn record_from_rgb_image(
    label: Option<String>,
    tags: Vec<String>,
    width: u32,
    height: u32,
    samples: Vec<u8>,
) -> (result: Result<RawImageRecord>)
    ensures
        record_frame(result) == checked_tight(samples@, width, height, PixelFormat::Rgb8),
        result matches Ok(record) ==> record.label == label && record.tags == tags,
{
    match from_rgb_image(width, height, samples) {
        Ok(frame) => Ok(RawImageRecord::new(label, tags, frame)),
        Err(error) => Err(error),
    }
}

/// Message for a stored code that names nothing.
pub open spec fn unknown_code(what: Seq<char>, code: u16) -> ErrorView {
    ErrorView::UnsupportedInput(
        "unknown imqraw "@ + what + " code "@ + decimal_text(code as nat),
    )
}

fn code_failure(what: &str, code: u16) -> (error: Error)
    ensures
        error@ == unknown_code(what@, code),
{
    Error::unsupported(
        concat4("unknown imqraw ", what, " code ", decimal(code as u64).as_str()).as_str(),
    )
}

/// Stored code of a pixel format. Every format has one, as a bundle stores any validated
/// frame.
pub open spec fn pixel_format_number(value: PixelFormat) -> u16 {
    match value {
        PixelFormat::Luma8 => 1,
        PixelFormat::Rgb8 => 2,
        PixelFormat::Rgba8 => 3,
        PixelFormat::Bgr8 => 4,
        PixelFormat::Bgra8 => 5,
        PixelFormat::Luma16Le => 6,
        PixelFormat::Rgb16Le => 7,
        PixelFormat::Rgba16Le => 8,
        PixelFormat::RgbF32 => 9,
        PixelFormat::RgbaF32 => 10,
        PixelFormat::Yuv444p8 => 11,
        PixelFormat::Yuv422p8 => 12,
        PixelFormat::Yuv420p8 => 13,
        PixelFormat::Nv12 => 14,
        PixelFormat::Hsv8 => 15,
        PixelFormat::Hsva8 => 16,
        PixelFormat::Binary1Lsb => 17,
        PixelFormat::Binary1Msb => 18,
    }
}

/// The pixel format behind a stored code, if the code is known.
pub open spec fn pixel_format_of_number(code: u16) -> Option<PixelFormat> {
    match code {
        1 => Some(PixelFormat::Luma8),
        2 => Some(PixelFormat::Rgb8),
        3 => Some(PixelFormat::Rgba8),
        4 => Some(PixelFormat::Bgr8),
        5 => Some(PixelFormat::Bgra8),
        6 => Some(PixelFormat::Luma16Le),
        7 => Some(PixelFormat::Rgb16Le),
        8 => Some(PixelFormat::Rgba16Le),
        9 => Some(PixelFormat::RgbF32),
        10 => Some(PixelFormat::RgbaF32),
        11 => Some(PixelFormat::Yuv444p8),
        12 => Some(PixelFormat::Yuv422p8),
        13 => Some(PixelFormat::Yuv420p8),
        14 => Some(PixelFormat::Nv12),
        15 => Some(PixelFormat::Hsv8),
        16 => Some(PixelFormat::Hsva8),
        17 => Some(PixelFormat::Binary1Lsb),
        18 => Some(PixelFormat::Binary1Msb),
        _ => None,
    }
}

pub fn pixel_format_code(value: PixelFormat) -> (code: u16)
    ensures
        code == pixel_format_number(value),
{
    match value {
        PixelFormat::Luma8 => 1,
        PixelFormat::Rgb8 => 2,
        PixelFormat::Rgba8 => 3,
        PixelFormat::Bgr8 => 4,
        PixelFormat::Bgra8 => 5,
        PixelFormat::Luma16Le => 6,
        PixelFormat::Rgb16Le => 7,
        PixelFormat::Rgba16Le => 8,
        PixelFormat::RgbF32 => 9,
        PixelFormat::RgbaF32 => 10,
        PixelFormat::Yuv444p8 => 11,
        PixelFormat::Yuv422p8 => 12,
        PixelFormat::Yuv420p8 => 13,
        PixelFormat::Nv12 => 14,
        PixelFormat::Hsv8 => 15,
        PixelFormat::Hsva8 => 16,
        PixelFormat::Binary1Lsb => 17,
        PixelFormat::Binary1Msb => 18,
    }
}

pub fn pixel_format_from_code(code: u16) -> (result: Result<PixelFormat>)
    ensures
        outcome(result) == match pixel_format_of_number(code) {
            Some(value) => Ok::<PixelFormat, ErrorView>(value),
            None => Err(unknown_code("pixel format"@, code)),
        },
{
    match code {
        1 => Ok(PixelFormat::Luma8),
        2 => Ok(PixelFormat::Rgb8),
        3 => Ok(PixelFormat::Rgba8),
        4 => Ok(PixelFormat::Bgr8),
        5 => Ok(PixelFormat::Bgra8),
        6 => Ok(PixelFormat::Luma16Le),
        7 => Ok(PixelFormat::Rgb16Le),
        8 => Ok(PixelFormat::Rgba16Le),
        9 => Ok(PixelFormat::RgbF32),
        10 => Ok(PixelFormat::RgbaF32),
        11 => Ok(PixelFormat::Yuv444p8),
        12 => Ok(PixelFormat::Yuv422p8),
        13 => Ok(PixelFormat::Yuv420p8),
        14 => Ok(PixelFormat::Nv12),
        15 => Ok(PixelFormat::Hsv8),
        16 => Ok(PixelFormat::Hsva8),
        17 => Ok(PixelFormat::Binary1Lsb),
        18 => Ok(PixelFormat::Binary1Msb),
        _ => Err(code_failure("pixel format", code)),
    }
}

/// Stored code of a color space.
pub open spec fn color_space_number(value: ColorSpace) -> u16 {
    match value {
        ColorSpace::Srgb => 1,
        ColorSpace::LinearRgb => 2,
        ColorSpace::Bt601 => 3,
        ColorSpace::Bt709 => 4,
        ColorSpace::Bt2020 => 5,
        ColorSpace::Unknown => 65535,
    }
}

/// The color space behind a stored code, if the code is known.
pub open spec fn color_space_of_number(code: u16) -> Option<ColorSpace> {
    match code {
        1 => Some(ColorSpace::Srgb),
        2 => Some(ColorSpace::LinearRgb),
        3 => Some(ColorSpace::Bt601),
        4 => Some(ColorSpace::Bt709),
        5 => Some(ColorSpace::Bt2020),
        65535 => Some(ColorSpace::Unknown),
        _ => None,
    }
}

pub fn color_space_code(value: ColorSpace) -> (code: u16)
    ensures
        code == color_space_number(value),
{
    match value {
        ColorSpace::Srgb => 1,
        ColorSpace::LinearRgb => 2,
        ColorSpace::Bt601 => 3,
        ColorSpace::Bt709 => 4,
        ColorSpace::Bt2020 => 5,
        ColorSpace::Unknown => 65535,
    }
}

fn color_space_from_code(code: u16) -> (result: Result<ColorSpace>)
    ensures
        outcome(result) == match color_space_of_number(code) {
            Some(value) => Ok::<ColorSpace, ErrorView>(value),
            None => Err(unknown_code("color space"@, code)),
        },
{
    match code {
        1 => Ok(ColorSpace::Srgb),
        2 => Ok(ColorSpace::LinearRgb),
        3 => Ok(ColorSpace::Bt601),
        4 => Ok(ColorSpace::Bt709),
        5 => Ok(ColorSpace::Bt2020),
        65535 => Ok(ColorSpace::Unknown),
        _ => Err(code_failure("color space", code)),
    }
}

/// Stored code of a transfer function.
pub open spec fn transfer_number(value: Transfer) -> u16 {
    match value {
        Transfer::Srgb => 1,
        Transfer::Linear => 2,
        Transfer::Bt1886 => 3,
        Transfer::Hlg => 4,
        Transfer::Pq => 5,
        Transfer::Unknown => 65535,
    }
}

/// The transfer function behind a stored code, if the code is known.
pub open spec fn transfer_of_number(code: u16) -> Option<Transfer> {
    match code {
        1 => Some(Transfer::Srgb),
        2 => Some(Transfer::Linear),
        3 => Some(Transfer::Bt1886),
        4 => Some(Transfer::Hlg),
        5 => Some(Transfer::Pq),
        65535 => Some(Transfer::Unknown),
        _ => None,
    }
}

pub fn transfer_code(value: Transfer) -> (code: u16)
    ensures
        code == transfer_number(value),
{
    match value {
        Transfer::Srgb => 1,
        Transfer::Linear => 2,
        Transfer::Bt1886 => 3,
        Transfer::Hlg => 4,
        Transfer::Pq => 5,
        Transfer::Unknown => 65535,
    }
}

fn transfer_from_code(code: u16) -> (result: Result<Transfer>)
    ensures
        outcome(result) == match transfer_of_number(code) {
            Some(value) => Ok::<Transfer, ErrorView>(value),
            None => Err(unknown_code("transfer"@, code)),
        },
{
    match code {
        1 => Ok(Transfer::Srgb),
        2 => Ok(Transfer::Linear),
        3 => Ok(Transfer::Bt1886),
        4 => Ok(Transfer::Hlg),
        5 => Ok(Transfer::Pq),
        65535 => Ok(Transfer::Unknown),
        _ => Err(code_failure("transfer", code)),
    }
}

/// Stored code of a color range.
pub open spec fn color_range_number(value: ColorRange) -> u16 {
    match value {
        ColorRange::Full => 1,
        ColorRange::Limited => 2,
    }
}

/// The color range behind a stored code, if the code is known.
pub open spec fn color_range_of_number(code: u16) -> Option<ColorRange> {
    match code {
        1 => Some(ColorRange::Full),
        2 => Some(ColorRange::Limited),
        _ => None,
    }
}

pub fn color_range_code(value: ColorRange) -> (code: u16)
    ensures
        code == color_range_number(value),
{
    match value {
        ColorRange::Full => 1,
        ColorRange::Limited => 2,
    }
}

fn color_range_from_code(code: u16) -> (result: Result<ColorRange>)
    ensures
        outcome(result) == match color_range_of_number(code) {
            Some(value) => Ok::<ColorRange, ErrorView>(value),
            None => Err(unknown_code("color range"@, code)),
        },
{
    match code {
        1 => Ok(ColorRange::Full),
        2 => Ok(ColorRange::Limited),
        _ => Err(code_failure("color range", code)),
    }
}

/// Every metadata code reads back as the value it was written for, and every
/// known code is the one its value is written as.
pub proof fn law_codes_are_inverse(
    pixel_format: PixelFormat,
    color_space: ColorSpace,
    transfer: Transfer,
    range: ColorRange,
    code: u16,
)
    ensures
        pixel_format_of_number(pixel_format_number(pixel_format)) == Some(pixel_format),
        color_space_of_number(color_space_number(color_space)) == Some(color_space),
        transfer_of_number(transfer_number(transfer)) == Some(transfer),
        color_range_of_number(color_range_number(range)) == Some(range),
        pixel_format_of_number(code) matches Some(value) ==> pixel_format_number(value) == code,
        color_space_of_number(code) matches Some(value) ==> color_space_number(value) == code,
        transfer_of_number(code) matches Some(value) ==> transfer_number(value) == code,
        color_range_of_number(code) matches Some(value) ==> color_range_number(value) == code,
{
}

/// Length-prefixed UTF-8 text.
pub open spec fn string_bytes(text: Seq<char>) -> Seq<u8> {
    le_bytes(encode_utf8(text).len(), 4) + encode_utf8(text)
}

/// Optional text; an absent one is written as the largest length.
pub open spec fn label_bytes(label: Option<Seq<char>>) -> Seq<u8> {
    match label {
        Some(text) => string_bytes(text),
        None => le_bytes(u32::MAX as nat, 4),
    }
}

/// Texts one behind the other.
pub open spec fn tags_bytes(tags: Seq<Seq<char>>) -> Seq<u8>
    decreases tags.len(),
{
    if tags.len() == 0 {
        Seq::empty()
    } else {
        tags_bytes(tags.drop_last()) + string_bytes(tags.last())
    }
}

/// Stride, length, and bytes of a plane.
pub open spec fn plane_bytes(plane: PlaneModel) -> Seq<u8> {
    le_bytes(plane.stride, 8) + le_bytes(plane.data.len(), 8) + plane.data
}

/// Planes one behind the other.
pub open spec fn planes_bytes(planes: Seq<PlaneModel>) -> Seq<u8>
    decreases planes.len(),
{
    if planes.len() == 0 {
        Seq::empty()
    } else {
        planes_bytes(planes.drop_last()) + plane_bytes(planes.last())
    }
}

/// Size and metadata codes of a frame.
pub open spec fn header_bytes(dims: Dimensions, format: FormatSpec) -> Seq<u8> {
    le_bytes(dims.width as nat, 4) + le_bytes(dims.height as nat, 4) + le_bytes(
        pixel_format_number(format.pixel_format) as nat,
        2,
    ) + le_bytes(color_space_number(format.color_space) as nat, 2) + le_bytes(
        transfer_number(format.transfer) as nat,
        2,
    ) + le_bytes(color_range_number(format.range) as nat, 2)
}

/// One record: header, label, tag and plane counts, tags, planes.
pub open spec fn record_bytes(record: RecordModel) -> Seq<u8> {
    header_bytes(record.frame.dims, record.frame.format) + label_bytes(record.label) + le_bytes(
        record.tags.len(),
        4,
    ) + le_bytes(record.frame.planes.len(), 4) + tags_bytes(record.tags) + planes_bytes(
        record.frame.planes,
    )
}

/// Records one behind the other.
pub open spec fn records_bytes(records: Seq<RecordModel>) -> Seq<u8>
    decreases records.len(),
{
    if records.len() == 0 {
        Seq::empty()
    } else {
        records_bytes(records.drop_last()) + record_bytes(records.last())
    }
}

/// A whole bundle: magic, record count, records.
pub open spec fn bundle_bytes(records: Seq<RecordModel>) -> Seq<u8> {
    MAGIC@ + le_bytes(records.len(), 4) + records_bytes(records)
}

/// Message for a count or length that does not fit the stored integer.
pub open spec fn excess(label: Seq<char>, width: Seq<char>) -> ErrorView {
    ErrorView::UnsupportedInput("imqraw "@ + label + " exceeds "@ + width)
}

/// Whether a text's byte length fits its prefix.
pub open spec fn text_fits(text: Seq<char>) -> bool {
    encode_utf8(text).len() <= u32::MAX
}

/// What keeps a record from being written, if anything.
pub open spec fn record_fault(record: RecordModel) -> Option<ErrorView> {
    if record.label matches Some(text) && !text_fits(text) {
        Some(excess("string length"@, "u32"@))
    } else if record.tags.len() > u32::MAX {
        Some(excess("tag count"@, "u32"@))
    } else if exists|i: int| 0 <= i < record.tags.len() && !text_fits(#[trigger] record.tags[i]) {
        Some(excess("string length"@, "u32"@))
    } else {
        None
    }
}

/// What keeps the records from `first` on from being written: the fault of the first faulty one.
pub open spec fn records_fault(records: Seq<RecordModel>, first: int) -> Option<ErrorView>
    decreases records.len() - first,
{
    if first < 0 || first >= records.len() {
        None
    } else if record_fault(records[first]) is Some {
        record_fault(records[first])
    } else {
        records_fault(records, first + 1)
    }
}

/// What keeps a bundle from being written, if anything.
pub open spec fn bundle_fault(records: Seq<RecordModel>) -> Option<ErrorView> {
    if records.len() > u32::MAX {
        Some(excess("record count"@, "u32"@))
    } else {
        records_fault(records, 0)
    }
}

fn checked_u32(value: usize, label: &str) -> (result: Result<u32>)
    ensures
        outcome(result) == if value <= u32::MAX {
            Ok::<u32, ErrorView>(value as u32)
        } else {
            Err(excess(label@, "u32"@))
        },
{
    if value as u64 <= u32::MAX as u64 {
        Ok(value as u32)
    } else {
        Err(Error::unsupported(concat4("imqraw ", label, " exceeds ", "u32").as_str()))
    }
}

fn checked_u64(value: usize) -> (widened: u64)
    ensures
        widened == value,
{
    value as u64
}

fn checked_usize(value: u64, label: &str) -> (result: Result<usize>)
    ensures
        outcome(result) == if value <= usize::MAX {
            Ok::<usize, ErrorView>(value as usize)
        } else {
            Err(excess(label@, "usize"@))
        },
{
    if value <= usize::MAX as u64 {
        Ok(value as usize)
    } else {
        Err(Error::unsupported(concat4("imqraw ", label, " exceeds ", "usize").as_str()))
    }
}

fn push_u16(output: &mut Vec<u8>, value: u16)
    ensures
        final(output)@ == old(output)@ + le_bytes(value as nat, 2),
{
    push_le(output, value as u64, 2);
}

fn push_u32(output: &mut Vec<u8>, value: u32)
    ensures
        final(output)@ == old(output)@ + le_bytes(value as nat, 4),
{
    push_le(output, value as u64, 4);
}

fn push_u64(output: &mut Vec<u8>, value: u64)
    ensures
        final(output)@ == old(output)@ + le_bytes(value as nat, 8),
{
    push_le(output, value, 8);
}

fn push_required_string(output: &mut Vec<u8>, value: &str) -> (result: Result<()>)
    ensures
        match result {
            Ok(_) => final(output)@ == old(output)@ + string_bytes(value@),
            Err(error) => error@ == excess("string length"@, "u32"@),
        },
        result is Ok <==> text_fits(value@),
{
    let bytes = value.as_bytes();
    match checked_u32(bytes.len(), "string length") {
        Ok(len) => {
            push_u32(output, len);
            output.extend_from_slice(bytes);
            assert(output@ =~= old(output)@ + string_bytes(value@));
            Ok(())
        },
        Err(error) => Err(error),
    }
}

fn push_string(output: &mut Vec<u8>, value: &Option<String>) -> (result: Result<()>)
    ensures
        match result {
            Ok(_) => final(output)@ == old(output)@ + label_bytes(optional_text(*value)),
            Err(error) => error@ == excess("string length"@, "u32"@),
        },
        result is Ok <==> (optional_text(*value) matches Some(text) ==> text_fits(text)),
{
    match value {
        Some(text) => push_required_string(output, text.as_str()),
        None => {
            push_u32(output, u32::MAX);
            Ok(())
        },
    }
}

fn push_tags(output: &mut Vec<u8>, tags: &Vec<String>) -> (result: Result<()>)
    ensures
        match result {
            Ok(_) => final(output)@ == old(output)@ + tags_bytes(texts(tags@)),
            Err(error) => error@ == excess("string length"@, "u32"@),
        },
        result is Ok <==> forall|i: int|
            0 <= i < tags@.len() ==> text_fits(#[trigger] texts(tags@)[i]),
{
    let mut i: usize = 0;
    assert(texts(tags@).take(0) =~= Seq::<Seq<char>>::empty());
    assert(output@ + Seq::<u8>::empty() =~= output@);
    while i < tags.len()
        invariant
            i <= tags.len(),
            output@ == old(output)@ + tags_bytes(texts(tags@).take(i as int)),
            forall|j: int| 0 <= j < i ==> text_fits(#[trigger] texts(tags@)[j]),
        decreases tags.len() - i,
    {
        assert(texts(tags@)[i as int] == tags@[i as int]@);
        if let Err(error) = push_required_string(output, tags[i].as_str()) {
            return Err(error);
        }
        proof {
            let next = texts(tags@).take(i + 1);
            assert(next.drop_last() =~= texts(tags@).take(i as int));
            assert(output@ =~= old(output)@ + tags_bytes(next));
        }
        i += 1;
    }
    assert(texts(tags@).take(i as int) =~= texts(tags@));
    Ok(())
}

fn push_planes(output: &mut Vec<u8>, planes: &[OwnedPlane])
    ensures
        final(output)@ == old(output)@ + planes_bytes(owned_planes_model(planes@)),
{
    let ghost model = owned_planes_model(planes@);
    let mut i: usize = 0;
    assert(model.take(0) =~= Seq::<PlaneModel>::empty());
    assert(output@ + Seq::<u8>::empty() =~= output@);
    while i < planes.len()
        invariant
            i <= planes@.len(),
            model == owned_planes_model(planes@),
            output@ == old(output)@ + planes_bytes(model.take(i as int)),
        decreases planes@.len() - i,
    {
        let ghost before = output@;
        push_u64(output, checked_u64(planes[i].stride));
        push_u64(output, checked_u64(planes[i].data.len()));
        output.extend_from_slice(planes[i].data.as_slice());
        proof {
            let next = model.take(i + 1);
            assert(next.drop_last() =~= model.take(i as int));
            assert(next.last() == planes@[i as int]@);
            assert(output@ =~= before + plane_bytes(next.last()));
            assert(output@ =~= old(output)@ + planes_bytes(next));
        }
        i += 1;
    }
    assert(model.take(i as int) =~= model);
}

fn push_header(output: &mut Vec<u8>, dims: Dimensions, format: FormatSpec)
    ensures
        final(output)@ == old(output)@ + header_bytes(dims, format),
{
    push_u32(output, dims.width);
    push_u32(output, dims.height);
    push_u16(output, pixel_format_code(format.pixel_format));
    push_u16(output, color_space_code(format.color_space));
    push_u16(output, transfer_code(format.transfer));
    push_u16(output, color_range_code(format.range));
    assert(output@ =~= old(output)@ + header_bytes(dims, format));
}

fn encode_record(output: &mut Vec<u8>, record: &RawImageRecord) -> (result: Result<()>)
    ensures
        match result {
            Ok(_) => record_fault(record@) is None && final(output)@ == old(output)@
                + record_bytes(record@),
            Err(error) => record_fault(record@) == Some(error@),
        },
{
    let ghost start = output@;
    let planes = record.frame.owned_planes();
    push_header(output, record.frame.dimensions(), record.frame.format());
    if let Err(error) = push_string(output, &record.label) {
        return Err(error);
    }
    match checked_u32(record.tags.len(), "tag count") {
        Ok(count) => push_u32(output, count),
        Err(error) => return Err(error),
    }
    match checked_u32(planes.len(), "plane count") {
        Ok(count) => push_u32(output, count),
        Err(error) => return Err(error),
    }
    if let Err(error) = push_tags(output, &record.tags) {
        return Err(error);
    }
    push_planes(output, planes);
    assert(output@ =~= start + record_bytes(record@));
    Ok(())
}

/// Encodes a raw image bundle into bytes.
pub fn encode_bundle(bundle: &RawImageBundle) -> (result: Result<Vec<u8>>)
    ensures
        match result {
            Ok(bytes) => bundle_fault(bundle@) is None && bytes@ == bundle_bytes(bundle@),
            Err(error) => bundle_fault(bundle@) == Some(error@),
        },
{
    let mut output: Vec<u8> = Vec::new();
    output.extend_from_slice(MAGIC.as_slice());
    match checked_u32(bundle.records.len(), "record count") {
        Ok(count) => push_u32(&mut output, count),
        Err(error) => return Err(error),
    }
    let ghost head = output@;
    let mut i: usize = 0;
    proof {
        assert(bundle@.take(0) =~= Seq::<RecordModel>::empty());
        assert(head + Seq::<u8>::empty() =~= head);
        assert(head =~= MAGIC@ + le_bytes(bundle@.len(), 4));
    }
    while i < bundle.records.len()
        invariant
            i <= bundle.records.len(),
            bundle.records.len() <= u32::MAX,
            head == MAGIC@ + le_bytes(bundle@.len(), 4),
            output@ == head + records_bytes(bundle@.take(i as int)),
            bundle_fault(bundle@) == records_fault(bundle@, i as int),
        decreases bundle.records.len() - i,
    {
        assert(bundle@[i as int] == bundle.records@[i as int]@);
        let ghost before = output@;
        if let Err(error) = encode_record(&mut output, &bundle.records[i]) {
            return Err(error);
        }
        proof {
            let next = bundle@.take(i + 1);
            assert(next.drop_last() =~= bundle@.take(i as int));
            assert(output@ =~= head + records_bytes(next));
        }
        i += 1;
    }
    assert(bundle@.take(i as int) =~= bundle@);
    Ok(output)
}

/// A value read at some offset together with the offset behind it.
pub type Step<T> = core::result::Result<(T, nat), ErrorView>;

/// Reads `len` bytes.
pub open spec fn bytes_at(bytes: Seq<u8>, at: nat, len: nat) -> Step<Seq<u8>> {
    if at + len > usize::MAX {
        Err(ErrorView::UnsupportedInput("imqraw offset overflow"@))
    } else if at + len > bytes.len() {
        Err(ErrorView::UnsupportedInput("truncated imqraw bundle"@))
    } else {
        Ok((bytes.subrange(at as int, (at + len) as int), at + len))
    }
}

/// Reads a little-endian integer of `width` bytes.
pub open spec fn number_at(bytes: Seq<u8>, at: nat, width: nat) -> Step<nat> {
    match bytes_at(bytes, at, width) {
        Ok((piece, next)) => Ok((le_value(piece), next)),
        Err(error) => Err(error),
    }
}

/// Reads `len` bytes as UTF-8 text.
pub open spec fn text_at(bytes: Seq<u8>, at: nat, len: nat) -> Step<Seq<char>> {
    match bytes_at(bytes, at, len) {
        Ok((piece, next)) => if valid_utf8(piece) {
            Ok((decode_utf8(piece), next))
        } else {
            Err(ErrorView::UnsupportedInput("imqraw string is not valid UTF-8"@))
        },
        Err(error) => Err(error),
    }
}

/// Reads a length-prefixed text.
pub open spec fn string_at(bytes: Seq<u8>, at: nat) -> Step<Seq<char>> {
    match number_at(bytes, at, 4) {
        Ok((len, next)) => text_at(bytes, next, len),
        Err(error) => Err(error),
    }
}

/// Reads an optional text.
pub open spec fn label_at(bytes: Seq<u8>, at: nat) -> Step<Option<Seq<char>>> {
    match number_at(bytes, at, 4) {
        Ok((len, next)) => if len == u32::MAX {
            Ok((None, next))
        } else {
            match text_at(bytes, next, len) {
                Ok((text, end)) => Ok((Some(text), end)),
                Err(error) => Err(error),
            }
        },
        Err(error) => Err(error),
    }
}

/// Reads `count` texts.
pub open spec fn tags_at(bytes: Seq<u8>, at: nat, count: nat) -> Step<Seq<Seq<char>>>
    decreases count,
{
    if count == 0 {
        Ok((Seq::empty(), at))
    } else {
        match tags_at(bytes, at, (count - 1) as nat) {
            Ok((tags, next)) => match string_at(bytes, next) {
                Ok((tag, end)) => Ok((tags.push(tag), end)),
                Err(error) => Err(error),
            },
            Err(error) => Err(error),
        }
    }
}

/// Reads an integer of eight bytes that must fit the machine's sizes.
pub open spec fn size_at(bytes: Seq<u8>, at: nat, label: Seq<char>) -> Step<nat> {
    match number_at(bytes, at, 8) {
        Ok((size, next)) => if size <= usize::MAX {
            Ok((size, next))
        } else {
            Err(excess(label, "usize"@))
        },
        Err(error) => Err(error),
    }
}

/// Reads a plane.
pub open spec fn plane_at(bytes: Seq<u8>, at: nat) -> Step<PlaneModel> {
    match size_at(bytes, at, "plane stride"@) {
        Ok((stride, next)) => match size_at(bytes, next, "plane data length"@) {
            Ok((len, data_at)) => match bytes_at(bytes, data_at, len) {
                Ok((data, end)) => Ok((PlaneModel { data, stride }, end)),
                Err(error) => Err(error),
            },
            Err(error) => Err(error),
        },
        Err(error) => Err(error),
    }
}

/// Reads `count` planes.
pub open spec fn planes_at(bytes: Seq<u8>, at: nat, count: nat) -> Step<Seq<PlaneModel>>
    decreases count,
{
    if count == 0 {
        Ok((Seq::empty(), at))
    } else {
        match planes_at(bytes, at, (count - 1) as nat) {
            Ok((planes, next)) => match plane_at(bytes, next) {
                Ok((plane, end)) => Ok((planes.push(plane), end)),
                Err(error) => Err(error),
            },
            Err(error) => Err(error),
        }
    }
}

/// Reads a metadata code of two bytes.
pub open spec fn code_at<T>(
    bytes: Seq<u8>,
    at: nat,
    what: Seq<char>,
    meaning: spec_fn(u16) -> Option<T>,
) -> Step<T> {
    match number_at(bytes, at, 2) {
        Ok((code, next)) => match meaning(code as u16) {
            Some(value) => Ok((value, next)),
            None => Err(unknown_code(what, code as u16)),
        },
        Err(error) => Err(error),
    }
}

/// Reads the metadata codes of a frame.
pub open spec fn format_at(bytes: Seq<u8>, at: nat) -> Step<FormatSpec> {
    match code_at(bytes, at, "pixel format"@, |code: u16| pixel_format_of_number(code)) {
        Ok((pixel_format, a)) => match code_at(
            bytes,
            a,
            "color space"@,
            |code: u16| color_space_of_number(code),
        ) {
            Ok((color_space, b)) => match code_at(
                bytes,
                b,
                "transfer"@,
                |code: u16| transfer_of_number(code),
            ) {
                Ok((transfer, c)) => match code_at(
                    bytes,
                    c,
                    "color range"@,
                    |code: u16| color_range_of_number(code),
                ) {
                    Ok((range, end)) => Ok(
                        (FormatSpec { pixel_format, color_space, transfer, range }, end),
                    ),
                    Err(error) => Err(error),
                },
                Err(error) => Err(error),
            },
            Err(error) => Err(error),
        },
        Err(error) => Err(error),
    }
}

/// Reads a width and a height; they may be zero here.
pub open spec fn sides_at(bytes: Seq<u8>, at: nat) -> Step<Dimensions> {
    match number_at(bytes, at, 4) {
        Ok((width, next)) => match number_at(bytes, next, 4) {
            Ok((height, end)) => Ok(
                (Dimensions { width: width as u32, height: height as u32 }, end),
            ),
            Err(error) => Err(error),
        },
        Err(error) => Err(error),
    }
}

/// Reads label, tags, and planes, in stored order.
pub open spec fn contents_at(bytes: Seq<u8>, at: nat) -> Step<
    (Option<Seq<char>>, Seq<Seq<char>>, Seq<PlaneModel>),
> {
    match label_at(bytes, at) {
        Ok((label, a)) => match number_at(bytes, a, 4) {
            Ok((tag_count, b)) => match number_at(bytes, b, 4) {
                Ok((plane_count, c)) => match tags_at(bytes, c, tag_count) {
                    Ok((tags, d)) => match planes_at(bytes, d, plane_count) {
                        Ok((planes, end)) => Ok(((label, tags, planes), end)),
                        Err(error) => Err(error),
                    },
                    Err(error) => Err(error),
                },
                Err(error) => Err(error),
            },
            Err(error) => Err(error),
        },
        Err(error) => Err(error),
    }
}

/// Reads a record.
pub open spec fn record_at(bytes: Seq<u8>, at: nat) -> Step<RecordModel> {
    match sides_at(bytes, at) {
        Ok((dims, a)) => match format_at(bytes, a) {
            Ok((format, b)) => match contents_at(bytes, b) {
                Ok(((label, tags, planes), end)) => match (FrameModel {
                    dims,
                    format,
                    planes,
                }).checked_sized() {
                    Ok(frame) => Ok((RecordModel { label, tags, frame }, end)),
                    Err(error) => Err(error),
                },
                Err(error) => Err(error),
            },
            Err(error) => Err(error),
        },
        Err(error) => Err(error),
    }
}

/// Reads `count` records.
pub open spec fn records_at(bytes: Seq<u8>, at: nat, count: nat) -> Step<Seq<RecordModel>>
    decreases count,
{
    if count == 0 {
        Ok((Seq::empty(), at))
    } else {
        match records_at(bytes, at, (count - 1) as nat) {
            Ok((records, next)) => match record_at(bytes, next) {
                Ok((record, end)) => Ok((records.push(record), end)),
                Err(error) => Err(error),
            },
            Err(error) => Err(error),
        }
    }
}

/// Reads a whole bundle: magic, record count, records, and nothing behind them.
pub open spec fn bundle_in(bytes: Seq<u8>) -> core::result::Result<Seq<RecordModel>, ErrorView> {
    match bytes_at(bytes, 0, 8) {
        Ok((magic, a)) => if magic != MAGIC@ {
            Err(ErrorView::UnsupportedInput("input is not an imqraw bundle"@))
        } else {
            match number_at(bytes, a, 4) {
                Ok((count, b)) => match records_at(bytes, b, count) {
                    Ok((records, end)) => if end == bytes.len() {
                        Ok(records)
                    } else {
                        Err(ErrorView::UnsupportedInput("imqraw bundle has trailing bytes"@))
                    },
                    Err(error) => Err(error),
                },
                Err(error) => Err(error),
            }
        },
        Err(error) => Err(error),
    }
}

/// A read result together with the reader's new offset.
spec fn step<T>(value: core::result::Result<T, ErrorView>, next: usize) -> Step<T> {
    match value {
        Ok(value) => Ok((value, next as nat)),
        Err(error) => Err(error),
    }
}

/// A text result, by content.
spec fn text_outcome(result: Result<String>) -> core::result::Result<Seq<char>, ErrorView> {
    match result {
        Ok(text) => Ok(text@),
        Err(error) => Err(error@),
    }
}

/// Cursor over the bytes of a bundle.
struct Reader<'a> {
    bytes: &'a [u8],
    offset: usize,
}

impl<'a> Reader<'a> {
    spec fn inside(self) -> bool {
        self.offset <= self.bytes@.len()
    }

    /// Same bytes, and the offset is still inside them.
    spec fn follows(self, before: Reader<'a>) -> bool {
        self.bytes == before.bytes && self.inside()
    }

    fn new(bytes: &'a [u8]) -> (reader: Self)
        ensures
            reader.bytes == bytes,
            reader.offset == 0,
    {
        Self { bytes, offset: 0 }
    }

    fn is_empty(&self) -> (empty: bool)
        ensures
            empty == (self.offset == self.bytes@.len()),
    {
        self.offset == self.bytes.len()
    }

    fn read_exact(&mut self, len: usize) -> (result: Result<&'a [u8]>)
        requires
            old(self).inside(),
        ensures
            final(self).follows(*old(self)),
            match result {
                Ok(piece) => bytes_at(old(self).bytes@, old(self).offset as nat, len as nat) == Ok::<
                    (Seq<u8>, nat),
                    ErrorView,
                >((piece@, final(self).offset as nat)),
                Err(error) => bytes_at(old(self).bytes@, old(self).offset as nat, len as nat)
                    == Err::<(Seq<u8>, nat), ErrorView>(error@),
            },
    {
        let available: usize = self.bytes.len();
        let end: usize = match self.offset.checked_add(len) {
            Some(end) => end,
            None => return Err(Error::unsupported("imqraw offset overflow")),
        };
        if end > available {
            return Err(Error::unsupported("truncated imqraw bundle"));
        }
        let piece = vstd::slice::slice_subrange(self.bytes, self.offset, end);
        self.offset = end;
        Ok(piece)
    }

    fn read_number(&mut self, width: usize) -> (result: Result<u64>)
        requires
            old(self).inside(),
            width <= 8,
        ensures
            final(self).follows(*old(self)),
            match result {
                Ok(value) => number_at(old(self).bytes@, old(self).offset as nat, width as nat)
                    == Ok::<(nat, nat), ErrorView>((value as nat, final(self).offset as nat)),
                Err(error) => number_at(old(self).bytes@, old(self).offset as nat, width as nat)
                    == Err::<(nat, nat), ErrorView>(error@),
            },
    {
        match self.read_exact(width) {
            Ok(piece) => Ok(le_number(piece)),
            Err(error) => Err(error),
        }
    }

    fn read_u16(&mut self) -> (result: Result<u16>)
        requires
            old(self).inside(),
        ensures
            final(self).follows(*old(self)),
            match result {
                Ok(value) => number_at(old(self).bytes@, old(self).offset as nat, 2) == Ok::<
                    (nat, nat),
                    ErrorView,
                >((value as nat, final(self).offset as nat)),
                Err(error) => number_at(old(self).bytes@, old(self).offset as nat, 2) == Err::<
                    (nat, nat),
                    ErrorView,
                >(error@),
            },
    {
        let result = self.read_number(2);
        proof {
            lemma_number_bound(old(self).bytes@, old(self).offset as nat, 2);
        }
        match result {
            Ok(value) => Ok(value as u16),
            Err(error) => Err(error),
        }
    }

    fn read_u32(&mut self) -> (result: Result<u32>)
        requires
            old(self).inside(),
        ensures
            final(self).follows(*old(self)),
            match result {
                Ok(value) => number_at(old(self).bytes@, old(self).offset as nat, 4) == Ok::<
                    (nat, nat),
                    ErrorView,
                >((value as nat, final(self).offset as nat)),
                Err(error) => number_at(old(self).bytes@, old(self).offset as nat, 4) == Err::<
                    (nat, nat),
                    ErrorView,
                >(error@),
            },
    {
        let result = self.read_number(4);
        proof {
            lemma_number_bound(old(self).bytes@, old(self).offset as nat, 4);
        }
        match result {
            Ok(value) => Ok(value as u32),
            Err(error) => Err(error),
        }
    }

    fn read_u64(&mut self) -> (result: Result<u64>)
        requires
            old(self).inside(),
        ensures
            final(self).follows(*old(self)),
            match result {
                Ok(value) => number_at(old(self).bytes@, old(self).offset as nat, 8) == Ok::<
                    (nat, nat),
                    ErrorView,
                >((value as nat, final(self).offset as nat)),
                Err(error) => number_at(old(self).bytes@, old(self).offset as nat, 8) == Err::<
                    (nat, nat),
                    ErrorView,
                >(error@),
            },
    {
        self.read_number(8)
    }

    fn read_size(&mut self, label: &str) -> (result: Result<usize>)
        requires
            old(self).inside(),
        ensures
            final(self).follows(*old(self)),
            match result {
                Ok(value) => size_at(old(self).bytes@, old(self).offset as nat, label@) == Ok::<
                    (nat, nat),
                    ErrorView,
                >((value as nat, final(self).offset as nat)),
                Err(error) => size_at(old(self).bytes@, old(self).offset as nat, label@) == Err::<
                    (nat, nat),
                    ErrorView,
                >(error@),
            },
    {
        match self.read_u64() {
            Ok(value) => checked_usize(value, label),
            Err(error) => Err(error),
        }
    }

    fn read_string(&mut self, len: usize) -> (result: Result<String>)
        requires
            old(self).inside(),
        ensures
            final(self).follows(*old(self)),
            step(text_outcome(result), final(self).offset) == text_at(
                old(self).bytes@,
                old(self).offset as nat,
                len as nat,
            ),
    {
        match self.read_exact(len) {
            Ok(piece) => match utf8_text(piece) {
                Some(text) => Ok(String::from_str(text)),
                None => Err(Error::unsupported("imqraw string is not valid UTF-8")),
            },
            Err(error) => Err(error),
        }
    }

    fn read_required_string(&mut self) -> (result: Result<String>)
        requires
            old(self).inside(),
        ensures
            final(self).follows(*old(self)),
            step(text_outcome(result), final(self).offset) == string_at(
                old(self).bytes@,
                old(self).offset as nat,
            ),
    {
        match self.read_u32() {
            Ok(len) => self.read_string(len as usize),
            Err(error) => Err(error),
        }
    }

    fn read_optional_string(&mut self) -> (result: Result<Option<String>>)
        requires
            old(self).inside(),
        ensures
            final(self).follows(*old(self)),
            step(
                match result {
                    Ok(label) => Ok::<Option<Seq<char>>, ErrorView>(optional_text(label)),
                    Err(error) => Err(error@),
                },
                final(self).offset,
            ) == label_at(old(self).bytes@, old(self).offset as nat),
    {
        match self.read_u32() {
            Ok(len) => {
                if len == u32::MAX {
                    return Ok(None);
                }
                match self.read_string(len as usize) {
                    Ok(text) => Ok(Some(text)),
                    Err(error) => Err(error),
                }
            },
            Err(error) => Err(error),
        }
    }

    fn read_tags(&mut self, count: u32) -> (result: Result<Vec<String>>)
        requires
            old(self).inside(),
        ensures
            final(self).follows(*old(self)),
            step(
                match result {
                    Ok(tags) => Ok::<Seq<Seq<char>>, ErrorView>(texts(tags@)),
                    Err(error) => Err(error@),
                },
                final(self).offset,
            ) == tags_at(old(self).bytes@, old(self).offset as nat, count as nat),
    {
        let ghost bytes = self.bytes@;
        let ghost start = self.offset as nat;
        let mut tags: Vec<String> = Vec::new();
        let mut i: u32 = 0;
        assert(texts(tags@) =~= Seq::<Seq<char>>::empty());
        while i < count
            invariant
                i <= count,
                self.follows(*old(self)),
                bytes == old(self).bytes@,
                start == old(self).offset,
                tags_at(bytes, start, i as nat) == Ok::<(Seq<Seq<char>>, nat), ErrorView>(
                    (texts(tags@), self.offset as nat),
                ),
            decreases count - i,
        {
            let ghost before = tags@;
            match self.read_required_string() {
                Ok(tag) => {
                    tags.push(tag);
                    assert(texts(tags@) =~= texts(before).push(tag@));
                },
                Err(error) => {
                    proof {
                        assert(tags_at(bytes, start, (i + 1) as nat) is Err);
                        lemma_tags_error(bytes, start, (i + 1) as nat, count as nat);
                    }
                    return Err(error);
                },
            }
            i += 1;
        }
        Ok(tags)
    }

    fn read_plane(&mut self) -> (result: Result<OwnedPlane>)
        requires
            old(self).inside(),
        ensures
            final(self).follows(*old(self)),
            step(
                match result {
                    Ok(plane) => Ok::<PlaneModel, ErrorView>(plane@),
                    Err(error) => Err(error@),
                },
                final(self).offset,
            ) == plane_at(old(self).bytes@, old(self).offset as nat),
    {
        let stride: usize = match self.read_size("plane stride") {
            Ok(stride) => stride,
            Err(error) => return Err(error),
        };
        let len: usize = match self.read_size("plane data length") {
            Ok(len) => len,
            Err(error) => return Err(error),
        };
        match self.read_exact(len) {
            Ok(piece) => Ok(OwnedPlane::new(vstd::slice::slice_to_vec(piece), stride)),
            Err(error) => Err(error),
        }
    }

    fn read_planes(&mut self, count: u32) -> (result: Result<Vec<OwnedPlane>>)
        requires
            old(self).inside(),
        ensures
            final(self).follows(*old(self)),
            step(
                match result {
                    Ok(planes) => Ok::<Seq<PlaneModel>, ErrorView>(owned_planes_model(planes@)),
                    Err(error) => Err(error@),
                },
                final(self).offset,
            ) == planes_at(old(self).bytes@, old(self).offset as nat, count as nat),
    {
        let ghost bytes = self.bytes@;
        let ghost start = self.offset as nat;
        let mut planes: Vec<OwnedPlane> = Vec::new();
        let mut i: u32 = 0;
        assert(owned_planes_model(planes@) =~= Seq::<PlaneModel>::empty());
        while i < count
            invariant
                i <= count,
                self.follows(*old(self)),
                bytes == old(self).bytes@,
                start == old(self).offset,
                planes_at(bytes, start, i as nat) == Ok::<(Seq<PlaneModel>, nat), ErrorView>(
                    (owned_planes_model(planes@), self.offset as nat),
                ),
            decreases count - i,
        {
            let ghost before = planes@;
            match self.read_plane() {
                Ok(plane) => {
                    planes.push(plane);
                    assert(owned_planes_model(planes@) =~= owned_planes_model(before).push(plane@));
                },
                Err(error) => {
                    proof {
                        assert(planes_at(bytes, start, (i + 1) as nat) is Err);
                        lemma_planes_error(bytes, start, (i + 1) as nat, count as nat);
                    }
                    return Err(error);
                },
            }
            i += 1;
        }
        Ok(planes)
    }

    fn read_sides(&mut self) -> (result: Result<(u32, u32)>)
        requires
            old(self).inside(),
        ensures
            final(self).follows(*old(self)),
            step(
                match result {
                    Ok((width, height)) => Ok::<Dimensions, ErrorView>(
                        Dimensions { width, height },
                    ),
                    Err(error) => Err(error@),
                },
                final(self).offset,
            ) == sides_at(old(self).bytes@, old(self).offset as nat),
    {
        let width: u32 = match self.read_u32() {
            Ok(width) => width,
            Err(error) => return Err(error),
        };
        match self.read_u32() {
            Ok(height) => Ok((width, height)),
            Err(error) => Err(error),
        }
    }

    fn read_format(&mut self) -> (result: Result<FormatSpec>)
        requires
            old(self).inside(),
        ensures
            final(self).follows(*old(self)),
            step(outcome(result), final(self).offset) == format_at(
                old(self).bytes@,
                old(self).offset as nat,
            ),
    {
        let pixel_format = match self.read_u16() {
            Ok(code) => match pixel_format_from_code(code) {
                Ok(value) => value,
                Err(error) => return Err(error),
            },
            Err(error) => return Err(error),
        };
        let color_space = match self.read_u16() {
            Ok(code) => match color_space_from_code(code) {
                Ok(value) => value,
                Err(error) => return Err(error),
            },
            Err(error) => return Err(error),
        };
        let transfer = match self.read_u16() {
            Ok(code) => match transfer_from_code(code) {
                Ok(value) => value,
                Err(error) => return Err(error),
            },
            Err(error) => return Err(error),
        };
        match self.read_u16() {
            Ok(code) => match color_range_from_code(code) {
                Ok(range) => Ok(
                    FormatSpec::with_metadata(pixel_format, color_space, transfer, range),
                ),
                Err(error) => Err(error),
            },
            Err(error) => Err(error),
        }
    }
}

/// A number read from `width` bytes fits `width` bytes.
proof fn lemma_number_bound(bytes: Seq<u8>, at: nat, width: nat)
    ensures
        number_at(bytes, at, width) matches Ok((value, _)) ==> value < byte_capacity(width),
        byte_capacity(2) == 0x1_0000,
        byte_capacity(4) == 0x1_0000_0000,
{
    lemma_capacities();
    if let Ok((piece, _)) = bytes_at(bytes, at, width) {
        law_le_bytes_of_value(piece);
    }
}

/// A failure among the first texts is the failure of all of them.
proof fn lemma_tags_error(bytes: Seq<u8>, at: nat, some: nat, all: nat)
    requires
        some <= all,
        tags_at(bytes, at, some) is Err,
    ensures
        tags_at(bytes, at, all) == tags_at(bytes, at, some),
    decreases all,
{
    if some < all {
        lemma_tags_error(bytes, at, some, (all - 1) as nat);
    }
}

/// A failure among the first planes is the failure of all of them.
proof fn lemma_planes_error(bytes: Seq<u8>, at: nat, some: nat, all: nat)
    requires
        some <= all,
        planes_at(bytes, at, some) is Err,
    ensures
        planes_at(bytes, at, all) == planes_at(bytes, at, some),
    decreases all,
{
    if some < all {
        lemma_planes_error(bytes, at, some, (all - 1) as nat);
    }
}

/// A failure among the first records is the failure of all of them.
proof fn lemma_records_error(bytes: Seq<u8>, at: nat, some: nat, all: nat)
    requires
        some <= all,
        records_at(bytes, at, some) is Err,
    ensures
        records_at(bytes, at, all) == records_at(bytes, at, some),
    decreases all,
{
    if some < all {
        lemma_records_error(bytes, at, some, (all - 1) as nat);
    }
}

fn decode_record(reader: &mut Reader<'_>) -> (result: Result<RawImageRecord>)
    requires
        old(reader).inside(),
    ensures
        final(reader).follows(*old(reader)),
        step(
            match result {
                Ok(record) => Ok::<RecordModel, ErrorView>(record@),
                Err(error) => Err(error@),
            },
            final(reader).offset,
        ) == record_at(old(reader).bytes@, old(reader).offset as nat),
{
    let (width, height): (u32, u32) = match reader.read_sides() {
        Ok(sides) => sides,
        Err(error) => return Err(error),
    };
    let format = match reader.read_format() {
        Ok(format) => format,
        Err(error) => return Err(error),
    };
    let label = match reader.read_optional_string() {
        Ok(label) => label,
        Err(error) => return Err(error),
    };
    let tag_count: u32 = match reader.read_u32() {
        Ok(count) => count,
        Err(error) => return Err(error),
    };
    let plane_count: u32 = match reader.read_u32() {
        Ok(count) => count,
        Err(error) => return Err(error),
    };
    let tags = match reader.read_tags(tag_count) {
        Ok(tags) => tags,
        Err(error) => return Err(error),
    };
    let planes = match reader.read_planes(plane_count) {
        Ok(planes) => planes,
        Err(error) => return Err(error),
    };
    let dims = match Dimensions::new(width, height) {
        Ok(dims) => dims,
        Err(error) => return Err(error),
    };
    match FrameOwned::new(dims, format, planes) {
        Ok(frame) => Ok(RawImageRecord { label, tags, frame }),
        Err(error) => Err(error),
    }
}

/// Decodes a raw image bundle from bytes.
pub fn decode_bundle(bytes: &[u8]) -> (result: Result<RawImageBundle>)
    ensures
        match result {
            Ok(bundle) => bundle_in(bytes@) == Ok::<Seq<RecordModel>, ErrorView>(bundle@),
            Err(error) => bundle_in(bytes@) == Err::<Seq<RecordModel>, ErrorView>(error@),
        },
{
    let mut reader = Reader::new(bytes);
    match reader.read_exact(8) {
        Ok(magic) => {
            if !same_bytes(magic, MAGIC.as_slice()) {
                return Err(Error::unsupported("input is not an imqraw bundle"));
            }
        },
        Err(error) => return Err(error),
    }
    let record_count: u32 = match reader.read_u32() {
        Ok(count) => count,
        Err(error) => return Err(error),
    };
    let ghost start = reader.offset as nat;
    let mut records: Vec<RawImageRecord> = Vec::new();
    let mut i: u32 = 0;
    assert(records@.map_values(|record: RawImageRecord| record@) =~= Seq::<RecordModel>::empty());
    while i < record_count
        invariant
            i <= record_count,
            reader.bytes == bytes,
            reader.inside(),
            bytes_at(bytes@, 0, 8) == Ok::<(Seq<u8>, nat), ErrorView>((MAGIC@, 8)),
            number_at(bytes@, 8, 4) == Ok::<(nat, nat), ErrorView>((record_count as nat, start)),
            records_at(bytes@, start, i as nat) == Ok::<(Seq<RecordModel>, nat), ErrorView>(
                (
                    records@.map_values(|record: RawImageRecord| record@),
                    reader.offset as nat,
                ),
            ),
        decreases record_count - i,
    {
        let ghost before = records@;
        match decode_record(&mut reader) {
            Ok(record) => {
                records.push(record);
                assert(records@.map_values(|record: RawImageRecord| record@)
                    =~= before.map_values(|record: RawImageRecord| record@).push(record@));
            },
            Err(error) => {
                proof {
                    assert(records_at(bytes@, start, (i + 1) as nat) is Err);
                    lemma_records_error(bytes@, start, (i + 1) as nat, record_count as nat);
                }
                return Err(error);
            },
        }
        i += 1;
    }
    if !reader.is_empty() {
        return Err(Error::unsupported("imqraw bundle has trailing bytes"));
    }
    Ok(RawImageBundle { records })
}

/// The record with a tag is the first that carries it: a record is that one exactly when
/// it carries the tag and none before it does, so there is at most one.
pub proof fn law_first_tagged_record(bundle: RawImageBundle, tag: Seq<char>, i: int, other: int)
    ensures
        bundle.first_with_tag(tag, i) <==> {
            &&& 0 <= i < bundle.records@.len()
            &&& texts(bundle.records@[i].tags@).contains(tag)
            &&& forall|j: int|
                0 <= j < i ==> !texts((#[trigger] bundle.records@[j]).tags@).contains(tag)
        },
        bundle.first_with_tag(tag, i) && bundle.first_with_tag(tag, other) ==> other == i,
{
    assert(bundle@.len() == bundle.records@.len());
    if 0 <= i < bundle.records@.len() {
        assert(bundle@[i] == bundle.records@[i]@);
        assert forall|j: int| 0 <= j < i implies (#[trigger] bundle@[j]).tags == texts(
            bundle.records@[j].tags@,
        ) by {}
        if bundle.first_with_tag(tag, i) {
            assert forall|j: int| 0 <= j < i implies !texts(
                (#[trigger] bundle.records@[j]).tags@,
            ).contains(tag) by {
                assert(!bundle@[j].tags.contains(tag));
            }
        }
        if forall|j: int|
            0 <= j < i ==> !texts((#[trigger] bundle.records@[j]).tags@).contains(tag) {
            assert forall|j: int| 0 <= j < i implies !(#[trigger] bundle@[j]).tags.contains(tag) by {
                assert(!texts(bundle.records@[j].tags@).contains(tag));
            }
        }
    }
}

} // verus!
