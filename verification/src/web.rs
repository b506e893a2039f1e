//! `imqraw` entry points for browser and Node pipelines, over plain values.
//!
//! Failures are the messages that the JavaScript caller sees.

use crate::error::{ErrorView, Result};
use crate::frame::{
    checked_packed, checked_tight, law_frames_are_refused_for_cause, owned_planes_model,
    packed_model, Dimensions, FormatSpec, FrameModel, FrameOwned, OwnedPlane, PixelFormat,
    PlaneModel,
};
use crate::imqraw::layout::{law_encodable_bundles, law_storable_records};
use crate::imqraw::roundtrip::{law_decode_of_encode, storable};
use crate::imqraw::{
    bundle_bytes, bundle_fault, bundle_in, color_range_code, color_range_number, color_space_code,
    color_space_number, decode_bundle, encode_bundle, pixel_format_code,
    pixel_format_number, pixel_format_of_number, transfer_code, transfer_number,
    RawImageBundle, RawImageRecord, RecordModel,
};
use crate::text::{concat2, copy_texts, decimal, decimal_text, optional_text, texts};
use vstd::prelude::*;

verus! {

/// One tightly packed RGBA8 image handed over by a script.
#[derive(Debug)]
pub struct WebImage {
    /// Pixel bytes.
    pub data: Vec<u8>,
    /// Width in pixels.
    pub width: u32,
    /// Height in pixels.
    pub height: u32,
    /// Label; empty for none.
    pub label: String,
    /// Tags.
    pub tags: Vec<String>,
}

/// One decoded image for a script.
#[derive(Debug)]
pub struct WebRecord {
    /// Position in the bundle.
    pub index: usize,
    /// Width in pixels.
    pub width: u32,
    /// Height in pixels.
    pub height: u32,
    /// Stable pixel-format code.
    pub pixel_format: u16,
    /// Stable color-space code.
    pub color_space: u16,
    /// Stable transfer code.
    pub transfer: u16,
    /// Stable range code.
    pub range: u16,
    /// Optional label.
    pub label: Option<String>,
    /// Tags.
    pub tags: Vec<String>,
    /// Planes with their strides.
    pub planes: Vec<OwnedPlane>,
}

impl WebRecord {
    /// Whether the record's only plane is also offered as the image's own bytes and stride.
    pub fn has_single_plane(&self) -> (single: bool)
        ensures
            single == (self.planes@.len() == 1),
    {
        self.planes.len() == 1
    }
}

/// A library result as a script sees it.
pub open spec fn message_of<T>(result: core::result::Result<T, ErrorView>) -> core::result::Result<
    T,
    Seq<char>,
> {
    match result {
        Ok(value) => Ok(value),
        Err(error) => Err(error.message()),
    }
}

/// A label is absent when its text is empty.
pub open spec fn non_empty_text(text: Seq<char>) -> Option<Seq<char>> {
    if text.len() == 0 {
        None
    } else {
        Some(text)
    }
}

fn non_empty(value: String) -> (label: Option<String>)
    ensures
        optional_text(label) == non_empty_text(value@),
{
    if value.as_str().is_empty() {
        None
    } else {
        Some(value)
    }
}

/// The record of a frame with a possibly empty label.
pub open spec fn labelled(
    frame: core::result::Result<FrameModel, ErrorView>,
    label: Seq<char>,
    tags: Seq<Seq<char>>,
) -> core::result::Result<RecordModel, Seq<char>> {
    match message_of(frame) {
        Ok(frame) => Ok(RecordModel { label: non_empty_text(label), tags, frame }),
        Err(message) => Err(message),
    }
}

/// The encoding of records, or the message of what keeps them from being written.
pub open spec fn encoded(
    records: core::result::Result<Seq<RecordModel>, Seq<char>>,
) -> core::result::Result<Seq<u8>, Seq<char>> {
    match records {
        Ok(records) => match bundle_fault(records) {
            Some(fault) => Err(fault.message()),
            None => Ok(bundle_bytes(records)),
        },
        Err(message) => Err(message),
    }
}

/// One record as a bundle.
pub open spec fn single(record: core::result::Result<RecordModel, Seq<char>>) -> core::result::Result<
    Seq<RecordModel>,
    Seq<char>,
> {
    match record {
        Ok(record) => Ok(seq![record]),
        Err(message) => Err(message),
    }
}

/// A result by content.
pub open spec fn bytes_outcome(result: core::result::Result<Vec<u8>, String>) -> core::result::Result<
    Seq<u8>,
    Seq<char>,
> {
    match result {
        Ok(bytes) => Ok(bytes@),
        Err(message) => Err(message@),
    }
}

fn rgba8_record(data: Vec<u8>, width: u32, height: u32, label: String, tags: Vec<String>) -> (result:
    core::result::Result<RawImageRecord, String>)
    ensures
        match result {
            Ok(record) => labelled(
                checked_tight(data@, width, height, PixelFormat::Rgba8),
                label@,
                texts(tags@),
            ) == Ok::<RecordModel, Seq<char>>(record@),
            Err(message) => labelled(
                checked_tight(data@, width, height, PixelFormat::Rgba8),
                label@,
                texts(tags@),
            ) == Err::<RecordModel, Seq<char>>(message@),
        },
{
    match FrameOwned::packed_tight(data, width, height, PixelFormat::Rgba8) {
        Ok(frame) => Ok(RawImageRecord::new(non_empty(label), tags, frame)),
        Err(error) => Err(error.message()),
    }
}

fn encode_single(record: RawImageRecord) -> (result: core::result::Result<Vec<u8>, String>)
    ensures
        bytes_outcome(result) == encoded(Ok(seq![record@])),
{
    let bundle = RawImageBundle::new(vec![record]);
    assert(bundle@ =~= seq![record@]);
    match encode_bundle(&bundle) {
        Ok(bytes) => Ok(bytes),
        Err(error) => Err(error.message()),
    }
}

/// Encodes one tightly packed RGBA8 image as an `imqraw` bundle.
pub fn encode_imqraw_rgba8(
    data: Vec<u8>,
    width: u32,
    height: u32,
    label: String,
    tags: Vec<String>,
) -> (result: core::result::Result<Vec<u8>, String>)
    ensures
        bytes_outcome(result) == encoded(
            single(
                labelled(
                    checked_tight(data@, width, height, PixelFormat::Rgba8),
                    label@,
                    texts(tags@),
                ),
            ),
        ),
{
    match rgba8_record(data, width, height, label, tags) {
        Ok(record) => encode_single(record),
        Err(message) => Err(message),
    }
}

/// The record of one handed-over image.
pub open spec fn web_record_model(image: WebImage) -> core::result::Result<RecordModel, Seq<char>> {
    labelled(
        checked_tight(image.data@, image.width, image.height, PixelFormat::Rgba8),
        image.label@,
        texts(image.tags@),
    )
}

/// The records of the first `count` images, or the message of the first bad one.
pub open spec fn web_records(images: Seq<WebImage>, count: nat) -> core::result::Result<
    Seq<RecordModel>,
    Seq<char>,
>
    decreases count,
{
    if count == 0 {
        Ok(Seq::empty())
    } else {
        match web_records(images, (count - 1) as nat) {
            Ok(before) => match web_record_model(images[count - 1]) {
                Ok(record) => Ok(before.push(record)),
                Err(message) => Err(message),
            },
            Err(message) => Err(message),
        }
    }
}

proof fn lemma_web_records_error(images: Seq<WebImage>, some: nat, all: nat)
    requires
        some <= all,
        web_records(images, some) is Err,
    ensures
        web_records(images, all) == web_records(images, some),
    decreases all,
{
    if some < all {
        lemma_web_records_error(images, some, (all - 1) as nat);
    }
}

/// Encodes a list of RGBA8 images.
pub fn encode_imqraw_rgba8_bundle(images: &Vec<WebImage>) -> (result: core::result::Result<
    Vec<u8>,
    String,
>)
    ensures
        bytes_outcome(result) == encoded(web_records(images@, images@.len())),
{
    let mut records: Vec<RawImageRecord> = Vec::new();
    let mut i: usize = 0;
    assert(records@.map_values(|record: RawImageRecord| record@) =~= Seq::<RecordModel>::empty());
    while i < images.len()
        invariant
            i <= images@.len(),
            web_records(images@, i as nat) == Ok::<Seq<RecordModel>, Seq<char>>(
                records@.map_values(|record: RawImageRecord| record@),
            ),
        decreases images@.len() - i,
    {
        let ghost before = records@;
        let image = &images[i];
        let tags = copy_texts(&image.tags);
        match rgba8_record(
            image.data.clone(),
            image.width,
            image.height,
            image.label.clone(),
            tags,
        ) {
            Ok(record) => {
                records.push(record);
                assert(records@.map_values(|record: RawImageRecord| record@)
                    =~= before.map_values(|record: RawImageRecord| record@).push(record@));
            },
            Err(message) => {
                proof {
                    assert(web_records(images@, (i + 1) as nat) is Err);
                    lemma_web_records_error(images@, (i + 1) as nat, images@.len());
                }
                return Err(message);
            },
        }
        i += 1;
    }
    match encode_bundle(&RawImageBundle::new(records)) {
        Ok(bytes) => Ok(bytes),
        Err(error) => Err(error.message()),
    }
}

/// The frame of an image with a chosen layout: mask layouts and explicit strides
/// keep their stride, everything else is tight.
pub open spec fn chosen_frame(
    data: Seq<u8>,
    width: u32,
    height: u32,
    pixel_format: PixelFormat,
    stride: usize,
) -> core::result::Result<FrameModel, ErrorView> {
    if pixel_format.is_mask() {
        (FrameModel {
            dims: Dimensions { width, height },
            format: FormatSpec::standard(pixel_format),
            planes: seq![
                PlaneModel {
                    data,
                    stride: if stride != 0 {
                        stride as nat
                    } else {
                        pixel_format.row_bytes(Dimensions { width, height }, 0)
                    },
                },
            ],
        }).checked_sized()
    } else if stride != 0 {
        checked_packed(data, width, height, pixel_format, stride as nat)
    } else {
        checked_tight(data, width, height, pixel_format)
    }
}

fn image_frame(
    data: Vec<u8>,
    width: u32,
    height: u32,
    pixel_format: PixelFormat,
    stride: usize,
) -> (result: Result<FrameOwned>)
    ensures
        match result {
            Ok(frame) => chosen_frame(data@, width, height, pixel_format, stride) == Ok::<
                FrameModel,
                ErrorView,
            >(frame@),
            Err(error) => chosen_frame(data@, width, height, pixel_format, stride) == Err::<
                FrameModel,
                ErrorView,
            >(error@),
        },
{
    if pixel_format.is_bit_packed() {
        let row_bytes: usize = ((width as u64 + 7) / 8) as usize;
        let step: usize = if stride != 0 {
            stride
        } else {
            row_bytes
        };
        let dims = match Dimensions::new(width, height) {
            Ok(dims) => dims,
            Err(error) => return Err(error),
        };
        let planes = vec![OwnedPlane::new(data, step)];
        assert(owned_planes_model(planes@) =~= seq![
            PlaneModel { data: data@, stride: step as nat },
        ]);
        FrameOwned::new(dims, FormatSpec::new(pixel_format), planes)
    } else if stride != 0 {
        FrameOwned::packed(data, width, height, pixel_format, stride)
    } else {
        FrameOwned::packed_tight(data, width, height, pixel_format)
    }
}

/// The record of an image with a pixel-format code.
pub open spec fn coded_record(
    data: Seq<u8>,
    width: u32,
    height: u32,
    code: u16,
    stride: usize,
    label: Seq<char>,
    tags: Seq<Seq<char>>,
) -> core::result::Result<RecordModel, Seq<char>> {
    match pixel_format_of_number(code) {
        Some(pixel_format) => labelled(
            chosen_frame(data, width, height, pixel_format, stride),
            label,
            tags,
        ),
        None => Err("unsupported imqraw pixel format code "@ + decimal_text(code as nat)),
    }
}

/// Encodes one image as an `imqraw` bundle using a stable pixel-format code. A zero
/// stride stands for tight rows.
pub fn encode_imqraw_image(
    data: Vec<u8>,
    width: u32,
    height: u32,
    pixel_format: u16,
    stride: usize,
    label: String,
    tags: Vec<String>,
) -> (result: core::result::Result<Vec<u8>, String>)
    ensures
        bytes_outcome(result) == encoded(
            single(
                coded_record(data@, width, height, pixel_format, stride, label@, texts(tags@)),
            ),
        ),
{
    let layout = match known_pixel_format(pixel_format) {
        Some(layout) => layout,
        None => return Err(
            concat2(
                "unsupported imqraw pixel format code ",
                decimal(pixel_format as u64).as_str(),
            ),
        ),
    };
    match image_frame(data, width, height, layout, stride) {
        Ok(frame) => encode_single(RawImageRecord::new(non_empty(label), tags, frame)),
        Err(error) => Err(error.message()),
    }
}

fn known_pixel_format(code: u16) -> (format: Option<PixelFormat>)
    ensures
        format == pixel_format_of_number(code),
{
    match crate::imqraw::pixel_format_from_code(code) {
        Ok(format) => Some(format),
        Err(_) => None,
    }
}

/// Returns the number of images in an encoded `imqraw` bundle.
pub fn imqraw_image_count(bytes: &[u8]) -> (result: core::result::Result<usize, String>)
    ensures
        match result {
            Ok(count) => bundle_in(bytes@) matches Ok(records) && count == records.len(),
            Err(message) => bundle_in(bytes@) matches Err(error) && message@ == error.message(),
        },
{
    match decode_bundle(bytes) {
        Ok(bundle) => Ok(bundle.records.len()),
        Err(error) => Err(error.message()),
    }
}

/// Returns the index of the first image carrying `tag`.
pub fn imqraw_find_tag(bytes: &[u8], tag: &str) -> (result: core::result::Result<usize, String>)
    ensures
        match bundle_in(bytes@) {
            Err(error) => result matches Err(message) && message@ == error.message(),
            Ok(records) => match result {
                Ok(index) => index < records.len() && records[index as int].tags.contains(tag@)
                    && forall|j: int|
                    0 <= j < index ==> !(#[trigger] records[j]).tags.contains(tag@),
                Err(message) => message@ == RawImageBundle::tag_error(tag@).message() && forall|
                    j: int,
                |
                    0 <= j < records.len() ==> !(#[trigger] records[j]).tags.contains(tag@),
            },
        },
{
    let bundle = match decode_bundle(bytes) {
        Ok(bundle) => bundle,
        Err(error) => return Err(error.message()),
    };
    let mut i: usize = 0;
    while i < bundle.records.len()
        invariant
            i <= bundle.records.len(),
            bundle_in(bytes@) == Ok::<Seq<RecordModel>, ErrorView>(bundle@),
            forall|j: int| 0 <= j < i ==> !(#[trigger] bundle@[j]).tags.contains(tag@),
        decreases bundle.records.len() - i,
    {
        assert(bundle@[i as int] == bundle.records@[i as int]@);
        if bundle.records[i].has_tag(tag) {
            return Ok(i);
        }
        i += 1;
    }
    match bundle.select_tag(tag) {
        Ok(_) => {
            assert(false);
            Ok(0)
        },
        Err(error) => Err(error.message()),
    }
}

/// What a script sees of a record.
pub open spec fn shows(view: WebRecord, record: RecordModel, index: nat) -> bool {
    &&& view.index == index
    &&& view.width == record.frame.dims.width
    &&& view.height == record.frame.dims.height
    &&& view.pixel_format == pixel_format_number(record.frame.format.pixel_format)
    &&& view.color_space == color_space_number(record.frame.format.color_space)
    &&& view.transfer == transfer_number(record.frame.format.transfer)
    &&& view.range == color_range_number(record.frame.format.range)
    &&& optional_text(view.label) == record.label
    &&& texts(view.tags@) == record.tags
    &&& owned_planes_model(view.planes@) == record.frame.planes
}

fn record_to_web(record: RawImageRecord, index: usize) -> (view: WebRecord)
    ensures
        shows(view, record@, index as nat),
{
    let (dims, format, planes) = record.frame.into_parts();
    WebRecord {
        index,
        width: dims.width,
        height: dims.height,
        pixel_format: pixel_format_code(format.pixel_format),
        color_space: color_space_code(format.color_space),
        transfer: transfer_code(format.transfer),
        range: color_range_code(format.range),
        label: record.label,
        tags: record.tags,
        planes,
    }
}

/// Decodes all images into records for a script.
pub fn decode_imqraw_images(bytes: &[u8]) -> (result: core::result::Result<
    Vec<WebRecord>,
    String,
>)
    ensures
        match bundle_in(bytes@) {
            Err(error) => result matches Err(message) && message@ == error.message(),
            Ok(records) => result matches Ok(views) && views@.len() == records.len() && forall|
                i: int,
            |
                0 <= i < records.len() ==> shows(#[trigger] views@[i], records[i], i as nat),
        },
{
    let bundle = match decode_bundle(bytes) {
        Ok(bundle) => bundle,
        Err(error) => return Err(error.message()),
    };
    let ghost model = bundle@;
    let mut left = bundle.records;
    let mut views: Vec<WebRecord> = Vec::new();
    let total: usize = left.len();
    let mut next: usize = 0;
    while left.len() > 0
        invariant
            total == model.len(),
            views@.len() == next,
            next + left@.len() == total,
            bundle_in(bytes@) == Ok::<Seq<RecordModel>, ErrorView>(model),
            forall|i: int| 0 <= i < left@.len() ==> (#[trigger] left@[i])@ == model[next + i],
            forall|i: int| 0 <= i < next ==> shows(#[trigger] views@[i], model[i], i as nat),
        decreases left@.len(),
    {
        let ghost before = left@;
        let record = left.remove(0);
        assert(record@ == model[next as int]);
        views.push(record_to_web(record, next));
        proof {
            assert forall|i: int| 0 <= i < left@.len() implies (#[trigger] left@[i])@ == model[next
                + 1 + i] by {
                assert(left@[i] == before[i + 1]);
            }
        }
        next += 1;
    }
    Ok(views)
}

/// Decodes one image by zero-based index into a record for a script.
pub fn decode_imqraw_image(bytes: &[u8], index: usize) -> (result: core::result::Result<
    WebRecord,
    String,
>)
    ensures
        match bundle_in(bytes@) {
            Err(error) => result matches Err(message) && message@ == error.message(),
            Ok(records) => match result {
                Ok(view) => index < records.len() && shows(
                    view,
                    records[index as int],
                    index as nat,
                ),
                Err(message) => index >= records.len() && message@ == RawImageBundle::index_error(
                    index as nat,
                    records.len(),
                ).message(),
            },
        },
{
    let bundle = match decode_bundle(bytes) {
        Ok(bundle) => bundle,
        Err(error) => return Err(error.message()),
    };
    if let Err(error) = bundle.select_index(index) {
        return Err(error.message());
    }
    let mut records = bundle.records;
    let record = records.remove(index);
    assert(record@ == bundle@[index as int]);
    Ok(record_to_web(record, index))
}

/// Records are the images they were made from: size, pixels, label unless it is empty,
/// and tags.
pub proof fn law_web_records_are_the_images(image: WebImage)
    ensures
        web_record_model(image) matches Ok(record) ==> {
            &&& record.frame.dims.width == image.width
            &&& record.frame.dims.height == image.height
            &&& record.frame.format.pixel_format is Rgba8
            &&& record.frame.planes.len() == 1
            &&& record.frame.planes[0].data == image.data@
            &&& record.frame.planes[0].stride == 4 * image.width
            &&& image.label@.len() > 0 ==> record.label == Some(image.label@)
            &&& image.label@.len() == 0 ==> record.label is None
            &&& record.tags == texts(image.tags@)
        },
        web_record_model(image) is Ok <==> 0 < image.width <= 0x3fff_ffff && image.height > 0
            && image.data@.len() >= 4 * (image.width * image.height),
{
    let width = image.width as int;
    let height = image.height as int;
    let dims = Dimensions { width: image.width, height: image.height };
    assert(PixelFormat::Rgba8.row_bytes(dims, 0) == 4 * width);
    let frame = packed_model(
        image.data@,
        image.width,
        image.height,
        PixelFormat::Rgba8,
        image.width as nat * 4,
    );
    law_frames_are_refused_for_cause(frame);
    if height > 0 {
        assert((height - 1) * (width * 4) + 4 * width == 4 * (width * height)) by (nonlinear_arith);
    }
    assert(frame.planes[0].stride == 4 * width);
}

/// Images become records one by one, in their order, and none is left out.
pub proof fn law_every_web_image_becomes_a_record(images: Seq<WebImage>, count: nat)
    requires
        count <= images.len(),
    ensures
        web_records(images, count) matches Ok(records) ==> {
            &&& records.len() == count
            &&& forall|i: int|
                0 <= i < count ==> web_record_model(images[i]) == Ok::<RecordModel, Seq<char>>(
                    #[trigger] records[i],
                )
        },
        web_records(images, count) is Err ==> exists|i: int|
            0 <= i < count && (#[trigger] web_record_model(images[i])) is Err,
    decreases count,
{
    if count > 0 {
        law_every_web_image_becomes_a_record(images, (count - 1) as nat);
        let last = web_record_model(images[count - 1]);
    }
}

/// An image with a layout code keeps its bytes; without a stride its rows follow each
/// other directly.
pub proof fn law_coded_images_keep_their_bytes(
    data: Seq<u8>,
    width: u32,
    height: u32,
    code: u16,
    stride: usize,
    label: Seq<char>,
    tags: Seq<Seq<char>>,
)
    ensures
        coded_record(data, width, height, code, stride, label, tags) matches Ok(record) ==> {
            &&& 1 <= code <= 18
            &&& pixel_format_number(record.frame.format.pixel_format) == code
            &&& record.frame.dims.width == width && record.frame.dims.height == height
            &&& record.frame.planes.len() == 1
            &&& record.frame.planes[0].data == data
            &&& stride != 0 ==> record.frame.planes[0].stride == stride
            &&& stride == 0 ==> record.frame.planes[0].stride
                == record.frame.format.pixel_format.row_bytes(record.frame.dims, 0)
            &&& record.frame.valid()
            &&& label.len() > 0 ==> record.label == Some(label)
            &&& label.len() == 0 ==> record.label is None
            &&& record.tags == tags
        },
{
}

/// Decoding gives back what was encoded, as far as a label is not one byte short of
/// 4 GiB.
pub proof fn law_encoded_records_are_decoded(records: Seq<RecordModel>, bytes: Seq<u8>)
    requires
        encoded(Ok::<Seq<RecordModel>, Seq<char>>(records)) == Ok::<Seq<u8>, Seq<char>>(bytes),
        bytes.len() <= usize::MAX,
        forall|i: int|
            0 <= i < records.len() ==> {
                let record = #[trigger] records[i];
                &&& record.frame.valid()
                &&& forall|p: int|
                    0 <= p < record.frame.planes.len() ==> (
                    #[trigger] record.frame.planes[p]).stride <= usize::MAX
                &&& record.label matches Some(text) ==> vstd::utf8::encode_utf8(text).len()
                    < 0xffff_ffff
            },
    ensures
        bundle_in(bytes) == Ok::<Seq<RecordModel>, ErrorView>(records),
{
    law_encodable_bundles(records);
    assert forall|i: int| 0 <= i < records.len() implies storable(#[trigger] records[i]) by {
        law_storable_records(records[i]);
    }
    law_decode_of_encode(records);
}

/// A decoded image shows its record: place, size, codes, label, tags, and planes.
pub proof fn law_views_show_their_record(view: WebRecord, record: RecordModel, index: nat)
    requires
        shows(view, record, index),
    ensures
        view.index == index,
        view.width == record.frame.dims.width,
        view.height == record.frame.dims.height,
        pixel_format_of_number(view.pixel_format) == Some(record.frame.format.pixel_format),
        view.color_space == color_space_number(record.frame.format.color_space),
        view.transfer == transfer_number(record.frame.format.transfer),
        view.range == color_range_number(record.frame.format.range),
        optional_text(view.label) == record.label,
        texts(view.tags@) == record.tags,
        view.planes@.len() == record.frame.planes.len(),
        forall|i: int|
            0 <= i < view.planes@.len() ==> (#[trigger] view.planes@[i]).data@
                == record.frame.planes[i].data && view.planes@[i].stride
                == record.frame.planes[i].stride,
{
    assert forall|i: int| 0 <= i < view.planes@.len() implies (#[trigger] view.planes@[i]).data@
        == record.frame.planes[i].data && view.planes@[i].stride
        == record.frame.planes[i].stride by {
        assert(owned_planes_model(view.planes@)[i] == record.frame.planes[i]);
    }
}

/// An image with a layout code is encoded exactly when the code is that of a packed or
/// mask layout and the bytes hold its rows.
pub proof fn law_coded_images_that_are_encoded(
    data: Seq<u8>,
    width: u32,
    height: u32,
    code: u16,
    stride: usize,
    label: Seq<char>,
    tags: Seq<Seq<char>>,
)
    ensures
        coded_record(data, width, height, code, stride, label, tags) is Ok <==> {
            &&& 1 <= code <= 10 || 15 <= code <= 18
            &&& width > 0 && height > 0
            &&& pixel_format_of_number(code) matches Some(format) && {
                let row = format.row_bytes(Dimensions { width, height }, 0);
                let used = if stride != 0 {
                    stride as nat
                } else {
                    row
                };
                &&& row <= u32::MAX
                &&& row <= used
                &&& (height - 1) * used + row <= data.len()
            }
        },
{
    if let Some(format) = pixel_format_of_number(code) {
        let row = format.row_bytes(Dimensions { width, height }, 0);
        let used = if stride != 0 {
            stride as nat
        } else {
            row
        };
        let frame = packed_model(data, width, height, format, used);
        law_frames_are_refused_for_cause(frame);
        if frame.planes.len() == 1 {
            let plane = frame.planes[0];
        }
        if width > 0 && height > 0 && row <= u32::MAX && row <= used && (height - 1) * used + row
            <= data.len() && format.planes() == 1 {
            assert(frame.valid());
        }
    }
}

} // verus!
