//! Where the fields of an encoded bundle stand.

use super::{
    bundle_bytes, bundle_fault, color_range_number, color_space_number, header_bytes, label_bytes,
    pixel_format_number, pixel_format_of_number, planes_bytes, record_bytes,
    record_fault, records_bytes, records_fault, tags_bytes, text_fits, transfer_number, RecordModel,
    MAGIC,
};
use super::roundtrip::{storable, stride_fits};
use crate::bytes::{le_bytes, lemma_le_bytes_len};
use crate::frame::{ColorRange, ColorSpace, PixelFormat, PlaneModel, Transfer};
use vstd::prelude::*;
use vstd::utf8::encode_utf8;

verus! {

/// Number in the two bytes at a position, the low byte first.
pub open spec fn two_bytes(bytes: Seq<u8>, at: int) -> int {
    bytes[at] + 0x100 * bytes[at + 1]
}

/// Number in the four bytes at a position, the low byte first.
pub open spec fn four_bytes(bytes: Seq<u8>, at: int) -> int {
    bytes[at] + 0x100 * bytes[at + 1] + 0x1_0000 * bytes[at + 2] + 0x100_0000 * bytes[at + 3]
}

/// Number in the eight bytes at a position, the low byte first.
pub open spec fn eight_bytes(bytes: Seq<u8>, at: int) -> int {
    four_bytes(bytes, at) + 0x1_0000_0000 * four_bytes(bytes, at + 4)
}

proof fn lemma_low_bytes(value: nat)
    ensures
        le_bytes(value, 2).len() == 2,
        le_bytes(value, 4).len() == 4,
        le_bytes(value, 8).len() == 8,
        value < 0x1_0000 ==> two_bytes(le_bytes(value, 2), 0) == value,
        value < 0x1_0000_0000 ==> four_bytes(le_bytes(value, 4), 0) == value,
        value < 0x1_0000_0000_0000_0000 ==> eight_bytes(le_bytes(value, 8), 0) == value,
{
    lemma_le_bytes_len(value, 2);
    lemma_le_bytes_len(value, 4);
    lemma_le_bytes_len(value, 8);
    lemma_byte_behind(value, 2);
    lemma_byte_behind(value, 4);
    lemma_byte_behind(value, 8);
    let v1 = value / 256;
    let v2 = v1 / 256;
    let v3 = v2 / 256;
    let v4 = v3 / 256;
    let v5 = v4 / 256;
    let v6 = v5 / 256;
    let v7 = v6 / 256;
    lemma_byte_behind(v1, 1);
    lemma_byte_behind(v1, 3);
    lemma_byte_behind(v1, 7);
    lemma_byte_behind(v2, 2);
    lemma_byte_behind(v2, 6);
    lemma_byte_behind(v3, 1);
    lemma_byte_behind(v3, 5);
    lemma_byte_behind(v4, 4);
    lemma_byte_behind(v5, 3);
    lemma_byte_behind(v6, 2);
    lemma_byte_behind(v7, 1);
}

proof fn lemma_byte_behind(value: nat, width: nat)
    requires
        width > 0,
    ensures
        le_bytes(value, width).len() == width,
        le_bytes(value, width)[0] == value % 256,
        forall|i: int|
            1 <= i < width ==> #[trigger] le_bytes(value, width)[i] == le_bytes(
                value / 256,
                (width - 1) as nat,
            )[i - 1],
{
    lemma_le_bytes_len(value, width);
    lemma_le_bytes_len(value / 256, (width - 1) as nat);
}

/// A bundle starts with the eight bytes `IMQRAW1` and a line feed, goes on with the
/// number of records, and each record follows those before it.
pub proof fn law_bundles_start_with_their_count(records: Seq<RecordModel>, more: RecordModel)
    requires
        records.len() <= u32::MAX,
    ensures
        bundle_bytes(records).len() >= 12,
        bundle_bytes(records).take(8) == seq![0x49u8, 0x4d, 0x51, 0x52, 0x41, 0x57, 0x31, 0x0a],
        four_bytes(bundle_bytes(records), 8) == records.len(),
        bundle_bytes(Seq::empty()).len() == 12,
        bundle_bytes(records.push(more)).skip(12) == bundle_bytes(records).skip(12)
            + record_bytes(more),
{
    let bytes = bundle_bytes(records);
    let count = le_bytes(records.len(), 4);
    lemma_low_bytes(records.len());
    lemma_low_bytes(records.len() + 1);
    lemma_low_bytes(0);
    assert(MAGIC@ =~= seq![0x49u8, 0x4d, 0x51, 0x52, 0x41, 0x57, 0x31, 0x0a]);
    assert(bytes.take(8) =~= MAGIC@);
    assert(forall|i: int| 0 <= i < 4 ==> bytes[8 + i] == #[trigger] count[i]);
    assert(bytes[8] == count[0] && bytes[9] == count[1] && bytes[10] == count[2] && bytes[11]
        == count[3]);
    assert(records.push(more).drop_last() =~= records);
    assert(bytes.skip(12) =~= records_bytes(records));
    assert(bundle_bytes(records.push(more)).skip(12) =~= records_bytes(records.push(more)));
}

/// The fields of a record stand one behind the other: width and height, the codes of
/// layout, color space, transfer and range, the label with its length, the numbers of
/// tags and planes, the tags, and the planes. Without a label the length is all ones.
pub proof fn law_record_fields_stand_in_order(record: RecordModel)
    requires
        record.label matches Some(text) ==> encode_utf8(text).len() < u32::MAX,
        record.tags.len() <= u32::MAX,
        record.frame.planes.len() <= u32::MAX,
    ensures
        ({
            let bytes = record_bytes(record);
            let format = record.frame.format;
            let label: Seq<u8> = match record.label {
                Some(text) => encode_utf8(text),
                None => Seq::empty(),
            };
            let at = 20 + label.len() as int;
            &&& four_bytes(bytes, 0) == record.frame.dims.width
            &&& four_bytes(bytes, 4) == record.frame.dims.height
            &&& two_bytes(bytes, 8) == pixel_format_number(format.pixel_format)
            &&& two_bytes(bytes, 10) == color_space_number(format.color_space)
            &&& two_bytes(bytes, 12) == transfer_number(format.transfer)
            &&& two_bytes(bytes, 14) == color_range_number(format.range)
            &&& four_bytes(bytes, 16) == if record.label is Some {
                label.len() as int
            } else {
                0xffff_ffff
            }
            &&& bytes.len() >= at + 8
            &&& bytes.subrange(20, at) == label
            &&& four_bytes(bytes, at) == record.tags.len()
            &&& four_bytes(bytes, at + 4) == record.frame.planes.len()
            &&& bytes.skip(at + 8) == tags_bytes(record.tags) + planes_bytes(record.frame.planes)
        }),
{
    let bytes = record_bytes(record);
    let label: Seq<u8> = match record.label {
        Some(text) => encode_utf8(text),
        None => Seq::empty(),
    };
    let head = header_bytes(record.frame.dims, record.frame.format);
    let length = le_bytes(
        if record.label is Some {
            label.len()
        } else {
            u32::MAX as nat
        },
        4,
    );
    let tags = le_bytes(record.tags.len(), 4);
    let planes = le_bytes(record.frame.planes.len(), 4);
    lemma_header_fields(record);
    lemma_low_bytes(label.len());
    lemma_low_bytes(u32::MAX as nat);
    lemma_low_bytes(record.tags.len());
    lemma_low_bytes(record.frame.planes.len());
    assert(label_bytes(record.label) =~= length + label);
    let rest = tags_bytes(record.tags) + planes_bytes(record.frame.planes);
    assert(bytes =~= head + length + label + tags + planes + rest);
    let at = 20 + label.len() as int;
    assert(bytes.subrange(0, 16) =~= head);
    assert(bytes.subrange(16, 20) =~= length);
    assert(bytes.subrange(20, at) =~= label);
    assert(bytes.subrange(at, at + 4) =~= tags);
    assert(bytes.subrange(at + 4, at + 8) =~= planes);
    assert(bytes.skip(at + 8) =~= rest);
    lemma_field(bytes, 16, length);
    lemma_field(bytes, at, tags);
    lemma_field(bytes, at + 4, planes);
    assert(forall|i: int| 0 <= i < 16 ==> #[trigger] bytes[i] == head[i]);
}

/// The first sixteen bytes of a record.
proof fn lemma_header_fields(record: RecordModel)
    ensures
        ({
            let bytes = header_bytes(record.frame.dims, record.frame.format);
            let format = record.frame.format;
            &&& bytes.len() == 16
            &&& four_bytes(bytes, 0) == record.frame.dims.width
            &&& four_bytes(bytes, 4) == record.frame.dims.height
            &&& two_bytes(bytes, 8) == pixel_format_number(format.pixel_format)
            &&& two_bytes(bytes, 10) == color_space_number(format.color_space)
            &&& two_bytes(bytes, 12) == transfer_number(format.transfer)
            &&& two_bytes(bytes, 14) == color_range_number(format.range)
        }),
{
    let format = record.frame.format;
    let bytes = header_bytes(record.frame.dims, format);
    let width = le_bytes(record.frame.dims.width as nat, 4);
    let height = le_bytes(record.frame.dims.height as nat, 4);
    let a = le_bytes(pixel_format_number(format.pixel_format) as nat, 2);
    let b = le_bytes(color_space_number(format.color_space) as nat, 2);
    let c = le_bytes(transfer_number(format.transfer) as nat, 2);
    let d = le_bytes(color_range_number(format.range) as nat, 2);
    lemma_low_bytes(record.frame.dims.width as nat);
    lemma_low_bytes(record.frame.dims.height as nat);
    lemma_low_bytes(pixel_format_number(format.pixel_format) as nat);
    lemma_low_bytes(color_space_number(format.color_space) as nat);
    lemma_low_bytes(transfer_number(format.transfer) as nat);
    lemma_low_bytes(color_range_number(format.range) as nat);
    assert(bytes.subrange(0, 4) =~= width);
    assert(bytes.subrange(4, 8) =~= height);
    assert(bytes.subrange(8, 10) =~= a);
    assert(bytes.subrange(10, 12) =~= b);
    assert(bytes.subrange(12, 14) =~= c);
    assert(bytes.subrange(14, 16) =~= d);
    lemma_field(bytes, 0, width);
    lemma_field(bytes, 4, height);
    lemma_field(bytes, 8, a);
    lemma_field(bytes, 10, b);
    lemma_field(bytes, 12, c);
    lemma_field(bytes, 14, d);
}

proof fn lemma_field(bytes: Seq<u8>, at: int, field: Seq<u8>)
    requires
        0 <= at,
        at + field.len() <= bytes.len(),
        bytes.subrange(at, at + field.len()) == field,
    ensures
        field.len() == 2 ==> two_bytes(bytes, at) == two_bytes(field, 0),
        field.len() == 4 ==> four_bytes(bytes, at) == four_bytes(field, 0),
        field.len() == 8 ==> eight_bytes(bytes, at) == eight_bytes(field, 0),
{
    let part = bytes.subrange(at, at + field.len());
    assert(forall|i: int| 0 <= i < field.len() ==> bytes[at + i] == #[trigger] part[i]);
    if field.len() >= 2 {
        assert(part[0] == bytes[at] && part[1] == bytes[at + 1]);
    }
    if field.len() >= 4 {
        assert(part[2] == bytes[at + 2] && part[3] == bytes[at + 3]);
    }
    if field.len() >= 8 {
        assert(part[4] == bytes[at + 4] && part[5] == bytes[at + 5] && part[6] == bytes[at + 6]
            && part[7] == bytes[at + 7]);
    }
}

/// Tags and planes are written one behind the other in their order: a tag as the length
/// of its text and the text, a plane as its stride, the length of its data, and the data.
pub proof fn law_lists_are_written_in_order(
    tags: Seq<Seq<char>>,
    tag: Seq<char>,
    planes: Seq<PlaneModel>,
    plane: PlaneModel,
)
    requires
        encode_utf8(tag).len() <= u32::MAX,
        plane.stride <= u64::MAX,
        plane.data.len() <= u64::MAX,
    ensures
        tags_bytes(Seq::empty()).len() == 0,
        planes_bytes(Seq::empty()).len() == 0,
        ({
            let before = tags_bytes(tags);
            let bytes = tags_bytes(tags.push(tag));
            let at = before.len() as int;
            &&& bytes.take(at) == before
            &&& four_bytes(bytes, at) == encode_utf8(tag).len()
            &&& bytes.skip(at + 4) == encode_utf8(tag)
        }),
        ({
            let before = planes_bytes(planes);
            let bytes = planes_bytes(planes.push(plane));
            let at = before.len() as int;
            &&& bytes.take(at) == before
            &&& eight_bytes(bytes, at) == plane.stride
            &&& eight_bytes(bytes, at + 8) == plane.data.len()
            &&& bytes.skip(at + 16) == plane.data
        }),
{
    let text = encode_utf8(tag);
    lemma_low_bytes(text.len());
    lemma_low_bytes(plane.stride);
    lemma_low_bytes(plane.data.len());
    assert(tags.push(tag).drop_last() =~= tags);
    assert(planes.push(plane).drop_last() =~= planes);
    let a = tags_bytes(tags);
    let some = tags_bytes(tags.push(tag));
    assert(some =~= a + le_bytes(text.len(), 4) + text);
    assert(some.take(a.len() as int) =~= a);
    assert(some.subrange(a.len() as int, a.len() as int + 4) =~= le_bytes(text.len(), 4));
    lemma_field(some, a.len() as int, le_bytes(text.len(), 4));
    assert(some.skip(a.len() as int + 4) =~= text);
    let b = planes_bytes(planes);
    let all = planes_bytes(planes.push(plane));
    let at = b.len() as int;
    assert(all =~= b + le_bytes(plane.stride, 8) + le_bytes(plane.data.len(), 8) + plane.data);
    assert(all.take(at) =~= b);
    assert(all.subrange(at, at + 8) =~= le_bytes(plane.stride, 8));
    assert(all.subrange(at + 8, at + 16) =~= le_bytes(plane.data.len(), 8));
    lemma_field(all, at, le_bytes(plane.stride, 8));
    lemma_field(all, at + 8, le_bytes(plane.data.len(), 8));
    assert(all.skip(at + 16) =~= plane.data);
}

/// The codes that stand for layouts and color metadata.
pub proof fn law_codes_are_fixed(
    format: PixelFormat,
    space: ColorSpace,
    transfer: Transfer,
    range: ColorRange,
    code: u16,
)
    ensures
        ({
            let n = pixel_format_number(format);
            &&& 1 <= n <= 18
            &&& n == 1 <==> format is Luma8
            &&& n == 2 <==> format is Rgb8
            &&& n == 3 <==> format is Rgba8
            &&& n == 4 <==> format is Bgr8
            &&& n == 5 <==> format is Bgra8
            &&& n == 6 <==> format is Luma16Le
            &&& n == 7 <==> format is Rgb16Le
            &&& n == 8 <==> format is Rgba16Le
            &&& n == 9 <==> format is RgbF32
            &&& n == 10 <==> format is RgbaF32
            &&& n == 11 <==> format is Yuv444p8
            &&& n == 12 <==> format is Yuv422p8
            &&& n == 13 <==> format is Yuv420p8
            &&& n == 14 <==> format is Nv12
            &&& n == 15 <==> format is Hsv8
            &&& n == 16 <==> format is Hsva8
            &&& n == 17 <==> format is Binary1Lsb
            &&& n == 18 <==> format is Binary1Msb
        }),
        pixel_format_of_number(code) is Some <==> 1 <= code <= 18,
        ({
            let n = color_space_number(space);
            &&& n == 1 <==> space is Srgb
            &&& n == 2 <==> space is LinearRgb
            &&& n == 3 <==> space is Bt601
            &&& n == 4 <==> space is Bt709
            &&& n == 5 <==> space is Bt2020
            &&& n == 0xffff <==> space is Unknown
        }),
        ({
            let n = transfer_number(transfer);
            &&& n == 1 <==> transfer is Srgb
            &&& n == 2 <==> transfer is Linear
            &&& n == 3 <==> transfer is Bt1886
            &&& n == 4 <==> transfer is Hlg
            &&& n == 5 <==> transfer is Pq
            &&& n == 0xffff <==> transfer is Unknown
        }),
        color_range_number(range) == 1 <==> range is Full,
        color_range_number(range) == 2 <==> range is Limited,
{
}

/// A bundle can be encoded exactly when its counts and the UTF-8 lengths of its texts fit
/// 32 bits.
pub proof fn law_encodable_bundles(records: Seq<RecordModel>)
    ensures
        bundle_fault(records) is None <==> records.len() <= 0xffff_ffff && forall|i: int|
            0 <= i < records.len() ==> {
                let record = #[trigger] records[i];
                &&& record.label matches Some(text) ==> encode_utf8(text).len() <= 0xffff_ffff
                &&& record.tags.len() <= 0xffff_ffff
                &&& forall|k: int|
                    0 <= k < record.tags.len() ==> encode_utf8(#[trigger] record.tags[k]).len()
                        <= 0xffff_ffff
            },
{
    lemma_records_fault(records, 0);
    assert forall|i: int| 0 <= i < records.len() implies ((#[trigger] record_fault(records[i]))
        is None <==> {
        let record = records[i];
        &&& record.label matches Some(text) ==> encode_utf8(text).len() <= 0xffff_ffff
        &&& record.tags.len() <= 0xffff_ffff
        &&& forall|k: int|
            0 <= k < record.tags.len() ==> encode_utf8(#[trigger] record.tags[k]).len()
                <= 0xffff_ffff
    }) by {
        let record = records[i];
        assert(forall|k: int|
            0 <= k < record.tags.len() ==> (text_fits(#[trigger] record.tags[k]) <==> encode_utf8(
                record.tags[k],
            ).len() <= 0xffff_ffff));
    }
    assert forall|i: int| 0 <= i < records.len() && records_fault(records, 0) is None implies (
    #[trigger] record_fault(records[i])) is None by {
        let r = records[i];
    }
    if records_fault(records, 0) is Some {
        let i = choose|i: int|
            0 <= i < records.len() && (#[trigger] record_fault(records[i])) is Some;
        let record = records[i];
    } else {
        assert forall|i: int| 0 <= i < records.len() implies {
            let record = #[trigger] records[i];
            &&& record.label matches Some(text) ==> encode_utf8(text).len() <= 0xffff_ffff
            &&& record.tags.len() <= 0xffff_ffff
            &&& forall|k: int|
                0 <= k < record.tags.len() ==> encode_utf8(#[trigger] record.tags[k]).len()
                    <= 0xffff_ffff
        } by {
            assert(record_fault(records[i]) is None);
        }
    }
}

proof fn lemma_records_fault(records: Seq<RecordModel>, first: int)
    requires
        0 <= first,
    ensures
        records_fault(records, first) is None <==> forall|i: int|
            first <= i < records.len() ==> (#[trigger] record_fault(records[i])) is None,
    decreases records.len() - first,
{
    if first < records.len() {
        lemma_records_fault(records, first + 1);
        assert(records_fault(records, first) is None ==> record_fault(records[first]) is None);
    }
}

/// A record is kept by writing and reading it as soon as its frame is valid, its strides
/// fit a machine word, its counts and texts fit 32 bits, and the label is not one byte
/// short of 4 GiB: that length stands for no label.
pub proof fn law_storable_records(record: RecordModel)
    requires
        record.frame.valid(),
        forall|i: int|
            0 <= i < record.frame.planes.len() ==> (#[trigger] record.frame.planes[i]).stride
                <= usize::MAX,
        record.label matches Some(text) ==> encode_utf8(text).len() < 0xffff_ffff,
        record.tags.len() <= 0xffff_ffff,
        forall|k: int|
            0 <= k < record.tags.len() ==> encode_utf8(#[trigger] record.tags[k]).len()
                <= 0xffff_ffff,
    ensures
        storable(record),
{
    law_encodable_bundles(seq![record]);
    assert(seq![record][0] == record);
    lemma_records_fault(seq![record], 0);
    assert(record_fault(seq![record][0]) is None);
    assert forall|i: int| 0 <= i < record.frame.planes.len() implies stride_fits(
        #[trigger] record.frame.planes[i],
    ) by {}
}

} // verus!
