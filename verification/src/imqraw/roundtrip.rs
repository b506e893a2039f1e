//! Encoding and decoding are inverse to each other.

use crate::bytes::{
    byte_capacity, law_le_bytes_of_value, law_le_value_of_bytes, le_bytes, lemma_capacities,
    lemma_le_bytes_len,
};
use crate::error::ErrorView;
use crate::frame::{Dimensions, FormatSpec, FrameModel, PlaneModel};
use crate::imqraw::{
    bundle_bytes, bundle_fault, bundle_in, bytes_at, color_range_number, color_space_number,
    format_at, header_bytes, label_at, label_bytes, law_codes_are_inverse, number_at,
    pixel_format_number, plane_at, plane_bytes, planes_at, planes_bytes, record_at,
    record_bytes, record_fault, records_at, records_bytes, records_fault, sides_at, string_at,
    string_bytes, tags_at, tags_bytes, text_at, text_fits, transfer_number, RecordModel, MAGIC,
};
use vstd::prelude::*;
use vstd::utf8::{
    decode_utf8_encode_utf8, encode_utf8, encode_utf8_decode_utf8, encode_utf8_valid_utf8,
    valid_utf8,
};

verus! {

/// Whether `piece` stands in `bytes` at an offset.
spec fn holds(bytes: Seq<u8>, at: int, piece: Seq<u8>) -> bool {
    &&& 0 <= at
    &&& at + piece.len() <= bytes.len()
    &&& bytes.subrange(at, at + piece.len()) == piece
}

proof fn lemma_split(bytes: Seq<u8>, at: int, a: Seq<u8>, b: Seq<u8>)
    ensures
        holds(bytes, at, a + b) <==> holds(bytes, at, a) && holds(bytes, at + a.len(), b),
{
    let both = bytes.subrange(at, at + a.len() + b.len());
    if holds(bytes, at, a + b) {
        assert(bytes.subrange(at, at + a.len()) =~= both.subrange(0, a.len() as int));
        assert(a =~= (a + b).subrange(0, a.len() as int));
        assert(bytes.subrange(at + a.len(), at + a.len() + b.len()) =~= both.subrange(
            a.len() as int,
            (a.len() + b.len()) as int,
        ));
        assert(b =~= (a + b).subrange(a.len() as int, (a.len() + b.len()) as int));
    }
    if holds(bytes, at, a) && holds(bytes, at + a.len(), b) {
        assert(both =~= bytes.subrange(at, at + a.len()) + bytes.subrange(
            at + a.len(),
            at + a.len() + b.len(),
        ));
    }
}

/// A machine-sized buffer is not longer than the largest offset.
spec fn addressable(bytes: Seq<u8>) -> bool {
    bytes.len() <= usize::MAX
}

proof fn lemma_number(bytes: Seq<u8>, at: nat, value: nat, width: nat)
    requires
        addressable(bytes),
    ensures
        value < byte_capacity(width) && holds(bytes, at as int, le_bytes(value, width))
            ==> number_at(bytes, at, width) == Ok::<(nat, nat), ErrorView>((value, at + width)),
        number_at(bytes, at, width) matches Ok((v, next)) ==> next == at + width && v
            < byte_capacity(width) && holds(bytes, at as int, le_bytes(v, width)),
{
    lemma_le_bytes_len(value, width);
    if value < byte_capacity(width) {
        law_le_value_of_bytes(value, width);
    }
    if let Ok((piece, _)) = bytes_at(bytes, at, width) {
        law_le_bytes_of_value(piece);
    }
}

proof fn lemma_text(bytes: Seq<u8>, at: nat, text: Seq<char>, len: nat)
    requires
        addressable(bytes),
    ensures
        len == encode_utf8(text).len() && holds(bytes, at as int, encode_utf8(text)) ==> text_at(
            bytes,
            at,
            len,
        ) == Ok::<(Seq<char>, nat), ErrorView>((text, at + len)),
        text_at(bytes, at, len) matches Ok((t, next)) ==> next == at + len && len == encode_utf8(
            t,
        ).len() && holds(bytes, at as int, encode_utf8(t)),
{
    encode_utf8_valid_utf8(text);
    encode_utf8_decode_utf8(text);
    if let Ok((piece, _)) = bytes_at(bytes, at, len) {
        if valid_utf8(piece) {
            decode_utf8_encode_utf8(piece);
        }
    }
}

proof fn lemma_string(bytes: Seq<u8>, at: nat, text: Seq<char>)
    requires
        addressable(bytes),
    ensures
        text_fits(text) && holds(bytes, at as int, string_bytes(text)) ==> string_at(bytes, at)
            == Ok::<(Seq<char>, nat), ErrorView>((text, at + string_bytes(text).len())),
        string_at(bytes, at) matches Ok((t, next)) ==> next == at + string_bytes(t).len()
            && text_fits(t) && holds(bytes, at as int, string_bytes(t)),
{
    lemma_capacities();
    let len = encode_utf8(text).len();
    lemma_le_bytes_len(len, 4);
    lemma_split(bytes, at as int, le_bytes(len, 4), encode_utf8(text));
    lemma_number(bytes, at, len, 4);
    lemma_text(bytes, at + 4, text, len);
    if let Ok((n, next)) = number_at(bytes, at, 4) {
        lemma_text(bytes, next, text, n);
        if let Ok((t, end)) = text_at(bytes, next, n) {
            lemma_le_bytes_len(n, 4);
            lemma_split(bytes, at as int, le_bytes(n, 4), encode_utf8(t));
        }
    }
}

/// Whether a label can be told from an absent one: its byte length is below the
/// value that marks absence.
pub open spec fn label_distinct(label: Option<Seq<char>>) -> bool {
    label matches Some(text) ==> encode_utf8(text).len() < u32::MAX
}

proof fn lemma_label(bytes: Seq<u8>, at: nat, label: Option<Seq<char>>)
    requires
        addressable(bytes),
    ensures
        label_distinct(label) && holds(bytes, at as int, label_bytes(label)) ==> label_at(
            bytes,
            at,
        ) == Ok::<(Option<Seq<char>>, nat), ErrorView>((label, at + label_bytes(label).len())),
        label_at(bytes, at) matches Ok((l, next)) ==> next == at + label_bytes(l).len()
            && label_distinct(l) && holds(bytes, at as int, label_bytes(l)),
{
    lemma_capacities();
    match label {
        Some(text) => {
            let len = encode_utf8(text).len();
            lemma_le_bytes_len(len, 4);
            lemma_split(bytes, at as int, le_bytes(len, 4), encode_utf8(text));
            lemma_number(bytes, at, len, 4);
            lemma_text(bytes, at + 4, text, len);
        },
        None => {
            lemma_le_bytes_len(u32::MAX as nat, 4);
            lemma_number(bytes, at, u32::MAX as nat, 4);
        },
    }
    lemma_number(bytes, at, 0, 4);
    if let Ok((n, next)) = number_at(bytes, at, 4) {
        lemma_le_bytes_len(n, 4);
        if n != u32::MAX {
            lemma_text(bytes, next, Seq::empty(), n);
            if let Ok((t, end)) = text_at(bytes, next, n) {
                lemma_split(bytes, at as int, le_bytes(n, 4), encode_utf8(t));
            }
        }
    }
}

proof fn lemma_tags_forward(bytes: Seq<u8>, at: nat, tags: Seq<Seq<char>>)
    requires
        addressable(bytes),
        holds(bytes, at as int, tags_bytes(tags)),
        forall|i: int| 0 <= i < tags.len() ==> text_fits(#[trigger] tags[i]),
    ensures
        tags_at(bytes, at, tags.len()) == Ok::<(Seq<Seq<char>>, nat), ErrorView>(
            (tags, at + tags_bytes(tags).len()),
        ),
    decreases tags.len(),
{
    if tags.len() > 0 {
        let before = tags.drop_last();
        lemma_split(bytes, at as int, tags_bytes(before), string_bytes(tags.last()));
        assert forall|i: int| 0 <= i < before.len() implies text_fits(#[trigger] before[i]) by {
            assert(before[i] == tags[i]);
        }
        lemma_tags_forward(bytes, at, before);
        assert(text_fits(tags[tags.len() - 1]));
        lemma_string(bytes, at + tags_bytes(before).len(), tags.last());
        assert(before.push(tags.last()) =~= tags);
    } else {
        assert(tags =~= Seq::<Seq<char>>::empty());
    }
}

proof fn lemma_tags_backward(bytes: Seq<u8>, at: nat, count: nat)
    requires
        addressable(bytes),
        at <= bytes.len(),
        tags_at(bytes, at, count) is Ok,
    ensures
        tags_at(bytes, at, count) matches Ok((tags, next)) && tags.len() == count && next == at
            + tags_bytes(tags).len() && holds(bytes, at as int, tags_bytes(tags)) && forall|i: int|
            0 <= i < tags.len() ==> text_fits(#[trigger] tags[i]),
    decreases count,
{
    if count > 0 {
        lemma_tags_backward(bytes, at, (count - 1) as nat);
        let (before, next) = tags_at(bytes, at, (count - 1) as nat)->Ok_0;
        lemma_string(bytes, next, Seq::empty());
        let (tag, end) = string_at(bytes, next)->Ok_0;
        assert(before.push(tag).drop_last() =~= before);
        lemma_split(bytes, at as int, tags_bytes(before), string_bytes(tag));
    } else {
        assert(bytes.subrange(at as int, at as int) =~= Seq::<u8>::empty());
    }
}

/// Whether a plane's stride fits the machine's sizes.
pub open spec fn stride_fits(plane: PlaneModel) -> bool {
    plane.stride <= usize::MAX
}

proof fn lemma_plane(bytes: Seq<u8>, at: nat, plane: PlaneModel)
    requires
        addressable(bytes),
    ensures
        stride_fits(plane) && holds(bytes, at as int, plane_bytes(plane)) ==> plane_at(bytes, at)
            == Ok::<(PlaneModel, nat), ErrorView>((plane, at + plane_bytes(plane).len())),
        plane_at(bytes, at) matches Ok((p, next)) ==> next == at + plane_bytes(p).len()
            && stride_fits(p) && holds(bytes, at as int, plane_bytes(p)),
{
    lemma_capacities();
    let a = le_bytes(plane.stride, 8);
    let b = le_bytes(plane.data.len(), 8);
    lemma_le_bytes_len(plane.stride, 8);
    lemma_le_bytes_len(plane.data.len(), 8);
    lemma_split(bytes, at as int, a + b, plane.data);
    lemma_split(bytes, at as int, a, b);
    lemma_number(bytes, at, plane.stride, 8);
    lemma_number(bytes, at + 8, plane.data.len(), 8);
    if let Ok((p, next)) = plane_at(bytes, at) {
        lemma_le_bytes_len(p.stride, 8);
        lemma_le_bytes_len(p.data.len(), 8);
        lemma_split(
            bytes,
            at as int,
            le_bytes(p.stride, 8) + le_bytes(p.data.len(), 8),
            p.data,
        );
        lemma_split(bytes, at as int, le_bytes(p.stride, 8), le_bytes(p.data.len(), 8));
    }
}

proof fn lemma_planes_forward(bytes: Seq<u8>, at: nat, planes: Seq<PlaneModel>)
    requires
        addressable(bytes),
        holds(bytes, at as int, planes_bytes(planes)),
        forall|i: int| 0 <= i < planes.len() ==> stride_fits(#[trigger] planes[i]),
    ensures
        planes_at(bytes, at, planes.len()) == Ok::<(Seq<PlaneModel>, nat), ErrorView>(
            (planes, at + planes_bytes(planes).len()),
        ),
    decreases planes.len(),
{
    if planes.len() > 0 {
        let before = planes.drop_last();
        lemma_split(bytes, at as int, planes_bytes(before), plane_bytes(planes.last()));
        assert forall|i: int| 0 <= i < before.len() implies stride_fits(#[trigger] before[i]) by {
            assert(before[i] == planes[i]);
        }
        lemma_planes_forward(bytes, at, before);
        assert(stride_fits(planes[planes.len() - 1]));
        lemma_plane(bytes, at + planes_bytes(before).len(), planes.last());
        assert(before.push(planes.last()) =~= planes);
    } else {
        assert(planes =~= Seq::<PlaneModel>::empty());
    }
}

proof fn lemma_planes_backward(bytes: Seq<u8>, at: nat, count: nat)
    requires
        addressable(bytes),
        at <= bytes.len(),
        planes_at(bytes, at, count) is Ok,
    ensures
        planes_at(bytes, at, count) matches Ok((planes, next)) && planes.len() == count && next
            == at + planes_bytes(planes).len() && holds(bytes, at as int, planes_bytes(planes))
            && forall|i: int| 0 <= i < planes.len() ==> stride_fits(#[trigger] planes[i]),
    decreases count,
{
    if count > 0 {
        lemma_planes_backward(bytes, at, (count - 1) as nat);
        let (before, next) = planes_at(bytes, at, (count - 1) as nat)->Ok_0;
        let (plane, end) = plane_at(bytes, next)->Ok_0;
        lemma_plane(bytes, next, plane);
        assert(before.push(plane).drop_last() =~= before);
        lemma_split(bytes, at as int, planes_bytes(before), plane_bytes(plane));
    } else {
        assert(bytes.subrange(at as int, at as int) =~= Seq::<u8>::empty());
    }
}

proof fn lemma_number_iff(bytes: Seq<u8>, at: nat, value: nat, width: nat)
    requires
        addressable(bytes),
        value < byte_capacity(width),
    ensures
        le_bytes(value, width).len() == width,
        holds(bytes, at as int, le_bytes(value, width)) <==> number_at(bytes, at, width) == Ok::<
            (nat, nat),
            ErrorView,
        >((value, at + width)),
{
    lemma_le_bytes_len(value, width);
    lemma_number(bytes, at, value, width);
}

proof fn lemma_sides(bytes: Seq<u8>, at: nat, dims: Dimensions)
    requires
        addressable(bytes),
    ensures
        holds(
            bytes,
            at as int,
            le_bytes(dims.width as nat, 4) + le_bytes(dims.height as nat, 4),
        ) <==> sides_at(bytes, at) == Ok::<(Dimensions, nat), ErrorView>((dims, at + 8)),
        sides_at(bytes, at) matches Ok((_, next)) ==> next == at + 8,
{
    lemma_capacities();
    lemma_number_iff(bytes, at, dims.width as nat, 4);
    lemma_number_iff(bytes, at + 4, dims.height as nat, 4);
    lemma_split(
        bytes,
        at as int,
        le_bytes(dims.width as nat, 4),
        le_bytes(dims.height as nat, 4),
    );
    lemma_number(bytes, at, 0, 4);
    lemma_number(bytes, at + 4, 0, 4);
}

/// The four metadata codes in stored order.
spec fn code_bytes(format: FormatSpec) -> Seq<u8> {
    le_bytes(pixel_format_number(format.pixel_format) as nat, 2) + le_bytes(
        color_space_number(format.color_space) as nat,
        2,
    ) + le_bytes(transfer_number(format.transfer) as nat, 2) + le_bytes(
        color_range_number(format.range) as nat,
        2,
    )
}

proof fn lemma_format_next(bytes: Seq<u8>, at: nat)
    requires
        addressable(bytes),
    ensures
        format_at(bytes, at) matches Ok((_, next)) ==> next == at + 8,
{
    lemma_number(bytes, at, 0, 2);
    lemma_number(bytes, at + 2, 0, 2);
    lemma_number(bytes, at + 4, 0, 2);
    lemma_number(bytes, at + 6, 0, 2);
}

proof fn lemma_code_split(bytes: Seq<u8>, at: nat, format: FormatSpec)
    requires
        addressable(bytes),
    ensures
        code_bytes(format).len() == 8,
        holds(bytes, at as int, code_bytes(format)) <==> {
            &&& number_at(bytes, at, 2) == Ok::<(nat, nat), ErrorView>(
                (pixel_format_number(format.pixel_format) as nat, at + 2),
            )
            &&& number_at(bytes, at + 2, 2) == Ok::<(nat, nat), ErrorView>(
                (color_space_number(format.color_space) as nat, at + 4),
            )
            &&& number_at(bytes, at + 4, 2) == Ok::<(nat, nat), ErrorView>(
                (transfer_number(format.transfer) as nat, at + 6),
            )
            &&& number_at(bytes, at + 6, 2) == Ok::<(nat, nat), ErrorView>(
                (color_range_number(format.range) as nat, at + 8),
            )
        },
{
    lemma_capacities();
    let p = le_bytes(pixel_format_number(format.pixel_format) as nat, 2);
    let c = le_bytes(color_space_number(format.color_space) as nat, 2);
    let t = le_bytes(transfer_number(format.transfer) as nat, 2);
    let r = le_bytes(color_range_number(format.range) as nat, 2);
    lemma_number_iff(bytes, at, pixel_format_number(format.pixel_format) as nat, 2);
    lemma_number_iff(bytes, at + 2, color_space_number(format.color_space) as nat, 2);
    lemma_number_iff(bytes, at + 4, transfer_number(format.transfer) as nat, 2);
    lemma_number_iff(bytes, at + 6, color_range_number(format.range) as nat, 2);
    lemma_split(bytes, at as int, p + c + t, r);
    lemma_split(bytes, at as int, p + c, t);
    lemma_split(bytes, at as int, p, c);
}

proof fn lemma_format(bytes: Seq<u8>, at: nat, format: FormatSpec)
    requires
        addressable(bytes),
    ensures
        code_bytes(format).len() == 8,
        holds(bytes, at as int, code_bytes(format)) <==> format_at(bytes, at) == Ok::<
            (FormatSpec, nat),
            ErrorView,
        >((format, at + 8)),
{
    lemma_capacities();
    lemma_code_split(bytes, at, format);
    law_codes_are_inverse(
        format.pixel_format,
        format.color_space,
        format.transfer,
        format.range,
        0,
    );
    if format_at(bytes, at) == Ok::<(FormatSpec, nat), ErrorView>((format, at + 8)) {
        lemma_number(bytes, at, 0, 2);
        lemma_number(bytes, at + 2, 0, 2);
        lemma_number(bytes, at + 4, 0, 2);
        lemma_number(bytes, at + 6, 0, 2);
        let (p, a) = number_at(bytes, at, 2)->Ok_0;
        let (c, b) = number_at(bytes, at + 2, 2)->Ok_0;
        let (t, d) = number_at(bytes, at + 4, 2)->Ok_0;
        let (r, e) = number_at(bytes, at + 6, 2)->Ok_0;
        law_codes_are_inverse(
            format.pixel_format,
            format.color_space,
            format.transfer,
            format.range,
            p as u16,
        );
        law_codes_are_inverse(
            format.pixel_format,
            format.color_space,
            format.transfer,
            format.range,
            c as u16,
        );
        law_codes_are_inverse(
            format.pixel_format,
            format.color_space,
            format.transfer,
            format.range,
            t as u16,
        );
        law_codes_are_inverse(
            format.pixel_format,
            format.color_space,
            format.transfer,
            format.range,
            r as u16,
        );
    }
}

proof fn lemma_header(bytes: Seq<u8>, at: nat, dims: Dimensions, format: FormatSpec)
    requires
        addressable(bytes),
    ensures
        header_bytes(dims, format).len() == 16,
        holds(bytes, at as int, header_bytes(dims, format)) <==> sides_at(bytes, at) == Ok::<
            (Dimensions, nat),
            ErrorView,
        >((dims, at + 8)) && format_at(bytes, at + 8) == Ok::<(FormatSpec, nat), ErrorView>(
            (format, at + 16),
        ),
{
    let sides = le_bytes(dims.width as nat, 4) + le_bytes(dims.height as nat, 4);
    lemma_le_bytes_len(dims.width as nat, 4);
    lemma_le_bytes_len(dims.height as nat, 4);
    lemma_sides(bytes, at, dims);
    lemma_format(bytes, at + 8, format);
    lemma_split(bytes, at as int, sides, code_bytes(format));
    assert(header_bytes(dims, format) =~= sides + code_bytes(format));
}

/// A record that reads back as it was written: its frame is valid, its strides
/// and texts fit their stored integers, and its label is not mistaken for an
/// absent one.
pub open spec fn storable(record: RecordModel) -> bool {
    &&& record.frame.valid()
    &&& forall|i: int|
        0 <= i < record.frame.planes.len() ==> stride_fits(#[trigger] record.frame.planes[i])
    &&& label_distinct(record.label)
    &&& record_fault(record) is None
}

proof fn lemma_record_forward(bytes: Seq<u8>, at: nat, record: RecordModel)
    requires
        addressable(bytes),
        storable(record),
        holds(bytes, at as int, record_bytes(record)),
    ensures
        record_at(bytes, at) == Ok::<(RecordModel, nat), ErrorView>(
            (record, at + record_bytes(record).len()),
        ),
{
    lemma_capacities();
    let frame = record.frame;
    let head = header_bytes(frame.dims, frame.format);
    let label = label_bytes(record.label);
    let tag_count = le_bytes(record.tags.len(), 4);
    let plane_count = le_bytes(frame.planes.len(), 4);
    let tags = tags_bytes(record.tags);
    let planes = planes_bytes(frame.planes);
    lemma_le_bytes_len(record.tags.len(), 4);
    lemma_le_bytes_len(frame.planes.len(), 4);
    lemma_split(bytes, at as int, head + label + tag_count + plane_count + tags, planes);
    lemma_split(bytes, at as int, head + label + tag_count + plane_count, tags);
    lemma_split(bytes, at as int, head + label + tag_count, plane_count);
    lemma_split(bytes, at as int, head + label, tag_count);
    lemma_split(bytes, at as int, head, label);
    lemma_header(bytes, at, frame.dims, frame.format);
    let a = at + 16;
    lemma_label(bytes, a, record.label);
    let b = a + label.len();
    lemma_number(bytes, b, record.tags.len(), 4);
    lemma_number(bytes, b + 4, frame.planes.len(), 4);
    assert forall|i: int| 0 <= i < record.tags.len() implies text_fits(
        #[trigger] record.tags[i],
    ) by {}
    lemma_tags_forward(bytes, b + 8, record.tags);
    lemma_planes_forward(bytes, b + 8 + tags.len(), frame.planes);
    assert(frame == FrameModel { dims: frame.dims, format: frame.format, planes: frame.planes });
}

proof fn lemma_record_backward(bytes: Seq<u8>, at: nat)
    requires
        addressable(bytes),
        record_at(bytes, at) is Ok,
    ensures
        record_at(bytes, at) matches Ok((record, next)) && storable(record) && next == at
            + record_bytes(record).len() && holds(bytes, at as int, record_bytes(record)),
{
    lemma_capacities();
    let (record, end) = record_at(bytes, at)->Ok_0;
    let frame = record.frame;
    lemma_header(bytes, at, frame.dims, frame.format);
    lemma_sides(bytes, at, frame.dims);
    lemma_format_next(bytes, at + 8);
    let a = at + 16;
    lemma_label(bytes, a, record.label);
    let (label, b) = label_at(bytes, a)->Ok_0;
    lemma_number(bytes, b, 0, 4);
    lemma_number(bytes, b + 4, 0, 4);
    let (tag_total, c) = number_at(bytes, b, 4)->Ok_0;
    let (plane_total, d) = number_at(bytes, c, 4)->Ok_0;
    lemma_le_bytes_len(tag_total, 4);
    lemma_le_bytes_len(plane_total, 4);
    lemma_tags_backward(bytes, d, tag_total);
    let (tag_list, e) = tags_at(bytes, d, tag_total)->Ok_0;
    lemma_planes_backward(bytes, e, plane_total);
    let head = header_bytes(frame.dims, frame.format);
    let tag_count = le_bytes(tag_total, 4);
    let plane_count = le_bytes(plane_total, 4);
    let tags = tags_bytes(record.tags);
    let planes = planes_bytes(frame.planes);
    lemma_split(bytes, at as int, head, label_bytes(label));
    lemma_split(bytes, at as int, head + label_bytes(label), tag_count);
    lemma_split(bytes, at as int, head + label_bytes(label) + tag_count, plane_count);
    lemma_split(bytes, at as int, head + label_bytes(label) + tag_count + plane_count, tags);
    lemma_split(
        bytes,
        at as int,
        head + label_bytes(label) + tag_count + plane_count + tags,
        planes,
    );
}

proof fn lemma_records_forward(bytes: Seq<u8>, at: nat, records: Seq<RecordModel>)
    requires
        addressable(bytes),
        holds(bytes, at as int, records_bytes(records)),
        forall|i: int| 0 <= i < records.len() ==> storable(#[trigger] records[i]),
    ensures
        records_at(bytes, at, records.len()) == Ok::<(Seq<RecordModel>, nat), ErrorView>(
            (records, at + records_bytes(records).len()),
        ),
    decreases records.len(),
{
    if records.len() > 0 {
        let before = records.drop_last();
        lemma_split(bytes, at as int, records_bytes(before), record_bytes(records.last()));
        assert forall|i: int| 0 <= i < before.len() implies storable(#[trigger] before[i]) by {
            assert(before[i] == records[i]);
        }
        lemma_records_forward(bytes, at, before);
        assert(storable(records[records.len() - 1]));
        lemma_record_forward(bytes, at + records_bytes(before).len(), records.last());
        assert(before.push(records.last()) =~= records);
    } else {
        assert(records =~= Seq::<RecordModel>::empty());
    }
}

proof fn lemma_records_backward(bytes: Seq<u8>, at: nat, count: nat)
    requires
        addressable(bytes),
        at <= bytes.len(),
        records_at(bytes, at, count) is Ok,
    ensures
        records_at(bytes, at, count) matches Ok((records, next)) && records.len() == count && next
            == at + records_bytes(records).len() && holds(bytes, at as int, records_bytes(records))
            && forall|i: int| 0 <= i < records.len() ==> storable(#[trigger] records[i]),
    decreases count,
{
    if count > 0 {
        lemma_records_backward(bytes, at, (count - 1) as nat);
        let (before, next) = records_at(bytes, at, (count - 1) as nat)->Ok_0;
        lemma_record_backward(bytes, next);
        let (record, end) = record_at(bytes, next)->Ok_0;
        assert(before.push(record).drop_last() =~= before);
        lemma_split(bytes, at as int, records_bytes(before), record_bytes(record));
    } else {
        assert(bytes.subrange(at as int, at as int) =~= Seq::<u8>::empty());
    }
}

proof fn lemma_no_fault(records: Seq<RecordModel>, first: int)
    requires
        0 <= first,
        forall|i: int| 0 <= i < records.len() ==> storable(#[trigger] records[i]),
    ensures
        records_fault(records, first) is None,
    decreases records.len() - first,
{
    if first < records.len() {
        assert(storable(records[first]));
        lemma_no_fault(records, first + 1);
    }
}

/// A bundle that was written reads back with the same labels, tags, sizes,
/// formats, strides, and plane bytes, for every bundle of storable records whose
/// encoding fits into memory.
pub proof fn law_decode_of_encode(records: Seq<RecordModel>)
    requires
        records.len() <= u32::MAX,
        forall|i: int| 0 <= i < records.len() ==> storable(#[trigger] records[i]),
        bundle_bytes(records).len() <= usize::MAX,
    ensures
        bundle_fault(records) is None,
        bundle_in(bundle_bytes(records)) == Ok::<Seq<RecordModel>, ErrorView>(records),
{
    lemma_capacities();
    lemma_no_fault(records, 0);
    let bytes = bundle_bytes(records);
    let count = le_bytes(records.len(), 4);
    lemma_le_bytes_len(records.len(), 4);
    assert(bytes.subrange(0, bytes.len() as int) =~= bytes);
    assert(holds(bytes, 0, bytes));
    lemma_split(bytes, 0, MAGIC@ + count, records_bytes(records));
    lemma_split(bytes, 0, MAGIC@, count);
    lemma_number(bytes, 8, records.len(), 4);
    lemma_records_forward(bytes, 12, records);
}

/// Whatever decodes is the encoding of what it decodes to: no two different byte
/// strings decode to the same bundle, and every decoded record is storable.
pub proof fn law_encode_of_decode(bytes: Seq<u8>, records: Seq<RecordModel>)
    requires
        bytes.len() <= usize::MAX,
        bundle_in(bytes) == Ok::<Seq<RecordModel>, ErrorView>(records),
    ensures
        bundle_bytes(records) == bytes,
        bundle_fault(records) is None,
        forall|i: int| 0 <= i < records.len() ==> storable(#[trigger] records[i]),
{
    lemma_capacities();
    let (count, b) = number_at(bytes, 8, 4)->Ok_0;
    lemma_number(bytes, 8, count, 4);
    lemma_le_bytes_len(count, 4);
    lemma_records_backward(bytes, 12, count);
    lemma_no_fault(records, 0);
    lemma_split(bytes, 0, MAGIC@, le_bytes(count, 4));
    lemma_split(bytes, 0, MAGIC@ + le_bytes(count, 4), records_bytes(records));
    assert(bytes.subrange(0, bytes.len() as int) =~= bytes);
}

} // verus!
