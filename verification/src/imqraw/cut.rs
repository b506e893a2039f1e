//! Bundles that were cut or extended are refused.

use crate::error::ErrorView;
use crate::imqraw::roundtrip::{law_decode_of_encode, storable};
use crate::imqraw::{
    bundle_bytes, bundle_in, bytes_at, code_at, color_range_of_number, color_space_of_number,
    contents_at, format_at, label_at, number_at, pixel_format_of_number, plane_at, planes_at,
    record_at, records_at, sides_at, size_at, string_at, tags_at, text_at, transfer_of_number,
    RecordModel, Step,
};
use vstd::prelude::*;

verus! {

/// The error for bytes that end too early.
pub open spec fn truncated() -> ErrorView {
    ErrorView::UnsupportedInput("truncated imqraw bundle"@)
}

/// The error for bytes behind the last record.
pub open spec fn trailing() -> ErrorView {
    ErrorView::UnsupportedInput("imqraw bundle has trailing bytes"@)
}

/// Whether `all` begins with `some` and fits into memory.
spec fn begins_with(all: Seq<u8>, some: Seq<u8>) -> bool {
    &&& some.len() <= all.len() <= usize::MAX
    &&& some == all.take(some.len() as int)
}

/// Whether reading the beginning of some bytes agrees with reading all of them: what is
/// read from the beginning is read from all bytes too, and where only all bytes suffice
/// the beginning is reported as truncated.
spec fn agrees<T>(some: Step<T>, all: Step<T>, end: nat) -> bool {
    match some {
        Ok((_, next)) => all == some && next <= end,
        Err(error) => all is Ok ==> error == truncated(),
    }
}

proof fn lemma_bytes(all: Seq<u8>, some: Seq<u8>, at: nat, len: nat)
    requires
        begins_with(all, some),
    ensures
        agrees(bytes_at(some, at, len), bytes_at(all, at, len), some.len()),
{
    if at + len <= some.len() {
        assert(some.subrange(at as int, (at + len) as int) =~= all.subrange(
            at as int,
            (at + len) as int,
        ));
    }
}

proof fn lemma_number(all: Seq<u8>, some: Seq<u8>, at: nat, width: nat)
    requires
        begins_with(all, some),
    ensures
        agrees(number_at(some, at, width), number_at(all, at, width), some.len()),
{
    lemma_bytes(all, some, at, width);
}

proof fn lemma_text(all: Seq<u8>, some: Seq<u8>, at: nat, len: nat)
    requires
        begins_with(all, some),
    ensures
        agrees(text_at(some, at, len), text_at(all, at, len), some.len()),
{
    lemma_bytes(all, some, at, len);
}

proof fn lemma_string(all: Seq<u8>, some: Seq<u8>, at: nat)
    requires
        begins_with(all, some),
    ensures
        agrees(string_at(some, at), string_at(all, at), some.len()),
{
    lemma_number(all, some, at, 4);
    if let Ok((len, next)) = number_at(some, at, 4) {
        lemma_text(all, some, next, len);
    }
}

proof fn lemma_label(all: Seq<u8>, some: Seq<u8>, at: nat)
    requires
        begins_with(all, some),
    ensures
        agrees(label_at(some, at), label_at(all, at), some.len()),
{
    lemma_number(all, some, at, 4);
    if let Ok((len, next)) = number_at(some, at, 4) {
        lemma_text(all, some, next, len);
    }
}

proof fn lemma_tags(all: Seq<u8>, some: Seq<u8>, at: nat, count: nat)
    requires
        begins_with(all, some),
        at <= some.len(),
    ensures
        agrees(tags_at(some, at, count), tags_at(all, at, count), some.len()),
    decreases count,
{
    if count > 0 {
        lemma_tags(all, some, at, (count - 1) as nat);
        if let Ok((_, next)) = tags_at(some, at, (count - 1) as nat) {
            lemma_string(all, some, next);
        }
    }
}

proof fn lemma_size(all: Seq<u8>, some: Seq<u8>, at: nat, label: Seq<char>)
    requires
        begins_with(all, some),
    ensures
        agrees(size_at(some, at, label), size_at(all, at, label), some.len()),
{
    lemma_number(all, some, at, 8);
}

proof fn lemma_plane(all: Seq<u8>, some: Seq<u8>, at: nat)
    requires
        begins_with(all, some),
    ensures
        agrees(plane_at(some, at), plane_at(all, at), some.len()),
{
    lemma_size(all, some, at, "plane stride"@);
    if let Ok((_, next)) = size_at(some, at, "plane stride"@) {
        lemma_size(all, some, next, "plane data length"@);
        if let Ok((len, data_at)) = size_at(some, next, "plane data length"@) {
            lemma_bytes(all, some, data_at, len);
        }
    }
}

proof fn lemma_planes(all: Seq<u8>, some: Seq<u8>, at: nat, count: nat)
    requires
        begins_with(all, some),
        at <= some.len(),
    ensures
        agrees(planes_at(some, at, count), planes_at(all, at, count), some.len()),
    decreases count,
{
    if count > 0 {
        lemma_planes(all, some, at, (count - 1) as nat);
        if let Ok((_, next)) = planes_at(some, at, (count - 1) as nat) {
            lemma_plane(all, some, next);
        }
    }
}

proof fn lemma_code<T>(
    all: Seq<u8>,
    some: Seq<u8>,
    at: nat,
    what: Seq<char>,
    meaning: spec_fn(u16) -> Option<T>,
)
    requires
        begins_with(all, some),
    ensures
        agrees(code_at(some, at, what, meaning), code_at(all, at, what, meaning), some.len()),
{
    lemma_number(all, some, at, 2);
}

proof fn lemma_format(all: Seq<u8>, some: Seq<u8>, at: nat)
    requires
        begins_with(all, some),
    ensures
        agrees(format_at(some, at), format_at(all, at), some.len()),
{
    let pixel = |code: u16| pixel_format_of_number(code);
    let space = |code: u16| color_space_of_number(code);
    let curve = |code: u16| transfer_of_number(code);
    let range = |code: u16| color_range_of_number(code);
    lemma_code(all, some, at, "pixel format"@, pixel);
    if let Ok((_, a)) = code_at(some, at, "pixel format"@, pixel) {
        lemma_code(all, some, a, "color space"@, space);
        if let Ok((_, b)) = code_at(some, a, "color space"@, space) {
            lemma_code(all, some, b, "transfer"@, curve);
            if let Ok((_, c)) = code_at(some, b, "transfer"@, curve) {
                lemma_code(all, some, c, "color range"@, range);
            }
        }
    }
}

proof fn lemma_sides(all: Seq<u8>, some: Seq<u8>, at: nat)
    requires
        begins_with(all, some),
    ensures
        agrees(sides_at(some, at), sides_at(all, at), some.len()),
{
    lemma_number(all, some, at, 4);
    if let Ok((_, next)) = number_at(some, at, 4) {
        lemma_number(all, some, next, 4);
    }
}

proof fn lemma_contents(all: Seq<u8>, some: Seq<u8>, at: nat)
    requires
        begins_with(all, some),
    ensures
        agrees(contents_at(some, at), contents_at(all, at), some.len()),
{
    lemma_label(all, some, at);
    if let Ok((_, a)) = label_at(some, at) {
        lemma_number(all, some, a, 4);
        if let Ok((tag_count, b)) = number_at(some, a, 4) {
            lemma_number(all, some, b, 4);
            if let Ok((plane_count, c)) = number_at(some, b, 4) {
                lemma_tags(all, some, c, tag_count);
                if let Ok((_, d)) = tags_at(some, c, tag_count) {
                    lemma_planes(all, some, d, plane_count);
                }
            }
        }
    }
}

proof fn lemma_record(all: Seq<u8>, some: Seq<u8>, at: nat)
    requires
        begins_with(all, some),
    ensures
        agrees(record_at(some, at), record_at(all, at), some.len()),
{
    lemma_sides(all, some, at);
    if let Ok((_, a)) = sides_at(some, at) {
        lemma_format(all, some, a);
        if let Ok((_, b)) = format_at(some, a) {
            lemma_contents(all, some, b);
        }
    }
}

proof fn lemma_records(all: Seq<u8>, some: Seq<u8>, at: nat, count: nat)
    requires
        begins_with(all, some),
        at <= some.len(),
    ensures
        agrees(records_at(some, at, count), records_at(all, at, count), some.len()),
    decreases count,
{
    if count > 0 {
        lemma_records(all, some, at, (count - 1) as nat);
        if let Ok((_, next)) = records_at(some, at, (count - 1) as nat) {
            lemma_record(all, some, next);
        }
    }
}

/// Bytes that decode do so only as a whole: each proper beginning of them is refused as
/// truncated, and with any bytes behind them they are refused for these.
pub proof fn law_decodes_only_whole(bytes: Seq<u8>, kept: nat, extra: Seq<u8>)
    requires
        bundle_in(bytes) is Ok,
        bytes.len() + extra.len() <= usize::MAX,
    ensures
        kept < bytes.len() ==> bundle_in(bytes.take(kept as int)) == Err::<
            Seq<RecordModel>,
            ErrorView,
        >(truncated()),
        extra.len() > 0 ==> bundle_in(bytes + extra) == Err::<Seq<RecordModel>, ErrorView>(
            trailing(),
        ),
{
    if kept < bytes.len() {
        let some = bytes.take(kept as int);
        lemma_bytes(bytes, some, 0, 8);
        if let Ok((_, a)) = bytes_at(some, 0, 8) {
            lemma_number(bytes, some, a, 4);
            if let Ok((count, b)) = number_at(some, a, 4) {
                lemma_records(bytes, some, b, count);
            }
        }
    }
    if extra.len() > 0 {
        let all = bytes + extra;
        assert(all.take(bytes.len() as int) =~= bytes);
        lemma_bytes(all, bytes, 0, 8);
        if let Ok((_, a)) = bytes_at(bytes, 0, 8) {
            lemma_number(all, bytes, a, 4);
            if let Ok((count, b)) = number_at(bytes, a, 4) {
                lemma_records(all, bytes, b, count);
            }
        }
    }
}

/// Every proper beginning and every extension of an encoded bundle is refused as
/// unsupported input, for every bundle of storable records whose bytes fit into memory.
pub proof fn law_refuses_cut_or_extended(records: Seq<RecordModel>, kept: nat, extra: Seq<u8>)
    requires
        records.len() <= u32::MAX,
        forall|i: int| 0 <= i < records.len() ==> storable(#[trigger] records[i]),
        bundle_bytes(records).len() + extra.len() <= usize::MAX,
    ensures
        kept < bundle_bytes(records).len() ==> bundle_in(bundle_bytes(records).take(kept as int))
            == Err::<Seq<RecordModel>, ErrorView>(truncated()),
        extra.len() > 0 ==> bundle_in(bundle_bytes(records) + extra) == Err::<
            Seq<RecordModel>,
            ErrorView,
        >(trailing()),
{
    law_decode_of_encode(records);
    law_decodes_only_whole(bundle_bytes(records), kept, extra);
}

} // verus!
