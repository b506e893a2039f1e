//! Little-endian integers over byte sequences.

use vstd::arithmetic::div_mod::lemma_div_denominator;
use vstd::arithmetic::power::{lemma_pow0, lemma_pow_positive, pow};
use vstd::prelude::*;

verus! {

/// Number of values that `width` bytes can hold.
pub open spec fn byte_capacity(width: nat) -> nat
    decreases width,
{
    if width == 0 {
        1
    } else {
        256 * byte_capacity((width - 1) as nat)
    }
}

/// The `width` lowest bytes of a value, least significant first.
pub open spec fn le_bytes(value: nat, width: nat) -> Seq<u8>
    decreases width,
{
    if width == 0 {
        Seq::empty()
    } else {
        seq![(value % 256) as u8] + le_bytes(value / 256, (width - 1) as nat)
    }
}

/// The value of bytes read least significant first.
pub open spec fn le_value(bytes: Seq<u8>) -> nat
    decreases bytes.len(),
{
    if bytes.len() == 0 {
        0
    } else {
        bytes[0] as nat + 256 * le_value(bytes.drop_first())
    }
}

/// Reading back the bytes of a value that fits gives the value.
pub proof fn law_le_value_of_bytes(value: nat, width: nat)
    requires
        value < byte_capacity(width),
    ensures
        le_bytes(value, width).len() == width,
        le_value(le_bytes(value, width)) == value,
    decreases width,
{
    if width > 0 {
        let rest = le_bytes(value / 256, (width - 1) as nat);
        law_le_value_of_bytes(value / 256, (width - 1) as nat);
        assert(le_bytes(value, width).drop_first() =~= rest);
    }
}

/// Writing the value of some bytes gives the bytes back.
pub proof fn law_le_bytes_of_value(bytes: Seq<u8>)
    ensures
        le_value(bytes) < byte_capacity(bytes.len()),
        le_bytes(le_value(bytes), bytes.len()) == bytes,
    decreases bytes.len(),
{
    if bytes.len() > 0 {
        let rest = bytes.drop_first();
        law_le_bytes_of_value(rest);
        assert(le_value(bytes) % 256 == bytes[0]);
        assert(le_value(bytes) / 256 == le_value(rest));
        assert(seq![bytes[0]] + rest =~= bytes);
    }
}

/// The bytes of a value have the requested width.
pub proof fn lemma_le_bytes_len(value: nat, width: nat)
    ensures
        le_bytes(value, width).len() == width,
    decreases width,
{
    if width > 0 {
        lemma_le_bytes_len(value / 256, (width - 1) as nat);
    }
}

/// Capacities of the integer widths in use.
pub proof fn lemma_capacities()
    ensures
        byte_capacity(2) == 0x1_0000,
        byte_capacity(4) == 0x1_0000_0000,
        byte_capacity(8) == 0x1_0000_0000_0000_0000,
{
    reveal_with_fuel(byte_capacity, 9);
}

/// Capacity grows with the width.
proof fn lemma_capacity_monotonic(a: nat, b: nat)
    requires
        a <= b,
    ensures
        byte_capacity(a) <= byte_capacity(b),
    decreases b - a,
{
    if a < b {
        lemma_capacity_monotonic(a, (b - 1) as nat);
    }
}

/// Appends the `width` lowest bytes of a value, least significant first.
pub fn push_le(output: &mut Vec<u8>, value: u64, width: usize)
    ensures
        final(output)@ == old(output)@ + le_bytes(value as nat, width as nat),
{
    let mut rest: u64 = value;
    let mut done: usize = 0;
    while done < width
        invariant
            done <= width,
            old(output)@ + le_bytes(value as nat, width as nat) == output@ + le_bytes(
                rest as nat,
                (width - done) as nat,
            ),
        decreases width - done,
    {
        let ghost before = output@;
        let byte: u8 = (rest % 256) as u8;
        output.push(byte);
        proof {
            let tail = le_bytes((rest / 256) as nat, (width - done - 1) as nat);
            assert(before + (seq![byte] + tail) =~= before.push(byte) + tail);
        }
        rest = rest / 256;
        done += 1;
    }
    assert(output@ + le_bytes(rest as nat, 0) =~= output@);
}

/// Reads up to eight bytes, least significant first.
pub fn le_number(bytes: &[u8]) -> (value: u64)
    requires
        bytes@.len() <= 8,
    ensures
        value == le_value(bytes@),
{
    let mut value: u64 = 0;
    let mut left: usize = bytes.len();
    while left > 0
        invariant
            left <= bytes@.len() <= 8,
            value == le_value(bytes@.skip(left as int)),
        decreases left,
    {
        left -= 1;
        let byte: u8 = bytes[left];
        proof {
            let tail = bytes@.skip(left as int);
            assert(tail.drop_first() =~= bytes@.skip(left + 1));
            law_le_bytes_of_value(tail);
            lemma_capacity_monotonic(tail.len(), 8);
            lemma_capacities();
        }
        value = byte as u64 + 256 * value;
    }
    assert(bytes@.skip(0) =~= bytes@);
    value
}

/// Bytes stand from the lowest up: byte `i` of a number is its `i`-th digit to base 256.
pub proof fn law_low_bytes_come_first(value: nat, width: nat, i: nat)
    requires
        i < width,
    ensures
        le_bytes(value, width).len() == width,
        le_bytes(value, width)[i as int] == (value as int / pow(256, i)) % 256,
    decreases width,
{
    lemma_le_bytes_len(value, width);
    if i == 0 {
        lemma_pow0(256);
    } else {
        let rest = le_bytes(value / 256, (width - 1) as nat);
        law_low_bytes_come_first(value / 256, (width - 1) as nat, (i - 1) as nat);
        assert(le_bytes(value, width)[i as int] == rest[i - 1]);
        assert(pow(256, i) == 256 * pow(256, (i - 1) as nat)) by {
            reveal(pow);
        }
        lemma_pow_positive(256, (i - 1) as nat);
        lemma_div_denominator(value as int, 256, pow(256, (i - 1) as nat));
    }
}

/// The bytes of a longer number weigh in from the lowest up: one byte is its own value,
/// and the bytes behind the first `n` count 256 to the power of `n` times as much.
pub proof fn law_later_bytes_weigh_more(low: Seq<u8>, high: Seq<u8>, byte: u8)
    ensures
        le_value(Seq::empty()) == 0,
        le_value(seq![byte]) == byte,
        le_value(low + high) == le_value(low) + pow(256, low.len()) * le_value(high),
    decreases low.len(),
{
    assert(seq![byte].drop_first() =~= Seq::<u8>::empty());
    assert(seq![byte][0] == byte);
    assert(le_value(Seq::<u8>::empty()) == 0);
    if low.len() == 0 {
        assert(low + high =~= high);
        lemma_pow0(256);
        assert(1 * le_value(high) == le_value(high));
    } else {
        law_later_bytes_weigh_more(low.drop_first(), high, byte);
        assert((low + high).drop_first() =~= low.drop_first() + high);
        assert((low + high)[0] == low[0]);
        let n = (low.len() - 1) as nat;
        assert(pow(256, low.len()) == 256 * pow(256, n)) by {
            reveal(pow);
        }
        let p = pow(256, n);
        let h = le_value(high) as int;
        assert(256 * (p * h) == (256 * p) * h) by (nonlinear_arith);
    }
}

} // verus!
