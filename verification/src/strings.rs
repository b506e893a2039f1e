//! Verified text searching, splitting, and trimming.

use crate::text::{decimal_text, digit_char, texts};
use vstd::prelude::*;

verus! {

/// Characters with the Unicode property `White_Space`.
pub open spec fn is_blank(c: char) -> bool {
    let code = c as u32;
    ||| 0x09 <= code <= 0x0d
    ||| code == 0x20
    ||| code == 0x85
    ||| code == 0xa0
    ||| code == 0x1680
    ||| 0x2000 <= code <= 0x200a
    ||| code == 0x2028
    ||| code == 0x2029
    ||| code == 0x202f
    ||| code == 0x205f
    ||| code == 0x3000
}

/// Text without blanks at its start.
pub open spec fn trimmed_start(text: Seq<char>) -> Seq<char>
    decreases text.len(),
{
    if text.len() > 0 && is_blank(text[0]) {
        trimmed_start(text.drop_first())
    } else {
        text
    }
}

/// Text without blanks at its end.
pub open spec fn trimmed_end(text: Seq<char>) -> Seq<char>
    decreases text.len(),
{
    if text.len() > 0 && is_blank(text.last()) {
        trimmed_end(text.drop_last())
    } else {
        text
    }
}

/// Text without blanks at its start and end.
pub open spec fn trimmed(text: Seq<char>) -> Seq<char> {
    trimmed_end(trimmed_start(text))
}

/// Whether a pattern stands in a text at a position.
pub open spec fn occurs_at(text: Seq<char>, pattern: Seq<char>, at: int) -> bool {
    &&& 0 <= at
    &&& at + pattern.len() <= text.len()
    &&& text.subrange(at, at + pattern.len()) == pattern
}

/// First position at or behind `from` where a pattern stands.
pub open spec fn position_from(text: Seq<char>, pattern: Seq<char>, from: int) -> Option<int>
    decreases text.len() + 1 - from,
{
    if from < 0 || from + pattern.len() > text.len() {
        None
    } else if occurs_at(text, pattern, from) {
        Some(from)
    } else {
        position_from(text, pattern, from + 1)
    }
}

/// Last position before `before` where a character stands.
pub open spec fn last_before(text: Seq<char>, c: char, before: int) -> Option<int>
    decreases before,
{
    if before <= 0 || before > text.len() {
        None
    } else if text[before - 1] == c {
        Some(before - 1)
    } else {
        last_before(text, c, before - 1)
    }
}

/// The parts of a text before and behind the first occurrence of a token.
pub open spec fn split_first(text: Seq<char>, token: Seq<char>) -> Option<
    (Seq<char>, Seq<char>),
> {
    match position_from(text, token, 0) {
        Some(at) => Some((text.take(at), text.skip(at + token.len()))),
        None => None,
    }
}

/// The parts of a text before and behind the last occurrence of a character.
pub open spec fn split_last(text: Seq<char>, c: char) -> Option<(Seq<char>, Seq<char>)> {
    match last_before(text, c, text.len() as int) {
        Some(at) => Some((text.take(at), text.skip(at + 1))),
        None => None,
    }
}

/// Whether a text starts with another.
pub open spec fn has_prefix(text: Seq<char>, prefix: Seq<char>) -> bool {
    occurs_at(text, prefix, 0)
}

/// The text with every occurrence of a non-empty pattern replaced, from left to right.
pub open spec fn replaced(text: Seq<char>, pattern: Seq<char>, with: Seq<char>) -> Seq<char>
    decreases text.len(),
{
    if pattern.len() == 0 {
        text
    } else {
        match position_from(text, pattern, 0) {
            Some(at) => if 0 <= at && at + pattern.len() <= text.len() {
                text.take(at) + with + replaced(text.skip(at + pattern.len()), pattern, with)
            } else {
                text
            },
            None => text,
        }
    }
}

/// A found position is inside the text, holds the pattern, and is the first.
pub proof fn lemma_position(text: Seq<char>, pattern: Seq<char>, from: int)
    requires
        0 <= from,
    ensures
        match position_from(text, pattern, from) {
            Some(at) => from <= at && occurs_at(text, pattern, at) && forall|j: int|
                from <= j < at ==> !#[trigger] occurs_at(text, pattern, j),
            None => forall|j: int| from <= j ==> !#[trigger] occurs_at(text, pattern, j),
        },
    decreases text.len() + 1 - from,
{
    if from + pattern.len() <= text.len() && !occurs_at(text, pattern, from) {
        lemma_position(text, pattern, from + 1);
    }
}

/// A last position is inside the text.
pub proof fn lemma_last(text: Seq<char>, c: char, before: int)
    requires
        0 <= before <= text.len(),
    ensures
        match last_before(text, c, before) {
            Some(at) => 0 <= at < before && text[at] == c && forall|j: int|
                at < j < before ==> #[trigger] text[j] != c,
            None => forall|j: int| 0 <= j < before ==> #[trigger] text[j] != c,
        },
    decreases before,
{
    if before > 0 && text[before - 1] != c {
        lemma_last(text, c, before - 1);
    }
}

/// The characters of a text.
pub fn char_list(text: &str) -> (list: Vec<char>)
    ensures
        list@ == text@,
{
    let total: usize = text.unicode_len();
    let mut list: Vec<char> = Vec::new();
    let mut chars = text.chars();
    let mut i: usize = 0;
    assert(text@.skip(0) =~= text@);
    while i < total
        invariant
            i <= total,
            total == text@.len(),
            list@ == text@.take(i as int),
            vstd::std_specs::iter::IteratorSpec::remaining(&chars) == text@.skip(i as int),
        decreases total - i,
    {
        match chars.next() {
            Some(c) => {
                assert(c == text@[i as int]);
                list.push(c);
                assert(list@ =~= text@.take(i + 1));
                assert(text@.skip(i as int).drop_first() =~= text@.skip(i + 1));
            },
            None => {
                assert(false);
            },
        }
        i += 1;
    }
    assert(text@.take(i as int) =~= text@);
    list
}

/// Tells whether a character is a blank.
pub fn blank(c: char) -> (yes: bool)
    ensures
        yes == is_blank(c),
{
    let code: u32 = c as u32;
    (0x09 <= code && code <= 0x0d) || code == 0x20 || code == 0x85 || code == 0xa0 || code
        == 0x1680 || (0x2000 <= code && code <= 0x200a) || code == 0x2028 || code == 0x2029 || code
        == 0x202f || code == 0x205f || code == 0x3000
}

/// Tells whether a pattern stands in a text at a position.
fn stands_at(text: &Vec<char>, pattern: &Vec<char>, at: usize) -> (found: bool)
    ensures
        found == occurs_at(text@, pattern@, at as int),
{
    if pattern.len() > text.len() || at > text.len() - pattern.len() {
        return false;
    }
    let mut i: usize = 0;
    while i < pattern.len()
        invariant
            i <= pattern.len(),
            at + pattern.len() <= text.len(),
            forall|j: int| 0 <= j < i ==> text@[at + j] == pattern@[j],
        decreases pattern.len() - i,
    {
        if text[at + i] != pattern[i] {
            assert(text@.subrange(at as int, at + pattern@.len())[i as int] != pattern@[i as int]);
            return false;
        }
        i += 1;
    }
    assert(text@.subrange(at as int, at + pattern@.len()) =~= pattern@);
    true
}

/// Finds the first occurrence of a pattern at or behind `from`.
pub fn find_from(text: &Vec<char>, pattern: &Vec<char>, from: usize) -> (found: Option<usize>)
    ensures
        match found {
            Some(at) => position_from(text@, pattern@, from as int) == Some(at as int) && from
                <= at && at + pattern@.len() <= text@.len(),
            None => position_from(text@, pattern@, from as int) is None,
        },
{
    let mut at: usize = from;
    if pattern.len() > text.len() {
        return None;
    }
    let last: usize = text.len() - pattern.len();
    while at <= last
        invariant
            from <= at,
            last + pattern@.len() == text@.len(),
            position_from(text@, pattern@, from as int) == position_from(
                text@,
                pattern@,
                at as int,
            ),
        decreases last + 1 - at,
    {
        if stands_at(text, pattern, at) {
            return Some(at);
        }
        if at == last {
            assert(position_from(text@, pattern@, at + 1) is None);
            return None;
        }
        at += 1;
    }
    None
}

/// Splits a text at the first occurrence of a token.
pub fn split_once<'a>(text: &'a str, token: &str) -> (parts: Option<(&'a str, &'a str)>)
    ensures
        match parts {
            Some((before, behind)) => split_first(text@, token@) == Some((before@, behind@)),
            None => split_first(text@, token@) is None,
        },
{
    let list = char_list(text);
    let pattern = char_list(token);
    let total: usize = list.len();
    match find_from(&list, &pattern, 0) {
        Some(at) => {
            let before = text.substring_char(0, at);
            let behind = text.substring_char(at + pattern.len(), total);
            assert(before@ =~= text@.take(at as int));
            assert(behind@ =~= text@.skip(at + token@.len()));
            Some((before, behind))
        },
        None => None,
    }
}

/// Splits a text at the last occurrence of a character.
pub fn rsplit_once<'a>(text: &'a str, c: char) -> (parts: Option<(&'a str, &'a str)>)
    ensures
        match parts {
            Some((before, behind)) => split_last(text@, c) == Some((before@, behind@)),
            None => split_last(text@, c) is None,
        },
{
    let list = char_list(text);
    let mut before: usize = list.len();
    while before > 0
        invariant
            before <= list@.len(),
            list@ == text@,
            last_before(text@, c, text@.len() as int) == last_before(text@, c, before as int),
        decreases before,
    {
        if list[before - 1] == c {
            let left = text.substring_char(0, before - 1);
            let right = text.substring_char(before, list.len());
            assert(left@ =~= text@.take(before - 1));
            assert(right@ =~= text@.skip(before as int));
            return Some((left, right));
        }
        before -= 1;
    }
    None
}

/// Removes blanks at the start and end of a text.
pub fn trim(text: &str) -> (inner: &str)
    ensures
        inner@ == trimmed(text@),
{
    let list = char_list(text);
    let mut start: usize = 0;
    assert(text@.skip(0) =~= text@);
    while start < list.len() && blank(list[start])
        invariant
            start <= list.len(),
            list@ == text@,
            trimmed_start(text@) == trimmed_start(text@.skip(start as int)),
        decreases list.len() - start,
    {
        assert(text@.skip(start as int).drop_first() =~= text@.skip(start + 1));
        start += 1;
    }
    let mut end: usize = list.len();
    assert(trimmed_start(text@) == text@.skip(start as int));
    assert(text@.subrange(start as int, end as int) =~= text@.skip(start as int));
    while end > start && blank(list[end - 1])
        invariant
            start <= end <= list.len(),
            list@ == text@,
            trimmed_end(text@.skip(start as int)) == trimmed_end(
                text@.subrange(start as int, end as int),
            ),
        decreases end,
    {
        assert(text@.subrange(start as int, end as int).drop_last() =~= text@.subrange(
            start as int,
            end - 1,
        ));
        end -= 1;
    }
    let inner = text.substring_char(start, end);
    assert(trimmed_end(inner@) == inner@);
    inner
}

/// The part of a text behind a prefix.
pub fn strip_prefix<'a>(text: &'a str, prefix: &str) -> (rest: Option<&'a str>)
    ensures
        match rest {
            Some(rest) => has_prefix(text@, prefix@) && rest@ == text@.skip(prefix@.len() as int),
            None => !has_prefix(text@, prefix@),
        },
{
    let list = char_list(text);
    let pattern = char_list(prefix);
    if stands_at(&list, &pattern, 0) {
        let rest = text.substring_char(pattern.len(), list.len());
        assert(rest@ =~= text@.skip(prefix@.len() as int));
        Some(rest)
    } else {
        None
    }
}

/// Tells whether a text contains another.
pub fn contains(text: &str, pattern: &str) -> (found: bool)
    ensures
        found == position_from(text@, pattern@, 0) is Some,
{
    find_from(&char_list(text), &char_list(pattern), 0).is_some()
}

/// Replaces every occurrence of a non-empty pattern, from left to right.
pub fn replace(text: &str, pattern: &str, with: &str) -> (result: String)
    requires
        pattern@.len() > 0,
    ensures
        result@ == replaced(text@, pattern@, with@),
    decreases text@.len(),
{
    match split_once(text, pattern) {
        Some((before, behind)) => {
            proof {
                lemma_position(text@, pattern@, 0);
            }
            let mut result = String::from_str(before);
            result.append(with);
            let rest = replace(behind, pattern, with);
            result.append(rest.as_str());
            result
        },
        None => String::from_str(text),
    }
}

/// Dictionary order by code points.
pub open spec fn precedes(a: Seq<char>, b: Seq<char>) -> bool
    decreases a.len(),
{
    if b.len() == 0 {
        false
    } else if a.len() == 0 {
        true
    } else if a[0] == b[0] {
        precedes(a.drop_first(), b.drop_first())
    } else {
        (a[0] as u32) < (b[0] as u32)
    }
}

/// No text precedes itself, and of two different texts exactly one precedes the other.
pub proof fn lemma_precedes_total(a: Seq<char>, b: Seq<char>)
    ensures
        !(precedes(a, b) && precedes(b, a)),
        precedes(a, b) || precedes(b, a) <==> a != b,
    decreases a.len(),
{
    if a.len() > 0 && b.len() > 0 && a[0] == b[0] {
        lemma_precedes_total(a.drop_first(), b.drop_first());
        assert(a == b <==> a.drop_first() == b.drop_first()) by {
            assert(seq![a[0]] + a.drop_first() =~= a);
            assert(seq![b[0]] + b.drop_first() =~= b);
        }
    } else if a.len() == 0 && b.len() == 0 {
        assert(a =~= b);
    } else if a.len() > 0 && b.len() > 0 {
        vstd::utf8::char_u32_cast(a[0], a[0] as u32);
        vstd::utf8::char_u32_cast(b[0], b[0] as u32);
        assert(a != b);
    } else {
        assert(a.len() != b.len());
    }
}

/// Dictionary order is transitive.
pub proof fn lemma_precedes_transitive(a: Seq<char>, b: Seq<char>, c: Seq<char>)
    requires
        precedes(a, b),
        precedes(b, c),
    ensures
        precedes(a, c),
    decreases a.len(),
{
    if a.len() > 0 && a[0] == b[0] && b[0] == c[0] {
        lemma_precedes_transitive(a.drop_first(), b.drop_first(), c.drop_first());
    }
}

/// Tells whether one text precedes another in dictionary order.
pub fn comes_before(a: &str, b: &str) -> (yes: bool)
    ensures
        yes == precedes(a@, b@),
{
    let left = char_list(a);
    let right = char_list(b);
    let mut i: usize = 0;
    assert(a@.skip(0) =~= a@);
    assert(b@.skip(0) =~= b@);
    while i < left.len() && i < right.len() && left[i] == right[i]
        invariant
            i <= left.len(),
            i <= right.len(),
            left@ == a@,
            right@ == b@,
            precedes(a@, b@) == precedes(a@.skip(i as int), b@.skip(i as int)),
        decreases left.len() - i,
    {
        assert(a@.skip(i as int).drop_first() =~= a@.skip(i + 1));
        assert(b@.skip(i as int).drop_first() =~= b@.skip(i + 1));
        i += 1;
    }
    if i >= right.len() {
        false
    } else if i >= left.len() {
        true
    } else {
        (left[i] as u32) < (right[i] as u32)
    }
}

/// ASCII lower case of a character.
pub open spec fn lower_char(c: char) -> char {
    if 'A' <= c && c <= 'Z' {
        (c as u32 + 32) as char
    } else {
        c
    }
}

/// Text with ASCII letters in lower case.
pub open spec fn lowered(text: Seq<char>) -> Seq<char> {
    text.map_values(|c: char| lower_char(c))
}

/// Lower case of an ASCII letter; other characters as they are.
pub fn to_lower(c: char) -> (lower: char)
    ensures
        lower == lower_char(c),
{
    if 'A' <= c && c <= 'Z' {
        let code: u8 = c as u8;
        (code + 32) as char
    } else {
        c
    }
}

/// Copies a text with ASCII letters in lower case.
pub fn to_ascii_lowercase(text: &str) -> (lower: String)
    ensures
        lower@ == lowered(text@),
{
    let list = char_list(text);
    let mut lower = String::new();
    let mut i: usize = 0;
    assert(lower@ =~= Seq::<char>::empty());
    while i < list.len()
        invariant
            i <= list.len(),
            list@ == text@,
            lower@ == lowered(text@).take(i as int),
        decreases list.len() - i,
    {
        lower.push(to_lower(list[i]));
        assert(lowered(text@).take(i + 1) =~= lowered(text@).take(i as int).push(
            lower_char(text@[i as int]),
        ));
        i += 1;
    }
    assert(lowered(text@).take(text@.len() as int) =~= lowered(text@));
    lower
}

/// Number that decimal digits stand for.
pub open spec fn digits_value(digits: Seq<char>) -> nat
    decreases digits.len(),
{
    if digits.len() == 0 {
        0
    } else {
        10 * digits_value(digits.drop_last()) + (digits.last() as u32 - '0' as u32) as nat
    }
}

/// Whether every character is an ASCII digit.
pub open spec fn all_digits(text: Seq<char>) -> bool {
    forall|i: int| 0 <= i < text.len() ==> '0' <= #[trigger] text[i] && text[i] <= '9'
}

/// The number that a text writes down, if it is at most `limit`: decimal digits,
/// at least one, behind an optional plus sign.
pub open spec fn number_in(text: Seq<char>, limit: nat) -> Option<nat> {
    let digits = if text.len() > 1 && text[0] == '+' {
        text.drop_first()
    } else {
        text
    };
    if digits.len() > 0 && all_digits(digits) && digits_value(digits) <= limit {
        Some(digits_value(digits))
    } else {
        None
    }
}

/// More digits never stand for a smaller number.
proof fn lemma_digits_grow(digits: Seq<char>, count: int)
    requires
        0 <= count <= digits.len(),
        all_digits(digits),
    ensures
        digits_value(digits.take(count)) <= digits_value(digits),
    decreases digits.len() - count,
{
    if count < digits.len() {
        lemma_digits_grow(digits, count + 1);
        assert(digits.take(count + 1).drop_last() =~= digits.take(count));
    } else {
        assert(digits.take(count) =~= digits);
    }
}

/// Reads a number of at most `limit`.
pub fn parse_number(text: &str, limit: u64) -> (number: Option<u64>)
    ensures
        match number {
            Some(number) => number_in(text@, limit as nat) == Some(number as nat),
            None => number_in(text@, limit as nat) is None,
        },
{
    let list = char_list(text);
    let start: usize = if list.len() > 1 && list[0] == '+' {
        1
    } else {
        0
    };
    let ghost digits = if text@.len() > 1 && text@[0] == '+' {
        text@.drop_first()
    } else {
        text@
    };
    if list.len() == 0 {
        return None;
    }
    let mut value: u64 = 0;
    let mut i: usize = start;
    assert(digits.take(0) =~= Seq::<char>::empty());
    while i < list.len()
        invariant
            start <= i <= list.len(),
            start <= 1,
            list@ == text@,
            digits == text@.skip(start as int),
            digits == if text@.len() > 1 && text@[0] == '+' {
                text@.drop_first()
            } else {
                text@
            },
            forall|j: int| 0 <= j < i - start ==> '0' <= #[trigger] digits[j] && digits[j] <= '9',
            value == digits_value(digits.take(i - start)),
            value <= limit,
        decreases list.len() - i,
    {
        let c = list[i];
        assert(c == digits[i - start]);
        if c < '0' || c > '9' {
            return None;
        }
        let digit: u64 = (c as u8 - 48) as u64;
        proof {
            assert(digits.take(i - start + 1).drop_last() =~= digits.take(i - start));
            if all_digits(digits) {
                lemma_digits_grow(digits, i - start + 1);
            }
        }
        if value > limit / 10 {
            return None;
        }
        if digit > limit || 10 * value > limit - digit {
            return None;
        }
        value = 10 * value + digit;
        i += 1;
    }
    assert(digits.take(digits.len() as int) =~= digits);
    Some(value)
}

/// `count` copies of a character.
pub open spec fn repeated(c: char, count: nat) -> Seq<char> {
    Seq::new(count, |i: int| c)
}

/// Text filled up behind its end to a width.
pub open spec fn padded_right(text: Seq<char>, width: nat, fill: char) -> Seq<char> {
    text + repeated(fill, if text.len() < width { (width - text.len()) as nat } else { 0 })
}

/// Text filled up before its start to a width.
pub open spec fn padded_left(text: Seq<char>, width: nat, fill: char) -> Seq<char> {
    repeated(fill, if text.len() < width { (width - text.len()) as nat } else { 0 }) + text
}

/// Writes a character `count` times.
pub fn repeat(c: char, count: usize) -> (text: String)
    ensures
        text@ == repeated(c, count as nat),
{
    let mut text = String::new();
    let mut i: usize = 0;
    assert(text@ =~= repeated(c, 0));
    while i < count
        invariant
            i <= count,
            text@ == repeated(c, i as nat),
        decreases count - i,
    {
        text.push(c);
        assert(repeated(c, i as nat).push(c) =~= repeated(c, (i + 1) as nat));
        i += 1;
    }
    text
}

fn missing(text: &str, width: usize) -> (count: usize)
    ensures
        count == if text@.len() < width { width - text@.len() } else { 0 },
{
    let length: usize = text.unicode_len();
    if length < width {
        width - length
    } else {
        0
    }
}

/// Fills a text up behind its end.
pub fn pad_right(text: &str, width: usize, fill: char) -> (padded: String)
    ensures
        padded@ == padded_right(text@, width as nat, fill),
{
    let mut padded = String::from_str(text);
    padded.append(repeat(fill, missing(text, width)).as_str());
    padded
}

/// Fills a text up before its start.
pub fn pad_left(text: &str, width: usize, fill: char) -> (padded: String)
    ensures
        padded@ == padded_left(text@, width as nat, fill),
{
    let mut padded = repeat(fill, missing(text, width));
    padded.append(text);
    padded
}

/// The first `count` texts with a separator between neighbours.
pub open spec fn joined_first(parts: Seq<Seq<char>>, separator: Seq<char>, count: int) -> Seq<char>
    decreases count,
{
    if count <= 0 {
        Seq::empty()
    } else if count == 1 {
        parts[0]
    } else {
        joined_first(parts, separator, count - 1) + separator + parts[count - 1]
    }
}

/// Texts with a separator between neighbours.
pub open spec fn joined(parts: Seq<Seq<char>>, separator: Seq<char>) -> Seq<char> {
    joined_first(parts, separator, parts.len() as int)
}

/// Joins texts with a separator between neighbours.
pub fn join(parts: &Vec<String>, separator: &str) -> (text: String)
    ensures
        text@ == joined(texts(parts@), separator@),
{
    let mut text = String::new();
    let mut i: usize = 0;
    assert(text@ =~= Seq::<char>::empty());
    while i < parts.len()
        invariant
            i <= parts.len(),
            text@ == joined_first(texts(parts@), separator@, i as int),
        decreases parts.len() - i,
    {
        if i > 0 {
            text.append(separator);
        }
        text.append(parts[i].as_str());
        assert(i == 0 ==> Seq::<char>::empty() + texts(parts@)[0] =~= texts(parts@)[0]);
        i += 1;
    }
    text
}

/// Finished pieces and the open piece after the first `n` characters of a text
/// that is cut at every `c`.
pub open spec fn split_scan(text: Seq<char>, c: char, n: int) -> (Seq<Seq<char>>, Seq<char>)
    decreases n,
{
    if n <= 0 {
        (Seq::empty(), Seq::empty())
    } else {
        let (pieces, current) = split_scan(text, c, n - 1);
        if text[n - 1] == c {
            (pieces.push(current), Seq::empty())
        } else {
            (pieces, current.push(text[n - 1]))
        }
    }
}

/// Pieces of a text that is cut at every `c`.
pub open spec fn split_pieces(text: Seq<char>, c: char) -> Seq<Seq<char>> {
    let (pieces, current) = split_scan(text, c, text.len() as int);
    pieces.push(current)
}

/// Cuts a text at every `c`.
pub fn split_all<'a>(text: &'a str, c: char) -> (pieces: Vec<&'a str>)
    ensures
        pieces@.map_values(|piece: &'a str| piece@) == split_pieces(text@, c),
{
    let list = char_list(text);
    let total: usize = list.len();
    let mut pieces: Vec<&'a str> = Vec::new();
    let mut start: usize = 0;
    let mut i: usize = 0;
    assert(pieces@.map_values(|piece: &'a str| piece@) =~= Seq::<Seq<char>>::empty());
    assert(text@.subrange(0, 0) =~= Seq::<char>::empty());
    while i < total
        invariant
            start <= i <= total,
            total == text@.len(),
            list@ == text@,
            split_scan(text@, c, i as int) == (
                pieces@.map_values(|piece: &'a str| piece@),
                text@.subrange(start as int, i as int),
            ),
        decreases total - i,
    {
        if list[i] == c {
            let piece = text.substring_char(start, i);
            let ghost before = pieces@;
            pieces.push(piece);
            assert(pieces@.map_values(|piece: &'a str| piece@) =~= before.map_values(
                |piece: &'a str| piece@,
            ).push(piece@));
            start = i + 1;
            assert(text@.subrange(start as int, i + 1) =~= Seq::<char>::empty());
        } else {
            assert(text@.subrange(start as int, i as int).push(text@[i as int]) =~= text@.subrange(
                start as int,
                i + 1,
            ));
        }
        i += 1;
    }
    let piece = text.substring_char(start, total);
    let ghost before = pieces@;
    pieces.push(piece);
    assert(pieces@.map_values(|piece: &'a str| piece@) =~= before.map_values(
        |piece: &'a str| piece@,
    ).push(piece@));
    pieces
}

/// Cutting at a token loses nothing and cuts at the first place: the parts and the token
/// between them are the text, and the token stands nowhere before. A text that is not
/// cut holds the token nowhere.
pub proof fn law_split_first_cuts_once(text: Seq<char>, token: Seq<char>)
    ensures
        match split_first(text, token) {
            Some((before, behind)) => {
                &&& text == before + token + behind
                &&& forall|j: int|
                    0 <= j < before.len() ==> #[trigger] text.subrange(j, j + token.len()) != token
            },
            None => forall|j: int|
                0 <= j && j + token.len() <= text.len() ==> #[trigger] text.subrange(
                    j,
                    j + token.len(),
                ) != token,
        },
{
    lemma_position(text, token, 0);
    if let Some(at) = position_from(text, token, 0) {
        let (before, behind) = split_first(text, token)->Some_0;
        assert(text.subrange(at, at + token.len()) == token);
        assert(text =~= before + text.subrange(at, at + token.len()) + behind);
        assert forall|j: int| 0 <= j < before.len() implies #[trigger] text.subrange(
            j,
            j + token.len(),
        ) != token by {
            assert(!occurs_at(text, token, j));
        }
    } else {
        assert forall|j: int| 0 <= j && j + token.len() <= text.len() implies #[trigger] text.subrange(
            j,
            j + token.len(),
        ) != token by {
            assert(!occurs_at(text, token, j));
        }
    }
}

/// A token is found again where it was written: when it stands nowhere earlier in the
/// text, the cut gives back what was written before and behind it.
pub proof fn law_split_first_finds_the_token(
    before: Seq<char>,
    token: Seq<char>,
    behind: Seq<char>,
)
    requires
        forall|j: int|
            0 <= j < before.len() ==> #[trigger] (before + token + behind).subrange(
                j,
                j + token.len(),
            ) != token,
    ensures
        split_first(before + token + behind, token) == Some((before, behind)),
{
    let text = before + token + behind;
    let at = before.len() as int;
    law_split_first_cuts_once(text, token);
    assert(text.subrange(at, at + token.len()) =~= token);
    let (left, right) = split_first(text, token)->Some_0;
    if left.len() < at {
        assert(text.subrange(left.len() as int, (left.len() + token.len()) as int) =~= token);
    }
    assert(left.len() == at);
    assert(left =~= text.take(at));
    assert(before =~= text.take(at));
    assert(right =~= text.skip(at + token.len()));
    assert(behind =~= text.skip(at + token.len()));
}

/// Cutting at the last `c` loses nothing: the parts with `c` between them are the text,
/// and `c` does not occur behind the cut. A text that is not cut does not hold `c`.
pub proof fn law_split_last_cuts_once(text: Seq<char>, c: char)
    ensures
        match split_last(text, c) {
            Some((before, behind)) => text == before.push(c) + behind && !behind.contains(c),
            None => !text.contains(c),
        },
{
    lemma_last(text, c, text.len() as int);
    if let Some((before, behind)) = split_last(text, c) {
        assert(text =~= before.push(c) + behind);
        assert forall|j: int| 0 <= j < behind.len() implies #[trigger] behind[j] != c by {
            assert(behind[j] == text[before.len() + 1 + j]);
        }
    }
}

/// Trimming takes blanks away at both ends and nothing else: what is left is a part of
/// the text with only blanks before and behind it, and neither begins nor ends with a
/// blank.
pub proof fn law_trimming_takes_only_blanks(text: Seq<char>) -> (cut: (int, int))
    ensures
        0 <= cut.0 <= cut.1 <= text.len(),
        trimmed(text) == text.subrange(cut.0, cut.1),
        forall|i: int| 0 <= i < cut.0 ==> is_blank(#[trigger] text[i]),
        forall|i: int| cut.1 <= i < text.len() ==> is_blank(#[trigger] text[i]),
        trimmed(text).len() > 0 ==> !is_blank(trimmed(text)[0]) && !is_blank(
            trimmed(text).last(),
        ),
{
    let start = lemma_trimmed_start(text);
    let inner = text.skip(start);
    let end = lemma_trimmed_end(inner);
    assert(trimmed(text) =~= text.subrange(start, start + end));
    assert forall|i: int| start + end <= i < text.len() implies is_blank(#[trigger] text[i]) by {
        assert(inner[i - start] == text[i]);
    }
    (start, start + end)
}

proof fn lemma_trimmed_start(text: Seq<char>) -> (start: int)
    ensures
        0 <= start <= text.len(),
        trimmed_start(text) == text.skip(start),
        forall|i: int| 0 <= i < start ==> is_blank(#[trigger] text[i]),
        start < text.len() ==> !is_blank(text[start]),
    decreases text.len(),
{
    if text.len() > 0 && is_blank(text[0]) {
        let rest = text.drop_first();
        let start = lemma_trimmed_start(rest);
        assert(text.skip(start + 1) =~= rest.skip(start));
        assert forall|i: int| 0 <= i < start + 1 implies is_blank(#[trigger] text[i]) by {
            if i > 0 {
                assert(rest[i - 1] == text[i]);
            }
        }
        if start + 1 < text.len() {
            assert(rest[start] == text[start + 1]);
        }
        start + 1
    } else {
        assert(text.skip(0) =~= text);
        0
    }
}

proof fn lemma_trimmed_end(text: Seq<char>) -> (end: int)
    ensures
        0 <= end <= text.len(),
        trimmed_end(text) == text.take(end),
        forall|i: int| end <= i < text.len() ==> is_blank(#[trigger] text[i]),
        end > 0 ==> !is_blank(text[end - 1]),
    decreases text.len(),
{
    if text.len() > 0 && is_blank(text.last()) {
        let rest = text.drop_last();
        let end = lemma_trimmed_end(rest);
        assert(text.take(end) =~= rest.take(end));
        assert forall|i: int| end <= i < text.len() implies is_blank(#[trigger] text[i]) by {
            if i < rest.len() {
                assert(rest[i] == text[i]);
            }
        }
        if end > 0 {
            assert(rest[end - 1] == text[end - 1]);
        }
        end
    } else {
        assert(text.take(text.len() as int) =~= text);
        text.len() as int
    }
}

/// A text without a blank at either end stays as it is.
pub proof fn law_trimmed_text_stays(text: Seq<char>)
    requires
        text.len() > 0 ==> !is_blank(text[0]) && !is_blank(text.last()),
    ensures
        trimmed(text) == text,
{
}

/// Blanks around a text do not matter once it is trimmed.
pub proof fn law_trimming_forgets_blanks(before: Seq<char>, text: Seq<char>, behind: Seq<char>)
    requires
        forall|i: int| 0 <= i < before.len() ==> is_blank(#[trigger] before[i]),
        forall|i: int| 0 <= i < behind.len() ==> is_blank(#[trigger] behind[i]),
        text.len() > 0 ==> !is_blank(text[0]) && !is_blank(text.last()),
    ensures
        trimmed(before + text + behind) == text,
{
    let whole = before + text + behind;
    let (start, end) = law_trimming_takes_only_blanks(whole);
    let first = before.len() as int;
    let last = first + text.len();
    if text.len() > 0 {
        assert(whole[first] == text[0]);
        assert(whole[last - 1] == text.last());
        assert(start <= first && last <= end);
        assert(trimmed(whole).len() > 0);
        assert(trimmed(whole)[0] == whole[start]);
        assert(trimmed(whole).last() == whole[end - 1]);
        if start < first {
            assert(before[start] == whole[start]);
        }
        if end > last {
            assert(behind[end - 1 - last] == whole[end - 1]);
        }
        assert(whole.subrange(first, last) =~= text);
    } else {
        if start < end {
            assert(trimmed(whole)[0] == whole[start]);
            if start < first {
                assert(before[start] == whole[start]);
            } else {
                assert(behind[start - last] == whole[start]);
            }
        }
        assert(trimmed(whole) =~= text);
    }
}

/// Which ASCII characters are blanks: the space, and tab to carriage return.
pub proof fn law_ascii_blanks(c: char)
    requires
        (c as u32) < 128,
    ensures
        is_blank(c) <==> c == ' ' || '\t' <= c <= '\r',
{
    vstd::utf8::char_u32_cast(c, c as u32);
}

/// Replacing goes from left to right and touches nothing but the pattern: a text that
/// does not hold it stays, and otherwise what stands before its first occurrence is kept,
/// the occurrence is replaced, and the rest is treated the same way.
pub proof fn law_replacing_goes_left_to_right(
    text: Seq<char>,
    pattern: Seq<char>,
    with: Seq<char>,
    at: int,
)
    requires
        pattern.len() > 0,
        forall|j: int|
            0 <= j < at && j + pattern.len() <= text.len() ==> #[trigger] text.subrange(
                j,
                j + pattern.len(),
            ) != pattern,
        at == text.len() || (0 <= at && at + pattern.len() <= text.len() && text.subrange(
            at,
            at + pattern.len(),
        ) == pattern),
    ensures
        at == text.len() ==> replaced(text, pattern, with) == text,
        at < text.len() ==> replaced(text, pattern, with) == text.take(at) + with + replaced(
            text.skip(at + pattern.len()),
            pattern,
            with,
        ),
{
    lemma_position(text, pattern, 0);
    if at < text.len() {
        assert(occurs_at(text, pattern, at));
        if let Some(p) = position_from(text, pattern, 0) {
            if p < at {
                assert(text.subrange(p, p + pattern.len()) == pattern);
            }
        }
    } else {
        if let Some(p) = position_from(text, pattern, 0) {
            assert(text.subrange(p, p + pattern.len()) == pattern);
        }
    }
}

/// The pieces of a text are what stands between the cuts: no piece holds the cut
/// character, and the pieces with that character between neighbours are the text.
pub proof fn law_pieces_join_to_the_text(text: Seq<char>, c: char)
    ensures
        split_pieces(text, c).len() > 0,
        forall|i: int|
            0 <= i < split_pieces(text, c).len() ==> !#[trigger] split_pieces(text, c)[i].contains(
                c,
            ),
        joined(split_pieces(text, c), seq![c]) == text,
{
    lemma_split_scan(text, c, text.len() as int);
    assert(text.take(text.len() as int) =~= text);
}

proof fn lemma_split_scan(text: Seq<char>, c: char, n: int)
    requires
        0 <= n <= text.len(),
    ensures
        ({
            let (pieces, current) = split_scan(text, c, n);
            let all = pieces.push(current);
            &&& forall|i: int| 0 <= i < all.len() ==> !#[trigger] all[i].contains(c)
            &&& joined(all, seq![c]) == text.take(n)
        }),
    decreases n,
{
    if n > 0 {
        lemma_split_scan(text, c, n - 1);
        let (pieces, current) = split_scan(text, c, n - 1);
        let all = pieces.push(current);
        let (later, open) = split_scan(text, c, n);
        let next = later.push(open);
        let k = pieces.len() as int;
        assert(text.take(n) =~= text.take(n - 1).push(text[n - 1]));
        assert forall|i: int| 0 <= i < next.len() implies !#[trigger] next[i].contains(c) by {
            if i < k {
                assert(next[i] == all[i]);
            } else if i == k {
                assert(!all[k].contains(c));
                if text[n - 1] != c {
                    assert forall|j: int| 0 <= j < open.len() implies #[trigger] open[j] != c by {
                        if j < current.len() {
                            assert(current[j] == open[j]);
                            assert(current.contains(current[j]));
                        }
                    }
                }
            }
        }
        if text[n - 1] == c {
            lemma_joined_prefix(next, all, seq![c], k + 1);
            assert(joined(next, seq![c]) == joined_first(next, seq![c], k + 1) + seq![c]
                + Seq::<char>::empty());
            assert(joined_first(next, seq![c], k + 1) == joined(all, seq![c]));
        } else {
            lemma_joined_prefix(next, all, seq![c], k);
            if k > 0 {
                assert(joined(next, seq![c]) == joined_first(next, seq![c], k) + seq![c] + open);
                assert(joined(all, seq![c]) == joined_first(all, seq![c], k) + seq![c] + current);
                assert(joined_first(all, seq![c], k) + seq![c] + current.push(text[n - 1])
                    =~= (joined_first(all, seq![c], k) + seq![c] + current).push(text[n - 1]));
            }
        }
    } else {
        assert(text.take(0) =~= Seq::<char>::empty());
    }
}

proof fn lemma_joined_prefix(a: Seq<Seq<char>>, b: Seq<Seq<char>>, separator: Seq<char>, count: int)
    requires
        count <= a.len(),
        count <= b.len(),
        forall|i: int| 0 <= i < count ==> #[trigger] a[i] == b[i],
    ensures
        joined_first(a, separator, count) == joined_first(b, separator, count),
    decreases count,
{
    if count > 0 {
        lemma_joined_prefix(a, b, separator, count - 1);
        assert(a[0] == b[0] && a[count - 1] == b[count - 1]);
    }
}

/// Joining nothing gives nothing, one text joins to itself, and one more text stands
/// behind a separator at the end.
pub proof fn law_joining_appends(parts: Seq<Seq<char>>, part: Seq<char>, separator: Seq<char>)
    ensures
        joined(Seq::empty(), separator) == Seq::<char>::empty(),
        joined(seq![part], separator) == part,
        parts.len() > 0 ==> joined(parts.push(part), separator) == joined(parts, separator)
            + separator + part,
{
    lemma_joined_prefix(parts.push(part), parts, separator, parts.len() as int);
    assert(seq![part][0] == part);
}

/// Lower case moves the 26 capital letters onto the small ones, 32 code points up, and
/// leaves every other character in its place.
pub proof fn law_lower_case_moves_capitals(text: Seq<char>, i: int)
    requires
        0 <= i < text.len(),
    ensures
        lowered(text).len() == text.len(),
        0x41 <= text[i] as u32 <= 0x5a ==> lowered(text)[i] as u32 == text[i] as u32 + 32,
        !(0x41 <= text[i] as u32 <= 0x5a) ==> lowered(text)[i] == text[i],
        lowered(lowered(text)) == lowered(text),
{
    assert forall|c: char| #[trigger] lower_char(lower_char(c)) == lower_char(c) by {}
    assert(lowered(lowered(text)) =~= lowered(text));
}

/// A filled-up text has the width asked for unless it is longer already; it keeps its own
/// characters at the one end, and every other character is the fill.
pub proof fn law_padding_fills_to_width(text: Seq<char>, width: nat, fill: char)
    ensures
        padded_right(text, width, fill).len() == if text.len() > width {
            text.len()
        } else {
            width
        },
        padded_left(text, width, fill).len() == padded_right(text, width, fill).len(),
        padded_right(text, width, fill).take(text.len() as int) == text,
        padded_left(text, width, fill).skip(
            padded_left(text, width, fill).len() - text.len(),
        ) == text,
        forall|i: int|
            text.len() <= i < padded_right(text, width, fill).len() ==> #[trigger] padded_right(
                text,
                width,
                fill,
            )[i] == fill,
        forall|i: int|
            0 <= i < padded_left(text, width, fill).len() - text.len()
                ==> #[trigger] padded_left(text, width, fill)[i] == fill,
{
    assert(padded_right(text, width, fill).take(text.len() as int) =~= text);
    assert(padded_left(text, width, fill).skip(padded_left(text, width, fill).len() - text.len())
        =~= text);
}

/// Dictionary order looks at the first place where two texts differ: the smaller code
/// point comes first there, and a text comes before every longer text that begins with
/// it.
pub proof fn law_first_difference_decides(a: Seq<char>, b: Seq<char>, at: int)
    requires
        0 <= at <= a.len(),
        at <= b.len(),
        a.take(at) == b.take(at),
    ensures
        at < a.len() && at < b.len() && a[at] as u32 != b[at] as u32 ==> (precedes(a, b) <==> (
        a[at] as u32) < (b[at] as u32)),
        at == a.len() && at < b.len() ==> precedes(a, b),
        at == b.len() ==> !precedes(a, b),
    decreases at,
{
    if at > 0 {
        assert(a[0] == a.take(at)[0] && b[0] == b.take(at)[0]);
        assert(a.drop_first().take(at - 1) =~= a.take(at).drop_first());
        assert(b.drop_first().take(at - 1) =~= b.take(at).drop_first());
        law_first_difference_decides(a.drop_first(), b.drop_first(), at - 1);
    }
}

/// Decimal digits have their place value: one more digit at the end makes ten times the
/// number plus the digit.
pub proof fn law_digits_have_place_value(digits: Seq<char>, digit: nat)
    requires
        digit < 10,
    ensures
        digits_value(Seq::empty()) == 0,
        digits_value(digits.push((0x30 + digit) as char)) == 10 * digits_value(digits) + digit,
{
    let more = digits.push((0x30 + digit) as char);
    assert(more.drop_last() =~= digits);
    let code = (0x30 + digit) as u32;
    assert(more.last() as u32 == code);
}

/// Reading undoes writing: the decimal text of a number is read as that number up to the
/// limit, with a plus sign before it or without, and as no number above it.
pub proof fn law_reading_undoes_writing(value: nat, limit: nat)
    ensures
        number_in(decimal_text(value), limit) == if value <= limit {
            Some(value)
        } else {
            None
        },
        number_in(seq!['+'] + decimal_text(value), limit) == number_in(decimal_text(value), limit),
{
    lemma_decimal_digits(value);
    let text = decimal_text(value);
    let signed = seq!['+'] + text;
    assert(signed.drop_first() =~= text);
    assert(signed[0] == '+');
    assert(text[0] != '+');
}

/// A decimal text is made of digits, at least one, that stand for the number; its first
/// digit is no zero unless the number is.
pub proof fn lemma_decimal_digits(value: nat)
    ensures
        decimal_text(value).len() > 0,
        all_digits(decimal_text(value)),
        digits_value(decimal_text(value)) == value,
        value > 0 ==> decimal_text(value)[0] != '0',
    decreases value,
{
    let text = decimal_text(value);
    if value < 10 {
        assert(text.drop_last() =~= Seq::<char>::empty());
        assert(digits_value(text.drop_last()) == 0);
        assert(text.last() == digit_char(value));
    } else {
        lemma_decimal_digits(value / 10);
        let rest = decimal_text(value / 10);
        assert(text.drop_last() =~= rest);
        assert forall|i: int| 0 <= i < text.len() implies '0' <= #[trigger] text[i] && text[i]
            <= '9' by {
            if i < rest.len() {
                assert(text[i] == rest[i]);
            }
        }
        assert(text[0] == rest[0]);
    }
}

/// What is read as a number is made of digits behind at most one plus sign.
pub proof fn law_only_digits_are_numbers(text: Seq<char>, limit: nat, i: int)
    requires
        number_in(text, limit) is Some,
        0 <= i < text.len(),
    ensures
        number_in(text, limit)->Some_0 <= limit,
        ('0' <= text[i] && text[i] <= '9') || (i == 0 && text[i] == '+' && text.len() > 1),
{
    if text.len() > 1 && text[0] == '+' && i > 0 {
        assert(text.drop_first()[i - 1] == text[i]);
    }
}

/// A pattern is found exactly in the texts that are made of it and something before and
/// behind it.
pub proof fn law_found_patterns_are_parts(text: Seq<char>, pattern: Seq<char>)
    ensures
        position_from(text, pattern, 0) is Some <==> exists|before: Seq<char>, behind: Seq<char>|
            text == #[trigger] (before + pattern + behind),
{
    lemma_position(text, pattern, 0);
    if let Some(at) = position_from(text, pattern, 0) {
        let before = text.take(at);
        let behind = text.skip(at + pattern.len());
        assert(text.subrange(at, at + pattern.len()) == pattern);
        assert(text =~= before + text.subrange(at, at + pattern.len()) + behind);
        assert(text == before + pattern + behind);
    }
    if exists|before: Seq<char>, behind: Seq<char>| text == #[trigger] (before + pattern + behind) {
        let (before, behind) = choose|before: Seq<char>, behind: Seq<char>|
            text == #[trigger] (before + pattern + behind);
        let at = before.len() as int;
        assert(text.subrange(at, at + pattern.len()) =~= pattern);
        assert(occurs_at(text, pattern, at));
    }
}

/// A text starts with another exactly when something stands behind it that completes it.
pub proof fn law_prefixes_begin_texts(prefix: Seq<char>, rest: Seq<char>, text: Seq<char>)
    ensures
        has_prefix(prefix + rest, prefix),
        has_prefix(text, prefix) ==> text == prefix + text.skip(prefix.len() as int),
{
    assert((prefix + rest).subrange(0, prefix.len() as int) =~= prefix);
    if has_prefix(text, prefix) {
        assert(text.subrange(0, prefix.len() as int) == prefix);
        assert(text =~= text.subrange(0, prefix.len() as int) + text.skip(prefix.len() as int));
    }
}

/// Pieces are cut one by one: a text without the cut character is one piece, and what
/// follows one more cut character is one more piece.
pub proof fn law_pieces_are_cut_one_by_one(text: Seq<char>, c: char, piece: Seq<char>)
    requires
        !piece.contains(c),
    ensures
        split_pieces(piece, c) == seq![piece],
        split_pieces(text.push(c) + piece, c) == split_pieces(text, c).push(piece),
{
    let whole = text.push(c) + piece;
    let cut = text.len() as int + 1;
    lemma_scan_prefix(whole, text, c, text.len() as int);
    let first = split_pieces(text, c);
    assert(split_scan(whole, c, cut) == (first, Seq::<char>::empty()));
    lemma_scan_piece(whole, c, cut, piece, piece.len() as int);
    assert(piece.take(piece.len() as int) =~= piece);
    lemma_scan_piece(piece, c, 0, piece, piece.len() as int);
    assert(Seq::<Seq<char>>::empty().push(piece) =~= seq![piece]);
}

proof fn lemma_scan_prefix(a: Seq<char>, b: Seq<char>, c: char, n: int)
    requires
        n <= a.len(),
        n <= b.len(),
        forall|i: int| 0 <= i < n ==> #[trigger] a[i] == b[i],
    ensures
        split_scan(a, c, n) == split_scan(b, c, n),
    decreases n,
{
    if n > 0 {
        lemma_scan_prefix(a, b, c, n - 1);
        assert(a[n - 1] == b[n - 1]);
    }
}

/// A piece without the cut character stays open.
proof fn lemma_scan_piece(text: Seq<char>, c: char, cut: int, piece: Seq<char>, n: int)
    requires
        0 <= cut,
        0 <= n <= piece.len(),
        cut + piece.len() <= text.len(),
        !piece.contains(c),
        split_scan(text, c, cut).1 == Seq::<char>::empty(),
        forall|i: int| 0 <= i < piece.len() ==> text[cut + i] == #[trigger] piece[i],
    ensures
        split_scan(text, c, cut + n) == (split_scan(text, c, cut).0, piece.take(n)),
    decreases n,
{
    if n > 0 {
        lemma_scan_piece(text, c, cut, piece, n - 1);
        assert(text[cut + (n - 1)] == piece[n - 1]);
        assert(piece.contains(piece[n - 1]));
        assert(piece.take(n) =~= piece.take(n - 1).push(piece[n - 1]));
    } else {
        assert(piece.take(0) =~= Seq::<char>::empty());
    }
}

/// Every text of one digit or more is a number, whatever zeros it starts with, as long as
/// it is not above the limit.
pub proof fn law_digit_texts_are_numbers(text: Seq<char>, limit: nat)
    requires
        text.len() > 0,
        forall|i: int| 0 <= i < text.len() ==> '0' <= #[trigger] text[i] && text[i] <= '9',
    ensures
        digits_value(text) <= limit ==> number_in(text, limit) == Some(digits_value(text)),
        digits_value(text) > limit ==> number_in(text, limit) is None,
        digits_value(seq!['0'] + text) == digits_value(text),
    decreases text.len(),
{
    assert(text[0] != '+');
    let longer = seq!['0'] + text;
    assert(longer.drop_last() =~= seq!['0'] + text.drop_last());
    assert(longer.last() == text.last());
    if text.len() == 1 {
        assert(text.drop_last() =~= Seq::<char>::empty());
        assert(longer.drop_last() =~= seq!['0']);
        assert(seq!['0'].drop_last() =~= Seq::<char>::empty());
        assert(digits_value(Seq::<char>::empty()) == 0);
        assert(seq!['0'].last() == '0');
        assert(digits_value(seq!['0']) == 0);
    } else {
        law_digit_texts_are_numbers(text.drop_last(), limit);
    }
}

/// Which characters are blanks.
pub proof fn law_blanks(c: char)
    ensures
        is_blank(c) <==> {
            let code = c as u32;
            ||| code == 0x20 || 0x9 <= code <= 0xd
            ||| code == 0x85 || code == 0xa0
            ||| code == 0x1680 || 0x2000 <= code <= 0x200a
            ||| code == 0x2028 || code == 0x2029 || code == 0x202f || code == 0x205f
            ||| code == 0x3000
        },
{
}

} // verus!
