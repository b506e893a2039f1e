//! Metric outputs as gates and reports read them.

use crate::strings::{
    comes_before, lemma_precedes_total, lemma_precedes_transitive, precedes,
};
use crate::text::same_text;
use vstd::prelude::*;

verus! {

/// Sign bit of a binary64 pattern.
pub const SIGN: u64 = 0x8000_0000_0000_0000;

/// Bit pattern of positive infinity; larger magnitudes are not numbers.
pub const INFINITY: u64 = 0x7ff0_0000_0000_0000;

/// How two scores compare.
#[derive(Debug, Clone, Copy, PartialEq, Eq, Structural)]
pub enum Comparison {
    /// The first is smaller.
    Less,
    /// Both are equal.
    Equal,
    /// The first is larger.
    Greater,
    /// One of them is not a number.
    Unordered,
}

/// A metric value, held as the bit pattern of an IEEE 754 binary64 number.
#[derive(Debug, Clone, Copy, PartialEq, Eq, Structural)]
pub struct Score {
    /// The bit pattern.
    pub bits: u64,
}

impl Score {
    /// Distance from zero in representable steps.
    pub open spec fn magnitude(self) -> int {
        if self.bits >= SIGN {
            self.bits - SIGN
        } else {
            self.bits as int
        }
    }

    /// Whether the pattern is not a number.
    pub open spec fn nan(self) -> bool {
        self.magnitude() > INFINITY
    }

    /// Whether the pattern is a finite number.
    pub open spec fn finite(self) -> bool {
        self.magnitude() < INFINITY
    }

    /// Position on the number line: numbers are ordered as their signed
    /// magnitudes, and both zeros stand at the same place.
    pub open spec fn rank(self) -> int {
        if self.bits >= SIGN {
            -self.magnitude()
        } else {
            self.magnitude()
        }
    }

    /// How a score compares with another.
    pub open spec fn compared(self, other: Score) -> Comparison {
        if self.nan() || other.nan() {
            Comparison::Unordered
        } else if self.rank() < other.rank() {
            Comparison::Less
        } else if self.rank() > other.rank() {
            Comparison::Greater
        } else {
            Comparison::Equal
        }
    }

    /// The number zero.
    pub fn zero() -> (score: Self)
        ensures
            score.bits == 0,
    {
        Self { bits: 0 }
    }

    /// The number one.
    pub fn one() -> (score: Self)
        ensures
            score.bits == 0x3ff0_0000_0000_0000,
    {
        Self { bits: 0x3ff0_0000_0000_0000 }
    }

    /// A score from its bit pattern.
    pub fn from_bits(bits: u64) -> (score: Self)
        ensures
            score.bits == bits,
    {
        Self { bits }
    }

    fn steps(self) -> (steps: u64)
        ensures
            steps == self.magnitude(),
    {
        if self.bits >= SIGN {
            self.bits - SIGN
        } else {
            self.bits
        }
    }

    /// Tells whether the score is not a number.
    pub fn is_nan(self) -> (nan: bool)
        ensures
            nan == self.nan(),
    {
        self.steps() > INFINITY
    }

    /// Tells whether the score is finite.
    pub fn is_finite(self) -> (finite: bool)
        ensures
            finite == self.finite(),
    {
        self.steps() < INFINITY
    }

    /// Tells whether the score is a zero of either sign.
    pub fn is_zero(self) -> (zero: bool)
        ensures
            zero == (self.rank() == 0),
    {
        self.steps() == 0
    }

    /// Compares two scores.
    pub fn compare(self, other: Score) -> (comparison: Comparison)
        ensures
            comparison == self.compared(other),
    {
        if self.is_nan() || other.is_nan() {
            return Comparison::Unordered;
        }
        let negative: bool = self.bits >= SIGN;
        let other_negative: bool = other.bits >= SIGN;
        let steps: u64 = self.steps();
        let other_steps: u64 = other.steps();
        if steps == 0 && other_steps == 0 {
            Comparison::Equal
        } else if negative != other_negative {
            if negative {
                Comparison::Less
            } else {
                Comparison::Greater
            }
        } else if steps == other_steps {
            Comparison::Equal
        } else if (steps < other_steps) != negative {
            Comparison::Less
        } else {
            Comparison::Greater
        }
    }
}

/// Comparing in the other direction mirrors the outcome, a score equals itself
/// unless it is not a number, and the order is transitive.
pub proof fn law_scores_are_ordered(a: Score, b: Score, c: Score)
    ensures
        a.compared(b) is Less <==> b.compared(a) is Greater,
        a.compared(b) is Equal <==> b.compared(a) is Equal,
        a.compared(b) is Unordered <==> b.compared(a) is Unordered,
        a.compared(a) is Equal <==> !a.nan(),
        a.compared(b) is Less && b.compared(c) is Less ==> a.compared(c) is Less,
{
}

/// Scores compare as the numbers whose bit patterns they are: among positive numbers the
/// larger pattern is larger, among negative ones the smaller, every negative number is
/// below every positive one, both zeros are equal, and the patterns behind infinity are
/// not numbers and compare with nothing.
pub proof fn law_scores_follow_their_bits(a: Score, b: Score)
    ensures
        a.nan() <==> a.bits % 0x8000_0000_0000_0000 > 0x7ff0_0000_0000_0000,
        a.finite() <==> a.bits % 0x8000_0000_0000_0000 < 0x7ff0_0000_0000_0000,
        a.compared(b) is Unordered <==> a.bits % 0x8000_0000_0000_0000 > 0x7ff0_0000_0000_0000
            || b.bits % 0x8000_0000_0000_0000 > 0x7ff0_0000_0000_0000,
        a.bits <= 0x7ff0_0000_0000_0000 && b.bits <= 0x7ff0_0000_0000_0000 ==> (a.compared(
            b,
        ) is Less <==> a.bits < b.bits) && (a.compared(b) is Greater <==> a.bits > b.bits),
        0x8000_0000_0000_0000 <= a.bits <= 0xfff0_0000_0000_0000 && 0x8000_0000_0000_0000 <= b.bits
            <= 0xfff0_0000_0000_0000 ==> (a.compared(b) is Less <==> a.bits > b.bits) && (
        a.compared(b) is Greater <==> a.bits < b.bits),
        0x8000_0000_0000_0000 <= a.bits <= 0xfff0_0000_0000_0000 && b.bits
            <= 0x7ff0_0000_0000_0000 ==> if a.bits == 0x8000_0000_0000_0000 && b.bits == 0 {
            a.compared(b) is Equal && b.compared(a) is Equal
        } else {
            a.compared(b) is Less && b.compared(a) is Greater
        },
{
}

/// Interpretation direction for a metric score.
#[derive(Debug, Clone, Copy, PartialEq, Eq, Structural)]
pub enum Direction {
    /// Larger scores are better.
    HigherIsBetter,
    /// Smaller scores are better.
    LowerIsBetter,
    /// The score has no preferred direction.
    Neutral,
}

/// One named detail value of a metric.
#[derive(Debug)]
pub struct MetricDetail {
    /// Detail name.
    pub name: String,
    /// Detail value.
    pub value: Score,
}

/// Detail values by name, kept in dictionary order with every name once.
#[derive(Debug)]
pub struct MetricDetails {
    items: Vec<MetricDetail>,
}

/// Whether names come in dictionary order, each once.
pub open spec fn dictionary_order(names: Seq<Seq<char>>) -> bool {
    forall|i: int, j: int|
        0 <= i < j < names.len() ==> precedes(#[trigger] names[i], #[trigger] names[j])
}

/// Whether `after` holds the names of `before`, in their sequence, and `name` once.
pub open spec fn names_with(before: Seq<Seq<char>>, name: Seq<char>, after: Seq<Seq<char>>) -> bool {
    if before.contains(name) {
        after == before
    } else {
        exists|at: int| 0 <= at <= before.len() && after == #[trigger] before.insert(at, name)
    }
}

impl MetricDetails {
    #[verifier::type_invariant]
    spec fn ordered(self) -> bool {
        sorted(self.items@)
    }

    /// Value of a detail, if it is present.
    pub closed spec fn spec_get(self, name: Seq<char>) -> Option<Score> {
        value_of(self.items@, name)
    }

    /// Names in order.
    pub closed spec fn names(self) -> Seq<Seq<char>> {
        self.items@.map_values(|item: MetricDetail| item.name@)
    }

    /// Creates an empty list.
    pub fn new() -> (details: Self)
        ensures
            forall|name: Seq<char>| #[trigger] details.spec_get(name) is None,
            details.names().len() == 0,
    {
        Self { items: Vec::new() }
    }

    /// Looks a detail up by name.
    pub fn get(&self, name: &str) -> (value: Option<Score>)
        ensures
            value == self.spec_get(name@),
    {
        let mut i: usize = 0;
        assert(self.items@.skip(0) =~= self.items@);
        while i < self.items.len()
            invariant
                i <= self.items.len(),
                value_of(self.items@, name@) == value_of(self.items@.skip(i as int), name@),
            decreases self.items.len() - i,
        {
            assert(self.items@.skip(i as int).drop_first() =~= self.items@.skip(i + 1));
            if same_text(self.items[i].name.as_str(), name) {
                return Some(self.items[i].value);
            }
            i += 1;
        }
        None
    }
}

impl MetricDetails {
    /// Adds a detail, or replaces its value when the name is present.
    pub fn with(self, name: String, value: Score) -> (details: Self)
        ensures
            details.spec_get(name@) == Some(value),
            forall|other: Seq<char>|
                other != name@ ==> #[trigger] details.spec_get(other) == self.spec_get(other),
            names_with(self.names(), name@, details.names()),
            dictionary_order(details.names()),
    {
        proof {
            use_type_invariant(&self);
        }
        let mut items = self.items;
        let ghost before = items@;
        let mut at: usize = 0;
        while at < items.len() && comes_before(items[at].name.as_str(), name.as_str())
            invariant
                at <= items.len(),
                items@ == before,
                forall|j: int| 0 <= j < at ==> precedes(#[trigger] before[j].name@, name@),
            decreases items.len() - at,
        {
            at += 1;
        }
        if at < items.len() && same_text(items[at].name.as_str(), name.as_str()) {
            let old = items.remove(at);
            items.insert(at, MetricDetail { name, value });
            proof {
                let item = items@[at as int];
                assert(items@ =~= before.take(at as int) + seq![item] + before.skip(at + 1));
                assert(before =~= before.take(at as int) + seq![before[at as int]] + before.skip(
                    at + 1,
                ));
                assert forall|other: Seq<char>|
                    value_of(items@, other) == if other == name@ {
                        Some(value)
                    } else {
                        value_of(before, other)
                    } by {
                    lemma_value_parts(before.take(at as int), item, before.skip(at + 1), other);
                    lemma_value_parts(
                        before.take(at as int),
                        before[at as int],
                        before.skip(at + 1),
                        other,
                    );
                    lemma_absent(before.take(at as int), name@);
                }
            }
        } else {
            items.insert(at, MetricDetail { name, value });
            proof {
                let item = items@[at as int];
                assert(items@ =~= before.take(at as int) + seq![item] + before.skip(at as int));
                assert(before =~= before.take(at as int) + before.skip(at as int));
                lemma_sorted_insert(before, at as int, item);
                assert forall|other: Seq<char>|
                    value_of(items@, other) == if other == name@ {
                        Some(value)
                    } else {
                        value_of(before, other)
                    } by {
                    lemma_value_parts(before.take(at as int), item, before.skip(at as int), other);
                    lemma_value_concat(before.take(at as int), before.skip(at as int), other);
                    lemma_absent(before.take(at as int), name@);
                }
            }
        }
        let details = Self { items };
        proof {
            use_type_invariant(&details);
            if at < before.len() && before[at as int].name@ == name@ {
                assert(self.names()[at as int] == name@);
                assert(details.names() =~= self.names());
            } else {
                assert forall|j: int| 0 <= j < self.names().len() implies #[trigger] self.names()[j]
                    != name@ by {
                    lemma_precedes_total(before[j].name@, name@);
                    if j > at {
                        lemma_precedes_total(before[at as int].name@, name@);
                        assert(precedes(before[at as int].name@, before[j].name@));
                    }
                }
                assert(details.names() =~= self.names().insert(at as int, name@));
            }
        }
        details
    }

    /// Number of details.
    pub fn len(&self) -> (count: usize)
        ensures
            count == self.names().len(),
    {
        self.items.len()
    }

    /// The detail at a position of the dictionary order.
    pub fn at(&self, index: usize) -> (item: (&str, Score))
        requires
            index < self.names().len(),
        ensures
            item.0@ == self.names()[index as int],
            self.spec_get(item.0@) == Some(item.1),
            index > 0 ==> precedes(self.names()[index - 1], item.0@),
    {
        proof {
            use_type_invariant(self);
            lemma_sorted_value(self.items@, index as int);
        }
        (self.items[index].name.as_str(), self.items[index].value)
    }
}

/// The names are those of the details that are present.
pub proof fn law_names_are_present(details: MetricDetails, name: Seq<char>)
    ensures
        details.names().contains(name) <==> details.spec_get(name) is Some,
{
    lemma_named(details.items@, name);
    if details.names().contains(name) {
        let at = choose|at: int| 0 <= at < details.names().len() && details.names()[at] == name;
        assert(details.items@[at].name@ == name);
    }
    if details.spec_get(name) is Some {
        let at = choose|at: int|
            0 <= at < details.items@.len() && #[trigger] details.items@[at].name@ == name;
        assert(details.names()[at] == name);
    }
}

/// A value is found exactly when an item has the name.
proof fn lemma_named(items: Seq<MetricDetail>, name: Seq<char>)
    ensures
        value_of(items, name) is Some <==> exists|at: int|
            0 <= at < items.len() && #[trigger] items[at].name@ == name,
    decreases items.len(),
{
    if items.len() > 0 {
        let rest = items.drop_first();
        lemma_named(rest, name);
        if exists|at: int| 0 <= at < items.len() && #[trigger] items[at].name@ == name {
            let at = choose|at: int| 0 <= at < items.len() && #[trigger] items[at].name@ == name;
            if at > 0 {
                assert(rest[at - 1].name@ == name);
            }
        }
        if exists|at: int| 0 <= at < rest.len() && #[trigger] rest[at].name@ == name {
            let at = choose|at: int| 0 <= at < rest.len() && #[trigger] rest[at].name@ == name;
            assert(items[at + 1].name@ == name);
        }
    }
}

/// Looking up in two lists one behind the other.
proof fn lemma_value_concat(a: Seq<MetricDetail>, b: Seq<MetricDetail>, name: Seq<char>)
    ensures
        value_of(a + b, name) == if value_of(a, name) is Some {
            value_of(a, name)
        } else {
            value_of(b, name)
        },
    decreases a.len(),
{
    if a.len() == 0 {
        assert(a + b =~= b);
    } else {
        lemma_value_concat(a.drop_first(), b, name);
        assert((a + b).drop_first() =~= a.drop_first() + b);
    }
}

/// Looking up in a list, an item, and another list.
proof fn lemma_value_parts(
    a: Seq<MetricDetail>,
    item: MetricDetail,
    b: Seq<MetricDetail>,
    name: Seq<char>,
)
    ensures
        value_of(a + seq![item] + b, name) == if value_of(a, name) is Some {
            value_of(a, name)
        } else if item.name@ == name {
            Some(item.value)
        } else {
            value_of(b, name)
        },
{
    lemma_value_concat(a + seq![item], b, name);
    lemma_value_concat(a, seq![item], name);
    reveal_with_fuel(value_of, 2);
    assert(seq![item].drop_first() =~= Seq::<MetricDetail>::empty());
}

/// A name that all items precede is absent.
proof fn lemma_absent(items: Seq<MetricDetail>, name: Seq<char>)
    requires
        forall|j: int| 0 <= j < items.len() ==> precedes(#[trigger] items[j].name@, name),
    ensures
        value_of(items, name) is None,
    decreases items.len(),
{
    if items.len() > 0 {
        lemma_precedes_total(items[0].name@, name);
        assert forall|j: int| 0 <= j < items.drop_first().len() implies precedes(
            #[trigger] items.drop_first()[j].name@,
            name,
        ) by {
            assert(items.drop_first()[j] == items[j + 1]);
        }
        lemma_absent(items.drop_first(), name);
    }
}

/// Inserting before the first item that does not precede keeps the order.
proof fn lemma_sorted_insert(items: Seq<MetricDetail>, at: int, item: MetricDetail)
    requires
        sorted(items),
        0 <= at <= items.len(),
        forall|j: int| 0 <= j < at ==> precedes(#[trigger] items[j].name@, item.name@),
        at < items.len() ==> !precedes(items[at].name@, item.name@) && items[at].name@
            != item.name@,
    ensures
        sorted(items.take(at) + seq![item] + items.skip(at)),
{
    let result = items.take(at) + seq![item] + items.skip(at);
    assert forall|i: int, j: int| 0 <= i < j < result.len() implies precedes(
        #[trigger] result[i].name@,
        #[trigger] result[j].name@,
    ) by {
        if at < items.len() {
            lemma_precedes_total(items[at].name@, item.name@);
        }
        if i == at {
            if j - 1 > at {
                lemma_precedes_transitive(item.name@, items[at].name@, items[j - 1].name@);
            }
        }
    }
}

/// In an ordered list every item is found by its name.
proof fn lemma_sorted_value(items: Seq<MetricDetail>, index: int)
    requires
        sorted(items),
        0 <= index < items.len(),
    ensures
        value_of(items, items[index].name@) == Some(items[index].value),
    decreases items.len(),
{
    if index > 0 {
        lemma_precedes_total(items[0].name@, items[index].name@);
        assert(precedes(items[0].name@, items[index].name@));
        assert forall|i: int, j: int| 0 <= i < j < items.drop_first().len() implies precedes(
            #[trigger] items.drop_first()[i].name@,
            #[trigger] items.drop_first()[j].name@,
        ) by {
            assert(items.drop_first()[i] == items[i + 1]);
            assert(items.drop_first()[j] == items[j + 1]);
        }
        lemma_sorted_value(items.drop_first(), index - 1);
    }
}

/// Result of one metric.
#[derive(Debug)]
pub struct MetricOutput {
    /// Metric name.
    pub name: String,
    /// Score.
    pub score: Score,
    /// Unit of the score.
    pub unit: String,
    /// Interpretation direction.
    pub direction: Direction,
    /// Additional named values.
    pub details: MetricDetails,
}

impl MetricOutput {
    /// Creates an output without details.
    pub fn new(name: String, score: Score, unit: String, direction: Direction) -> (output: Self)
        ensures
            output.name == name,
            output.score == score,
            output.unit == unit,
            output.direction == direction,
            forall|detail: Seq<char>| #[trigger] output.details.spec_get(detail) is None,
            output.details.names().len() == 0,
    {
        Self { name, score, unit, direction, details: MetricDetails::new() }
    }

    /// Adds or replaces a detail.
    pub fn with_detail(self, name: String, value: Score) -> (output: Self)
        ensures
            output.name == self.name,
            output.score == self.score,
            output.unit == self.unit,
            output.direction == self.direction,
            output.details.spec_get(name@) == Some(value),
            forall|other: Seq<char>|
                other != name@ ==> #[trigger] output.details.spec_get(other)
                    == self.details.spec_get(other),
            names_with(self.details.names(), name@, output.details.names()),
            dictionary_order(output.details.names()),
    {
        Self {
            name: self.name,
            score: self.score,
            unit: self.unit,
            direction: self.direction,
            details: self.details.with(name, value),
        }
    }
}

/// Every name comes once, in dictionary order.
spec fn sorted(items: Seq<MetricDetail>) -> bool {
    forall|i: int, j: int|
        0 <= i < j < items.len() ==> precedes(#[trigger] items[i].name@, #[trigger] items[j].name@)
}

/// Value of the first item with a name.
spec fn value_of(items: Seq<MetricDetail>, name: Seq<char>) -> Option<Score>
    decreases items.len(),
{
    if items.len() == 0 {
        None
    } else if items[0].name@ == name {
        Some(items[0].value)
    } else {
        value_of(items.drop_first(), name)
    }
}

/// Adding a name keeps every name and brings no other than the new one, which is there
/// once.
pub proof fn law_names_are_added(
    before: Seq<Seq<char>>,
    name: Seq<char>,
    after: Seq<Seq<char>>,
    other: Seq<char>,
)
    requires
        names_with(before, name, after),
    ensures
        after.contains(other) <==> other == name || before.contains(other),
        before.contains(name) ==> after.len() == before.len(),
        !before.contains(name) ==> after.len() == before.len() + 1,
{
    if !before.contains(name) {
        let at = choose|at: int|
            0 <= at <= before.len() && after == #[trigger] before.insert(at, name);
        assert(after[at] == name);
        if before.contains(other) {
            let i = choose|i: int| 0 <= i < before.len() && before[i] == other;
            if i < at {
                assert(after[i] == other);
            } else {
                assert(after[i + 1] == other);
            }
        }
        if after.contains(other) {
            let i = choose|i: int| 0 <= i < after.len() && after[i] == other;
            if i < at {
                assert(before[i] == other);
            } else if i > at {
                assert(before[i - 1] == other);
            }
        }
    }
}

/// Names in dictionary order come one before the other, each once.
pub proof fn law_ordered_names(names: Seq<Seq<char>>, i: int, j: int)
    requires
        dictionary_order(names),
        0 <= i < j < names.len(),
    ensures
        precedes(names[i], names[j]),
        names[i] != names[j],
{
    lemma_precedes_total(names[i], names[j]);
}

} // verus!
