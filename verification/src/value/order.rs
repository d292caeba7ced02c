//! The order of values: by kind first, and within a kind by what the values
//! hold.

use crate::mapping::Mapping;
use crate::number::{int_order, lemma_number_order_equal, number_order};
use crate::value::model::{values_equal, ValueView};
use crate::value::tagged::TaggedValue;
use crate::value::{lemma_sequence_view, values_view, Value};
use core::cmp::Ordering;
use vstd::prelude::*;

verus! {

/// Where the kind of a value stands among the kinds: null first, then
/// booleans, numbers, strings, sequences, mappings and tagged values.
pub open spec fn kind_rank(v: ValueView) -> int {
    match v {
        ValueView::Null => 0,
        ValueView::Bool(_) => 1,
        ValueView::Number(_) => 2,
        ValueView::String(_) => 3,
        ValueView::Sequence(_) => 4,
        ValueView::Mapping(_) => 5,
        ValueView::Tagged(_, _) => 6,
    }
}

/// The code point of a character.
pub open spec fn char_code(c: char) -> int {
    c as int
}

/// How two texts stand to each other: by the first character in which they
/// differ, and a text that is the front of another stands below it.
pub open spec fn chars_order(a: Seq<char>, b: Seq<char>) -> Ordering
    decreases a.len(),
{
    if a.len() == 0 {
        if b.len() == 0 {
            Ordering::Equal
        } else {
            Ordering::Less
        }
    } else if b.len() == 0 {
        Ordering::Greater
    } else if char_code(a[0]) < char_code(b[0]) {
        Ordering::Less
    } else if char_code(a[0]) > char_code(b[0]) {
        Ordering::Greater
    } else {
        chars_order(a.drop_first(), b.drop_first())
    }
}

/// How two values stand to each other.
///
/// Values of different kinds are ordered by kind. Booleans have `false`
/// below `true`; numbers and strings have their own order; sequences are
/// ordered by the first element in which they differ, and so is a tagged
/// value by its tag and then by what is under it. Two mappings are only
/// comparable where they are equal: the order of their entries does not
/// count, so there is none to order them by.
pub open spec fn values_order(a: ValueView, b: ValueView) -> Option<Ordering>
    decreases a,
{
    if kind_rank(a) != kind_rank(b) {
        Some(int_order(kind_rank(a), kind_rank(b)))
    } else {
        match (a, b) {
            (ValueView::Bool(x), ValueView::Bool(y)) => Some(
                if x == y {
                    Ordering::Equal
                } else if y {
                    Ordering::Less
                } else {
                    Ordering::Greater
                },
            ),
            (ValueView::Number(x), ValueView::Number(y)) => number_order(x, y),
            (ValueView::String(x), ValueView::String(y)) => Some(chars_order(x, y)),
            (ValueView::Sequence(x), ValueView::Sequence(y)) => items_order(x, y),
            (ValueView::Mapping(_), ValueView::Mapping(_)) => if values_equal(a, b) {
                Some(Ordering::Equal)
            } else {
                None
            },
            (ValueView::Tagged(s, x), ValueView::Tagged(t, y)) => match chars_order(s, t) {
                Ordering::Equal => values_order(*x, *y),
                other => Some(other),
            },
            _ => Some(Ordering::Equal),
        }
    }
}

/// How two sequences stand to each other: by the first element in which
/// they differ, and a sequence that is the front of another stands below it.
pub open spec fn items_order(x: Seq<ValueView>, y: Seq<ValueView>) -> Option<Ordering>
    decreases x,
{
    if x.len() == 0 {
        if y.len() == 0 {
            Some(Ordering::Equal)
        } else {
            Some(Ordering::Less)
        }
    } else if y.len() == 0 {
        Some(Ordering::Greater)
    } else {
        match values_order(x[0], y[0]) {
            Some(Ordering::Equal) => items_order(x.drop_first(), y.drop_first()),
            other => other,
        }
    }
}

/// `str`'s `cmp`: strings are ordered by their bytes, which orders them by
/// their characters' code points.
#[verifier::external_body]
fn str_order(a: &str, b: &str) -> (r: Ordering)
    ensures
        r == chars_order(a@, b@),
{
    a.cmp(b)
}

/// Sequences that agree in their first `n` elements stand to each other as
/// what follows those does.
proof fn lemma_items_order_skip(x: Seq<ValueView>, y: Seq<ValueView>, n: int)
    requires
        0 <= n <= x.len(),
        n <= y.len(),
        forall|i: int| 0 <= i < n ==> values_order(#[trigger] x[i], y[i]) == Some(Ordering::Equal),
    ensures
        items_order(x, y) == items_order(x.skip(n), y.skip(n)),
    decreases n,
{
    if n == 0 {
        assert(x.skip(0) =~= x);
        assert(y.skip(0) =~= y);
    } else {
        let xs = x.drop_first();
        let ys = y.drop_first();
        assert forall|i: int| 0 <= i < n - 1 implies values_order(#[trigger] xs[i], ys[i]) == Some(
            Ordering::Equal,
        ) by {
            assert(xs[i] == x[i + 1]);
            assert(ys[i] == y[i + 1]);
        }
        lemma_items_order_skip(xs, ys, n - 1);
        assert(xs.skip(n - 1) =~= x.skip(n));
        assert(ys.skip(n - 1) =~= y.skip(n));
        assert(values_order(x[0], y[0]) == Some(Ordering::Equal));
    }
}

/// Two texts compare as equal exactly when they are the same.
pub proof fn lemma_chars_order_equal(a: Seq<char>, b: Seq<char>)
    ensures
        chars_order(a, b) == Ordering::Equal <==> a == b,
    decreases a.len(),
{
    if a.len() > 0 && b.len() > 0 {
        lemma_chars_order_equal(a.drop_first(), b.drop_first());
        if char_code(a[0]) == char_code(b[0]) && a.drop_first() == b.drop_first() {
            assert(a =~= seq![a[0]] + a.drop_first());
            assert(b =~= seq![b[0]] + b.drop_first());
        }
    } else if a.len() == 0 && b.len() == 0 {
        assert(a =~= b);
    }
}

/// Two values compare as equal exactly when they are equal.
pub proof fn lemma_order_equal(a: Value, b: Value)
    ensures
        values_order(a@, b@) == Some(Ordering::Equal) <==> values_equal(a@, b@),
    decreases a,
{
    match (a, b) {
        (Value::Number(x), Value::Number(y)) => {
            lemma_number_order_equal(x, y);
        },
        (Value::String(x), Value::String(y)) => {
            lemma_chars_order_equal(x@, y@);
        },
        (Value::Sequence(x), Value::Sequence(y)) => {
            lemma_sequence_view(x);
            lemma_sequence_view(y);
            lemma_items_order_equal(x@, y@);
        },
        (Value::Tagged(x), Value::Tagged(y)) => {
            lemma_chars_order_equal(x.tag@, y.tag@);
            lemma_order_equal(x.value, y.value);
        },
        _ => {},
    }
}

/// Two sequences compare as equal exactly when they are as long as each
/// other and equal element by element.
pub proof fn lemma_items_order_equal(x: Seq<Value>, y: Seq<Value>)
    ensures
        items_order(values_view(x), values_view(y)) == Some(Ordering::Equal) <==> (x.len()
            == y.len() && forall|i: int|
            0 <= i < x.len() ==> values_equal(#[trigger] values_view(x)[i], values_view(y)[i])),
    decreases x,
{
    let xs = values_view(x);
    let ys = values_view(y);
    if x.len() > 0 && y.len() > 0 {
        lemma_order_equal(x[0], y[0]);
        lemma_items_order_equal(x.drop_first(), y.drop_first());
        let xt = values_view(x.drop_first());
        let yt = values_view(y.drop_first());
        assert(xs.drop_first() =~= xt);
        assert(ys.drop_first() =~= yt);
        assert(xs[0] == x[0]@);
        assert(ys[0] == y[0]@);
        if x.len() == y.len() && forall|i: int|
            0 <= i < x.len() ==> values_equal(#[trigger] xs[i], ys[i]) {
            assert forall|i: int| 0 <= i < xt.len() implies values_equal(#[trigger] xt[i], yt[i]) by {
                assert(xt[i] == xs[i + 1]);
                assert(yt[i] == ys[i + 1]);
            }
        }
        if items_order(xs, ys) == Some(Ordering::Equal) {
            assert forall|i: int| 0 <= i < x.len() implies values_equal(#[trigger] xs[i], ys[i]) by {
                if i > 0 {
                    assert(xt[i - 1] == xs[i]);
                    assert(yt[i - 1] == ys[i]);
                }
            }
        }
    }
}

/// How two values stand to each other.
pub fn value_order(a: &Value, b: &Value) -> (r: Option<Ordering>)
    ensures
        r == values_order(a@, b@),
    decreases *a,
{
    match (a, b) {
        (Value::Null, Value::Null) => Some(Ordering::Equal),
        (Value::Bool(x), Value::Bool(y)) => if *x == *y {
            Some(Ordering::Equal)
        } else if *y {
            Some(Ordering::Less)
        } else {
            Some(Ordering::Greater)
        },
        (Value::Number(x), Value::Number(y)) => x.partial_cmp(y),
        (Value::String(x), Value::String(y)) => Some(str_order(x.as_str(), y.as_str())),
        (Value::Sequence(x), Value::Sequence(y)) => {
            let ghost xs = values_view(x@);
            let ghost ys = values_view(y@);
            proof {
                lemma_sequence_view(*x);
                lemma_sequence_view(*y);
            }
            let mut i: usize = 0;
            let ghost mut n: int = 0;
            while i < x.len() && i < y.len()
                invariant
                    n == i,
                    i <= x.len(),
                    i <= y.len(),
                    *a is Sequence,
                    a->Sequence_0 == *x,
                    xs == values_view(x@),
                    ys == values_view(y@),
                    a@ == ValueView::Sequence(xs),
                    b@ == ValueView::Sequence(ys),
                    forall|j: int|
                        0 <= j < i ==> values_order(#[trigger] xs[j], ys[j]) == Some(
                            Ordering::Equal,
                        ),
                decreases x.len() - i,
            {
                let step = value_order(&x[i], &y[i]);
                match step {
                    Some(Ordering::Equal) => {},
                    _ => {
                        proof {
                            lemma_items_order_skip(xs, ys, n);
                            assert(xs.skip(n).len() > 0 && ys.skip(n).len() > 0);
                            assert(xs.skip(n)[0] == x[n]@);
                            assert(ys.skip(n)[0] == y[n]@);
                            assert(items_order(xs.skip(n), ys.skip(n)) == step);
                        }
                        return step;
                    },
                }
                i += 1;
                proof {
                    n = n + 1;
                }
            }
            proof {
                lemma_items_order_skip(xs, ys, n);
            }
            if i < y.len() {
                Some(Ordering::Less)
            } else if i < x.len() {
                Some(Ordering::Greater)
            } else {
                Some(Ordering::Equal)
            }
        },
        (Value::Mapping(x), Value::Mapping(y)) => if x.equals(y) {
            Some(Ordering::Equal)
        } else {
            None
        },
        (Value::Tagged(x), Value::Tagged(y)) => match str_order(x.tag.as_str(), y.tag.as_str()) {
            Ordering::Equal => value_order(&x.value, &y.value),
            other => Some(other),
        },
        _ => {
            let left = kind_index(a);
            let right = kind_index(b);
            if left < right {
                Some(Ordering::Less)
            } else {
                Some(Ordering::Greater)
            }
        },
    }
}

/// Where the kind of a value stands among the kinds.
fn kind_index(v: &Value) -> (rank: u8)
    ensures
        rank == kind_rank(v@),
{
    match v {
        Value::Null => 0,
        Value::Bool(_) => 1,
        Value::Number(_) => 2,
        Value::String(_) => 3,
        Value::Sequence(_) => 4,
        Value::Mapping(_) => 5,
        Value::Tagged(_) => 6,
    }
}

impl PartialOrd for Value {
    fn partial_cmp(&self, other: &Value) -> (r: Option<Ordering>) {
        value_order(self, other)
    }
}

impl vstd::std_specs::cmp::PartialOrdSpecImpl for Value {
    open spec fn obeys_partial_cmp_spec() -> bool {
        true
    }

    open spec fn partial_cmp_spec(&self, other: &Value) -> Option<Ordering> {
        values_order(self@, other@)
    }
}

impl PartialOrd for Mapping {
    /// Two mappings are only comparable where they are equal.
    fn partial_cmp(&self, other: &Mapping) -> (r: Option<Ordering>) {
        if self.equals(other) {
            Some(Ordering::Equal)
        } else {
            None
        }
    }
}

impl vstd::std_specs::cmp::PartialOrdSpecImpl for Mapping {
    open spec fn obeys_partial_cmp_spec() -> bool {
        true
    }

    open spec fn partial_cmp_spec(&self, other: &Mapping) -> Option<Ordering> {
        values_order(ValueView::Mapping(self@), ValueView::Mapping(other@))
    }
}

impl PartialOrd for TaggedValue {
    /// By the tag, and then by the value.
    fn partial_cmp(&self, other: &TaggedValue) -> (r: Option<Ordering>) {
        match str_order(self.tag.as_str(), other.tag.as_str()) {
            Ordering::Equal => value_order(&self.value, &other.value),
            other_order => Some(other_order),
        }
    }
}

impl vstd::std_specs::cmp::PartialOrdSpecImpl for TaggedValue {
    open spec fn obeys_partial_cmp_spec() -> bool {
        true
    }

    open spec fn partial_cmp_spec(&self, other: &TaggedValue) -> Option<Ordering> {
        match chars_order(self.tag@, other.tag@) {
            Ordering::Equal => values_order(self.value@, other.value@),
            other_order => Some(other_order),
        }
    }
}

} // verus!
