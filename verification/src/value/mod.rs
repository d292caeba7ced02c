//! The value of a document and its typed accessors.

pub mod equality;
pub mod hash;
pub mod index;
pub mod laws;
pub mod merge;
pub mod model;
pub mod order;
pub mod tagged;
pub mod well_formed;

use crate::mapping::{mapping_view, Mapping};
use crate::value::index::Index;
use crate::number::{canonical_bits, Number, NumberView};
use crate::value::model::{lemma_retag_untag, values_equal, Entries, ValueView};
use crate::value::tagged::TaggedValue;
use vstd::prelude::*;

verus! {

/// Any value of a YAML document.
#[derive(Debug)]
pub enum Value {
    /// The null value.
    Null,
    /// A boolean.
    Bool(bool),
    /// A number, whether integer or floating point.
    Number(Number),
    /// A string.
    String(String),
    /// A sequence of values.
    Sequence(Sequence),
    /// A mapping from values to values.
    Mapping(Mapping),
    /// A value under a `!Tag`.
    Tagged(Box<TaggedValue>),
}

/// A sequence of a document: its elements in order.
pub type Sequence = Vec<Value>;

/// What a value stands for.
pub open spec fn value_view(v: Value) -> ValueView
    decreases v,
{
    match v {
        Value::Null => ValueView::Null,
        Value::Bool(b) => ValueView::Bool(b),
        Value::Number(n) => ValueView::Number(n@),
        Value::String(s) => ValueView::String(s@),
        Value::Sequence(s) => ValueView::Sequence(
            Seq::new(
                s.len() as nat,
                |i: int|
                    if 0 <= i < s.len() {
                        value_view(s[i])
                    } else {
                        ValueView::Null
                    },
            ),
        ),
        Value::Mapping(m) => ValueView::Mapping(mapping_view(m)),
        Value::Tagged(t) => ValueView::Tagged(t.tag@, Box::new(value_view(t.value))),
    }
}

/// What the values of a sequence stand for, one by one.
pub open spec fn values_view(s: Seq<Value>) -> Seq<ValueView> {
    Seq::new(s.len(), |i: int| value_view(s[i]))
}

/// A sequence stands for what its elements stand for.
pub proof fn lemma_sequence_view(items: Vec<Value>)
    ensures
        Value::Sequence(items)@ == ValueView::Sequence(values_view(items@)),
{
    assert(Value::Sequence(items)@->Sequence_0 =~= values_view(items@));
}

/// The name of a kind of value.
pub open spec fn spec_kind_name(v: ValueView) -> Seq<char> {
    match v {
        ValueView::Null => "null"@,
        ValueView::Bool(_) => "boolean"@,
        ValueView::Number(_) => "number"@,
        ValueView::String(_) => "string"@,
        ValueView::Sequence(_) => "sequence"@,
        ValueView::Mapping(_) => "mapping"@,
        ValueView::Tagged(_, _) => "tagged"@,
    }
}

impl View for Value {
    type V = ValueView;

    open spec fn view(&self) -> ValueView {
        value_view(*self)
    }
}

/// Whether two values are equal, tags and all.
pub fn value_eq(a: &Value, b: &Value) -> (r: bool)
    ensures
        r == values_equal(a@, b@),
    decreases *a, 0nat, 0nat,
{
    match (a, b) {
        (Value::Null, Value::Null) => true,
        (Value::Bool(x), Value::Bool(y)) => *x == *y,
        (Value::Number(x), Value::Number(y)) => *x == *y,
        (Value::String(x), Value::String(y)) => *x == *y,
        (Value::Sequence(x), Value::Sequence(y)) => {
            if x.len() != y.len() {
                return false;
            }
            let mut i: usize = 0;
            while i < x.len()
                invariant
                    i <= x.len(),
                    x.len() == y.len(),
                    *a == Value::Sequence(*x),
                    *b == Value::Sequence(*y),
                    forall|j: int| 0 <= j < i ==> values_equal(x[j]@, y[j]@),
                decreases x.len() - i,
            {
                if !value_eq(&x[i], &y[i]) {
                    assert(!values_equal(a@->Sequence_0[i as int], b@->Sequence_0[i as int]));
                    return false;
                }
                i += 1;
            }
            true
        },
        (Value::Mapping(x), Value::Mapping(y)) => x.equals(y),
        (Value::Tagged(x), Value::Tagged(y)) => x.tag == y.tag && value_eq(&x.value, &y.value),
        _ => false,
    }
}

impl Value {
    /// What `index` finds in this value: an element of a sequence by its
    /// position, or a value of a mapping by its key. Tags are looked
    /// through. `None` where the value cannot be indexed so, or holds
    /// nothing there.
    pub fn get<I: Index>(&self, index: I) -> (r: Option<&Value>)
        ensures
            match index.index_view().lookup(self@) {
                Some(found) => r matches Some(x) && x@ == found,
                None => r is None,
            },
    {
        index.index_into(self)
    }

    /// What `index` finds in this value, as `get` does, or a null where it
    /// finds nothing. This is what reading with square brackets gives: it
    /// never faults.
    pub fn get_or_null<I: Index>(&self, index: I) -> (r: &Value)
        ensures
            r@ == match index.index_view().lookup(self@) {
                Some(found) => found,
                None => ValueView::Null,
            },
    {
        match index.index_into(self) {
            Some(found) => found,
            None => &Value::Null,
        }
    }

    /// What `index` finds in this value, to be changed in place; `None` as
    /// for `get`.
    pub fn get_mut<I: Index>(&mut self, index: I) -> (r: Option<&mut Value>)
        ensures
            match index.index_view().slot(old(self)@.untag()) {
                Some(i) => r matches Some(x) && x@ == old(self)@.untag().child(i) && final(self)@
                    == old(self)@.with_slot(i, final(x)@),
                None => r is None && final(self)@ == old(self)@,
            },
            match r {
                Some(x) => old(self)@.well_formed() && final(x)@.well_formed()
                    ==> final(self)@.well_formed(),
                None => true,
            },
    {
        index.index_into_mut(self)
    }

    /// The name of the kind of value that stands under the tags.
    pub fn kind_name(&self) -> (name: &'static str)
        ensures
            name@ == spec_kind_name(self@.untag()),
    {
        match self.untag_ref() {
            Value::Null => "null",
            Value::Bool(_) => "boolean",
            Value::Number(_) => "number",
            Value::String(_) => "string",
            Value::Sequence(_) => "sequence",
            Value::Mapping(_) => "mapping",
            Value::Tagged(_) => "tagged",
        }
    }

    /// Whether the value, under its tags, is null.
    pub fn is_null(&self) -> (b: bool)
        ensures
            b == (self@.untag() is Null),
            b == self.spec_as_null().is_some(),
    {
        if let Value::Null = self.untag_ref() {
            true
        } else {
            false
        }
    }

    /// What `as_null` returns.
    pub open spec fn spec_as_null(&self) -> Option<()> {
        match self@.untag() {
            ValueView::Null => Some(()),
            _ => None,
        }
    }

    /// `()` if the value, under its tags, is null.
    pub fn as_null(&self) -> (r: Option<()>)
        ensures
            r == self.spec_as_null(),
    {
        match self.untag_ref() {
            Value::Null => Some(()),
            _ => None,
        }
    }

    /// Whether the value, under its tags, is a boolean.
    pub fn is_bool(&self) -> (b: bool)
        ensures
            b == (self@.untag() is Bool),
            b == self.spec_as_bool().is_some(),
    {
        self.as_bool().is_some()
    }

    /// What `as_bool` returns.
    pub open spec fn spec_as_bool(&self) -> Option<bool> {
        match self@.untag() {
            ValueView::Bool(b) => Some(b),
            _ => None,
        }
    }

    /// The boolean, if the value, under its tags, is one.
    pub fn as_bool(&self) -> (r: Option<bool>)
        ensures
            r == self.spec_as_bool(),
    {
        match self.untag_ref() {
            Value::Bool(b) => Some(*b),
            _ => None,
        }
    }

    /// Whether the value, under its tags, is a number.
    pub fn is_number(&self) -> (b: bool)
        ensures
            b == (self@.untag() is Number),
    {
        match self.untag_ref() {
            Value::Number(_) => true,
            _ => false,
        }
    }

    /// Whether the value, under its tags, is an integer between `i64::MIN`
    /// and `i64::MAX`.
    pub fn is_i64(&self) -> (b: bool)
        ensures
            b == self.spec_as_i64().is_some(),
    {
        self.as_i64().is_some()
    }

    /// What `as_i64` returns.
    pub open spec fn spec_as_i64(&self) -> Option<i64> {
        match self@.untag() {
            ValueView::Number(NumberView::Int(i)) if i64::MIN <= i <= i64::MAX => Some(i as i64),
            _ => None,
        }
    }

    /// The integer, if the value, under its tags, is one that fits in an
    /// `i64`.
    pub fn as_i64(&self) -> (r: Option<i64>)
        ensures
            r == self.spec_as_i64(),
    {
        match self.untag_ref() {
            Value::Number(n) => n.as_i64(),
            _ => None,
        }
    }

    /// Whether the value, under its tags, is an integer between 0 and
    /// `u64::MAX`.
    pub fn is_u64(&self) -> (b: bool)
        ensures
            b == self.spec_as_u64().is_some(),
    {
        self.as_u64().is_some()
    }

    /// What `as_u64` returns.
    pub open spec fn spec_as_u64(&self) -> Option<u64> {
        match self@.untag() {
            ValueView::Number(NumberView::Int(i)) if 0 <= i <= u64::MAX => Some(i as u64),
            _ => None,
        }
    }

    /// The integer, if the value, under its tags, is one that fits in a
    /// `u64`.
    pub fn as_u64(&self) -> (r: Option<u64>)
        ensures
            r == self.spec_as_u64(),
    {
        match self.untag_ref() {
            Value::Number(n) => n.as_u64(),
            _ => None,
        }
    }

    /// Whether the value, under its tags, is a floating-point number: `true`
    /// exactly where `as_f64_bits` gives the bits of one.
    pub fn is_f64(&self) -> (b: bool)
        ensures
            b == (self@.untag() matches ValueView::Number(n) && n is Float),
            b == self.spec_as_f64_bits().is_some(),
    {
        match self.untag_ref() {
            Value::Number(n) => n.is_f64(),
            _ => false,
        }
    }

    /// What `as_f64_bits` returns.
    pub open spec fn spec_as_f64_bits(&self) -> Option<u64> {
        match self.spec_untag() {
            Value::Number(n) => n.spec_f64_bits(),
            _ => None,
        }
    }

    /// The IEEE 754 bits of the floating-point number, as they were given,
    /// if the value, under its tags, is one. An integer is no
    /// floating-point number.
    pub fn as_f64_bits(&self) -> (r: Option<u64>)
        ensures
            r == self.spec_as_f64_bits(),
            match self@.untag() {
                ValueView::Number(NumberView::Float(c)) => r matches Some(bits) && canonical_bits(
                    bits,
                ) == c,
                _ => r is None,
            },
    {
        match self.untag_ref() {
            Value::Number(n) => n.as_f64_bits(),
            _ => None,
        }
    }

    /// The number, if the value, under its tags, is one.
    pub fn as_number(&self) -> (r: Option<Number>)
        ensures
            match self@.untag() {
                ValueView::Number(n) => r matches Some(x) && x@ == n,
                _ => r is None,
            },
    {
        match self.untag_ref() {
            Value::Number(n) => Some(*n),
            _ => None,
        }
    }

    /// Whether the value, under its tags, is a string.
    pub fn is_string(&self) -> (b: bool)
        ensures
            b == (self@.untag() is String),
            b == self.spec_as_str().is_some(),
    {
        self.as_str().is_some()
    }

    /// The characters of what `as_str` returns.
    pub open spec fn spec_as_str(&self) -> Option<Seq<char>> {
        match self@.untag() {
            ValueView::String(s) => Some(s),
            _ => None,
        }
    }

    /// The string, if the value, under its tags, is one.
    pub fn as_str(&self) -> (r: Option<&str>)
        ensures
            match self.spec_as_str() {
                Some(chars) => r matches Some(s) && s@ == chars,
                None => r is None,
            },
    {
        match self.untag_ref() {
            Value::String(s) => Some(s.as_str()),
            _ => None,
        }
    }

    /// Whether the value, under its tags, is a sequence.
    pub fn is_sequence(&self) -> (b: bool)
        ensures
            b == (self@.untag() is Sequence),
            b == self.spec_as_sequence().is_some(),
    {
        self.as_sequence().is_some()
    }

    /// What the elements of what `as_sequence` returns stand for.
    pub open spec fn spec_as_sequence(&self) -> Option<Seq<ValueView>> {
        match self@.untag() {
            ValueView::Sequence(items) => Some(items),
            _ => None,
        }
    }

    /// The sequence, if the value, under its tags, is one.
    pub fn as_sequence(&self) -> (r: Option<&Sequence>)
        ensures
            match self.spec_as_sequence() {
                Some(items) => r matches Some(s) && values_view(s@) == items,
                None => r is None,
            },
    {
        match self.untag_ref() {
            Value::Sequence(seq) => {
                proof {
                    lemma_sequence_view(*seq);
                }
                Some(seq)
            },
            _ => None,
        }
    }

    /// The sequence, to be changed in place, if the value, under its tags,
    /// is one.
    pub fn as_sequence_mut(&mut self) -> (r: Option<&mut Sequence>)
        ensures
            match old(self).spec_as_sequence() {
                Some(items) => r matches Some(s) && values_view(s@) == items && final(self)@
                    == old(self)@.retag(ValueView::Sequence(values_view(final(s)@))),
                None => r is None && final(self)@ == old(self)@,
            },
    {
        proof {
            lemma_retag_untag(self@);
        }
        match self.untag_mut() {
            Value::Sequence(seq) => {
                proof {
                    lemma_sequence_view(*seq);
                    lemma_sequence_view(*final(seq));
                }
                Some(seq)
            },
            _ => None,
        }
    }

    /// Whether the value, under its tags, is a mapping.
    pub fn is_mapping(&self) -> (b: bool)
        ensures
            b == (self@.untag() is Mapping),
            b == self.spec_as_mapping().is_some(),
    {
        self.as_mapping().is_some()
    }

    /// The entries of what `as_mapping` returns.
    pub open spec fn spec_as_mapping(&self) -> Option<Entries> {
        match self@.untag() {
            ValueView::Mapping(entries) => Some(entries),
            _ => None,
        }
    }

    /// The mapping, if the value, under its tags, is one.
    pub fn as_mapping(&self) -> (r: Option<&Mapping>)
        ensures
            match self.spec_as_mapping() {
                Some(entries) => r matches Some(m) && m@ == entries,
                None => r is None,
            },
    {
        match self.untag_ref() {
            Value::Mapping(map) => Some(map),
            _ => None,
        }
    }

    /// The mapping, to be changed in place, if the value, under its tags, is
    /// one.
    pub fn as_mapping_mut(&mut self) -> (r: Option<&mut Mapping>)
        ensures
            match old(self).spec_as_mapping() {
                Some(entries) => r matches Some(m) && m@ == entries && final(self)@ == old(
                    self,
                )@.retag(ValueView::Mapping(final(m)@)),
                None => r is None && final(self)@ == old(self)@,
            },
    {
        proof {
            lemma_retag_untag(self@);
        }
        match self.untag_mut() {
            Value::Mapping(map) => Some(map),
            _ => None,
        }
    }
}

/// A copy of a value.
pub fn clone_value(v: &Value) -> (copy: Value)
    ensures
        copy@ == v@,
    decreases *v, 0nat,
{
    match v {
        Value::Null => Value::Null,
        Value::Bool(b) => Value::Bool(*b),
        Value::Number(n) => Value::Number(*n),
        Value::String(s) => Value::String(s.clone()),
        Value::Sequence(items) => {
            let mut copy: Vec<Value> = Vec::new();
            let mut i: usize = 0;
            while i < items.len()
                invariant
                    i <= items.len(),
                    copy.len() == i,
                    *v == Value::Sequence(*items),
                    forall|j: int| 0 <= j < i ==> (#[trigger] copy[j])@ == items[j]@,
                decreases items.len() - i,
            {
                assert(v->Sequence_0 == *items);
                let item = clone_value(&items[i]);
                copy.push(item);
                i += 1;
            }
            proof {
                lemma_sequence_view(copy);
                lemma_sequence_view(*items);
                assert(values_view(copy@) =~= values_view(items@));
            }
            Value::Sequence(copy)
        },
        Value::Mapping(m) => Value::Mapping(m.clone_entries()),
        Value::Tagged(t) => Value::Tagged(
            Box::new(TaggedValue { tag: t.tag.clone(), value: clone_value(&t.value) }),
        ),
    }
}

impl Clone for Value {
    fn clone(&self) -> (copy: Value)
        ensures
            copy@ == self@,
    {
        clone_value(self)
    }
}

impl PartialEq for Value {
    fn eq(&self, other: &Value) -> (r: bool) {
        value_eq(self, other)
    }
}

impl vstd::std_specs::cmp::PartialEqSpecImpl for Value {
    open spec fn obeys_eq_spec() -> bool {
        true
    }

    open spec fn eq_spec(&self, other: &Value) -> bool {
        values_equal(self@, other@)
    }
}

impl Eq for Value {

}

impl Default for Value {
    /// The default value is null.
    fn default() -> (v: Value)
        ensures
            v@ == ValueView::Null,
    {
        Value::Null
    }
}

} // verus!
