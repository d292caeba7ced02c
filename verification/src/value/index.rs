//! Indexing into a value by position or by key.

use crate::private::Sealed;
use crate::mapping::Mapping;
use crate::number::{Number, NumberView};
use crate::value::model::{
    entries_or_insert, key_index, lemma_key_index, lemma_retag_retag, lemma_retag_untag,
    lemma_slot_in_range, lemma_untag_retag, IndexView, ValueView,
};
use crate::value::well_formed::{lemma_vivify_well_formed, lemma_with_slot_well_formed};
use crate::value::{lemma_sequence_view, Value};
use vstd::prelude::*;

verus! {

/// A type that can index into a [`Value`]: `usize`, `str`, `String`, `Value`,
/// and references to these.
///
/// The trait is sealed: no type outside this crate can implement it.
pub trait Index: Sealed {
    /// What this index stands for.
    spec fn index_view(&self) -> IndexView;

    /// The value that this index finds in `v`, looking under its tags, or
    /// `None` where it finds nothing.
    fn index_into<'v>(&self, v: &'v Value) -> (r: Option<&'v Value>)
        ensures
            match self.index_view().lookup(v@) {
                Some(found) => r matches Some(x) && x@ == found,
                None => r is None,
            },
    ;

    /// The value that this index finds in `v`, to be changed in place, or
    /// `None` where it finds nothing.
    fn index_into_mut<'v>(&self, v: &'v mut Value) -> (r: Option<&'v mut Value>)
        ensures
            match self.index_view().slot(old(v)@.untag()) {
                Some(i) => r matches Some(x) && x@ == old(v)@.untag().child(i) && final(v)@ == old(
                    v,
                )@.with_slot(i, final(x)@),
                None => r is None && final(v)@ == old(v)@,
            },
            match r {
                Some(x) => old(v)@.well_formed() && final(x)@.well_formed()
                    ==> final(v)@.well_formed(),
                None => true,
            },
    ;

    /// Whether `index_or_insert` may be called with `v`.
    fn can_index_or_insert(&self, v: &Value) -> (b: bool)
        ensures
            b == self.index_view().writable(v@),
    ;

    /// The value that this index names in `v`, to be changed in place.
    ///
    /// The write goes to what stands under the tags of `v`. A key that a
    /// mapping lacks is first inserted with a null value, and a null indexed
    /// by a key first becomes an empty mapping. A sequence never grows: its
    /// position must exist. Nothing else can be written into.
    fn index_or_insert<'v>(&self, v: &'v mut Value) -> (r: &'v mut Value)
        requires
            self.index_view().writable(old(v)@),
        ensures
            ({
                let ready = self.index_view().vivify(old(v)@);
                let i = self.index_view().write_slot(old(v)@);
                &&& ready.untag().has_child(i)
                &&& r@ == ready.untag().child(i)
                &&& final(v)@ == ready.with_slot(i, final(r)@)
            }),
            old(v)@.well_formed() && self.index_view().key().well_formed()
                && final(r)@.well_formed() ==> final(v)@.well_formed(),
    ;
}

/// A key of a mapping as an index holds it: a value, or the text of a string
/// value. These two and a position are all the kinds of index there are.
pub enum Key<'a> {
    /// A value of any kind.
    Value(&'a Value),
    /// The text of a string value.
    Text(&'a str),
}

impl<'a> View for Key<'a> {
    type V = ValueView;

    open spec fn view(&self) -> ValueView {
        match self {
            Key::Value(value) => value@,
            Key::Text(text) => ValueView::String(text@),
        }
    }
}

impl<'a> Key<'a> {
    /// The key as a value of its own.
    pub fn to_value(&self) -> (key: Value)
        ensures
            key@ == self@,
    {
        match self {
            Key::Value(value) => (*value).clone(),
            Key::Text(text) => Value::String((*text).to_owned()),
        }
    }

    /// The position of the key in a mapping.
    pub fn position_in(&self, mapping: &Mapping) -> (r: Option<usize>)
        ensures
            match r {
                Some(i) => i < mapping@.len() && key_index(mapping@, self@) == Some(i as int),
                None => key_index(mapping@, self@) is None,
            },
    {
        match self {
            Key::Value(value) => mapping.position(value),
            Key::Text(text) => mapping.position_str(text),
        }
    }
}

/// A write into a slot of a well-formed value leaves it well formed.
proof fn lemma_slot_write(before: ValueView, after: ValueView, i: int, new: ValueView)
    requires
        before.untag().has_child(i),
        after == before.with_slot(i, new),
    ensures
        before.well_formed() && new.well_formed() ==> after.well_formed(),
{
    if before.well_formed() {
        lemma_with_slot_well_formed(before, i, new);
    }
}

/// A write through an index into a well-formed value leaves it well formed.
proof fn lemma_index_write(index: IndexView, before: ValueView, after: ValueView, new: ValueView)
    requires
        index.vivify(before).untag().has_child(index.write_slot(before)),
        after == index.vivify(before).with_slot(index.write_slot(before), new),
    ensures
        before.well_formed() && index.key().well_formed() && new.well_formed()
            ==> after.well_formed(),
{
    if before.well_formed() && index.key().well_formed() {
        lemma_vivify_well_formed(index, before);
        lemma_with_slot_well_formed(index.vivify(before), index.write_slot(before), new);
    }
}

/// The child in slot `i` of a sequence or mapping.
fn child_ref(target: &Value, i: usize) -> (x: &Value)
    requires
        target@.has_child(i as int),
    ensures
        x@ == target@.child(i as int),
{
    match target {
        Value::Sequence(vec) => &vec[i],
        Value::Mapping(map) => map.value_at(i),
        _ => unreached(),
    }
}

/// The child in slot `i` of a sequence or mapping, to be changed in place.
fn child_mut(target: &mut Value, i: usize) -> (x: &mut Value)
    requires
        old(target)@.has_child(i as int),
    ensures
        x@ == old(target)@.child(i as int),
        final(target)@ == old(target)@.with_child(i as int, final(x)@),
{
    let ghost before = target@;
    let ghost after = final(target)@;
    match target {
        Value::Sequence(vec) => {
            let x = &mut vec[i];
            assert(after->Sequence_0 =~= before->Sequence_0.update(i as int, final(x)@));
            x
        },
        Value::Mapping(map) => map.value_mut_at(i),
        _ => unreached(),
    }
}

/// What stands in a slot of what is under the tags of `v`.
fn slot_into<'v>(v: &'v Value, slot: Option<usize>, Ghost(index): Ghost<IndexView>) -> (r: Option<
    &'v Value,
>)
    requires
        !(v is Tagged),
        match slot {
            Some(i) => index.slot(v@) == Some(i as int),
            None => index.slot(v@) is None,
        },
    ensures
        match index.slot(v@) {
            Some(i) => r matches Some(x) && x@ == v@.child(i),
            None => r is None,
        },
{
    proof {
        lemma_slot_in_range(index, v@);
    }
    match slot {
        Some(i) => Some(child_ref(v, i)),
        None => None,
    }
}

/// What stands in a slot of what is under the tags of `v`, to be changed in
/// place. `v` is what `untag_mut` gave for `whole`.
fn slot_into_mut<'v>(
    v: &'v mut Value,
    slot: Option<usize>,
    Ghost(index): Ghost<IndexView>,
    Ghost(whole): Ghost<ValueView>,
) -> (r: Option<&'v mut Value>)
    requires
        old(v)@ == whole.untag(),
        match slot {
            Some(i) => index.slot(old(v)@) == Some(i as int),
            None => index.slot(old(v)@) is None,
        },
    ensures
        match index.slot(whole.untag()) {
            Some(i) => r matches Some(x) && x@ == whole.untag().child(i) && whole.retag(final(v)@)
                == whole.with_slot(i, final(x)@),
            None => r is None && whole.retag(final(v)@) == whole,
        },
        match r {
            Some(x) => whole.well_formed() && final(x)@.well_formed() ==> whole.retag(
                final(v)@,
            ).well_formed(),
            None => true,
        },
{
    proof {
        lemma_retag_untag(whole);
        lemma_slot_in_range(index, whole.untag());
    }
    let ghost after = final(v)@;
    match slot {
        Some(i) => {
            let x = child_mut(v, i);
            assert(whole.well_formed() && final(x)@.well_formed() ==> whole.retag(
                after,
            ).well_formed()) by {
                lemma_slot_write(whole, whole.retag(after), i as int, final(x)@);
            }
            Some(x)
        },
        None => None,
    }
}

/// The slot of an untagged `target` that the position `n` names.
fn position_slot(n: usize, target: &Value) -> (r: Option<usize>)
    ensures
        match r {
            Some(i) => IndexView::Position(n as int).slot(target@) == Some(i as int),
            None => IndexView::Position(n as int).slot(target@) is None,
        },
{
    match target {
        Value::Sequence(vec) => {
            proof {
                lemma_sequence_view(*vec);
            }
            if n < vec.len() {
                Some(n)
            } else {
                None
            }
        },
        Value::Mapping(map) => map.position(&Value::Number(Number::from_u64(n as u64))),
        _ => None,
    }
}

/// The slot of an untagged `target` that a key names.
fn key_slot(key: &Key<'_>, target: &Value) -> (r: Option<usize>)
    ensures
        match r {
            Some(i) => IndexView::Key(key@).slot(target@) == Some(i as int),
            None => IndexView::Key(key@).slot(target@) is None,
        },
{
    match target {
        Value::Mapping(map) => key.position_in(map),
        _ => None,
    }
}

/// The value under a key of the mapping under the tags of `v`.
fn index_into_mapping<'v>(key: Key<'_>, v: &'v Value) -> (r: Option<&'v Value>)
    ensures
        match IndexView::Key(key@).lookup(v@) {
            Some(found) => r matches Some(x) && x@ == found,
            None => r is None,
        },
{
    let target = v.untag_ref();
    slot_into(target, key_slot(&key, target), Ghost(IndexView::Key(key@)))
}

/// The value under a key of the mapping under the tags of `v`, to be changed
/// in place.
fn index_into_mut_mapping<'v>(key: Key<'_>, v: &'v mut Value) -> (r: Option<&'v mut Value>)
    ensures
        match IndexView::Key(key@).slot(old(v)@.untag()) {
            Some(i) => r matches Some(x) && x@ == old(v)@.untag().child(i) && final(v)@ == old(
                v,
            )@.with_slot(i, final(x)@),
            None => r is None && final(v)@ == old(v)@,
        },
        match r {
            Some(x) => old(v)@.well_formed() && final(x)@.well_formed()
                ==> final(v)@.well_formed(),
            None => true,
        },
{
    let ghost whole = v@;
    let target = v.untag_mut();
    let slot = key_slot(&key, target);
    slot_into_mut(target, slot, Ghost(IndexView::Key(key@)), Ghost(whole))
}

/// Whether a write by a key into `v` is in order.
fn key_writable(v: &Value, Ghost(key): Ghost<ValueView>) -> (b: bool)
    ensures
        b == IndexView::Key(key).writable(v@),
{
    match v.untag_ref() {
        Value::Mapping(_) => true,
        Value::Null => true,
        _ => false,
    }
}

/// The value under a key of the mapping that stands under the tags of `v`.
/// A null under the tags first becomes an empty mapping, and the key is
/// inserted with a null value where the mapping lacks it.
fn index_or_insert_mapping<'v>(key: Key<'_>, v: &'v mut Value) -> (r: &'v mut Value)
    requires
        IndexView::Key(key@).writable(old(v)@),
    ensures
        ({
            let index = IndexView::Key(key@);
            let ready = index.vivify(old(v)@);
            let i = index.write_slot(old(v)@);
            &&& ready.untag().has_child(i)
            &&& r@ == ready.untag().child(i)
            &&& final(v)@ == ready.with_slot(i, final(r)@)
        }),
        old(v)@.well_formed() && key@.well_formed() && final(r)@.well_formed() ==> final(v)@.well_formed(),
{
    let ghost index = IndexView::Key(key@);
    let ghost first = v@;
    let ghost last = final(v)@;
    let target = v.untag_mut();
    let ghost inner_after = final(target)@;
    if let Value::Null = target {
        *target = Value::Mapping(Mapping::new());
    }
    match target {
        Value::Mapping(map) => {
            let ghost entries = map@;
            let r = map.or_insert(key.to_value(), Value::Null);
            proof {
                let ready = ValueView::Mapping(entries_or_insert(entries, key@, ValueView::Null));
                lemma_untag_retag(first, ready);
                lemma_retag_retag(first, ready, inner_after);
                if first.untag() is Null {
                    lemma_key_index(entries, key@);
                    assert(entries_or_insert(entries, key@, ValueView::Null) =~= seq![
                        (key@, ValueView::Null),
                    ]);
                }
            }
            assert(first.well_formed() && index.key().well_formed() && final(r)@.well_formed()
                ==> last.well_formed()) by {
                lemma_index_write(index, first, last, final(r)@);
            }
            r
        },
        _ => unreached(),
    }
}

impl Index for usize {
    open spec fn index_view(&self) -> IndexView {
        IndexView::Position(*self as int)
    }

    fn index_into<'v>(&self, v: &'v Value) -> (r: Option<&'v Value>) {
        let target = v.untag_ref();
        slot_into(target, position_slot(*self, target), Ghost(self.index_view()))
    }

    fn index_into_mut<'v>(&self, v: &'v mut Value) -> (r: Option<&'v mut Value>) {
        let ghost whole = v@;
        let target = v.untag_mut();
        let slot = position_slot(*self, target);
        slot_into_mut(target, slot, Ghost(self.index_view()), Ghost(whole))
    }

    fn can_index_or_insert(&self, v: &Value) -> (b: bool) {
        match v.untag_ref() {
            Value::Sequence(vec) => {
                proof {
                    lemma_sequence_view(*vec);
                }
                *self < vec.len()
            },
            Value::Mapping(_) => true,
            _ => false,
        }
    }

    fn index_or_insert<'v>(&self, v: &'v mut Value) -> (r: &'v mut Value) {
        let ghost index = self.index_view();
        let ghost before = v@;
        let ghost after = final(v)@;
        proof {
            lemma_retag_untag(before);
        }
        let target = v.untag_mut();
        let ghost inner_after = final(target)@;
        let r = match target {
            Value::Sequence(vec) => {
                proof {
                    lemma_sequence_view(*vec);
                }
                child_mut(target, *self)
            },
            Value::Mapping(map) => {
                let ghost entries = map@;
                let r = map.or_insert(Value::Number(Number::from_u64(*self as u64)), Value::Null);
                proof {
                    let key = ValueView::Number(NumberView::Int(*self as int));
                    let ready = ValueView::Mapping(
                        entries_or_insert(entries, key, ValueView::Null),
                    );
                    lemma_untag_retag(before, ready);
                    lemma_retag_retag(before, ready, inner_after);
                }
                r
            },
            _ => unreached(),
        };
        assert(before.well_formed() && index.key().well_formed() && final(r)@.well_formed()
            ==> after.well_formed()) by {
            lemma_index_write(index, before, after, final(r)@);
        }
        r
    }
}

impl Index for Value {
    open spec fn index_view(&self) -> IndexView {
        IndexView::Key(self@)
    }

    fn index_into<'v>(&self, v: &'v Value) -> (r: Option<&'v Value>) {
        index_into_mapping(Key::Value(self), v)
    }

    fn index_into_mut<'v>(&self, v: &'v mut Value) -> (r: Option<&'v mut Value>) {
        index_into_mut_mapping(Key::Value(self), v)
    }

    fn can_index_or_insert(&self, v: &Value) -> (b: bool) {
        key_writable(v, Ghost(self@))
    }

    fn index_or_insert<'v>(&self, v: &'v mut Value) -> (r: &'v mut Value) {
        index_or_insert_mapping(Key::Value(self), v)
    }
}

impl Index for str {
    open spec fn index_view(&self) -> IndexView {
        IndexView::Key(ValueView::String(self@))
    }

    fn index_into<'v>(&self, v: &'v Value) -> (r: Option<&'v Value>) {
        index_into_mapping(Key::Text(self), v)
    }

    fn index_into_mut<'v>(&self, v: &'v mut Value) -> (r: Option<&'v mut Value>) {
        index_into_mut_mapping(Key::Text(self), v)
    }

    fn can_index_or_insert(&self, v: &Value) -> (b: bool) {
        key_writable(v, Ghost(ValueView::String(self@)))
    }

    fn index_or_insert<'v>(&self, v: &'v mut Value) -> (r: &'v mut Value) {
        index_or_insert_mapping(Key::Text(self), v)
    }
}

impl Index for String {
    open spec fn index_view(&self) -> IndexView {
        IndexView::Key(ValueView::String(self@))
    }

    fn index_into<'v>(&self, v: &'v Value) -> (r: Option<&'v Value>) {
        self.as_str().index_into(v)
    }

    fn index_into_mut<'v>(&self, v: &'v mut Value) -> (r: Option<&'v mut Value>) {
        self.as_str().index_into_mut(v)
    }

    fn can_index_or_insert(&self, v: &Value) -> (b: bool) {
        self.as_str().can_index_or_insert(v)
    }

    fn index_or_insert<'v>(&self, v: &'v mut Value) -> (r: &'v mut Value) {
        self.as_str().index_or_insert(v)
    }
}

impl<T> Index for &T where T: ?Sized + Index {
    open spec fn index_view(&self) -> IndexView {
        (**self).index_view()
    }

    fn index_into<'v>(&self, v: &'v Value) -> (r: Option<&'v Value>) {
        (**self).index_into(v)
    }

    fn index_into_mut<'v>(&self, v: &'v mut Value) -> (r: Option<&'v mut Value>) {
        (**self).index_into_mut(v)
    }

    fn can_index_or_insert(&self, v: &Value) -> (b: bool) {
        (**self).can_index_or_insert(v)
    }

    fn index_or_insert<'v>(&self, v: &'v mut Value) -> (r: &'v mut Value) {
        (**self).index_or_insert(v)
    }
}

impl<I> core::ops::Index<I> for Value where I: Index {
    type Output = Value;

    /// What `index` finds in this value, or a null where it finds nothing.
    fn index(&self, index: I) -> (r: &Value)
        ensures
            r@ == match index.index_view().lookup(self@) {
                Some(found) => found,
                None => ValueView::Null,
            },
    {
        self.get_or_null(index)
    }
}

impl<I> core::ops::IndexMut<I> for Value where I: Index {
    /// The value that `index` names in this value, to be written to.
    fn index_mut(&mut self, index: I) -> (r: &mut Value)
        requires
            index.index_view().writable(old(self)@),
        ensures
            ({
                let ready = index.index_view().vivify(old(self)@);
                let i = index.index_view().write_slot(old(self)@);
                &&& ready.untag().has_child(i)
                &&& r@ == ready.untag().child(i)
                &&& final(self)@ == ready.with_slot(i, final(r)@)
            }),
            old(self)@.well_formed() && index.index_view().key().well_formed()
                && final(r)@.well_formed() ==> final(self)@.well_formed(),
    {
        index.index_or_insert(self)
    }
}

} // verus!
