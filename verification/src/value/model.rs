//! The mathematical model of a document: what a value stands for, when two
//! values are equal, and where a key is found in a mapping.

use crate::number::NumberView;
use vstd::prelude::*;

verus! {

/// What a value stands for: the tree of a document.
pub enum ValueView {
    /// The null value.
    Null,
    /// A boolean.
    Bool(bool),
    /// A number.
    Number(NumberView),
    /// A string, by its characters.
    String(Seq<char>),
    /// A sequence, by its elements in order.
    Sequence(Seq<ValueView>),
    /// A mapping, by its entries in the order in which they were inserted.
    Mapping(Seq<(ValueView, ValueView)>),
    /// A value under a tag.
    Tagged(Seq<char>, Box<ValueView>),
}

/// The entries of a mapping, each a key and its value, in insertion order.
pub type Entries = Seq<(ValueView, ValueView)>;

/// Whether two values are equal.
///
/// Values of different variants are never equal, so a tagged value differs
/// from the value under its tag. Sequences are equal element by element.
/// Mappings are equal when they have as many entries and each entry of the
/// first is found in the second, under an equal key and with an equal value:
/// the order of the entries does not count.
pub open spec fn values_equal(a: ValueView, b: ValueView) -> bool
    decreases a, 0nat, 0nat,
{
    match (a, b) {
        (ValueView::Null, ValueView::Null) => true,
        (ValueView::Bool(x), ValueView::Bool(y)) => x == y,
        (ValueView::Number(x), ValueView::Number(y)) => x == y,
        (ValueView::String(x), ValueView::String(y)) => x == y,
        (ValueView::Sequence(x), ValueView::Sequence(y)) => {
            &&& x.len() == y.len()
            &&& forall|i: int| 0 <= i < x.len() ==> values_equal(#[trigger] x[i], y[i])
        },
        (ValueView::Mapping(x), ValueView::Mapping(y)) => {
            &&& x.len() == y.len()
            &&& forall|i: int| 0 <= i < x.len() ==> entry_found(#[trigger] x[i], y)
        },
        (ValueView::Tagged(s, x), ValueView::Tagged(t, y)) => s == t && values_equal(*x, *y),
        _ => false,
    }
}

/// Whether the entries hold the key of `entry` with a value equal to its value.
pub open spec fn entry_found(entry: (ValueView, ValueView), entries: Entries) -> bool
    decreases entry, 2nat, 0nat,
{
    match key_index(entries, entry.0) {
        Some(j) => 0 <= j < entries.len() && values_equal(entry.1, entries[j].1),
        None => false,
    }
}

/// The position of the first entry whose key equals `key`, if there is one.
pub open spec fn key_index(entries: Entries, key: ValueView) -> Option<int>
    decreases key, 1nat, entries.len(),
{
    if entries.len() == 0 {
        None
    } else {
        match key_index(entries.drop_last(), key) {
            Some(i) => Some(i),
            None => if values_equal(key, entries.last().0) {
                Some(entries.len() - 1)
            } else {
                None
            },
        }
    }
}

/// No two entries have equal keys.
pub open spec fn distinct_keys(entries: Entries) -> bool {
    forall|i: int, j: int|
        0 <= i < entries.len() && 0 <= j < entries.len() && i != j ==> !values_equal(
            (#[trigger] entries[i]).0,
            (#[trigger] entries[j]).0,
        )
}

/// A key is first found at `i`: the key at `i` equals it and no earlier one
/// does.
pub open spec fn first_match(entries: Entries, key: ValueView, i: int) -> bool {
    &&& 0 <= i < entries.len()
    &&& values_equal(key, entries[i].0)
    &&& forall|j: int| 0 <= j < i ==> !values_equal(key, (#[trigger] entries[j]).0)
}

/// `key_index` is the position of the first match, and `None` only where no
/// key matches.
pub proof fn lemma_key_index(entries: Entries, key: ValueView)
    ensures
        match key_index(entries, key) {
            Some(i) => first_match(entries, key, i),
            None => forall|j: int|
                0 <= j < entries.len() ==> !values_equal(key, (#[trigger] entries[j]).0),
        },
    decreases entries.len(),
{
    if entries.len() > 0 {
        let front = entries.drop_last();
        lemma_key_index(front, key);
        match key_index(front, key) {
            Some(i) => {
                assert forall|j: int| 0 <= j < i implies !values_equal(
                    key,
                    (#[trigger] entries[j]).0,
                ) by {
                    assert(front[j] == entries[j]);
                }
            },
            None => {
                assert forall|j: int| 0 <= j < entries.len() - 1 implies !values_equal(
                    key,
                    (#[trigger] entries[j]).0,
                ) by {
                    assert(front[j] == entries[j]);
                }
            },
        }
    }
}

/// Where a key is first found at `i`, `key_index` is `i`.
pub proof fn lemma_key_index_is(entries: Entries, key: ValueView, i: int)
    requires
        first_match(entries, key, i),
    ensures
        key_index(entries, key) == Some(i),
{
    lemma_key_index(entries, key);
    match key_index(entries, key) {
        Some(k) => {
            if k < i {
                assert(!values_equal(key, entries[k].0));
            } else if i < k {
                assert(!values_equal(key, entries[i].0));
            }
        },
        None => {
            assert(!values_equal(key, entries[i].0));
        },
    }
}

/// Where no key matches, `key_index` is `None`.
pub proof fn lemma_key_index_none(entries: Entries, key: ValueView)
    requires
        forall|j: int| 0 <= j < entries.len() ==> !values_equal(key, (#[trigger] entries[j]).0),
    ensures
        key_index(entries, key) is None,
{
    lemma_key_index(entries, key);
    if let Some(i) = key_index(entries, key) {
        assert(!values_equal(key, entries[i].0));
    }
}

/// Putting back what is under the tags changes nothing.
pub proof fn lemma_retag_untag(v: ValueView)
    ensures
        v.retag(v.untag()) == v,
    decreases v,
{
    if let ValueView::Tagged(_, under) = v {
        lemma_retag_untag(*under);
    }
}

/// What was put under the tags is what is found there.
pub proof fn lemma_untag_retag(v: ValueView, inner: ValueView)
    requires
        !(inner is Tagged),
    ensures
        v.retag(inner).untag() == inner,
    decreases v,
{
    if let ValueView::Tagged(_, under) = v {
        lemma_untag_retag(*under, inner);
    }
}

/// Of two values put under the tags one after the other, the second stays.
pub proof fn lemma_retag_retag(v: ValueView, first: ValueView, second: ValueView)
    requires
        !(first is Tagged),
    ensures
        v.retag(first).retag(second) == v.retag(second),
    decreases v,
{
    if let ValueView::Tagged(_, under) = v {
        lemma_retag_retag(*under, first, second);
    }
}

/// The entries once `key` is sure to be among them: unchanged where they hold
/// the key, else with the key and `value` added at the end.
pub open spec fn entries_or_insert(entries: Entries, key: ValueView, value: ValueView) -> Entries {
    if key_index(entries, key) is Some {
        entries
    } else {
        entries.push((key, value))
    }
}

/// The entries once `value` stands under `key`: in place of the value that
/// the key had, or with the key added at the end.
pub open spec fn entries_insert(entries: Entries, key: ValueView, value: ValueView) -> Entries {
    match key_index(entries, key) {
        Some(i) => entries.update(i, (entries[i].0, value)),
        None => entries.push((key, value)),
    }
}

/// The position at which `entries_or_insert` leaves `key`.
pub open spec fn or_insert_index(entries: Entries, key: ValueView) -> int {
    match key_index(entries, key) {
        Some(i) => i,
        None => entries.len() as int,
    }
}

/// The entries of `base` after those of `extra` were offered one by one, in
/// order: each is added at the end unless its key is already there. No
/// entry that was there is changed.
pub open spec fn entries_merge(base: Entries, extra: Entries) -> Entries
    decreases extra.len(),
{
    if extra.len() == 0 {
        base
    } else {
        entries_or_insert(
            entries_merge(base, extra.drop_last()),
            extra.last().0,
            extra.last().1,
        )
    }
}

/// The entries without the one at `i`: the last entry takes its place.
pub open spec fn entries_swap_remove(entries: Entries, i: int) -> Entries
    recommends
        0 <= i < entries.len(),
{
    entries.update(i, entries.last()).drop_last()
}

/// What can index into a value: a position, or a key of a mapping.
pub enum IndexView {
    /// A position in a sequence. In a mapping it is the key that is this
    /// number.
    Position(int),
    /// A key of a mapping.
    Key(ValueView),
}

impl IndexView {
    /// The key under which a mapping is searched for this index.
    pub open spec fn key(self) -> ValueView {
        match self {
            IndexView::Position(n) => ValueView::Number(NumberView::Int(n)),
            IndexView::Key(k) => k,
        }
    }

    /// Where this index finds something in an untagged `target`: a position
    /// in a sequence, or the position of an entry of a mapping.
    pub open spec fn slot(self, target: ValueView) -> Option<int> {
        match target {
            ValueView::Sequence(s) => match self {
                IndexView::Position(n) => if 0 <= n < s.len() {
                    Some(n)
                } else {
                    None
                },
                IndexView::Key(_) => None,
            },
            ValueView::Mapping(m) => key_index(m, self.key()),
            _ => None,
        }
    }

    /// What this index finds in `v`, looking under its tags.
    pub open spec fn lookup(self, v: ValueView) -> Option<ValueView> {
        match self.slot(v.untag()) {
            Some(i) => Some(v.untag().child(i)),
            None => None,
        }
    }

    /// Whether a write through this index into `v` is in order: under the
    /// tags of `v` stands a mapping, or a sequence that is longer than the
    /// position, or, for a key, a null, which then becomes a mapping.
    pub open spec fn writable(self, v: ValueView) -> bool {
        match v.untag() {
            ValueView::Sequence(s) => self matches IndexView::Position(n) && 0 <= n < s.len(),
            ValueView::Mapping(_) => true,
            ValueView::Null => self is Key,
            _ => false,
        }
    }

    /// The slot that a write through this index into `v` reaches, once `v`
    /// is ready for it.
    pub open spec fn write_slot(self, v: ValueView) -> int {
        match v.untag() {
            ValueView::Sequence(_) => self->Position_0,
            ValueView::Mapping(m) => or_insert_index(m, self.key()),
            _ => 0,
        }
    }

    /// The value `v` made ready for a write through this index: a null
    /// under the tags has become a mapping for a key, and a mapping that
    /// lacked the key holds it with a null value. The tags stay.
    pub open spec fn vivify(self, v: ValueView) -> ValueView {
        match v.untag() {
            ValueView::Mapping(m) => v.retag(
                ValueView::Mapping(entries_or_insert(m, self.key(), ValueView::Null)),
            ),
            ValueView::Null => if self is Key {
                v.retag(ValueView::Mapping(seq![(self.key(), ValueView::Null)]))
            } else {
                v
            },
            _ => v,
        }
    }
}

/// A sequence is well formed exactly when its elements are.
pub proof fn lemma_sequence_well_formed(items: Seq<ValueView>)
    ensures
        ValueView::Sequence(items).well_formed() <==> (forall|i: int|
            0 <= i < items.len() ==> ValueView::well_formed(#[trigger] items[i])),
{
    assert(ValueView::Sequence(items)->Sequence_0 == items);
}

/// A mapping is well formed exactly when no two of its keys are equal and
/// its keys and values are well formed.
pub proof fn lemma_mapping_well_formed(entries: Entries)
    ensures
        ValueView::Mapping(entries).well_formed() <==> {
            &&& distinct_keys(entries)
            &&& forall|i: int|
                0 <= i < entries.len() ==> (#[trigger] entries[i]).0.well_formed()
                    && entries[i].1.well_formed()
        },
{
    assert(ValueView::Mapping(entries)->Mapping_0 == entries);
}

/// A slot is a position in the sequence or mapping that was searched.
pub proof fn lemma_slot_in_range(index: IndexView, target: ValueView)
    ensures
        index.slot(target) matches Some(i) ==> target.has_child(i),
{
    if let ValueView::Mapping(m) = target {
        lemma_key_index(m, index.key());
    }
}

impl ValueView {
    /// Whether every mapping in the tree, those inside keys too, holds each of
    /// its keys once. This is what a tree built through `Mapping` is.
    pub open spec fn well_formed(self) -> bool
        decreases self,
    {
        match self {
            ValueView::Sequence(items) => forall|i: int|
                0 <= i < items.len() ==> ValueView::well_formed(#[trigger] items[i]),
            ValueView::Mapping(entries) => {
                &&& distinct_keys(entries)
                &&& forall|i: int|
                    0 <= i < entries.len() ==> (#[trigger] entries[i]).0.well_formed()
                        && entries[i].1.well_formed()
            },
            ValueView::Tagged(_, under) => under.well_formed(),
            _ => true,
        }
    }

    /// Whether this is a sequence or a mapping with a child at `i`.
    pub open spec fn has_child(self, i: int) -> bool {
        match self {
            ValueView::Sequence(s) => 0 <= i < s.len(),
            ValueView::Mapping(m) => 0 <= i < m.len(),
            _ => false,
        }
    }

    /// The element at `i` of a sequence, or the value of the entry at `i` of
    /// a mapping.
    pub open spec fn child(self, i: int) -> ValueView {
        match self {
            ValueView::Sequence(s) => s[i],
            ValueView::Mapping(m) => m[i].1,
            _ => ValueView::Null,
        }
    }

    /// This sequence or mapping with `new` in place of its child at `i`.
    pub open spec fn with_child(self, i: int, new: ValueView) -> ValueView {
        match self {
            ValueView::Sequence(s) => ValueView::Sequence(s.update(i, new)),
            ValueView::Mapping(m) => ValueView::Mapping(m.update(i, (m[i].0, new))),
            _ => self,
        }
    }

    /// This value with `new` in place of the child at `i` of what stands
    /// under its tags.
    pub open spec fn with_slot(self, i: int, new: ValueView) -> ValueView {
        self.retag(self.untag().with_child(i, new))
    }

    /// The value under all the tags that wrap this one.
    pub open spec fn untag(self) -> ValueView
        decreases self,
    {
        match self {
            ValueView::Tagged(_, inner) => inner.untag(),
            _ => self,
        }
    }

    /// This value with `inner` in place of what is under all its tags.
    pub open spec fn retag(self, inner: ValueView) -> ValueView
        decreases self,
    {
        match self {
            ValueView::Tagged(tag, under) => ValueView::Tagged(tag, Box::new(under.retag(inner))),
            _ => inner,
        }
    }
}

} // verus!
