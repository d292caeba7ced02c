//! Laws of the value model: what holds of lookups and of merge resolution
//! whatever the document.

use crate::error::Error;
use crate::value::index::Index;
use crate::value::merge::{
    children, element_error, entry_values, merge_elements, merge_key, merge_outcome,
    merge_outcomes, merged, with_children, with_values, Outcome,
};
use crate::value::model::{
    entries_merge, key_index, lemma_key_index, lemma_key_index_is, lemma_retag_retag,
    lemma_untag_retag, values_equal, Entries, IndexView, ValueView,
};
use crate::value::Value;
use vstd::prelude::*;

verus! {

/// Whether no mapping in the tree has a `<<` key. The mappings that count are
/// those that merge resolution visits: the tree itself, the elements of
/// sequences, the values of mappings and what stands under tags.
pub open spec fn merge_free(v: ValueView) -> bool
    decreases v,
{
    match v {
        ValueView::Sequence(items) => forall|i: int|
            0 <= i < items.len() ==> merge_free(#[trigger] items[i]),
        ValueView::Mapping(entries) => {
            &&& key_index(entries, merge_key()) is None
            &&& forall|i: int| 0 <= i < entries.len() ==> merge_free((#[trigger] entries[i]).1)
        },
        ValueView::Tagged(_, under) => merge_free(*under),
        _ => true,
    }
}

/// Trees that merge resolution each leaves as they are, it leaves as they
/// are together.
proof fn lemma_merge_outcomes_unchanged(items: Seq<ValueView>)
    requires
        forall|i: int|
            0 <= i < items.len() ==> merge_outcome(#[trigger] items[i]) == (Outcome {
                left: items[i],
                error: None,
            }),
    ensures
        merge_outcomes(items) == (Outcome { left: items, error: None }),
    decreases items.len(),
{
    if items.len() > 0 {
        let front = items.drop_last();
        assert forall|i: int| 0 <= i < front.len() implies merge_outcome(#[trigger] front[i]) == (
        Outcome { left: front[i], error: None }) by {
            assert(front[i] == items[i]);
        }
        lemma_merge_outcomes_unchanged(front);
        assert(merge_outcome(items[items.len() - 1]).error is None);
        assert(front.push(items.last()) =~= items);
    }
}

/// A value with the trees right under it put in their own place is the
/// value.
proof fn lemma_with_own_children(v: ValueView)
    ensures
        with_children(v, children(v)) == v,
{
    match v {
        ValueView::Mapping(entries) => {
            assert(with_values(entries, entry_values(entries)) =~= entries);
        },
        _ => {},
    }
}

/// Merge resolution changes nothing in a tree without a `<<` key, and does
/// not fail on it.
pub proof fn lemma_merge_free_unchanged(v: ValueView)
    requires
        merge_free(v),
    ensures
        merge_outcome(v) == (Outcome { left: v, error: None }),
        merged(v) == Ok::<ValueView, Error>(v),
    decreases v,
{
    let below = children(v);
    assert forall|i: int| 0 <= i < below.len() implies merge_outcome(#[trigger] below[i]) == (
    Outcome { left: below[i], error: None }) by {
        match v {
            ValueView::Sequence(items) => {
                lemma_merge_free_unchanged(items[i]);
            },
            ValueView::Mapping(entries) => {
                lemma_merge_free_unchanged(entries[i].1);
            },
            ValueView::Tagged(_, under) => {
                lemma_merge_free_unchanged(*under);
            },
            _ => {},
        }
    }
    lemma_merge_outcomes_unchanged(below);
    lemma_with_own_children(v);
}

/// Merging never touches what a mapping already holds: its entries stay in
/// front, unchanged, whatever is merged in.
pub proof fn lemma_merge_keeps_entries(base: Entries, extra: Entries)
    ensures
        entries_merge(base, extra).len() >= base.len(),
        entries_merge(base, extra).take(base.len() as int) == base,
    decreases extra.len(),
{
    if extra.len() == 0 {
        assert(base.take(base.len() as int) =~= base);
    } else {
        let front = entries_merge(base, extra.drop_last());
        lemma_merge_keeps_entries(base, extra.drop_last());
        assert(entries_merge(base, extra).take(base.len() as int) =~= front.take(
            base.len() as int,
        ));
    }
}

/// An entry is merged in only where its key is absent: a key that a mapping
/// holds keeps its place and its value.
pub proof fn lemma_merge_keeps_key(base: Entries, extra: Entries, key: ValueView)
    requires
        key_index(base, key) is Some,
    ensures
        key_index(entries_merge(base, extra), key) == key_index(base, key),
        entries_merge(base, extra)[key_index(base, key)->0] == base[key_index(base, key)->0],
{
    let merged = entries_merge(base, extra);
    let i = key_index(base, key)->0;
    lemma_merge_keeps_entries(base, extra);
    lemma_key_index(base, key);
    assert(merged.take(base.len() as int)[i] == merged[i]);
    assert forall|j: int| 0 <= j < i implies !values_equal(
        key,
        (#[trigger] merged[j]).0,
    ) by {
        assert(merged.take(base.len() as int)[j] == merged[j]);
    }
    lemma_key_index_is(merged, key, i);
}

/// A mapping whose `<<` entry holds a tagged value fails with
/// `TaggedInMerge`, and one whose `<<` entry holds a scalar fails with
/// `ScalarInMerge`, whatever else the mapping holds.
pub proof fn lemma_merge_rejects_value(entries: Entries)
    requires
        key_index(entries, merge_key()) is Some,
    ensures
        ({
            let under = entries[key_index(entries, merge_key())->0].1;
            &&& under is Tagged ==> merged(ValueView::Mapping(entries)) == Err::<ValueView, Error>(
                Error::TaggedInMerge,
            )
            &&& !(under is Tagged || under is Mapping || under is Sequence) ==> merged(
                ValueView::Mapping(entries),
            ) == Err::<ValueView, Error>(Error::ScalarInMerge)
        }),
{
}

/// A sequence under `<<` is merged exactly when all its elements are
/// mappings; else the first element that is none decides the error.
pub proof fn lemma_merge_elements_error(base: Entries, items: Seq<ValueView>)
    ensures
        match merge_elements(base, items).error {
            None => forall|i: int|
                0 <= i < items.len() ==> element_error(#[trigger] items[i]) is None,
            Some(e) => exists|i: int|
                {
                    &&& 0 <= i < items.len()
                    &&& element_error(#[trigger] items[i]) == Some(e)
                    &&& forall|j: int| 0 <= j < i ==> element_error(#[trigger] items[j]) is None
                },
        },
    decreases items.len(),
{
    if items.len() > 0 {
        let front = items.drop_last();
        lemma_merge_elements_error(base, front);
        match merge_elements(base, front).error {
            None => {
                assert forall|j: int| 0 <= j < front.len() implies element_error(
                    #[trigger] items[j],
                ) is None by {
                    assert(front[j] == items[j]);
                }
                if let Some(e) = merge_elements(base, items).error {
                    assert(element_error(items[items.len() - 1]) == Some(e));
                }
            },
            Some(e) => {
                let i = choose|i: int|
                    {
                        &&& 0 <= i < front.len()
                        &&& element_error(#[trigger] front[i]) == Some(e)
                        &&& forall|j: int| 0 <= j < i ==> element_error(#[trigger] front[j]) is None
                    };
                assert(front[i] == items[i]);
                assert forall|j: int| 0 <= j < i implies element_error(#[trigger] items[j]) is None by {
                    assert(front[j] == items[j]);
                }
            },
        }
    }
}

/// Where merge resolution fails, what stood in front of the failing tree
/// stays as it was.
pub proof fn lemma_merge_failure_keeps_front(items: Seq<ValueView>)
    requires
        items.len() > 0,
        merge_outcome(items.last()).error is Some,
    ensures
        merge_outcomes(items).error == merge_outcome(items.last()).error,
        merge_outcomes(items).left == items.drop_last().push(merge_outcome(items.last()).left),
{
}

/// A write through an index into a mapping loses no entry: every key stays
/// where it was, and every value but the one written stays as it was.
pub proof fn lemma_write_keeps_entries(index: IndexView, entries: Entries, new: ValueView)
    ensures
        ({
            let v = ValueView::Mapping(entries);
            let i = index.write_slot(v);
            let after = index.vivify(v).with_slot(i, new);
            &&& after matches ValueView::Mapping(written)
            &&& written.len() >= entries.len()
            &&& 0 <= i < written.len()
            &&& written[i].1 == new
            &&& forall|j: int|
                0 <= j < entries.len() ==> (#[trigger] written[j]).0 == entries[j].0 && (j != i
                    ==> written[j].1 == entries[j].1)
        }),
{
    lemma_key_index(entries, index.key());
}

/// A key written into a null, bare or under tags, makes the null a mapping
/// with that one entry, under the same tags.
pub proof fn lemma_write_into_null(v: ValueView, key: ValueView, new: ValueView)
    requires
        v.untag() is Null,
    ensures
        ({
            let index = IndexView::Key(key);
            &&& index.writable(v)
            &&& index.vivify(v).with_slot(index.write_slot(v), new) == v.retag(
                ValueView::Mapping(seq![(key, new)]),
            )
        }),
{
    let fresh = ValueView::Mapping(seq![(key, ValueView::Null)]);
    lemma_untag_retag(v, fresh);
    lemma_retag_retag(v, fresh, ValueView::Mapping(seq![(key, new)]));
    assert(seq![(key, ValueView::Null)].update(0, (key, new)) =~= seq![(key, new)]);
}

/// A write into a sequence changes the element written and no other, and
/// the sequence keeps its length.
pub proof fn lemma_write_keeps_elements(n: int, items: Seq<ValueView>, new: ValueView)
    requires
        0 <= n < items.len(),
    ensures
        ({
            let index = IndexView::Position(n);
            let v = ValueView::Sequence(items);
            index.writable(v) && index.vivify(v).with_slot(index.write_slot(v), new)
                == ValueView::Sequence(items.update(n, new))
        }),
{
}

/// A position past the end of a sequence cannot be written to: a sequence
/// never grows by a write.
pub proof fn lemma_write_past_end(n: int, items: Seq<ValueView>)
    requires
        n >= items.len(),
    ensures
        !IndexView::Position(n).writable(ValueView::Sequence(items)),
{
}

/// A string indexes as the string value with the same characters does: a
/// mapping is searched by borrowed text as it is by a full key.
pub proof fn lemma_text_indexes_as_string(text: &str, key: Value)
    requires
        key@ == ValueView::String(text@),
    ensures
        text.index_view() == key.index_view(),
{
}

} // verus!
