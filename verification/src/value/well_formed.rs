//! Trees in which every mapping holds each of its keys once: what such a
//! tree guarantees of lookups, and that every operation keeps it so.

use crate::error::Error;
use crate::value::equality::{lemma_equal_reflexive, lemma_equal_symmetric, lemma_equal_transitive};
use crate::value::merge::{
    children, entry_values, items_count, lemma_children_count, lemma_merge_outcomes_len,
    lemma_node_count_positive, lemma_resolve_own_count, merge_elements, merge_key, merge_outcome,
    merge_outcomes, node_count, resolve_merge_key, resolve_own, with_children, with_values,
};
use crate::value::model::{
    distinct_keys, entries_insert, entries_merge, entries_or_insert, entries_swap_remove,
    key_index, lemma_key_index, lemma_key_index_is, lemma_key_index_none,
    lemma_mapping_well_formed, lemma_sequence_well_formed, or_insert_index, values_equal, Entries,
    IndexView, ValueView,
};
use vstd::prelude::*;

verus! {

/// Whether the entries are those of a well-formed mapping.
pub open spec fn entries_well_formed(entries: Entries) -> bool {
    ValueView::Mapping(entries).well_formed()
}

/// In a well-formed mapping a key matches one entry at most, so it is found
/// at the entry that it matches.
pub proof fn lemma_found_where_matched(entries: Entries, key: ValueView, i: int)
    requires
        entries_well_formed(entries),
        key.well_formed(),
        0 <= i < entries.len(),
        values_equal(key, entries[i].0),
    ensures
        key_index(entries, key) == Some(i),
{
    lemma_key_index(entries, key);
    match key_index(entries, key) {
        Some(first) => {
            if first != i {
                lemma_equal_symmetric(key, entries[first].0);
                lemma_equal_transitive(entries[first].0, key, entries[i].0);
            }
        },
        None => {
            assert(!values_equal(key, entries[i].0));
        },
    }
}

/// Reading a well-formed mapping by a key gives the value of the entry with
/// that key, and nothing where no entry has it.
pub proof fn lemma_lookup_in_mapping(entries: Entries, key: ValueView)
    requires
        entries_well_formed(entries),
        key.well_formed(),
    ensures
        forall|i: int|
            0 <= i < entries.len() && values_equal(key, (#[trigger] entries[i]).0)
                ==> IndexView::Key(key).lookup(ValueView::Mapping(entries)) == Some(entries[i].1),
        (forall|i: int| 0 <= i < entries.len() ==> !values_equal(key, (#[trigger] entries[i]).0))
            ==> IndexView::Key(key).lookup(ValueView::Mapping(entries)) is None,
{
    assert forall|i: int|
        0 <= i < entries.len() && values_equal(
            key,
            (#[trigger] entries[i]).0,
        ) implies IndexView::Key(key).lookup(ValueView::Mapping(entries)) == Some(
        entries[i].1,
    ) by {
        lemma_found_where_matched(entries, key, i);
    }
    if forall|i: int| 0 <= i < entries.len() ==> !values_equal(key, (#[trigger] entries[i]).0) {
        lemma_key_index_none(entries, key);
    }
}

/// A key added where it was absent keeps the mapping well formed.
pub proof fn lemma_or_insert_well_formed(entries: Entries, key: ValueView, value: ValueView)
    requires
        entries_well_formed(entries),
        key.well_formed(),
        value.well_formed(),
    ensures
        entries_well_formed(entries_or_insert(entries, key, value)),
{
    lemma_key_index(entries, key);
    if key_index(entries, key) is None {
        let added = entries.push((key, value));
        assert forall|i: int, j: int|
            0 <= i < added.len() && 0 <= j < added.len() && i != j implies !values_equal(
            (#[trigger] added[i]).0,
            (#[trigger] added[j]).0,
        ) by {
            if i == entries.len() {
                assert(added[j] == entries[j]);
            } else if j == entries.len() {
                assert(added[i] == entries[i]);
                if values_equal(entries[i].0, key) {
                    lemma_equal_symmetric(entries[i].0, key);
                }
            } else {
                assert(added[i] == entries[i]);
                assert(added[j] == entries[j]);
            }
        }
        assert forall|i: int| 0 <= i < added.len() implies (#[trigger] added[i]).0.well_formed()
            && added[i].1.well_formed() by {
            if i < entries.len() {
                assert(added[i] == entries[i]);
            }
        }
    }
}

/// A value put under a key keeps the mapping well formed.
pub proof fn lemma_insert_well_formed(entries: Entries, key: ValueView, value: ValueView)
    requires
        entries_well_formed(entries),
        key.well_formed(),
        value.well_formed(),
    ensures
        entries_well_formed(entries_insert(entries, key, value)),
{
    lemma_key_index(entries, key);
    match key_index(entries, key) {
        Some(i) => {
            lemma_update_well_formed(entries, i, value);
        },
        None => {
            lemma_or_insert_well_formed(entries, key, value);
        },
    }
}

/// A value put in place of another keeps the mapping well formed.
pub proof fn lemma_update_well_formed(entries: Entries, i: int, value: ValueView)
    requires
        entries_well_formed(entries),
        0 <= i < entries.len(),
        value.well_formed(),
    ensures
        entries_well_formed(entries.update(i, (entries[i].0, value))),
{
    let updated = entries.update(i, (entries[i].0, value));
    assert forall|a: int, b: int|
        0 <= a < updated.len() && 0 <= b < updated.len() && a != b implies !values_equal(
        (#[trigger] updated[a]).0,
        (#[trigger] updated[b]).0,
    ) by {
        assert(updated[a].0 == entries[a].0);
        assert(updated[b].0 == entries[b].0);
    }
    assert forall|a: int| 0 <= a < updated.len() implies (#[trigger] updated[a]).0.well_formed()
        && updated[a].1.well_formed() by {
        assert(updated[a].0 == entries[a].0);
        if a != i {
            assert(updated[a] == entries[a]);
        }
    }
}

/// An entry taken out leaves the mapping well formed, and its key absent.
pub proof fn lemma_swap_remove_well_formed(entries: Entries, i: int)
    requires
        entries_well_formed(entries),
        0 <= i < entries.len(),
    ensures
        entries_well_formed(entries_swap_remove(entries, i)),
        key_index(entries_swap_remove(entries, i), entries[i].0) is None,
{
    let rest = entries_swap_remove(entries, i);
    let last = entries.len() - 1;
    assert forall|a: int| 0 <= a < rest.len() implies #[trigger] rest[a] == entries[if a == i {
        last
    } else {
        a
    }] by {}
    assert forall|a: int, b: int|
        0 <= a < rest.len() && 0 <= b < rest.len() && a != b implies !values_equal(
        (#[trigger] rest[a]).0,
        (#[trigger] rest[b]).0,
    ) by {
        let from_a = if a == i {
            last
        } else {
            a
        };
        let from_b = if b == i {
            last
        } else {
            b
        };
        assert(rest[a] == entries[from_a]);
        assert(rest[b] == entries[from_b]);
    }
    assert forall|a: int| 0 <= a < rest.len() implies (#[trigger] rest[a]).0.well_formed()
        && rest[a].1.well_formed() by {
        let from_a = if a == i {
            last
        } else {
            a
        };
        assert(rest[a] == entries[from_a]);
    }
    assert forall|a: int| 0 <= a < rest.len() implies !values_equal(
        entries[i].0,
        (#[trigger] rest[a]).0,
    ) by {
        let from_a = if a == i {
            last
        } else {
            a
        };
        assert(rest[a] == entries[from_a]);
    }
    lemma_key_index_none(rest, entries[i].0);
}

/// Entries merged into a well-formed mapping leave it well formed.
pub proof fn lemma_merge_well_formed(base: Entries, extra: Entries)
    requires
        entries_well_formed(base),
        entries_well_formed(extra),
    ensures
        entries_well_formed(entries_merge(base, extra)),
    decreases extra.len(),
{
    if extra.len() > 0 {
        let front = extra.drop_last();
        assert forall|a: int, b: int|
            0 <= a < front.len() && 0 <= b < front.len() && a != b implies !values_equal(
            (#[trigger] front[a]).0,
            (#[trigger] front[b]).0,
        ) by {
            assert(front[a] == extra[a]);
            assert(front[b] == extra[b]);
        }
        assert forall|a: int| 0 <= a < front.len() implies (#[trigger] front[a]).0.well_formed()
            && front[a].1.well_formed() by {
            assert(front[a] == extra[a]);
        }
        lemma_merge_well_formed(base, front);
        let last = extra[extra.len() - 1];
        assert(last.0.well_formed() && last.1.well_formed());
        lemma_or_insert_well_formed(entries_merge(base, front), last.0, last.1);
    }
}

/// The mappings of a sequence merged into a well-formed mapping leave it well
/// formed, as far as the work comes.
pub proof fn lemma_merge_elements_well_formed(base: Entries, items: Seq<ValueView>)
    requires
        entries_well_formed(base),
        ValueView::Sequence(items).well_formed(),
    ensures
        entries_well_formed(merge_elements(base, items).left),
    decreases items.len(),
{
    if items.len() > 0 {
        let front = items.drop_last();
        lemma_sequence_well_formed(items);
        lemma_sequence_well_formed(front);
        assert forall|a: int| 0 <= a < front.len() implies ValueView::well_formed(
            #[trigger] front[a],
        ) by {
            assert(front[a] == items[a]);
        }
        lemma_merge_elements_well_formed(base, front);
        let last = items[items.len() - 1];
        assert(last.well_formed());
        if let ValueView::Mapping(extra) = last {
            lemma_merge_well_formed(merge_elements(base, front).left, extra);
        }
    }
}

/// A well-formed mapping is well formed once its merge key is resolved, and
/// also where that fails.
pub proof fn lemma_resolve_well_formed(entries: Entries)
    requires
        entries_well_formed(entries),
    ensures
        entries_well_formed(resolve_merge_key(entries).left),
{
    lemma_key_index(entries, merge_key());
    if let Some(i) = key_index(entries, merge_key()) {
        lemma_swap_remove_well_formed(entries, i);
        let rest = entries_swap_remove(entries, i);
        assert(entries[i].1.well_formed());
        match entries[i].1 {
            ValueView::Mapping(extra) => {
                lemma_merge_well_formed(rest, extra);
            },
            ValueView::Sequence(items) => {
                lemma_merge_elements_well_formed(rest, items);
            },
            _ => {},
        }
    }
}

/// Well-formed values in place of the values of a well-formed mapping leave
/// it well formed.
pub proof fn lemma_with_values_well_formed(entries: Entries, values: Seq<ValueView>)
    requires
        entries_well_formed(entries),
        values.len() == entries.len(),
        ValueView::Sequence(values).well_formed(),
    ensures
        entries_well_formed(with_values(entries, values)),
{
    let replaced = with_values(entries, values);
    lemma_mapping_well_formed(entries);
    lemma_mapping_well_formed(replaced);
    lemma_sequence_well_formed(values);
    assert forall|a: int, b: int|
        0 <= a < replaced.len() && 0 <= b < replaced.len() && a != b implies !values_equal(
        (#[trigger] replaced[a]).0,
        (#[trigger] replaced[b]).0,
    ) by {
        assert(replaced[a].0 == entries[a].0);
        assert(replaced[b].0 == entries[b].0);
    }
    assert forall|a: int| 0 <= a < replaced.len() implies (#[trigger] replaced[a]).0.well_formed()
        && replaced[a].1.well_formed() by {
        assert(replaced[a] == (entries[a].0, values[a]));
    }
}

/// The values of a well-formed mapping are well formed.
pub proof fn lemma_entry_values_well_formed(entries: Entries)
    requires
        entries_well_formed(entries),
    ensures
        ValueView::Sequence(entry_values(entries)).well_formed(),
{
    lemma_mapping_well_formed(entries);
    lemma_sequence_well_formed(entry_values(entries));
    assert forall|a: int| 0 <= a < entries.len() implies ValueView::well_formed(
        #[trigger] entry_values(entries)[a],
    ) by {
        assert(entries[a].1.well_formed());
    }
}

/// Merge resolution leaves a well-formed tree well formed, also where it
/// fails.
pub proof fn lemma_merge_outcome_well_formed(v: ValueView)
    requires
        v.well_formed(),
    ensures
        merge_outcome(v).left.well_formed(),
    decreases node_count(v), 0nat,
{
    let own = resolve_own(v);
    lemma_resolve_own_well_formed(v);
    if own.error is None {
        lemma_resolve_own_count(v);
        lemma_children_count(own.left);
        lemma_children_well_formed(own.left);
        lemma_merge_outcomes_well_formed(children(own.left));
        lemma_merge_outcomes_len(children(own.left));
        lemma_with_children_well_formed(own.left, merge_outcomes(children(own.left)).left);
    }
}

/// A well-formed tree is well formed once its own merge key is resolved,
/// and also where that fails.
pub proof fn lemma_resolve_own_well_formed(v: ValueView)
    requires
        v.well_formed(),
    ensures
        resolve_own(v).left.well_formed(),
{
    if let ValueView::Mapping(entries) = v {
        lemma_resolve_well_formed(entries);
    }
}

/// The trees right under a well-formed value are well formed.
pub proof fn lemma_children_well_formed(v: ValueView)
    requires
        v.well_formed(),
    ensures
        ValueView::Sequence(children(v)).well_formed(),
{
    lemma_sequence_well_formed(children(v));
    match v {
        ValueView::Mapping(entries) => {
            lemma_entry_values_well_formed(entries);
        },
        ValueView::Sequence(items) => {},
        _ => {},
    }
}

/// Well-formed trees in place of those right under a well-formed value
/// leave it well formed.
pub proof fn lemma_with_children_well_formed(v: ValueView, new: Seq<ValueView>)
    requires
        v.well_formed(),
        new.len() == children(v).len(),
        ValueView::Sequence(new).well_formed(),
    ensures
        with_children(v, new).well_formed(),
{
    lemma_sequence_well_formed(new);
    match v {
        ValueView::Mapping(entries) => {
            lemma_with_values_well_formed(entries, new);
        },
        ValueView::Tagged(_, _) => {
            assert(ValueView::well_formed(new[0]));
        },
        _ => {},
    }
}

/// Merge resolution leaves the trees of a well-formed sequence well formed,
/// also where it fails.
pub proof fn lemma_merge_outcomes_well_formed(items: Seq<ValueView>)
    requires
        ValueView::Sequence(items).well_formed(),
    ensures
        ValueView::Sequence(merge_outcomes(items).left).well_formed(),
    decreases items_count(items), 1nat,
{
    lemma_sequence_well_formed(items);
    if items.len() > 0 {
        let front = items.drop_last();
        let last = items[items.len() - 1];
        lemma_sequence_well_formed(front);
        assert forall|a: int| 0 <= a < front.len() implies ValueView::well_formed(
            #[trigger] front[a],
        ) by {
            assert(front[a] == items[a]);
        }
        lemma_node_count_positive(last);
        lemma_merge_outcome_well_formed(last);
        let done_last = merge_outcome(last);
        let done = merge_outcomes(items).left;
        lemma_sequence_well_formed(done);
        if done_last.error is Some {
            assert forall|a: int| 0 <= a < done.len() implies ValueView::well_formed(
                #[trigger] done[a],
            ) by {
                if a < front.len() {
                    assert(done[a] == front[a]);
                }
            }
        } else {
            lemma_merge_outcomes_well_formed(front);
            let done_front = merge_outcomes(front).left;
            lemma_sequence_well_formed(done_front);
            assert forall|a: int| 0 <= a < done.len() implies ValueView::well_formed(
                #[trigger] done[a],
            ) by {
                if a < done_front.len() {
                    assert(done[a] == done_front[a]);
                }
            }
        }
    }
}

/// What stands under the tags of a well-formed value is well formed.
pub proof fn lemma_untag_well_formed(v: ValueView)
    requires
        v.well_formed(),
    ensures
        v.untag().well_formed(),
    decreases v,
{
    if let ValueView::Tagged(_, under) = v {
        lemma_untag_well_formed(*under);
    }
}

/// A well-formed value put under the tags gives a well-formed value.
pub proof fn lemma_retag_well_formed(v: ValueView, inner: ValueView)
    requires
        inner.well_formed(),
    ensures
        v.retag(inner).well_formed(),
    decreases v,
{
    if let ValueView::Tagged(_, under) = v {
        lemma_retag_well_formed(*under, inner);
    }
}

/// The children of a well-formed value are well formed, and a well-formed
/// value in place of one of them leaves the whole well formed.
pub proof fn lemma_with_slot_well_formed(v: ValueView, i: int, new: ValueView)
    requires
        v.well_formed(),
        v.untag().has_child(i),
    ensures
        v.untag().child(i).well_formed(),
        new.well_formed() ==> v.with_slot(i, new).well_formed(),
{
    lemma_untag_well_formed(v);
    match v.untag() {
        ValueView::Sequence(items) => {
            lemma_sequence_well_formed(items);
            if new.well_formed() {
                let updated = items.update(i, new);
                lemma_sequence_well_formed(updated);
                assert forall|a: int| 0 <= a < updated.len() implies ValueView::well_formed(
                    #[trigger] updated[a],
                ) by {
                    if a != i {
                        assert(updated[a] == items[a]);
                    }
                }
                lemma_retag_well_formed(v, ValueView::Sequence(updated));
            }
        },
        ValueView::Mapping(entries) => {
            lemma_mapping_well_formed(entries);
            if new.well_formed() {
                lemma_update_well_formed(entries, i, new);
                lemma_retag_well_formed(v, ValueView::Mapping(entries.update(i, (entries[i].0, new))));
            }
        },
        _ => {},
    }
}

/// A well-formed value made ready for a write through a well-formed index
/// is well formed.
pub proof fn lemma_vivify_well_formed(index: IndexView, v: ValueView)
    requires
        v.well_formed(),
        index.key().well_formed(),
    ensures
        index.vivify(v).well_formed(),
{
    lemma_untag_well_formed(v);
    match v.untag() {
        ValueView::Mapping(entries) => {
            lemma_or_insert_well_formed(entries, index.key(), ValueView::Null);
            lemma_retag_well_formed(
                v,
                ValueView::Mapping(entries_or_insert(entries, index.key(), ValueView::Null)),
            );
        },
        ValueView::Null => {
            let fresh = seq![(index.key(), ValueView::Null)];
            lemma_mapping_well_formed(fresh);
            if index is Key {
                lemma_retag_well_formed(v, ValueView::Mapping(fresh));
            }
        },
        _ => {},
    }
}

} // verus!
