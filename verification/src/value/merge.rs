//! Resolution of `<<` merge keys: what it means, and the traversal that
//! does it in place.

use crate::error::Error;
use crate::mapping::Mapping;
use crate::value::model::{
    entries_merge, entries_swap_remove, key_index, lemma_key_index, Entries, ValueView,
};
use crate::value::well_formed::lemma_merge_outcome_well_formed;
use crate::value::{lemma_sequence_view, values_view, Value};
use vstd::prelude::*;

verus! {

/// How far a piece of work came: what it left, and the error that stopped
/// it, if one did.
pub struct Outcome<T> {
    /// What the work left. Without an error this is the finished result.
    pub left: T,
    /// The error that stopped the work.
    pub error: Option<Error>,
}

/// The key whose value a mapping takes further entries from.
pub open spec fn merge_key() -> ValueView {
    ValueView::String("<<"@)
}

/// The error that an element of a sequence under `<<` is rejected with, if
/// it is: only a mapping can be merged.
pub open spec fn element_error(element: ValueView) -> Option<Error> {
    match element {
        ValueView::Mapping(_) => None,
        ValueView::Sequence(_) => Some(Error::SequenceInMergeElement),
        ValueView::Tagged(_, _) => Some(Error::TaggedInMerge),
        _ => Some(Error::ScalarInMergeElement),
    }
}

/// The entries of `base` after each element of `items` was merged into them,
/// in order. Every element has to be a mapping: the first that is not one
/// stops the work with its error, and the entries stay as the elements
/// before it left them.
pub open spec fn merge_elements(base: Entries, items: Seq<ValueView>) -> Outcome<Entries>
    decreases items.len(),
{
    if items.len() == 0 {
        Outcome { left: base, error: None }
    } else {
        let front = merge_elements(base, items.drop_last());
        if front.error is Some {
            front
        } else {
            match items.last() {
                ValueView::Mapping(extra) => Outcome {
                    left: entries_merge(front.left, extra),
                    error: None,
                },
                other => Outcome { left: front.left, error: element_error(other) },
            }
        }
    }
}

/// The entries of one mapping once its own `<<` entry is resolved.
///
/// Without a `<<` key the entries stay as they are. Else the `<<` entry
/// leaves, the last entry taking its place, and what stood under it is
/// merged in: the entries of a mapping, or those of each mapping of a
/// sequence in turn. An entry is merged in only where its key is absent, so
/// the mapping's own entries win, and among the mappings of a sequence the
/// earlier ones do. A tagged value under `<<` is an error, and so is a
/// scalar.
pub open spec fn resolve_merge_key(entries: Entries) -> Outcome<Entries> {
    match key_index(entries, merge_key()) {
        None => Outcome { left: entries, error: None },
        Some(i) => {
            let rest = entries_swap_remove(entries, i);
            match entries[i].1 {
                ValueView::Mapping(extra) => Outcome {
                    left: entries_merge(rest, extra),
                    error: None,
                },
                ValueView::Sequence(items) => merge_elements(rest, items),
                ValueView::Tagged(_, _) => Outcome {
                    left: rest,
                    error: Some(Error::TaggedInMerge),
                },
                _ => Outcome { left: rest, error: Some(Error::ScalarInMerge) },
            }
        },
    }
}

/// The number of values in a tree: the value itself, the elements of a
/// sequence, the values of a mapping and what stands under a tag, all the
/// way down. Keys are not counted.
pub open spec fn node_count(v: ValueView) -> nat
    decreases v,
{
    match v {
        ValueView::Sequence(items) => 1 + items_count(items),
        ValueView::Mapping(entries) => 1 + entries_count(entries),
        ValueView::Tagged(_, under) => 1 + node_count(*under),
        _ => 1,
    }
}

/// The number of values in the trees of a sequence.
pub open spec fn items_count(items: Seq<ValueView>) -> nat
    decreases items,
{
    if items.len() == 0 {
        0
    } else {
        items_count(items.drop_last()) + node_count(items.last())
    }
}

/// The number of values in the trees under the keys of a mapping.
pub open spec fn entries_count(entries: Entries) -> nat
    decreases entries,
{
    if entries.len() == 0 {
        0
    } else {
        entries_count(entries.drop_last()) + node_count(entries.last().1)
    }
}

/// The values of the entries, in order.
pub open spec fn entry_values(entries: Entries) -> Seq<ValueView> {
    Seq::new(entries.len(), |i: int| entries[i].1)
}

/// The entries with `values` in place of their values.
pub open spec fn with_values(entries: Entries, values: Seq<ValueView>) -> Entries {
    Seq::new(entries.len(), |i: int| (entries[i].0, values[i]))
}

/// Every tree holds a value.
pub proof fn lemma_node_count_positive(v: ValueView)
    ensures
        node_count(v) >= 1,
{
}

/// Replacing an entry changes the count by what the two values differ.
pub proof fn lemma_entries_count_update(entries: Entries, i: int, entry: (ValueView, ValueView))
    requires
        0 <= i < entries.len(),
    ensures
        entries_count(entries.update(i, entry)) + node_count(entries[i].1) == entries_count(entries)
            + node_count(entry.1),
    decreases entries.len(),
{
    let updated = entries.update(i, entry);
    if i == entries.len() - 1 {
        assert(updated.drop_last() =~= entries.drop_last());
    } else {
        lemma_entries_count_update(entries.drop_last(), i, entry);
        assert(updated.drop_last() =~= entries.drop_last().update(i, entry));
    }
}

/// Taking an entry out takes the count of its value away.
pub proof fn lemma_entries_count_swap_remove(entries: Entries, i: int)
    requires
        0 <= i < entries.len(),
    ensures
        entries_count(entries_swap_remove(entries, i)) + node_count(entries[i].1) == entries_count(
            entries,
        ),
{
    let updated = entries.update(i, entries.last());
    lemma_entries_count_update(entries, i, entries.last());
    assert(updated.last() == entries.last());
}

/// Merging adds no more than the values that were offered.
pub proof fn lemma_entries_count_merge(base: Entries, extra: Entries)
    ensures
        entries_count(entries_merge(base, extra)) <= entries_count(base) + entries_count(extra),
    decreases extra.len(),
{
    if extra.len() > 0 {
        lemma_entries_count_merge(base, extra.drop_last());
        let merged = entries_merge(base, extra.drop_last());
        let last = extra.last();
        if key_index(merged, last.0) is None {
            assert(merged.push(last).drop_last() =~= merged);
        }
    }
}

/// Merging the mappings of a sequence adds no more values than the sequence
/// holds.
pub proof fn lemma_entries_count_merge_elements(base: Entries, items: Seq<ValueView>)
    ensures
        entries_count(merge_elements(base, items).left) <= entries_count(base) + items_count(items),
    decreases items.len(),
{
    if items.len() > 0 {
        lemma_entries_count_merge_elements(base, items.drop_last());
        let front = merge_elements(base, items.drop_last());
        if front.error is None {
            if let ValueView::Mapping(extra) = items.last() {
                lemma_entries_count_merge(front.left, extra);
                assert(node_count(items.last()) == 1 + entries_count(extra));
            }
        }
    }
}

/// Resolving the merge key of a mapping leaves it with no more values than
/// it had.
pub proof fn lemma_entries_count_resolve(entries: Entries)
    ensures
        entries_count(resolve_merge_key(entries).left) <= entries_count(entries),
{
    lemma_key_index(entries, merge_key());
    if let Some(i) = key_index(entries, merge_key()) {
        let rest = entries_swap_remove(entries, i);
        lemma_entries_count_swap_remove(entries, i);
        match entries[i].1 {
            ValueView::Mapping(extra) => {
                lemma_entries_count_merge(rest, extra);
            },
            ValueView::Sequence(items) => {
                lemma_entries_count_merge_elements(rest, items);
            },
            _ => {},
        }
    }
}

/// The values of a mapping count what the mapping counts.
pub proof fn lemma_entry_values_count(entries: Entries)
    ensures
        items_count(entry_values(entries)) == entries_count(entries),
    decreases entries.len(),
{
    if entries.len() > 0 {
        lemma_entry_values_count(entries.drop_last());
        assert(entry_values(entries).drop_last() =~= entry_values(entries.drop_last()));
        assert(entry_values(entries).last() == entries.last().1);
    }
}

/// The tree once its own merge key is resolved. Only a mapping has one: any
/// other value stays as it is.
pub open spec fn resolve_own(v: ValueView) -> Outcome<ValueView> {
    match v {
        ValueView::Mapping(entries) => Outcome {
            left: ValueView::Mapping(resolve_merge_key(entries).left),
            error: resolve_merge_key(entries).error,
        },
        _ => Outcome { left: v, error: None },
    }
}

/// The trees right under a value, in order: the elements of a sequence, the
/// values of a mapping, what stands under a tag.
pub open spec fn children(v: ValueView) -> Seq<ValueView> {
    match v {
        ValueView::Sequence(items) => items,
        ValueView::Mapping(entries) => entry_values(entries),
        ValueView::Tagged(_, under) => seq![*under],
        _ => Seq::empty(),
    }
}

/// The value with `new` in place of the trees right under it.
pub open spec fn with_children(v: ValueView, new: Seq<ValueView>) -> ValueView {
    match v {
        ValueView::Sequence(_) => ValueView::Sequence(new),
        ValueView::Mapping(entries) => ValueView::Mapping(with_values(entries, new)),
        ValueView::Tagged(tag, _) => ValueView::Tagged(tag, Box::new(new[0])),
        _ => v,
    }
}

/// A tree counts one more than the trees right under it.
pub proof fn lemma_children_count(v: ValueView)
    ensures
        node_count(v) == 1 + items_count(children(v)),
{
    match v {
        ValueView::Mapping(entries) => {
            lemma_entry_values_count(entries);
        },
        ValueView::Tagged(_, under) => {
            let one = seq![*under];
            assert(one.drop_last() =~= Seq::<ValueView>::empty());
            assert(items_count(one.drop_last()) == 0);
            assert(one.last() == *under);
        },
        ValueView::Sequence(_) => {},
        _ => {
            assert(items_count(Seq::<ValueView>::empty()) == 0);
        },
    }
}

/// Resolving its own merge key leaves a tree with no more values than it
/// had.
pub proof fn lemma_resolve_own_count(v: ValueView)
    ensures
        node_count(resolve_own(v).left) <= node_count(v),
{
    if let ValueView::Mapping(entries) = v {
        lemma_entries_count_resolve(entries);
        assert(node_count(resolve_own(v).left) == 1 + entries_count(
            resolve_merge_key(entries).left,
        ));
    }
}

/// What merge resolution makes of a tree: the tree with every merge key in
/// it resolved, or, where the work fails, its error and the tree as far as
/// the work had come.
///
/// A tree first resolves its own merge key, and then the trees right under
/// it are taken, those that were just merged in among them.
pub open spec fn merge_outcome(v: ValueView) -> Outcome<ValueView>
    decreases node_count(v), 0nat,
{
    let own = resolve_own(v);
    if own.error is Some {
        own
    } else {
        proof {
            lemma_resolve_own_count(v);
            lemma_children_count(own.left);
        }
        let below = merge_outcomes(children(own.left));
        Outcome { left: with_children(own.left, below.left), error: below.error }
    }
}

/// What merge resolution makes of the trees of a sequence. They are taken
/// from the last to the first, each with all that is under it before the one
/// in front of it: the first that fails stops the work, and those in front of
/// it stay as they were.
pub open spec fn merge_outcomes(items: Seq<ValueView>) -> Outcome<Seq<ValueView>>
    decreases items_count(items), 1nat,
{
    if items.len() == 0 {
        Outcome { left: items, error: None }
    } else {
        let last = merge_outcome(items.last());
        if last.error is Some {
            Outcome { left: items.drop_last().push(last.left), error: last.error }
        } else {
            proof {
                lemma_node_count_positive(items.last());
            }
            let front = merge_outcomes(items.drop_last());
            Outcome { left: front.left.push(last.left), error: front.error }
        }
    }
}

/// The tree with every merge key in it resolved, or the error that merge
/// resolution fails with.
pub open spec fn merged(v: ValueView) -> Result<ValueView, Error> {
    match merge_outcome(v).error {
        None => Ok(merge_outcome(v).left),
        Some(e) => Err(e),
    }
}

proof fn lemma_items_count_concat(a: Seq<ValueView>, b: Seq<ValueView>)
    ensures
        items_count(a + b) == items_count(a) + items_count(b),
    decreases b.len(),
{
    if b.len() == 0 {
        assert(a + b =~= a);
    } else {
        lemma_items_count_concat(a, b.drop_last());
        assert((a + b).drop_last() =~= a + b.drop_last());
        assert((a + b).last() == b.last());
    }
}

/// Merge resolution keeps the number of trees.
pub proof fn lemma_merge_outcomes_len(items: Seq<ValueView>)
    ensures
        merge_outcomes(items).left.len() == items.len(),
    decreases items.len(),
{
    if items.len() > 0 {
        lemma_merge_outcomes_len(items.drop_last());
    }
}

/// One tree alone is taken as it is on its own.
proof fn lemma_merge_outcomes_single(v: ValueView)
    ensures
        merge_outcomes(seq![v]).left == seq![merge_outcome(v).left],
        merge_outcomes(seq![v]).error == merge_outcome(v).error,
        items_count(seq![v]) == node_count(v),
{
    let one = seq![v];
    let none = Seq::<ValueView>::empty();
    assert(one.last() == v);
    assert(one.drop_last() =~= none);
    assert(merge_outcomes(none).left == none);
    assert(merge_outcomes(none).error is None);
    assert(items_count(none) == 0);
    assert(none.push(merge_outcome(v).left) =~= seq![merge_outcome(v).left]);
}

/// The trees after `a` are taken first: where they fail, those of `a` stay
/// as they were.
proof fn lemma_merge_outcomes_concat(a: Seq<ValueView>, b: Seq<ValueView>)
    ensures
        merge_outcomes(a + b) == (if merge_outcomes(b).error is Some {
            Outcome { left: a + merge_outcomes(b).left, error: merge_outcomes(b).error }
        } else {
            Outcome {
                left: merge_outcomes(a).left + merge_outcomes(b).left,
                error: merge_outcomes(a).error,
            }
        }),
    decreases b.len(),
{
    if b.len() == 0 {
        assert(a + b =~= a);
        assert(merge_outcomes(a).left + b =~= merge_outcomes(a).left);
    } else {
        let whole = a + b;
        lemma_merge_outcomes_concat(a, b.drop_last());
        assert(whole.drop_last() =~= a + b.drop_last());
        assert(whole.last() == b.last());
        let last = merge_outcome(b.last());
        let front = merge_outcomes(b.drop_last());
        if last.error is Some {
            assert((a + b.drop_last()).push(last.left) =~= a + b.drop_last().push(last.left));
        } else if front.error is Some {
            assert((a + front.left).push(last.left) =~= a + front.left.push(last.left));
        } else {
            assert((merge_outcomes(a).left + front.left).push(last.left) =~= merge_outcomes(
                a,
            ).left + front.left.push(last.left));
        }
    }
}

/// Resolves the `<<` entry of one mapping, in place.
fn resolve_own_merge_key(mapping: &mut Mapping) -> (r: Result<(), Error>)
    ensures
        final(mapping)@ == resolve_merge_key(old(mapping)@).left,
        match resolve_merge_key(old(mapping)@).error {
            None => r is Ok,
            Some(e) => r == Err::<(), Error>(e),
        },
{
    let ghost before = mapping@;
    proof {
        lemma_key_index(before, merge_key());
    }
    match mapping.remove_str("<<") {
        Some(Value::Mapping(merge)) => {
            mapping.merge_absent(merge);
            Ok(())
        },
        Some(Value::Sequence(sequence)) => {
            let ghost rest = mapping@;
            let ghost items = values_view(sequence@);
            proof {
                lemma_sequence_view(sequence);
            }
            for value in it: sequence
                invariant
                    it.seq().len() == items.len(),
                    forall|j: int| 0 <= j < items.len() ==> (#[trigger] it.seq()[j])@ == items[j],
                    merge_elements(rest, items.take(it.index())) == (Outcome {
                        left: mapping@,
                        error: None,
                    }),
                    resolve_merge_key(before) == merge_elements(rest, items),
                    before == old(mapping)@,
            {
                let ghost n = it.index();
                assert(value@ == items[n]);
                proof {
                    assert(items.take(n + 1).drop_last() =~= items.take(n));
                    assert(items.take(n + 1).last() == items[n]);
                    if merge_elements(rest, items.take(n + 1)).error is Some {
                        lemma_merge_elements_fails(rest, items, n + 1);
                    }
                }
                match value {
                    Value::Mapping(merge) => {
                        mapping.merge_absent(merge);
                    },
                    Value::Sequence(_) => {
                        return Err(Error::SequenceInMergeElement);
                    },
                    Value::Tagged(_) => {
                        return Err(Error::TaggedInMerge);
                    },
                    _ => {
                        return Err(Error::ScalarInMergeElement);
                    },
                }
            }
            proof {
                assert(items.take(items.len() as int) =~= items);
            }
            Ok(())
        },
        None => Ok(()),
        Some(Value::Tagged(_)) => Err(Error::TaggedInMerge),
        Some(_) => Err(Error::ScalarInMerge),
    }
}

/// Once a front part of the elements fails, the whole fails in the same way.
proof fn lemma_merge_elements_fails(base: Entries, items: Seq<ValueView>, n: int)
    requires
        0 <= n <= items.len(),
        merge_elements(base, items.take(n)).error is Some,
    ensures
        merge_elements(base, items) == merge_elements(base, items.take(n)),
    decreases items.len() - n,
{
    if n < items.len() {
        assert(items.take(n + 1).drop_last() =~= items.take(n));
        lemma_merge_elements_fails(base, items, n + 1);
    } else {
        assert(items.take(n) =~= items);
    }
}

/// The elements of a sequence in order, each to be changed in place.
fn elements_mut(items: &mut Vec<Value>) -> (elements: Vec<&mut Value>)
    ensures
        elements@.len() == old(items)@.len(),
        final(items)@.len() == old(items)@.len(),
        forall|i: int| 0 <= i < elements@.len() ==> *(#[trigger] elements@[i]) == old(items)@[i],
        forall|i: int|
            0 <= i < elements@.len() ==> final(items)@[i] == *final(#[trigger] elements@[i]),
{
    let ghost before = *items;
    let ghost after = *final(items);
    let mut elements: Vec<&mut Value> = Vec::new();
    let mut rest: &mut [Value] = items.as_mut_slice();
    while rest.len() > 0
        invariant
            elements@.len() <= before@.len(),
            rest@ == before@.subrange(elements@.len() as int, before@.len() as int),
            forall|i: int| 0 <= i < elements@.len() ==> *(#[trigger] elements@[i]) == before@[i],
            after@ == Seq::new(elements@.len(), |i: int| *final(elements@[i])) + final(rest)@,
        decreases rest.len(),
    {
        let (head, tail) = rest.split_at_mut(1);
        rest = tail;
        match head.first_mut() {
            Some(element) => {
                elements.push(element);
            },
            None => {},
        }
    }
    proof {
        assert(before@.subrange(elements@.len() as int, before@.len() as int).len() == 0);
        assert(after@ =~= Seq::new(elements@.len(), |i: int| *final(elements@[i])));
    }
    elements
}

/// What the values behind the references stand for.
pub open spec fn targets_view(stack: Seq<&mut Value>) -> Seq<ValueView> {
    Seq::new(stack.len(), |i: int| (*stack[i])@)
}

/// One step of the work, on the trees still to be taken: taking the last
/// of them, `node`, comes to resolving its own merge key and then taking
/// the trees right under it in its place.
proof fn lemma_merge_step(rest: Seq<ValueView>, node: ValueView)
    ensures
        ({
            let own = resolve_own(node);
            let todo = rest.push(node);
            let next = merge_outcomes(rest + children(own.left));
            if own.error is Some {
                merge_outcomes(todo) == (Outcome { left: rest.push(own.left), error: own.error })
            } else {
                &&& items_count(rest + children(own.left)) < items_count(todo)
                &&& next.left.len() == rest.len() + children(own.left).len()
                &&& merge_outcomes(todo).error == next.error
                &&& merge_outcomes(todo).left == next.left.take(rest.len() as int).push(
                    with_children(own.left, next.left.skip(rest.len() as int)),
                )
            }
        }),
{
    let own = resolve_own(node);
    let todo = rest.push(node);
    let below = children(own.left);
    assert(todo.drop_last() =~= rest);
    assert(todo.last() == node);
    lemma_node_count_positive(node);
    if own.error is Some {
        assert(merge_outcome(node) == own);
    } else {
        let next = merge_outcomes(rest + below);
        let done = merge_outcomes(below);
        assert(merge_outcome(node) == (Outcome {
            left: with_children(own.left, done.left),
            error: done.error,
        }));
        lemma_resolve_own_count(node);
        lemma_children_count(own.left);
        lemma_items_count_concat(rest, below);
        lemma_merge_outcomes_concat(rest, below);
        lemma_merge_outcomes_len(rest);
        lemma_merge_outcomes_len(below);
        lemma_merge_outcomes_len(rest + below);
        assert(next.left.skip(rest.len() as int) =~= done.left);
        if done.error is Some {
            assert(next.left.take(rest.len() as int) =~= rest);
        } else {
            assert(next.left.take(rest.len() as int) =~= merge_outcomes(rest).left);
        }
    }
}

/// Resolves the own merge key of `node`, and puts the values right under
/// it on the stack, each to be changed in place.
fn descend<'a>(node: &'a mut Value, stack: &mut Vec<&'a mut Value>) -> (r: Result<(), Error>)
    ensures
        match resolve_own(old(node)@).error {
            Some(e) => {
                &&& r == Err::<(), Error>(e)
                &&& final(stack)@ == old(stack)@
                &&& final(node)@ == resolve_own(old(node)@).left
            },
            None => {
                let own = resolve_own(old(node)@).left;
                let depth = old(stack)@.len() as int;
                &&& r is Ok
                &&& final(stack)@.len() == depth + children(own).len()
                &&& forall|i: int|
                    0 <= i < depth ==> (#[trigger] final(stack)@[i]) == old(stack)@[i]
                &&& forall|i: int|
                    depth <= i < final(stack)@.len() ==> (*#[trigger] final(stack)@[i])@
                        == children(own)[i - depth]
                &&& final(node)@ == with_children(own, children(final(node)@))
                &&& children(final(node)@).len() == children(own).len()
                &&& forall|i: int|
                    depth <= i < final(stack)@.len() ==> children(final(node)@)[i - depth]
                        == (*final(#[trigger] final(stack)@[i]))@
            },
        },
{
    let ghost depth = stack@.len() as int;
    match node {
        Value::Mapping(mapping) => {
            match resolve_own_merge_key(mapping) {
                Err(e) => {
                    return Err(e);
                },
                Ok(()) => {},
            }
            let ghost resolved = mapping@;
            let ghost after = final(mapping)@;
            let mut values = mapping.values_mut();
            let ghost added = values@;
            stack.append(&mut values);
            proof {
                assert forall|i: int| depth <= i < stack@.len() implies after[i - depth] == (
                    resolved[i - depth].0,
                    (*final(#[trigger] stack@[i]))@,
                ) && (*stack@[i])@ == resolved[i - depth].1 by {
                    assert(stack@[i] == added[i - depth]);
                }
                assert forall|i: int| 0 <= i < after.len() implies #[trigger] after[i] == (
                    resolved[i].0,
                    after[i].1,
                ) by {
                    assert(stack@[depth + i] == added[i]);
                }
                assert(after =~= with_values(resolved, entry_values(after)));
            }
        },
        Value::Sequence(sequence) => {
            let ghost after = *final(sequence);
            proof {
                lemma_sequence_view(*sequence);
                lemma_sequence_view(after);
            }
            let mut elements = elements_mut(sequence);
            let ghost added = elements@;
            stack.append(&mut elements);
            proof {
                assert forall|i: int| depth <= i < stack@.len() implies values_view(after@)[i
                    - depth] == (*final(#[trigger] stack@[i]))@ && *stack@[i] == *added[i
                    - depth] by {
                    assert(stack@[i] == added[i - depth]);
                }
            }
        },
        Value::Tagged(tagged) => {
            let under = &mut tagged.value;
            stack.push(under);
            proof {
                let top = stack@[depth];
            }
        },
        _ => {},
    }
    Ok(())
}

impl Value {
    /// Resolves every `<<` merge key of the tree, in place.
    ///
    /// The tree becomes what `merge_outcome` says. Where that holds an
    /// error, the call fails with it, and the tree is left as far as the
    /// work had come: it should then be discarded. The tree is walked with
    /// a stack of its own, so that a deep tree takes no deep recursion.
    #[verifier::loop_isolation(false)]
    pub fn apply_merge(&mut self) -> (r: Result<(), Error>)
        ensures
            final(self)@ == merge_outcome(old(self)@).left,
            match merge_outcome(old(self)@).error {
                None => r is Ok,
                Some(e) => r == Err::<(), Error>(e),
            },
            old(self)@.well_formed() ==> final(self)@.well_formed(),
    {
        let ghost whole = self@;
        let ghost whole_after = final(self)@;
        proof {
            if whole.well_formed() {
                lemma_merge_outcome_well_formed(whole);
            }
        }
        let mut stack: Vec<&mut Value> = Vec::new();
        stack.push(self);
        proof {
            assert(targets_view(stack@) =~= seq![whole]);
            assert((*final(stack@[0]))@ == whole_after);
            lemma_merge_outcomes_single(whole);
        }
        // Once every value on the stack has become what merge resolution
        // makes of it, the whole tree has.
        while stack.len() > 0
            invariant
                (forall|i: int|
                    0 <= i < stack@.len() ==> (*final(#[trigger] stack@[i]))@ == merge_outcomes(
                        targets_view(stack@),
                    ).left[i]) ==> whole_after == merge_outcome(whole).left,
                merge_outcomes(targets_view(stack@)).error == merge_outcome(whole).error,
            decreases items_count(targets_view(stack@)),
        {
            let ghost todo = stack@;
            let node = stack.pop().unwrap();
            let ghost node_before = node@;
            let ghost node_after = final(node)@;
            let ghost rest = stack@;
            let ghost depth = stack@.len() as int;
            proof {
                assert(targets_view(todo) =~= targets_view(rest).push(node_before));
                lemma_merge_step(targets_view(rest), node_before);
            }
            match descend(node, &mut stack) {
                Err(e) => {
                    proof {
                        // Nothing that is still on the stack will be touched.
                        let done = merge_outcomes(targets_view(todo)).left;
                        assert forall|i: int| 0 <= i < todo.len() implies (*final(
                            #[trigger] todo[i]))@ == done[i] by {
                            if i < depth {
                                assert(todo[i] == rest[i]);
                                assert(has_resolved(stack@[i]));
                            }
                        }
                    }
                    return Err(e);
                },
                Ok(()) => {},
            }
            let ghost own = resolve_own(node_before).left;
            let ghost next = merge_outcomes(targets_view(stack@)).left;
            proof {
                assert forall|i: int| 0 <= i < stack@.len() implies #[trigger] targets_view(
                    stack@,
                )[i] == (targets_view(rest) + children(own))[i] by {
                    if i < depth {
                        assert(stack@[i] == rest[i]);
                    } else {
                        assert((*stack@[i])@ == children(own)[i - depth]);
                    }
                }
                assert(targets_view(stack@) =~= targets_view(rest) + children(own));
            }
            assert((forall|i: int|
                0 <= i < stack@.len() ==> (*final(#[trigger] stack@[i]))@ == next[i])
                ==> whole_after == merge_outcome(whole).left) by {
                if forall|i: int|
                    0 <= i < stack@.len() ==> (*final(#[trigger] stack@[i]))@ == next[i] {
                    assert forall|i: int| 0 <= i < children(own).len() implies children(
                        node_after,
                    )[i] == next.skip(depth)[i] by {
                        let kid = stack@[depth + i];
                        assert(children(node_after)[depth + i - depth] == (*final(kid))@);
                    }
                    assert(children(node_after) =~= next.skip(depth));
                    let done = merge_outcomes(targets_view(todo)).left;
                    assert forall|i: int| 0 <= i < todo.len() implies (*final(
                        #[trigger] todo[i]))@ == done[i] by {
                        if i < depth {
                            assert(todo[i] == rest[i]);
                            assert(rest[i] == stack@[i]);
                            assert(next.take(depth)[i] == next[i]);
                        }
                    }
                }
            }
        }
        Ok(())
    }
}

} // verus!
