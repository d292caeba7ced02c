//! Equality of values is an equivalence: reflexive, symmetric and transitive
//! on the trees in which every mapping holds each of its keys once.

use crate::value::model::{
    distinct_keys, entry_found, key_index, lemma_key_index, lemma_key_index_is, values_equal,
    Entries, ValueView,
};
use vstd::prelude::*;

verus! {

/// The number of values in a tree, keys and all that is in them included.
pub open spec fn weight(v: ValueView) -> nat
    decreases v,
{
    match v {
        ValueView::Sequence(items) => 1 + items_weight(items),
        ValueView::Mapping(entries) => 1 + entries_weight(entries),
        ValueView::Tagged(_, under) => 1 + weight(*under),
        _ => 1,
    }
}

/// The weights of the elements of a sequence, added up.
pub open spec fn items_weight(items: Seq<ValueView>) -> nat
    decreases items,
{
    if items.len() == 0 {
        0
    } else {
        items_weight(items.drop_last()) + weight(items.last())
    }
}

/// The weights of the keys and values of a mapping, added up.
pub open spec fn entries_weight(entries: Entries) -> nat
    decreases entries,
{
    if entries.len() == 0 {
        0
    } else {
        entries_weight(entries.drop_last()) + weight(entries.last().0) + weight(entries.last().1)
    }
}

/// An element of a sequence weighs less than the sequence.
pub proof fn lemma_item_weight(items: Seq<ValueView>, i: int)
    requires
        0 <= i < items.len(),
    ensures
        weight(items[i]) <= items_weight(items),
        weight(ValueView::Sequence(items)) == 1 + items_weight(items),
    decreases items.len(),
{
    if i < items.len() - 1 {
        lemma_item_weight(items.drop_last(), i);
        assert(items.drop_last()[i] == items[i]);
    }
}

/// A key and a value of a mapping weigh less than the mapping.
pub proof fn lemma_entry_weight(entries: Entries, i: int)
    requires
        0 <= i < entries.len(),
    ensures
        weight(entries[i].0) + weight(entries[i].1) <= entries_weight(entries),
        weight(ValueView::Mapping(entries)) == 1 + entries_weight(entries),
    decreases entries.len(),
{
    if i < entries.len() - 1 {
        lemma_entry_weight(entries.drop_last(), i);
        assert(entries.drop_last()[i] == entries[i]);
    }
}

spec fn reflexive_below(n: nat) -> bool {
    forall|a: ValueView| a.well_formed() && weight(a) < n ==> #[trigger] values_equal(a, a)
}

spec fn symmetric_below(n: nat) -> bool {
    forall|a: ValueView, b: ValueView|
        a.well_formed() && b.well_formed() && weight(a) < n && weight(b) < n
            && #[trigger] values_equal(a, b) ==> values_equal(b, a)
}

spec fn transitive_below(n: nat) -> bool {
    forall|a: ValueView, b: ValueView, c: ValueView|
        a.well_formed() && b.well_formed() && c.well_formed() && weight(a) < n && weight(b) < n
            && weight(c) < n && #[trigger] values_equal(a, b) && #[trigger] values_equal(b, c)
            ==> values_equal(a, c)
}

/// The three laws on all well-formed trees lighter than `n`.
spec fn laws_below(n: nat) -> bool {
    reflexive_below(n) && symmetric_below(n) && transitive_below(n)
}

proof fn lemma_reflexive_below(n: nat, a: ValueView)
    requires
        laws_below(n),
        a.well_formed(),
        weight(a) < n,
    ensures
        values_equal(a, a),
{
}

proof fn lemma_symmetric_below(n: nat, a: ValueView, b: ValueView)
    requires
        laws_below(n),
        a.well_formed(),
        b.well_formed(),
        weight(a) < n,
        weight(b) < n,
        values_equal(a, b),
    ensures
        values_equal(b, a),
{
}

proof fn lemma_transitive_below(n: nat, a: ValueView, b: ValueView, c: ValueView)
    requires
        laws_below(n),
        a.well_formed(),
        b.well_formed(),
        c.well_formed(),
        weight(a) < n,
        weight(b) < n,
        weight(c) < n,
        values_equal(a, b),
        values_equal(b, c),
    ensures
        values_equal(a, c),
{
}

/// The keys of the entries are well formed and lighter than `n`, and no two
/// of them are equal.
spec fn keys_below(n: nat, entries: Entries) -> bool {
    &&& distinct_keys(entries)
    &&& forall|i: int|
        0 <= i < entries.len() ==> (#[trigger] entries[i]).0.well_formed() && weight(entries[i].0)
            < n
}

/// A key matches one entry at most.
proof fn lemma_one_match_below(n: nat, entries: Entries, key: ValueView, i: int, j: int)
    requires
        laws_below(n),
        keys_below(n, entries),
        key.well_formed(),
        weight(key) < n,
        0 <= i < entries.len(),
        0 <= j < entries.len(),
        values_equal(key, entries[i].0),
        values_equal(key, entries[j].0),
    ensures
        i == j,
{
    if i != j {
        lemma_symmetric_below(n, key, entries[i].0);
        lemma_transitive_below(n, entries[i].0, key, entries[j].0);
    }
}

/// A key is found at the entry that it matches.
proof fn lemma_key_index_below(n: nat, entries: Entries, key: ValueView, i: int)
    requires
        laws_below(n),
        keys_below(n, entries),
        key.well_formed(),
        weight(key) < n,
        0 <= i < entries.len(),
        values_equal(key, entries[i].0),
    ensures
        key_index(entries, key) == Some(i),
{
    lemma_key_index(entries, key);
    match key_index(entries, key) {
        Some(first) => {
            lemma_one_match_below(n, entries, key, first, i);
        },
        None => {
            assert(!values_equal(key, entries[i].0));
        },
    }
}

proof fn lemma_mapping_parts(entries: Entries, n: nat)
    requires
        ValueView::Mapping(entries).well_formed(),
        weight(ValueView::Mapping(entries)) <= n,
    ensures
        keys_below(n, entries),
        forall|i: int|
            0 <= i < entries.len() ==> (#[trigger] entries[i]).1.well_formed() && weight(
                entries[i].1,
            ) < n,
{
    assert forall|i: int| 0 <= i < entries.len() implies (#[trigger] entries[i]).0.well_formed()
        && weight(entries[i].0) < n && entries[i].1.well_formed() && weight(entries[i].1) < n by {
        lemma_entry_weight(entries, i);
    }
}

proof fn lemma_sequence_parts(items: Seq<ValueView>, n: nat)
    requires
        ValueView::Sequence(items).well_formed(),
        weight(ValueView::Sequence(items)) <= n,
    ensures
        forall|i: int|
            0 <= i < items.len() ==> ValueView::well_formed(#[trigger] items[i]) && weight(items[i]) < n,
{
    assert forall|i: int| 0 <= i < items.len() implies ValueView::well_formed(#[trigger] items[i])
        && weight(items[i]) < n by {
        lemma_item_weight(items, i);
    }
}

proof fn lemma_reflexive_step(n: nat, a: ValueView)
    requires
        laws_below(n),
        a.well_formed(),
        weight(a) <= n,
    ensures
        values_equal(a, a),
{
    match a {
        ValueView::Sequence(items) => {
            lemma_sequence_parts(items, n);
            assert forall|i: int| 0 <= i < items.len() implies values_equal(
                #[trigger] items[i],
                items[i],
            ) by {
                lemma_reflexive_below(n, items[i]);
            }
        },
        ValueView::Mapping(entries) => {
            lemma_mapping_parts(entries, n);
            assert forall|i: int| 0 <= i < entries.len() implies entry_found(
                #[trigger] entries[i],
                entries,
            ) by {
                lemma_reflexive_below(n, entries[i].0);
                lemma_reflexive_below(n, entries[i].1);
                lemma_key_index_below(n, entries, entries[i].0, i);
            }
        },
        ValueView::Tagged(_, under) => {
            lemma_reflexive_below(n, *under);
        },
        _ => {},
    }
}

/// Whether `f` takes the value `t` on one of the first `n` numbers.
pub open spec fn taken(n: nat, f: spec_fn(int) -> int, t: int) -> bool {
    exists|i: int| 0 <= i < n && #[trigger] f(i) == t
}

/// A function from the first `n` numbers into themselves that never takes a
/// value twice takes each of them.
pub proof fn lemma_pigeonhole(n: nat, f: spec_fn(int) -> int)
    requires
        forall|i: int| 0 <= i < n ==> 0 <= #[trigger] f(i) < n,
        forall|i: int, j: int| 0 <= i < n && 0 <= j < n && #[trigger] f(i) == #[trigger] f(j) ==> i == j,
    ensures
        forall|t: int| 0 <= t < n ==> #[trigger] taken(n, f, t),
    decreases n,
{
    if n > 0 {
        let last = f(n - 1);
        let g = |i: int|
            if f(i) < last {
                f(i)
            } else {
                f(i) - 1
            };
        assert forall|i: int| 0 <= i < n - 1 implies 0 <= #[trigger] g(i) < n - 1 by {
            assert(f(i) != f(n - 1));
        }
        assert forall|i: int, j: int|
            0 <= i < n - 1 && 0 <= j < n - 1 && #[trigger] g(i) == #[trigger] g(j) implies i
            == j by {
            assert(f(i) != f(n - 1));
            assert(f(j) != f(n - 1));
            assert(f(i) == f(j));
        }
        lemma_pigeonhole((n - 1) as nat, g);
        assert forall|t: int| 0 <= t < n implies #[trigger] taken(n, f, t) by {
            if t == last {
                assert(f(n - 1) == t);
            } else if t < last {
                assert(taken((n - 1) as nat, g, t));
                let i = choose|i: int| 0 <= i < n - 1 && #[trigger] g(i) == t;
                assert(f(i) != f(n - 1));
                assert(f(i) == t);
            } else {
                assert(taken((n - 1) as nat, g, t - 1));
                let i = choose|i: int| 0 <= i < n - 1 && #[trigger] g(i) == t - 1;
                assert(f(i) != f(n - 1));
                assert(f(i) == t);
            }
        }
    }
}

proof fn lemma_symmetric_step(n: nat, a: ValueView, b: ValueView)
    requires
        laws_below(n),
        a.well_formed(),
        b.well_formed(),
        weight(a) <= n,
        weight(b) <= n,
        values_equal(a, b),
    ensures
        values_equal(b, a),
{
    match (a, b) {
        (ValueView::Sequence(x), ValueView::Sequence(y)) => {
            lemma_sequence_parts(x, n);
            lemma_sequence_parts(y, n);
            assert forall|i: int| 0 <= i < y.len() implies values_equal(#[trigger] y[i], x[i]) by {
                assert(values_equal(x[i], y[i]));
                lemma_symmetric_below(n, x[i], y[i]);
            }
        },
        (ValueView::Mapping(x), ValueView::Mapping(y)) => {
            lemma_mapping_parts(x, n);
            lemma_mapping_parts(y, n);
            let f = |i: int| key_index(y, x[i].0)->0;
            assert forall|i: int| 0 <= i < x.len() implies 0 <= #[trigger] f(i) < x.len()
                && values_equal(x[i].0, y[f(i)].0) && values_equal(x[i].1, y[f(i)].1) by {
                assert(entry_found(x[i], y));
                lemma_key_index(y, x[i].0);
            }
            assert forall|i: int, j: int|
                0 <= i < x.len() && 0 <= j < x.len() && #[trigger] f(i) == #[trigger] f(j) implies i
                == j by {
                if i != j {
                    let t = f(i);
                    lemma_symmetric_below(n, x[j].0, y[t].0);
                    lemma_transitive_below(n, x[i].0, y[t].0, x[j].0);
                }
            }
            lemma_pigeonhole(x.len(), f);
            assert forall|t: int| 0 <= t < y.len() implies entry_found(#[trigger] y[t], x) by {
                assert(taken(x.len(), f, t));
                let i = choose|i: int| 0 <= i < x.len() && #[trigger] f(i) == t;
                lemma_symmetric_below(n, x[i].0, y[t].0);
                lemma_key_index_below(n, x, y[t].0, i);
                lemma_symmetric_below(n, x[i].1, y[t].1);
            }
        },
        (ValueView::Tagged(_, x), ValueView::Tagged(_, y)) => {
            lemma_symmetric_below(n, *x, *y);
        },
        _ => {},
    }
}

proof fn lemma_transitive_step(n: nat, a: ValueView, b: ValueView, c: ValueView)
    requires
        laws_below(n),
        a.well_formed(),
        b.well_formed(),
        c.well_formed(),
        weight(a) <= n,
        weight(b) <= n,
        weight(c) <= n,
        values_equal(a, b),
        values_equal(b, c),
    ensures
        values_equal(a, c),
{
    match (a, b, c) {
        (ValueView::Sequence(x), ValueView::Sequence(y), ValueView::Sequence(z)) => {
            lemma_sequence_parts(x, n);
            lemma_sequence_parts(y, n);
            lemma_sequence_parts(z, n);
            assert forall|i: int| 0 <= i < x.len() implies values_equal(#[trigger] x[i], z[i]) by {
                assert(values_equal(x[i], y[i]));
                assert(values_equal(y[i], z[i]));
                lemma_transitive_below(n, x[i], y[i], z[i]);
            }
        },
        (ValueView::Mapping(x), ValueView::Mapping(y), ValueView::Mapping(z)) => {
            lemma_mapping_parts(x, n);
            lemma_mapping_parts(y, n);
            lemma_mapping_parts(z, n);
            assert forall|i: int| 0 <= i < x.len() implies entry_found(#[trigger] x[i], z) by {
                assert(entry_found(x[i], y));
                lemma_key_index(y, x[i].0);
                let j = key_index(y, x[i].0)->0;
                assert(entry_found(y[j], z));
                lemma_key_index(z, y[j].0);
                let k = key_index(z, y[j].0)->0;
                lemma_transitive_below(n, x[i].0, y[j].0, z[k].0);
                lemma_key_index_below(n, z, x[i].0, k);
                lemma_transitive_below(n, x[i].1, y[j].1, z[k].1);
            }
        },
        (ValueView::Tagged(_, x), ValueView::Tagged(_, y), ValueView::Tagged(_, z)) => {
            lemma_transitive_below(n, *x, *y, *z);
        },
        _ => {},
    }
}

proof fn lemma_laws_below(n: nat)
    ensures
        laws_below(n),
    decreases n,
{
    if n > 0 {
        let m = (n - 1) as nat;
        lemma_laws_below(m);
        assert forall|a: ValueView| a.well_formed() && weight(a) < n implies #[trigger] values_equal(
            a,
            a,
        ) by {
            lemma_reflexive_step(m, a);
        }
        assert forall|a: ValueView, b: ValueView|
            a.well_formed() && b.well_formed() && weight(a) < n && weight(b) < n
                && #[trigger] values_equal(a, b) implies values_equal(b, a) by {
            lemma_symmetric_step(m, a, b);
        }
        assert forall|a: ValueView, b: ValueView, c: ValueView|
            a.well_formed() && b.well_formed() && c.well_formed() && weight(a) < n && weight(b) < n
                && weight(c) < n && #[trigger] values_equal(a, b) && #[trigger] values_equal(
                b,
                c,
            ) implies values_equal(a, c) by {
            lemma_transitive_step(m, a, b, c);
        }
    }
}

/// Every well-formed value equals itself.
pub proof fn lemma_equal_reflexive(a: ValueView)
    requires
        a.well_formed(),
    ensures
        values_equal(a, a),
{
    lemma_laws_below(weight(a));
    lemma_reflexive_step(weight(a), a);
}

/// Where a well-formed value equals another, the other equals it.
pub proof fn lemma_equal_symmetric(a: ValueView, b: ValueView)
    requires
        a.well_formed(),
        b.well_formed(),
        values_equal(a, b),
    ensures
        values_equal(b, a),
{
    let n = weight(a) + weight(b);
    lemma_laws_below(n);
    lemma_symmetric_step(n, a, b);
}

/// Two well-formed values that equal a third in the middle are equal.
pub proof fn lemma_equal_transitive(a: ValueView, b: ValueView, c: ValueView)
    requires
        a.well_formed(),
        b.well_formed(),
        c.well_formed(),
        values_equal(a, b),
        values_equal(b, c),
    ensures
        values_equal(a, c),
{
    let n = weight(a) + weight(b) + weight(c);
    lemma_laws_below(n);
    lemma_transitive_step(n, a, b, c);
}

} // verus!
