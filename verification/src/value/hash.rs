//! The hash of a value, and the proof that equal values have equal hashes.

use crate::hashing::{hash_chars, hash_str, mix, mix_word, write_u64, HASH_SEED};
use crate::mapping::Mapping;
use crate::number::number_hash;
use crate::value::equality::{
    lemma_entry_weight, lemma_equal_symmetric, lemma_equal_transitive, lemma_item_weight,
    lemma_pigeonhole, taken, weight,
};
use crate::value::model::{
    entry_found, key_index, lemma_key_index, lemma_mapping_well_formed,
    lemma_sequence_well_formed, values_equal, Entries, ValueView,
};
use crate::value::tagged::TaggedValue;
use crate::value::{lemma_sequence_view, values_view, Value};
use vstd::prelude::*;

verus! {

/// The hash of a value.
///
/// The hash of a mapping does not depend on the order of its entries, as
/// its equality does not.
pub open spec fn hash_of(v: ValueView) -> u64
    decreases v,
{
    match v {
        ValueView::Null => mix(HASH_SEED, 0),
        ValueView::Bool(b) => mix(
            mix(HASH_SEED, 1),
            if b {
                1
            } else {
                0
            },
        ),
        ValueView::Number(n) => number_hash(n),
        ValueView::String(s) => text_hash(s),
        ValueView::Sequence(items) => mix(mix(HASH_SEED, 4), hash_items(items)),
        ValueView::Mapping(entries) => mix(
            mix(HASH_SEED, 5),
            (entries_sum(entries) % 0x1_0000_0000_0000_0000) as u64,
        ),
        ValueView::Tagged(tag, under) => mix(
            mix(mix(HASH_SEED, 6), hash_chars(tag)),
            hash_of(*under),
        ),
    }
}

/// The hash of the string value with these characters.
pub open spec fn text_hash(text: Seq<char>) -> u64 {
    mix(mix(HASH_SEED, 3), hash_chars(text))
}

/// The hashes of the elements of a sequence, mixed in order.
pub open spec fn hash_items(items: Seq<ValueView>) -> u64
    decreases items,
{
    if items.len() == 0 {
        HASH_SEED
    } else {
        mix(hash_items(items.drop_last()), hash_of(items.last()))
    }
}

/// The hash of one entry: that of its key and then that of its value, mixed
/// in.
pub open spec fn entry_hash(entry: (ValueView, ValueView)) -> u64
    decreases entry, 0nat,
{
    mix(mix(HASH_SEED, hash_of(entry.0)), hash_of(entry.1))
}

/// The hashes of the entries of a mapping, added up.
pub open spec fn entries_sum(entries: Entries) -> int
    decreases entries, 1nat,
{
    if entries.len() == 0 {
        0
    } else {
        entries_sum(entries.drop_last()) + entry_hash(entries.last())
    }
}

/// The hash of a string value, from its text alone: what `hash_code` gives
/// for the string value with this text.
pub fn hash_text(text: &str) -> (h: u64)
    ensures
        h == hash_of(ValueView::String(text@)),
{
    mix_word(mix_word(HASH_SEED, 3), hash_str(text))
}

/// The hash of a value.
pub fn value_hash(v: &Value) -> (h: u64)
    ensures
        h == hash_of(v@),
    decreases *v, 0nat,
{
    match v {
        Value::Null => mix_word(HASH_SEED, 0),
        Value::Bool(b) => mix_word(
            mix_word(HASH_SEED, 1),
            if *b {
                1
            } else {
                0
            },
        ),
        Value::Number(n) => n.hash_code(),
        Value::String(s) => hash_text(s.as_str()),
        Value::Sequence(items) => {
            let ghost views = values_view(items@);
            proof {
                lemma_sequence_view(*items);
            }
            let mut h: u64 = HASH_SEED;
            let mut i: usize = 0;
            while i < items.len()
                invariant
                    i <= items.len(),
                    views == values_view(items@),
                    *v is Sequence,
                    v->Sequence_0 == *items,
                    h == hash_items(views.take(i as int)),
                decreases items.len() - i,
            {
                proof {
                    assert(views.take(i + 1).drop_last() =~= views.take(i as int));
                    assert(views.take(i + 1).last() == items[i as int]@);
                }
                let item = value_hash(&items[i]);
                h = mix_word(h, item);
                i += 1;
            }
            proof {
                assert(views.take(views.len() as int) =~= views);
            }
            mix_word(mix_word(HASH_SEED, 4), h)
        },
        Value::Mapping(m) => mix_word(mix_word(HASH_SEED, 5), m.entries_hash()),
        Value::Tagged(t) => {
            let tag = hash_str(t.tag.as_str());
            let under = value_hash(&t.value);
            mix_word(mix_word(mix_word(HASH_SEED, 6), tag), under)
        },
    }
}

impl Value {
    /// The hash of the value. Equal values have equal hashes.
    pub fn hash_code(&self) -> (h: u64)
        ensures
            h == hash_of(self@),
    {
        value_hash(self)
    }
}

impl core::hash::Hash for Value {
    /// Feeds the hash of the value, so that equal values hash alike; a string
    /// value feeds what `hash_text` gives for its text.
    fn hash<H: core::hash::Hasher>(&self, state: &mut H) {
        write_u64(state, value_hash(self));
    }
}

impl core::hash::Hash for Mapping {
    /// Feeds the hash of the mapping, whatever the order of its entries.
    fn hash<H: core::hash::Hasher>(&self, state: &mut H) {
        write_u64(state, self.entries_hash());
    }
}

impl core::hash::Hash for TaggedValue {
    /// Feeds the hash of the tag and that of the value.
    fn hash<H: core::hash::Hasher>(&self, state: &mut H) {
        write_u64(state, hash_str(self.tag.as_str()));
        write_u64(state, value_hash(&self.value));
    }
}

/// Adding a word with wrapping keeps step with the sum.
pub proof fn lemma_wrapping_sum_step(sum: int, h: u64, word: u64)
    requires
        sum >= 0,
        h == sum % 0x1_0000_0000_0000_0000,
    ensures
        h.wrapping_add(word) == (sum + word) % 0x1_0000_0000_0000_0000,
{
    let m = 0x1_0000_0000_0000_0000int;
    vstd::arithmetic::div_mod::lemma_add_mod_noop(sum, word as int, m);
    vstd::arithmetic::div_mod::lemma_small_mod(word as nat, m as nat);
    let t = h + word;
    if t < m {
        vstd::arithmetic::div_mod::lemma_small_mod(t as nat, m as nat);
    } else {
        vstd::arithmetic::div_mod::lemma_small_mod((t - m) as nat, m as nat);
        vstd::arithmetic::div_mod::lemma_mod_sub_multiples_vanish(t, m);
    }
}

/// The sum of the hashes of entries is never negative.
pub proof fn lemma_entries_sum_nonnegative(entries: Entries)
    ensures
        entries_sum(entries) >= 0,
    decreases entries.len(),
{
    if entries.len() > 0 {
        lemma_entries_sum_nonnegative(entries.drop_last());
    }
}

/// The sum of a sequence of words.
pub open spec fn words_sum(words: Seq<u64>) -> int
    decreases words.len(),
{
    if words.len() == 0 {
        0
    } else {
        words_sum(words.drop_last()) + words.last()
    }
}

proof fn lemma_words_sum_remove(words: Seq<u64>, j: int)
    requires
        0 <= j < words.len(),
    ensures
        words_sum(words) == words_sum(words.remove(j)) + words[j],
    decreases words.len(),
{
    if j == words.len() - 1 {
        assert(words.remove(j) =~= words.drop_last());
    } else {
        lemma_words_sum_remove(words.drop_last(), j);
        assert(words.remove(j).drop_last() =~= words.drop_last().remove(j));
        assert(words.remove(j).last() == words.last());
    }
}

/// Two sequences of words of which one is the other in another order have
/// the same sum.
proof fn lemma_words_sum_permuted(a: Seq<u64>, b: Seq<u64>, f: spec_fn(int) -> int)
    requires
        a.len() == b.len(),
        forall|i: int| 0 <= i < a.len() ==> 0 <= #[trigger] f(i) < a.len(),
        forall|i: int, j: int|
            0 <= i < a.len() && 0 <= j < a.len() && #[trigger] f(i) == #[trigger] f(j) ==> i == j,
        forall|i: int| 0 <= i < a.len() ==> a[i] == b[#[trigger] f(i)],
    ensures
        words_sum(a) == words_sum(b),
    decreases a.len(),
{
    if a.len() > 0 {
        let n = a.len() - 1;
        let last = f(n);
        let g = |i: int|
            if f(i) < last {
                f(i)
            } else {
                f(i) - 1
            };
        let shorter = b.remove(last);
        assert forall|i: int| 0 <= i < n implies 0 <= #[trigger] g(i) < n && a.drop_last()[i]
            == shorter[g(i)] by {
            assert(f(i) != f(n));
            assert(a[i] == b[f(i)]);
        }
        assert forall|i: int, j: int|
            0 <= i < n && 0 <= j < n && #[trigger] g(i) == #[trigger] g(j) implies i == j by {
            assert(f(i) != f(n));
            assert(f(j) != f(n));
            assert(f(i) == f(j));
        }
        lemma_words_sum_permuted(a.drop_last(), shorter, g);
        lemma_words_sum_remove(b, last);
        assert(a[n] == b[f(n)]);
    }
}

/// The hashes of the entries, in order.
pub open spec fn entry_hashes(entries: Entries) -> Seq<u64> {
    Seq::new(entries.len(), |i: int| entry_hash(entries[i]))
}

proof fn lemma_entries_sum_words(entries: Entries)
    ensures
        entries_sum(entries) == words_sum(entry_hashes(entries)),
    decreases entries.len(),
{
    if entries.len() > 0 {
        lemma_entries_sum_words(entries.drop_last());
        assert(entry_hashes(entries).drop_last() =~= entry_hashes(entries.drop_last()));
        assert(entry_hashes(entries).last() == entry_hash(entries.last()));
    }
}

proof fn lemma_hash_items_equal(x: Seq<ValueView>, y: Seq<ValueView>)
    requires
        x.len() == y.len(),
        forall|i: int| 0 <= i < x.len() ==> hash_of(#[trigger] x[i]) == hash_of(y[i]),
    ensures
        hash_items(x) == hash_items(y),
    decreases x.len(),
{
    if x.len() > 0 {
        assert forall|i: int| 0 <= i < x.len() - 1 implies hash_of(#[trigger] x.drop_last()[i])
            == hash_of(y.drop_last()[i]) by {
            assert(x.drop_last()[i] == x[i]);
            assert(hash_of(x[i]) == hash_of(y[i]));
        }
        lemma_hash_items_equal(x.drop_last(), y.drop_last());
        assert(hash_of(x[x.len() - 1]) == hash_of(y[x.len() - 1]));
    }
}

/// Equal values have equal hashes.
pub proof fn lemma_equal_hash(a: ValueView, b: ValueView)
    requires
        a.well_formed(),
        b.well_formed(),
        values_equal(a, b),
    ensures
        hash_of(a) == hash_of(b),
    decreases weight(a) + weight(b),
{
    match (a, b) {
        (ValueView::Sequence(x), ValueView::Sequence(y)) => {
            lemma_sequence_well_formed(x);
            lemma_sequence_well_formed(y);
            assert forall|i: int| 0 <= i < x.len() implies hash_of(#[trigger] x[i]) == hash_of(
                y[i],
            ) by {
                lemma_item_weight(x, i);
                lemma_item_weight(y, i);
                assert(values_equal(x[i], y[i]));
                lemma_equal_hash(x[i], y[i]);
            }
            lemma_hash_items_equal(x, y);
        },
        (ValueView::Mapping(x), ValueView::Mapping(y)) => {
            lemma_mapping_well_formed(x);
            lemma_mapping_well_formed(y);
            let f = |i: int| key_index(y, x[i].0)->0;
            assert forall|i: int| 0 <= i < x.len() implies 0 <= #[trigger] f(i) < x.len()
                && values_equal(x[i].0, y[f(i)].0) && entry_hashes(x)[i] == entry_hashes(y)[f(
                i,
            )] by {
                assert(entry_found(x[i], y));
                lemma_key_index(y, x[i].0);
                let t = f(i);
                lemma_entry_weight(x, i);
                lemma_entry_weight(y, t);
                lemma_equal_hash(x[i].0, y[t].0);
                lemma_equal_hash(x[i].1, y[t].1);
            }
            assert forall|i: int, j: int|
                0 <= i < x.len() && 0 <= j < x.len() && #[trigger] f(i) == #[trigger] f(j) implies i
                == j by {
                if i != j {
                    let t = f(i);
                    lemma_equal_symmetric(x[j].0, y[t].0);
                    lemma_equal_transitive(x[i].0, y[t].0, x[j].0);
                }
            }
            lemma_words_sum_permuted(entry_hashes(x), entry_hashes(y), f);
            lemma_entries_sum_words(x);
            lemma_entries_sum_words(y);
        },
        (ValueView::Tagged(_, x), ValueView::Tagged(_, y)) => {
            lemma_equal_hash(*x, *y);
        },
        _ => {},
    }
}

} // verus!
