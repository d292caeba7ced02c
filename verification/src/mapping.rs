//! A mapping of a document: keys of any kind of value, kept in insertion
//! order, each key held once.

use crate::value::model::{
    entries_insert, entries_merge, entries_or_insert, entries_swap_remove, entry_found, key_index,
    lemma_key_index, lemma_key_index_is, lemma_key_index_none, lemma_mapping_well_formed,
    or_insert_index, values_equal, Entries, ValueView,
};
use crate::hashing::{mix_word, HASH_SEED};
use crate::value::hash::{
    entries_sum, entry_hash, hash_of, lemma_entries_sum_nonnegative, lemma_wrapping_sum_step,
    value_hash,
};
use crate::value::well_formed::{
    entries_well_formed, lemma_insert_well_formed, lemma_merge_well_formed,
    lemma_or_insert_well_formed, lemma_swap_remove_well_formed, lemma_update_well_formed,
};
use crate::value::{clone_value, value_eq, value_view, Value};
use vstd::prelude::*;

verus! {

/// A mapping from values to values that remembers the order of insertion.
#[derive(Debug)]
pub struct Mapping {
    entries: Vec<(Value, Value)>,
}

/// What a mapping stands for: its entries in insertion order.
pub closed spec fn mapping_view(m: Mapping) -> Entries
    decreases m,
{
    Seq::new(
        m.entries.len() as nat,
        |i: int|
            if 0 <= i < m.entries.len() {
                (value_view(m.entries[i].0), value_view(m.entries[i].1))
            } else {
                (ValueView::Null, ValueView::Null)
            },
    )
}

/// `str`'s `==`: whether the two hold the same characters.
#[verifier::external_body]
fn str_eq(a: &str, b: &str) -> (r: bool)
    ensures
        r == (a@ == b@),
{
    a == b
}

impl View for Mapping {
    type V = Entries;

    open spec fn view(&self) -> Entries {
        mapping_view(*self)
    }
}

impl Mapping {
    /// An empty mapping.
    pub fn new() -> (m: Mapping)
        ensures
            m@ == Entries::empty(),
            m.well_formed(),
    {
        let m = Mapping { entries: Vec::new() };
        proof {
            assert(m@ =~= Entries::empty());
            lemma_mapping_well_formed(m@);
        }
        m
    }

    /// Whether the mapping holds each of its keys once, and so does every
    /// mapping in its keys and values. The operations of this type keep it
    /// so.
    pub open spec fn well_formed(&self) -> bool {
        entries_well_formed(self@)
    }

    /// The number of entries.
    pub fn len(&self) -> (n: usize)
        ensures
            n == self@.len(),
    {
        self.entries.len()
    }

    /// Whether the mapping has no entry.
    pub fn is_empty(&self) -> (b: bool)
        ensures
            b == (self@.len() == 0),
    {
        self.entries.len() == 0
    }

    /// The position of the entry under `key`, if there is one.
    pub fn position(&self, key: &Value) -> (r: Option<usize>)
        ensures
            match r {
                Some(i) => i < self@.len() && key_index(self@, key@) == Some(i as int),
                None => key_index(self@, key@) is None,
            },
        decreases *key, 1nat, 0nat,
    {
        let mut i: usize = 0;
        while i < self.entries.len()
            invariant
                i <= self.entries.len(),
                forall|j: int| 0 <= j < i ==> !values_equal(key@, (#[trigger] self@[j]).0),
            decreases self.entries.len() - i,
        {
            if value_eq(key, &self.entries[i].0) {
                proof {
                    lemma_key_index_is(self@, key@, i as int);
                }
                return Some(i);
            }
            i += 1;
        }
        proof {
            lemma_key_index_none(self@, key@);
        }
        None
    }

    /// The position of the entry whose key is the string `key`, if there is
    /// one. The key is compared as text: no value is built for it.
    pub fn position_str(&self, key: &str) -> (r: Option<usize>)
        ensures
            match r {
                Some(i) => i < self@.len() && key_index(self@, ValueView::String(key@)) == Some(
                    i as int,
                ),
                None => key_index(self@, ValueView::String(key@)) is None,
            },
    {
        let mut i: usize = 0;
        while i < self.entries.len()
            invariant
                i <= self.entries.len(),
                forall|j: int|
                    0 <= j < i ==> !values_equal(ValueView::String(key@), (#[trigger] self@[j]).0),
            decreases self.entries.len() - i,
        {
            let found = match &self.entries[i].0 {
                Value::String(s) => str_eq(key, s.as_str()),
                _ => false,
            };
            if found {
                proof {
                    lemma_key_index_is(self@, ValueView::String(key@), i as int);
                }
                return Some(i);
            }
            i += 1;
        }
        proof {
            lemma_key_index_none(self@, ValueView::String(key@));
        }
        None
    }

    /// Whether the mapping holds `key`.
    pub fn contains_key(&self, key: &Value) -> (b: bool)
        ensures
            b == (key_index(self@, key@) is Some),
    {
        self.position(key).is_some()
    }

    /// The value under `key`, if the mapping holds the key.
    pub fn get(&self, key: &Value) -> (r: Option<&Value>)
        ensures
            match key_index(self@, key@) {
                Some(i) => r matches Some(v) && v@ == self@[i].1,
                None => r is None,
            },
    {
        match self.position(key) {
            Some(i) => Some(&self.entries[i].1),
            None => None,
        }
    }

    /// The value under the string `key`, if the mapping holds that key.
    pub fn get_str(&self, key: &str) -> (r: Option<&Value>)
        ensures
            match key_index(self@, ValueView::String(key@)) {
                Some(i) => r matches Some(v) && v@ == self@[i].1,
                None => r is None,
            },
    {
        match self.position_str(key) {
            Some(i) => Some(&self.entries[i].1),
            None => None,
        }
    }

    /// The value at position `i`.
    pub fn value_at(&self, i: usize) -> (v: &Value)
        requires
            i < self@.len(),
        ensures
            v@ == self@[i as int].1,
    {
        &self.entries[i].1
    }

    /// The value at position `i`, to be changed in place.
    pub fn value_mut_at(&mut self, i: usize) -> (v: &mut Value)
        requires
            i < old(self)@.len(),
        ensures
            v@ == old(self)@[i as int].1,
            final(self)@ == old(self)@.update(i as int, (old(self)@[i as int].0, final(v)@)),
    {
        let ghost before = self@;
        let ghost after = *final(self);
        let entry = &mut self.entries[i];
        let v = &mut entry.1;
        proof {
            assert(after@ =~= before.update(i as int, (before[i as int].0, final(v)@)));
        }
        v
    }

    /// The value under `key`, to be changed in place, if the mapping holds
    /// the key.
    pub fn get_mut(&mut self, key: &Value) -> (r: Option<&mut Value>)
        ensures
            match key_index(old(self)@, key@) {
                Some(i) => r matches Some(v) && v@ == old(self)@[i].1 && final(self)@ == old(
                    self,
                )@.update(i, (old(self)@[i].0, final(v)@)),
                None => r is None && final(self)@ == old(self)@,
            },
    {
        match self.position(key) {
            Some(i) => Some(self.value_mut_at(i)),
            None => None,
        }
    }

    /// The value under the string `key`, to be changed in place, if the
    /// mapping holds that key.
    pub fn get_str_mut(&mut self, key: &str) -> (r: Option<&mut Value>)
        ensures
            match key_index(old(self)@, ValueView::String(key@)) {
                Some(i) => r matches Some(v) && v@ == old(self)@[i].1 && final(self)@ == old(
                    self,
                )@.update(i, (old(self)@[i].0, final(v)@)),
                None => r is None && final(self)@ == old(self)@,
            },
    {
        match self.position_str(key) {
            Some(i) => Some(self.value_mut_at(i)),
            None => None,
        }
    }

    /// Puts `value` under `key` and returns the value that the key had. A
    /// key that the mapping holds keeps its place; a new key goes to the end.
    pub fn insert(&mut self, key: Value, value: Value) -> (previous: Option<Value>)
        ensures
            final(self)@ == entries_insert(old(self)@, key@, value@),
            match key_index(old(self)@, key@) {
                Some(i) => previous matches Some(p) && p@ == old(self)@[i].1,
                None => previous is None,
            },
            old(self).well_formed() && key@.well_formed() && value@.well_formed()
                ==> final(self).well_formed(),
    {
        let ghost before = self@;
        proof {
            if entries_well_formed(before) && key@.well_formed() && value@.well_formed() {
                lemma_insert_well_formed(before, key@, value@);
            }
        }
        match self.position(&key) {
            Some(i) => {
                let mut held = value;
                let slot = self.value_mut_at(i);
                core::mem::swap(slot, &mut held);
                Some(held)
            },
            None => {
                self.entries.push((key, value));
                assert(self@ =~= before.push((key@, value@)));
                None
            },
        }
    }

    /// The value under `key`, to be changed in place, after putting `value`
    /// there if the mapping did not hold the key.
    pub fn or_insert(&mut self, key: Value, value: Value) -> (r: &mut Value)
        ensures
            ({
                let ready = entries_or_insert(old(self)@, key@, value@);
                let i = or_insert_index(old(self)@, key@);
                &&& 0 <= i < ready.len()
                &&& r@ == ready[i].1
                &&& final(self)@ == ready.update(i, (ready[i].0, final(r)@))
            }),
            old(self).well_formed() && key@.well_formed() && value@.well_formed()
                && final(r)@.well_formed() ==> final(self).well_formed(),
    {
        let ghost before = self@;
        let ghost after = final(self)@;
        proof {
            lemma_key_index(before, key@);
        }
        let i = match self.position(&key) {
            Some(i) => i,
            None => {
                self.entries.push((key, value));
                assert(self@ =~= before.push((key@, value@)));
                self.entries.len() - 1
            },
        };
        let r = self.value_mut_at(i);
        assert(entries_well_formed(before) && key@.well_formed() && value@.well_formed()
            && final(r)@.well_formed() ==> entries_well_formed(after)) by {
            let ready = entries_or_insert(before, key@, value@);
            if entries_well_formed(before) && key@.well_formed() && value@.well_formed()
                && final(r)@.well_formed() {
                lemma_or_insert_well_formed(before, key@, value@);
                lemma_update_well_formed(ready, i as int, final(r)@);
            }
        }
        r
    }

    /// Offers each entry of `other` to this mapping, in order: an entry is
    /// added at the end unless its key is already there.
    pub fn merge_absent(&mut self, other: Mapping)
        ensures
            final(self)@ == entries_merge(old(self)@, other@),
            old(self).well_formed() && other.well_formed() ==> final(self).well_formed(),
    {
        proof {
            if entries_well_formed(self@) && entries_well_formed(other@) {
                lemma_merge_well_formed(self@, other@);
            }
        }
        let ghost before = self@;
        let ghost extra = other@;
        let items = other.entries;
        for entry in it: items
            invariant
                it.seq().len() == extra.len(),
                forall|j: int|
                    0 <= j < extra.len() ==> (#[trigger] it.seq()[j]).0@ == extra[j].0
                        && it.seq()[j].1@ == extra[j].1,
                self@ == entries_merge(before, extra.take(it.index())),
        {
            let ghost n = it.index();
            let (key, value) = entry;
            proof {
                assert(extra.take(n + 1).drop_last() =~= extra.take(n));
                assert(extra.take(n + 1).last() == extra[n]);
            }
            let _ = self.or_insert(key, value);
        }
        assert(extra.take(extra.len() as int) =~= extra);
    }

    /// Takes the entry at position `i` out of the mapping: the last entry
    /// takes its place.
    pub fn swap_remove_at(&mut self, i: usize) -> (entry: (Value, Value))
        requires
            i < old(self)@.len(),
        ensures
            (entry.0@, entry.1@) == old(self)@[i as int],
            final(self)@ == entries_swap_remove(old(self)@, i as int),
            old(self).well_formed() ==> final(self).well_formed(),
    {
        let ghost before = self@;
        proof {
            if entries_well_formed(before) {
                lemma_swap_remove_well_formed(before, i as int);
            }
        }
        let entry = self.entries.swap_remove(i);
        assert(self@ =~= entries_swap_remove(before, i as int));
        entry
    }

    /// Takes the entry under `key` out of the mapping and returns its value:
    /// the last entry takes its place.
    pub fn remove(&mut self, key: &Value) -> (removed: Option<Value>)
        ensures
            match key_index(old(self)@, key@) {
                Some(i) => removed matches Some(v) && v@ == old(self)@[i].1 && final(self)@
                    == entries_swap_remove(old(self)@, i),
                None => removed is None && final(self)@ == old(self)@,
            },
            old(self).well_formed() ==> final(self).well_formed(),
    {
        match self.position(key) {
            Some(i) => Some(self.swap_remove_at(i).1),
            None => None,
        }
    }

    /// Takes the entry under the string `key` out of the mapping and returns
    /// its value: the last entry takes its place.
    pub fn remove_str(&mut self, key: &str) -> (removed: Option<Value>)
        ensures
            match key_index(old(self)@, ValueView::String(key@)) {
                Some(i) => removed matches Some(v) && v@ == old(self)@[i].1 && final(self)@
                    == entries_swap_remove(old(self)@, i),
                None => removed is None && final(self)@ == old(self)@,
            },
            old(self).well_formed() ==> final(self).well_formed(),
    {
        match self.position_str(key) {
            Some(i) => Some(self.swap_remove_at(i).1),
            None => None,
        }
    }

    /// The key at position `i`.
    pub fn key_at(&self, i: usize) -> (k: &Value)
        requires
            i < self@.len(),
        ensures
            k@ == self@[i as int].0,
    {
        &self.entries[i].0
    }

    /// The entries in insertion order, each a key and its value.
    pub fn into_entries(self) -> (entries: Vec<(Value, Value)>)
        ensures
            entries@.len() == self@.len(),
            forall|i: int|
                0 <= i < entries@.len() ==> ((#[trigger] entries@[i]).0@, entries@[i].1@)
                    == self@[i],
    {
        self.entries
    }

    /// The values in insertion order, each to be changed in place.
    pub fn values_mut(&mut self) -> (values: Vec<&mut Value>)
        ensures
            values@.len() == old(self)@.len(),
            final(self)@.len() == old(self)@.len(),
            forall|i: int|
                0 <= i < values@.len() ==> (*#[trigger] values@[i])@ == old(self)@[i].1,
            forall|i: int|
                0 <= i < values@.len() ==> final(self)@[i] == (
                    old(self)@[i].0,
                    (*final(#[trigger] values@[i]))@,
                ),
    {
        let ghost before = *self;
        let ghost after = *final(self);
        let mut values: Vec<&mut Value> = Vec::new();
        let mut rest: &mut [(Value, Value)] = self.entries.as_mut_slice();
        while rest.len() > 0
            invariant
                values@.len() <= before.entries@.len(),
                rest@ == before.entries@.subrange(
                    values@.len() as int,
                    before.entries@.len() as int,
                ),
                forall|i: int|
                    0 <= i < values@.len() ==> *(#[trigger] values@[i]) == before.entries@[i].1,
                after.entries@ == Seq::new(
                    values@.len(),
                    |i: int| (before.entries@[i].0, *final(values@[i])),
                ) + final(rest)@,
            decreases rest.len(),
        {
            let (head, tail) = rest.split_at_mut(1);
            rest = tail;
            match head.first_mut() {
                Some(entry) => {
                    let value = &mut entry.1;
                    values.push(value);
                },
                None => {},
            }
        }
        proof {
            assert(before.entries@.subrange(
                values@.len() as int,
                before.entries@.len() as int,
            ).len() == 0);
            assert(after.entries@ =~= Seq::new(
                values@.len(),
                |i: int| (before.entries@[i].0, *final(values@[i])),
            ));
            assert forall|i: int| 0 <= i < values@.len() implies after@[i] == (
                before@[i].0,
                (*final(#[trigger] values@[i]))@,
            ) by {
                assert(after.entries@[i] == (before.entries@[i].0, *final(values@[i])));
            }
        }
        values
    }

    /// A copy of the mapping.
    pub fn clone_entries(&self) -> (copy: Mapping)
        ensures
            copy@ == self@,
        decreases *self, 0nat,
    {
        let mut entries: Vec<(Value, Value)> = Vec::new();
        let mut i: usize = 0;
        while i < self.entries.len()
            invariant
                i <= self.entries.len(),
                entries.len() == i,
                forall|j: int|
                    0 <= j < i ==> (#[trigger] entries[j]).0@ == self.entries[j].0@ && entries[j].1@
                        == self.entries[j].1@,
            decreases self.entries.len() - i,
        {
            let key = clone_value(&self.entries[i].0);
            let value = clone_value(&self.entries[i].1);
            entries.push((key, value));
            i += 1;
        }
        let copy = Mapping { entries };
        assert(copy@ =~= self@);
        copy
    }

    /// The hashes of the entries, added up with wrapping: the same whatever
    /// the order of the entries.
    pub fn entries_hash(&self) -> (h: u64)
        ensures
            h == entries_sum(self@) % 0x1_0000_0000_0000_0000,
        decreases *self, 0nat,
    {
        let mut h: u64 = 0;
        let mut i: usize = 0;
        while i < self.entries.len()
            invariant
                i <= self.entries.len(),
                h == entries_sum(self@.take(i as int)) % 0x1_0000_0000_0000_0000,
            decreases self.entries.len() - i,
        {
            proof {
                assert(self@.take(i + 1).drop_last() =~= self@.take(i as int));
                assert(self@.take(i + 1).last() == self@[i as int]);
            }
            let key = value_hash(&self.entries[i].0);
            let value = value_hash(&self.entries[i].1);
            let word = mix_word(mix_word(HASH_SEED, key), value);
            proof {
                lemma_entries_sum_nonnegative(self@.take(i as int));
                lemma_wrapping_sum_step(entries_sum(self@.take(i as int)), h, word);
                assert(word == entry_hash(self@[i as int]));
            }
            h = h.wrapping_add(word);
            i += 1;
        }
        proof {
            assert(self@.take(self@.len() as int) =~= self@);
        }
        h
    }

    /// The hash of the mapping. Equal mappings have equal hashes.
    pub fn hash_code(&self) -> (h: u64)
        ensures
            h == hash_of(ValueView::Mapping(self@)),
    {
        mix_word(mix_word(HASH_SEED, 5), self.entries_hash())
    }

    /// Whether two mappings hold equal entries, in whatever order.
    pub fn equals(&self, other: &Mapping) -> (r: bool)
        ensures
            r == values_equal(ValueView::Mapping(self@), ValueView::Mapping(other@)),
        decreases *self, 0nat, 0nat,
    {
        if self.entries.len() != other.entries.len() {
            return false;
        }
        let mut i: usize = 0;
        while i < self.entries.len()
            invariant
                i <= self.entries.len(),
                self.entries.len() == other.entries.len(),
                forall|j: int| 0 <= j < i ==> entry_found(#[trigger] self@[j], other@),
            decreases self.entries.len() - i,
        {
            let found = match other.position(&self.entries[i].0) {
                Some(j) => value_eq(&self.entries[i].1, &other.entries[j].1),
                None => false,
            };
            if !found {
                assert(!entry_found(self@[i as int], other@));
                return false;
            }
            i += 1;
        }
        true
    }
}

impl Clone for Mapping {
    fn clone(&self) -> (copy: Mapping)
        ensures
            copy@ == self@,
    {
        self.clone_entries()
    }
}

impl PartialEq for Mapping {
    fn eq(&self, other: &Mapping) -> (r: bool) {
        self.equals(other)
    }
}

impl vstd::std_specs::cmp::PartialEqSpecImpl for Mapping {
    open spec fn obeys_eq_spec() -> bool {
        true
    }

    open spec fn eq_spec(&self, other: &Mapping) -> bool {
        values_equal(ValueView::Mapping(self@), ValueView::Mapping(other@))
    }
}

impl Eq for Mapping {

}

impl Default for Mapping {
    /// The default mapping is empty.
    fn default() -> (m: Mapping)
        ensures
            m@ == Entries::empty(),
    {
        Mapping::new()
    }
}

} // verus!
