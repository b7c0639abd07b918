//! The latest-value table of the coalesced overlay: one record per key, kept in the order in
//! which keys first arrived, and looked up through a hash index.
use std::collections::HashMap;
use std::hash::Hash;
use vstd::prelude::*;
use vstd::std_specs::hash::{builds_valid_hashers, obeys_key_model};

use super::types::CoalescedRecord;
use crate::entry::WriteId;

verus! {

/// Cloning a key yields an equal key (true of every key type whose `Clone` copies it).
pub open spec fn keys_clone_exactly<K: Clone>() -> bool {
    forall|a: K, b: K| #[trigger] cloned::<K>(a, b) ==> a == b
}

/// What the hash index needs of the key type: a deterministic hash consistent with `==`, and
/// clones equal to their originals.
pub open spec fn key_model<K: Clone>() -> bool {
    &&& obeys_key_model::<K>()
    &&& keys_clone_exactly::<K>()
    &&& builds_valid_hashers::<std::collections::hash_map::RandomState>()
}

/// A copy of `key`.
pub fn copy_key<K: Clone>(key: &K) -> (r: K)
    requires
        keys_clone_exactly::<K>(),
    ensures
        r == *key,
{
    let r = key.clone();
    assert(cloned::<K>(*key, r));
    r
}

/// Latest records by key, in first-arrival order of their keys.
pub struct CoalescedTable<K, V> {
    index: HashMap<K, usize>,
    entries: Vec<(K, CoalescedRecord<V>)>,
}

impl<K: Clone + Eq + Hash, V> CoalescedTable<K, V> {
    /// The keys, in first-arrival order.
    pub closed spec fn order(&self) -> Seq<K> {
        self.entries@.map_values(|e: (K, CoalescedRecord<V>)| e.0)
    }

    /// The latest record of each key.
    pub closed spec fn records(&self) -> Map<K, CoalescedRecord<V>> {
        Map::new(
            |k: K| self.index@.contains_key(k),
            |k: K| self.entries@[self.index@[k] as int].1,
        )
    }

    /// The index finds every entry at its position, and nothing else.
    pub closed spec fn wf(&self) -> bool {
        &&& key_model::<K>()
        &&& forall|i: int|
            0 <= i < self.entries@.len() ==> #[trigger] self.index@.contains_key(
                self.entries@[i].0,
            ) && self.index@[self.entries@[i].0] == i
        &&& forall|k: K| #[trigger]
            self.index@.contains_key(k) ==> self.index@[k] < self.entries@.len()
                && self.entries@[self.index@[k] as int].0 == k
    }

    /// The table's keys are exactly its records' keys, each once.
    pub proof fn lemma_order_matches(&self)
        requires
            self.wf(),
        ensures
            self.order().no_duplicates(),
            self.order().len() == self.records().dom().len(),
            forall|k: K| self.records().contains_key(k) <==> self.order().contains(k),
            self.records().dom().finite(),
    {
        let order = self.order();
        assert forall|i: int, j: int| 0 <= i < order.len() && 0 <= j < order.len() && i != j
            implies order[i] != order[j] by {
            assert(self.index@.contains_key(self.entries@[i].0));
            assert(self.index@.contains_key(self.entries@[j].0));
        }
        assert forall|k: K| self.records().contains_key(k) <==> order.contains(k) by {
            if self.records().contains_key(k) {
                let i = self.index@[k] as int;
                assert(order[i] == k);
            }
            if order.contains(k) {
                let i = choose|i: int| 0 <= i < order.len() && order[i] == k;
                assert(self.index@.contains_key(self.entries@[i].0));
            }
        }
        assert(self.records().dom() =~= order.to_set());
        order.unique_seq_to_set();
    }

    pub fn new() -> (r: Self)
        requires
            key_model::<K>(),
        ensures
            r.wf(),
            r.records() == Map::<K, CoalescedRecord<V>>::empty(),
            r.order() == Seq::<K>::empty(),
    {
        let r = CoalescedTable { index: HashMap::new(), entries: Vec::new() };
        assert(r.records() =~= Map::<K, CoalescedRecord<V>>::empty());
        assert(r.order() =~= Seq::<K>::empty());
        r
    }

    pub fn len(&self) -> (r: usize)
        requires
            self.wf(),
        ensures
            r == self.records().len(),
            r == self.order().len(),
    {
        proof {
            self.lemma_order_matches();
        }
        self.entries.len()
    }

    pub fn is_empty(&self) -> (r: bool)
        requires
            self.wf(),
        ensures
            r == (self.records().len() == 0),
    {
        self.len() == 0
    }

    /// The key at position `i` of the arrival order.
    pub fn key_at(&self, i: usize) -> (r: &K)
        requires
            self.wf(),
            i < self.order().len(),
        ensures
            *r == self.order()[i as int],
    {
        &self.entries[i].0
    }

    /// The stored key equal to `key` and its latest record.
    pub fn get(&self, key: &K) -> (r: Option<(&K, &CoalescedRecord<V>)>)
        requires
            self.wf(),
        ensures
            match r {
                Some((k, record)) => *k == *key && self.records().contains_key(*key) && *record
                    == self.records()[*key],
                None => !self.records().contains_key(*key),
            },
    {
        match self.index.get(key) {
            Some(slot) => {
                let entry = &self.entries[*slot];
                Some((&entry.0, &entry.1))
            },
            None => None,
        }
    }

    /// Records `value` under `id` as the latest write of `key`; returns whether `key` is new.
    pub fn upsert(&mut self, key: K, id: WriteId, value: V) -> (inserted: bool)
        requires
            old(self).wf(),
        ensures
            final(self).wf(),
            inserted == !old(self).records().contains_key(key),
            final(self).records() == old(self).records().insert(
                key,
                CoalescedRecord { id, value },
            ),
            final(self).order() == (if inserted {
                old(self).order().push(key)
            } else {
                old(self).order()
            }),
    {
        let record = CoalescedRecord { id, value };
        match self.index.get(&key) {
            Some(slot) => {
                let slot = *slot;
                let ghost old_entries = self.entries@;
                self.entries.set(slot, (key, record));
                proof {
                    assert(self.records() =~= old(self).records().insert(key, record));
                    assert(self.order() =~= old(self).order());
                }
                false
            },
            None => {
                let slot = self.entries.len();
                let indexed = copy_key(&key);
                self.entries.push((key, record));
                self.index.insert(indexed, slot);
                proof {
                    assert(self.records() =~= old(self).records().insert(key, record));
                    assert(self.order() =~= old(self).order().push(key));
                }
                true
            },
        }
    }

    /// Removes and returns the most recently arrived key with its record.
    pub fn pop_last(&mut self) -> (r: Option<(K, CoalescedRecord<V>)>)
        requires
            old(self).wf(),
        ensures
            final(self).wf(),
            old(self).order().len() == 0 ==> r is None && final(self).records() == old(
                self,
            ).records() && final(self).order() == old(self).order(),
            old(self).order().len() > 0 ==> {
                let key = old(self).order().last();
                &&& r == Some((key, old(self).records()[key]))
                &&& final(self).records() == old(self).records().remove(key)
                &&& final(self).order() == old(self).order().drop_last()
            },
    {
        match self.entries.pop() {
            None => None,
            Some(entry) => {
                let ghost last = (self.entries@.len()) as int;
                proof {
                    assert(old(self).index@.contains_key(entry.0));
                }
                let _ = self.index.remove(&entry.0);
                proof {
                    assert(self.records() =~= old(self).records().remove(entry.0));
                    assert(self.order() =~= old(self).order().drop_last());
                }
                Some(entry)
            },
        }
    }
}

} // verus!
