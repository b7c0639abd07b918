//! The latest-value overlay of the coalesced mode: an active table that writes publish into, a
//! detached draining snapshot that flushes take batches from, and the one batch in flight.
use std::collections::{HashMap, HashSet};
use std::hash::Hash;
use vstd::prelude::*;

use super::table::{copy_key, key_model, CoalescedTable};
use super::types::{CoalescedRecord, DirtyBacklogCounts};
use crate::dirty_log::ids_of;
use crate::entry::{DirtyRecord, FlushBatch, VisibleRef, WriteId};

verus! {

/// Whether no two records of `batch` share a key.
pub open spec fn keys_unique<K, V>(batch: Seq<DirtyRecord<K, V>>) -> bool {
    forall|i: int, j: int|
        0 <= i < batch.len() && 0 <= j < batch.len() && i != j ==> batch[i].key != batch[j].key
}

/// The record of `batch` with key `key`, if there is one.
pub open spec fn keyed_record<K, V>(batch: Seq<DirtyRecord<K, V>>, key: K) -> Option<
    DirtyRecord<K, V>,
> {
    if exists|i: int| 0 <= i < batch.len() && batch[i].key == key {
        Some(batch[choose|i: int| 0 <= i < batch.len() && batch[i].key == key])
    } else {
        None
    }
}

/// The keys of the records of `batch`.
pub open spec fn batch_keys<K, V>(batch: Seq<DirtyRecord<K, V>>) -> Set<K> {
    batch.map_values(|r: DirtyRecord<K, V>| r.key).to_set()
}

/// The records a drain of `n` entries takes: the last `n` arrivals of `order`, latest first.
pub open spec fn drained_records<K, V>(
    order: Seq<K>,
    records: Map<K, CoalescedRecord<V>>,
    n: nat,
) -> Seq<DirtyRecord<K, V>> {
    Seq::new(
        n,
        |i: int|
            {
                let key = order[order.len() - 1 - i];
                DirtyRecord { id: records[key].id, key, value: records[key].value }
            },
    )
}

/// The batch handed to the flusher and not yet marked flushed, with an index by key.
struct CoalescedInflight<K, V> {
    batch: FlushBatch<K, V>,
    index: HashMap<K, usize>,
}

impl<K: Clone + Eq + Hash, V> CoalescedInflight<K, V> {
    spec fn wf(&self) -> bool {
        let batch = self.batch@;
        &&& key_model::<K>()
        &&& batch.len() > 0
        &&& batch.len() <= usize::MAX
        &&& forall|i: int|
            0 <= i < batch.len() ==> #[trigger] self.index@.contains_key(batch[i].key)
                && self.index@[batch[i].key] == i
        &&& forall|k: K| #[trigger]
            self.index@.contains_key(k) ==> self.index@[k] < batch.len() && batch[self.index@[k] as int].key == k
    }

    proof fn lemma_unique(&self)
        requires
            self.wf(),
        ensures
            keys_unique(self.batch@),
    {
        assert forall|i: int, j: int|
            0 <= i < self.batch@.len() && 0 <= j < self.batch@.len() && i != j implies self.batch@[i].key
            != self.batch@[j].key by {
            assert(self.index@.contains_key(self.batch@[i].key));
            assert(self.index@.contains_key(self.batch@[j].key));
        }
    }

    /// Indexes a batch whose keys are distinct.
    fn new(batch: FlushBatch<K, V>) -> (r: Self)
        requires
            key_model::<K>(),
            batch@.len() > 0,
            keys_unique(batch@),
        ensures
            r.wf(),
            r.batch@ == batch@,
    {
        let mut index: HashMap<K, usize> = HashMap::new();
        let mut slot: usize = 0;
        while slot < batch.len()
            invariant
                key_model::<K>(),
                keys_unique(batch@),
                slot <= batch@.len(),
                forall|i: int|
                    0 <= i < slot ==> #[trigger] index@.contains_key(batch@[i].key)
                        && index@[batch@[i].key] == i,
                forall|k: K| #[trigger]
                    index@.contains_key(k) ==> index@[k] < slot && batch@[index@[k] as int].key == k,
            decreases batch@.len() - slot,
        {
            let record = batch.get(slot).unwrap();
            let key = copy_key(&record.key);
            index.insert(key, slot);
            proof {
                assert forall|i: int| 0 <= i < slot + 1 implies #[trigger] index@.contains_key(
                    batch@[i].key,
                ) && index@[batch@[i].key] == i by {
                    if i < slot {
                        assert(batch@[i].key != batch@[slot as int].key);
                    }
                }
            }
            slot += 1;
        }
        CoalescedInflight { batch, index }
    }

    /// The record of `key` in the batch.
    fn read(&self, key: &K) -> (r: Option<&DirtyRecord<K, V>>)
        requires
            self.wf(),
        ensures
            keys_unique(self.batch@),
            match r {
                Some(record) => keyed_record(self.batch@, *key) == Some(*record),
                None => keyed_record(self.batch@, *key) is None,
            },
    {
        proof {
            self.lemma_unique();
        }
        match self.index.get(key) {
            Some(slot) => {
                let record = self.batch.get(*slot).unwrap();
                proof {
                    let i = choose|i: int|
                        0 <= i < self.batch@.len() && self.batch@[i].key == *key;
                    assert(self.batch@[*slot as int].key == *key);
                }
                Some(record)
            },
            None => {
                proof {
                    if exists|i: int| 0 <= i < self.batch@.len() && self.batch@[i].key == *key {
                        let i = choose|i: int|
                            0 <= i < self.batch@.len() && self.batch@[i].key == *key;
                        assert(self.index@.contains_key(self.batch@[i].key));
                    }
                }
                None
            },
        }
    }
}

/// The coalesced overlay.
pub struct CoalescedOverlay<K, V> {
    active: CoalescedTable<K, V>,
    draining: Option<CoalescedTable<K, V>>,
    inflight: Option<CoalescedInflight<K, V>>,
}

/// The overlay's tables and in-flight batch.
#[verifier::reject_recursive_types(K)]
pub struct OverlayView<K, V> {
    pub active: Map<K, CoalescedRecord<V>>,
    pub active_order: Seq<K>,
    pub draining: Option<(Map<K, CoalescedRecord<V>>, Seq<K>)>,
    pub inflight: Option<Seq<DirtyRecord<K, V>>>,
}

impl<K: Clone + Eq + Hash, V> View for CoalescedOverlay<K, V> {
    type V = OverlayView<K, V>;

    closed spec fn view(&self) -> OverlayView<K, V> {
        OverlayView {
            active: self.active.records(),
            active_order: self.active.order(),
            draining: match self.draining {
                Some(table) => Some((table.records(), table.order())),
                None => None,
            },
            inflight: match self.inflight {
                Some(current) => Some(current.batch@),
                None => None,
            },
        }
    }
}

/// Number of records in flight.
pub open spec fn inflight_len<K, V>(v: OverlayView<K, V>) -> nat {
    match v.inflight {
        Some(batch) => batch.len(),
        None => 0,
    }
}

/// Number of records in the draining snapshot.
pub open spec fn draining_len<K, V>(v: OverlayView<K, V>) -> nat {
    match v.draining {
        Some((records, _)) => records.len(),
        None => 0,
    }
}

/// The draining snapshot's record of `key`.
pub open spec fn draining_record<K, V>(v: OverlayView<K, V>, key: K) -> Option<CoalescedRecord<V>> {
    match v.draining {
        Some((records, _)) => if records.contains_key(key) {
            Some(records[key])
        } else {
            None
        },
        None => None,
    }
}

/// The in-flight record of `key`.
pub open spec fn inflight_record<K, V>(v: OverlayView<K, V>, key: K) -> Option<DirtyRecord<K, V>> {
    match v.inflight {
        Some(batch) => keyed_record(batch, key),
        None => None,
    }
}

/// The dirty ref the overlay shows for `key`: the active table first, then the batch in
/// flight, then the draining snapshot.
pub open spec fn overlay_ref<K, V>(v: OverlayView<K, V>, key: K) -> Option<VisibleRef> {
    if v.active.contains_key(key) {
        Some(VisibleRef::Dirty(v.active[key].id))
    } else if inflight_record(v, key) is Some {
        Some(VisibleRef::Dirty(inflight_record(v, key)->0.id))
    } else if draining_record(v, key) is Some {
        Some(VisibleRef::Dirty(draining_record(v, key)->0.id))
    } else {
        None
    }
}

/// Every key the overlay holds a dirty record for.
pub open spec fn overlay_keys<K, V>(v: OverlayView<K, V>) -> Set<K> {
    let inflight = match v.inflight {
        Some(batch) => batch_keys(batch),
        None => Set::empty(),
    };
    let draining = match v.draining {
        Some((records, _)) => records.dom(),
        None => Set::empty(),
    };
    v.active.dom().union(inflight).union(draining)
}

/// The arrival orders list each key of their table once, and a batch in flight is not empty.
pub open spec fn overlay_consistent<K, V>(v: OverlayView<K, V>) -> bool {
    &&& v.active_order.no_duplicates()
    &&& v.active.dom() == v.active_order.to_set()
    &&& v.active.dom().finite()
    &&& v.draining matches Some((records, order)) ==> {
        &&& order.no_duplicates()
        &&& records.dom() == order.to_set()
        &&& records.dom().finite()
    }
    &&& v.inflight matches Some(batch) ==> batch.len() > 0 && batch.len() <= usize::MAX
        && keys_unique(batch)
}

/// Whether `left` and `right` hold the same ids in the same order.
pub fn same_batch_ids<K, V>(left: &FlushBatch<K, V>, right: &FlushBatch<K, V>) -> (r: bool)
    ensures
        r == (ids_of(left@) == ids_of(right@)),
{
    if left.ptr_eq(right) {
        assert(ids_of(left@) =~= ids_of(right@));
        return true;
    }
    if left.len() != right.len() {
        assert(ids_of(left@).len() != ids_of(right@).len());
        return false;
    }
    let mut i: usize = 0;
    while i < left.len()
        invariant
            left@.len() == right@.len(),
            i <= left@.len(),
            forall|j: int| 0 <= j < i ==> left@[j].id == right@[j].id,
        decreases left@.len() - i,
    {
        if left.get(i).unwrap().id != right.get(i).unwrap().id {
            assert(ids_of(left@)[i as int] != ids_of(right@)[i as int]);
            return false;
        }
        i += 1;
    }
    assert(ids_of(left@) =~= ids_of(right@));
    true
}

impl<K: Clone + Eq + Hash, V> CoalescedOverlay<K, V> {
    pub closed spec fn wf(&self) -> bool {
        &&& key_model::<K>()
        &&& self.active.wf()
        &&& self.draining matches Some(table) ==> table.wf()
        &&& self.inflight matches Some(current) ==> current.wf()
    }

    pub proof fn lemma_consistent(&self)
        requires
            self.wf(),
        ensures
            overlay_consistent(self@),
    {
        self.active.lemma_order_matches();
        assert(self@.active.dom() =~= self@.active_order.to_set());
        if let Some(table) = self.draining {
            table.lemma_order_matches();
            assert(table.records().dom() =~= table.order().to_set());
        }
        self.lemma_inflight_unique();
    }

    /// The draining snapshot's arrival order holds each of its keys once.
    pub proof fn lemma_draining_keys(&self)
        requires
            self.wf(),
        ensures
            self@.draining matches Some((records, order)) ==> order.no_duplicates() && (forall|
                k: K,
            | records.contains_key(k) <==> order.contains(k)),
    {
        if let Some(table) = self.draining {
            table.lemma_order_matches();
        }
    }

    /// The in-flight batch never repeats a key.
    pub proof fn lemma_inflight_unique(&self)
        requires
            self.wf(),
        ensures
            self@.inflight matches Some(batch) ==> batch.len() > 0 && batch.len() <= usize::MAX
                && keys_unique(batch),
    {
        if let Some(current) = self.inflight {
            current.lemma_unique();
        }
    }

    pub fn new() -> (r: Self)
        requires
            key_model::<K>(),
        ensures
            r.wf(),
            r@.active == Map::<K, CoalescedRecord<V>>::empty(),
            r@.active_order == Seq::<K>::empty(),
            r@.draining is None,
            r@.inflight is None,
    {
        CoalescedOverlay { active: CoalescedTable::new(), draining: None, inflight: None }
    }

    /// Records in the active table, the batch in flight and the draining snapshot together.
    pub fn dirty_len(&self) -> (r: usize)
        requires
            self.wf(),
            self@.active.len() + inflight_len(self@) + draining_len(self@) <= usize::MAX,
        ensures
            r == self@.active.len() + inflight_len(self@) + draining_len(self@),
    {
        let active = self.active.len();
        let inflight = match &self.inflight {
            Some(current) => current.batch.len(),
            None => 0,
        };
        let draining = match &self.draining {
            Some(table) => table.len(),
            None => 0,
        };
        active + inflight + draining
    }

    /// The number `dirty_len` reports, or `None` when it does not fit in a `usize`.
    pub fn checked_dirty_len(&self) -> (r: Option<usize>)
        requires
            self.wf(),
        ensures
            r == (if self@.active.len() + inflight_len(self@) + draining_len(self@) <= usize::MAX {
                Some((self@.active.len() + inflight_len(self@) + draining_len(self@)) as usize)
            } else {
                None
            }),
    {
        let active = self.active.len();
        let inflight = match &self.inflight {
            Some(current) => current.batch.len(),
            None => 0,
        };
        let draining = match &self.draining {
            Some(table) => table.len(),
            None => 0,
        };
        match active.checked_add(inflight) {
            Some(sum) => sum.checked_add(draining),
            None => None,
        }
    }

    /// How many records wait in each stage.
    pub fn backlog_counts(&self) -> (r: DirtyBacklogCounts)
        requires
            self.wf(),
            self@.active.len() + inflight_len(self@) + draining_len(self@) <= usize::MAX,
        ensures
            r.dirty_total == self@.active.len() + inflight_len(self@) + draining_len(self@),
            r.pending_visible == self@.active.len(),
            r.inflight == inflight_len(self@),
            r.draining == draining_len(self@),
    {
        let pending_visible = self.active.len();
        let inflight = match &self.inflight {
            Some(current) => current.batch.len(),
            None => 0,
        };
        let draining = match &self.draining {
            Some(table) => table.len(),
            None => 0,
        };
        DirtyBacklogCounts {
            dirty_total: self.dirty_len(),
            pending_visible,
            inflight,
            draining,
        }
    }

    /// The active table's stored key and record for `key`.
    pub fn read_active(&self, key: &K) -> (r: Option<(&K, &CoalescedRecord<V>)>)
        requires
            self.wf(),
        ensures
            match r {
                Some((k, record)) => *k == *key && self@.active.contains_key(*key) && *record
                    == self@.active[*key],
                None => !self@.active.contains_key(*key),
            },
    {
        self.active.get(key)
    }

    /// The draining snapshot's stored key and record for `key`.
    pub fn read_draining(&self, key: &K) -> (r: Option<(&K, &CoalescedRecord<V>)>)
        requires
            self.wf(),
        ensures
            match r {
                Some((k, record)) => *k == *key && draining_record(self@, *key) == Some(*record),
                None => draining_record(self@, *key) is None,
            },
    {
        match &self.draining {
            Some(table) => table.get(key),
            None => None,
        }
    }

    /// The in-flight record of `key`.
    pub fn read_inflight(&self, key: &K) -> (r: Option<&DirtyRecord<K, V>>)
        requires
            self.wf(),
        ensures
            match r {
                Some(record) => inflight_record(self@, *key) == Some(*record),
                None => inflight_record(self@, *key) is None,
            },
    {
        match &self.inflight {
            Some(current) => current.read(key),
            None => None,
        }
    }

    /// The dirty ref the overlay shows for `key`.
    pub fn read_visible_ref(&self, key: &K) -> (r: Option<VisibleRef>)
        requires
            self.wf(),
        ensures
            r == overlay_ref(self@, *key),
    {
        if let Some((_, record)) = self.read_active(key) {
            return Some(VisibleRef::Dirty(record.id));
        }
        if let Some(record) = self.read_inflight(key) {
            return Some(VisibleRef::Dirty(record.id));
        }
        if let Some((_, record)) = self.read_draining(key) {
            return Some(VisibleRef::Dirty(record.id));
        }
        None
    }

    /// The current in-flight batch, shared.
    pub fn inflight_batch(&self) -> (r: Option<FlushBatch<K, V>>)
        requires
            self.wf(),
        ensures
            match r {
                Some(batch) => self@.inflight == Some(batch@),
                None => self@.inflight is None,
            },
    {
        match &self.inflight {
            Some(current) => Some(current.batch.clone()),
            None => None,
        }
    }

    /// Number of keys in the active table.
    pub fn active_count(&self) -> (r: usize)
        requires
            self.wf(),
        ensures
            r == self@.active_order.len(),
    {
        self.active.len()
    }

    /// The `i`-th key of the active table's arrival order.
    pub fn active_key(&self, i: usize) -> (r: &K)
        requires
            self.wf(),
            i < self@.active_order.len(),
        ensures
            *r == self@.active_order[i as int],
    {
        self.active.key_at(i)
    }

    /// Number of keys in the draining snapshot.
    pub fn draining_count(&self) -> (r: usize)
        requires
            self.wf(),
        ensures
            r == (match self@.draining {
                Some((_, order)) => order.len(),
                None => 0,
            }),
    {
        match &self.draining {
            Some(table) => table.len(),
            None => 0,
        }
    }

    /// The `j`-th key of the draining snapshot's arrival order.
    pub fn draining_key(&self, j: usize) -> (r: &K)
        requires
            self.wf(),
            self@.draining matches Some((_, order)) && j < order.len(),
        ensures
            self@.draining matches Some((_, order)) && *r == order[j as int],
    {
        let table = self.draining.as_ref().unwrap();
        table.key_at(j)
    }

    /// Number of records in flight.
    pub fn inflight_count(&self) -> (r: usize)
        requires
            self.wf(),
        ensures
            r == inflight_len(self@),
    {
        match &self.inflight {
            Some(current) => current.batch.len(),
            None => 0,
        }
    }

    /// The `i`-th record in flight.
    pub fn inflight_at(&self, i: usize) -> (r: &DirtyRecord<K, V>)
        requires
            self.wf(),
            i < inflight_len(self@),
        ensures
            self@.inflight matches Some(batch) && *r == batch[i as int],
    {
        let current = self.inflight.as_ref().unwrap();
        current.batch.get(i).unwrap()
    }

    /// Number of distinct keys with a dirty record anywhere in the overlay.
    pub fn visible_key_count(&self) -> (r: usize)
        requires
            self.wf(),
        ensures
            r == overlay_keys(self@).len(),
    {
        let mut seen: HashSet<K> = HashSet::new();
        let ghost mut acc: Set<K> = Set::empty();
        let n = self.active.len();
        let mut i: usize = 0;
        while i < n
            invariant
                self.wf(),
                n == self.active.order().len(),
                i <= n,
                seen@ == self.active.order().take(i as int).to_set(),
            decreases n - i,
        {
            let key = copy_key(self.active.key_at(i));
            seen.insert(key);
            proof {
                assert(self.active.order().take(i + 1) =~= self.active.order().take(i as int).push(
                    key,
                ));
                self.active.order().take(i as int).lemma_push_to_set_commute(key);
            }
            i += 1;
        }
        proof {
            self.active.lemma_order_matches();
            assert(self.active.order().take(n as int) =~= self.active.order());
            assert(seen@ =~= self@.active.dom());
        }
        if let Some(current) = &self.inflight {
            let m = current.batch.len();
            let mut j: usize = 0;
            while j < m
                invariant
                    self.wf(),
                    self.inflight == Some(*current),
                    m == current.batch@.len(),
                    j <= m,
                    seen@ == self@.active.dom().union(
                        current.batch@.take(j as int).map_values(|r: DirtyRecord<K, V>| r.key).to_set(),
                    ),
                decreases m - j,
            {
                let record = current.batch.get(j).unwrap();
                let key = copy_key(&record.key);
                seen.insert(key);
                proof {
                    let f = |r: DirtyRecord<K, V>| r.key;
                    assert(current.batch@.take(j + 1).map_values(f) =~= current.batch@.take(
                        j as int,
                    ).map_values(f).push(key));
                    current.batch@.take(j as int).map_values(f).lemma_push_to_set_commute(key);
                    assert(seen@ =~= self@.active.dom().union(
                        current.batch@.take(j + 1).map_values(f).to_set(),
                    ));
                }
                j += 1;
            }
            proof {
                assert(current.batch@.take(m as int) =~= current.batch@);
            }
        }
        let ghost inflight_keys = match self@.inflight {
            Some(batch) => batch_keys(batch),
            None => Set::<K>::empty(),
        };
        assert(seen@ =~= self@.active.dom().union(inflight_keys));
        if let Some(table) = &self.draining {
            let d = table.len();
            let mut j: usize = 0;
            while j < d
                invariant
                    self.wf(),
                    self.draining == Some(*table),
                    d == table.order().len(),
                    j <= d,
                    seen@ == self@.active.dom().union(inflight_keys).union(
                        table.order().take(j as int).to_set(),
                    ),
                decreases d - j,
            {
                let key = copy_key(table.key_at(j));
                seen.insert(key);
                proof {
                    assert(table.order().take(j + 1) =~= table.order().take(j as int).push(key));
                    table.order().take(j as int).lemma_push_to_set_commute(key);
                    assert(seen@ =~= self@.active.dom().union(inflight_keys).union(
                        table.order().take(j + 1).to_set(),
                    ));
                }
                j += 1;
            }
            proof {
                table.lemma_order_matches();
                assert(table.order().take(d as int) =~= table.order());
                assert(table.order().to_set() =~= table.records().dom());
            }
        }
        proof {
            assert(seen@ =~= overlay_keys(self@));
        }
        seen.len()
    }

    /// Publishes `value` under `id` as the latest write of `key`; returns whether `key` was new
    /// to the active table.
    pub fn publish_active(&mut self, key: K, id: WriteId, value: V) -> (inserted: bool)
        requires
            old(self).wf(),
        ensures
            final(self).wf(),
            inserted == !old(self)@.active.contains_key(key),
            final(self)@.active == old(self)@.active.insert(key, CoalescedRecord { id, value }),
            final(self)@.active_order == (if inserted {
                old(self)@.active_order.push(key)
            } else {
                old(self)@.active_order
            }),
            final(self)@.draining == old(self)@.draining,
            final(self)@.inflight == old(self)@.inflight,
    {
        self.active.upsert(key, id, value)
    }

    /// Detaches the active table as the draining snapshot unless a non-empty snapshot is still
    /// being drained or nothing is active.
    pub fn ensure_draining_snapshot(&mut self)
        requires
            old(self).wf(),
        ensures
            final(self).wf(),
            final(self)@.inflight == old(self)@.inflight,
            (draining_len(old(self)@) > 0 || old(self)@.active.len() == 0) ==> final(self)@
                == old(self)@,
            !(draining_len(old(self)@) > 0 || old(self)@.active.len() == 0) ==> {
                &&& final(self)@.draining == Some((old(self)@.active, old(self)@.active_order))
                &&& final(self)@.active == Map::<K, CoalescedRecord<V>>::empty()
                &&& final(self)@.active_order == Seq::<K>::empty()
            },
    {
        let has_snapshot = match &self.draining {
            Some(table) => !table.is_empty(),
            None => false,
        };
        if has_snapshot {
            return;
        }
        if self.active.is_empty() {
            return;
        }
        let mut drained = CoalescedTable::new();
        std::mem::swap(&mut drained, &mut self.active);
        self.draining = Some(drained);
    }

    /// Removes up to `limit` records from the draining snapshot, latest arrivals first, and drops
    /// the snapshot once it is empty.
    pub fn begin_snapshot_drain_batch(&mut self, limit: usize) -> (r: Vec<DirtyRecord<K, V>>)
        requires
            old(self).wf(),
        ensures
            final(self).wf(),
            final(self)@.active == old(self)@.active,
            final(self)@.active_order == old(self)@.active_order,
            final(self)@.inflight == old(self)@.inflight,
            match old(self)@.draining {
                None => r@.len() == 0 && final(self)@.draining is None,
                Some((records, order)) => {
                    let n = if limit < order.len() {
                        limit as nat
                    } else {
                        order.len()
                    };
                    let rest = order.take(order.len() - n);
                    &&& r@ == drained_records(order, records, n)
                    &&& final(self)@.draining == (if rest.len() == 0 {
                        None
                    } else {
                        Some(
                            (
                                records.restrict(rest.to_set()),
                                rest,
                            ),
                        )
                    })
                },
            },
    {
        let mut table = match self.draining.take() {
            Some(table) => table,
            None => return Vec::new(),
        };
        let ghost records = table.records();
        let ghost order = table.order();
        let ghost n: nat = if limit < order.len() {
            limit as nat
        } else {
            order.len()
        };
        proof {
            table.lemma_order_matches();
        }
        let mut entries: Vec<DirtyRecord<K, V>> = Vec::new();
        while entries.len() < limit
            invariant
                table.wf(),
                entries@.len() <= n,
                n <= order.len(),
                n == (if limit < order.len() {
                    limit as nat
                } else {
                    order.len()
                }),
                table.order() == order.take(order.len() - entries@.len()),
                table.records() == records.restrict(table.order().to_set()),
                entries@ == drained_records(order, records, entries@.len()),
                order.no_duplicates(),
                forall|k: K| records.contains_key(k) <==> order.contains(k),
            ensures
                entries@.len() == n,
                table.order() == order.take(order.len() - n),
                table.records() == records.restrict(table.order().to_set()),
                entries@ == drained_records(order, records, n),
            decreases limit - entries@.len(),
        {
            let ghost before = table.order();
            let ghost recs_before = table.records();
            proof {
                table.lemma_order_matches();
            }
            match table.pop_last() {
                None => {
                    assert(entries@.len() == order.len());
                    break;
                },
                Some((key, record)) => {
                    let ghost idx = order.len() - 1 - entries@.len();
                    proof {
                        assert(key == before.last());
                        assert(before[before.len() - 1] == order[idx]);
                        assert(before.contains(key));
                        assert(recs_before.contains_key(key));
                        assert(record == records[key]);
                    }
                    entries.push(DirtyRecord { id: record.id, key, value: record.value });
                    proof {
                        assert(table.order() =~= order.take(order.len() - entries@.len()));
                        assert(entries@ =~= drained_records(order, records, entries@.len()));
                        assert(table.records() =~= records.restrict(table.order().to_set())) by {
                            assert forall|k: K| #[trigger] table.records().contains_key(k)
                                <==> records.restrict(table.order().to_set()).contains_key(k) by {
                                if table.order().contains(k) {
                                    assert(before.contains(k));
                                }
                                if before.contains(k) && k != key {
                                    let j = choose|j: int| 0 <= j < before.len() && before[j] == k;
                                    assert(j != before.len() - 1);
                                    assert(table.order()[j] == k);
                                }
                                if k == key {
                                    assert(!table.order().contains(k)) by {
                                        if table.order().contains(k) {
                                            let j = choose|j: int|
                                                0 <= j < table.order().len() && table.order()[j]
                                                    == k;
                                            assert(order[j] == order[idx]);
                                        }
                                    }
                                }
                            }
                        }
                    }
                },
            }
        }
        proof {
            table.lemma_order_matches();
        }
        if !table.is_empty() {
            self.draining = Some(table);
        } else {
            assert(table.order().len() == 0);
        }
        entries
    }

    /// Makes `batch` the batch in flight.
    pub fn begin_inflight(&mut self, batch: FlushBatch<K, V>)
        requires
            old(self).wf(),
            batch@.len() > 0,
            keys_unique(batch@),
        ensures
            final(self).wf(),
            final(self)@.inflight == Some(batch@),
            final(self)@.active == old(self)@.active,
            final(self)@.active_order == old(self)@.active_order,
            final(self)@.draining == old(self)@.draining,
    {
        self.inflight = Some(CoalescedInflight::new(batch));
    }

    /// Retires the batch in flight when `batch` carries its ids; returns how many records it held,
    /// or `0` when nothing was retired. An empty draining snapshot is dropped with it.
    pub fn mark_flushed_if_current(&mut self, batch: &FlushBatch<K, V>) -> (r: usize)
        requires
            old(self).wf(),
        ensures
            final(self).wf(),
            final(self)@.active == old(self)@.active,
            final(self)@.active_order == old(self)@.active_order,
            match old(self)@.inflight {
                None => r == 0 && final(self)@ == old(self)@,
                Some(current) => if ids_of(current) == ids_of(batch@) {
                    &&& r == current.len()
                    &&& final(self)@.inflight is None
                    &&& final(self)@.draining == (match old(self)@.draining {
                        Some((records, order)) => if records.len() == 0 {
                            None
                        } else {
                            old(self)@.draining
                        },
                        None => None,
                    })
                } else {
                    r == 0 && final(self)@ == old(self)@
                },
            },
    {
        let matches = match &self.inflight {
            None => return 0,
            Some(current) => same_batch_ids(&current.batch, batch),
        };
        if !matches {
            return 0;
        }
        let drained = self.inflight.take().unwrap();
        let empty_snapshot = match &self.draining {
            Some(table) => table.is_empty(),
            None => false,
        };
        if empty_snapshot {
            self.draining = None;
        }
        drained.batch.len()
    }
}

} // verus!
