//! A byte-keyed cache log map with a prefix trie that is brought up to date on demand.
//!
//! Writes reach the wrapped map at once and queue their key; `advance_trie` moves queued keys
//! into the trie. Prefix listings walk the trie, so they see the keys published so far; marking
//! a batch flushed drops from the trie the keys of the batch that the map no longer shows.
pub mod trie;

use qp_trie::Trie;
use std::collections::VecDeque;
use vstd::prelude::*;

use crate::entry::{CacheId, DirtyRecord, EntryState, FlushBatch, PersistBatch, VisibleRef, WriteId};
use crate::map::bytes::{byte_views, lemma_ordered_no_duplicates, sort_unique, starts_with};
use crate::map::coalesced::overlay_keys;
use crate::map::prefix::read_gives;
use crate::map::spec::{
    dirty_total, flush_limit, flush_rounds, initial_view, lemma_empty_flush_leaves_nothing,
    lemma_flush_round_progress, log_has_room, spec_flush_batch, spec_insert_clean,
    spec_insert_dirty, spec_insert_dirty_batch, spec_mark_flushed, spec_put, spec_read_full,
    MapView,
};
use crate::map::table::{copy_key, key_model};
use crate::map::types::{CacheLogConfig, DirtyWriteMode};
use crate::map::{entry_keys, CacheLogMap};
use trie::{trie_count, trie_insert, trie_keys, trie_new, trie_prefix_keys, trie_remove, trie_walk, lemma_is_trie_walk};

verus! {

/// The state of a byte-keyed map: the wrapped map, the byte strings the trie holds, and the
/// keys queued for the trie, oldest first.
pub struct BytePrefixView<V> {
    pub map: MapView<Vec<u8>, V>,
    pub trie: Set<Seq<u8>>,
    pub updates: Seq<Seq<u8>>,
}

/// Whether the map shows an entry for `key`.
pub open spec fn shows<V>(v: MapView<Vec<u8>, V>, key: Vec<u8>) -> bool {
    spec_read_full(v, key) is Some
}

/// The trie once `batch` is marked flushed and the map is left in state `v`: the byte strings
/// of the batch's keys that `v` no longer shows are dropped.
pub open spec fn pruned<V>(
    trie: Set<Seq<u8>>,
    batch: Seq<DirtyRecord<Vec<u8>, V>>,
    v: MapView<Vec<u8>, V>,
) -> Set<Seq<u8>> {
    trie.filter(
        |b: Seq<u8>|
            !(exists|i: int| 0 <= i < batch.len() && #[trigger] batch[i].key@ == b && !shows(v, batch[i].key)),
    )
}

/// Moving at most `max_items` queued keys into the trie: the trie gains their byte strings, the
/// queue loses them, and the count is how many distinct byte strings moved.
pub open spec fn spec_advance_trie(trie: Set<Seq<u8>>, updates: Seq<Seq<u8>>, max_items: usize) -> (
    Set<Seq<u8>>,
    Seq<Seq<u8>>,
    nat,
) {
    let n = if updates.len() < max_items {
        updates.len()
    } else {
        max_items as nat
    };
    let drained = updates.take(n as int);
    (trie.union(drained.to_set()), updates.skip(n as int), drained.to_set().len())
}

/// The trie after `k` flush rounds of at most `limit` records starting from map state `v`:
/// each round that marks records prunes the keys of its batch that the map no longer shows.
pub open spec fn trie_after_rounds<V>(
    trie: Set<Seq<u8>>,
    v: MapView<Vec<u8>, V>,
    limit: usize,
    k: nat,
) -> Set<Seq<u8>>
    decreases k,
{
    if k == 0 {
        trie
    } else {
        let before = trie_after_rounds(trie, v, limit, (k - 1) as nat);
        let (v1, batch) = spec_flush_batch(flush_rounds(v, limit, (k - 1) as nat), limit);
        let (v2, marked) = spec_mark_flushed(v1, batch);
        if marked == 0 {
            before
        } else {
            pruned(before, batch, v2)
        }
    }
}

/// Whether `keys` is what a walk of the trie for `prefix` hands out: the first `limit` (or all)
/// of the keys the trie holds that start with `prefix`, in the trie's walk order, each byte string
/// once.
pub open spec fn trie_scan(keys: Seq<Vec<u8>>, trie: Set<Seq<u8>>, prefix: Seq<u8>, limit: usize) -> bool {
    let matches = trie.filter(|b: Seq<u8>| starts_with(b, prefix));
    let walk = trie_walk(trie, prefix);
    &&& byte_views(keys) == (if walk.len() > limit {
        walk.take(limit as int)
    } else {
        walk
    })
    &&& byte_views(keys).no_duplicates()
    &&& byte_views(keys).to_set().subset_of(matches)
    &&& keys.len() == (if matches.len() > limit {
        limit as nat
    } else {
        matches.len()
    })
}

/// The keys of `keys` that the map shows, in order.
pub open spec fn shown_keys<V>(v: MapView<Vec<u8>, V>, keys: Seq<Vec<u8>>) -> Seq<Vec<u8>> {
    keys.filter(|k: Vec<u8>| shows(v, k))
}

/// A cache log map keyed by byte strings, with a prefix trie of its keys.
pub struct BytePrefixMap<V> {
    inner: CacheLogMap<Vec<u8>, V>,
    prefix_trie: Trie<Vec<u8>, ()>,
    updates: VecDeque<Vec<u8>>,
}

impl<V> View for BytePrefixMap<V> {
    type V = BytePrefixView<V>;

    closed spec fn view(&self) -> BytePrefixView<V> {
        BytePrefixView {
            map: self.inner@,
            trie: trie_keys(self.prefix_trie),
            updates: byte_views(self.updates@),
        }
    }
}

/// One more key of a batch looked at while pruning.
proof fn lemma_prune_step<V>(
    trie: Set<Seq<u8>>,
    batch: Seq<DirtyRecord<Vec<u8>, V>>,
    v: MapView<Vec<u8>, V>,
    i: int,
)
    requires
        0 <= i < batch.len(),
    ensures
        pruned(trie, batch.take(i + 1), v) == (if shows(v, batch[i].key) {
            pruned(trie, batch.take(i), v)
        } else {
            pruned(trie, batch.take(i), v).remove(batch[i].key@)
        }),
{
    let before = batch.take(i);
    let after = batch.take(i + 1);
    let next = if shows(v, batch[i].key) {
        pruned(trie, before, v)
    } else {
        pruned(trie, before, v).remove(batch[i].key@)
    };
    assert forall|b: Seq<u8>| pruned(trie, after, v).contains(b) <==> next.contains(b) by {
        if exists|j: int| 0 <= j < before.len() && #[trigger] before[j].key@ == b && !shows(v, before[j].key) {
            let j = choose|j: int| 0 <= j < before.len() && #[trigger] before[j].key@ == b && !shows(v, before[j].key);
            assert(after[j] == before[j]);
        }
        if exists|j: int| 0 <= j < after.len() && #[trigger] after[j].key@ == b && !shows(v, after[j].key) {
            let j = choose|j: int| 0 <= j < after.len() && #[trigger] after[j].key@ == b && !shows(v, after[j].key);
            if j < i {
                assert(before[j] == after[j]);
            } else {
                assert(after[j] == batch[i]);
            }
        }
        if b == batch[i].key@ && !shows(v, batch[i].key) {
            assert(after[i] == batch[i]);
        }
    }
    assert(pruned(trie, after, v) =~= next);
}

/// Pruning only drops byte strings.
proof fn lemma_pruned_subset<V>(trie: Set<Seq<u8>>, batch: Seq<DirtyRecord<Vec<u8>, V>>, v: MapView<Vec<u8>, V>)
    ensures
        pruned(trie, batch, v).subset_of(trie),
{
}

/// Advancing the trie never drops a byte string, and once the queue is drained as far as it is
/// long, every byte string it held is in the trie and the queue is empty.
pub proof fn lemma_advance_publishes_queued(
    trie: Set<Seq<u8>>,
    updates: Seq<Seq<u8>>,
    max_items: usize,
    key: Seq<u8>,
)
    ensures
        trie.subset_of(spec_advance_trie(trie, updates, max_items).0),
        max_items >= updates.len() ==> spec_advance_trie(trie, updates, max_items).1.len() == 0,
        max_items >= updates.len() && updates.contains(key) ==> spec_advance_trie(
            trie,
            updates,
            max_items,
        ).0.contains(key),
{
    if max_items >= updates.len() {
        assert(updates.take(updates.len() as int) =~= updates);
        if updates.contains(key) {
            let i = choose|i: int| 0 <= i < updates.len() && updates[i] == key;
            assert(updates.take(updates.len() as int)[i] == key);
        }
    }
}

/// Marking a batch flushed only drops from the trie byte strings of batch keys that the map no
/// longer shows; a byte string whose batch keys the map all still shows stays.
pub proof fn lemma_prune_only_unshown<V>(
    trie: Set<Seq<u8>>,
    batch: Seq<DirtyRecord<Vec<u8>, V>>,
    v: MapView<Vec<u8>, V>,
    b: Seq<u8>,
)
    requires
        trie.contains(b),
    ensures
        !pruned(trie, batch, v).contains(b) <==> exists|i: int|
            0 <= i < batch.len() && #[trigger] batch[i].key@ == b && !shows(v, batch[i].key),
{
}

impl<V> BytePrefixMap<V> {
    /// The wrapped map is well formed and the trie holds finitely many keys.
    pub closed spec fn wf(&self) -> bool {
        &&& self.inner.wf()
        &&& key_model::<Vec<u8>>()
        &&& trie_keys(self.prefix_trie).finite()
    }

    /// An empty map with the given capacities and mode, an empty trie and an empty queue.
    ///
    /// `key_model::<Vec<u8>>()` is the key assumption of [`CacheLogMap::new`]: vstd does not
    /// establish it for `Vec<u8>`, so this map is built only by callers outside verified code,
    /// for whom the contracts below hold on that assumption.
    pub fn new(config: CacheLogConfig) -> (r: Self)
        requires
            key_model::<Vec<u8>>(),
        ensures
            r.wf(),
            r@.map == initial_view::<Vec<u8>, V>(config),
            r@.trie == Set::<Seq<u8>>::empty(),
            r@.updates == Seq::<Seq<u8>>::empty(),
    {
        let r = BytePrefixMap {
            inner: CacheLogMap::new(config),
            prefix_trie: trie_new(),
            updates: VecDeque::new(),
        };
        assert(r@.updates =~= Seq::<Seq<u8>>::empty());
        r
    }

    /// How many byte strings the trie holds.
    pub fn prefix_trie_len(&self) -> (r: usize)
        ensures
            r == self@.trie.len(),
    {
        trie_count(&self.prefix_trie)
    }

    /// The wrapped map's visible-entry count.
    pub fn visible_len(&self) -> (r: usize)
        requires
            self.wf(),
            self@.map.mode == DirtyWriteMode::CoalescedMap ==> self@.map.clean_count + overlay_keys(
                self@.map.overlay,
            ).len() <= usize::MAX,
        ensures
            r == (match self@.map.mode {
                DirtyWriteMode::StrictLog => self@.map.visible.len() as int,
                DirtyWriteMode::CoalescedMap => self@.map.clean_count + overlay_keys(
                    self@.map.overlay,
                ).len(),
            }),
    {
        self.inner.visible_len()
    }

    /// The wrapped map's count of dirty records not yet marked flushed.
    pub fn dirty_log_len(&self) -> (r: usize)
        requires
            self.wf(),
            dirty_total(self@.map) <= usize::MAX,
        ensures
            r == dirty_total(self@.map),
    {
        self.inner.dirty_log_len()
    }

    /// The wrapped map's count of dirty records not yet marked flushed, or `None` when it does
    /// not fit in a `usize`.
    pub fn checked_dirty_len(&self) -> (r: Option<usize>)
        requires
            self.wf(),
        ensures
            r == (if dirty_total(self@.map) <= usize::MAX {
                Some(dirty_total(self@.map) as usize)
            } else {
                None
            }),
    {
        self.inner.checked_dirty_len()
    }

    /// The wrapped map's clean-entry counter.
    pub fn clean_store_len(&self) -> (r: usize)
        ensures
            r == self@.map.clean_count,
    {
        self.inner.clean_store_len()
    }

    /// Runs `reader` on the key, value and state the map shows for `key`.
    pub fn read<R, F: FnOnce(&Vec<u8>, &V, EntryState) -> R>(&self, key: &Vec<u8>, reader: F) -> (r:
        Option<R>)
        requires
            self.wf(),
            forall|k: &Vec<u8>, v: &V, s: EntryState| reader.requires((k, v, s)),
        ensures
            match spec_read_full(self@.map, *key) {
                Some((k, v, s, _)) => r is Some && reader.ensures((&k, &v, s), r->0),
                None => r is None,
            },
    {
        self.inner.read(key, reader)
    }

    /// Runs `reader` on the key, value, state and ref the map shows for `key`.
    pub fn read_full<R, F: FnOnce(&Vec<u8>, &V, EntryState, VisibleRef) -> R>(
        &self,
        key: &Vec<u8>,
        reader: F,
    ) -> (r: Option<R>)
        requires
            self.wf(),
            forall|k: &Vec<u8>, v: &V, s: EntryState, vr: VisibleRef| reader.requires((k, v, s, vr)),
        ensures
            match spec_read_full(self@.map, *key) {
                Some((k, v, s, vr)) => r is Some && reader.ensures((&k, &v, s, vr), r->0),
                None => r is None,
            },
    {
        self.inner.read_full(key, reader)
    }

    /// Writes `value` for `key` and queues the key for the trie.
    pub fn put(&mut self, key: Vec<u8>, value: V)
        requires
            old(self).wf(),
            old(self)@.map.mode == DirtyWriteMode::StrictLog ==> log_has_room(old(self)@.map, 1),
        ensures
            final(self).wf(),
            final(self)@.map == spec_put(old(self)@.map, key, value),
            final(self)@.trie == old(self)@.trie,
            final(self)@.updates == old(self)@.updates.push(key@),
    {
        let queued = copy_key(&key);
        self.inner.put(key, value);
        self.updates.push_back(queued);
        assert(self@.updates =~= old(self)@.updates.push(key@));
    }

    /// Writes a batch and queues its keys for the trie, in order; returns how many writes it
    /// made.
    pub fn put_batch(&mut self, entries: Vec<(Vec<u8>, V)>) -> (written: usize)
        requires
            old(self).wf(),
            old(self)@.map.mode == DirtyWriteMode::StrictLog ==> log_has_room(
                old(self)@.map,
                entries@.len(),
            ),
        ensures
            final(self).wf(),
            final(self)@.trie == old(self)@.trie,
            entries@.len() == 0 ==> written == 0 && final(self)@ == old(self)@,
            entries@.len() > 0 ==> {
                &&& final(self)@.map == spec_insert_dirty_batch(old(self)@.map, entries@).0
                &&& written == spec_insert_dirty_batch(old(self)@.map, entries@).1.len()
                &&& final(self)@.updates == old(self)@.updates + byte_views(entry_keys(entries@))
            },
    {
        if entries.len() == 0 {
            return 0;
        }
        let mut keys: Vec<Vec<u8>> = Vec::new();
        let mut i: usize = 0;
        while i < entries.len()
            invariant
                key_model::<Vec<u8>>(),
                i <= entries@.len(),
                keys@ == entry_keys(entries@).take(i as int),
            decreases entries@.len() - i,
        {
            keys.push(copy_key(&entries[i].0));
            i += 1;
            assert(keys@ =~= entry_keys(entries@).take(i as int));
        }
        let ghost all_keys = keys@;
        let written = self.inner.put_batch(entries);
        let ghost start = self.updates@;
        let ghost after = self.inner@;
        let mut j: usize = 0;
        while j < keys.len()
            invariant
                self.wf(),
                self.inner@ == after,
                self.prefix_trie == old(self).prefix_trie,
                keys@ == all_keys,
                j <= keys@.len(),
                self.updates@ == start + keys@.take(j as int),
            decreases keys@.len() - j,
        {
            self.updates.push_back(copy_key(&keys[j]));
            j += 1;
            assert(self.updates@ =~= start + keys@.take(j as int));
        }
        proof {
            assert(keys@.take(keys@.len() as int) =~= keys@);
            assert(all_keys =~= entry_keys(entries@));
            assert(byte_views(start + all_keys) =~= byte_views(start) + byte_views(all_keys));
        }
        written
    }

    /// Writes `value` for `key` under a fresh id, queues the key for the trie, and returns the id.
    pub fn insert_dirty(&mut self, key: Vec<u8>, value: V) -> (id: WriteId)
        requires
            old(self).wf(),
            old(self)@.map.mode == DirtyWriteMode::StrictLog ==> log_has_room(old(self)@.map, 1),
        ensures
            final(self).wf(),
            (final(self)@.map, id) == spec_insert_dirty(old(self)@.map, key, value),
            final(self)@.trie == old(self)@.trie,
            final(self)@.updates == old(self)@.updates.push(key@),
    {
        let queued = copy_key(&key);
        let id = self.inner.insert_dirty(key, value);
        self.updates.push_back(queued);
        assert(self@.updates =~= old(self)@.updates.push(key@));
        id
    }

    /// The same as [`BytePrefixMap::insert_dirty`].
    pub fn upsert_dirty(&mut self, key: Vec<u8>, value: V) -> (id: WriteId)
        requires
            old(self).wf(),
            old(self)@.map.mode == DirtyWriteMode::StrictLog ==> log_has_room(old(self)@.map, 1),
        ensures
            final(self).wf(),
            (final(self)@.map, id) == spec_insert_dirty(old(self)@.map, key, value),
            final(self)@.trie == old(self)@.trie,
            final(self)@.updates == old(self)@.updates.push(key@),
    {
        self.insert_dirty(key, value)
    }

    /// Installs a clean entry when the map shows nothing for `key`, and then queues the key for
    /// the trie; returns the new entry's cache id.
    pub fn insert_clean_if_absent(&mut self, key: Vec<u8>, value: V) -> (r: Option<CacheId>)
        requires
            old(self).wf(),
        ensures
            final(self).wf(),
            (final(self)@.map, r) == spec_insert_clean(old(self)@.map, key, value),
            final(self)@.trie == old(self)@.trie,
            final(self)@.updates == (if r is Some {
                old(self)@.updates.push(key@)
            } else {
                old(self)@.updates
            }),
    {
        let queued = copy_key(&key);
        let inserted = self.inner.insert_clean_if_absent(key, value);
        if inserted.is_some() {
            self.updates.push_back(queued);
            assert(self@.updates =~= old(self)@.updates.push(key@));
        }
        inserted
    }

    /// Hands out at most `limit` dirty records of the wrapped map to persist.
    pub fn flush_batch(&mut self, limit: usize) -> (r: FlushBatch<Vec<u8>, V>)
        requires
            old(self).wf(),
        ensures
            final(self).wf(),
            (final(self)@.map, r@) == spec_flush_batch(old(self)@.map, limit),
            final(self)@.trie == old(self)@.trie,
            final(self)@.updates == old(self)@.updates,
    {
        self.inner.flush_batch(limit)
    }

    /// Marks `batch` flushed in the wrapped map; when it was the batch in flight, drops from the
    /// trie the keys of the batch that the map no longer shows. Returns how many records left.
    pub fn mark_flushed(&mut self, batch: &FlushBatch<Vec<u8>, V>) -> (r: usize)
        requires
            old(self).wf(),
        ensures
            final(self).wf(),
            (final(self)@.map, r) == spec_mark_flushed(old(self)@.map, batch@),
            final(self)@.trie == (if r == 0 {
                old(self)@.trie
            } else {
                pruned(old(self)@.trie, batch@, final(self)@.map)
            }),
            final(self)@.updates == old(self)@.updates,
    {
        let marked = self.inner.mark_flushed(batch);
        if marked == 0 {
            return 0;
        }
        let ghost start = trie_keys(self.prefix_trie);
        let ghost v = self.inner@;
        proof {
            assert(batch@.take(0) =~= Seq::<DirtyRecord<Vec<u8>, V>>::empty());
            assert(pruned(start, batch@.take(0), v) =~= start);
        }
        let n = batch.len();
        let mut i: usize = 0;
        while i < n
            invariant
                self.inner.wf(),
                self.inner@ == v,
                self.updates@ == old(self).updates@,
                n == batch@.len(),
                i <= n,
                start.finite(),
                trie_keys(self.prefix_trie) == pruned(start, batch@.take(i as int), v),
            decreases n - i,
        {
            let record = batch.get(i).unwrap();
            let shown = self.inner.contains(&record.key);
            proof {
                lemma_prune_step(start, batch@, v, i as int);
            }
            if !shown {
                let _ = trie_remove(&mut self.prefix_trie, record.key.as_slice());
            }
            i += 1;
        }
        proof {
            assert(batch@.take(n as int) =~= batch@);
            lemma_pruned_subset(start, batch@, v);
            vstd::set_lib::lemma_set_subset_finite(start, pruned(start, batch@, v));
        }
        marked
    }

    /// Hands one batch of at most `limit` (at least one) records to `persist`, and marks it
    /// flushed, pruning the trie, when `persist` succeeds; returns how many records were marked.
    pub fn with_flush_batch<E, F: FnOnce(&PersistBatch<Vec<u8>, V>) -> Result<(), E>>(
        &mut self,
        limit: usize,
        persist: F,
    ) -> (r: Result<usize, E>)
        requires
            old(self).wf(),
            forall|b: &PersistBatch<Vec<u8>, V>| persist.requires((b,)),
        ensures
            final(self).wf(),
            final(self)@.updates == old(self)@.updates,
            ({
                let (v1, batch) = spec_flush_batch(old(self)@.map, flush_limit(limit));
                &&& batch.len() == 0 ==> r == Ok::<usize, E>(0) && final(self)@.map == v1
                    && final(self)@.trie == old(self)@.trie
                &&& batch.len() > 0 ==> match r {
                    Ok(n) => {
                        &&& (final(self)@.map, n) == spec_mark_flushed(v1, batch)
                        &&& final(self)@.trie == (if n == 0 {
                            old(self)@.trie
                        } else {
                            pruned(old(self)@.trie, batch, final(self)@.map)
                        })
                        &&& exists|b: PersistBatch<Vec<u8>, V>|
                            b@ == batch && persist.ensures((&b,), Ok::<(), E>(()))
                    },
                    Err(e) => {
                        &&& final(self)@.map == v1
                        &&& final(self)@.trie == old(self)@.trie
                        &&& exists|b: PersistBatch<Vec<u8>, V>|
                            b@ == batch && persist.ensures((&b,), Err::<(), E>(e))
                    },
                }
            }),
    {
        let l = if limit > 1 {
            limit
        } else {
            1
        };
        let batch = self.flush_batch(l);
        if batch.is_empty() {
            return Ok(0);
        }
        let persist_batch = PersistBatch::from_flush_batch(batch.clone());
        let outcome = persist(&persist_batch);
        match outcome {
            Ok(unit) => {
                assert(unit == ());
                assert(outcome == Ok::<(), E>(()));
                assert(persist.ensures((&persist_batch,), Ok::<(), E>(())));
            },
            Err(e) => {
                assert(persist.ensures((&persist_batch,), Err::<(), E>(e)));
                return Err(e);
            },
        }
        Ok(self.mark_flushed(&batch))
    }

    /// Flushes batch after batch of at most `limit` (at least one) records through `persist`,
    /// pruning the trie as batches are marked, until nothing is left; returns how many records
    /// were marked flushed, or the first error `persist` returned.
    pub fn flush_now<E, F: Fn(&PersistBatch<Vec<u8>, V>) -> Result<(), E>>(
        &mut self,
        limit: usize,
        persist: F,
    ) -> (r: Result<usize, E>)
        requires
            old(self).wf(),
            dirty_total(old(self)@.map) <= usize::MAX,
            forall|b: &PersistBatch<Vec<u8>, V>| persist.requires((b,)),
        ensures
            final(self).wf(),
            final(self)@.updates == old(self)@.updates,
            final(self)@.trie.subset_of(old(self)@.trie),
            match r {
                Ok(total) => dirty_total(final(self)@.map) == 0 && exists|k: nat|
                    #![trigger flush_rounds(old(self)@.map, flush_limit(limit), k)]
                    {
                        &&& spec_flush_batch(flush_rounds(old(self)@.map, flush_limit(limit), k), flush_limit(limit)).1.len() == 0
                        &&& final(self)@.map == spec_flush_batch(
                            flush_rounds(old(self)@.map, flush_limit(limit), k),
                            flush_limit(limit),
                        ).0
                        &&& total + dirty_total(flush_rounds(old(self)@.map, flush_limit(limit), k))
                            == dirty_total(old(self)@.map)
                        &&& final(self)@.trie == trie_after_rounds(
                            old(self)@.trie,
                            old(self)@.map,
                            flush_limit(limit),
                            k,
                        )
                    },
                Err(e) => exists|k: nat|
                    #![trigger flush_rounds(old(self)@.map, flush_limit(limit), k)]
                    {
                        let (v1, batch) = spec_flush_batch(
                            flush_rounds(old(self)@.map, flush_limit(limit), k),
                            flush_limit(limit),
                        );
                        &&& batch.len() > 0
                        &&& final(self)@.map == v1
                        &&& final(self)@.trie == trie_after_rounds(
                            old(self)@.trie,
                            old(self)@.map,
                            flush_limit(limit),
                            k,
                        )
                        &&& exists|b: PersistBatch<Vec<u8>, V>|
                            b@ == batch && persist.ensures((&b,), Err::<(), E>(e))
                    },
            },
    {
        let l = if limit > 1 {
            limit
        } else {
            1
        };
        let mut total: usize = 0;
        let ghost mut rounds: nat = 0;
        loop
            invariant
                self.wf(),
                l == flush_limit(limit),
                forall|b: &PersistBatch<Vec<u8>, V>| persist.requires((b,)),
                self@.map == flush_rounds(old(self)@.map, l, rounds),
                self@.updates == old(self)@.updates,
                self@.trie.subset_of(old(self)@.trie),
                self@.trie == trie_after_rounds(old(self)@.trie, old(self)@.map, l, rounds),
                total + dirty_total(self@.map) == dirty_total(old(self)@.map),
                dirty_total(old(self)@.map) <= usize::MAX,
            decreases dirty_total(self@.map),
        {
            proof {
                self.inner.lemma_consistent();
            }
            let ghost before = self@;
            let batch = self.flush_batch(l);
            if batch.is_empty() {
                proof {
                    lemma_empty_flush_leaves_nothing(before.map, l);
                }
                return Ok(total);
            }
            proof {
                lemma_flush_round_progress(before.map, l);
            }
            let persist_batch = PersistBatch::from_flush_batch(batch.clone());
            match persist(&persist_batch) {
                Ok(()) => {},
                Err(e) => {
                    return Err(e);
                },
            }
            let ghost trie_before = self@.trie;
            let marked = self.mark_flushed(&batch);
            proof {
                if marked != 0 {
                    lemma_pruned_subset(trie_before, batch@, self@.map);
                }
            }
            total = total + marked;
            proof {
                rounds = rounds + 1;
            }
        }
    }

    /// Flushes everything through `persist`, pruning the trie, then runs `scan`.
    pub fn with_persisted_scan<R, E, F: Fn(&PersistBatch<Vec<u8>, V>) -> Result<(), E>, S: FnOnce(&Self) -> Result<R, E>>(
        &mut self,
        flush_limit: usize,
        persist: F,
        scan: S,
    ) -> (r: Result<R, E>)
        requires
            old(self).wf(),
            dirty_total(old(self)@.map) <= usize::MAX,
            forall|b: &PersistBatch<Vec<u8>, V>| persist.requires((b,)),
            forall|m: &Self| scan.requires((m,)),
        ensures
            final(self).wf(),
            final(self)@.updates == old(self)@.updates,
            final(self)@.trie.subset_of(old(self)@.trie),
            ({
                let l = crate::map::spec::flush_limit(flush_limit);
                ||| {
                    &&& exists|k: nat|
                        #![trigger flush_rounds(old(self)@.map, l, k)]
                        {
                            &&& spec_flush_batch(flush_rounds(old(self)@.map, l, k), l).1.len() == 0
                            &&& final(self)@.map == spec_flush_batch(
                                flush_rounds(old(self)@.map, l, k),
                                l,
                            ).0
                            &&& final(self)@.trie == trie_after_rounds(
                                old(self)@.trie,
                                old(self)@.map,
                                l,
                                k,
                            )
                        }
                    &&& dirty_total(final(self)@.map) == 0
                    &&& scan.ensures((&*final(self),), r)
                }
                ||| r matches Err(e) && exists|k: nat|
                    #![trigger flush_rounds(old(self)@.map, l, k)]
                    {
                        let (v1, batch) = spec_flush_batch(flush_rounds(old(self)@.map, l, k), l);
                        &&& batch.len() > 0
                        &&& final(self)@.map == v1
                        &&& final(self)@.trie == trie_after_rounds(
                            old(self)@.trie,
                            old(self)@.map,
                            l,
                            k,
                        )
                        &&& exists|b: PersistBatch<Vec<u8>, V>|
                            b@ == batch && persist.ensures((&b,), Err::<(), E>(e))
                    }
            }),
    {
        match self.flush_now(flush_limit, persist) {
            Ok(_) => {},
            Err(e) => return Err(e),
        }
        scan(&*self)
    }

    /// Moves at most `max_items` queued keys into the trie, each byte string once; returns how
    /// many distinct byte strings moved.
    pub fn advance_trie(&mut self, max_items: usize) -> (r: usize)
        requires
            old(self).wf(),
        ensures
            final(self).wf(),
            final(self)@.map == old(self)@.map,
            (final(self)@.trie, final(self)@.updates, r as nat) == spec_advance_trie(
                old(self)@.trie,
                old(self)@.updates,
                max_items,
            ),
    {
        let ghost raw = self.updates@;
        let ghost n: nat = if raw.len() < max_items {
            raw.len()
        } else {
            max_items as nat
        };
        if max_items == 0 {
            proof {
                assert(byte_views(raw).take(0).to_set() =~= Set::<Seq<u8>>::empty());
                assert(byte_views(raw).skip(0) =~= byte_views(raw));
                assert(trie_keys(self.prefix_trie).union(Set::<Seq<u8>>::empty()) =~= trie_keys(self.prefix_trie));
            }
            return 0;
        }
        let mut drained: Vec<Vec<u8>> = Vec::new();
        while drained.len() < max_items && self.updates.len() > 0
            invariant
                self.inner == old(self).inner,
                key_model::<Vec<u8>>(),
                self.prefix_trie == old(self).prefix_trie,
                drained@.len() <= max_items,
                drained@ + self.updates@ == raw,
            decreases self.updates@.len(),
        {
            let ghost before = self.updates@;
            if let Some(key) = self.updates.pop_front() {
                drained.push(key);
                assert(drained@ + self.updates@ =~= raw);
            }
        }
        proof {
            assert(drained@.len() == n);
            assert(drained@ =~= raw.take(n as int));
            assert(self.updates@ =~= raw.skip(n as int));
        }
        let ghost taken = drained@;
        let mut sorted = sort_unique(drained);
        let ghost whole = sorted@;
        let ghost start = trie_keys(self.prefix_trie);
        let mut applied: usize = 0;
        let total = sorted.len();
        assert(whole.len() == total);
        while sorted.len() > 0
            invariant
                self.inner == old(self).inner,
                self.updates@ == raw.skip(n as int),
                key_model::<Vec<u8>>(),
                whole.len() <= usize::MAX,
                start.finite(),
                sorted@ == whole.take(sorted@.len() as int),
                sorted@.len() <= whole.len(),
                applied == whole.len() - sorted@.len(),
                trie_keys(self.prefix_trie) == start.union(byte_views(whole.skip(sorted@.len() as int)).to_set()),
                trie_keys(self.prefix_trie).finite(),
            decreases sorted@.len(),
        {
            let ghost m = sorted@.len() as int;
            let key = sorted.pop().unwrap();
            proof {
                assert(sorted@ =~= whole.take(m - 1));
                assert(whole.skip(m - 1) =~= seq![key] + whole.skip(m));
                assert(byte_views(whole.skip(m - 1)).to_set() =~= byte_views(whole.skip(m)).to_set().insert(key@)) by {
                    let a = byte_views(whole.skip(m - 1));
                    let b = byte_views(whole.skip(m));
                    assert(a =~= seq![key@] + b);
                    assert forall|x: Seq<u8>| a.to_set().contains(x) <==> b.to_set().insert(key@).contains(x) by {
                        if a.to_set().contains(x) {
                            let i = choose|i: int| 0 <= i < a.len() && a[i] == x;
                            if i > 0 {
                                assert(b[i - 1] == x);
                            }
                        }
                        if b.to_set().contains(x) {
                            let i = choose|i: int| 0 <= i < b.len() && b[i] == x;
                            assert(a[i + 1] == x);
                        }
                        if x == key@ {
                            assert(a[0] == x);
                        }
                    }
                }
            }
            let _ = trie_insert(&mut self.prefix_trie, key);
            applied += 1;
        }
        proof {
            assert(whole.skip(0) =~= whole);
            assert(byte_views(taken) =~= byte_views(raw).take(n as int));
            assert(byte_views(self.updates@) =~= byte_views(raw).skip(n as int));
            lemma_ordered_no_duplicates(byte_views(whole));
        }
        applied
    }

    /// The keys of the trie that start with `prefix`, at most `limit` of them.
    fn snapshot_prefix_keys(&self, prefix: &[u8], limit: usize) -> (r: Vec<Vec<u8>>)
        requires
            self.wf(),
        ensures
            trie_scan(r@, self@.trie, prefix@, limit),
    {
        let ghost matches = self@.trie.filter(|b: Seq<u8>| starts_with(b, prefix@));
        proof {
            vstd::set_lib::lemma_set_subset_finite(self@.trie, matches);
        }
        if limit == 0 {
            let r: Vec<Vec<u8>> = Vec::new();
            proof {
                assert(byte_views(r@).to_set() =~= Set::<Seq<u8>>::empty());
                if matches.len() == 0 {
                    assert(r@.len() == matches.len());
                }
                let walk = trie_walk(self@.trie, prefix@);
                assert(byte_views(r@) =~= walk.take(0));
                if walk.len() == 0 {
                    assert(walk =~= walk.take(0));
                }
            }
            return r;
        }
        let mut keys = trie_prefix_keys(&self.prefix_trie, prefix);
        let ghost all = keys@;
        proof {
            byte_views(all).unique_seq_to_set();
            lemma_is_trie_walk(byte_views(all), trie_keys(self.prefix_trie), prefix@);
        }
        keys.truncate(limit);
        proof {
            if all.len() > limit {
                assert(byte_views(keys@) =~= byte_views(all).take(limit as int));
                assert forall|i: int, j: int|
                    0 <= i < byte_views(keys@).len() && 0 <= j < byte_views(keys@).len() && i != j implies
                    byte_views(keys@)[i] != byte_views(keys@)[j] by {
                    assert(byte_views(keys@)[i] == byte_views(all)[i]);
                    assert(byte_views(keys@)[j] == byte_views(all)[j]);
                }
                assert forall|b: Seq<u8>| byte_views(keys@).to_set().contains(b) implies matches.contains(b) by {
                    let i = choose|i: int| 0 <= i < byte_views(keys@).len() && byte_views(keys@)[i] == b;
                    assert(byte_views(all)[i] == b);
                    assert(byte_views(all).to_set().contains(b));
                }
            } else {
                assert(keys@ == all);
                assert(byte_views(keys@).to_set() == matches);
            }
        }
        keys
    }

    /// Runs `reader` on each key of the trie that starts with `prefix` and that the map shows,
    /// looking at most `limit` trie keys; returns how many keys were read.
    pub fn for_each_prefix_key<F: Fn(&Vec<u8>)>(&self, prefix: &[u8], reader: F, limit: usize) -> (count:
        usize)
        requires
            self.wf(),
            forall|k: &Vec<u8>| reader.requires((k,)),
        ensures
            exists|keys: Seq<Vec<u8>>|
                #![trigger trie_scan(keys, self@.trie, prefix@, limit)]
                trie_scan(keys, self@.trie, prefix@, limit) && count == shown_keys(self@.map, keys).len(),
    {
        let keys = self.snapshot_prefix_keys(prefix, limit);
        let mut matched: usize = 0;
        let mut i: usize = 0;
        while i < keys.len()
            invariant
                self.wf(),
                forall|k: &Vec<u8>| reader.requires((k,)),
                i <= keys@.len(),
                matched == shown_keys(self@.map, keys@.take(i as int)).len(),
                matched <= i,
            decreases keys@.len() - i,
        {
            proof {
                reveal(Seq::filter);
                assert(keys@.take(i + 1).drop_last() =~= keys@.take(i as int));
            }
            if let Some((k, _, _, _)) = self.inner.lookup(&keys[i]) {
                reader(k);
                matched += 1;
            }
            i += 1;
        }
        proof {
            assert(keys@.take(keys@.len() as int) =~= keys@);
            assert(trie_scan(keys@, self@.trie, prefix@, limit));
        }
        matched
    }

    /// What `reader` returns for the key, value and state of each key of the trie that starts
    /// with `prefix` and that the map shows, looking at most `limit` trie keys.
    pub fn list_prefix<R, F: Fn(&Vec<u8>, &V, EntryState) -> R>(
        &self,
        prefix: &[u8],
        reader: F,
        limit: usize,
    ) -> (out: Vec<R>)
        requires
            self.wf(),
            forall|k: &Vec<u8>, v: &V, s: EntryState| reader.requires((k, v, s)),
        ensures
            exists|keys: Seq<Vec<u8>>|
                #![trigger trie_scan(keys, self@.trie, prefix@, limit)]
                {
                    &&& trie_scan(keys, self@.trie, prefix@, limit)
                    &&& out@.len() == shown_keys(self@.map, keys).len()
                    &&& forall|j: int|
                        0 <= j < out@.len() ==> read_gives(
                            self@.map,
                            shown_keys(self@.map, keys)[j],
                            reader,
                            #[trigger] out@[j],
                        )
                },
    {
        let keys = self.snapshot_prefix_keys(prefix, limit);
        let mut out: Vec<R> = Vec::new();
        let mut i: usize = 0;
        while i < keys.len()
            invariant
                self.wf(),
                forall|k: &Vec<u8>, v: &V, s: EntryState| reader.requires((k, v, s)),
                i <= keys@.len(),
                out@.len() == shown_keys(self@.map, keys@.take(i as int)).len(),
                forall|j: int|
                    0 <= j < out@.len() ==> read_gives(
                        self@.map,
                        shown_keys(self@.map, keys@.take(i as int))[j],
                        reader,
                        #[trigger] out@[j],
                    ),
            decreases keys@.len() - i,
        {
            let ghost shown_before = shown_keys(self@.map, keys@.take(i as int));
            proof {
                reveal(Seq::filter);
                assert(keys@.take(i + 1).drop_last() =~= keys@.take(i as int));
            }
            if let Some((k, v, s, _)) = self.inner.lookup(&keys[i]) {
                let item = reader(k, v, s);
                out.push(item);
                proof {
                    let shown_after = shown_keys(self@.map, keys@.take(i + 1));
                    assert(shown_after == shown_before.push(keys@[i as int]));
                    assert forall|j: int| 0 <= j < out@.len() implies read_gives(
                        self@.map,
                        shown_after[j],
                        reader,
                        #[trigger] out@[j],
                    ) by {
                        if j < shown_before.len() {
                            assert(shown_after[j] == shown_before[j]);
                        }
                    }
                }
            }
            i += 1;
        }
        proof {
            assert(keys@.take(keys@.len() as int) =~= keys@);
            assert(trie_scan(keys@, self@.trie, prefix@, limit));
        }
        out
    }
}

} // verus!
