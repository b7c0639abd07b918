//! The cache log map: a visible index of dirty and clean entries in front of a durable store.
//!
//! Dirty writes are tracked by mode. In `StrictLog` mode every write is appended to an ordered
//! log and published in the visible index; flushes hand out prefixes of the log. In
//! `CoalescedMap` mode writes publish into a latest-value overlay and flushes hand out batches
//! of a detached snapshot of it. Clean entries installed from the durable store sit in the same
//! visible index and are evicted first-in, first-out.
pub mod types;
pub mod table;
pub mod coalesced;
pub mod spec;
pub mod laws;
pub mod debug;
pub mod bytes;
pub mod prefix;
pub mod borrowed;

use std::collections::{HashMap, HashSet, VecDeque};
use std::hash::Hash;
use std::sync::Arc;
use vstd::prelude::*;

use crate::dirty_log::{ids_of, numbered, same_tail, OrderedFifoDirty};
use crate::entry::{
    share, unshare, CacheId, CleanRecord, DirtyRecord, EntryState, FlushBatch, PersistBatch, VisibleRef,
    WriteId,
};
use coalesced::{
    drained_records, draining_len, inflight_len, keys_unique, overlay_keys, CoalescedOverlay,
};
use spec::{
    flush_limit, flush_round, flush_rounds, lemma_flush_round_progress, view_consistent,
    spec_flush_batch as flush_batch_spec, compact_latest, publish_coalesced_all, publish_dirty_all, spec_insert_dirty_batch, dirty_total, overlay_total, spec_wait_flush_work, has_flush_work, log_inflight_len, assign_ids, batch_has_key, coalesced_flush_batch, retired_by_flush, spec_flush_batch,
    spec_mark_flushed, strict_flush_batch, unassigned_count, wrap_add_u64, clean_entry_with_id, enqueue_clean_spec, entry_of, entry_ref, log_has_room, publish_coalesced,
    publish_dirty, remove_clean_if_present, spec_cleanup_matching, spec_cleanup_stale,
    spec_evict_clean, spec_insert_clean, spec_insert_dirty, spec_put, spec_read_full,
    spec_visible_ref, sweep_flushed, visible_view, wrap_dec, wrap_inc, wrap_inc_u64, MapView,
    VisibleEntry,
};
use table::{copy_key, key_model};
use types::{CacheLogConfig, DirtyBacklogCounts, DirtyWriteMode, FlushWork, VisibleValue};

verus! {

/// The id a coalesced write carries until a flush hands it a real one.
pub const COALESCED_UNASSIGNED_WRITE_ID: WriteId = 0xffff_ffff_ffff_fffe;

/// The map. Mutating operations take `&mut self`; share it behind a lock to use it from several
/// threads.
pub struct CacheLogMap<K, V> {
    visible: HashMap<K, VisibleValue<K, V>>,
    coalesced: CoalescedOverlay<K, V>,
    dirty_mode: OrderedFifoDirty<K, V>,
    dirty_write_mode: DirtyWriteMode,
    clean_fifo: VecDeque<(K, CacheId)>,
    clean_capacity: usize,
    clean_count: usize,
    next_cache: u64,
    next_dirty_write: u64,
    coalesced_has_unassigned_ids: bool,
    strict_flushed_upto: u64,
}

impl<K: Clone + Eq + Hash, V> View for CacheLogMap<K, V> {
    type V = MapView<K, V>;

    closed spec fn view(&self) -> MapView<K, V> {
        MapView {
            mode: self.dirty_write_mode,
            visible: visible_view(self.visible@),
            overlay: self.coalesced@,
            pending: self.dirty_mode.pending_records(),
            inflight: self.dirty_mode.inflight_records(),
            next_write: self.dirty_mode.spec_next_id(),
            force_flush: self.dirty_mode.spec_force_flush_requested(),
            clean_fifo: self.clean_fifo@,
            clean_capacity: self.clean_capacity as nat,
            clean_count: self.clean_count,
            next_cache: self.next_cache,
            next_dirty_write: self.next_dirty_write,
            has_unassigned: self.coalesced_has_unassigned_ids,
            flushed_upto: self.strict_flushed_upto,
        }
    }
}

impl<K: Clone + Eq + Hash, V> CacheLogMap<K, V> {
    /// The parts agree with one another: each visible entry is filed under its own key, the
    /// clean queue stays within its capacity, and a flushed-up-to mark only names ids already
    /// handed out.
    pub closed spec fn wf(&self) -> bool {
        &&& key_model::<K>()
        &&& self.coalesced.wf()
        &&& self.dirty_mode.wf()
        &&& self.clean_capacity >= 1
        &&& self.clean_fifo@.len() <= self.clean_capacity
        &&& forall|k: K| #[trigger]
            self.visible@.contains_key(k) ==> match self.visible@[k] {
                VisibleValue::Dirty(record) => record.key == k,
                VisibleValue::Clean(record) => record.key == k,
            }
        &&& (self.strict_flushed_upto == u64::MAX || self.strict_flushed_upto
            < self.dirty_mode.spec_next_id())
    }

    /// An empty map with the given capacities and mode.
    ///
    /// The contracts speak of keys through their spec equality, so `key_model::<K>()` asks that
    /// `K`'s `Hash`/`Eq` agree with it and that `clone` copies exactly. vstd establishes this for
    /// the integer types, `bool` and boxes of them; for other key types, `String` and `Vec<u8>`
    /// among them, it cannot be proved here, and a map keyed by them is built only by callers
    /// outside verified code, for whom these contracts hold on that assumption.
    pub fn new(config: CacheLogConfig) -> (r: Self)
        requires
            key_model::<K>(),
        ensures
            r.wf(),
            r@ == spec::initial_view::<K, V>(config),
    {
        let clean_capacity = if config.clean_capacity > 1 {
            config.clean_capacity
        } else {
            1
        };
        let r = CacheLogMap {
            visible: HashMap::new(),
            coalesced: CoalescedOverlay::new(),
            dirty_mode: OrderedFifoDirty::new(config.dirty_log_capacity),
            dirty_write_mode: config.dirty_write_mode,
            clean_fifo: VecDeque::new(),
            clean_capacity,
            clean_count: 0,
            next_cache: 0,
            next_dirty_write: 0,
            coalesced_has_unassigned_ids: false,
            strict_flushed_upto: u64::MAX,
        };
        assert(r@.visible =~= Map::<K, VisibleEntry<K, V>>::empty());
        assert(r@.overlay == spec::initial_view::<K, V>(config).overlay);
        r
    }

    /// The clean-entry counter.
    pub fn clean_store_len(&self) -> (r: usize)
        ensures
            r == self@.clean_count,
    {
        self.clean_count
    }

    /// The write mode chosen at construction.
    pub fn dirty_write_mode(&self) -> (r: DirtyWriteMode)
        ensures
            r == self@.mode,
    {
        self.dirty_write_mode
    }

    /// The entry the map shows for `key`: its key, value, state and ref.
    pub(crate) fn lookup(&self, key: &K) -> (r: Option<(&K, &V, EntryState, VisibleRef)>)
        requires
            self.wf(),
        ensures
            match r {
                Some((k, v, s, vr)) => spec_read_full(self@, *key) == Some((*k, *v, s, vr)),
                None => spec_read_full(self@, *key) is None,
            },
    {
        if self.dirty_write_mode == DirtyWriteMode::CoalescedMap {
            if let Some((k, record)) = self.coalesced.read_active(key) {
                return Some((k, &record.value, EntryState::Dirty, VisibleRef::Dirty(record.id)));
            }
            if let Some(record) = self.coalesced.read_inflight(key) {
                return Some(
                    (&record.key, &record.value, EntryState::Dirty, VisibleRef::Dirty(record.id)),
                );
            }
            if let Some((k, record)) = self.coalesced.read_draining(key) {
                return Some((k, &record.value, EntryState::Dirty, VisibleRef::Dirty(record.id)));
            }
        }
        match self.visible.get(key) {
            Some(VisibleValue::Dirty(record)) => {
                proof {
                    assert(self@.visible[*key] == entry_of(self.visible@[*key]));
                }
                Some((&record.key, &record.value, EntryState::Dirty, VisibleRef::Dirty(record.id)))
            },
            Some(VisibleValue::Clean(record)) => {
                proof {
                    assert(self@.visible[*key] == entry_of(self.visible@[*key]));
                }
                Some((&record.key, &record.value, EntryState::Clean, VisibleRef::Clean(record.id)))
            },
            None => None,
        }
    }

    /// Runs `reader` on the key, value, state and ref the map shows for `key`.
    pub fn read_full<R, F: FnOnce(&K, &V, EntryState, VisibleRef) -> R>(&self, key: &K, reader: F) -> (r:
        Option<R>)
        requires
            self.wf(),
            forall|k: &K, v: &V, s: EntryState, vr: VisibleRef| reader.requires((k, v, s, vr)),
        ensures
            match spec_read_full(self@, *key) {
                Some((k, v, s, vr)) => r is Some && reader.ensures((&k, &v, s, vr), r->0),
                None => r is None,
            },
    {
        match self.lookup(key) {
            Some((k, v, s, vr)) => Some(reader(k, v, s, vr)),
            None => None,
        }
    }

    /// Whether the map shows an entry for `key`.
    pub fn contains(&self, key: &K) -> (r: bool)
        requires
            self.wf(),
        ensures
            r == spec_read_full(self@, *key) is Some,
    {
        self.lookup(key).is_some()
    }

    /// Runs `reader` on the key, value and state the map shows for `key`.
    pub fn read<R, F: FnOnce(&K, &V, EntryState) -> R>(&self, key: &K, reader: F) -> (r: Option<R>)
        requires
            self.wf(),
            forall|k: &K, v: &V, s: EntryState| reader.requires((k, v, s)),
        ensures
            match spec_read_full(self@, *key) {
                Some((k, v, s, _)) => r is Some && reader.ensures((&k, &v, s), r->0),
                None => r is None,
            },
    {
        match self.lookup(key) {
            Some((k, v, s, _)) => Some(reader(k, v, s)),
            None => None,
        }
    }

    /// A clone of the value the map shows for `key`, with its state.
    pub fn get_cloned(&self, key: &K) -> (r: Option<(V, EntryState)>)
        where V: Clone
        requires
            self.wf(),
        ensures
            match spec_read_full(self@, *key) {
                Some((_, v, s, _)) => r matches Some((c, t)) && cloned(v, c) && t == s,
                None => r is None,
            },
    {
        match self.lookup(key) {
            Some((_, v, s, _)) => Some((v.clone(), s)),
            None => None,
        }
    }

    /// A clone of the value the map shows for `key`, with its state and ref.
    pub fn get_cloned_full(&self, key: &K) -> (r: Option<(V, EntryState, VisibleRef)>)
        where V: Clone
        requires
            self.wf(),
        ensures
            match spec_read_full(self@, *key) {
                Some((_, v, s, vr)) => r matches Some((c, t, u)) && cloned(v, c) && t == s && u
                    == vr,
                None => r is None,
            },
    {
        match self.lookup(key) {
            Some((_, v, s, vr)) => Some((v.clone(), s, vr)),
            None => None,
        }
    }

    /// The id-bearing ref the map shows for `key`.
    pub fn visible_ref(&self, key: &K) -> (r: Option<VisibleRef>)
        requires
            self.wf(),
        ensures
            r == spec_visible_ref(self@, *key),
    {
        if self.dirty_write_mode == DirtyWriteMode::CoalescedMap {
            if let Some(found) = self.coalesced.read_visible_ref(key) {
                return Some(found);
            }
        }
        match self.visible.get(key) {
            Some(visible) => {
                proof {
                    assert(self@.visible[*key] == entry_of(self.visible@[*key]));
                }
                Some(visible.visible_ref())
            },
            None => None,
        }
    }
    /// Whether logged write `id` is already marked flushed.
    fn is_strict_flushed(&self, id: WriteId) -> (r: bool)
        ensures
            r == (self@.flushed_upto != u64::MAX && id <= self@.flushed_upto),
    {
        let flushed_upto = self.strict_flushed_upto;
        flushed_upto != u64::MAX && id <= flushed_upto
    }

    /// Publishes a freshly logged write in the visible index.
    fn publish_dirty_record(&mut self, record: Arc<DirtyRecord<K, V>>)
        requires
            old(self).wf(),
            old(self).strict_flushed_upto == u64::MAX || old(self).strict_flushed_upto < record.id,
        ensures
            final(self).wf(),
            (final(self)@.visible, final(self)@.clean_count) == publish_dirty(
                old(self)@.visible,
                old(self)@.clean_count,
                *record,
            ),
            final(self)@ == (MapView {
                visible: final(self)@.visible,
                clean_count: final(self)@.clean_count,
                ..old(self)@
            }),
    {
        let id = record.id;
        if self.is_strict_flushed(id) {
            return;
        }
        let visible_key = copy_key(&record.key);
        let ghost published = unshare(seq![record])[0];
        let previous = self.visible.insert(copy_key(&visible_key), VisibleValue::Dirty(record));
        match previous {
            Some(VisibleValue::Clean(_)) => {
                self.clean_count = self.clean_count.wrapping_sub(1);
            },
            _ => {},
        }
        proof {
            assert(self@.visible =~= old(self)@.visible.insert(
                published.key,
                VisibleEntry::Dirty(published),
            ));
        }
        if self.is_strict_flushed(id) {
            let still_current = match self.visible.get(&visible_key) {
                Some(VisibleValue::Dirty(current)) => current.id == id,
                _ => false,
            };
            if still_current {
                let _ = self.visible.remove(&visible_key);
            }
        }
    }

    /// Removes the clean entry of `key` ahead of a coalesced write.
    fn remove_visible_clean_if_present(&mut self, key: &K)
        requires
            old(self).wf(),
        ensures
            final(self).wf(),
            (final(self)@.visible, final(self)@.clean_count) == remove_clean_if_present(
                old(self)@.visible,
                old(self)@.clean_count,
                *key,
            ),
            final(self)@ == (MapView {
                visible: final(self)@.visible,
                clean_count: final(self)@.clean_count,
                ..old(self)@
            }),
    {
        if self.clean_count == 0 {
            return;
        }
        let is_clean = match self.visible.get(key) {
            Some(VisibleValue::Clean(_)) => true,
            _ => false,
        };
        if is_clean {
            let _ = self.visible.remove(key);
            self.clean_count = self.clean_count.wrapping_sub(1);
            proof {
                assert(self@.visible =~= old(self)@.visible.remove(*key));
            }
        }
    }

    /// Publishes a coalesced write of `value` under `id`.
    fn publish_coalesced_active(&mut self, key: K, id: WriteId, value: V) -> (inserted: bool)
        requires
            old(self).wf(),
        ensures
            final(self).wf(),
            final(self)@ == publish_coalesced(old(self)@, key, id, value),
            inserted == !old(self)@.overlay.active.contains_key(key),
    {
        self.remove_visible_clean_if_present(&key);
        self.coalesced.publish_active(key, id, value)
    }

    /// Logs a write and publishes it (strict mode).
    fn strict_insert_dirty(&mut self, key: K, value: V) -> (id: WriteId)
        requires
            old(self).wf(),
            old(self)@.mode == DirtyWriteMode::StrictLog,
            log_has_room(old(self)@, 1),
        ensures
            final(self).wf(),
            (final(self)@, id) == spec_insert_dirty(old(self)@, key, value),
    {
        let record = self.dirty_mode.append(key, value);
        let id = record.id;
        self.publish_dirty_record(record);
        id
    }

    /// Writes `value` under a fresh id and returns the id.
    pub fn insert_dirty(&mut self, key: K, value: V) -> (id: WriteId)
        requires
            old(self).wf(),
            old(self)@.mode == DirtyWriteMode::StrictLog ==> log_has_room(old(self)@, 1),
        ensures
            final(self).wf(),
            (final(self)@, id) == spec_insert_dirty(old(self)@, key, value),
    {
        match self.dirty_write_mode {
            DirtyWriteMode::StrictLog => self.strict_insert_dirty(key, value),
            DirtyWriteMode::CoalescedMap => {
                let id = self.next_dirty_write;
                self.next_dirty_write = self.next_dirty_write.wrapping_add(1);
                let _ = self.publish_coalesced_active(key, id, value);
                id
            },
        }
    }

    /// The same as [`CacheLogMap::insert_dirty`].
    pub fn upsert_dirty(&mut self, key: K, value: V) -> (id: WriteId)
        requires
            old(self).wf(),
            old(self)@.mode == DirtyWriteMode::StrictLog ==> log_has_room(old(self)@, 1),
        ensures
            final(self).wf(),
            (final(self)@, id) == spec_insert_dirty(old(self)@, key, value),
    {
        self.insert_dirty(key, value)
    }

    /// Writes `value` for `key`.
    pub fn put(&mut self, key: K, value: V)
        requires
            old(self).wf(),
            old(self)@.mode == DirtyWriteMode::StrictLog ==> log_has_room(old(self)@, 1),
        ensures
            final(self).wf(),
            final(self)@ == spec_put(old(self)@, key, value),
    {
        match self.dirty_write_mode {
            DirtyWriteMode::StrictLog => {
                let _ = self.strict_insert_dirty(key, value);
            },
            DirtyWriteMode::CoalescedMap => {
                self.coalesced_has_unassigned_ids = true;
                let _ = self.publish_coalesced_active(key, COALESCED_UNASSIGNED_WRITE_ID, value);
            },
        }
    }

    /// Queues the new clean entry `(key, id)`, evicting the oldest one when the queue is full.
    fn enqueue_clean(&mut self, key: K, id: CacheId)
        requires
            old(self).wf(),
        ensures
            final(self).wf(),
            (final(self)@.visible, final(self)@.clean_count, final(self)@.clean_fifo)
                == enqueue_clean_spec(
                old(self)@.visible,
                old(self)@.clean_count,
                old(self)@.clean_fifo,
                old(self)@.clean_capacity,
                key,
                id,
            ),
            final(self)@ == (MapView {
                visible: final(self)@.visible,
                clean_count: final(self)@.clean_count,
                clean_fifo: final(self)@.clean_fifo,
                ..old(self)@
            }),
    {
        if self.clean_fifo.len() >= self.clean_capacity {
            match self.clean_fifo.pop_front() {
                Some((old_key, old_id)) => {
                    let evict = match self.visible.get(&old_key) {
                        Some(VisibleValue::Clean(record)) => record.id == old_id,
                        _ => false,
                    };
                    proof {
                        if self.visible@.contains_key(old_key) {
                            assert(old(self)@.visible[old_key] == entry_of(
                                self.visible@[old_key],
                            ));
                        }
                    }
                    if evict {
                        let _ = self.visible.remove(&old_key);
                        self.clean_count = self.clean_count.wrapping_sub(1);
                        proof {
                            assert(self@.visible =~= old(self)@.visible.remove(old_key));
                        }
                    }
                },
                None => {},
            }
        }
        self.clean_fifo.push_back((key, id));
    }

    /// Installs `value` as the clean entry of `key` when the map shows nothing for `key`;
    /// returns the new entry's cache id.
    pub fn insert_clean_if_absent(&mut self, key: K, value: V) -> (r: Option<CacheId>)
        requires
            old(self).wf(),
        ensures
            final(self).wf(),
            (final(self)@, r) == spec_insert_clean(old(self)@, key, value),
    {
        let id = self.next_cache;
        self.next_cache = self.next_cache.wrapping_add(1);
        let record = Arc::new(CleanRecord { id, key, value });
        if self.dirty_write_mode == DirtyWriteMode::CoalescedMap
            && self.coalesced.read_visible_ref(&record.key).is_some() {
            return None;
        }
        if self.visible.contains_key(&record.key) {
            return None;
        }
        let visible_key = copy_key(&record.key);
        let queued_key = copy_key(&record.key);
        self.visible.insert(visible_key, VisibleValue::Clean(record));
        self.clean_count = self.clean_count.wrapping_add(1);
        proof {
            assert(self@.visible =~= old(self)@.visible.insert(
                key,
                VisibleEntry::Clean(CleanRecord { id, key, value }),
            ));
        }
        self.enqueue_clean(queued_key, id);
        Some(id)
    }

    /// Removes the clean entry of `key`; returns whether there was one.
    pub fn evict_clean(&mut self, key: &K) -> (r: bool)
        requires
            old(self).wf(),
        ensures
            final(self).wf(),
            (final(self)@, r) == spec_evict_clean(old(self)@, *key),
    {
        let is_clean = match self.visible.get(key) {
            Some(VisibleValue::Clean(_)) => true,
            _ => false,
        };
        if !is_clean {
            return false;
        }
        let _ = self.visible.remove(key);
        self.clean_count = self.clean_count.wrapping_sub(1);
        proof {
            assert(self@.visible =~= old(self)@.visible.remove(*key));
        }
        true
    }

    /// Removes the entry of `key` when it still shows `expected`; returns whether `expected` was
    /// current.
    pub fn cleanup_stale_visible_matching(&mut self, key: &K, expected: VisibleRef) -> (r: bool)
        requires
            old(self).wf(),
        ensures
            final(self).wf(),
            (final(self)@, r) == spec_cleanup_matching(old(self)@, *key, expected),
    {
        if self.dirty_write_mode == DirtyWriteMode::CoalescedMap {
            if let VisibleRef::Dirty(_) = expected {
                if self.coalesced.read_visible_ref(key) == Some(expected) {
                    return true;
                }
            }
        }
        let matches = match self.visible.get(key) {
            Some(visible) => visible.visible_ref() == expected,
            None => false,
        };
        proof {
            if self.visible@.contains_key(*key) {
                assert(old(self)@.visible[*key] == entry_of(self.visible@[*key]));
            }
        }
        if matches {
            let _ = self.visible.remove(key);
            proof {
                assert(self@.visible =~= old(self)@.visible.remove(*key));
            }
        }
        matches
    }

    /// Removes the entry `key` currently shows; returns whether there was one to remove.
    pub fn cleanup_stale_visible(&mut self, key: &K) -> (r: bool)
        requires
            old(self).wf(),
        ensures
            final(self).wf(),
            (final(self)@, r) == spec_cleanup_stale(old(self)@, *key),
    {
        match self.visible_ref(key) {
            Some(visible_ref) => self.cleanup_stale_visible_matching(key, visible_ref),
            None => false,
        }
    }
    /// Moves the flushed mark up to `id`.
    fn advance_strict_flushed_upto(&mut self, id: WriteId)
        ensures
            final(self)@ == (MapView {
                flushed_upto: if old(self)@.flushed_upto != u64::MAX && old(self)@.flushed_upto
                    >= id {
                    old(self)@.flushed_upto
                } else {
                    id
                },
                ..old(self)@
            }),
            final(self).visible == old(self).visible,
            final(self).coalesced == old(self).coalesced,
            final(self).dirty_mode == old(self).dirty_mode,
            final(self).clean_fifo == old(self).clean_fifo,
            final(self).clean_capacity == old(self).clean_capacity,
    {
        let current = self.strict_flushed_upto;
        if current != u64::MAX && current >= id {
            return;
        }
        self.strict_flushed_upto = id;
    }

    /// Removes, for each key of `batch`, a visible entry that the flushed mark covers or that is
    /// clean.
    fn sweep_flushed_keys(&mut self, batch: &FlushBatch<K, V>)
        requires
            old(self).wf(),
        ensures
            final(self).wf(),
            final(self)@ == (MapView {
                visible: sweep_flushed(old(self)@.visible, batch@, old(self)@.flushed_upto),
                ..old(self)@
            }),
    {
        let upto = self.strict_flushed_upto;
        let ghost v0 = self@.visible;
        let mut i: usize = 0;
        while i < batch.len()
            invariant
                self.wf(),
                i <= batch@.len(),
                upto == self@.flushed_upto,
                self@ == (MapView { visible: self@.visible, ..old(self)@ }),
                v0 == old(self)@.visible,
                self@.visible == sweep_flushed(v0, batch@.take(i as int), upto),
            decreases batch@.len() - i,
        {
            let record = batch.get(i).unwrap();
            let remove = match self.visible.get(&record.key) {
                Some(VisibleValue::Dirty(current)) => current.id <= upto,
                Some(VisibleValue::Clean(_)) => true,
                None => false,
            };
            let ghost before = self@.visible;
            proof {
                if self.visible@.contains_key(record.key) {
                    assert(before[record.key] == entry_of(self.visible@[record.key]));
                }
            }
            proof {
                assert(remove == (before.contains_key(record.key) && retired_by_flush(
                    before[record.key],
                    upto,
                )));
            }
            if remove {
                let _ = self.visible.remove(&record.key);
                proof {
                    assert(self@.visible =~= before.remove(record.key));
                }
            }
            proof {
                let next = batch@.take(i + 1);
                assert(next[i as int] == *record);
                assert forall|k: K| batch_has_key(next, k) <==> batch_has_key(batch@.take(i as int), k)
                    || k == record.key by {
                    if batch_has_key(next, k) {
                        let j = choose|j: int| 0 <= j < next.len() && next[j].key == k;
                        if j < i {
                            assert(batch@.take(i as int)[j] == next[j]);
                        }
                    }
                    if batch_has_key(batch@.take(i as int), k) {
                        let j = choose|j: int|
                            0 <= j < batch@.take(i as int).len() && batch@.take(i as int)[j].key == k;
                        assert(next[j] == batch@.take(i as int)[j]);
                    }
                    if k == record.key {
                        assert(next[i as int].key == k);
                    }
                }
                assert(self@.visible =~= sweep_flushed(v0, next, upto));
            }
            i += 1;
        }
        proof {
            assert(batch@.take(batch@.len() as int) =~= batch@);
        }
    }

    /// Strict-mode `mark_flushed`.
    fn strict_mark_flushed(&mut self, batch: &FlushBatch<K, V>) -> (r: usize)
        requires
            old(self).wf(),
            old(self)@.mode == DirtyWriteMode::StrictLog,
        ensures
            final(self).wf(),
            (final(self)@, r) == spec_mark_flushed(old(self)@, batch@),
    {
        let marked = self.dirty_mode.mark_flushed(batch);
        if marked == 0 {
            return 0;
        }
        match batch.last_id() {
            Some(last_id) => self.advance_strict_flushed_upto(last_id),
            None => {},
        }
        self.sweep_flushed_keys(batch);
        marked
    }

    /// Reserves `count` coalesced ids and returns the first.
    fn reserve_write_ids(&mut self, count: u64) -> (base: WriteId)
        ensures
            base == old(self)@.next_dirty_write,
            final(self)@ == (MapView {
                next_dirty_write: wrap_add_u64(old(self)@.next_dirty_write, count as nat),
                ..old(self)@
            }),
            final(self).visible == old(self).visible,
            final(self).coalesced == old(self).coalesced,
            final(self).dirty_mode == old(self).dirty_mode,
            final(self).clean_fifo == old(self).clean_fifo,
            final(self).clean_capacity == old(self).clean_capacity,
            final(self).strict_flushed_upto == old(self).strict_flushed_upto,
    {
        let base = self.next_dirty_write;
        self.next_dirty_write = self.next_dirty_write.wrapping_add(count);
        base
    }

    /// Coalesced-mode `flush_batch`.
    fn flush_batch_coalesced(&mut self, limit: usize) -> (r: FlushBatch<K, V>)
        requires
            old(self).wf(),
        ensures
            final(self).wf(),
            (final(self)@, r@) == coalesced_flush_batch(old(self)@, limit),
    {
        if limit == 0 {
            return FlushBatch::new(Vec::new());
        }
        if let Some(batch) = self.coalesced.inflight_batch() {
            return batch;
        }
        self.coalesced.ensure_draining_snapshot();
        let ghost o1 = self.coalesced@;
        proof {
            self.coalesced.lemma_draining_keys();
        }
        let entries = self.coalesced.begin_snapshot_drain_batch(limit);
        if entries.len() == 0 {
            return FlushBatch::new(Vec::new());
        }
        let ghost drained = entries@;
        proof {
            if let Some((records, order)) = o1.draining {
                let n: nat = if limit < order.len() {
                    limit as nat
                } else {
                    order.len()
                };
                lemma_drained_keys_unique(order, records, n);
            }
        }
        let batch_entries = if self.coalesced_has_unassigned_ids {
            let unassigned = count_unassigned(&entries);
            let id_base = self.reserve_write_ids(unassigned);
            assign_unassigned_ids(entries, id_base)
        } else {
            entries
        };
        proof {
            assert forall|i: int, j: int|
                0 <= i < batch_entries@.len() && 0 <= j < batch_entries@.len() && i != j implies batch_entries@[i].key
                != batch_entries@[j].key by {
                assert(batch_entries@[i].key == drained[i].key);
                assert(batch_entries@[j].key == drained[j].key);
                assert(keys_unique(drained));
            }
        }
        let batch = FlushBatch::new_owned(batch_entries);
        self.coalesced.begin_inflight(batch.clone());
        batch
    }

    /// Hands out at most `limit` dirty records to persist; the same batch again until it is
    /// marked flushed.
    pub fn flush_batch(&mut self, limit: usize) -> (r: FlushBatch<K, V>)
        requires
            old(self).wf(),
        ensures
            final(self).wf(),
            (final(self)@, r@) == spec_flush_batch(old(self)@, limit),
    {
        match self.dirty_write_mode {
            DirtyWriteMode::StrictLog => self.dirty_mode.flush_batch(limit),
            DirtyWriteMode::CoalescedMap => self.flush_batch_coalesced(limit),
        }
    }

    /// Marks `batch` flushed when it is the batch in flight; returns how many records left.
    pub fn mark_flushed(&mut self, batch: &FlushBatch<K, V>) -> (r: usize)
        requires
            old(self).wf(),
        ensures
            final(self).wf(),
            (final(self)@, r) == spec_mark_flushed(old(self)@, batch@),
    {
        match self.dirty_write_mode {
            DirtyWriteMode::StrictLog => self.strict_mark_flushed(batch),
            DirtyWriteMode::CoalescedMap => self.coalesced.mark_flushed_if_current(batch),
        }
    }
}

impl<K: Clone + Eq + Hash, V> CacheLogMap<K, V> {
    /// A batch to persist, or a request to flush at once when nothing is pending. In strict mode
    /// an answer without work would wait for a writer or a force-flush signal, so the call asks
    /// for work to be there; `poll_flush_work` tests for it first.
    pub fn wait_flush_work(&mut self, limit: usize) -> (r: FlushWork<K, V>)
        requires
            old(self).wf(),
            has_flush_work(old(self)@, limit),
        ensures
            final(self).wf(),
            final(self)@ == spec_wait_flush_work(old(self)@, limit).0,
            match r {
                FlushWork::Batch(batch) => spec_wait_flush_work(old(self)@, limit).1 == Some(
                    batch@,
                ),
                FlushWork::ForceFlush => spec_wait_flush_work(old(self)@, limit).1 is None,
            },
    {
        match self.dirty_write_mode {
            DirtyWriteMode::StrictLog => {
                let r = self.dirty_mode.wait_for_flush_work(limit);
                proof {
                    if r is ForceFlush {
                        assert(old(self)@.pending.skip(0) =~= old(self)@.pending);
                        assert(old(self)@.pending.take(0) =~= Seq::<DirtyRecord<K, V>>::empty());
                    }
                }
                r
            },
            DirtyWriteMode::CoalescedMap => {
                let batch = self.flush_batch_coalesced(limit);
                if batch.is_empty() {
                    FlushWork::ForceFlush
                } else {
                    FlushWork::Batch(batch)
                }
            },
        }
    }

    /// The flush work `wait_flush_work(limit)` would answer, or `None` (the map unchanged) when in
    /// strict mode nothing is in flight, nothing pending can leave under `limit` and no
    /// force-flush was asked for: the caller waits for a write or a signal and asks again.
    pub fn poll_flush_work(&mut self, limit: usize) -> (r: Option<FlushWork<K, V>>)
        requires
            old(self).wf(),
        ensures
            final(self).wf(),
            r is None <==> !has_flush_work(old(self)@, limit),
            r is None ==> final(self)@ == old(self)@,
            r is Some ==> final(self)@ == spec_wait_flush_work(old(self)@, limit).0,
            match r {
                Some(FlushWork::Batch(batch)) => spec_wait_flush_work(old(self)@, limit).1 == Some(
                    batch@,
                ),
                Some(FlushWork::ForceFlush) => spec_wait_flush_work(old(self)@, limit).1 is None,
                None => true,
            },
    {
        if self.dirty_write_mode == DirtyWriteMode::StrictLog && !self.dirty_mode.flush_work_ready(
            limit,
        ) {
            return None;
        }
        Some(self.wait_flush_work(limit))
    }

    /// Asks the flusher to flush at once (strict mode; nothing to do in coalesced mode).
    pub fn signal_force_flush(&mut self)
        requires
            old(self).wf(),
        ensures
            final(self).wf(),
            final(self)@ == (if old(self)@.mode == DirtyWriteMode::StrictLog {
                MapView { force_flush: true, ..old(self)@ }
            } else {
                old(self)@
            }),
    {
        if self.dirty_write_mode == DirtyWriteMode::StrictLog {
            self.dirty_mode.signal_force_flush();
        }
    }

    /// Number of keys the map shows: visible entries (strict mode), or clean entries counted by
    /// the clean counter plus the keys of the overlay (coalesced mode).
    pub fn visible_len(&self) -> (r: usize)
        requires
            self.wf(),
            self@.mode == DirtyWriteMode::CoalescedMap ==> self@.clean_count + overlay_keys(
                self@.overlay,
            ).len() <= usize::MAX,
        ensures
            r == (match self@.mode {
                DirtyWriteMode::StrictLog => self@.visible.len() as int,
                DirtyWriteMode::CoalescedMap => self@.clean_count + overlay_keys(self@.overlay).len(),
            }),
    {
        match self.dirty_write_mode {
            DirtyWriteMode::StrictLog => {
                assert(self@.visible.dom() =~= self.visible@.dom());
                self.visible.len()
            },
            DirtyWriteMode::CoalescedMap => self.clean_count + self.coalesced.visible_key_count(),
        }
    }

    /// The number of dirty records not yet marked flushed, or `None` when it does not fit in a
    /// `usize` (the bound that `dirty_log_len` and `flush_now` ask for).
    pub fn checked_dirty_len(&self) -> (r: Option<usize>)
        requires
            self.wf(),
        ensures
            r == (if dirty_total(self@) <= usize::MAX {
                Some(dirty_total(self@) as usize)
            } else {
                None
            }),
    {
        match self.dirty_write_mode {
            DirtyWriteMode::StrictLog => Some(self.dirty_mode.len()),
            DirtyWriteMode::CoalescedMap => self.coalesced.checked_dirty_len(),
        }
    }

    /// Number of dirty records not yet marked flushed.
    pub fn dirty_log_len(&self) -> (r: usize)
        requires
            self.wf(),
            dirty_total(self@) <= usize::MAX,
        ensures
            r == dirty_total(self@),
    {
        match self.dirty_write_mode {
            DirtyWriteMode::StrictLog => self.dirty_mode.len(),
            DirtyWriteMode::CoalescedMap => self.coalesced.dirty_len(),
        }
    }

    /// How many dirty records wait in each stage.
    pub fn dirty_backlog_counts(&self) -> (r: DirtyBacklogCounts)
        requires
            self.wf(),
            dirty_total(self@) <= usize::MAX,
        ensures
            r.dirty_total == dirty_total(self@),
            self@.mode == DirtyWriteMode::StrictLog ==> r.pending_visible == self@.pending.len()
                && r.inflight == log_inflight_len(self@) && r.draining == 0,
            self@.mode == DirtyWriteMode::CoalescedMap ==> r.pending_visible
                == self@.overlay.active.len() && r.inflight == inflight_len(self@.overlay)
                && r.draining == draining_len(self@.overlay),
    {
        match self.dirty_write_mode {
            DirtyWriteMode::StrictLog => DirtyBacklogCounts {
                dirty_total: self.dirty_mode.len(),
                pending_visible: self.dirty_mode.pending_len(),
                inflight: self.dirty_mode.inflight_len(),
                draining: 0,
            },
            DirtyWriteMode::CoalescedMap => self.coalesced.backlog_counts(),
        }
    }
}

impl<K: Clone + Eq + Hash, V> CacheLogMap<K, V> {
    /// Logs and publishes a batch (strict mode).
    fn strict_insert_dirty_batch(&mut self, entries: Vec<(K, V)>) -> (ids: Vec<WriteId>)
        requires
            old(self).wf(),
            old(self)@.mode == DirtyWriteMode::StrictLog,
            log_has_room(old(self)@, entries@.len()),
        ensures
            final(self).wf(),
            (final(self)@, ids@) == spec_insert_dirty_batch(old(self)@, entries@),
    {
        let ghost v0 = self@;
        let ghost e0 = entries@;
        if entries.len() == 0 {
            proof {
                assert(numbered(e0, v0.next_write) =~= Seq::<DirtyRecord<K, V>>::empty());
                assert(v0.pending + numbered(e0, v0.next_write) =~= v0.pending);
                assert(ids_of(numbered(e0, v0.next_write)) =~= Seq::<WriteId>::empty());
            }
            return Vec::new();
        }
        let records = self.dirty_mode.append_batch(entries);
        let ghost v1 = self@;
        let ghost recs = unshare(records@);
        let mut ids: Vec<WriteId> = Vec::new();
        let mut i: usize = 0;
        while i < records.len()
            invariant
                self.wf(),
                i <= records@.len(),
                recs == unshare(records@),
                recs == numbered(e0, v0.next_write),
                v0.flushed_upto == u64::MAX || v0.flushed_upto < v0.next_write,
                v0.next_write + e0.len() <= u64::MAX,
                recs.len() == e0.len(),
                ids@ == ids_of(recs.take(i as int)),
                (self@.visible, self@.clean_count) == publish_dirty_all(
                    v0.visible,
                    v0.clean_count,
                    recs.take(i as int),
                ),
                self@ == (MapView {
                    visible: self@.visible,
                    clean_count: self@.clean_count,
                    ..v1
                }),
                v1 == (MapView {
                    pending: v0.pending + recs,
                    next_write: (v0.next_write + e0.len()) as u64,
                    ..v0
                }),
            decreases records@.len() - i,
        {
            let record = share(&records[i]);
            proof {
                assert(*record == recs[i as int]);
                assert(record.id == v0.next_write + i);
                assert(recs.take(i + 1).drop_last() =~= recs.take(i as int));
                assert(ids_of(recs.take(i + 1)) =~= ids_of(recs.take(i as int)).push(record.id));
            }
            ids.push(record.id);
            self.publish_dirty_record(record);
            i += 1;
        }
        proof {
            assert(recs.take(recs.len() as int) =~= recs);
        }
        ids
    }

    /// Coalesced writes of `entries` in order under consecutive fresh ids.
    fn publish_coalesced_batch(&mut self, entries: Vec<(K, V)>) -> (ids: Vec<WriteId>)
        requires
            old(self).wf(),
        ensures
            final(self).wf(),
            entries@.len() == 0 ==> final(self)@ == old(self)@ && ids@.len() == 0,
            entries@.len() > 0 ==> {
                let base = old(self)@.next_dirty_write;
                &&& final(self)@ == publish_coalesced_all(
                    MapView {
                        next_dirty_write: wrap_add_u64(base, entries@.len()),
                        ..old(self)@
                    },
                    entries@,
                    base,
                )
                &&& ids@ == Seq::new(entries@.len(), |i: int| wrap_add_u64(base, i as nat))
            },
    {
        let len = entries.len();
        if len == 0 {
            return Vec::new();
        }
        let ghost e0 = entries@;
        let id_base = self.reserve_write_ids(len as u64);
        let ghost v1 = self@;
        let mut pending = reversed(entries);
        let mut ids: Vec<WriteId> = Vec::new();
        let mut offset: usize = 0;
        while pending.len() > 0
            invariant
                self.wf(),
                offset + pending@.len() == e0.len(),
                e0.len() == len,
                forall|j: int| 0 <= j < pending@.len() ==> pending@[j] == e0[e0.len() - 1 - j],
                self@ == publish_coalesced_all(v1, e0.take(offset as int), id_base),
                ids@ == Seq::new(offset as nat, |i: int| wrap_add_u64(id_base, i as nat)),
            decreases pending@.len(),
        {
            let (key, value) = pending.pop().unwrap();
            let id = id_base.wrapping_add(offset as u64);
            proof {
                assert(e0.take(offset + 1).drop_last() =~= e0.take(offset as int));
                assert((key, value) == e0[offset as int]);
                assert(id == wrap_add_u64(id_base, offset as nat));
            }
            let _ = self.publish_coalesced_active(key, id, value);
            ids.push(id);
            proof {
                assert(ids@ =~= Seq::new((offset + 1) as nat, |i: int| wrap_add_u64(id_base, i as nat)));
            }
            offset += 1;
        }
        proof {
            assert(e0.take(e0.len() as int) =~= e0);
        }
        ids
    }

    /// Publishes a batch in coalesced mode: one write per key, its last value at its first
    /// position, under consecutive fresh ids.
    fn insert_dirty_batch_coalesced(&mut self, entries: Vec<(K, V)>) -> (ids: Vec<WriteId>)
        requires
            old(self).wf(),
            old(self)@.mode == DirtyWriteMode::CoalescedMap,
        ensures
            final(self).wf(),
            (final(self)@, ids@) == spec_insert_dirty_batch(old(self)@, entries@),
    {
        if entries.len() == 0 {
            return Vec::new();
        }
        let ghost e0 = entries@;
        let compacted = if keys_distinct(&entries) {
            proof {
                lemma_compact_distinct(e0);
            }
            entries
        } else {
            compact_last_write_wins(entries)
        };
        proof {
            lemma_compact_nonempty(e0);
        }
        self.publish_coalesced_batch(compacted)
    }

    /// Writes a batch and returns the ids it used.
    pub fn insert_dirty_batch(&mut self, entries: Vec<(K, V)>) -> (ids: Vec<WriteId>)
        requires
            old(self).wf(),
            old(self)@.mode == DirtyWriteMode::StrictLog ==> log_has_room(old(self)@, entries@.len()),
        ensures
            final(self).wf(),
            (final(self)@, ids@) == spec_insert_dirty_batch(old(self)@, entries@),
    {
        match self.dirty_write_mode {
            DirtyWriteMode::StrictLog => self.strict_insert_dirty_batch(entries),
            DirtyWriteMode::CoalescedMap => self.insert_dirty_batch_coalesced(entries),
        }
    }

    /// Writes a batch and returns how many writes it made.
    pub fn insert_dirty_batch_without_ids(&mut self, entries: Vec<(K, V)>) -> (written: usize)
        requires
            old(self).wf(),
            old(self)@.mode == DirtyWriteMode::StrictLog ==> log_has_room(old(self)@, entries@.len()),
        ensures
            final(self).wf(),
            final(self)@ == spec_insert_dirty_batch(old(self)@, entries@).0,
            written == spec_insert_dirty_batch(old(self)@, entries@).1.len(),
    {
        let ids = self.insert_dirty_batch(entries);
        ids.len()
    }

    /// The same as [`CacheLogMap::insert_dirty_batch_without_ids`].
    pub fn put_batch(&mut self, entries: Vec<(K, V)>) -> (written: usize)
        requires
            old(self).wf(),
            old(self)@.mode == DirtyWriteMode::StrictLog ==> log_has_room(old(self)@, entries@.len()),
        ensures
            final(self).wf(),
            final(self)@ == spec_insert_dirty_batch(old(self)@, entries@).0,
            written == spec_insert_dirty_batch(old(self)@, entries@).1.len(),
    {
        self.insert_dirty_batch_without_ids(entries)
    }
}

impl<K: Clone + Eq + Hash, V> CacheLogMap<K, V> {
    /// The visible index's view has the keys of the underlying table.
    proof fn lemma_visible_dom(&self)
        ensures
            self@.visible.dom() == self.visible@.dom(),
            forall|k: K| #[trigger]
                self.visible@.contains_key(k) ==> self@.visible[k] == spec::entry_of(self.visible@[k]),
    {
        assert(self@.visible.dom() =~= self.visible@.dom());
    }

    /// The state of a well-formed map is consistent.
    pub proof fn lemma_consistent(&self)
        requires
            self.wf(),
        ensures
            view_consistent(self@),
    {
        self.coalesced.lemma_consistent();
    }

    /// Hands out one batch of at most `limit` (at least one) records to `persist`, and marks it
    /// flushed when `persist` succeeds; returns how many records were marked.
    pub fn with_flush_batch<E, F: FnOnce(&PersistBatch<K, V>) -> Result<(), E>>(
        &mut self,
        limit: usize,
        persist: F,
    ) -> (r: Result<usize, E>)
        requires
            old(self).wf(),
            forall|b: &PersistBatch<K, V>| persist.requires((b,)),
        ensures
            final(self).wf(),
            ({
                let (v1, batch) = flush_batch_spec(old(self)@, flush_limit(limit));
                &&& batch.len() == 0 ==> r == Ok::<usize, E>(0) && final(self)@ == v1
                &&& batch.len() > 0 ==> match r {
                    Ok(n) => (final(self)@, n) == spec_mark_flushed(v1, batch) && exists|
                        b: PersistBatch<K, V>,
                    | b@ == batch && persist.ensures((&b,), Ok::<(), E>(())),
                    Err(e) => final(self)@ == v1 && exists|b: PersistBatch<K, V>|
                        b@ == batch && persist.ensures((&b,), Err::<(), E>(e)),
                }
            }),
    {
        let l = if limit > 1 {
            limit
        } else {
            1
        };
        let batch = self.flush_batch(l);
        if batch.is_empty() {
            return Ok(0);
        }
        let persist_batch = PersistBatch::from_flush_batch(batch.clone());
        let outcome = persist(&persist_batch);
        match outcome {
            Ok(unit) => {
                assert(unit == ());
                assert(outcome == Ok::<(), E>(()));
                assert(persist.ensures((&persist_batch,), Ok::<(), E>(())));
            },
            Err(e) => {
                assert(persist.ensures((&persist_batch,), Err::<(), E>(e)));
                return Err(e);
            },
        }
        Ok(self.mark_flushed(&batch))
    }

    /// Flushes batch after batch of at most `limit` (at least one) records through `persist`
    /// until nothing is left; returns how many records were marked flushed, or the first error
    /// `persist` returned, with its batch still in flight.
    pub fn flush_now<E, F: Fn(&PersistBatch<K, V>) -> Result<(), E>>(
        &mut self,
        limit: usize,
        persist: F,
    ) -> (r: Result<usize, E>)
        requires
            old(self).wf(),
            dirty_total(old(self)@) <= usize::MAX,
            forall|b: &PersistBatch<K, V>| persist.requires((b,)),
        ensures
            final(self).wf(),
            match r {
                Ok(total) => dirty_total(final(self)@) == 0 && exists|k: nat|
                    #![trigger flush_rounds(old(self)@, flush_limit(limit), k)]
                    {
                        &&& flush_batch_spec(flush_rounds(old(self)@, flush_limit(limit), k), flush_limit(limit)).1.len() == 0
                        &&& final(self)@ == flush_batch_spec(
                            flush_rounds(old(self)@, flush_limit(limit), k),
                            flush_limit(limit),
                        ).0
                        &&& total + dirty_total(flush_rounds(old(self)@, flush_limit(limit), k))
                            == dirty_total(old(self)@)
                    },
                Err(e) => exists|k: nat|
                    #![trigger flush_rounds(old(self)@, flush_limit(limit), k)]
                    {
                        let (v1, batch) = flush_batch_spec(
                            flush_rounds(old(self)@, flush_limit(limit), k),
                            flush_limit(limit),
                        );
                        &&& batch.len() > 0
                        &&& final(self)@ == v1
                        &&& exists|b: PersistBatch<K, V>|
                            b@ == batch && persist.ensures((&b,), Err::<(), E>(e))
                    },
            },
    {
        let l = if limit > 1 {
            limit
        } else {
            1
        };
        let mut total: usize = 0;
        let ghost mut rounds: nat = 0;
        loop
            invariant
                self.wf(),
                l == flush_limit(limit),
                forall|b: &PersistBatch<K, V>| persist.requires((b,)),
                self@ == flush_rounds(old(self)@, l, rounds),
                total + dirty_total(self@) == dirty_total(old(self)@),
                dirty_total(old(self)@) <= usize::MAX,
            decreases dirty_total(self@),
        {
            proof {
                self.lemma_consistent();
            }
            let ghost before = self@;
            let batch = self.flush_batch(l);
            if batch.is_empty() {
                proof {
                    spec::lemma_empty_flush_leaves_nothing(before, l);
                }
                return Ok(total);
            }
            proof {
                lemma_flush_round_progress(before, l);
            }
            let persist_batch = PersistBatch::from_flush_batch(batch.clone());
            match persist(&persist_batch) {
                Ok(()) => {},
                Err(e) => {
                    return Err(e);
                },
            }
            let marked = self.mark_flushed(&batch);
            total = total + marked;
            proof {
                rounds = rounds + 1;
            }
        }
    }

    /// Flushes everything through `persist`, then runs `scan`.
    pub fn with_persisted_scan<R, E, F: Fn(&PersistBatch<K, V>) -> Result<(), E>, S: FnOnce(&Self) -> Result<R, E>>(
        &mut self,
        flush_limit: usize,
        persist: F,
        scan: S,
    ) -> (r: Result<R, E>)
        requires
            old(self).wf(),
            dirty_total(old(self)@) <= usize::MAX,
            forall|b: &PersistBatch<K, V>| persist.requires((b,)),
            forall|m: &Self| scan.requires((m,)),
        ensures
            final(self).wf(),
            ({
                let l = spec::flush_limit(flush_limit);
                ||| {
                    &&& exists|k: nat|
                        #![trigger flush_rounds(old(self)@, l, k)]
                        {
                            &&& spec_flush_batch(flush_rounds(old(self)@, l, k), l).1.len() == 0
                            &&& final(self)@ == spec_flush_batch(flush_rounds(old(self)@, l, k), l).0
                        }
                    &&& dirty_total(final(self)@) == 0
                    &&& scan.ensures((&*final(self),), r)
                }
                ||| r matches Err(e) && exists|k: nat|
                    #![trigger flush_rounds(old(self)@, l, k)]
                    {
                        let (v1, batch) = spec_flush_batch(flush_rounds(old(self)@, l, k), l);
                        &&& batch.len() > 0
                        &&& final(self)@ == v1
                        &&& exists|b: PersistBatch<K, V>|
                            b@ == batch && persist.ensures((&b,), Err::<(), E>(e))
                    }
            }),
    {
        match self.flush_now(flush_limit, persist) {
            Ok(_) => {},
            Err(e) => return Err(e),
        }
        scan(&*self)
    }
}

/// `v` in reverse order.
fn reversed<T>(v: Vec<T>) -> (r: Vec<T>)
    ensures
        r@.len() == v@.len(),
        forall|j: int| 0 <= j < r@.len() ==> r@[j] == v@[v@.len() - 1 - j],
{
    let ghost v0 = v@;
    let mut v = v;
    let mut r: Vec<T> = Vec::new();
    while v.len() > 0
        invariant
            v@ == v0.take(v@.len() as int),
            r@.len() + v@.len() == v0.len(),
            forall|j: int| 0 <= j < r@.len() ==> r@[j] == v0[v0.len() - 1 - j],
        decreases v@.len(),
    {
        let x = v.pop().unwrap();
        r.push(x);
        proof {
            assert(v@ =~= v0.take(v@.len() as int));
        }
    }
    r
}

/// The keys of a sequence of entries.
pub open spec fn entry_keys<K, V>(entries: Seq<(K, V)>) -> Seq<K> {
    entries.map_values(|e: (K, V)| e.0)
}

/// Whether no key occurs twice in `entries`.
fn keys_distinct<K: Clone + Eq + Hash, V>(entries: &Vec<(K, V)>) -> (r: bool)
    requires
        key_model::<K>(),
    ensures
        r == entry_keys(entries@).no_duplicates(),
{
    let mut seen: HashSet<K> = HashSet::new();
    let mut i: usize = 0;
    while i < entries.len()
        invariant
            key_model::<K>(),
            i <= entries@.len(),
            seen@ == entry_keys(entries@).take(i as int).to_set(),
            entry_keys(entries@).take(i as int).no_duplicates(),
        decreases entries@.len() - i,
    {
        let key = copy_key(&entries[i].0);
        let ghost keys = entry_keys(entries@);
        proof {
            assert(keys.take(i + 1) =~= keys.take(i as int).push(key));
            keys.take(i as int).lemma_push_to_set_commute(key);
        }
        if !seen.insert(key) {
            proof {
                let j = choose|j: int| 0 <= j < i && keys.take(i as int)[j] == key;
                assert(keys[j] == keys[i as int]);
                assert(!keys.no_duplicates());
            }
            return false;
        }
        i += 1;
    }
    proof {
        assert(entry_keys(entries@).take(entries@.len() as int) =~= entry_keys(entries@));
    }
    true
}

/// Reduces `entries` to one entry per key: its last value, at its first position.
fn compact_last_write_wins<K: Clone + Eq + Hash, V>(entries: Vec<(K, V)>) -> (r: Vec<(K, V)>)
    requires
        key_model::<K>(),
    ensures
        r@ == compact_latest(entries@),
{
    let ghost e0 = entries@;
    let total = entries.len();
    let mut pending = reversed(entries);
    let mut compacted: Vec<(K, V)> = Vec::new();
    let mut latest_slot: HashMap<K, usize> = HashMap::new();
    let mut done: usize = 0;
    while pending.len() > 0
        invariant
            key_model::<K>(),
            e0.len() == total,
            done + pending@.len() == e0.len(),
            forall|j: int| 0 <= j < pending@.len() ==> pending@[j] == e0[e0.len() - 1 - j],
            compacted@ == compact_latest(e0.take(done as int)),
            compacted@.len() <= done,
            forall|i: int, j: int|
                0 <= i < compacted@.len() && 0 <= j < compacted@.len() && i != j
                    ==> compacted@[i].0 != compacted@[j].0,
            forall|i: int|
                0 <= i < compacted@.len() ==> #[trigger] latest_slot@.contains_key(compacted@[i].0)
                    && latest_slot@[compacted@[i].0] == i,
            forall|k: K| #[trigger]
                latest_slot@.contains_key(k) ==> latest_slot@[k] < compacted@.len()
                    && compacted@[latest_slot@[k] as int].0 == k,
        decreases pending@.len(),
    {
        let (key, value) = pending.pop().unwrap();
        let ghost prev = compacted@;
        proof {
            assert((key, value) == e0[done as int]);
            assert(e0.take(done + 1).drop_last() =~= e0.take(done as int));
            assert(e0.take(done + 1).last() == (key, value));
        }
        match latest_slot.get(&key) {
            Some(slot) => {
                let slot = *slot;
                proof {
                    assert(prev[slot as int].0 == key);
                    let c = choose|i: int| 0 <= i < prev.len() && prev[i].0 == key;
                    assert(c == slot);
                }
                compacted.set(slot, (key, value));
            },
            None => {
                proof {
                    assert(!(exists|i: int| 0 <= i < prev.len() && prev[i].0 == key)) by {
                        if exists|i: int| 0 <= i < prev.len() && prev[i].0 == key {
                            let i = choose|i: int| 0 <= i < prev.len() && prev[i].0 == key;
                            assert(latest_slot@.contains_key(prev[i].0));
                        }
                    }
                }
                let slot = compacted.len();
                latest_slot.insert(copy_key(&key), slot);
                compacted.push((key, value));
            },
        }
        done += 1;
    }
    proof {
        assert(e0.take(e0.len() as int) =~= e0);
    }
    compacted
}

/// Compacting entries whose keys are distinct keeps them as they are.
proof fn lemma_compact_distinct<K, V>(entries: Seq<(K, V)>)
    requires
        entry_keys(entries).no_duplicates(),
    ensures
        compact_latest(entries) == entries,
    decreases entries.len(),
{
    if entries.len() > 0 {
        let prev = entries.drop_last();
        assert(entry_keys(prev) =~= entry_keys(entries).drop_last());
        lemma_compact_distinct(prev);
        let last = entries.last();
        assert(!(exists|i: int| 0 <= i < prev.len() && prev[i].0 == last.0)) by {
            if exists|i: int| 0 <= i < prev.len() && prev[i].0 == last.0 {
                let i = choose|i: int| 0 <= i < prev.len() && prev[i].0 == last.0;
                assert(entry_keys(entries)[i] == entry_keys(entries)[entries.len() - 1]);
            }
        }
        assert(prev.push(last) =~= entries);
    }
}

/// Compacting a non-empty batch leaves a non-empty batch.
proof fn lemma_compact_nonempty<K, V>(entries: Seq<(K, V)>)
    requires
        entries.len() > 0,
    ensures
        compact_latest(entries).len() > 0,
    decreases entries.len(),
{
    if entries.len() > 1 {
        lemma_compact_nonempty(entries.drop_last());
    }
}

/// A drain of distinct keys takes distinct keys.
proof fn lemma_drained_keys_unique<K, V>(
    order: Seq<K>,
    records: Map<K, types::CoalescedRecord<V>>,
    n: nat,
)
    requires
        order.no_duplicates(),
        n <= order.len(),
    ensures
        keys_unique(drained_records(order, records, n)),
{
    let d = drained_records(order, records, n);
    assert forall|i: int, j: int| 0 <= i < d.len() && 0 <= j < d.len() && i != j implies d[i].key
        != d[j].key by {
        assert(d[i].key == order[order.len() - 1 - i]);
        assert(d[j].key == order[order.len() - 1 - j]);
    }
}

/// Number of records of `entries` waiting for an id.
fn count_unassigned<K, V>(entries: &Vec<DirtyRecord<K, V>>) -> (r: u64)
    ensures
        r == unassigned_count(entries@),
        r <= entries@.len(),
{
    let mut count: u64 = 0;
    let mut i: usize = 0;
    while i < entries.len()
        invariant
            i <= entries@.len(),
            count == unassigned_count(entries@.take(i as int)),
            count <= i,
        decreases entries@.len() - i,
    {
        proof {
            assert(entries@.take(i + 1).drop_last() =~= entries@.take(i as int));
        }
        if entries[i].id == COALESCED_UNASSIGNED_WRITE_ID {
            count = count + 1;
        }
        i += 1;
    }
    proof {
        assert(entries@.take(entries@.len() as int) =~= entries@);
    }
    count
}

/// `entries` with the records waiting for an id numbered from `base` on.
fn assign_unassigned_ids<K, V>(entries: Vec<DirtyRecord<K, V>>, base: WriteId) -> (r: Vec<
    DirtyRecord<K, V>,
>)
    ensures
        r@ == assign_ids(entries@, base),
{
    let ghost e0 = entries@;
    let total = entries.len();
    assert(e0.len() == total);
    let mut entries = entries;
    let mut reversed: Vec<DirtyRecord<K, V>> = Vec::new();
    while entries.len() > 0
        invariant
            e0.len() <= usize::MAX,
            entries@ == e0.take(entries@.len() as int),
            reversed@.len() + entries@.len() == e0.len(),
            forall|j: int| 0 <= j < reversed@.len() ==> reversed@[j] == e0[e0.len() - 1 - j],
        decreases entries@.len(),
    {
        let record = entries.pop().unwrap();
        reversed.push(record);
        proof {
            assert(entries@ =~= e0.take(entries@.len() as int));
        }
    }
    let mut out: Vec<DirtyRecord<K, V>> = Vec::new();
    let mut offset: u64 = 0;
    while reversed.len() > 0
        invariant
            out@.len() + reversed@.len() == e0.len(),
            forall|j: int| 0 <= j < reversed@.len() ==> reversed@[j] == e0[e0.len() - 1 - j],
            out@ == assign_ids(e0, base).take(out@.len() as int),
            offset == unassigned_count(e0.take(out@.len() as int)),
            offset <= out@.len(),
            e0.len() <= usize::MAX,
        decreases reversed@.len(),
    {
        let record = reversed.pop().unwrap();
        let ghost i = out@.len() as int;
        proof {
            assert(record == e0[i]);
            assert(e0.take(i + 1).drop_last() =~= e0.take(i));
        }
        if record.id == COALESCED_UNASSIGNED_WRITE_ID {
            let id = base.wrapping_add(offset);
            out.push(DirtyRecord { id, key: record.key, value: record.value });
            offset = offset + 1;
        } else {
            out.push(record);
        }
        proof {
            assert(out@ =~= assign_ids(e0, base).take(out@.len() as int));
        }
    }
    proof {
        assert(assign_ids(e0, base).take(e0.len() as int) =~= assign_ids(e0, base));
    }
    out
}

} // verus!
