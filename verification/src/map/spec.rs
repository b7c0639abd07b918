//! The mathematical model of the cache log map: its state, what a read shows, and what each
//! operation does to the state.
use vstd::prelude::*;

use super::coalesced::{
    draining_len, draining_record, drained_records, inflight_record, keyed_record, overlay_ref,
    OverlayView,
};
use crate::dirty_log::{ids_of, numbered, same_tail};
use super::types::{CacheLogConfig, CoalescedRecord, DirtyWriteMode, VisibleValue};
use crate::entry::{CacheId, CleanRecord, DirtyRecord, EntryState, VisibleRef, WriteId};

verus! {

/// What a visible entry holds.
pub enum VisibleEntry<K, V> {
    Dirty(DirtyRecord<K, V>),
    Clean(CleanRecord<K, V>),
}

/// The state of a map.
#[verifier::reject_recursive_types(K)]
pub struct MapView<K, V> {
    /// The write mode chosen at construction.
    pub mode: DirtyWriteMode,
    /// The visible index: dirty entries (strict mode) and clean entries, by key.
    pub visible: Map<K, VisibleEntry<K, V>>,
    /// The coalesced overlay (coalesced mode).
    pub overlay: OverlayView<K, V>,
    /// Logged writes waiting for a flush, oldest first (strict mode).
    pub pending: Seq<DirtyRecord<K, V>>,
    /// The logged batch handed to the flusher and not yet marked flushed (strict mode).
    pub inflight: Option<Seq<DirtyRecord<K, V>>>,
    /// The id of the next logged write (strict mode).
    pub next_write: u64,
    /// Whether a flush was asked for (strict mode).
    pub force_flush: bool,
    /// Clean entries in installation order, as key and id.
    pub clean_fifo: Seq<(K, CacheId)>,
    /// How many clean entries the queue holds before it evicts the oldest.
    pub clean_capacity: nat,
    /// The clean-entry counter.
    pub clean_count: usize,
    /// The id of the next clean entry.
    pub next_cache: CacheId,
    /// The id of the next coalesced write.
    pub next_dirty_write: WriteId,
    /// Whether a coalesced write was published without an id.
    pub has_unassigned: bool,
    /// The last id of the logged writes marked flushed (`u64::MAX` before any).
    pub flushed_upto: WriteId,
}

/// The state of a new map made with `config`: nothing visible, nothing dirty, no ids handed out.
pub open spec fn initial_view<K, V>(config: CacheLogConfig) -> MapView<K, V> {
    MapView {
        mode: config.dirty_write_mode,
        visible: Map::empty(),
        overlay: OverlayView {
            active: Map::empty(),
            active_order: Seq::empty(),
            draining: None,
            inflight: None,
        },
        pending: Seq::empty(),
        inflight: None,
        next_write: 0,
        force_flush: false,
        clean_fifo: Seq::empty(),
        clean_capacity: if config.clean_capacity > 1 {
            config.clean_capacity as nat
        } else {
            1
        },
        clean_count: 0,
        next_cache: 0,
        next_dirty_write: 0,
        has_unassigned: false,
        flushed_upto: u64::MAX,
    }
}

pub open spec fn entry_of<K, V>(v: VisibleValue<K, V>) -> VisibleEntry<K, V> {
    match v {
        VisibleValue::Dirty(record) => VisibleEntry::Dirty(*record),
        VisibleValue::Clean(record) => VisibleEntry::Clean(*record),
    }
}

pub open spec fn visible_view<K, V>(m: Map<K, VisibleValue<K, V>>) -> Map<K, VisibleEntry<K, V>> {
    m.map_values(|v: VisibleValue<K, V>| entry_of(v))
}

pub open spec fn entry_ref<K, V>(e: VisibleEntry<K, V>) -> VisibleRef {
    match e {
        VisibleEntry::Dirty(record) => VisibleRef::Dirty(record.id),
        VisibleEntry::Clean(record) => VisibleRef::Clean(record.id),
    }
}

pub open spec fn entry_parts<K, V>(e: VisibleEntry<K, V>) -> (K, V, EntryState, VisibleRef) {
    match e {
        VisibleEntry::Dirty(r) => (r.key, r.value, EntryState::Dirty, VisibleRef::Dirty(r.id)),
        VisibleEntry::Clean(r) => (r.key, r.value, EntryState::Clean, VisibleRef::Clean(r.id)),
    }
}

/// Whether `e` is the clean entry with id `id`.
pub open spec fn clean_entry_with_id<K, V>(e: VisibleEntry<K, V>, id: CacheId) -> bool {
    e matches VisibleEntry::Clean(record) && record.id == id
}

pub open spec fn wrap_inc(x: usize) -> usize {
    if x == usize::MAX {
        0
    } else {
        (x + 1) as usize
    }
}

pub open spec fn wrap_dec(x: usize) -> usize {
    if x == 0 {
        usize::MAX
    } else {
        (x - 1) as usize
    }
}

pub open spec fn wrap_inc_u64(x: u64) -> u64 {
    if x == u64::MAX {
        0
    } else {
        (x + 1) as u64
    }
}

/// `x + n` modulo 2^64.
pub open spec fn wrap_add_u64(x: u64, n: nat) -> u64 {
    ((x + n) % 0x1_0000_0000_0000_0000) as u64
}

/// The visible index's entry for `key`, as key, value, state and ref.
pub open spec fn visible_lookup<K, V>(visible: Map<K, VisibleEntry<K, V>>, key: K) -> Option<
    (K, V, EntryState, VisibleRef),
> {
    if visible.contains_key(key) {
        Some(entry_parts(visible[key]))
    } else {
        None
    }
}

/// What a read of `key` shows. In coalesced mode the overlay's active table comes first, then
/// the batch in flight, then the draining snapshot, then the visible index.
pub open spec fn spec_read_full<K, V>(v: MapView<K, V>, key: K) -> Option<
    (K, V, EntryState, VisibleRef),
> {
    match v.mode {
        DirtyWriteMode::StrictLog => visible_lookup(v.visible, key),
        DirtyWriteMode::CoalescedMap => {
            if v.overlay.active.contains_key(key) {
                let r = v.overlay.active[key];
                Some((key, r.value, EntryState::Dirty, VisibleRef::Dirty(r.id)))
            } else if inflight_record(v.overlay, key) is Some {
                let r = inflight_record(v.overlay, key)->0;
                Some((r.key, r.value, EntryState::Dirty, VisibleRef::Dirty(r.id)))
            } else if draining_record(v.overlay, key) is Some {
                let r = draining_record(v.overlay, key)->0;
                Some((key, r.value, EntryState::Dirty, VisibleRef::Dirty(r.id)))
            } else {
                visible_lookup(v.visible, key)
            }
        },
    }
}

/// The id-bearing ref the map shows for `key`.
pub open spec fn spec_visible_ref<K, V>(v: MapView<K, V>, key: K) -> Option<VisibleRef> {
    if v.mode == DirtyWriteMode::CoalescedMap && overlay_ref(v.overlay, key) is Some {
        overlay_ref(v.overlay, key)
    } else if v.visible.contains_key(key) {
        Some(entry_ref(v.visible[key]))
    } else {
        None
    }
}

/// Publishing a logged write: it replaces whatever `key` showed; replacing a clean entry
/// decrements the clean counter.
pub open spec fn publish_dirty<K, V>(
    visible: Map<K, VisibleEntry<K, V>>,
    count: usize,
    record: DirtyRecord<K, V>,
) -> (Map<K, VisibleEntry<K, V>>, usize) {
    (
        visible.insert(record.key, VisibleEntry::Dirty(record)),
        if visible.contains_key(record.key) && visible[record.key] is Clean {
            wrap_dec(count)
        } else {
            count
        },
    )
}

/// Publishing logged writes in order.
pub open spec fn publish_dirty_all<K, V>(
    visible: Map<K, VisibleEntry<K, V>>,
    count: usize,
    records: Seq<DirtyRecord<K, V>>,
) -> (Map<K, VisibleEntry<K, V>>, usize)
    decreases records.len(),
{
    if records.len() == 0 {
        (visible, count)
    } else {
        let (v, c) = publish_dirty_all(visible, count, records.drop_last());
        publish_dirty(v, c, records.last())
    }
}

/// Before a coalesced write, a clean entry of its key leaves the visible index (unless the clean
/// counter reads zero).
pub open spec fn remove_clean_if_present<K, V>(
    visible: Map<K, VisibleEntry<K, V>>,
    count: usize,
    key: K,
) -> (Map<K, VisibleEntry<K, V>>, usize) {
    if count != 0 && visible.contains_key(key) && visible[key] is Clean {
        (visible.remove(key), wrap_dec(count))
    } else {
        (visible, count)
    }
}

/// Queues a new clean entry; when the queue is full its oldest entry leaves first, taking its
/// clean entry out of the visible index if that entry is still the one it names.
pub open spec fn enqueue_clean_spec<K, V>(
    visible: Map<K, VisibleEntry<K, V>>,
    count: usize,
    fifo: Seq<(K, CacheId)>,
    capacity: nat,
    key: K,
    id: CacheId,
) -> (Map<K, VisibleEntry<K, V>>, usize, Seq<(K, CacheId)>) {
    if fifo.len() >= capacity && fifo.len() > 0 {
        let (old_key, old_id) = fifo[0];
        let evicted = visible.contains_key(old_key) && clean_entry_with_id(visible[old_key], old_id);
        (
            if evicted {
                visible.remove(old_key)
            } else {
                visible
            },
            if evicted {
                wrap_dec(count)
            } else {
                count
            },
            fifo.drop_first().push((key, id)),
        )
    } else {
        (visible, count, fifo.push((key, id)))
    }
}

/// Removing the entry of `key` when it still shows `expected`. In coalesced mode a dirty ref
/// that the overlay still shows counts as current and nothing is removed.
pub open spec fn spec_cleanup_matching<K, V>(v: MapView<K, V>, key: K, expected: VisibleRef) -> (
    MapView<K, V>,
    bool,
) {
    if v.mode == DirtyWriteMode::CoalescedMap && expected is Dirty && overlay_ref(v.overlay, key)
        == Some(expected) {
        (v, true)
    } else if v.visible.contains_key(key) && entry_ref(v.visible[key]) == expected {
        (MapView { visible: v.visible.remove(key), ..v }, true)
    } else {
        (v, false)
    }
}

/// Whether a strict flush marked up to `upto` retires the visible entry `e` of a flushed key.
pub open spec fn retired_by_flush<K, V>(e: VisibleEntry<K, V>, upto: WriteId) -> bool {
    match e {
        VisibleEntry::Dirty(record) => record.id <= upto,
        VisibleEntry::Clean(_) => true,
    }
}

/// Whether some record of `batch` has key `key`.
pub open spec fn batch_has_key<K, V>(batch: Seq<DirtyRecord<K, V>>, key: K) -> bool {
    exists|i: int| 0 <= i < batch.len() && batch[i].key == key
}

/// The visible index after a strict flush of `batch` marked up to `upto`.
pub open spec fn sweep_flushed<K, V>(
    visible: Map<K, VisibleEntry<K, V>>,
    batch: Seq<DirtyRecord<K, V>>,
    upto: WriteId,
) -> Map<K, VisibleEntry<K, V>> {
    Map::new(
        |k: K| visible.contains_key(k) && !(batch_has_key(batch, k) && retired_by_flush(visible[k], upto)),
        |k: K| visible[k],
    )
}

} // verus!

verus! {

/// Number of logged records in flight.
pub open spec fn log_inflight_len<K, V>(v: MapView<K, V>) -> nat {
    match v.inflight {
        Some(batch) => batch.len(),
        None => 0,
    }
}

/// Whether `n` more writes fit in the log's ids and length.
pub open spec fn log_has_room<K, V>(v: MapView<K, V>, n: nat) -> bool {
    &&& v.next_write + n <= u64::MAX
    &&& v.pending.len() + log_inflight_len(v) + n <= usize::MAX
}

/// A coalesced write of `value` under `id`: a clean entry of the key leaves the visible index,
/// and the write becomes the key's latest record in the overlay.
pub open spec fn publish_coalesced<K, V>(v: MapView<K, V>, key: K, id: WriteId, value: V) -> MapView<
    K,
    V,
> {
    let (visible, count) = remove_clean_if_present(v.visible, v.clean_count, key);
    MapView {
        visible,
        clean_count: count,
        overlay: OverlayView {
            active: v.overlay.active.insert(key, CoalescedRecord { id, value }),
            active_order: if v.overlay.active.contains_key(key) {
                v.overlay.active_order
            } else {
                v.overlay.active_order.push(key)
            },
            ..v.overlay
        },
        ..v
    }
}

/// A dirty write that returns its id: appended to the log and published (strict mode), or
/// published into the overlay under the next coalesced id (coalesced mode).
pub open spec fn spec_insert_dirty<K, V>(v: MapView<K, V>, key: K, value: V) -> (MapView<K, V>, WriteId) {
    match v.mode {
        DirtyWriteMode::StrictLog => {
            let id = v.next_write;
            let record = DirtyRecord { id, key, value };
            let (visible, count) = publish_dirty(v.visible, v.clean_count, record);
            (
                MapView {
                    pending: v.pending.push(record),
                    next_write: (id + 1) as u64,
                    visible,
                    clean_count: count,
                    ..v
                },
                id,
            )
        },
        DirtyWriteMode::CoalescedMap => {
            let id = v.next_dirty_write;
            (MapView { next_dirty_write: wrap_inc_u64(id), ..publish_coalesced(v, key, id, value) }, id)
        },
    }
}

/// A dirty write whose id the caller does not need: in coalesced mode it is published without an
/// id, which a later flush assigns.
pub open spec fn spec_put<K, V>(v: MapView<K, V>, key: K, value: V) -> MapView<K, V> {
    match v.mode {
        DirtyWriteMode::StrictLog => spec_insert_dirty(v, key, value).0,
        DirtyWriteMode::CoalescedMap => publish_coalesced(
            MapView { has_unassigned: true, ..v },
            key,
            super::COALESCED_UNASSIGNED_WRITE_ID,
            value,
        ),
    }
}

/// Installing a clean entry when `key` shows nothing: the cache id is consumed either way.
pub open spec fn spec_insert_clean<K, V>(v: MapView<K, V>, key: K, value: V) -> (
    MapView<K, V>,
    Option<CacheId>,
) {
    let id = v.next_cache;
    let v1 = MapView { next_cache: wrap_inc_u64(id), ..v };
    if v.mode == DirtyWriteMode::CoalescedMap && overlay_ref(v.overlay, key) is Some {
        (v1, None)
    } else if v.visible.contains_key(key) {
        (v1, None)
    } else {
        let visible = v.visible.insert(key, VisibleEntry::Clean(CleanRecord { id, key, value }));
        let (visible, count, fifo) = enqueue_clean_spec(
            visible,
            wrap_inc(v.clean_count),
            v.clean_fifo,
            v.clean_capacity,
            key,
            id,
        );
        (MapView { visible, clean_count: count, clean_fifo: fifo, ..v1 }, Some(id))
    }
}

/// Evicting the clean entry of `key`, if it shows one.
pub open spec fn spec_evict_clean<K, V>(v: MapView<K, V>, key: K) -> (MapView<K, V>, bool) {
    if v.visible.contains_key(key) && v.visible[key] is Clean {
        (MapView { visible: v.visible.remove(key), clean_count: wrap_dec(v.clean_count), ..v }, true)
    } else {
        (v, false)
    }
}

/// Removing the entry `key` currently shows, unless the coalesced overlay still shows it.
pub open spec fn spec_cleanup_stale<K, V>(v: MapView<K, V>, key: K) -> (MapView<K, V>, bool) {
    match spec_visible_ref(v, key) {
        Some(expected) => spec_cleanup_matching(v, key, expected),
        None => (v, false),
    }
}

} // verus!

verus! {

/// Number of records of `s` still waiting for an id.
pub open spec fn unassigned_count<K, V>(s: Seq<DirtyRecord<K, V>>) -> nat
    decreases s.len(),
{
    if s.len() == 0 {
        0
    } else {
        unassigned_count(s.drop_last()) + if s.last().id == super::COALESCED_UNASSIGNED_WRITE_ID {
            1nat
        } else {
            0nat
        }
    }
}

/// The records of `s` with the waiting ones numbered from `base` on, in order.
pub open spec fn assign_ids<K, V>(s: Seq<DirtyRecord<K, V>>, base: WriteId) -> Seq<DirtyRecord<K, V>> {
    Seq::new(
        s.len(),
        |i: int|
            if s[i].id == super::COALESCED_UNASSIGNED_WRITE_ID {
                DirtyRecord {
                    id: wrap_add_u64(base, unassigned_count(s.take(i))),
                    key: s[i].key,
                    value: s[i].value,
                }
            } else {
                s[i]
            },
    )
}

/// The overlay once a draining snapshot is in place: the active table is detached unless a
/// non-empty snapshot is still being drained or nothing is active.
pub open spec fn with_draining_snapshot<K, V>(o: OverlayView<K, V>) -> OverlayView<K, V> {
    if draining_len(o) > 0 || o.active.len() == 0 {
        o
    } else {
        OverlayView {
            active: Map::empty(),
            active_order: Seq::empty(),
            draining: Some((o.active, o.active_order)),
            ..o
        }
    }
}

/// A strict flush of at most `limit` records: the batch in flight again, or the oldest pending
/// records, which go in flight.
pub open spec fn strict_flush_batch<K, V>(v: MapView<K, V>, limit: usize) -> (
    MapView<K, V>,
    Seq<DirtyRecord<K, V>>,
) {
    match v.inflight {
        Some(batch) => (v, batch),
        None => {
            let n = if limit < v.pending.len() {
                limit as int
            } else {
                v.pending.len() as int
            };
            let batch = v.pending.take(n);
            (
                MapView {
                    pending: v.pending.skip(n),
                    inflight: if n > 0 {
                        Some(batch)
                    } else {
                        None
                    },
                    ..v
                },
                batch,
            )
        },
    }
}

/// A coalesced flush of at most `limit` records: the batch in flight again, or records drained
/// from the snapshot (detaching the active table first when needed), which get their ids and go
/// in flight.
pub open spec fn coalesced_flush_batch<K, V>(v: MapView<K, V>, limit: usize) -> (
    MapView<K, V>,
    Seq<DirtyRecord<K, V>>,
) {
    if limit == 0 {
        (v, Seq::empty())
    } else {
        match v.overlay.inflight {
            Some(batch) => (v, batch),
            None => {
                let o1 = with_draining_snapshot(v.overlay);
                match o1.draining {
                    None => (MapView { overlay: o1, ..v }, Seq::empty()),
                    Some((records, order)) => {
                        let n: nat = if limit < order.len() {
                            limit as nat
                        } else {
                            order.len()
                        };
                        let rest = order.take(order.len() - n);
                        let o2 = OverlayView {
                            draining: if rest.len() == 0 {
                                None
                            } else {
                                Some((records.restrict(rest.to_set()), rest))
                            },
                            ..o1
                        };
                        let entries = drained_records(order, records, n);
                        if n == 0 {
                            (MapView { overlay: o2, ..v }, Seq::empty())
                        } else {
                            let batch = if v.has_unassigned {
                                assign_ids(entries, v.next_dirty_write)
                            } else {
                                entries
                            };
                            let next = if v.has_unassigned {
                                wrap_add_u64(v.next_dirty_write, unassigned_count(entries))
                            } else {
                                v.next_dirty_write
                            };
                            (
                                MapView {
                                    overlay: OverlayView { inflight: Some(batch), ..o2 },
                                    next_dirty_write: next,
                                    ..v
                                },
                                batch,
                            )
                        }
                    },
                }
            },
        }
    }
}

/// A flush of at most `limit` records.
pub open spec fn spec_flush_batch<K, V>(v: MapView<K, V>, limit: usize) -> (
    MapView<K, V>,
    Seq<DirtyRecord<K, V>>,
) {
    match v.mode {
        DirtyWriteMode::StrictLog => strict_flush_batch(v, limit),
        DirtyWriteMode::CoalescedMap => coalesced_flush_batch(v, limit),
    }
}

/// Marking `batch` flushed. Strict mode: when it is the batch in flight (same length and last
/// id), it leaves, the flushed mark advances to its last id, and the visible entries of its keys
/// that the mark covers (and clean ones) go. Coalesced mode: when it carries the ids of the batch
/// in flight, that batch leaves, and an empty draining snapshot with it.
pub open spec fn spec_mark_flushed<K, V>(v: MapView<K, V>, batch: Seq<DirtyRecord<K, V>>) -> (
    MapView<K, V>,
    usize,
) {
    match v.mode {
        DirtyWriteMode::StrictLog => match v.inflight {
            Some(current) => if same_tail(current, batch) {
                let last = batch.last().id;
                let upto = if v.flushed_upto != u64::MAX && v.flushed_upto >= last {
                    v.flushed_upto
                } else {
                    last
                };
                (
                    MapView {
                        inflight: None,
                        flushed_upto: upto,
                        visible: sweep_flushed(v.visible, batch, upto),
                        ..v
                    },
                    current.len() as usize,
                )
            } else {
                (v, 0)
            },
            None => (v, 0),
        },
        DirtyWriteMode::CoalescedMap => match v.overlay.inflight {
            Some(current) => if ids_of(current) == ids_of(batch) {
                (
                    MapView {
                        overlay: OverlayView {
                            inflight: None,
                            draining: match v.overlay.draining {
                                Some((records, order)) => if records.len() == 0 {
                                    None
                                } else {
                                    v.overlay.draining
                                },
                                None => None,
                            },
                            ..v.overlay
                        },
                        ..v
                    },
                    current.len() as usize,
                )
            } else {
                (v, 0)
            },
            None => (v, 0),
        },
    }
}

} // verus!

verus! {

/// Waiting for flush work: a non-empty batch to persist, or (`None`) a request to flush at once,
/// which clears the strict log's flush request.
pub open spec fn spec_wait_flush_work<K, V>(v: MapView<K, V>, limit: usize) -> (
    MapView<K, V>,
    Option<Seq<DirtyRecord<K, V>>>,
) {
    let (v1, batch) = spec_flush_batch(v, limit);
    if batch.len() > 0 {
        (v1, Some(batch))
    } else {
        match v.mode {
            DirtyWriteMode::StrictLog => (MapView { force_flush: false, ..v1 }, None),
            DirtyWriteMode::CoalescedMap => (v1, None),
        }
    }
}

/// Whether `wait_flush_work(limit)` answers without waiting: always in coalesced mode; in strict
/// mode when a batch is in flight, records are pending and `limit` lets some out, or a
/// force-flush was asked for.
pub open spec fn has_flush_work<K, V>(v: MapView<K, V>, limit: usize) -> bool {
    match v.mode {
        DirtyWriteMode::CoalescedMap => true,
        DirtyWriteMode::StrictLog => {
            ||| v.inflight is Some
            ||| (limit > 0 && v.pending.len() > 0)
            ||| v.force_flush
        },
    }
}

/// Number of coalesced records in the overlay, stage by stage.
pub open spec fn overlay_total<K, V>(o: OverlayView<K, V>) -> nat {
    o.active.len() + super::coalesced::inflight_len(o) + draining_len(o)
}

/// Number of dirty records not yet marked flushed.
pub open spec fn dirty_total<K, V>(v: MapView<K, V>) -> nat {
    match v.mode {
        DirtyWriteMode::StrictLog => v.pending.len() + log_inflight_len(v),
        DirtyWriteMode::CoalescedMap => overlay_total(v.overlay),
    }
}

} // verus!

verus! {

/// The entries of a batch with each key kept once, where it first appears, holding the last
/// value written for it.
pub open spec fn compact_latest<K, V>(entries: Seq<(K, V)>) -> Seq<(K, V)>
    decreases entries.len(),
{
    if entries.len() == 0 {
        Seq::empty()
    } else {
        let prev = compact_latest(entries.drop_last());
        let last = entries.last();
        if exists|i: int| 0 <= i < prev.len() && prev[i].0 == last.0 {
            prev.update(choose|i: int| 0 <= i < prev.len() && prev[i].0 == last.0, last)
        } else {
            prev.push(last)
        }
    }
}

/// Coalesced writes of `entries` in order, the `i`-th under id `base + i`.
pub open spec fn publish_coalesced_all<K, V>(v: MapView<K, V>, entries: Seq<(K, V)>, base: WriteId) -> MapView<
    K,
    V,
>
    decreases entries.len(),
{
    if entries.len() == 0 {
        v
    } else {
        let prev = publish_coalesced_all(v, entries.drop_last(), base);
        let last = entries.last();
        publish_coalesced(prev, last.0, wrap_add_u64(base, (entries.len() - 1) as nat), last.1)
    }
}

/// A batch of dirty writes with their ids. Strict mode: every entry is logged and published in
/// order. Coalesced mode: the batch is first reduced to one entry per key (its last value, at
/// its first position), then each is published under consecutive fresh ids.
pub open spec fn spec_insert_dirty_batch<K, V>(v: MapView<K, V>, entries: Seq<(K, V)>) -> (
    MapView<K, V>,
    Seq<WriteId>,
) {
    match v.mode {
        DirtyWriteMode::StrictLog => {
            let records = numbered(entries, v.next_write);
            let (visible, count) = publish_dirty_all(v.visible, v.clean_count, records);
            (
                MapView {
                    pending: v.pending + records,
                    next_write: (v.next_write + entries.len()) as u64,
                    visible,
                    clean_count: count,
                    ..v
                },
                ids_of(records),
            )
        },
        DirtyWriteMode::CoalescedMap => {
            if entries.len() == 0 {
                (v, Seq::empty())
            } else {
                let compacted = compact_latest(entries);
                let base = v.next_dirty_write;
                (
                    publish_coalesced_all(
                        MapView {
                            next_dirty_write: wrap_add_u64(base, compacted.len()),
                            ..v
                        },
                        compacted,
                        base,
                    ),
                    Seq::new(compacted.len(), |i: int| wrap_add_u64(base, i as nat)),
                )
            }
        },
    }
}

} // verus!

verus! {

/// What every well-formed map's state satisfies.
pub open spec fn view_consistent<K, V>(v: MapView<K, V>) -> bool {
    &&& v.inflight matches Some(batch) ==> batch.len() > 0
    &&& v.pending.len() + log_inflight_len(v) <= usize::MAX
    &&& super::coalesced::overlay_consistent(v.overlay)
}

/// The batch limit the flush helpers use: at least one.
pub open spec fn flush_limit(limit: usize) -> usize {
    if limit > 1 {
        limit
    } else {
        1
    }
}

/// One flush round: hand out a batch and mark it flushed.
pub open spec fn flush_round<K, V>(v: MapView<K, V>, limit: usize) -> MapView<K, V> {
    let (v1, batch) = spec_flush_batch(v, limit);
    spec_mark_flushed(v1, batch).0
}

/// `k` flush rounds.
pub open spec fn flush_rounds<K, V>(v: MapView<K, V>, limit: usize, k: nat) -> MapView<K, V>
    decreases k,
{
    if k == 0 {
        v
    } else {
        flush_round(flush_rounds(v, limit, (k - 1) as nat), limit)
    }
}

/// A flush round that hands out a non-empty batch retires exactly that batch.
pub proof fn lemma_flush_round_progress<K, V>(v: MapView<K, V>, limit: usize)
    requires
        view_consistent(v),
        limit >= 1,
        spec_flush_batch(v, limit).1.len() > 0,
    ensures
        ({
            let (v1, batch) = spec_flush_batch(v, limit);
            &&& spec_mark_flushed(v1, batch).1 == batch.len()
            &&& dirty_total(flush_round(v, limit)) + batch.len() == dirty_total(v)
        }),
{
    let (v1, batch) = spec_flush_batch(v, limit);
    match v.mode {
        DirtyWriteMode::StrictLog => {
            if v.inflight is None {
                let n = if limit < v.pending.len() {
                    limit as int
                } else {
                    v.pending.len() as int
                };
                assert(v1.pending.len() == v.pending.len() - n);
                assert(batch.len() == n);
            }
            assert(v1.inflight == Some(batch));
            assert(same_tail(batch, batch));
            let v2 = spec_mark_flushed(v1, batch).0;
            assert(flush_round(v, limit) == v2);
            if v.inflight is None {
                assert(v2.pending.len() + batch.len() == v.pending.len());
            } else {
                assert(v2.pending.len() + batch.len() == v.pending.len() + log_inflight_len(v));
            }
            assert(dirty_total(flush_round(v, limit)) + batch.len() == dirty_total(v));
        },
        DirtyWriteMode::CoalescedMap => {
            assert(ids_of(batch) == ids_of(batch));
            if v.overlay.inflight is None {
                let o1 = with_draining_snapshot(v.overlay);
                assert(draining_len(o1) + o1.active.len() == draining_len(v.overlay) + v.overlay.active.len());
                if let Some((records, order)) = o1.draining {
                    let n: nat = if limit < order.len() {
                        limit as nat
                    } else {
                        order.len()
                    };
                    let rest = order.take(order.len() - n);
                    order.unique_seq_to_set();
                    assert(records.len() == order.len());
                    assert(rest.no_duplicates());
                    rest.unique_seq_to_set();
                    assert(records.restrict(rest.to_set()).dom() =~= rest.to_set()) by {
                        assert forall|k: K| rest.to_set().contains(k) implies order.to_set().contains(k) by {
                            let j = choose|j: int| 0 <= j < rest.len() && rest[j] == k;
                            assert(order[j] == k);
                        }
                    }
                    assert(batch.len() == n);
                }
            }
            assert(spec_mark_flushed(v1, batch).1 == batch.len());
            assert(dirty_total(flush_round(v, limit)) + batch.len() == dirty_total(v));
        },
    }
}

} // verus!

verus! {

/// A flush of at least one record that hands out nothing leaves no dirty record behind.
pub proof fn lemma_empty_flush_leaves_nothing<K, V>(v: MapView<K, V>, limit: usize)
    requires
        view_consistent(v),
        limit >= 1,
        spec_flush_batch(v, limit).1.len() == 0,
    ensures
        dirty_total(spec_flush_batch(v, limit).0) == 0,
{
    let (v1, batch) = spec_flush_batch(v, limit);
    if v.mode == DirtyWriteMode::CoalescedMap {
        let o1 = with_draining_snapshot(v.overlay);
        if let Some((records, order)) = o1.draining {
            order.unique_seq_to_set();
        }
        if v.overlay.active.len() > 0 && draining_len(v.overlay) == 0 {
            v.overlay.active_order.unique_seq_to_set();
        }
    }
}

} // verus!
