//! What holds of the map across operations.
use vstd::prelude::*;

use super::coalesced::{inflight_record, overlay_ref};
use super::spec::{
    batch_has_key, retired_by_flush, spec_evict_clean, spec_insert_clean, spec_insert_dirty,
    spec_mark_flushed, spec_put, spec_read_full, view_consistent, visible_lookup, MapView,
    VisibleEntry,
};
use crate::dirty_log::ids_of;
use super::types::DirtyWriteMode;
use crate::dirty_log::same_tail;
use crate::entry::{DirtyRecord, EntryState, VisibleRef};

verus! {

/// A read right after a write of `value` to `key` shows `value` as dirty under the write's id.
pub proof fn lemma_read_your_write<K, V>(v: MapView<K, V>, key: K, value: V)
    ensures
        ({
            let (after, id) = spec_insert_dirty(v, key, value);
            spec_read_full(after, key) == Some((key, value, EntryState::Dirty, VisibleRef::Dirty(id)))
        }),
{
}

/// A read right after `put(key, value)` shows `value` as dirty.
pub proof fn lemma_put_then_read<K, V>(v: MapView<K, V>, key: K, value: V)
    ensures
        spec_read_full(spec_put(v, key, value), key) matches Some((k, x, s, _)) && k == key && x
            == value && s == EntryState::Dirty,
{
}

/// A write to one key leaves what every other key shows unchanged.
pub proof fn lemma_write_leaves_other_keys<K, V>(v: MapView<K, V>, key: K, value: V, other: K)
    requires
        other != key,
    ensures
        spec_read_full(spec_insert_dirty(v, key, value).0, other) == spec_read_full(v, other),
        spec_read_full(spec_put(v, key, value), other) == spec_read_full(v, other),
{
}

/// A clean entry is installed only where the map shows nothing: otherwise the insertion is
/// refused and only the cache id counter moves.
pub proof fn lemma_clean_insert_refused_when_shown<K, V>(v: MapView<K, V>, key: K, value: V)
    requires
        spec_read_full(v, key) is Some,
    ensures
        ({
            let (after, r) = spec_insert_clean(v, key, value);
            &&& r is None
            &&& after == MapView { next_cache: after.next_cache, ..v }
        }),
{
    if v.mode == DirtyWriteMode::CoalescedMap {
        if inflight_record(v.overlay, key) is Some {
            assert(overlay_ref(v.overlay, key) is Some);
        }
    }
}

/// A clean entry installed where the map showed nothing is what a read then shows, unless the
/// full clean queue evicts it at once (its oldest slot naming the same key and id).
pub proof fn lemma_clean_insert_then_read<K, V>(v: MapView<K, V>, key: K, value: V)
    requires
        spec_read_full(v, key) is None,
        !(v.clean_fifo.len() >= v.clean_capacity && v.clean_fifo.len() > 0 && v.clean_fifo[0] == (
            key,
            v.next_cache,
        )),
    ensures
        ({
            let (after, r) = spec_insert_clean(v, key, value);
            &&& r == Some(v.next_cache)
            &&& spec_read_full(after, key) == Some(
                (key, value, EntryState::Clean, VisibleRef::Clean(v.next_cache)),
            )
        }),
{
    if v.mode == DirtyWriteMode::CoalescedMap {
        assert(overlay_ref(v.overlay, key) is None);
    }
}

/// In strict mode, once the clean entry of a key is evicted, the key shows nothing.
pub proof fn lemma_evicted_key_shows_nothing<K, V>(v: MapView<K, V>, key: K)
    requires
        v.mode == DirtyWriteMode::StrictLog,
    ensures
        ({
            let (after, removed) = spec_evict_clean(v, key);
            removed ==> spec_read_full(after, key) is None
        }),
{
}

/// Marking a batch that is not the batch in flight changes nothing.
pub proof fn lemma_stale_mark_is_noop<K, V>(v: MapView<K, V>, batch: Seq<DirtyRecord<K, V>>)
    requires
        view_consistent(v),
        spec_mark_flushed(v, batch).1 == 0,
    ensures
        spec_mark_flushed(v, batch).0 == v,
{
}

/// In strict mode, marking the batch in flight as flushed retires the dirty entry of each of its
/// keys whose latest write it covers: such a key then shows nothing.
pub proof fn lemma_mark_flushed_retires_covered<K, V>(
    v: MapView<K, V>,
    batch: Seq<DirtyRecord<K, V>>,
    key: K,
)
    requires
        v.mode == DirtyWriteMode::StrictLog,
        v.inflight == Some(batch),
        batch.len() > 0,
        batch_has_key(batch, key),
        v.visible.contains_key(key),
        v.visible[key] matches VisibleEntry::Dirty(r) && r.id <= batch.last().id,
    ensures
        spec_read_full(spec_mark_flushed(v, batch).0, key) is None,
{
    assert(same_tail(batch, batch));
}

/// In strict mode, marking the batch in flight as flushed keeps what a key shows when its latest
/// write is newer than everything marked flushed: a newer write survives the flush of an older
/// one.
pub proof fn lemma_mark_flushed_keeps_newer<K, V>(
    v: MapView<K, V>,
    batch: Seq<DirtyRecord<K, V>>,
    key: K,
)
    requires
        v.mode == DirtyWriteMode::StrictLog,
        v.inflight == Some(batch),
        batch.len() > 0,
        v.visible.contains_key(key),
        v.visible[key] matches VisibleEntry::Dirty(r) && r.id > batch.last().id && (
        v.flushed_upto == u64::MAX || r.id > v.flushed_upto),
    ensures
        spec_read_full(spec_mark_flushed(v, batch).0, key) == spec_read_full(v, key),
{
    assert(same_tail(batch, batch));
    let upto = spec_mark_flushed(v, batch).0.flushed_upto;
    assert(!retired_by_flush(v.visible[key], upto));
}

/// Installing a clean entry never changes what a read shows for another key whose entry is
/// dirty: when the full clean queue drops its oldest slot, only a clean entry can leave.
pub proof fn lemma_clean_insert_keeps_dirty_reads<K, V>(v: MapView<K, V>, key: K, value: V, k: K)
    requires
        k != key,
        spec_read_full(v, k) matches Some((_, _, s, _)) && s == EntryState::Dirty,
    ensures
        spec_read_full(spec_insert_clean(v, key, value).0, k) == spec_read_full(v, k),
{
    if v.visible.contains_key(k) {
        assert(v.visible[k] is Dirty || v.mode == DirtyWriteMode::CoalescedMap);
    }
}

/// After a write, the written key has no clean entry left, so a later flush of the write can
/// never bring an older clean value back. (In coalesced mode the clean entry is dropped while
/// the clean counter is non-zero, as it is whenever a clean entry was installed and not yet
/// removed.)
pub proof fn lemma_write_drops_clean_entry<K, V>(v: MapView<K, V>, key: K, value: V)
    requires
        v.mode == DirtyWriteMode::StrictLog || v.clean_count != 0,
    ensures
        !(spec_put(v, key, value).visible.contains_key(key) && spec_put(
            v,
            key,
            value,
        ).visible[key] is Clean),
        !(spec_insert_dirty(v, key, value).0.visible.contains_key(key) && spec_insert_dirty(
            v,
            key,
            value,
        ).0.visible[key] is Clean),
{
}

/// Marking a batch retires the batch in flight only when it has that batch's length and last
/// id; any other batch leaves the map as it is and counts nothing.
pub proof fn lemma_mark_needs_inflight_tail<K, V>(
    v: MapView<K, V>,
    batch: Seq<DirtyRecord<K, V>>,
)
    ensures
        v.mode == DirtyWriteMode::StrictLog ==> (v.inflight matches Some(cur) && (batch.len() == 0
            || batch.len() != cur.len() || batch.last().id != cur.last().id) ==> spec_mark_flushed(
            v,
            batch,
        ) == (v, 0usize)),
        v.mode == DirtyWriteMode::StrictLog && v.inflight is None ==> spec_mark_flushed(v, batch)
            == (v, 0usize),
        v.mode == DirtyWriteMode::CoalescedMap ==> (v.overlay.inflight matches Some(cur) && cur.len()
            > 0 && (batch.len() != cur.len() || batch.last().id != cur.last().id)
            ==> spec_mark_flushed(v, batch) == (v, 0usize)),
        v.mode == DirtyWriteMode::CoalescedMap && v.overlay.inflight is None ==> spec_mark_flushed(
            v,
            batch,
        ) == (v, 0usize),
{
    if v.mode == DirtyWriteMode::CoalescedMap {
        if let Some(cur) = v.overlay.inflight {
            if cur.len() > 0 && ids_of(cur) == ids_of(batch) {
                assert(ids_of(cur).len() == cur.len());
                assert(ids_of(batch).len() == batch.len());
                let n = cur.len() - 1;
                assert(ids_of(cur)[n] == cur.last().id);
                assert(ids_of(batch)[n] == batch.last().id);
            }
        }
    }
}

/// What installing a clean entry does to another key's read: the key loses its entry exactly
/// when the clean queue is full, its oldest slot names that key, and the key still shows the
/// clean entry with the slot's id; every other key reads as before.
pub proof fn lemma_clean_insert_effect_on_others<K, V>(v: MapView<K, V>, key: K, value: V, k: K)
    requires
        k != key,
    ensures
        ({
            let after = spec_insert_clean(v, key, value).0;
            let evicts = v.clean_fifo.len() >= v.clean_capacity && v.clean_fifo.len() > 0
                && v.clean_fifo[0].0 == k && match spec_read_full(v, k) {
                Some((_, _, _, r)) => r == VisibleRef::Clean(v.clean_fifo[0].1),
                None => false,
            };
            &&& evicts && spec_insert_clean(v, key, value).1 is Some ==> spec_read_full(after, k) is None
            &&& !evicts ==> spec_read_full(after, k) == spec_read_full(v, k)
        }),
{
}

} // verus!
