//! Specifications of the model: transitions and invariants over [`ModelStateView`].
use vstd::prelude::*;

use super::state::{
    absent_clean, absent_dirty, absent_durable, CacheId, CleanRecord, DirtyRecord, DurableValue,
    InvariantMode, KeyId, ModelConfig, ModelError, ModelStateView, ModelStep, ValueId, VisibleRef,
    WriteId,
};

verus! {

/// Every count of the configuration is positive.
pub open spec fn valid_config(cfg: ModelConfig) -> bool {
    &&& cfg.key_count > 0
    &&& cfg.value_count > 0
    &&& cfg.max_write > 0
    &&& cfg.max_cache > 0
}

// ---------------------------------------------------------------------------
// Transitions
// ---------------------------------------------------------------------------

/// The initial state for a configuration.
pub open spec fn spec_new(cfg: ModelConfig) -> ModelStateView {
    ModelStateView {
        visible: Seq::new(cfg.key_count as nat, |i: int| VisibleRef::Empty),
        write_store: Seq::new(cfg.max_write as nat, |i: int| absent_dirty()),
        write_hist: Seq::new(cfg.max_write as nat, |i: int| absent_dirty()),
        dirty_q: Seq::empty(),
        cache_store: Seq::new(cfg.max_cache as nat, |i: int| absent_clean()),
        durable: Seq::new(cfg.key_count as nat, |i: int| absent_durable()),
        flushed: Seq::empty(),
        created_dirty: Seq::new(cfg.max_write as nat, |i: int| false),
        next_write: 0,
        next_cache: 0,
        crashed: false,
        bad_read: false,
    }
}

/// A writer publishes `value` for `key` as a new dirty write.
pub open spec fn spec_writer_write(s: ModelStateView, cfg: ModelConfig, key: KeyId, value: ValueId) -> (
    ModelStateView,
    Result<(), ModelError>,
) {
    if key >= cfg.key_count {
        (s, Err(ModelError::InvalidKey(key)))
    } else if value >= cfg.value_count {
        (s, Err(ModelError::InvalidValue(value)))
    } else if s.crashed || s.next_write >= cfg.max_write {
        (s, Ok(()))
    } else {
        let id = s.next_write;
        let record = DirtyRecord { present: true, id: Some(id), key, value };
        (
            ModelStateView {
                write_store: s.write_store.update(id as int, record),
                write_hist: s.write_hist.update(id as int, record),
                dirty_q: s.dirty_q.push(id),
                visible: s.visible.update(key as int, VisibleRef::Dirty(id)),
                created_dirty: s.created_dirty.update(id as int, true),
                next_write: (id + 1) as usize,
                ..s
            },
            Ok(()),
        )
    }
}

/// The flusher makes the oldest queued write durable.
pub open spec fn spec_flusher_flush_next(s: ModelStateView, cfg: ModelConfig) -> (
    ModelStateView,
    Result<(), ModelError>,
) {
    if s.crashed || s.dirty_q.len() == 0 {
        (s, Ok(()))
    } else {
        let id = s.dirty_q[0];
        if id >= cfg.max_write {
            (s, Err(ModelError::InvalidWriteId(id)))
        } else if s.write_hist[id as int].present {
            let record = s.write_hist[id as int];
            (
                ModelStateView {
                    durable: s.durable.update(
                        record.key as int,
                        DurableValue { present: true, value: record.value, seq: Some(id) },
                    ),
                    flushed: s.flushed.push(id),
                    dirty_q: s.dirty_q.drop_first(),
                    ..s
                },
                Ok(()),
            )
        } else {
            (s, Ok(()))
        }
    }
}

/// `visible` with every entry equal to `from` replaced by `Empty`.
pub open spec fn clear_refs(visible: Seq<VisibleRef>, from: VisibleRef) -> Seq<VisibleRef> {
    Seq::new(visible.len(), |i: int| if visible[i] == from { VisibleRef::Empty } else { visible[i] })
}

/// The flusher drops the dirty record of a flushed write.
pub open spec fn spec_flusher_drop(s: ModelStateView, cfg: ModelConfig, id: WriteId) -> (
    ModelStateView,
    Result<(), ModelError>,
) {
    if id >= cfg.max_write {
        (s, Err(ModelError::InvalidWriteId(id)))
    } else if s.crashed {
        (s, Ok(()))
    } else if s.flushed.contains(id) && s.write_store[id as int].present {
        (
            ModelStateView {
                write_store: s.write_store.update(id as int, absent_dirty()),
                visible: clear_refs(s.visible, VisibleRef::Dirty(id)),
                ..s
            },
            Ok(()),
        )
    } else {
        (s, Ok(()))
    }
}

/// The cache installs the durable value of `key` as a clean entry.
pub open spec fn spec_cache_insert(s: ModelStateView, cfg: ModelConfig, key: KeyId) -> (
    ModelStateView,
    Result<(), ModelError>,
) {
    if key >= cfg.key_count {
        (s, Err(ModelError::InvalidKey(key)))
    } else if s.crashed || s.next_cache >= cfg.max_cache {
        (s, Ok(()))
    } else if s.durable[key as int].present && s.visible[key as int] == VisibleRef::Empty {
        let id = s.next_cache;
        (
            ModelStateView {
                cache_store: s.cache_store.update(
                    id as int,
                    CleanRecord {
                        present: true,
                        id: Some(id),
                        key,
                        value: s.durable[key as int].value,
                    },
                ),
                visible: s.visible.update(key as int, VisibleRef::Clean(id)),
                next_cache: (id + 1) as usize,
                ..s
            },
            Ok(()),
        )
    } else {
        (s, Ok(()))
    }
}

/// The cache drops a clean record (its visible ref may stay behind).
pub open spec fn spec_cache_drop_record(s: ModelStateView, cfg: ModelConfig, id: CacheId) -> (
    ModelStateView,
    Result<(), ModelError>,
) {
    if id >= cfg.max_cache {
        (s, Err(ModelError::InvalidCacheId(id)))
    } else if s.crashed {
        (s, Ok(()))
    } else if s.cache_store[id as int].present {
        (ModelStateView { cache_store: s.cache_store.update(id as int, absent_clean()), ..s }, Ok(()))
    } else {
        (s, Ok(()))
    }
}

/// The cache clears visible refs to a dropped clean record.
pub open spec fn spec_cache_cleanup_visible(s: ModelStateView, cfg: ModelConfig, id: CacheId) -> (
    ModelStateView,
    Result<(), ModelError>,
) {
    if id >= cfg.max_cache {
        (s, Err(ModelError::InvalidCacheId(id)))
    } else if s.crashed {
        (s, Ok(()))
    } else if !s.cache_store[id as int].present {
        (ModelStateView { visible: clear_refs(s.visible, VisibleRef::Clean(id)), ..s }, Ok(()))
    } else {
        (s, Ok(()))
    }
}

/// A reader follows the visible ref of `key`; a ref to a record of another key is a bad read.
pub open spec fn spec_reader_step(s: ModelStateView, cfg: ModelConfig, key: KeyId) -> (
    ModelStateView,
    Result<(), ModelError>,
) {
    if key >= cfg.key_count {
        (s, Err(ModelError::InvalidKey(key)))
    } else if s.crashed {
        (s, Ok(()))
    } else {
        match s.visible[key as int] {
            VisibleRef::Empty => (s, Ok(())),
            VisibleRef::Dirty(id) => {
                if id >= cfg.max_write {
                    (s, Err(ModelError::InvalidWriteId(id)))
                } else if !s.write_store[id as int].present || s.write_store[id as int].key != key {
                    (ModelStateView { bad_read: true, ..s }, Ok(()))
                } else {
                    (s, Ok(()))
                }
            },
            VisibleRef::Clean(id) => {
                if id >= cfg.max_cache {
                    (s, Err(ModelError::InvalidCacheId(id)))
                } else if s.cache_store[id as int].present && s.cache_store[id as int].key != key {
                    (ModelStateView { bad_read: true, ..s }, Ok(()))
                } else {
                    (s, Ok(()))
                }
            },
        }
    }
}

/// A crash loses every volatile structure and keeps the durable store.
pub open spec fn spec_crash(s: ModelStateView, cfg: ModelConfig) -> (
    ModelStateView,
    Result<(), ModelError>,
) {
    if s.crashed {
        (s, Ok(()))
    } else {
        (
            ModelStateView {
                visible: Seq::new(cfg.key_count as nat, |i: int| VisibleRef::Empty),
                write_store: Seq::new(cfg.max_write as nat, |i: int| absent_dirty()),
                dirty_q: Seq::empty(),
                cache_store: Seq::new(cfg.max_cache as nat, |i: int| absent_clean()),
                crashed: true,
                ..s
            },
            Ok(()),
        )
    }
}

/// The transition taken by one step.
pub open spec fn spec_apply_step(s: ModelStateView, cfg: ModelConfig, step: ModelStep) -> (
    ModelStateView,
    Result<(), ModelError>,
) {
    match step {
        ModelStep::WriterWrite { key, value } => spec_writer_write(s, cfg, key, value),
        ModelStep::FlusherFlushNext => spec_flusher_flush_next(s, cfg),
        ModelStep::FlusherDrop { id } => spec_flusher_drop(s, cfg, id),
        ModelStep::CacheInsert { key } => spec_cache_insert(s, cfg, key),
        ModelStep::CacheDropRecord { id } => spec_cache_drop_record(s, cfg, id),
        ModelStep::CacheCleanupVisible { id } => spec_cache_cleanup_visible(s, cfg, id),
        ModelStep::ReaderStep { key } => spec_reader_step(s, cfg, key),
        ModelStep::Crash => spec_crash(s, cfg),
    }
}

/// The state reached from `s` by applying `steps` in order (a failing step leaves the state).
pub open spec fn spec_run(s: ModelStateView, cfg: ModelConfig, steps: Seq<ModelStep>) -> ModelStateView
    decreases steps.len(),
{
    if steps.len() == 0 {
        s
    } else {
        spec_apply_step(spec_run(s, cfg, steps.drop_last()), cfg, steps.last()).0
    }
}

// ---------------------------------------------------------------------------
// Invariants
// ---------------------------------------------------------------------------

pub open spec fn visible_ref_ok(v: VisibleRef, cfg: ModelConfig) -> bool {
    match v {
        VisibleRef::Empty => true,
        VisibleRef::Dirty(id) => id < cfg.max_write,
        VisibleRef::Clean(id) => id < cfg.max_cache,
    }
}

pub open spec fn dirty_record_ok(r: DirtyRecord, cfg: ModelConfig) -> bool {
    !r.present || match r.id {
        Some(id) => id < cfg.max_write && r.key < cfg.key_count && r.value < cfg.value_count,
        None => false,
    }
}

pub open spec fn clean_record_ok(r: CleanRecord, cfg: ModelConfig) -> bool {
    !r.present || match r.id {
        Some(id) => id < cfg.max_cache && r.key < cfg.key_count && r.value < cfg.value_count,
        None => false,
    }
}

pub open spec fn durable_value_ok(v: DurableValue, cfg: ModelConfig) -> bool {
    !v.present || match v.seq {
        Some(seq) => seq < cfg.max_write && v.value < cfg.value_count,
        None => false,
    }
}

/// Every vector has the length the configuration gives it and every field is in range.
pub open spec fn shape_ok(s: ModelStateView, cfg: ModelConfig) -> bool {
    &&& s.visible.len() == cfg.key_count
    &&& s.write_store.len() == cfg.max_write
    &&& s.write_hist.len() == cfg.max_write
    &&& s.cache_store.len() == cfg.max_cache
    &&& s.durable.len() == cfg.key_count
    &&& s.created_dirty.len() == cfg.max_write
    &&& s.next_write <= cfg.max_write
    &&& s.next_cache <= cfg.max_cache
    &&& forall|i: int| 0 <= i < s.visible.len() ==> visible_ref_ok(#[trigger] s.visible[i], cfg)
    &&& forall|i: int|
        0 <= i < s.write_store.len() ==> dirty_record_ok(#[trigger] s.write_store[i], cfg)
    &&& forall|i: int|
        0 <= i < s.write_hist.len() ==> dirty_record_ok(#[trigger] s.write_hist[i], cfg)
    &&& forall|i: int|
        0 <= i < s.cache_store.len() ==> clean_record_ok(#[trigger] s.cache_store[i], cfg)
    &&& forall|i: int| 0 <= i < s.durable.len() ==> durable_value_ok(#[trigger] s.durable[i], cfg)
    &&& forall|i: int| 0 <= i < s.dirty_q.len() ==> #[trigger] s.dirty_q[i] < cfg.max_write
    &&& forall|i: int| 0 <= i < s.flushed.len() ==> #[trigger] s.flushed[i] < cfg.max_write
}

/// A dirty visible ref names a live dirty record of the same key.
pub open spec fn dirty_refs_live(s: ModelStateView, cfg: ModelConfig) -> bool {
    forall|k: int|
        0 <= k < s.visible.len() ==> match #[trigger] s.visible[k] {
            VisibleRef::Dirty(id) => {
                &&& id < cfg.max_write
                &&& s.write_store[id as int].present
                &&& s.write_store[id as int].id == Some(id)
                &&& s.write_store[id as int].key == k
            },
            _ => true,
        }
}

/// A clean visible ref whose record is still present names a record of the same key.
pub open spec fn clean_refs_key_consistent(s: ModelStateView, cfg: ModelConfig) -> bool {
    forall|k: int|
        0 <= k < s.visible.len() ==> match #[trigger] s.visible[k] {
            VisibleRef::Clean(id) => id < cfg.max_cache && s.cache_store[id as int].present
                ==> s.cache_store[id as int].key == k,
            _ => true,
        }
}

pub open spec fn strictly_increasing(q: Seq<usize>) -> bool {
    forall|i: int, j: int| 0 <= i < j < q.len() ==> q[i] < q[j]
}

pub open spec fn dirty_q_ordered(s: ModelStateView) -> bool {
    strictly_increasing(s.dirty_q)
}

pub open spec fn flushed_ordered(s: ModelStateView) -> bool {
    strictly_increasing(s.flushed)
}

/// Every flushed id is below every queued id.
pub open spec fn queued_after_flushed(s: ModelStateView) -> bool {
    forall|i: int, j: int|
        0 <= i < s.flushed.len() && 0 <= j < s.dirty_q.len() ==> s.flushed[i] < s.dirty_q[j]
}

pub open spec fn all_ids_lt_next_write(s: ModelStateView) -> bool {
    &&& forall|i: int| 0 <= i < s.dirty_q.len() ==> #[trigger] s.dirty_q[i] < s.next_write
    &&& forall|i: int| 0 <= i < s.flushed.len() ==> #[trigger] s.flushed[i] < s.next_write
}

/// The durable store that replaying the flushed writes in order produces.
pub open spec fn apply_flushed(cfg: ModelConfig, flushed: Seq<WriteId>, hist: Seq<DirtyRecord>) -> Seq<
    DurableValue,
>
    decreases flushed.len(),
{
    if flushed.len() == 0 {
        Seq::new(cfg.key_count as nat, |i: int| absent_durable())
    } else {
        let prev = apply_flushed(cfg, flushed.drop_last(), hist);
        let id = flushed.last();
        if id < hist.len() && hist[id as int].present {
            prev.update(
                hist[id as int].key as int,
                DurableValue { present: true, value: hist[id as int].value, seq: Some(id) },
            )
        } else {
            prev
        }
    }
}

/// Replaying a prefix of `flushed` only indexes keys within the configuration.
pub open spec fn flushed_keys_in_range(cfg: ModelConfig, flushed: Seq<WriteId>, hist: Seq<DirtyRecord>) -> bool {
    forall|i: int|
        0 <= i < flushed.len() && #[trigger] flushed[i] < hist.len() && hist[flushed[i] as int].present
            ==> hist[flushed[i] as int].key < cfg.key_count
}

pub open spec fn durable_matches_flushed(s: ModelStateView, cfg: ModelConfig) -> bool {
    s.durable == apply_flushed(cfg, s.flushed, s.write_hist)
}

/// Unless the system crashed, every created write is queued, flushed, visible or still stored.
pub open spec fn no_lost_dirty(s: ModelStateView) -> bool {
    s.crashed || forall|id: int|
        0 <= id < s.created_dirty.len() && #[trigger] s.created_dirty[id] ==> {
            ||| s.dirty_q.contains(id as usize)
            ||| s.flushed.contains(id as usize)
            ||| s.visible.contains(VisibleRef::Dirty(id as usize))
            ||| s.write_store[id].present
        }
}

pub open spec fn no_bad_read(s: ModelStateView) -> bool {
    !s.bad_read
}

/// The invariant of the strict-log mode.
pub open spec fn inv(s: ModelStateView, cfg: ModelConfig) -> bool {
    &&& shape_ok(s, cfg)
    &&& dirty_refs_live(s, cfg)
    &&& clean_refs_key_consistent(s, cfg)
    &&& dirty_q_ordered(s)
    &&& flushed_ordered(s)
    &&& queued_after_flushed(s)
    &&& all_ids_lt_next_write(s)
    &&& no_lost_dirty(s)
    &&& no_bad_read(s)
    &&& durable_matches_flushed(s, cfg)
}

/// The invariant of the coalesced-map mode, which does not order the queues.
pub open spec fn inv_coalesced(s: ModelStateView, cfg: ModelConfig) -> bool {
    &&& shape_ok(s, cfg)
    &&& dirty_refs_live(s, cfg)
    &&& clean_refs_key_consistent(s, cfg)
    &&& all_ids_lt_next_write(s)
    &&& no_lost_dirty(s)
    &&& no_bad_read(s)
    &&& durable_matches_flushed(s, cfg)
}

pub open spec fn inv_for_mode(s: ModelStateView, cfg: ModelConfig, mode: InvariantMode) -> bool {
    match mode {
        InvariantMode::StrictLog => inv(s, cfg),
        InvariantMode::CoalescedMap => inv_coalesced(s, cfg),
    }
}

/// The names of the violated invariants, in the order in which a check reports them.
pub open spec fn expected_failures(s: ModelStateView, cfg: ModelConfig, mode: InvariantMode) -> Seq<
    &'static str,
> {
    let a = if shape_ok(s, cfg) { Seq::empty() } else { seq!["TypeOK"] };
    let b = if dirty_refs_live(s, cfg) { a } else { a.push("DirtyRefsLive") };
    let c = if clean_refs_key_consistent(s, cfg) { b } else { b.push("CleanRefsKeyConsistent") };
    let d = match mode {
        InvariantMode::StrictLog => {
            let d1 = if dirty_q_ordered(s) { c } else { c.push("DirtyQOrdered") };
            let d2 = if flushed_ordered(s) { d1 } else { d1.push("FlushedOrdered") };
            let d3 = if queued_after_flushed(s) { d2 } else { d2.push("QueuedAfterFlushed") };
            if all_ids_lt_next_write(s) { d3 } else { d3.push("AllIdsLtNextWrite") }
        },
        InvariantMode::CoalescedMap => {
            if all_ids_lt_next_write(s) { c } else { c.push("AllIdsLtNextWrite") }
        },
    };
    let e = if durable_matches_flushed(s, cfg) { d } else { d.push("DurableMatchesFlushed") };
    let f = if no_lost_dirty(s) { e } else { e.push("NoLostDirty") };
    if no_bad_read(s) { f } else { f.push("NoBadRead") }
}

// ---------------------------------------------------------------------------
// What the checks and steps index
// ---------------------------------------------------------------------------

/// Every in-range dirty ref can be looked up in the write store.
pub open spec fn dirty_refs_indexable(s: ModelStateView, cfg: ModelConfig) -> bool {
    forall|k: int|
        0 <= k < s.visible.len() ==> match #[trigger] s.visible[k] {
            VisibleRef::Dirty(id) => id < cfg.max_write ==> id < s.write_store.len(),
            _ => true,
        }
}

/// Every in-range clean ref can be looked up in the cache store.
pub open spec fn clean_refs_indexable(s: ModelStateView, cfg: ModelConfig) -> bool {
    forall|k: int|
        0 <= k < s.visible.len() ==> match #[trigger] s.visible[k] {
            VisibleRef::Clean(id) => id < cfg.max_cache ==> id < s.cache_store.len(),
            _ => true,
        }
}

/// The lost-write check can look up the write store wherever it needs to.
pub open spec fn lost_dirty_indexable(s: ModelStateView) -> bool {
    !s.crashed ==> forall|id: int|
        0 <= id < s.created_dirty.len() && #[trigger] s.created_dirty[id] && !s.dirty_q.contains(
            id as usize,
        ) && !s.flushed.contains(id as usize) && !s.visible.contains(VisibleRef::Dirty(id as usize))
            ==> id < s.write_store.len()
}

/// Every check of the invariant can run on `s` without an out-of-range index.
pub open spec fn checkable(s: ModelStateView, cfg: ModelConfig) -> bool {
    &&& dirty_refs_indexable(s, cfg)
    &&& clean_refs_indexable(s, cfg)
    &&& lost_dirty_indexable(s)
    &&& flushed_keys_in_range(cfg, s.flushed, s.write_hist)
}

/// `writer_write` can index every slot it writes.
pub open spec fn writer_write_safe(s: ModelStateView, cfg: ModelConfig, key: KeyId, value: ValueId) -> bool {
    key < cfg.key_count && value < cfg.value_count && !s.crashed && s.next_write < cfg.max_write
        ==> {
        &&& s.next_write < s.write_store.len()
        &&& s.next_write < s.write_hist.len()
        &&& s.next_write < s.created_dirty.len()
        &&& key < s.visible.len()
    }
}

/// `flusher_flush_next` can index the head of the queue and its key.
pub open spec fn flush_next_safe(s: ModelStateView, cfg: ModelConfig) -> bool {
    !s.crashed && s.dirty_q.len() > 0 && s.dirty_q[0] < cfg.max_write ==> {
        &&& s.dirty_q[0] < s.write_hist.len()
        &&& s.write_hist[s.dirty_q[0] as int].present ==> s.write_hist[s.dirty_q[0] as int].key
            < s.durable.len()
    }
}

/// `flusher_drop` can index the dropped write.
pub open spec fn flusher_drop_safe(s: ModelStateView, cfg: ModelConfig, id: WriteId) -> bool {
    id < cfg.max_write && !s.crashed && s.flushed.contains(id) ==> id < s.write_store.len()
}

/// `cache_insert` can index the key and the next cache slot.
pub open spec fn cache_insert_safe(s: ModelStateView, cfg: ModelConfig, key: KeyId) -> bool {
    key < cfg.key_count && !s.crashed && s.next_cache < cfg.max_cache ==> {
        &&& key < s.durable.len()
        &&& s.durable[key as int].present ==> {
            &&& key < s.visible.len()
            &&& s.visible[key as int] == VisibleRef::Empty ==> s.next_cache < s.cache_store.len()
        }
    }
}

/// `cache_drop_record` and `cache_cleanup_visible` can index the cache slot.
pub open spec fn cache_slot_safe(s: ModelStateView, cfg: ModelConfig, id: CacheId) -> bool {
    id < cfg.max_cache && !s.crashed ==> id < s.cache_store.len()
}

/// `reader_step` can index the key and the record its ref names.
pub open spec fn reader_step_safe(s: ModelStateView, cfg: ModelConfig, key: KeyId) -> bool {
    key < cfg.key_count && !s.crashed ==> {
        &&& key < s.visible.len()
        &&& match s.visible[key as int] {
            VisibleRef::Dirty(id) => id < cfg.max_write ==> id < s.write_store.len(),
            VisibleRef::Clean(id) => id < cfg.max_cache ==> id < s.cache_store.len(),
            VisibleRef::Empty => true,
        }
    }
}

/// The step can run on `s` without an out-of-range index.
pub open spec fn step_safe(s: ModelStateView, cfg: ModelConfig, step: ModelStep) -> bool {
    match step {
        ModelStep::WriterWrite { key, value } => writer_write_safe(s, cfg, key, value),
        ModelStep::FlusherFlushNext => flush_next_safe(s, cfg),
        ModelStep::FlusherDrop { id } => flusher_drop_safe(s, cfg, id),
        ModelStep::CacheInsert { key } => cache_insert_safe(s, cfg, key),
        ModelStep::CacheDropRecord { id } => cache_slot_safe(s, cfg, id),
        ModelStep::CacheCleanupVisible { id } => cache_slot_safe(s, cfg, id),
        ModelStep::ReaderStep { key } => reader_step_safe(s, cfg, key),
        ModelStep::Crash => true,
    }
}

// ---------------------------------------------------------------------------
// The inductive invariant of reachable states
// ---------------------------------------------------------------------------

/// Every visible ref names an id that has already been handed out.
pub open spec fn refs_below_counters(s: ModelStateView) -> bool {
    forall|k: int|
        0 <= k < s.visible.len() ==> match #[trigger] s.visible[k] {
            VisibleRef::Dirty(id) => id < s.next_write,
            VisibleRef::Clean(id) => id < s.next_cache,
            VisibleRef::Empty => true,
        }
}

/// The invariant together with every visible ref naming an id already handed out: what every
/// step keeps, and what every state reachable from the initial state satisfies.
pub open spec fn reachable_inv(s: ModelStateView, cfg: ModelConfig) -> bool {
    &&& inv(s, cfg)
    &&& refs_below_counters(s)
}

} // verus!
