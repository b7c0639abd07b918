//! Laws of the model: the invariant holds initially and every step keeps it.
use vstd::prelude::*;

use super::spec::{valid_config, spec_new, spec_writer_write, spec_flusher_flush_next, clear_refs, spec_flusher_drop, spec_cache_insert, spec_cache_drop_record, spec_cache_cleanup_visible, spec_reader_step, spec_crash, spec_apply_step, spec_run, visible_ref_ok, dirty_record_ok, clean_record_ok, durable_value_ok, shape_ok, dirty_refs_live, clean_refs_key_consistent, strictly_increasing, dirty_q_ordered, flushed_ordered, queued_after_flushed, all_ids_lt_next_write, apply_flushed, flushed_keys_in_range, durable_matches_flushed, no_lost_dirty, no_bad_read, inv, inv_coalesced, inv_for_mode, expected_failures, dirty_refs_indexable, clean_refs_indexable, lost_dirty_indexable, checkable, writer_write_safe, flush_next_safe, flusher_drop_safe, cache_insert_safe, cache_slot_safe, reader_step_safe, step_safe, refs_below_counters, reachable_inv};
use super::state::{
    absent_clean, absent_dirty, absent_durable, CacheId, DirtyRecord, DurableValue, KeyId, ModelConfig,
    InvariantMode, ModelStateView, ModelStep, ValueId, VisibleRef, WriteId,
};

verus! {

/// Replaying the flushed writes yields one durable value per key.
pub proof fn lemma_apply_flushed_len(cfg: ModelConfig, fl: Seq<WriteId>, hist: Seq<DirtyRecord>)
    requires
        flushed_keys_in_range(cfg, fl, hist),
    ensures
        apply_flushed(cfg, fl, hist).len() == cfg.key_count,
    decreases fl.len(),
{
    if fl.len() > 0 {
        assert(flushed_keys_in_range(cfg, fl.drop_last(), hist)) by {
            assert forall|i: int|
                0 <= i < fl.drop_last().len() && #[trigger] fl.drop_last()[i] < hist.len()
                    && hist[fl.drop_last()[i] as int].present implies hist[fl.drop_last()[i] as int].key
                < cfg.key_count by {
                assert(fl.drop_last()[i] == fl[i]);
            }
        }
        lemma_apply_flushed_len(cfg, fl.drop_last(), hist);
        assert(fl[fl.len() - 1] == fl.last());
    }
}

/// Changing a history slot that was never flushed does not change the replay.
pub proof fn lemma_apply_flushed_unflushed_update(
    cfg: ModelConfig,
    fl: Seq<WriteId>,
    hist: Seq<DirtyRecord>,
    x: int,
    r: DirtyRecord,
)
    requires
        0 <= x < hist.len(),
        forall|i: int| 0 <= i < fl.len() ==> fl[i] != x,
    ensures
        apply_flushed(cfg, fl, hist.update(x, r)) == apply_flushed(cfg, fl, hist),
    decreases fl.len(),
{
    if fl.len() > 0 {
        assert forall|i: int| 0 <= i < fl.drop_last().len() implies fl.drop_last()[i] != x by {
            assert(fl.drop_last()[i] == fl[i]);
        }
        lemma_apply_flushed_unflushed_update(cfg, fl.drop_last(), hist, x, r);
        assert(fl.last() == fl[fl.len() - 1]);
    }
}

/// Every state that satisfies the inductive invariant can be checked without panicking.
pub proof fn lemma_reachable_checkable(s: ModelStateView, cfg: ModelConfig)
    requires
        reachable_inv(s, cfg),
    ensures
        checkable(s, cfg),
{
    assert(flushed_keys_in_range(cfg, s.flushed, s.write_hist)) by {
        assert forall|i: int|
            0 <= i < s.flushed.len() && #[trigger] s.flushed[i] < s.write_hist.len()
                && s.write_hist[s.flushed[i] as int].present implies s.write_hist[s.flushed[i] as int].key
            < cfg.key_count by {
            assert(dirty_record_ok(s.write_hist[s.flushed[i] as int], cfg));
        }
    }
    assert(dirty_refs_indexable(s, cfg)) by {
        assert forall|k: int| 0 <= k < s.visible.len() implies match #[trigger] s.visible[k] {
            VisibleRef::Dirty(id) => id < cfg.max_write ==> id < s.write_store.len(),
            _ => true,
        } by {}
    }
    assert(clean_refs_indexable(s, cfg)) by {
        assert forall|k: int| 0 <= k < s.visible.len() implies match #[trigger] s.visible[k] {
            VisibleRef::Clean(id) => id < cfg.max_cache ==> id < s.cache_store.len(),
            _ => true,
        } by {}
    }
}

/// Every step can run without an out-of-range index on a state that satisfies the inductive
/// invariant.
pub proof fn lemma_reachable_step_safe(s: ModelStateView, cfg: ModelConfig, step: ModelStep)
    requires
        reachable_inv(s, cfg),
    ensures
        step_safe(s, cfg, step),
{
    match step {
        ModelStep::FlusherFlushNext => {
            if !s.crashed && s.dirty_q.len() > 0 && s.dirty_q[0] < cfg.max_write {
                assert(dirty_record_ok(s.write_hist[s.dirty_q[0] as int], cfg));
            }
        },
        ModelStep::CacheInsert { key } => {},
        ModelStep::ReaderStep { key } => {
            if key < cfg.key_count && !s.crashed {
                assert(visible_ref_ok(s.visible[key as int], cfg));
            }
        },
        _ => {},
    }
}

/// The initial state satisfies the inductive invariant.
pub proof fn lemma_init_reachable(cfg: ModelConfig)
    requires
        valid_config(cfg),
    ensures
        reachable_inv(spec_new(cfg), cfg),
{
    let s = spec_new(cfg);
    assert(s.durable =~= apply_flushed(cfg, s.flushed, s.write_hist));
    assert(strictly_increasing(s.dirty_q));
    assert(strictly_increasing(s.flushed));
}

/// A writer write keeps the inductive invariant.
pub proof fn lemma_writer_write_preserves(s: ModelStateView, cfg: ModelConfig, key: KeyId, value: ValueId)
    requires
        valid_config(cfg),
        reachable_inv(s, cfg),
    ensures
        reachable_inv(spec_writer_write(s, cfg, key, value).0, cfg),
{
    if key >= cfg.key_count || value >= cfg.value_count || s.crashed || s.next_write >= cfg.max_write {
        return;
    }
    let t = spec_writer_write(s, cfg, key, value).0;
    let id = s.next_write;
    let record = DirtyRecord { present: true, id: Some(id), key, value };
    // shape
    assert forall|i: int| 0 <= i < t.visible.len() implies visible_ref_ok(#[trigger] t.visible[i], cfg) by {
        if i != key as int {
            assert(t.visible[i] == s.visible[i]);
        }
    }
    assert forall|i: int| 0 <= i < t.write_store.len() implies dirty_record_ok(#[trigger] t.write_store[i], cfg) by {
        if i != id as int {
            assert(t.write_store[i] == s.write_store[i]);
        }
    }
    assert forall|i: int| 0 <= i < t.write_hist.len() implies dirty_record_ok(#[trigger] t.write_hist[i], cfg) by {
        if i != id as int {
            assert(t.write_hist[i] == s.write_hist[i]);
        }
    }
    assert forall|i: int| 0 <= i < t.dirty_q.len() implies #[trigger] t.dirty_q[i] < cfg.max_write by {
        if i < s.dirty_q.len() {
            assert(t.dirty_q[i] == s.dirty_q[i]);
        }
    }
    assert(shape_ok(t, cfg));
    // dirty refs
    assert forall|k: int| 0 <= k < t.visible.len() implies match #[trigger] t.visible[k] {
        VisibleRef::Dirty(d) => {
            &&& d < cfg.max_write
            &&& t.write_store[d as int].present
            &&& t.write_store[d as int].id == Some(d)
            &&& t.write_store[d as int].key == k
        },
        _ => true,
    } by {
        if k != key as int {
            assert(t.visible[k] == s.visible[k]);
            match s.visible[k] {
                VisibleRef::Dirty(d) => {
                    assert(d < s.next_write);
                    assert(t.write_store[d as int] == s.write_store[d as int]);
                },
                _ => {},
            }
        }
    }
    assert forall|k: int| 0 <= k < t.visible.len() implies match #[trigger] t.visible[k] {
        VisibleRef::Clean(c) => c < cfg.max_cache && t.cache_store[c as int].present
            ==> t.cache_store[c as int].key == k,
        _ => true,
    } by {
        if k != key as int {
            assert(t.visible[k] == s.visible[k]);
        }
    }
    assert(clean_refs_key_consistent(t, cfg));
    // ordering
    assert forall|i: int, j: int| 0 <= i < j < t.dirty_q.len() implies t.dirty_q[i] < t.dirty_q[j] by {
        assert(t.dirty_q[i] == s.dirty_q[i]);
        if j < s.dirty_q.len() {
            assert(t.dirty_q[j] == s.dirty_q[j]);
        } else {
            assert(s.dirty_q[i] < s.next_write);
        }
    }
    assert(dirty_q_ordered(t));
    assert forall|i: int, j: int|
        0 <= i < t.flushed.len() && 0 <= j < t.dirty_q.len() implies t.flushed[i] < t.dirty_q[j] by {
        if j < s.dirty_q.len() {
            assert(t.dirty_q[j] == s.dirty_q[j]);
        } else {
            assert(s.flushed[i] < s.next_write);
        }
    }
    assert forall|i: int| 0 <= i < t.dirty_q.len() implies #[trigger] t.dirty_q[i] < t.next_write by {
        if i < s.dirty_q.len() {
            assert(t.dirty_q[i] == s.dirty_q[i]);
        }
    }
    assert forall|i: int| 0 <= i < t.flushed.len() implies #[trigger] t.flushed[i] < t.next_write by {
        assert(s.flushed[i] < s.next_write);
    }
    assert(all_ids_lt_next_write(t));
    // durable
    assert forall|i: int| 0 <= i < s.flushed.len() implies s.flushed[i] != id as int by {
        assert(s.flushed[i] < s.next_write);
    }
    lemma_apply_flushed_unflushed_update(cfg, s.flushed, s.write_hist, id as int, record);
    assert(no_lost_dirty(t)) by {
        assert forall|c: int| 0 <= c < t.created_dirty.len() && #[trigger] t.created_dirty[c] implies {
            ||| t.dirty_q.contains(c as usize)
            ||| t.flushed.contains(c as usize)
            ||| t.visible.contains(VisibleRef::Dirty(c as usize))
            ||| t.write_store[c].present
        } by {
            if c == id as int {
                assert(t.dirty_q[s.dirty_q.len() as int] == id);
            } else {
                assert(s.created_dirty[c]);
                assert(t.write_store[c] == s.write_store[c]);
                if s.dirty_q.contains(c as usize) {
                    let w = choose|w: int| 0 <= w < s.dirty_q.len() && s.dirty_q[w] == c as usize;
                    assert(t.dirty_q[w] == c as usize);
                } else if s.visible.contains(VisibleRef::Dirty(c as usize)) {
                    let k = choose|k: int| 0 <= k < s.visible.len() && s.visible[k] == VisibleRef::Dirty(c as usize);
                    if k != key as int {
                        assert(t.visible[k] == s.visible[k]);
                    } else {
                        assert(s.write_store[c].present);
                    }
                }
            }
        }
    }
    assert forall|k: int| 0 <= k < t.visible.len() implies match #[trigger] t.visible[k] {
        VisibleRef::Dirty(d) => d < t.next_write,
        VisibleRef::Clean(c) => c < t.next_cache,
        VisibleRef::Empty => true,
    } by {
        if k != key as int {
            assert(t.visible[k] == s.visible[k]);
        }
    }
}

/// Flushing the head of the queue keeps the inductive invariant.
pub proof fn lemma_flusher_flush_next_preserves(s: ModelStateView, cfg: ModelConfig)
    requires
        valid_config(cfg),
        reachable_inv(s, cfg),
    ensures
        reachable_inv(spec_flusher_flush_next(s, cfg).0, cfg),
{
    if s.crashed || s.dirty_q.len() == 0 {
        return;
    }
    let id = s.dirty_q[0];
    if id >= cfg.max_write || !s.write_hist[id as int].present {
        return;
    }
    let t = spec_flusher_flush_next(s, cfg).0;
    let r = s.write_hist[id as int];
    assert(dirty_record_ok(r, cfg));
    let dv = DurableValue { present: true, value: r.value, seq: Some(id) };
    assert(t.durable == s.durable.update(r.key as int, dv));
    assert(t.flushed == s.flushed.push(id));
    assert(t.dirty_q == s.dirty_q.drop_first());
    // shape
    assert forall|i: int| 0 <= i < t.durable.len() implies durable_value_ok(#[trigger] t.durable[i], cfg) by {
        if i != r.key as int {
            assert(t.durable[i] == s.durable[i]);
        }
    }
    assert forall|i: int| 0 <= i < t.dirty_q.len() implies #[trigger] t.dirty_q[i] < cfg.max_write by {
        assert(t.dirty_q[i] == s.dirty_q[i + 1]);
    }
    assert forall|i: int| 0 <= i < t.flushed.len() implies #[trigger] t.flushed[i] < cfg.max_write by {
        if i < s.flushed.len() {
            assert(t.flushed[i] == s.flushed[i]);
        }
    }
    assert(shape_ok(t, cfg));
    // ordering
    assert forall|i: int, j: int| 0 <= i < j < t.dirty_q.len() implies t.dirty_q[i] < t.dirty_q[j] by {
        assert(t.dirty_q[i] == s.dirty_q[i + 1]);
        assert(t.dirty_q[j] == s.dirty_q[j + 1]);
    }
    assert(dirty_q_ordered(t));
    assert forall|i: int, j: int| 0 <= i < j < t.flushed.len() implies t.flushed[i] < t.flushed[j] by {
        assert(t.flushed[i] == s.flushed[i]);
        if j < s.flushed.len() {
            assert(t.flushed[j] == s.flushed[j]);
        } else {
            assert(s.flushed[i] < s.dirty_q[0]);
        }
    }
    assert(flushed_ordered(t));
    assert forall|i: int, j: int|
        0 <= i < t.flushed.len() && 0 <= j < t.dirty_q.len() implies t.flushed[i] < t.dirty_q[j] by {
        assert(t.dirty_q[j] == s.dirty_q[j + 1]);
        if i < s.flushed.len() {
            assert(t.flushed[i] == s.flushed[i]);
        } else {
            assert(s.dirty_q[0] < s.dirty_q[j + 1]);
        }
    }
    assert(queued_after_flushed(t));
    assert forall|i: int| 0 <= i < t.dirty_q.len() implies #[trigger] t.dirty_q[i] < t.next_write by {
        assert(t.dirty_q[i] == s.dirty_q[i + 1]);
    }
    assert forall|i: int| 0 <= i < t.flushed.len() implies #[trigger] t.flushed[i] < t.next_write by {
        if i < s.flushed.len() {
            assert(t.flushed[i] == s.flushed[i]);
        }
    }
    assert(all_ids_lt_next_write(t));
    // durable
    assert(t.flushed.drop_last() =~= s.flushed);
    assert(t.flushed.last() == id);
    assert(t.durable == apply_flushed(cfg, t.flushed, t.write_hist));
    assert(no_lost_dirty(t)) by {
        assert forall|c: int| 0 <= c < t.created_dirty.len() && #[trigger] t.created_dirty[c] implies {
            ||| t.dirty_q.contains(c as usize)
            ||| t.flushed.contains(c as usize)
            ||| t.visible.contains(VisibleRef::Dirty(c as usize))
            ||| t.write_store[c].present
        } by {
            assert(s.created_dirty[c]);
            if s.dirty_q.contains(c as usize) {
                let w = choose|w: int| 0 <= w < s.dirty_q.len() && s.dirty_q[w] == c as usize;
                if w == 0 {
                    assert(t.flushed[s.flushed.len() as int] == c as usize);
                } else {
                    assert(t.dirty_q[w - 1] == c as usize);
                }
            } else if s.flushed.contains(c as usize) {
                let w = choose|w: int| 0 <= w < s.flushed.len() && s.flushed[w] == c as usize;
                assert(t.flushed[w] == c as usize);
            }
        }
    }
}

/// Dropping a flushed dirty record keeps the inductive invariant.
pub proof fn lemma_flusher_drop_preserves(s: ModelStateView, cfg: ModelConfig, id: WriteId)
    requires
        valid_config(cfg),
        reachable_inv(s, cfg),
    ensures
        reachable_inv(spec_flusher_drop(s, cfg, id).0, cfg),
{
    if id >= cfg.max_write || s.crashed || !(s.flushed.contains(id) && s.write_store[id as int].present) {
        return;
    }
    let t = spec_flusher_drop(s, cfg, id).0;
    let from = VisibleRef::Dirty(id);
    assert forall|k: int| 0 <= k < t.visible.len() implies #[trigger] t.visible[k] == (if s.visible[k] == from { VisibleRef::Empty } else { s.visible[k] }) by {}
    assert forall|i: int| 0 <= i < t.visible.len() implies visible_ref_ok(#[trigger] t.visible[i], cfg) by {
        assert(visible_ref_ok(s.visible[i], cfg));
    }
    assert forall|i: int| 0 <= i < t.write_store.len() implies dirty_record_ok(#[trigger] t.write_store[i], cfg) by {
        if i != id as int {
            assert(t.write_store[i] == s.write_store[i]);
        }
    }
    assert(shape_ok(t, cfg));
    assert forall|k: int| 0 <= k < t.visible.len() implies match #[trigger] t.visible[k] {
        VisibleRef::Dirty(d) => {
            &&& d < cfg.max_write
            &&& t.write_store[d as int].present
            &&& t.write_store[d as int].id == Some(d)
            &&& t.write_store[d as int].key == k
        },
        _ => true,
    } by {
        match s.visible[k] {
            VisibleRef::Dirty(d) => {
                if d != id {
                    assert(t.write_store[d as int] == s.write_store[d as int]);
                }
            },
            _ => {},
        }
    }
    assert(dirty_refs_live(t, cfg));
    assert forall|k: int| 0 <= k < t.visible.len() implies match #[trigger] t.visible[k] {
        VisibleRef::Clean(c) => c < cfg.max_cache && t.cache_store[c as int].present
            ==> t.cache_store[c as int].key == k,
        _ => true,
    } by {
        assert(match s.visible[k] {
            VisibleRef::Clean(c) => c < cfg.max_cache && s.cache_store[c as int].present
                ==> s.cache_store[c as int].key == k,
            _ => true,
        });
    }
    assert(clean_refs_key_consistent(t, cfg));
    assert forall|k: int| 0 <= k < t.visible.len() implies match #[trigger] t.visible[k] {
        VisibleRef::Dirty(d) => d < t.next_write,
        VisibleRef::Clean(c) => c < t.next_cache,
        VisibleRef::Empty => true,
    } by {
        assert(match s.visible[k] {
            VisibleRef::Dirty(d) => d < s.next_write,
            VisibleRef::Clean(c) => c < s.next_cache,
            VisibleRef::Empty => true,
        });
    }
    assert(refs_below_counters(t));
    assert(no_lost_dirty(t)) by {
        assert forall|c: int| 0 <= c < t.created_dirty.len() && #[trigger] t.created_dirty[c] implies {
            ||| t.dirty_q.contains(c as usize)
            ||| t.flushed.contains(c as usize)
            ||| t.visible.contains(VisibleRef::Dirty(c as usize))
            ||| t.write_store[c].present
        } by {
            assert(s.created_dirty[c]);
        }
    }
    assert(t.durable == apply_flushed(cfg, t.flushed, t.write_hist));
}

/// Installing a clean entry keeps the inductive invariant.
pub proof fn lemma_cache_insert_preserves(s: ModelStateView, cfg: ModelConfig, key: KeyId)
    requires
        valid_config(cfg),
        reachable_inv(s, cfg),
    ensures
        reachable_inv(spec_cache_insert(s, cfg, key).0, cfg),
{
    if key >= cfg.key_count || s.crashed || s.next_cache >= cfg.max_cache {
        return;
    }
    if !(s.durable[key as int].present && s.visible[key as int] == VisibleRef::Empty) {
        return;
    }
    let t = spec_cache_insert(s, cfg, key).0;
    let id = s.next_cache;
    assert(durable_value_ok(s.durable[key as int], cfg));
    assert forall|i: int| 0 <= i < t.visible.len() implies visible_ref_ok(#[trigger] t.visible[i], cfg) by {
        if i != key as int {
            assert(t.visible[i] == s.visible[i]);
        }
    }
    assert forall|i: int| 0 <= i < t.cache_store.len() implies clean_record_ok(#[trigger] t.cache_store[i], cfg) by {
        if i != id as int {
            assert(t.cache_store[i] == s.cache_store[i]);
        }
    }
    assert(shape_ok(t, cfg));
    assert forall|k: int| 0 <= k < t.visible.len() implies match #[trigger] t.visible[k] {
        VisibleRef::Dirty(d) => {
            &&& d < cfg.max_write
            &&& t.write_store[d as int].present
            &&& t.write_store[d as int].id == Some(d)
            &&& t.write_store[d as int].key == k
        },
        _ => true,
    } by {
        if k != key as int {
            assert(t.visible[k] == s.visible[k]);
        }
    }
    assert(dirty_refs_live(t, cfg));
    assert forall|k: int| 0 <= k < t.visible.len() implies match #[trigger] t.visible[k] {
        VisibleRef::Clean(c) => c < cfg.max_cache && t.cache_store[c as int].present
            ==> t.cache_store[c as int].key == k,
        _ => true,
    } by {
        if k != key as int {
            assert(t.visible[k] == s.visible[k]);
            match s.visible[k] {
                VisibleRef::Clean(c) => {
                    assert(c < s.next_cache);
                    assert(t.cache_store[c as int] == s.cache_store[c as int]);
                },
                _ => {},
            }
        }
    }
    assert(clean_refs_key_consistent(t, cfg));
    assert forall|k: int| 0 <= k < t.visible.len() implies match #[trigger] t.visible[k] {
        VisibleRef::Dirty(d) => d < t.next_write,
        VisibleRef::Clean(c) => c < t.next_cache,
        VisibleRef::Empty => true,
    } by {
        if k != key as int {
            assert(t.visible[k] == s.visible[k]);
        }
    }
    assert(refs_below_counters(t));
    assert(no_lost_dirty(t)) by {
        assert forall|c: int| 0 <= c < t.created_dirty.len() && #[trigger] t.created_dirty[c] implies {
            ||| t.dirty_q.contains(c as usize)
            ||| t.flushed.contains(c as usize)
            ||| t.visible.contains(VisibleRef::Dirty(c as usize))
            ||| t.write_store[c].present
        } by {
            assert(s.created_dirty[c]);
        }
    }
}

/// Dropping a clean record keeps the inductive invariant.
pub proof fn lemma_cache_drop_record_preserves(s: ModelStateView, cfg: ModelConfig, id: CacheId)
    requires
        valid_config(cfg),
        reachable_inv(s, cfg),
    ensures
        reachable_inv(spec_cache_drop_record(s, cfg, id).0, cfg),
{
    if id >= cfg.max_cache || s.crashed || !s.cache_store[id as int].present {
        return;
    }
    let t = spec_cache_drop_record(s, cfg, id).0;
    assert forall|i: int| 0 <= i < t.cache_store.len() implies clean_record_ok(#[trigger] t.cache_store[i], cfg) by {
        if i != id as int {
            assert(t.cache_store[i] == s.cache_store[i]);
        }
    }
    assert(shape_ok(t, cfg));
    assert forall|k: int| 0 <= k < t.visible.len() implies match #[trigger] t.visible[k] {
        VisibleRef::Clean(c) => c < cfg.max_cache && t.cache_store[c as int].present
            ==> t.cache_store[c as int].key == k,
        _ => true,
    } by {
        match s.visible[k] {
            VisibleRef::Clean(c) => {
                if c != id {
                    assert(t.cache_store[c as int] == s.cache_store[c as int]);
                }
            },
            _ => {},
        }
    }
    assert(clean_refs_key_consistent(t, cfg));
}

/// Clearing refs to a dropped clean record keeps the inductive invariant.
pub proof fn lemma_cache_cleanup_visible_preserves(s: ModelStateView, cfg: ModelConfig, id: CacheId)
    requires
        valid_config(cfg),
        reachable_inv(s, cfg),
    ensures
        reachable_inv(spec_cache_cleanup_visible(s, cfg, id).0, cfg),
{
    if id >= cfg.max_cache || s.crashed || s.cache_store[id as int].present {
        return;
    }
    let t = spec_cache_cleanup_visible(s, cfg, id).0;
    let from = VisibleRef::Clean(id);
    assert forall|k: int| 0 <= k < t.visible.len() implies #[trigger] t.visible[k] == (if s.visible[k] == from { VisibleRef::Empty } else { s.visible[k] }) by {}
    assert forall|i: int| 0 <= i < t.visible.len() implies visible_ref_ok(#[trigger] t.visible[i], cfg) by {
        assert(visible_ref_ok(s.visible[i], cfg));
    }
    assert(shape_ok(t, cfg));
    assert forall|k: int| 0 <= k < t.visible.len() implies match #[trigger] t.visible[k] {
        VisibleRef::Dirty(d) => {
            &&& d < cfg.max_write
            &&& t.write_store[d as int].present
            &&& t.write_store[d as int].id == Some(d)
            &&& t.write_store[d as int].key == k
        },
        _ => true,
    } by {
        assert(match s.visible[k] {
            VisibleRef::Dirty(d) => {
                &&& d < cfg.max_write
                &&& s.write_store[d as int].present
                &&& s.write_store[d as int].id == Some(d)
                &&& s.write_store[d as int].key == k
            },
            _ => true,
        });
    }
    assert(dirty_refs_live(t, cfg));
    assert forall|k: int| 0 <= k < t.visible.len() implies match #[trigger] t.visible[k] {
        VisibleRef::Clean(c) => c < cfg.max_cache && t.cache_store[c as int].present
            ==> t.cache_store[c as int].key == k,
        _ => true,
    } by {
        assert(match s.visible[k] {
            VisibleRef::Clean(c) => c < cfg.max_cache && s.cache_store[c as int].present
                ==> s.cache_store[c as int].key == k,
            _ => true,
        });
    }
    assert(clean_refs_key_consistent(t, cfg));
    assert forall|k: int| 0 <= k < t.visible.len() implies match #[trigger] t.visible[k] {
        VisibleRef::Dirty(d) => d < t.next_write,
        VisibleRef::Clean(c) => c < t.next_cache,
        VisibleRef::Empty => true,
    } by {
        assert(match s.visible[k] {
            VisibleRef::Dirty(d) => d < s.next_write,
            VisibleRef::Clean(c) => c < s.next_cache,
            VisibleRef::Empty => true,
        });
    }
    assert(refs_below_counters(t));
    assert(no_lost_dirty(t)) by {
        assert forall|c: int| 0 <= c < t.created_dirty.len() && #[trigger] t.created_dirty[c] implies {
            ||| t.dirty_q.contains(c as usize)
            ||| t.flushed.contains(c as usize)
            ||| t.visible.contains(VisibleRef::Dirty(c as usize))
            ||| t.write_store[c].present
        } by {
            assert(s.created_dirty[c]);
        }
    }
}

/// A reader step on a state with the inductive invariant never records a bad read.
pub proof fn lemma_reader_step_preserves(s: ModelStateView, cfg: ModelConfig, key: KeyId)
    requires
        valid_config(cfg),
        reachable_inv(s, cfg),
    ensures
        spec_reader_step(s, cfg, key).0 == s,
        reachable_inv(spec_reader_step(s, cfg, key).0, cfg),
{
    if key < cfg.key_count && !s.crashed {
        let v = s.visible[key as int];
        assert(match v {
            VisibleRef::Dirty(d) => {
                &&& d < cfg.max_write
                &&& s.write_store[d as int].present
                &&& s.write_store[d as int].id == Some(d)
                &&& s.write_store[d as int].key == key
            },
            _ => true,
        });
        assert(match v {
            VisibleRef::Clean(c) => c < cfg.max_cache && s.cache_store[c as int].present
                ==> s.cache_store[c as int].key == key,
            _ => true,
        });
        assert(visible_ref_ok(v, cfg));
    }
}

/// A crash keeps the inductive invariant.
pub proof fn lemma_crash_preserves(s: ModelStateView, cfg: ModelConfig)
    requires
        valid_config(cfg),
        reachable_inv(s, cfg),
    ensures
        reachable_inv(spec_crash(s, cfg).0, cfg),
{
    if s.crashed {
        return;
    }
    let t = spec_crash(s, cfg).0;
    assert(shape_ok(t, cfg));
    assert(dirty_q_ordered(t));
    assert(queued_after_flushed(t));
    assert(all_ids_lt_next_write(t));
    assert(dirty_refs_live(t, cfg));
    assert(clean_refs_key_consistent(t, cfg));
    assert(refs_below_counters(t));
}

/// Every step, whatever its arguments, keeps the invariant of reachable states.
pub proof fn lemma_step_preserves(s: ModelStateView, cfg: ModelConfig, step: ModelStep)
    requires
        valid_config(cfg),
        reachable_inv(s, cfg),
    ensures
        step_safe(s, cfg, step),
        reachable_inv(spec_apply_step(s, cfg, step).0, cfg),
{
    lemma_reachable_step_safe(s, cfg, step);
    match step {
        ModelStep::WriterWrite { key, value } => lemma_writer_write_preserves(s, cfg, key, value),
        ModelStep::FlusherFlushNext => lemma_flusher_flush_next_preserves(s, cfg),
        ModelStep::FlusherDrop { id } => lemma_flusher_drop_preserves(s, cfg, id),
        ModelStep::CacheInsert { key } => lemma_cache_insert_preserves(s, cfg, key),
        ModelStep::CacheDropRecord { id } => lemma_cache_drop_record_preserves(s, cfg, id),
        ModelStep::CacheCleanupVisible { id } => lemma_cache_cleanup_visible_preserves(s, cfg, id),
        ModelStep::ReaderStep { key } => lemma_reader_step_preserves(s, cfg, key),
        ModelStep::Crash => lemma_crash_preserves(s, cfg),
    }
}

/// Every state reached from the initial state by any sequence of steps satisfies the invariant,
/// can be checked, and admits every further step.
pub proof fn lemma_reachable_states_satisfy_inv(cfg: ModelConfig, steps: Seq<ModelStep>)
    requires
        valid_config(cfg),
    ensures
        reachable_inv(spec_run(spec_new(cfg), cfg, steps), cfg),
        inv(spec_run(spec_new(cfg), cfg, steps), cfg),
        checkable(spec_run(spec_new(cfg), cfg, steps), cfg),
    decreases steps.len(),
{
    if steps.len() == 0 {
        lemma_init_reachable(cfg);
    } else {
        lemma_reachable_states_satisfy_inv(cfg, steps.drop_last());
        lemma_step_preserves(spec_run(spec_new(cfg), cfg, steps.drop_last()), cfg, steps.last());
    }
    lemma_reachable_checkable(spec_run(spec_new(cfg), cfg, steps), cfg);
}

/// A check reports no failure exactly when the invariant of its mode holds.
pub proof fn lemma_report_empty_iff_inv(s: ModelStateView, cfg: ModelConfig, mode: InvariantMode)
    ensures
        (expected_failures(s, cfg, mode).len() == 0) == inv_for_mode(s, cfg, mode),
{
}

/// A step that fails leaves the state as it was.
pub proof fn lemma_failed_step_leaves_state(s: ModelStateView, cfg: ModelConfig, step: ModelStep)
    ensures
        spec_apply_step(s, cfg, step).1 is Err ==> spec_apply_step(s, cfg, step).0 == s,
{
}

/// A crash keeps the durable store, the flushed order and the write history.
pub proof fn lemma_crash_keeps_durable(s: ModelStateView, cfg: ModelConfig)
    ensures
        spec_crash(s, cfg).0.durable == s.durable,
        spec_crash(s, cfg).0.flushed == s.flushed,
        spec_crash(s, cfg).0.write_hist == s.write_hist,
        spec_crash(s, cfg).0.crashed,
{
}

/// Dropping a flushed write clears only the refs to that write: a newer dirty ref of the same
/// key stays visible.
pub proof fn lemma_flusher_drop_keeps_other_refs(s: ModelStateView, cfg: ModelConfig, id: WriteId, k: int)
    requires
        0 <= k < s.visible.len(),
        s.visible[k] != VisibleRef::Dirty(id),
    ensures
        spec_flusher_drop(s, cfg, id).0.visible[k] == s.visible[k],
{
}

/// Flushing the head of the queue makes its value the durable value of its key.
pub proof fn lemma_flush_next_makes_durable(s: ModelStateView, cfg: ModelConfig)
    requires
        valid_config(cfg),
        reachable_inv(s, cfg),
        !s.crashed,
        s.dirty_q.len() > 0,
        s.write_hist[s.dirty_q[0] as int].present,
    ensures
        ({
            let id = s.dirty_q[0];
            let r = s.write_hist[id as int];
            let t = spec_flusher_flush_next(s, cfg).0;
            &&& t.durable[r.key as int] == DurableValue { present: true, value: r.value, seq: Some(id) }
            &&& t.flushed == s.flushed.push(id)
            &&& t.dirty_q == s.dirty_q.drop_first()
        }),
{
    let id = s.dirty_q[0];
    assert(dirty_record_ok(s.write_hist[id as int], cfg));
}

/// Applying a step does what that step's own operation does on the same state and
/// configuration, and is safe to call exactly where that operation is.
pub proof fn lemma_apply_step_dispatches(
    s: ModelStateView,
    cfg: ModelConfig,
    key: KeyId,
    value: ValueId,
    write: WriteId,
    cache: CacheId,
)
    ensures
        spec_apply_step(s, cfg, ModelStep::WriterWrite { key, value }) == spec_writer_write(
            s,
            cfg,
            key,
            value,
        ),
        spec_apply_step(s, cfg, ModelStep::FlusherFlushNext) == spec_flusher_flush_next(s, cfg),
        spec_apply_step(s, cfg, ModelStep::FlusherDrop { id: write }) == spec_flusher_drop(
            s,
            cfg,
            write,
        ),
        spec_apply_step(s, cfg, ModelStep::CacheInsert { key }) == spec_cache_insert(s, cfg, key),
        spec_apply_step(s, cfg, ModelStep::CacheDropRecord { id: cache }) == spec_cache_drop_record(
            s,
            cfg,
            cache,
        ),
        spec_apply_step(s, cfg, ModelStep::CacheCleanupVisible { id: cache })
            == spec_cache_cleanup_visible(s, cfg, cache),
        spec_apply_step(s, cfg, ModelStep::ReaderStep { key }) == spec_reader_step(s, cfg, key),
        spec_apply_step(s, cfg, ModelStep::Crash) == spec_crash(s, cfg),
        step_safe(s, cfg, ModelStep::WriterWrite { key, value }) == writer_write_safe(
            s,
            cfg,
            key,
            value,
        ),
        step_safe(s, cfg, ModelStep::FlusherFlushNext) == flush_next_safe(s, cfg),
        step_safe(s, cfg, ModelStep::FlusherDrop { id: write }) == flusher_drop_safe(s, cfg, write),
        step_safe(s, cfg, ModelStep::CacheInsert { key }) == cache_insert_safe(s, cfg, key),
        step_safe(s, cfg, ModelStep::CacheDropRecord { id: cache }) == cache_slot_safe(s, cfg, cache),
        step_safe(s, cfg, ModelStep::CacheCleanupVisible { id: cache }) == cache_slot_safe(
            s,
            cfg,
            cache,
        ),
        step_safe(s, cfg, ModelStep::ReaderStep { key }) == reader_step_safe(s, cfg, key),
        step_safe(s, cfg, ModelStep::Crash),
{
}

/// A cache insertion installs a clean ref only where the key shows nothing: where it shows a
/// dirty or a clean ref, the step leaves the state as it is.
pub proof fn lemma_cache_insert_only_where_empty(s: ModelStateView, cfg: ModelConfig, key: KeyId)
    requires
        s.visible[key as int] != VisibleRef::Empty,
    ensures
        spec_apply_step(s, cfg, ModelStep::CacheInsert { key }).0 == s,
        spec_apply_step(s, cfg, ModelStep::CacheInsert { key }).0.visible[key as int]
            == s.visible[key as int],
{
}

/// No step turns a key's dirty ref into a clean one: a key showing a write keeps showing a dirty
/// ref until that ref is cleared.
pub proof fn lemma_no_step_cleans_a_dirty_ref(
    s: ModelStateView,
    cfg: ModelConfig,
    step: ModelStep,
    k: int,
)
    requires
        0 <= k < s.visible.len(),
        s.visible.len() == cfg.key_count,
        s.visible[k] is Dirty,
    ensures
        !(spec_apply_step(s, cfg, step).0.visible[k] is Clean),
{
    let t = spec_apply_step(s, cfg, step).0;
    match step {
        ModelStep::FlusherDrop { id } => {
            assert(clear_refs(s.visible, VisibleRef::Dirty(id))[k] == (if s.visible[k]
                == VisibleRef::Dirty(id) {
                VisibleRef::Empty
            } else {
                s.visible[k]
            }));
        },
        ModelStep::CacheCleanupVisible { id } => {
            assert(clear_refs(s.visible, VisibleRef::Clean(id))[k] == s.visible[k]);
        },
        _ => {},
    }
}

} // verus!
