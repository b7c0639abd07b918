//! Run-time tests of what the checks and the steps index, for states that come from outside
//! (a file, a trace) and were not built by the steps themselves.
use vstd::prelude::*;

use super::invariants::{contains_id, contains_visible_dirty};
use super::spec::{
    cache_insert_safe, cache_slot_safe, checkable, clean_refs_indexable, dirty_refs_indexable,
    flush_next_safe, flushed_keys_in_range, flusher_drop_safe, lost_dirty_indexable,
    reader_step_safe, step_safe, writer_write_safe,
};
use super::state::{CacheId, KeyId, ModelConfig, ModelState, ModelStep, ValueId, VisibleRef, WriteId};

verus! {

impl ModelState {
    fn refs_indexable(&self, config: ModelConfig) -> (r: bool)
        ensures
            r == (dirty_refs_indexable(self@, config) && clean_refs_indexable(self@, config)),
    {
        let mut k: usize = 0;
        while k < self.visible.len()
            invariant
                k <= self.visible.len(),
                forall|j: int|
                    0 <= j < k ==> match #[trigger] self.visible@[j] {
                        VisibleRef::Dirty(id) => id < config.max_write ==> id
                            < self.write_store.len(),
                        VisibleRef::Clean(id) => id < config.max_cache ==> id
                            < self.cache_store.len(),
                        VisibleRef::Empty => true,
                    },
            decreases self.visible.len() - k,
        {
            match self.visible[k] {
                VisibleRef::Dirty(id) => {
                    if id < config.max_write && id >= self.write_store.len() {
                        assert(!dirty_refs_indexable(self@, config)) by {
                            assert(match self@.visible[k as int] {
                                VisibleRef::Dirty(id) => !(id < config.max_write ==> id
                                    < self@.write_store.len()),
                                _ => false,
                            });
                        }
                        return false;
                    }
                },
                VisibleRef::Clean(id) => {
                    if id < config.max_cache && id >= self.cache_store.len() {
                        assert(!clean_refs_indexable(self@, config)) by {
                            assert(match self@.visible[k as int] {
                                VisibleRef::Clean(id) => !(id < config.max_cache ==> id
                                    < self@.cache_store.len()),
                                _ => false,
                            });
                        }
                        return false;
                    }
                },
                VisibleRef::Empty => {},
            }
            k += 1;
        }
        true
    }

    fn lost_writes_indexable(&self) -> (r: bool)
        ensures
            r == lost_dirty_indexable(self@),
    {
        if self.crashed {
            return true;
        }
        let mut id: usize = 0;
        while id < self.created_dirty.len()
            invariant
                !self.crashed,
                id <= self.created_dirty.len(),
                forall|j: int|
                    0 <= j < id && #[trigger] self@.created_dirty[j] && !self@.dirty_q.contains(
                        j as usize,
                    ) && !self@.flushed.contains(j as usize) && !self@.visible.contains(
                        VisibleRef::Dirty(j as usize),
                    ) ==> j < self@.write_store.len(),
            decreases self.created_dirty.len() - id,
        {
            if self.created_dirty[id] && !contains_id(self.dirty_q.as_slice(), id)
                && !contains_id(self.flushed.as_slice(), id) && !contains_visible_dirty(
                self.visible.as_slice(),
                id,
            ) && id >= self.write_store.len() {
                assert(self@.created_dirty[id as int]);
                return false;
            }
            id += 1;
        }
        true
    }

    fn flushed_keys_fit(&self, config: ModelConfig) -> (r: bool)
        ensures
            r == flushed_keys_in_range(config, self@.flushed, self@.write_hist),
    {
        let mut i: usize = 0;
        while i < self.flushed.len()
            invariant
                i <= self.flushed.len(),
                forall|j: int|
                    0 <= j < i && #[trigger] self@.flushed[j] < self@.write_hist.len()
                        && self@.write_hist[self@.flushed[j] as int].present
                        ==> self@.write_hist[self@.flushed[j] as int].key < config.key_count,
            decreases self.flushed.len() - i,
        {
            let id = self.flushed[i];
            if id < self.write_hist.len() && self.write_hist[id].present
                && self.write_hist[id].key >= config.key_count {
                assert(self@.flushed[i as int] < self@.write_hist.len());
                return false;
            }
            i += 1;
        }
        true
    }

    /// Whether every invariant check can run on this state without an out-of-range index.
    pub fn can_check(&self, config: ModelConfig) -> (r: bool)
        ensures
            r == checkable(self@, config),
    {
        self.refs_indexable(config) && self.lost_writes_indexable() && self.flushed_keys_fit(
            config,
        )
    }

    fn can_write(&self, config: ModelConfig, key: KeyId, value: ValueId) -> (r: bool)
        ensures
            r == writer_write_safe(self@, config, key, value),
    {
        if key < config.key_count && value < config.value_count && !self.crashed
            && self.next_write < config.max_write {
            self.next_write < self.write_store.len() && self.next_write < self.write_hist.len()
                && self.next_write < self.created_dirty.len() && key < self.visible.len()
        } else {
            true
        }
    }

    fn can_flush_next(&self, config: ModelConfig) -> (r: bool)
        ensures
            r == flush_next_safe(self@, config),
    {
        if !self.crashed && self.dirty_q.len() > 0 && self.dirty_q[0] < config.max_write {
            let id = self.dirty_q[0];
            id < self.write_hist.len() && (!self.write_hist[id].present
                || self.write_hist[id].key < self.durable.len())
        } else {
            true
        }
    }

    fn can_drop(&self, config: ModelConfig, id: WriteId) -> (r: bool)
        ensures
            r == flusher_drop_safe(self@, config, id),
    {
        if id < config.max_write && !self.crashed && contains_id(self.flushed.as_slice(), id) {
            id < self.write_store.len()
        } else {
            true
        }
    }

    fn can_insert_clean(&self, config: ModelConfig, key: KeyId) -> (r: bool)
        ensures
            r == cache_insert_safe(self@, config, key),
    {
        if key < config.key_count && !self.crashed && self.next_cache < config.max_cache {
            if key >= self.durable.len() {
                return false;
            }
            if !self.durable[key].present {
                return true;
            }
            if key >= self.visible.len() {
                return false;
            }
            self.visible[key] != VisibleRef::Empty || self.next_cache < self.cache_store.len()
        } else {
            true
        }
    }

    fn can_touch_cache_slot(&self, config: ModelConfig, id: CacheId) -> (r: bool)
        ensures
            r == cache_slot_safe(self@, config, id),
    {
        !(id < config.max_cache && !self.crashed) || id < self.cache_store.len()
    }

    fn can_read(&self, config: ModelConfig, key: KeyId) -> (r: bool)
        ensures
            r == reader_step_safe(self@, config, key),
    {
        if key < config.key_count && !self.crashed {
            if key >= self.visible.len() {
                return false;
            }
            match self.visible[key] {
                VisibleRef::Dirty(id) => !(id < config.max_write) || id < self.write_store.len(),
                VisibleRef::Clean(id) => !(id < config.max_cache) || id < self.cache_store.len(),
                VisibleRef::Empty => true,
            }
        } else {
            true
        }
    }

    /// Whether `step` can run on this state without an out-of-range index.
    pub fn can_apply(&self, config: ModelConfig, step: ModelStep) -> (r: bool)
        ensures
            r == step_safe(self@, config, step),
    {
        match step {
            ModelStep::WriterWrite { key, value } => self.can_write(config, key, value),
            ModelStep::FlusherFlushNext => self.can_flush_next(config),
            ModelStep::FlusherDrop { id } => self.can_drop(config, id),
            ModelStep::CacheInsert { key } => self.can_insert_clean(config, key),
            ModelStep::CacheDropRecord { id } => self.can_touch_cache_slot(config, id),
            ModelStep::CacheCleanupVisible { id } => self.can_touch_cache_slot(config, id),
            ModelStep::ReaderStep { key } => self.can_read(config, key),
            ModelStep::Crash => true,
        }
    }
}

} // verus!
