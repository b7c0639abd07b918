//! State transitions of the model.
use vstd::prelude::*;

use super::invariants::contains_id;
use super::spec::{
    cache_insert_safe, cache_slot_safe, clear_refs, flush_next_safe, flusher_drop_safe,
    reader_step_safe, spec_apply_step, spec_cache_cleanup_visible, spec_cache_drop_record,
    spec_cache_insert, spec_crash, spec_flusher_drop, spec_flusher_flush_next, spec_new,
    spec_reader_step, spec_writer_write, step_safe, writer_write_safe,
};
use super::state::{
    absent_clean, absent_dirty, absent_durable, CacheId, CleanRecord, DirtyRecord, DurableValue,
    KeyId, ModelConfig, ModelError, ModelState, ModelStep, ValueId, VisibleRef, WriteId,
};

verus! {

/// `n` empty visible refs.
fn empty_visible(n: usize) -> (r: Vec<VisibleRef>)
    ensures
        r@ == Seq::new(n as nat, |i: int| VisibleRef::Empty),
{
    let mut v: Vec<VisibleRef> = Vec::new();
    let mut i: usize = 0;
    while i < n
        invariant
            i <= n,
            v@ == Seq::new(i as nat, |j: int| VisibleRef::Empty),
        decreases n - i,
    {
        v.push(VisibleRef::Empty);
        i += 1;
    }
    v
}

/// `n` absent dirty records.
fn absent_dirty_records(n: usize) -> (r: Vec<DirtyRecord>)
    ensures
        r@ == Seq::new(n as nat, |i: int| absent_dirty()),
{
    let mut v: Vec<DirtyRecord> = Vec::new();
    let mut i: usize = 0;
    while i < n
        invariant
            i <= n,
            v@ == Seq::new(i as nat, |j: int| absent_dirty()),
        decreases n - i,
    {
        v.push(DirtyRecord::absent());
        i += 1;
    }
    v
}

/// `n` absent clean records.
fn absent_clean_records(n: usize) -> (r: Vec<CleanRecord>)
    ensures
        r@ == Seq::new(n as nat, |i: int| absent_clean()),
{
    let mut v: Vec<CleanRecord> = Vec::new();
    let mut i: usize = 0;
    while i < n
        invariant
            i <= n,
            v@ == Seq::new(i as nat, |j: int| absent_clean()),
        decreases n - i,
    {
        v.push(CleanRecord::absent());
        i += 1;
    }
    v
}

/// `n` absent durable values.
fn absent_durable_values(n: usize) -> (r: Vec<DurableValue>)
    ensures
        r@ == Seq::new(n as nat, |i: int| absent_durable()),
{
    let mut v: Vec<DurableValue> = Vec::new();
    let mut i: usize = 0;
    while i < n
        invariant
            i <= n,
            v@ == Seq::new(i as nat, |j: int| absent_durable()),
        decreases n - i,
    {
        v.push(DurableValue::absent());
        i += 1;
    }
    v
}

/// `n` false flags.
fn false_flags(n: usize) -> (r: Vec<bool>)
    ensures
        r@ == Seq::new(n as nat, |i: int| false),
{
    let mut v: Vec<bool> = Vec::new();
    let mut i: usize = 0;
    while i < n
        invariant
            i <= n,
            v@ == Seq::new(i as nat, |j: int| false),
        decreases n - i,
    {
        v.push(false);
        i += 1;
    }
    v
}

/// Replaces every entry of `visible` equal to `from` by `Empty`.
fn clear_matching_refs(visible: &mut Vec<VisibleRef>, from: VisibleRef)
    ensures
        final(visible)@ == clear_refs(old(visible)@, from),
{
    let mut i: usize = 0;
    while i < visible.len()
        invariant
            i <= visible.len(),
            visible@.len() == old(visible)@.len(),
            forall|j: int|
                0 <= j < i ==> visible@[j] == (if old(visible)@[j] == from {
                    VisibleRef::Empty
                } else {
                    old(visible)@[j]
                }),
            forall|j: int| i <= j < visible@.len() ==> visible@[j] == old(visible)@[j],
        decreases visible.len() - i,
    {
        if visible[i] == from {
            visible.set(i, VisibleRef::Empty);
        }
        i += 1;
    }
    assert(visible@ =~= clear_refs(old(visible)@, from));
}

impl ModelState {
    /// The initial state of a configuration.
    pub fn new(config: ModelConfig) -> (r: Self)
        ensures
            r@ == spec_new(config),
    {
        ModelState {
            visible: empty_visible(config.key_count),
            write_store: absent_dirty_records(config.max_write),
            write_hist: absent_dirty_records(config.max_write),
            dirty_q: Vec::new(),
            cache_store: absent_clean_records(config.max_cache),
            durable: absent_durable_values(config.key_count),
            flushed: Vec::new(),
            created_dirty: false_flags(config.max_write),
            next_write: 0,
            next_cache: 0,
            crashed: false,
            bad_read: false,
        }
    }

    /// Applies one step.
    pub fn apply_step(&mut self, config: ModelConfig, step: ModelStep) -> (r: Result<(), ModelError>)
        requires
            step_safe(old(self)@, config, step),
        ensures
            (final(self)@, r) == spec_apply_step(old(self)@, config, step),
    {
        match step {
            ModelStep::WriterWrite { key, value } => self.writer_write(config, key, value),
            ModelStep::FlusherFlushNext => self.flusher_flush_next(config),
            ModelStep::FlusherDrop { id } => self.flusher_drop(config, id),
            ModelStep::CacheInsert { key } => self.cache_insert(config, key),
            ModelStep::CacheDropRecord { id } => self.cache_drop_record(config, id),
            ModelStep::CacheCleanupVisible { id } => self.cache_cleanup_visible(config, id),
            ModelStep::ReaderStep { key } => self.reader_step(config, key),
            ModelStep::Crash => self.crash(config),
        }
    }

    pub fn writer_write(&mut self, config: ModelConfig, key: KeyId, value: ValueId) -> (r: Result<
        (),
        ModelError,
    >)
        requires
            writer_write_safe(old(self)@, config, key, value),
        ensures
            (final(self)@, r) == spec_writer_write(old(self)@, config, key, value),
    {
        self.check_key_value(config, key, value)?;
        if self.crashed || self.next_write >= config.max_write {
            return Ok(());
        }
        let id = self.next_write;
        let record = DirtyRecord::present(id, key, value);
        self.write_store.set(id, record);
        self.write_hist.set(id, record);
        self.dirty_q.push(id);
        self.visible.set(key, VisibleRef::Dirty(id));
        self.created_dirty.set(id, true);
        self.next_write = id + 1;
        Ok(())
    }

    pub fn flusher_flush_next(&mut self, config: ModelConfig) -> (r: Result<(), ModelError>)
        requires
            flush_next_safe(old(self)@, config),
        ensures
            (final(self)@, r) == spec_flusher_flush_next(old(self)@, config),
    {
        if self.crashed {
            return Ok(());
        }
        if self.dirty_q.len() > 0 {
            let id = self.dirty_q[0];
            self.check_write(config, id)?;
            let record = self.write_hist[id];
            if record.present {
                self.durable.set(record.key, DurableValue::present(record.value, id));
                self.flushed.push(id);
                self.dirty_q.remove(0);
                assert(self.dirty_q@ =~= old(self).dirty_q@.drop_first());
            }
        }
        Ok(())
    }

    pub fn flusher_drop(&mut self, config: ModelConfig, id: WriteId) -> (r: Result<(), ModelError>)
        requires
            flusher_drop_safe(old(self)@, config, id),
        ensures
            (final(self)@, r) == spec_flusher_drop(old(self)@, config, id),
    {
        self.check_write(config, id)?;
        if self.crashed {
            return Ok(());
        }
        if contains_id(&self.flushed, id) && self.write_store[id].present {
            self.write_store.set(id, DirtyRecord::absent());
            clear_matching_refs(&mut self.visible, VisibleRef::Dirty(id));
        }
        Ok(())
    }

    pub fn cache_insert(&mut self, config: ModelConfig, key: KeyId) -> (r: Result<(), ModelError>)
        requires
            cache_insert_safe(old(self)@, config, key),
        ensures
            (final(self)@, r) == spec_cache_insert(old(self)@, config, key),
    {
        self.check_key(config, key)?;
        if self.crashed || self.next_cache >= config.max_cache {
            return Ok(());
        }
        if self.durable[key].present && self.visible[key] == VisibleRef::Empty {
            let id = self.next_cache;
            let value = self.durable[key].value;
            self.cache_store.set(id, CleanRecord::present(id, key, value));
            self.visible.set(key, VisibleRef::Clean(id));
            self.next_cache = id + 1;
        }
        Ok(())
    }

    pub fn cache_drop_record(&mut self, config: ModelConfig, id: CacheId) -> (r: Result<
        (),
        ModelError,
    >)
        requires
            cache_slot_safe(old(self)@, config, id),
        ensures
            (final(self)@, r) == spec_cache_drop_record(old(self)@, config, id),
    {
        self.check_cache(config, id)?;
        if self.crashed {
            return Ok(());
        }
        if self.cache_store[id].present {
            self.cache_store.set(id, CleanRecord::absent());
        }
        Ok(())
    }

    pub fn cache_cleanup_visible(&mut self, config: ModelConfig, id: CacheId) -> (r: Result<
        (),
        ModelError,
    >)
        requires
            cache_slot_safe(old(self)@, config, id),
        ensures
            (final(self)@, r) == spec_cache_cleanup_visible(old(self)@, config, id),
    {
        self.check_cache(config, id)?;
        if self.crashed {
            return Ok(());
        }
        if !self.cache_store[id].present {
            clear_matching_refs(&mut self.visible, VisibleRef::Clean(id));
        }
        Ok(())
    }

    pub fn reader_step(&mut self, config: ModelConfig, key: KeyId) -> (r: Result<(), ModelError>)
        requires
            reader_step_safe(old(self)@, config, key),
        ensures
            (final(self)@, r) == spec_reader_step(old(self)@, config, key),
    {
        self.check_key(config, key)?;
        if self.crashed {
            return Ok(());
        }
        match self.visible[key] {
            VisibleRef::Empty => {},
            VisibleRef::Dirty(id) => {
                self.check_write(config, id)?;
                if !self.write_store[id].present || self.write_store[id].key != key {
                    self.bad_read = true;
                }
            },
            VisibleRef::Clean(id) => {
                self.check_cache(config, id)?;
                if self.cache_store[id].present && self.cache_store[id].key != key {
                    self.bad_read = true;
                }
            },
        }
        Ok(())
    }

    pub fn crash(&mut self, config: ModelConfig) -> (r: Result<(), ModelError>)
        ensures
            (final(self)@, r) == spec_crash(old(self)@, config),
    {
        if self.crashed {
            return Ok(());
        }
        self.visible = empty_visible(config.key_count);
        self.write_store = absent_dirty_records(config.max_write);
        self.dirty_q = Vec::new();
        self.cache_store = absent_clean_records(config.max_cache);
        self.crashed = true;
        Ok(())
    }

    pub(crate) fn check_key(&self, config: ModelConfig, key: KeyId) -> (r: Result<(), ModelError>)
        ensures
            r == (if key < config.key_count {
                Ok::<(), ModelError>(())
            } else {
                Err(ModelError::InvalidKey(key))
            }),
    {
        if config.valid_key(key) {
            Ok(())
        } else {
            Err(ModelError::InvalidKey(key))
        }
    }

    pub(crate) fn check_key_value(&self, config: ModelConfig, key: KeyId, value: ValueId) -> (r:
        Result<(), ModelError>)
        ensures
            r == (if key >= config.key_count {
                Err(ModelError::InvalidKey(key))
            } else if value >= config.value_count {
                Err(ModelError::InvalidValue(value))
            } else {
                Ok::<(), ModelError>(())
            }),
    {
        self.check_key(config, key)?;
        if config.valid_value(value) {
            Ok(())
        } else {
            Err(ModelError::InvalidValue(value))
        }
    }

    pub(crate) fn check_write(&self, config: ModelConfig, id: WriteId) -> (r: Result<(), ModelError>)
        ensures
            r == (if id < config.max_write {
                Ok::<(), ModelError>(())
            } else {
                Err(ModelError::InvalidWriteId(id))
            }),
    {
        if config.valid_write(id) {
            Ok(())
        } else {
            Err(ModelError::InvalidWriteId(id))
        }
    }

    pub(crate) fn check_cache(&self, config: ModelConfig, id: CacheId) -> (r: Result<(), ModelError>)
        ensures
            r == (if id < config.max_cache {
                Ok::<(), ModelError>(())
            } else {
                Err(ModelError::InvalidCacheId(id))
            }),
    {
        if config.valid_cache(id) {
            Ok(())
        } else {
            Err(ModelError::InvalidCacheId(id))
        }
    }
}

} // verus!
