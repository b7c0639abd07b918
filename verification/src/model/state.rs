//! Core state types for the cache log model.
use vstd::prelude::*;

verus! {

pub type KeyId = usize;

pub type ValueId = usize;

pub type WriteId = usize;

pub type CacheId = usize;

/// What a key's visible index points at.
#[derive(Clone, Copy, Debug, PartialEq, Eq, Structural)]
pub enum VisibleRef {
    Empty,
    Dirty(WriteId),
    Clean(CacheId),
}

/// A slot of the dirty write store (or of the write history).
#[derive(Clone, Copy, Debug, PartialEq, Eq, Structural)]
pub struct DirtyRecord {
    pub present: bool,
    pub id: Option<WriteId>,
    pub key: KeyId,
    pub value: ValueId,
}

/// A slot of the clean cache store.
#[derive(Clone, Copy, Debug, PartialEq, Eq, Structural)]
pub struct CleanRecord {
    pub present: bool,
    pub id: Option<CacheId>,
    pub key: KeyId,
    pub value: ValueId,
}

/// The durable value of one key, with the write id that produced it.
#[derive(Clone, Copy, Debug, PartialEq, Eq, Structural)]
pub struct DurableValue {
    pub present: bool,
    pub value: ValueId,
    pub seq: Option<WriteId>,
}

/// The bounds of a model instance.
#[derive(Clone, Copy, Debug, PartialEq, Eq, Structural)]
pub struct ModelConfig {
    pub key_count: usize,
    pub value_count: usize,
    pub max_write: usize,
    pub max_cache: usize,
}

/// Which invariant set a check applies.
#[derive(Clone, Copy, Debug, PartialEq, Eq, Structural)]
pub enum InvariantMode {
    StrictLog,
    CoalescedMap,
}

/// Errors reported for out-of-range step arguments.
#[derive(Clone, Copy, Debug, PartialEq, Eq, Structural)]
pub enum ModelError {
    InvalidKey(KeyId),
    InvalidValue(ValueId),
    InvalidWriteId(WriteId),
    InvalidCacheId(CacheId),
}

/// One action of the model.
#[derive(Clone, Copy, Debug, PartialEq, Eq, Structural)]
pub enum ModelStep {
    WriterWrite { key: KeyId, value: ValueId },
    FlusherFlushNext,
    FlusherDrop { id: WriteId },
    CacheInsert { key: KeyId },
    CacheDropRecord { id: CacheId },
    CacheCleanupVisible { id: CacheId },
    ReaderStep { key: KeyId },
    Crash,
}

/// The names of the invariants that a check found violated.
#[derive(Clone, Debug, PartialEq, Eq)]
pub struct InvariantReport {
    pub failures: Vec<&'static str>,
}

/// The full model state.
#[derive(Clone, Debug, PartialEq, Eq)]
pub struct ModelState {
    pub visible: Vec<VisibleRef>,
    pub write_store: Vec<DirtyRecord>,
    pub write_hist: Vec<DirtyRecord>,
    pub dirty_q: Vec<WriteId>,
    pub cache_store: Vec<CleanRecord>,
    pub durable: Vec<DurableValue>,
    pub flushed: Vec<WriteId>,
    pub created_dirty: Vec<bool>,
    pub next_write: usize,
    pub next_cache: usize,
    pub crashed: bool,
    pub bad_read: bool,
}

/// The mathematical value of a [`ModelState`]: each vector taken as a sequence.
pub struct ModelStateView {
    pub visible: Seq<VisibleRef>,
    pub write_store: Seq<DirtyRecord>,
    pub write_hist: Seq<DirtyRecord>,
    pub dirty_q: Seq<WriteId>,
    pub cache_store: Seq<CleanRecord>,
    pub durable: Seq<DurableValue>,
    pub flushed: Seq<WriteId>,
    pub created_dirty: Seq<bool>,
    pub next_write: usize,
    pub next_cache: usize,
    pub crashed: bool,
    pub bad_read: bool,
}

impl View for ModelState {
    type V = ModelStateView;

    open spec fn view(&self) -> ModelStateView {
        ModelStateView {
            visible: self.visible@,
            write_store: self.write_store@,
            write_hist: self.write_hist@,
            dirty_q: self.dirty_q@,
            cache_store: self.cache_store@,
            durable: self.durable@,
            flushed: self.flushed@,
            created_dirty: self.created_dirty@,
            next_write: self.next_write,
            next_cache: self.next_cache,
            crashed: self.crashed,
            bad_read: self.bad_read,
        }
    }
}

pub open spec fn absent_dirty() -> DirtyRecord {
    DirtyRecord { present: false, id: None, key: 0, value: 0 }
}

pub open spec fn absent_clean() -> CleanRecord {
    CleanRecord { present: false, id: None, key: 0, value: 0 }
}

pub open spec fn absent_durable() -> DurableValue {
    DurableValue { present: false, value: 0, seq: None }
}

impl ModelConfig {
    pub fn new(key_count: usize, value_count: usize, max_write: usize, max_cache: usize) -> (r:
        Self)
        ensures
            r == (ModelConfig { key_count, value_count, max_write, max_cache }),
    {
        ModelConfig { key_count, value_count, max_write, max_cache }
    }

    /// The small configuration used by the trace specification.
    pub fn tla_small() -> (r: Self)
        ensures
            r == (ModelConfig { key_count: 2, value_count: 2, max_write: 3, max_cache: 2 }),
    {
        Self::new(2, 2, 3, 2)
    }

    pub(crate) fn valid_key(self, key: KeyId) -> (r: bool)
        ensures
            r == (key < self.key_count),
    {
        key < self.key_count
    }

    pub(crate) fn valid_value(self, value: ValueId) -> (r: bool)
        ensures
            r == (value < self.value_count),
    {
        value < self.value_count
    }

    pub(crate) fn valid_write(self, id: WriteId) -> (r: bool)
        ensures
            r == (id < self.max_write),
    {
        id < self.max_write
    }

    pub(crate) fn valid_cache(self, id: CacheId) -> (r: bool)
        ensures
            r == (id < self.max_cache),
    {
        id < self.max_cache
    }
}

impl DirtyRecord {
    pub fn absent() -> (r: Self)
        ensures
            r == absent_dirty(),
    {
        DirtyRecord { present: false, id: None, key: 0, value: 0 }
    }

    pub fn present(id: WriteId, key: KeyId, value: ValueId) -> (r: Self)
        ensures
            r == (DirtyRecord { present: true, id: Some(id), key, value }),
    {
        DirtyRecord { present: true, id: Some(id), key, value }
    }
}

impl CleanRecord {
    pub fn absent() -> (r: Self)
        ensures
            r == absent_clean(),
    {
        CleanRecord { present: false, id: None, key: 0, value: 0 }
    }

    pub fn present(id: CacheId, key: KeyId, value: ValueId) -> (r: Self)
        ensures
            r == (CleanRecord { present: true, id: Some(id), key, value }),
    {
        CleanRecord { present: true, id: Some(id), key, value }
    }
}

impl DurableValue {
    pub fn absent() -> (r: Self)
        ensures
            r == absent_durable(),
    {
        DurableValue { present: false, value: 0, seq: None }
    }

    pub fn present(value: ValueId, seq: WriteId) -> (r: Self)
        ensures
            r == (DurableValue { present: true, value, seq: Some(seq) }),
    {
        DurableValue { present: true, value, seq: Some(seq) }
    }
}

impl InvariantReport {
    /// An empty report.
    pub fn empty() -> (r: Self)
        ensures
            r.failures@ == Seq::<&'static str>::empty(),
    {
        InvariantReport { failures: Vec::new() }
    }

    pub fn is_ok(&self) -> (r: bool)
        ensures
            r == (self.failures@.len() == 0),
    {
        self.failures.len() == 0
    }
}

} // verus!
