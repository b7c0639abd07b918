//! Values, configuration and counters of the live map.
use std::sync::Arc;
use vstd::prelude::*;

use crate::entry::{CleanRecord, DirtyRecord, FlushBatch, VisibleRef, WriteId};

verus! {

/// What a key's visible entry holds.
#[derive(Debug, Clone)]
pub enum VisibleValue<K, V> {
    Dirty(Arc<DirtyRecord<K, V>>),
    Clean(Arc<CleanRecord<K, V>>),
}

impl<K, V> VisibleValue<K, V> {
    /// The id-bearing ref of this entry.
    pub fn visible_ref(&self) -> (r: VisibleRef)
        ensures
            r == (match self {
                VisibleValue::Dirty(record) => VisibleRef::Dirty(record.id),
                VisibleValue::Clean(record) => VisibleRef::Clean(record.id),
            }),
    {
        match self {
            VisibleValue::Dirty(record) => VisibleRef::Dirty(record.id),
            VisibleValue::Clean(record) => VisibleRef::Clean(record.id),
        }
    }
}

/// The latest value of a key in the coalesced overlay, with its write id.
#[derive(Clone, Debug)]
pub struct CoalescedRecord<V> {
    pub id: WriteId,
    pub value: V,
}

/// How dirty writes are tracked until they are flushed.
#[derive(Clone, Copy, Debug, Eq, PartialEq, Structural)]
pub enum DirtyWriteMode {
    /// Every write is appended to an ordered log and flushed in that order.
    StrictLog,
    /// Writes publish into a latest-value overlay; flushes persist snapshots of it.
    CoalescedMap,
}

impl Default for DirtyWriteMode {
    fn default() -> (r: Self)
        ensures
            r == DirtyWriteMode::StrictLog,
    {
        DirtyWriteMode::StrictLog
    }
}

/// Capacities of the live map and its dirty-write mode.
#[derive(Clone, Copy, Debug, Eq, PartialEq, Structural)]
pub struct CacheLogConfig {
    pub visible_capacity: usize,
    pub dirty_log_capacity: usize,
    pub clean_capacity: usize,
    pub dirty_write_mode: DirtyWriteMode,
}

impl CacheLogConfig {
    /// A strict-log configuration with the given capacities.
    pub fn new(visible_capacity: usize, dirty_log_capacity: usize, clean_capacity: usize) -> (r:
        Self)
        ensures
            r == (CacheLogConfig {
                visible_capacity,
                dirty_log_capacity,
                clean_capacity,
                dirty_write_mode: DirtyWriteMode::StrictLog,
            }),
    {
        CacheLogConfig {
            visible_capacity,
            dirty_log_capacity,
            clean_capacity,
            dirty_write_mode: DirtyWriteMode::StrictLog,
        }
    }

    /// This configuration with another dirty-write mode.
    pub fn with_dirty_write_mode(self, mode: DirtyWriteMode) -> (r: Self)
        ensures
            r == (CacheLogConfig { dirty_write_mode: mode, ..self }),
    {
        let mut config = self;
        config.dirty_write_mode = mode;
        config
    }
}

impl Default for CacheLogConfig {
    fn default() -> (r: Self)
        ensures
            r == (CacheLogConfig {
                visible_capacity: 1024,
                dirty_log_capacity: 1024,
                clean_capacity: 1024,
                dirty_write_mode: DirtyWriteMode::StrictLog,
            }),
    {
        Self::new(1024, 1024, 1024)
    }
}

/// What a flusher is handed: a batch to persist, or a request to flush immediately.
#[derive(Clone, Debug)]
pub enum FlushWork<K, V> {
    Batch(FlushBatch<K, V>),
    ForceFlush,
}

impl<K, V> FlushWork<K, V> {
    pub fn as_batch(&self) -> (r: Option<&FlushBatch<K, V>>)
        ensures
            r == (match self {
                FlushWork::Batch(batch) => Some(batch),
                FlushWork::ForceFlush => None,
            }),
    {
        match self {
            FlushWork::Batch(batch) => Some(batch),
            FlushWork::ForceFlush => None,
        }
    }
}

/// How many dirty writes wait in each stage.
#[derive(Clone, Copy, Debug, Eq, PartialEq, Structural)]
pub struct DirtyBacklogCounts {
    pub dirty_total: usize,
    pub pending_visible: usize,
    pub inflight: usize,
    pub draining: usize,
}

impl Default for DirtyBacklogCounts {
    fn default() -> (r: Self)
        ensures
            r == (DirtyBacklogCounts { dirty_total: 0, pending_visible: 0, inflight: 0, draining: 0 }),
    {
        DirtyBacklogCounts { dirty_total: 0, pending_visible: 0, inflight: 0, draining: 0 }
    }
}

} // verus!
