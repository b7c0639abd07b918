//! The ordered dirty log of the strict-log mode: writes get consecutive ids, wait in FIFO order,
//! and leave through one in-flight batch at a time.
use std::sync::Arc;
use vstd::prelude::*;

use crate::entry::{share, unshare, DirtyRecord, FlushBatch, WriteId};
use crate::map::types::FlushWork;

verus! {

/// The ordered FIFO dirty log.
pub struct OrderedFifoDirty<K, V> {
    next_id: u64,
    pending: Vec<Arc<DirtyRecord<K, V>>>,
    inflight: Option<FlushBatch<K, V>>,
    force_flush_requested: bool,
}

/// The ids of a sequence of records.
pub open spec fn ids_of<K, V>(records: Seq<DirtyRecord<K, V>>) -> Seq<WriteId> {
    records.map_values(|r: DirtyRecord<K, V>| r.id)
}

/// Whether the records' ids strictly increase.
pub open spec fn ids_increasing<K, V>(records: Seq<DirtyRecord<K, V>>) -> bool {
    forall|i: int, j: int| 0 <= i < j < records.len() ==> records[i].id < records[j].id
}

/// The records of a batch of `(key, value)` entries given ids from `base` on.
pub open spec fn numbered<K, V>(entries: Seq<(K, V)>, base: u64) -> Seq<DirtyRecord<K, V>> {
    Seq::new(
        entries.len(),
        |i: int| DirtyRecord { id: (base + i) as u64, key: entries[i].0, value: entries[i].1 },
    )
}

/// Whether `batch` has the length and the last id of the in-flight batch `current`.
pub open spec fn same_tail<K, V>(current: Seq<DirtyRecord<K, V>>, batch: Seq<DirtyRecord<K, V>>) -> bool {
    &&& batch.len() == current.len()
    &&& batch.len() > 0
    &&& batch.last().id == current.last().id
}

impl<K, V> OrderedFifoDirty<K, V> {
    /// Records waiting for a flush, oldest first.
    pub closed spec fn pending_records(&self) -> Seq<DirtyRecord<K, V>> {
        unshare(self.pending@)
    }

    /// The records of the in-flight batch, if one was handed out and not yet marked flushed.
    pub closed spec fn inflight_records(&self) -> Option<Seq<DirtyRecord<K, V>>> {
        match self.inflight {
            Some(batch) => Some(batch@),
            None => None,
        }
    }

    pub closed spec fn spec_next_id(&self) -> u64 {
        self.next_id
    }

    pub closed spec fn spec_force_flush_requested(&self) -> bool {
        self.force_flush_requested
    }

    /// Number of records in flight.
    pub open spec fn inflight_count(&self) -> nat {
        match self.inflight_records() {
            Some(records) => records.len(),
            None => 0,
        }
    }

    /// Ids increase along the log, in-flight records precede pending ones, every id was handed
    /// out already, and an in-flight batch is never empty.
    pub open spec fn wf(&self) -> bool {
        let pending = self.pending_records();
        &&& ids_increasing(pending)
        &&& forall|i: int| 0 <= i < pending.len() ==> #[trigger] pending[i].id < self.spec_next_id()
        &&& self.inflight_records() matches Some(batch) ==> {
            &&& batch.len() > 0
            &&& ids_increasing(batch)
            &&& forall|i: int, j: int|
                0 <= i < batch.len() && 0 <= j < pending.len() ==> batch[i].id < pending[j].id
            &&& forall|i: int| 0 <= i < batch.len() ==> #[trigger] batch[i].id < self.spec_next_id()
        }
        &&& pending.len() + self.inflight_count() <= usize::MAX
    }

    /// An empty log. The capacity bounds the concurrent queue of the live map and does not limit
    /// this log.
    pub fn new(capacity: usize) -> (r: Self)
        ensures
            r.wf(),
            r.pending_records() == Seq::<DirtyRecord<K, V>>::empty(),
            r.inflight_records() is None,
            r.spec_next_id() == 0,
            !r.spec_force_flush_requested(),
    {
        let _ = capacity;
        OrderedFifoDirty { next_id: 0, pending: Vec::new(), inflight: None, force_flush_requested: false }
    }

    /// Appends one write under the next id and returns its record.
    pub fn append(&mut self, key: K, value: V) -> (r: Arc<DirtyRecord<K, V>>)
        requires
            old(self).wf(),
            old(self).spec_next_id() < u64::MAX,
            old(self).pending_records().len() + old(self).inflight_count() < usize::MAX,
        ensures
            final(self).wf(),
            *r == (DirtyRecord { id: old(self).spec_next_id(), key, value }),
            final(self).spec_next_id() == old(self).spec_next_id() + 1,
            final(self).pending_records() == old(self).pending_records().push(*r),
            final(self).inflight_records() == old(self).inflight_records(),
            final(self).spec_force_flush_requested() == old(self).spec_force_flush_requested(),
    {
        let id = self.next_id;
        let record = Arc::new(DirtyRecord { id, key, value });
        self.next_id = id + 1;
        self.pending.push(share(&record));
        proof {
            assert(unshare(self.pending@) =~= unshare(old(self).pending@).push(*record));
        }
        record
    }

    /// Appends a batch of writes under consecutive ids and returns their records in order.
    pub fn append_batch(&mut self, entries: Vec<(K, V)>) -> (r: Vec<Arc<DirtyRecord<K, V>>>)
        requires
            old(self).wf(),
            old(self).spec_next_id() + entries@.len() <= u64::MAX,
            old(self).pending_records().len() + old(self).inflight_count() + entries@.len()
                <= usize::MAX,
        ensures
            final(self).wf(),
            unshare(r@) == numbered(entries@, old(self).spec_next_id()),
            final(self).spec_next_id() == old(self).spec_next_id() + entries@.len(),
            final(self).pending_records() == old(self).pending_records() + unshare(r@),
            final(self).inflight_records() == old(self).inflight_records(),
            final(self).spec_force_flush_requested() == old(self).spec_force_flush_requested(),
    {
        let ghost orig = entries@;
        let n = entries.len();
        if n == 0 {
            proof {
                assert(unshare(Seq::<Arc<DirtyRecord<K, V>>>::empty()) =~= numbered(orig, self.next_id));
                assert(self.pending_records() =~= old(self).pending_records() + unshare(Seq::<Arc<DirtyRecord<K, V>>>::empty()));
            }
            return Vec::new();
        }
        let base = self.next_id;
        let mut source = entries;
        // Reverse the entries so that popping yields them in their original order.
        let mut reversed: Vec<(K, V)> = Vec::new();
        while source.len() > 0
            invariant
                source@.len() + reversed@.len() == orig.len(),
                source@ == orig.subrange(0, source@.len() as int),
                forall|j: int| 0 <= j < reversed@.len() ==> reversed@[j] == orig[orig.len() - 1 - j],
            decreases source@.len(),
        {
            let item = source.pop().unwrap();
            reversed.push(item);
            proof {
                assert(source@ =~= orig.subrange(0, source@.len() as int));
            }
        }
        let mut out: Vec<Arc<DirtyRecord<K, V>>> = Vec::new();
        let mut offset: u64 = 0;
        while reversed.len() > 0
            invariant
                n == orig.len(),
                base == old(self).spec_next_id(),
                base + n <= u64::MAX,
                offset as int + reversed@.len() == n,
                out@.len() == offset,
                forall|j: int| 0 <= j < reversed@.len() ==> reversed@[j] == orig[n - 1 - j],
                unshare(out@) == numbered(orig.subrange(0, offset as int), base),
            decreases reversed@.len(),
        {
            let ghost out0 = out@;
            let item = reversed.pop().unwrap();
            proof {
                assert(item == orig[offset as int]);
            }
            let (key, value) = item;
            let record = Arc::new(DirtyRecord { id: base + offset, key, value });
            out.push(record);
            proof {
                assert(out@ == out0.push(record));
                assert(unshare(out0.push(record)) =~= unshare(out0).push(*record));
                assert(numbered(orig.subrange(0, offset + 1), base) =~= numbered(orig.subrange(0, offset as int), base).push(*record));
                assert(unshare(out@) =~= numbered(orig.subrange(0, offset + 1), base));
            }
            offset = offset + 1;
        }
        proof {
            assert(orig.subrange(0, n as int) =~= orig);
        }
        let mut i: usize = 0;
        let ghost pending0 = unshare(self.pending@);
        while i < out.len()
            invariant
                i <= out@.len(),
                out@.len() == n,
                unshare(self.pending@) == pending0 + unshare(out@).subrange(0, i as int),
                self.inflight == old(self).inflight,
                self.next_id == old(self).next_id,
                self.force_flush_requested == old(self).force_flush_requested,
            decreases out@.len() - i,
        {
            let ghost p0 = self.pending@;
            let handle = share(&out[i]);
            self.pending.push(handle);
            proof {
                assert(*handle == unshare(out@)[i as int]);
                assert(unshare(p0.push(handle)) =~= unshare(p0).push(*handle));
                assert(unshare(self.pending@) =~= pending0 + unshare(out@).subrange(0, i + 1));
            }
            i += 1;
        }
        self.next_id = base + (n as u64);
        proof {
            assert(unshare(out@).subrange(0, n as int) =~= unshare(out@));
            let p = self.pending_records();
            assert forall|a: int, b: int| 0 <= a < b < p.len() implies p[a].id < p[b].id by {
                if b >= pending0.len() && a < pending0.len() {
                    assert(pending0[a].id < base);
                }
            }
            assert forall|a: int| 0 <= a < p.len() implies #[trigger] p[a].id < self.spec_next_id() by {
                if a < pending0.len() {
                    assert(pending0[a].id < base);
                }
            }
            if let Some(batch) = self.inflight_records() {
                assert forall|a: int, b: int| 0 <= a < batch.len() && 0 <= b < p.len() implies batch[a].id < p[b].id by {
                    if b < pending0.len() {
                        assert(batch[a].id < pending0[b].id);
                    } else {
                        assert(batch[a].id < base);
                    }
                }
            }
        }
        out
    }

    /// The in-flight batch if there is one; otherwise the oldest `limit` pending records, which
    /// become the in-flight batch unless there were none.
    pub fn flush_batch(&mut self, limit: usize) -> (r: FlushBatch<K, V>)
        requires
            old(self).wf(),
        ensures
            final(self).wf(),
            final(self).spec_next_id() == old(self).spec_next_id(),
            final(self).spec_force_flush_requested() == old(self).spec_force_flush_requested(),
            old(self).inflight_records() matches Some(batch) ==> {
                &&& r@ == batch
                &&& final(self).pending_records() == old(self).pending_records()
                &&& final(self).inflight_records() == old(self).inflight_records()
            },
            old(self).inflight_records() is None ==> {
                let pending = old(self).pending_records();
                let n = if limit < pending.len() {
                    limit as int
                } else {
                    pending.len() as int
                };
                &&& r@ == pending.take(n)
                &&& final(self).pending_records() == pending.skip(n)
                &&& final(self).inflight_records() == (if n > 0 {
                    Some(r@)
                } else {
                    None::<Seq<DirtyRecord<K, V>>>
                })
            },
    {
        if let Some(batch) = &self.inflight {
            return batch.clone();
        }
        let n = if limit < self.pending.len() {
            limit
        } else {
            self.pending.len()
        };
        let mut taken: Vec<Arc<DirtyRecord<K, V>>> = Vec::new();
        std::mem::swap(&mut taken, &mut self.pending);
        let rest = taken.split_off(n);
        self.pending = rest;
        let batch = FlushBatch::new(taken);
        proof {
            let pending = old(self).pending_records();
            assert(batch@ =~= pending.take(n as int));
            assert(self.pending_records() =~= pending.skip(n as int));
        }
        if !batch.is_empty() {
            self.inflight = Some(batch.clone());
        }
        proof {
            let pending = old(self).pending_records();
            let p = self.pending_records();
            assert forall|a: int, b: int| 0 <= a < b < p.len() implies p[a].id < p[b].id by {
                assert(p[a] == pending[a + n]);
                assert(p[b] == pending[b + n]);
            }
            assert forall|a: int| 0 <= a < p.len() implies #[trigger] p[a].id < self.spec_next_id() by {
                assert(p[a] == pending[a + n]);
            }
            if let Some(b) = self.inflight_records() {
                assert forall|x: int, y: int| 0 <= x < b.len() && 0 <= y < p.len() implies b[x].id < p[y].id by {
                    assert(b[x] == pending[x]);
                    assert(p[y] == pending[y + n]);
                }
                assert forall|x: int, y: int| 0 <= x < y < b.len() implies b[x].id < b[y].id by {
                    assert(b[x] == pending[x]);
                    assert(b[y] == pending[y]);
                }
                assert forall|x: int| 0 <= x < b.len() implies #[trigger] b[x].id < self.spec_next_id() by {
                    assert(b[x] == pending[x]);
                }
            }
        }
        batch
    }

    /// Whether `wait_for_flush_work(limit)` can answer without waiting: a batch is in flight,
    /// records are pending and `limit` lets some of them out, or a force-flush was asked for.
    pub open spec fn has_flush_work(&self, limit: usize) -> bool {
        ||| self.inflight_records() is Some
        ||| (limit > 0 && self.pending_records().len() > 0)
        ||| self.spec_force_flush_requested()
    }

    /// Tells whether `wait_for_flush_work(limit)` can answer now.
    pub fn flush_work_ready(&self, limit: usize) -> (r: bool)
        ensures
            r == self.has_flush_work(limit),
    {
        self.inflight.is_some() || (limit > 0 && self.pending.len() > 0) || self.force_flush_requested
    }

    /// A batch to persist, or `ForceFlush` when a force-flush was asked for and no batch can be
    /// formed; the request is then consumed. Without work the call would wait for a writer or a
    /// force-flush signal, so it asks for work to be there (`flush_work_ready`); a caller that
    /// finds none waits outside and asks again.
    pub fn wait_for_flush_work(&mut self, limit: usize) -> (r: FlushWork<K, V>)
        requires
            old(self).wf(),
            old(self).has_flush_work(limit),
        ensures
            final(self).wf(),
            final(self).spec_next_id() == old(self).spec_next_id(),
            match r {
                FlushWork::Batch(batch) => {
                    let pending = old(self).pending_records();
                    let n = if limit < pending.len() {
                        limit as int
                    } else {
                        pending.len() as int
                    };
                    &&& batch@.len() > 0
                    &&& final(self).inflight_records() == Some(batch@)
                    &&& final(self).spec_force_flush_requested()
                        == old(self).spec_force_flush_requested()
                    &&& match old(self).inflight_records() {
                        Some(current) => batch@ == current && final(self).pending_records()
                            == pending,
                        None => batch@ == pending.take(n) && final(self).pending_records()
                            == pending.skip(n),
                    }
                },
                FlushWork::ForceFlush => {
                    &&& old(self).spec_force_flush_requested()
                    &&& old(self).inflight_records() is None
                    &&& (old(self).pending_records().len() == 0 || limit == 0)
                    &&& final(self).pending_records() == old(self).pending_records()
                    &&& final(self).inflight_records() is None
                    &&& !final(self).spec_force_flush_requested()
                },
            },
    {
        let batch = self.flush_batch(limit);
        if !batch.is_empty() {
            return FlushWork::Batch(batch);
        }
        self.force_flush_requested = false;
        FlushWork::ForceFlush
    }

    /// Asks the flusher to flush at once.
    pub fn signal_force_flush(&mut self)
        requires
            old(self).wf(),
        ensures
            final(self).wf(),
            final(self).spec_force_flush_requested(),
            final(self).pending_records() == old(self).pending_records(),
            final(self).inflight_records() == old(self).inflight_records(),
            final(self).spec_next_id() == old(self).spec_next_id(),
    {
        self.force_flush_requested = true;
    }

    /// Retires the in-flight batch when `batch` is it (the same allocation, or the same length and
    /// last id); returns how many records it held, or `0` when nothing was retired.
    pub fn mark_flushed(&mut self, batch: &FlushBatch<K, V>) -> (r: usize)
        requires
            old(self).wf(),
        ensures
            final(self).wf(),
            final(self).pending_records() == old(self).pending_records(),
            final(self).spec_next_id() == old(self).spec_next_id(),
            final(self).spec_force_flush_requested() == old(self).spec_force_flush_requested(),
            old(self).inflight_records() is None ==> r == 0 && final(self).inflight_records()
                is None,
            old(self).inflight_records() matches Some(current) ==> {
                let retired = same_tail(current, batch@);
                &&& r == (if retired {
                    current.len()
                } else {
                    0
                })
                &&& final(self).inflight_records() == (if retired {
                    None
                } else {
                    old(self).inflight_records()
                })
            },
    {
        let matches = match &self.inflight {
            None => return 0,
            Some(current) => current.ptr_eq(batch) || (current.len() == batch.len()
                && current.last_id() == batch.last_id()),
        };
        if !matches {
            return 0;
        }
        let current = self.inflight.take().unwrap();
        current.len()
    }

    /// Pending plus in-flight records.
    pub fn len(&self) -> (r: usize)
        requires
            self.wf(),
        ensures
            r == self.pending_records().len() + self.inflight_count(),
    {
        self.pending.len() + self.inflight_len()
    }

    pub fn pending_len(&self) -> (r: usize)
        ensures
            r == self.pending_records().len(),
    {
        self.pending.len()
    }

    pub fn inflight_len(&self) -> (r: usize)
        ensures
            r == self.inflight_count(),
    {
        match &self.inflight {
            Some(batch) => batch.len(),
            None => 0,
        }
    }

    /// The id the next append receives.
    pub fn next_write(&self) -> (r: WriteId)
        ensures
            r == self.spec_next_id(),
    {
        self.next_id
    }

    /// The in-flight batch, shared.
    pub fn inflight_batch(&self) -> (r: Option<FlushBatch<K, V>>)
        ensures
            match r {
                Some(batch) => self.inflight_records() == Some(batch@),
                None => self.inflight_records() is None,
            },
    {
        match &self.inflight {
            Some(batch) => Some(batch.clone()),
            None => None,
        }
    }

    /// Handles to the pending records, oldest first.
    pub fn pending_handles(&self) -> (r: Vec<Arc<DirtyRecord<K, V>>>)
        ensures
            unshare(r@) == self.pending_records(),
    {
        let mut out: Vec<Arc<DirtyRecord<K, V>>> = Vec::new();
        let mut i: usize = 0;
        while i < self.pending.len()
            invariant
                i <= self.pending@.len(),
                unshare(out@) == unshare(self.pending@).subrange(0, i as int),
            decreases self.pending@.len() - i,
        {
            let ghost o0 = out@;
            let handle = share(&self.pending[i]);
            out.push(handle);
            proof {
                assert(*handle == unshare(self.pending@)[i as int]);
                assert(unshare(o0.push(handle)) =~= unshare(o0).push(*handle));
                assert(unshare(out@) =~= unshare(self.pending@).subrange(0, i + 1));
            }
            i += 1;
        }
        proof {
            assert(unshare(self.pending@).subrange(0, self.pending@.len() as int) =~= unshare(self.pending@));
        }
        out
    }
}

} // verus!
