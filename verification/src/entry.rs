//! Records of the live map and the batches that carry them to the flusher.
use std::sync::Arc;
use vstd::prelude::*;

verus! {

pub type WriteId = u64;

pub type CacheId = u64;

/// Whether a visible entry is a not-yet-persisted write or a cached durable value.
#[derive(Clone, Copy, Debug, PartialEq, Eq, Structural)]
pub enum EntryState {
    Dirty,
    Clean,
}

/// The record a key's visible entry points at.
#[derive(Clone, Copy, Debug, PartialEq, Eq, Structural)]
pub enum VisibleRef {
    Dirty(WriteId),
    Clean(CacheId),
}

/// A dirty write: its id in write order, its key and its value.
#[derive(Clone, Debug, PartialEq, Eq)]
pub struct DirtyRecord<K, V> {
    pub id: WriteId,
    pub key: K,
    pub value: V,
}

/// A key, its value and whether that value is dirty or clean.
#[derive(Clone, Debug, PartialEq, Eq)]
pub struct Entry<K, V> {
    pub key: K,
    pub value: V,
    pub state: EntryState,
}

/// A clean cache entry.
#[derive(Clone, Debug, PartialEq, Eq)]
pub struct CleanRecord<K, V> {
    pub id: CacheId,
    pub key: K,
    pub value: V,
}

/// A second handle to the same shared value.
#[verifier::external_body]
pub(crate) fn share<T>(a: &Arc<T>) -> (r: Arc<T>)
    ensures
        r == *a,
{
    Arc::clone(a)
}

/// Whether two handles point at the same allocation; if they do, they hold the same value.
#[verifier::external_body]
pub(crate) fn same_allocation<T>(a: &Arc<T>, b: &Arc<T>) -> (r: bool)
    ensures
        r ==> *a == *b,
{
    Arc::ptr_eq(a, b)
}

#[derive(Debug)]
enum FlushBatchEntries<K, V> {
    Shared(Arc<Vec<Arc<DirtyRecord<K, V>>>>),
    Owned(Arc<Vec<DirtyRecord<K, V>>>),
}

/// An immutable, cheaply shared batch of dirty records in write order.
#[derive(Debug)]
pub struct FlushBatch<K, V> {
    entries: FlushBatchEntries<K, V>,
}

/// The records of a batch with their ids hidden behind key/value access.
#[derive(Debug)]
pub struct PersistBatch<K, V> {
    inner: FlushBatch<K, V>,
}

/// The records behind a sequence of shared handles.
pub open spec fn unshare<T>(s: Seq<Arc<T>>) -> Seq<T> {
    s.map_values(|a: Arc<T>| *a)
}

impl<K, V> View for FlushBatch<K, V> {
    type V = Seq<DirtyRecord<K, V>>;

    closed spec fn view(&self) -> Seq<DirtyRecord<K, V>> {
        match self.entries {
            FlushBatchEntries::Shared(entries) => unshare(entries@),
            FlushBatchEntries::Owned(entries) => entries@,
        }
    }
}

impl<K, V> View for PersistBatch<K, V> {
    type V = Seq<DirtyRecord<K, V>>;

    closed spec fn view(&self) -> Seq<DirtyRecord<K, V>> {
        self.inner@
    }
}

impl<K, V> Clone for FlushBatch<K, V> {
    fn clone(&self) -> (r: Self)
        ensures
            r@ == self@,
    {
        FlushBatch {
            entries: match &self.entries {
                FlushBatchEntries::Shared(entries) => FlushBatchEntries::Shared(share(entries)),
                FlushBatchEntries::Owned(entries) => FlushBatchEntries::Owned(share(entries)),
            },
        }
    }
}

impl<K, V> Clone for PersistBatch<K, V> {
    fn clone(&self) -> (r: Self)
        ensures
            r@ == self@,
    {
        PersistBatch { inner: self.inner.clone() }
    }
}

impl<K, V> FlushBatch<K, V> {
    /// A batch over shared records.
    pub fn new(entries: Vec<Arc<DirtyRecord<K, V>>>) -> (r: Self)
        ensures
            r@ == unshare(entries@),
    {
        FlushBatch { entries: FlushBatchEntries::Shared(Arc::new(entries)) }
    }

    /// A batch that owns its records.
    pub fn new_owned(entries: Vec<DirtyRecord<K, V>>) -> (r: Self)
        ensures
            r@ == entries@,
    {
        FlushBatch { entries: FlushBatchEntries::Owned(Arc::new(entries)) }
    }

    pub fn is_empty(&self) -> (r: bool)
        ensures
            r == (self@.len() == 0),
    {
        match &self.entries {
            FlushBatchEntries::Shared(entries) => entries.len() == 0,
            FlushBatchEntries::Owned(entries) => entries.len() == 0,
        }
    }

    pub fn len(&self) -> (r: usize)
        ensures
            r == self@.len(),
    {
        match &self.entries {
            FlushBatchEntries::Shared(entries) => entries.len(),
            FlushBatchEntries::Owned(entries) => entries.len(),
        }
    }

    /// The id of the last record, if any.
    pub fn last_id(&self) -> (r: Option<WriteId>)
        ensures
            r == (if self@.len() == 0 {
                None
            } else {
                Some(self@.last().id)
            }),
    {
        match &self.entries {
            FlushBatchEntries::Shared(entries) => {
                if entries.len() == 0 {
                    None
                } else {
                    Some(entries[entries.len() - 1].id)
                }
            },
            FlushBatchEntries::Owned(entries) => {
                if entries.len() == 0 {
                    None
                } else {
                    Some(entries[entries.len() - 1].id)
                }
            },
        }
    }

    /// The record at `index`, if the batch is that long.
    pub fn get(&self, index: usize) -> (r: Option<&DirtyRecord<K, V>>)
        ensures
            r == (if index < self@.len() {
                Some(&self@[index as int])
            } else {
                None
            }),
    {
        match &self.entries {
            FlushBatchEntries::Shared(entries) => {
                if index < entries.len() {
                    Some(&*entries[index])
                } else {
                    None
                }
            },
            FlushBatchEntries::Owned(entries) => {
                if index < entries.len() {
                    Some(&entries[index])
                } else {
                    None
                }
            },
        }
    }

    /// A cursor over the records in order.
    pub fn iter(&self) -> (r: FlushBatchIter<'_, K, V>)
        ensures
            r.batch@ == self@,
            r.position == 0,
    {
        FlushBatchIter { batch: self, position: 0 }
    }

    /// Whether both batches share one allocation (then they hold the same records).
    pub fn ptr_eq(&self, other: &Self) -> (r: bool)
        ensures
            r ==> self@ == other@,
    {
        match (&self.entries, &other.entries) {
            (FlushBatchEntries::Shared(left), FlushBatchEntries::Shared(right)) => same_allocation(
                left,
                right,
            ),
            (FlushBatchEntries::Owned(left), FlushBatchEntries::Owned(right)) => same_allocation(
                left,
                right,
            ),
            _ => false,
        }
    }
}

impl<K, V> PersistBatch<K, V> {
    pub fn from_flush_batch(inner: FlushBatch<K, V>) -> (r: Self)
        ensures
            r@ == inner@,
    {
        PersistBatch { inner }
    }

    pub fn is_empty(&self) -> (r: bool)
        ensures
            r == (self@.len() == 0),
    {
        self.inner.is_empty()
    }

    pub fn len(&self) -> (r: usize)
        ensures
            r == self@.len(),
    {
        self.inner.len()
    }

    /// A cursor over the entries in order.
    pub fn iter(&self) -> (r: PersistBatchIter<'_, K, V>)
        ensures
            r.inner.batch@ == self@,
            r.inner.position == 0,
    {
        PersistBatchIter { inner: self.inner.iter() }
    }
}

/// A cursor over the records of a [`FlushBatch`].
pub struct FlushBatchIter<'a, K, V> {
    pub batch: &'a FlushBatch<K, V>,
    pub position: usize,
}

impl<'a, K, V> FlushBatchIter<'a, K, V> {
    /// The next record, or `None` once every record was returned.
    pub fn next(&mut self) -> (r: Option<&'a DirtyRecord<K, V>>)
        ensures
            final(self).batch == old(self).batch,
            old(self).position < old(self).batch@.len() ==> {
                &&& r == Some(&old(self).batch@[old(self).position as int])
                &&& final(self).position == old(self).position + 1
            },
            old(self).position >= old(self).batch@.len() ==> {
                &&& r is None
                &&& final(self).position == old(self).position
            },
    {
        let len = self.batch.len();
        let item = self.batch.get(self.position);
        if self.position < len {
            self.position = self.position + 1;
        }
        item
    }
}

/// Key/value access to one record of a [`PersistBatch`].
pub struct PersistBatchEntry<'a, K, V> {
    record: &'a DirtyRecord<K, V>,
}

impl<'a, K, V> PersistBatchEntry<'a, K, V> {
    pub closed spec fn record(&self) -> DirtyRecord<K, V> {
        *self.record
    }

    pub fn key(&self) -> (r: &'a K)
        ensures
            *r == self.record().key,
    {
        &self.record.key
    }

    pub fn value(&self) -> (r: &'a V)
        ensures
            *r == self.record().value,
    {
        &self.record.value
    }
}

/// A cursor over the entries of a [`PersistBatch`].
pub struct PersistBatchIter<'a, K, V> {
    pub inner: FlushBatchIter<'a, K, V>,
}

impl<'a, K, V> PersistBatchIter<'a, K, V> {
    /// The next entry, or `None` once every entry was returned.
    pub fn next(&mut self) -> (r: Option<PersistBatchEntry<'a, K, V>>)
        ensures
            final(self).inner.batch == old(self).inner.batch,
            old(self).inner.position < old(self).inner.batch@.len() ==> {
                &&& r is Some
                &&& r->0.record() == old(self).inner.batch@[old(self).inner.position as int]
                &&& final(self).inner.position == old(self).inner.position + 1
            },
            old(self).inner.position >= old(self).inner.batch@.len() ==> {
                &&& r is None
                &&& final(self).inner.position == old(self).inner.position
            },
    {
        match self.inner.next() {
            Some(record) => Some(PersistBatchEntry { record }),
            None => None,
        }
    }
}

} // verus!
