//! A generation of entries retired from the visible index, to be flushed (dirty ones) and
//! dropped (clean ones).
use vstd::prelude::*;

use crate::entry::{Entry, EntryState};

verus! {

/// An owned retired entry.
#[derive(Clone, Debug, Eq, PartialEq)]
pub struct RetiredEntry<K, V> {
    pub key: K,
    pub value: V,
    pub state: EntryState,
}

/// A borrowed view of a retired entry.
#[derive(Clone, Copy, Debug, Eq, PartialEq)]
pub struct RetiredEntryRef<'a, K, V> {
    pub key: &'a K,
    pub value: &'a V,
    pub state: EntryState,
}

/// The entries of one retired generation, in retirement order.
pub struct RetiredGeneration<K, V> {
    pub entries: Vec<Entry<K, V>>,
}

/// The owned retired form of an entry.
pub open spec fn retired_of<K, V>(e: Entry<K, V>) -> RetiredEntry<K, V> {
    RetiredEntry { key: e.key, value: e.value, state: e.state }
}

/// The entries of `s` in the given state, in order.
pub open spec fn with_state<K, V>(s: Seq<Entry<K, V>>, state: EntryState) -> Seq<Entry<K, V>> {
    s.filter(|e: Entry<K, V>| e.state == state)
}

/// Whether a borrowed view shows exactly `e`.
pub open spec fn shows<K, V>(r: RetiredEntryRef<K, V>, e: Entry<K, V>) -> bool {
    *r.key == e.key && *r.value == e.value && r.state == e.state
}

impl<'a, K, V> RetiredEntryRef<'a, K, V> {
    /// A borrowed view of `entry`.
    pub fn from_entry(entry: &'a Entry<K, V>) -> (r: Self)
        ensures
            shows(r, *entry),
    {
        RetiredEntryRef { key: &entry.key, value: &entry.value, state: entry.state }
    }
}

impl<K, V> RetiredEntry<K, V> {
    /// The owned retired form of `entry`.
    pub fn from_entry(entry: Entry<K, V>) -> (r: Self)
        ensures
            r == retired_of(entry),
    {
        RetiredEntry { key: entry.key, value: entry.value, state: entry.state }
    }
}

impl<K, V> RetiredGeneration<K, V> {
    pub fn new(entries: Vec<Entry<K, V>>) -> (r: Self)
        ensures
            r.entries@ == entries@,
    {
        RetiredGeneration { entries }
    }

    pub fn into_entries(self) -> (r: Vec<Entry<K, V>>)
        ensures
            r@ == self.entries@,
    {
        self.entries
    }

    pub fn is_empty(&self) -> (r: bool)
        ensures
            r == (self.entries@.len() == 0),
    {
        self.entries.len() == 0
    }

    pub fn len(&self) -> (r: usize)
        ensures
            r == self.entries@.len(),
    {
        self.entries.len()
    }

    /// Views of every entry, in order.
    pub fn iter(&self) -> (r: Vec<RetiredEntryRef<'_, K, V>>)
        ensures
            r@.len() == self.entries@.len(),
            forall|i: int| 0 <= i < r@.len() ==> shows(#[trigger] r@[i], self.entries@[i]),
    {
        let mut out: Vec<RetiredEntryRef<'_, K, V>> = Vec::new();
        let mut i: usize = 0;
        while i < self.entries.len()
            invariant
                i <= self.entries@.len(),
                out@.len() == i,
                forall|j: int| 0 <= j < i ==> shows(#[trigger] out@[j], self.entries@[j]),
            decreases self.entries@.len() - i,
        {
            out.push(RetiredEntryRef::from_entry(&self.entries[i]));
            i += 1;
        }
        out
    }

    fn iter_state(&self, state: EntryState) -> (r: Vec<RetiredEntryRef<'_, K, V>>)
        ensures
            r@.len() == with_state(self.entries@, state).len(),
            forall|i: int|
                0 <= i < r@.len() ==> shows(#[trigger] r@[i], with_state(self.entries@, state)[i]),
    {
        let mut out: Vec<RetiredEntryRef<'_, K, V>> = Vec::new();
        let mut i: usize = 0;
        while i < self.entries.len()
            invariant
                i <= self.entries@.len(),
                out@.len() == with_state(self.entries@.subrange(0, i as int), state).len(),
                forall|j: int|
                    0 <= j < out@.len() ==> shows(
                        #[trigger] out@[j],
                        with_state(self.entries@.subrange(0, i as int), state)[j],
                    ),
            decreases self.entries@.len() - i,
        {
            let ghost prefix = self.entries@.subrange(0, i as int);
            proof {
                assert(self.entries@.subrange(0, i + 1) =~= prefix.push(self.entries@[i as int]));
                prefix.lemma_filter_push(self.entries@[i as int], |e: Entry<K, V>| e.state == state);
            }
            if self.entries[i].state == state {
                out.push(RetiredEntryRef::from_entry(&self.entries[i]));
            }
            i += 1;
        }
        proof {
            assert(self.entries@.subrange(0, self.entries@.len() as int) =~= self.entries@);
        }
        out
    }

    /// Views of the dirty entries, in order.
    pub fn iter_dirty(&self) -> (r: Vec<RetiredEntryRef<'_, K, V>>)
        ensures
            r@.len() == with_state(self.entries@, EntryState::Dirty).len(),
            forall|i: int|
                0 <= i < r@.len() ==> shows(
                    #[trigger] r@[i],
                    with_state(self.entries@, EntryState::Dirty)[i],
                ),
    {
        self.iter_state(EntryState::Dirty)
    }

    /// Views of the clean entries, in order.
    pub fn iter_clean(&self) -> (r: Vec<RetiredEntryRef<'_, K, V>>)
        ensures
            r@.len() == with_state(self.entries@, EntryState::Clean).len(),
            forall|i: int|
                0 <= i < r@.len() ==> shows(
                    #[trigger] r@[i],
                    with_state(self.entries@, EntryState::Clean)[i],
                ),
    {
        self.iter_state(EntryState::Clean)
    }

    /// Removes and returns the dirty entries; the clean ones stay, in order.
    pub fn drain_dirty(&mut self) -> (r: Vec<RetiredEntry<K, V>>)
        ensures
            r@ == with_state(old(self).entries@, EntryState::Dirty).map_values(
                |e: Entry<K, V>| retired_of(e),
            ),
            final(self).entries@ == with_state(old(self).entries@, EntryState::Clean),
    {
        let r = self.drain_matching(EntryState::Dirty);
        assert((|e: Entry<K, V>| e.state != EntryState::Dirty) =~= (|e: Entry<K, V>| e.state
            == EntryState::Clean));
        r
    }

    /// Removes and returns the clean entries; the dirty ones stay, in order.
    pub fn drain_clean(&mut self) -> (r: Vec<RetiredEntry<K, V>>)
        ensures
            r@ == with_state(old(self).entries@, EntryState::Clean).map_values(
                |e: Entry<K, V>| retired_of(e),
            ),
            final(self).entries@ == with_state(old(self).entries@, EntryState::Dirty),
    {
        let r = self.drain_matching(EntryState::Clean);
        assert((|e: Entry<K, V>| e.state != EntryState::Clean) =~= (|e: Entry<K, V>| e.state
            == EntryState::Dirty));
        r
    }

    /// Runs `drain_clean`, then `flush_dirty`, on the generation; hands the generation back when
    /// either fails.
    pub fn process_retired<FD, FC, ED, EC>(self, flush_dirty: FD, drain_clean: FC) -> (r: Result<
        (),
        Self,
    >) where FD: FnOnce(&Self) -> Result<(), ED>, FC: FnOnce(&Self) -> Result<(), EC>
        requires
            drain_clean.requires((&self,)),
            flush_dirty.requires((&self,)),
        ensures
            r is Ok ==> drain_clean.ensures((&self,), Ok(())) && flush_dirty.ensures(
                (&self,),
                Ok(()),
            ),
            r is Err ==> r->Err_0.entries@ == self.entries@,
            r is Err ==> (exists|e: EC| drain_clean.ensures((&self,), Err::<(), EC>(e))) || (
            drain_clean.ensures((&self,), Ok::<(), EC>(())) && exists|e: ED|
                flush_dirty.ensures((&self,), Err::<(), ED>(e))),
    {
        let cleaned = drain_clean(&self);
        match cleaned {
            Ok(unit) => {
                assert(unit == ());
            },
            Err(e) => {
                assert(drain_clean.ensures((&self,), Err::<(), EC>(e)));
                return Err(self);
            },
        }
        let flushed = flush_dirty(&self);
        match flushed {
            Ok(unit) => {
                assert(unit == ());
            },
            Err(e) => {
                assert(flush_dirty.ensures((&self,), Err::<(), ED>(e)));
                return Err(self);
            },
        }
        Ok(())
    }

    fn drain_matching(&mut self, state: EntryState) -> (r: Vec<RetiredEntry<K, V>>)
        ensures
            r@ == with_state(old(self).entries@, state).map_values(|e: Entry<K, V>| retired_of(e)),
            final(self).entries@ == old(self).entries@.filter(|e: Entry<K, V>| e.state != state),
    {
        let mut entries: Vec<Entry<K, V>> = Vec::new();
        std::mem::swap(&mut entries, &mut self.entries);
        let ghost orig = entries@;
        let mut drained: Vec<RetiredEntry<K, V>> = Vec::new();
        let mut retained: Vec<Entry<K, V>> = Vec::new();
        // Reverse so that popping yields the entries in order.
        let mut reversed: Vec<Entry<K, V>> = Vec::new();
        while entries.len() > 0
            invariant
                entries@.len() + reversed@.len() == orig.len(),
                entries@ == orig.subrange(0, entries@.len() as int),
                forall|j: int| 0 <= j < reversed@.len() ==> reversed@[j] == orig[orig.len() - 1 - j],
            decreases entries@.len(),
        {
            let e = entries.pop().unwrap();
            reversed.push(e);
            proof {
                assert(entries@ =~= orig.subrange(0, entries@.len() as int));
            }
        }
        let ghost n = orig.len();
        while reversed.len() > 0
            invariant
                n == orig.len(),
                reversed@.len() <= n,
                forall|j: int| 0 <= j < reversed@.len() ==> reversed@[j] == orig[n - 1 - j],
                drained@ == with_state(orig.subrange(0, n - reversed@.len()), state).map_values(
                    |e: Entry<K, V>| retired_of(e),
                ),
                retained@ == orig.subrange(0, n - reversed@.len()).filter(
                    |e: Entry<K, V>| e.state != state,
                ),
            decreases reversed@.len(),
        {
            let ghost k = n - reversed@.len();
            let e = reversed.pop().unwrap();
            proof {
                assert(e == orig[k]);
                let prefix = orig.subrange(0, k);
                assert(orig.subrange(0, k + 1) =~= prefix.push(e));
                prefix.lemma_filter_push(e, |x: Entry<K, V>| x.state == state);
                prefix.lemma_filter_push(e, |x: Entry<K, V>| x.state != state);
            }
            if e.state == state {
                let ghost d0 = drained@;
                drained.push(RetiredEntry::from_entry(e));
                proof {
                    assert(drained@ =~= with_state(orig.subrange(0, k + 1), state).map_values(
                        |x: Entry<K, V>| retired_of(x),
                    ));
                }
            } else {
                retained.push(e);
                proof {
                    assert(drained@ =~= with_state(orig.subrange(0, k + 1), state).map_values(
                        |x: Entry<K, V>| retired_of(x),
                    ));
                }
            }
        }
        proof {
            assert(orig.subrange(0, n as int) =~= orig);
        }
        self.entries = retained;
        drained
    }
}

} // verus!
