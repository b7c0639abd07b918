//! Writes of byte-string keys and values given as borrowed slices.
use vstd::prelude::*;

use super::spec::{log_has_room, spec_insert_dirty, spec_insert_dirty_batch};
use super::types::DirtyWriteMode;
use super::CacheLogMap;
use crate::entry::WriteId;

verus! {

/// Whether `owned` holds, entry by entry, copies of the slices of `borrowed`.
pub open spec fn owns_copies(owned: Seq<(Vec<u8>, Vec<u8>)>, borrowed: Seq<(&[u8], &[u8])>) -> bool {
    &&& owned.len() == borrowed.len()
    &&& forall|i: int|
        0 <= i < owned.len() ==> (#[trigger] owned[i]).0@ == borrowed[i].0@ && owned[i].1@
            == borrowed[i].1@
}

impl CacheLogMap<Vec<u8>, Vec<u8>> {
    /// Writes copies of `key` and `value` under a fresh id and returns the id.
    pub fn insert_dirty_borrowed(&mut self, key: &[u8], value: &[u8]) -> (id: WriteId)
        requires
            old(self).wf(),
            old(self)@.mode == DirtyWriteMode::StrictLog ==> log_has_room(old(self)@, 1),
        ensures
            final(self).wf(),
            exists|k: Vec<u8>, v: Vec<u8>|
                #![trigger spec_insert_dirty(old(self)@, k, v)]
                k@ == key@ && v@ == value@ && (final(self)@, id) == spec_insert_dirty(old(self)@, k, v),
    {
        let k = vstd::slice::slice_to_vec(key);
        let v = vstd::slice::slice_to_vec(value);
        let ghost (kc, vc) = (k, v);
        let id = self.insert_dirty(k, v);
        assert((self@, id) == spec_insert_dirty(old(self)@, kc, vc));
        id
    }

    /// Writes copies of a batch of borrowed keys and values and returns how many writes it
    /// made.
    pub fn insert_dirty_batch_borrowed_without_ids(&mut self, entries: Vec<(&[u8], &[u8])>) -> (written:
        usize)
        requires
            old(self).wf(),
            old(self)@.mode == DirtyWriteMode::StrictLog ==> log_has_room(old(self)@, entries@.len()),
        ensures
            final(self).wf(),
            exists|owned: Seq<(Vec<u8>, Vec<u8>)>|
                #![trigger spec_insert_dirty_batch(old(self)@, owned)]
                {
                    &&& owns_copies(owned, entries@)
                    &&& final(self)@ == spec_insert_dirty_batch(old(self)@, owned).0
                    &&& written == spec_insert_dirty_batch(old(self)@, owned).1.len()
                },
    {
        let mut owned: Vec<(Vec<u8>, Vec<u8>)> = Vec::new();
        let mut i: usize = 0;
        while i < entries.len()
            invariant
                i <= entries@.len(),
                owns_copies(owned@, entries@.take(i as int)),
            decreases entries@.len() - i,
        {
            let (k, v) = entries[i];
            owned.push((vstd::slice::slice_to_vec(k), vstd::slice::slice_to_vec(v)));
            i += 1;
            proof {
                assert forall|j: int| 0 <= j < owned@.len() implies (#[trigger] owned@[j]).0@
                    == entries@.take(i as int)[j].0@ && owned@[j].1@ == entries@.take(i as int)[j].1@ by {
                    if j < i - 1 {
                        assert(entries@.take(i as int)[j] == entries@.take(i - 1)[j]);
                    }
                }
            }
        }
        proof {
            assert(entries@.take(entries@.len() as int) =~= entries@);
        }
        let ghost copies = owned@;
        let written = self.insert_dirty_batch_without_ids(owned);
        assert(spec_insert_dirty_batch(old(self)@, copies).1.len() == written);
        written
    }
}

} // verus!
