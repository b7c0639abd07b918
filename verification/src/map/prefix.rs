//! Listing the keys of a byte-string-keyed map by prefix, in byte-wise order.
use vstd::prelude::*;
use vstd::std_specs::iter::IteratorSpec;

use super::bytes::{
    byte_views, has_prefix, lemma_is_ordered_listing, lex_sorted, ordered_listing, sort_unique,
    starts_with,
};
use super::coalesced::{batch_keys, inflight_len, inflight_record, overlay_keys};
use crate::entry::DirtyRecord;
use super::spec::{spec_read_full, MapView};
use super::table::{copy_key, keys_clone_exactly};
use super::types::DirtyWriteMode;
use super::CacheLogMap;
use crate::entry::EntryState;

verus! {

/// The keys a prefix listing looks at: the visible index's, and in coalesced mode also the
/// overlay's.
pub open spec fn listing_candidates<V>(v: MapView<Vec<u8>, V>) -> Set<Vec<u8>> {
    match v.mode {
        DirtyWriteMode::StrictLog => v.visible.dom(),
        DirtyWriteMode::CoalescedMap => v.visible.dom().union(overlay_keys(v.overlay)),
    }
}

/// The keys of `keys` that start with `prefix`.
pub open spec fn prefixed(keys: Set<Vec<u8>>, prefix: Seq<u8>) -> Set<Vec<u8>> {
    keys.filter(|k: Vec<u8>| starts_with(k@, prefix))
}

/// The distinct byte strings of the candidate keys that start with `prefix`.
pub open spec fn prefix_matches<V>(v: MapView<Vec<u8>, V>, prefix: Seq<u8>) -> Set<Seq<u8>> {
    listing_candidates(v).map(|k: Vec<u8>| k@).filter(|b: Seq<u8>| starts_with(b, prefix))
}

/// The first `limit` of those byte strings in byte-wise order.
pub open spec fn prefix_listing<V>(v: MapView<Vec<u8>, V>, prefix: Seq<u8>, limit: usize) -> Seq<
    Seq<u8>,
> {
    let all = ordered_listing(prefix_matches(v, prefix));
    if all.len() > limit {
        all.take(limit as int)
    } else {
        all
    }
}

/// Whether a read of `key` in `v` shows an entry on which `reader` may return `out`.
pub open spec fn read_gives<V, R, F: Fn(&Vec<u8>, &V, EntryState) -> R>(
    v: MapView<Vec<u8>, V>,
    key: Vec<u8>,
    reader: F,
    out: R,
) -> bool {
    spec_read_full(v, key) matches Some((k, value, s, _)) && reader.ensures((&k, &value, s), out)
}

/// Whether some candidate key with the bytes `bytes` reads as an entry on which `reader` may
/// return `out`.
pub open spec fn listed_read<V, R, F: Fn(&Vec<u8>, &V, EntryState) -> R>(
    v: MapView<Vec<u8>, V>,
    bytes: Seq<u8>,
    reader: F,
    out: R,
) -> bool {
    exists|key: Vec<u8>|
        {
            &&& key@ == bytes
            &&& listing_candidates(v).contains(key)
            &&& #[trigger] read_gives(v, key, reader, out)
        }
}

/// One more key of `src` looked at: `out` gains it when it starts with `prefix`.
proof fn lemma_gather_step(out: Seq<Vec<u8>>, start: Set<Vec<u8>>, src: Seq<Vec<u8>>, i: int, prefix: Seq<u8>)
    requires
        0 <= i < src.len(),
        out.to_set() == start.union(prefixed(src.take(i).to_set(), prefix)),
    ensures
        (if starts_with(src[i]@, prefix) {
            out.push(src[i])
        } else {
            out
        }).to_set() == start.union(prefixed(src.take(i + 1).to_set(), prefix)),
{
    assert(src.take(i + 1) =~= src.take(i).push(src[i]));
    src.take(i).lemma_push_to_set_commute(src[i]);
    out.lemma_push_to_set_commute(src[i]);
    let next = if starts_with(src[i]@, prefix) {
        out.push(src[i])
    } else {
        out
    };
    assert(next.to_set() =~= start.union(prefixed(src.take(i + 1).to_set(), prefix)));
}

/// Before any key of `src` is looked at, `out` holds what it started with.
proof fn lemma_gather_start(out: Seq<Vec<u8>>, src: Seq<Vec<u8>>, prefix: Seq<u8>)
    ensures
        out.to_set() == out.to_set().union(prefixed(src.take(0).to_set(), prefix)),
{
    assert(src.take(0).to_set() =~= Set::<Vec<u8>>::empty());
    assert(out.to_set() =~= out.to_set().union(prefixed(src.take(0).to_set(), prefix)));
}

/// Appends `key` to `out` when it starts with `prefix`.
fn push_if_prefixed(out: &mut Vec<Vec<u8>>, key: &Vec<u8>, prefix: &[u8])
    requires
        keys_clone_exactly::<Vec<u8>>(),
    ensures
        final(out)@ == (if starts_with(key@, prefix@) {
            old(out)@.push(*key)
        } else {
            old(out)@
        }),
{
    if has_prefix(key.as_slice(), prefix) {
        out.push(copy_key(key));
    }
}

/// A prefix listing covers every key the map shows under the prefix: in coalesced mode that
/// includes the keys of the overlay's active table, of the batch in flight and of the draining
/// snapshot, as well as the visible index's.
pub proof fn lemma_shown_keys_are_listed<V>(v: MapView<Vec<u8>, V>, prefix: Seq<u8>, k: Vec<u8>)
    requires
        starts_with(k@, prefix),
        spec_read_full(v, k) is Some,
    ensures
        prefix_matches(v, prefix).contains(k@),
{
    assert(listing_candidates(v).contains(k)) by {
        if v.mode == DirtyWriteMode::CoalescedMap && !v.visible.contains_key(k) {
            let o = v.overlay;
            if !o.active.contains_key(k) {
                if inflight_record(o, k) is Some {
                    let batch = o.inflight->0;
                    let i = choose|i: int| 0 <= i < batch.len() && batch[i].key == k;
                    let keys = batch.map_values(|r: DirtyRecord<Vec<u8>, V>| r.key);
                    assert(keys[i] == k);
                    assert(batch_keys(batch).contains(k));
                }
            }
        }
    }
    assert(listing_candidates(v).map(|x: Vec<u8>| x@).contains(k@));
}

/// A listing with a smaller limit is the start of a listing with a larger one: paging through
/// the keys of a prefix with growing limits never reorders them.
pub proof fn lemma_listing_limits_agree<V>(v: MapView<Vec<u8>, V>, prefix: Seq<u8>, small: usize, large: usize)
    requires
        small <= large,
    ensures
        prefix_listing(v, prefix, small).len() <= prefix_listing(v, prefix, large).len(),
        prefix_listing(v, prefix, small) == prefix_listing(v, prefix, large).take(
            prefix_listing(v, prefix, small).len() as int,
        ),
{
    let all = ordered_listing(prefix_matches(v, prefix));
    let a = prefix_listing(v, prefix, small);
    let b = prefix_listing(v, prefix, large);
    assert(a =~= b.take(a.len() as int));
}

impl<V> CacheLogMap<Vec<u8>, V> {
    /// Every candidate key has an entry to read.
    proof fn lemma_candidates_readable(&self, key: Vec<u8>)
        requires
            self.wf(),
            listing_candidates(self@).contains(key),
        ensures
            spec_read_full(self@, key) is Some,
    {
        self.lemma_consistent();
        let ov = self@.overlay;
        if self@.mode == DirtyWriteMode::CoalescedMap && !self@.visible.contains_key(key) {
            if !ov.active.contains_key(key) {
                if let Some(batch) = ov.inflight {
                    if super::coalesced::batch_keys(batch).contains(key) {
                        let ks = batch.map_values(|r: crate::entry::DirtyRecord<Vec<u8>, V>| r.key);
                        let i = choose|i: int| 0 <= i < ks.len() && ks[i] == key;
                        assert(batch[i].key == key);
                    }
                }
            }
        }
    }

    /// Appends the visible index's keys that start with `prefix`.
    fn gather_visible(&self, prefix: &[u8], out: &mut Vec<Vec<u8>>)
        requires
            self.wf(),
        ensures
            final(out)@.to_set() == old(out)@.to_set().union(prefixed(self@.visible.dom(), prefix@)),
    {
        let ghost start = out@.to_set();
        let entries = self.visible.iter();
        let ghost all = entries.remaining();
        let ghost keys = all.map_values(|p: (&Vec<u8>, &super::types::VisibleValue<Vec<u8>, V>)| *p.0);
        proof {
            self.lemma_visible_dom();
            assert(all == vstd::std_specs::hash::spec_hash_map_iter(&self.visible).remaining());
            lemma_gather_start(out@, keys, prefix@);
        }
        for pair in it: entries
            invariant
                self.wf(),
                it.seq() == all,
                keys == all.map_values(|p: (&Vec<u8>, &super::types::VisibleValue<Vec<u8>, V>)| *p.0),
                out@.to_set() == start.union(prefixed(keys.take(it.index() as int).to_set(), prefix@)),
        {
            let (key, _value) = pair;
            proof {
                assert(pair == all[it.index()]);
                assert(keys[it.index() as int] == *key);
                lemma_gather_step(out@, start, keys, it.index() as int, prefix@);
            }
            push_if_prefixed(out, key, prefix);
        }
        proof {
            assert(keys.take(all.len() as int) =~= keys);
            self.lemma_visible_dom();
            assert forall|k: Vec<u8>| keys.to_set().contains(k) <==> self@.visible.dom().contains(k) by {
                if self.visible@.contains_key(k) {
                    assert(all.contains((&k, &self.visible@[k])));
                    let i = choose|i: int| 0 <= i < all.len() && all[i] == (&k, &self.visible@[k]);
                    assert(keys[i] == k);
                }
                if keys.to_set().contains(k) {
                    let i = choose|i: int| 0 <= i < keys.len() && keys[i] == k;
                    assert(self.visible@.contains_key(*all[i].0));
                }
            }
            assert(keys.to_set() =~= self@.visible.dom());
        }
    }

    /// Appends the coalesced overlay's keys that start with `prefix`.
    fn gather_overlay(&self, prefix: &[u8], out: &mut Vec<Vec<u8>>)
        requires
            self.wf(),
        ensures
            final(out)@.to_set() == old(out)@.to_set().union(prefixed(overlay_keys(self@.overlay), prefix@)),
    {
        proof {
            self.lemma_consistent();
        }
        let ghost ov = self@.overlay;
        let ghost start = out@.to_set();
        let ghost order = ov.active_order;
        proof {
            lemma_gather_start(out@, order, prefix@);
        }
        let n = self.coalesced.active_count();
        let mut i: usize = 0;
        while i < n
            invariant
                self.wf(),
                ov == self@.overlay,
                order == ov.active_order,
                n == order.len(),
                i <= n,
                out@.to_set() == start.union(prefixed(order.take(i as int).to_set(), prefix@)),
            decreases n - i,
        {
            let key = self.coalesced.active_key(i);
            proof {
                lemma_gather_step(out@, start, order, i as int, prefix@);
            }
            push_if_prefixed(out, key, prefix);
            i += 1;
        }
        proof {
            assert(order.take(n as int) =~= order);
        }
        let ghost after_active = out@.to_set();
        let ghost batch: Seq<Vec<u8>> = match ov.inflight {
            Some(b) => b.map_values(|r: crate::entry::DirtyRecord<Vec<u8>, V>| r.key),
            None => Seq::empty(),
        };
        proof {
            lemma_gather_start(out@, batch, prefix@);
        }
        let m = self.coalesced.inflight_count();
        let mut j: usize = 0;
        while j < m
            invariant
                self.wf(),
                ov == self@.overlay,
                m == inflight_len(ov),
                batch == (match ov.inflight {
                    Some(b) => b.map_values(|r: crate::entry::DirtyRecord<Vec<u8>, V>| r.key),
                    None => Seq::empty(),
                }),
                m == batch.len(),
                j <= m,
                out@.to_set() == after_active.union(prefixed(batch.take(j as int).to_set(), prefix@)),
            decreases m - j,
        {
            let record = self.coalesced.inflight_at(j);
            proof {
                assert(batch[j as int] == record.key);
                lemma_gather_step(out@, after_active, batch, j as int, prefix@);
            }
            push_if_prefixed(out, &record.key, prefix);
            j += 1;
        }
        proof {
            assert(batch.take(m as int) =~= batch);
        }
        let ghost after_inflight = out@.to_set();
        let ghost drained: Seq<Vec<u8>> = match ov.draining {
            Some((_, o)) => o,
            None => Seq::empty(),
        };
        proof {
            lemma_gather_start(out@, drained, prefix@);
        }
        let d = self.coalesced.draining_count();
        let mut h: usize = 0;
        while h < d
            invariant
                self.wf(),
                ov == self@.overlay,
                drained == (match ov.draining {
                    Some((_, o)) => o,
                    None => Seq::<Vec<u8>>::empty(),
                }),
                d == drained.len(),
                h <= d,
                out@.to_set() == after_inflight.union(prefixed(drained.take(h as int).to_set(), prefix@)),
            decreases d - h,
        {
            let key = self.coalesced.draining_key(h);
            proof {
                lemma_gather_step(out@, after_inflight, drained, h as int, prefix@);
            }
            push_if_prefixed(out, key, prefix);
            h += 1;
        }
        proof {
            assert(drained.take(d as int) =~= drained);
            let inflight_keys = match ov.inflight {
                Some(b) => super::coalesced::batch_keys(b),
                None => Set::<Vec<u8>>::empty(),
            };
            let draining_keys = match ov.draining {
                Some((records, _)) => records.dom(),
                None => Set::<Vec<u8>>::empty(),
            };
            assert(batch.to_set() =~= inflight_keys);
            assert(drained.to_set() =~= draining_keys);
            assert(out@.to_set() =~= start.union(prefixed(overlay_keys(ov), prefix@)));
        }
    }

    /// The candidate keys that start with `prefix`, each byte string once, in byte-wise order,
    /// at most `limit` of them.
    fn snapshot_prefix_keys_sorted(&self, prefix: &[u8], limit: usize) -> (r: Vec<Vec<u8>>)
        requires
            self.wf(),
        ensures
            byte_views(r@) == prefix_listing(self@, prefix@, limit),
            forall|i: int| 0 <= i < r@.len() ==> listing_candidates(self@).contains(#[trigger] r@[i]),
    {
        let mut found: Vec<Vec<u8>> = Vec::new();
        proof {
            assert(found@.to_set() =~= Set::<Vec<u8>>::empty());
        }
        self.gather_visible(prefix, &mut found);
        if self.dirty_write_mode == DirtyWriteMode::CoalescedMap {
            self.gather_overlay(prefix, &mut found);
        }
        let ghost cands = listing_candidates(self@);
        proof {
            assert(found@.to_set() =~= prefixed(cands, prefix@));
        }
        let ghost gathered = found@;
        let mut sorted = sort_unique(found);
        proof {
            let matches = prefix_matches(self@, prefix@);
            assert forall|b: Seq<u8>| byte_views(gathered).to_set().contains(b) <==> matches.contains(b) by {
                if byte_views(gathered).to_set().contains(b) {
                    let i = choose|i: int| 0 <= i < byte_views(gathered).len() && byte_views(gathered)[i] == b;
                    assert(gathered.to_set().contains(gathered[i]));
                    assert(cands.contains(gathered[i]));
                    assert(cands.map(|k: Vec<u8>| k@).contains(b));
                }
                if matches.contains(b) {
                    let k = choose|k: Vec<u8>| cands.contains(k) && b == k@;
                    assert(prefixed(cands, prefix@).contains(k));
                    assert(gathered.to_set().contains(k));
                    let i = choose|i: int| 0 <= i < gathered.len() && gathered[i] == k;
                    assert(byte_views(gathered)[i] == b);
                }
            }
            assert(byte_views(sorted@).to_set() =~= matches);
            lemma_is_ordered_listing(byte_views(sorted@), matches);
            assert forall|i: int| 0 <= i < sorted@.len() implies cands.contains(#[trigger] sorted@[i]) by {
                assert(gathered.contains(sorted@[i]));
                let j = choose|j: int| 0 <= j < gathered.len() && gathered[j] == sorted@[i];
                assert(gathered.to_set().contains(gathered[j]));
            }
        }
        let ghost whole = sorted@;
        sorted.truncate(limit);
        proof {
            if whole.len() > limit {
                assert(byte_views(sorted@) =~= byte_views(whole).take(limit as int));
            }
            assert forall|i: int| 0 <= i < sorted@.len() implies cands.contains(#[trigger] sorted@[i]) by {
                assert(sorted@[i] == whole[i]);
            }
        }
        sorted
    }

    /// Hands `reader` the keys the map shows that start with `prefix`, in byte-wise order, at
    /// most `limit` of them, and returns what it returns. Nothing is flushed.
    pub fn with_prefix_snapshot<R, F: FnOnce(&[Vec<u8>]) -> R>(
        &self,
        prefix: &[u8],
        limit: usize,
        reader: F,
    ) -> (r: R)
        requires
            self.wf(),
            forall|keys: &[Vec<u8>]| reader.requires((keys,)),
        ensures
            exists|keys: &[Vec<u8>]|
                {
                    &&& byte_views(keys@) == prefix_listing(self@, prefix@, limit)
                    &&& forall|i: int|
                        0 <= i < keys@.len() ==> listing_candidates(self@).contains(#[trigger] keys@[i])
                    &&& reader.ensures((keys,), r)
                },
    {
        let keys = self.snapshot_prefix_keys_sorted(prefix, limit);
        let listed = keys.as_slice();
        let r = reader(listed);
        assert(byte_views(listed@) == prefix_listing(self@, prefix@, limit));
        r
    }

    /// Runs `reader` on the key, value and state of each key the map shows that starts with
    /// `prefix`, in byte-wise order, at most `limit` of them; returns how many were read.
    pub fn for_each_prefix<F: Fn(&Vec<u8>, &V, EntryState)>(
        &self,
        prefix: &[u8],
        reader: F,
        limit: usize,
    ) -> (count: usize)
        requires
            self.wf(),
            forall|k: &Vec<u8>, v: &V, s: EntryState| reader.requires((k, v, s)),
        ensures
            count == prefix_listing(self@, prefix@, limit).len(),
    {
        if limit == 0 {
            return 0;
        }
        let keys = self.snapshot_prefix_keys_sorted(prefix, limit);
        let mut matched: usize = 0;
        let mut i: usize = 0;
        while i < keys.len()
            invariant
                self.wf(),
                forall|k: &Vec<u8>, v: &V, s: EntryState| reader.requires((k, v, s)),
                forall|j: int| 0 <= j < keys@.len() ==> listing_candidates(self@).contains(#[trigger] keys@[j]),
                i <= keys@.len(),
                matched == i,
            decreases keys@.len() - i,
        {
            proof {
                self.lemma_candidates_readable(keys@[i as int]);
            }
            if let Some((k, v, s, _)) = self.lookup(&keys[i]) {
                reader(k, v, s);
                matched += 1;
            }
            i += 1;
        }
        assert(byte_views(keys@).len() == keys@.len());
        matched
    }

    /// Runs `reader` on each key the map shows that starts with `prefix`, in byte-wise order,
    /// at most `limit` of them; returns how many were read.
    pub fn for_each_prefix_key<F: Fn(&Vec<u8>)>(&self, prefix: &[u8], reader: F, limit: usize) -> (count:
        usize)
        requires
            self.wf(),
            forall|k: &Vec<u8>| reader.requires((k,)),
        ensures
            count == prefix_listing(self@, prefix@, limit).len(),
    {
        if limit == 0 {
            return 0;
        }
        let keys = self.snapshot_prefix_keys_sorted(prefix, limit);
        let mut matched: usize = 0;
        let mut i: usize = 0;
        while i < keys.len()
            invariant
                self.wf(),
                forall|k: &Vec<u8>| reader.requires((k,)),
                forall|j: int| 0 <= j < keys@.len() ==> listing_candidates(self@).contains(#[trigger] keys@[j]),
                i <= keys@.len(),
                matched == i,
            decreases keys@.len() - i,
        {
            proof {
                self.lemma_candidates_readable(keys@[i as int]);
            }
            if let Some((k, _, _, _)) = self.lookup(&keys[i]) {
                reader(k);
                matched += 1;
            }
            i += 1;
        }
        assert(byte_views(keys@).len() == keys@.len());
        matched
    }

    /// What `reader` returns for the key, value and state of each key the map shows that starts
    /// with `prefix`, in byte-wise order of the keys, at most `limit` of them.
    pub fn list_prefix<R, F: Fn(&Vec<u8>, &V, EntryState) -> R>(
        &self,
        prefix: &[u8],
        reader: F,
        limit: usize,
    ) -> (out: Vec<R>)
        requires
            self.wf(),
            forall|k: &Vec<u8>, v: &V, s: EntryState| reader.requires((k, v, s)),
        ensures
            out@.len() == prefix_listing(self@, prefix@, limit).len(),
            forall|i: int|
                0 <= i < out@.len() ==> listed_read(
                    self@,
                    prefix_listing(self@, prefix@, limit)[i],
                    reader,
                    #[trigger] out@[i],
                ),
    {
        let mut out: Vec<R> = Vec::new();
        if limit == 0 {
            return out;
        }
        let keys = self.snapshot_prefix_keys_sorted(prefix, limit);
        let ghost listing = prefix_listing(self@, prefix@, limit);
        let mut i: usize = 0;
        while i < keys.len()
            invariant
                self.wf(),
                forall|k: &Vec<u8>, v: &V, s: EntryState| reader.requires((k, v, s)),
                forall|j: int| 0 <= j < keys@.len() ==> listing_candidates(self@).contains(#[trigger] keys@[j]),
                byte_views(keys@) == listing,
                i <= keys@.len(),
                out@.len() == i,
                forall|j: int| 0 <= j < i ==> #[trigger] read_gives(self@, keys@[j], reader, out@[j]),
            decreases keys@.len() - i,
        {
            proof {
                self.lemma_candidates_readable(keys@[i as int]);
            }
            if let Some((k, v, s, _)) = self.lookup(&keys[i]) {
                let value = reader(k, v, s);
                out.push(value);
            }
            i += 1;
        }
        proof {
            assert forall|j: int| 0 <= j < out@.len() implies listed_read(
                self@,
                prefix_listing(self@, prefix@, limit)[j],
                reader,
                #[trigger] out@[j],
            ) by {
                assert(byte_views(keys@)[j] == keys@[j]@);
                assert(listing_candidates(self@).contains(keys@[j]));
                assert(read_gives(self@, keys@[j], reader, out@[j]));
            }
        }
        out
    }
}

} // verus!
