//! A copy of the map's state for tests that compare it against the model.
use std::collections::HashSet;
use std::hash::Hash;
use vstd::prelude::*;
use vstd::std_specs::iter::IteratorSpec;

use super::coalesced::{
    batch_keys, draining_record, inflight_record, keyed_record, keys_unique, overlay_keys,
    OverlayView,
};
use super::spec::{MapView, VisibleEntry};
use super::table::{copy_key, key_model};
use super::types::{DirtyWriteMode, VisibleValue};
use super::CacheLogMap;
use crate::entry::{unshare, DirtyRecord, FlushBatch, WriteId};

verus! {

/// A record as the snapshot shows it.
#[derive(Clone, Debug, PartialEq, Eq)]
pub struct DebugRecord<K, V> {
    pub id: u64,
    pub key: K,
    pub value: V,
}

/// A visible entry as the snapshot shows it.
#[derive(Clone, Debug, PartialEq, Eq)]
pub enum DebugVisible<K, V> {
    Dirty(DebugRecord<K, V>),
    Clean(DebugRecord<K, V>),
}

/// The map's entries, dirty records and counters.
#[derive(Clone, Debug, PartialEq, Eq)]
pub struct DebugSnapshot<K, V> {
    pub visible: Vec<(K, DebugVisible<K, V>)>,
    pub dirty_pending: Vec<DebugRecord<K, V>>,
    pub dirty_inflight: Vec<DebugRecord<K, V>>,
    pub next_write: u64,
    pub next_cache: u64,
    pub clean_count: usize,
}

/// Whether `d` copies the dirty record `r` (its value through `Clone`).
pub open spec fn copies_record<K, V: Clone>(d: DebugRecord<K, V>, r: DirtyRecord<K, V>) -> bool {
    d.id == r.id && d.key == r.key && cloned(r.value, d.value)
}

/// Whether `d` copies the visible entry `e`.
pub open spec fn copies_entry<K, V: Clone>(d: DebugVisible<K, V>, e: VisibleEntry<K, V>) -> bool {
    match (d, e) {
        (DebugVisible::Dirty(c), VisibleEntry::Dirty(r)) => c.id == r.id && c.key == r.key && cloned(
            r.value,
            c.value,
        ),
        (DebugVisible::Clean(c), VisibleEntry::Clean(r)) => c.id == r.id && c.key == r.key && cloned(
            r.value,
            c.value,
        ),
        _ => false,
    }
}

/// Whether `out` copies `records` one for one.
pub open spec fn copies_records<K, V: Clone>(out: Seq<DebugRecord<K, V>>, records: Seq<DirtyRecord<K, V>>) -> bool {
    &&& out.len() == records.len()
    &&& forall|i: int| 0 <= i < out.len() ==> copies_record(#[trigger] out[i], records[i])
}

/// Whether `out` lists each entry of `visible` once, under its key.
pub open spec fn lists_visible<K, V: Clone>(
    out: Seq<(K, DebugVisible<K, V>)>,
    visible: Map<K, VisibleEntry<K, V>>,
) -> bool {
    &&& out.map_values(|p: (K, DebugVisible<K, V>)| p.0).no_duplicates()
    &&& out.map_values(|p: (K, DebugVisible<K, V>)| p.0).to_set() == visible.dom()
    &&& forall|i: int| 0 <= i < out.len() ==> copies_entry(#[trigger] out[i].1, visible[out[i].0])
}

/// The record the overlay shows for `key`: the active table's first, then the batch in flight,
/// then the draining snapshot's.
pub open spec fn overlay_shown<K, V>(o: OverlayView<K, V>, key: K) -> Option<DirtyRecord<K, V>> {
    if o.active.contains_key(key) {
        Some(DirtyRecord { id: o.active[key].id, key, value: o.active[key].value })
    } else if inflight_record(o, key) is Some {
        inflight_record(o, key)
    } else if draining_record(o, key) is Some {
        Some(
            DirtyRecord {
                id: draining_record(o, key)->0.id,
                key,
                value: draining_record(o, key)->0.value,
            },
        )
    } else {
        None
    }
}

/// Whether `out` lists each key of the overlay once, with the record the overlay shows for it.
pub open spec fn lists_overlay<K, V: Clone>(out: Seq<(K, DebugVisible<K, V>)>, o: OverlayView<K, V>) -> bool {
    &&& out.map_values(|p: (K, DebugVisible<K, V>)| p.0).no_duplicates()
    &&& out.map_values(|p: (K, DebugVisible<K, V>)| p.0).to_set() == overlay_keys(o)
    &&& forall|i: int|
        0 <= i < out.len() ==> (#[trigger] out[i].1 matches DebugVisible::Dirty(d) && overlay_shown(
            o,
            out[i].0,
        ) matches Some(r) && copies_record(d, r))
}

/// The dirty records a listing shows whose ids are not among `inflight`'s.
pub open spec fn pending_in<K, V>(out: Seq<(K, DebugVisible<K, V>)>, inflight: Seq<DebugRecord<K, V>>) -> Seq<
    DebugRecord<K, V>,
>
    decreases out.len(),
{
    if out.len() == 0 {
        Seq::empty()
    } else {
        let prev = pending_in(out.drop_last(), inflight);
        match out.last().1 {
            DebugVisible::Dirty(d) => if (exists|j: int| 0 <= j < inflight.len() && inflight[j].id == d.id) {
                prev
            } else {
                prev.push(d)
            },
            DebugVisible::Clean(_) => prev,
        }
    }
}

fn copy_dirty<K: Clone, V: Clone>(record: &DirtyRecord<K, V>) -> (r: DebugRecord<K, V>)
    requires
        super::table::keys_clone_exactly::<K>(),
    ensures
        copies_record(r, *record),
{
    DebugRecord { id: record.id, key: copy_key(&record.key), value: record.value.clone() }
}

fn copy_batch<K: Clone, V: Clone>(batch: &FlushBatch<K, V>) -> (r: Vec<DebugRecord<K, V>>)
    requires
        super::table::keys_clone_exactly::<K>(),
    ensures
        copies_records(r@, batch@),
{
    let mut out: Vec<DebugRecord<K, V>> = Vec::new();
    let mut i: usize = 0;
    while i < batch.len()
        invariant
            super::table::keys_clone_exactly::<K>(),
            i <= batch@.len(),
            copies_records(out@, batch@.take(i as int)),
        decreases batch@.len() - i,
    {
        let record = batch.get(i).unwrap();
        out.push(copy_dirty(record));
        i += 1;
    }
    proof {
        assert(batch@.take(batch@.len() as int) =~= batch@);
    }
    out
}

/// Whether `a` copies `b` one for one (values through `Clone`).
pub open spec fn copies_debug<K, V: Clone>(a: Seq<DebugRecord<K, V>>, b: Seq<DebugRecord<K, V>>) -> bool {
    &&& a.len() == b.len()
    &&& forall|i: int|
        0 <= i < a.len() ==> #[trigger] a[i].id == b[i].id && a[i].key == b[i].key && cloned(
            b[i].value,
            a[i].value,
        )
}

/// The keys of a listing.
pub open spec fn listed_keys<K, V>(out: Seq<(K, DebugVisible<K, V>)>) -> Seq<K> {
    out.map_values(|p: (K, DebugVisible<K, V>)| p.0)
}

/// Whether every entry of `out` copies the record the overlay shows for its key.
pub open spec fn shows_overlay<K, V: Clone>(out: Seq<(K, DebugVisible<K, V>)>, o: OverlayView<K, V>) -> bool {
    forall|i: int|
        0 <= i < out.len() ==> (#[trigger] out[i].1 matches DebugVisible::Dirty(d) && overlay_shown(
            o,
            out[i].0,
        ) matches Some(r) && copies_record(d, r))
}

/// Appends `(key, record)` to a listing and records `key` as listed.
fn push_listed<K: Clone + Eq + Hash, V>(
    out: &mut Vec<(K, DebugVisible<K, V>)>,
    seen: &mut HashSet<K>,
    record: DebugRecord<K, V>,
)
    requires
        key_model::<K>(),
        old(seen)@ == listed_keys(old(out)@).to_set(),
        listed_keys(old(out)@).no_duplicates(),
        !old(seen)@.contains(record.key),
    ensures
        final(out)@ == old(out)@.push((record.key, DebugVisible::Dirty(record))),
        final(seen)@ == listed_keys(final(out)@).to_set(),
        listed_keys(final(out)@).no_duplicates(),
{
    let key = copy_key(&record.key);
    let listed = copy_key(&record.key);
    let ghost before = listed_keys(out@);
    seen.insert(listed);
    out.push((key, DebugVisible::Dirty(record)));
    proof {
        assert(listed_keys(out@) =~= before.push(key));
        before.lemma_push_to_set_commute(key);
        assert(!before.contains(key));
    }
}

impl<K: Clone + Eq + Hash, V: Clone> CacheLogMap<K, V> {
    /// The overlay's keys, each once with the record it shows: active entries in arrival order,
    /// then in-flight records, then draining entries, skipping keys already listed.
    fn snapshot_overlay(&self) -> (r: Vec<(K, DebugVisible<K, V>)>)
        requires
            self.wf(),
        ensures
            lists_overlay(r@, self@.overlay),
    {
        let ghost ov = self@.overlay;
        proof {
            self.coalesced.lemma_consistent();
        }
        let mut out: Vec<(K, DebugVisible<K, V>)> = Vec::new();
        let mut seen: HashSet<K> = HashSet::new();
        proof {
            assert(listed_keys(out@) =~= Seq::<K>::empty());
            assert(seen@ =~= listed_keys(out@).to_set());
        }
        let n = self.coalesced.active_count();
        let mut i: usize = 0;
        while i < n
            invariant
                self.wf(),
                ov == self@.overlay,
                super::coalesced::overlay_consistent(ov),
                n == ov.active_order.len(),
                i <= n,
                seen@ == listed_keys(out@).to_set(),
                listed_keys(out@).no_duplicates(),
                listed_keys(out@) == ov.active_order.take(i as int),
                shows_overlay(out@, ov),
            decreases n - i,
        {
            let key = self.coalesced.active_key(i);
            proof {
                assert(ov.active_order.contains(*key));
                assert(ov.active.dom().contains(*key));
                assert(!listed_keys(out@).contains(*key)) by {
                    if listed_keys(out@).contains(*key) {
                        let j = choose|j: int| 0 <= j < i && ov.active_order.take(i as int)[j] == *key;
                        assert(ov.active_order[j] == ov.active_order[i as int]);
                    }
                }
            }
            let (_, record) = self.coalesced.read_active(key).unwrap();
            let copied = DebugRecord { id: record.id, key: copy_key(key), value: record.value.clone() };
            let ghost before = listed_keys(out@);
            push_listed(&mut out, &mut seen, copied);
            proof {
                assert(listed_keys(out@) =~= before.push(*key));
                assert(ov.active_order.take(i + 1) =~= ov.active_order.take(i as int).push(
                    ov.active_order[i as int],
                ));
            }
            i += 1;
        }
        proof {
            assert(ov.active_order.take(n as int) =~= ov.active_order);
            assert(seen@ =~= ov.active.dom());
        }
        let m = self.coalesced.inflight_count();
        let ghost batch = match ov.inflight {
            Some(b) => b,
            None => Seq::<DirtyRecord<K, V>>::empty(),
        };
        let mut j: usize = 0;
        while j < m
            invariant
                self.wf(),
                ov == self@.overlay,
                super::coalesced::overlay_consistent(ov),
                m == super::coalesced::inflight_len(ov),
                batch.len() == m,
                ov.inflight is Some ==> ov.inflight == Some(batch),
                j <= m,
                seen@ == listed_keys(out@).to_set(),
                listed_keys(out@).no_duplicates(),
                seen@ == ov.active.dom().union(batch.take(j as int).map_values(|r: DirtyRecord<K, V>| r.key).to_set()),
                shows_overlay(out@, ov),
            decreases m - j,
        {
            let record = self.coalesced.inflight_at(j);
            let ghost f = |r: DirtyRecord<K, V>| r.key;
            proof {
                assert(*record == batch[j as int]);
                assert(batch.take(j + 1).map_values(f) =~= batch.take(j as int).map_values(f).push(record.key));
                batch.take(j as int).map_values(f).lemma_push_to_set_commute(record.key);
            }
            let ghost old_seen = seen@;
            if !seen.contains(&record.key) {
                proof {
                    assert(!ov.active.contains_key(record.key));
                    assert(keyed_record(batch, record.key) == Some(batch[j as int])) by {
                        assert(keys_unique(batch));
                        let c = choose|c: int| 0 <= c < batch.len() && batch[c].key == record.key;
                        assert(c == j);
                    }
                }
                let copied = copy_dirty(record);
                let ghost before = listed_keys(out@);
                push_listed(&mut out, &mut seen, copied);
                proof {
                    assert(listed_keys(out@) =~= before.push(record.key));
                    before.lemma_push_to_set_commute(record.key);
                    assert(seen@ =~= old_seen.insert(record.key));
                }
            }
            proof {
                assert(seen@ =~= ov.active.dom().union(batch.take(j + 1).map_values(f).to_set()));
            }
            j += 1;
        }
        let ghost inflight_keys = batch.map_values(|r: DirtyRecord<K, V>| r.key).to_set();
        proof {
            assert(batch.take(m as int) =~= batch);
            assert(inflight_keys =~= match ov.inflight {
                Some(b) => batch_keys(b),
                None => Set::<K>::empty(),
            });
        }
        let d = self.coalesced.draining_count();
        let ghost order = match ov.draining {
            Some((_, o)) => o,
            None => Seq::<K>::empty(),
        };
        let mut k: usize = 0;
        while k < d
            invariant
                self.wf(),
                ov == self@.overlay,
                super::coalesced::overlay_consistent(ov),
                d == order.len(),
                ov.draining is Some ==> (ov.draining matches Some((_, o)) && o == order),
                ov.draining is None ==> order.len() == 0,
                batch.len() == m,
                ov.inflight is Some ==> ov.inflight == Some(batch),
                ov.inflight is None ==> batch.len() == 0,
                inflight_keys == batch.map_values(|r: DirtyRecord<K, V>| r.key).to_set(),
                k <= d,
                seen@ == listed_keys(out@).to_set(),
                listed_keys(out@).no_duplicates(),
                seen@ == ov.active.dom().union(inflight_keys).union(order.take(k as int).to_set()),
                shows_overlay(out@, ov),
            decreases d - k,
        {
            let key = self.coalesced.draining_key(k);
            proof {
                assert(order.take(k + 1) =~= order.take(k as int).push(*key));
                order.take(k as int).lemma_push_to_set_commute(*key);
            }
            let ghost old_seen = seen@;
            if !seen.contains(key) {
                proof {
                    assert(order.contains(*key));
                    assert(inflight_record(ov, *key) is None) by {
                        if let Some(b) = ov.inflight {
                            if exists|c: int| 0 <= c < b.len() && b[c].key == *key {
                                let c = choose|c: int| 0 <= c < b.len() && b[c].key == *key;
                                assert(batch.map_values(|r: DirtyRecord<K, V>| r.key)[c] == *key);
                                assert(inflight_keys.contains(*key));
                            }
                        }
                    }
                }
                let (_, record) = self.coalesced.read_draining(key).unwrap();
                let copied = DebugRecord { id: record.id, key: copy_key(key), value: record.value.clone() };
                let ghost before = listed_keys(out@);
                push_listed(&mut out, &mut seen, copied);
                proof {
                    assert(listed_keys(out@) =~= before.push(*key));
                    before.lemma_push_to_set_commute(*key);
                    assert(seen@ =~= old_seen.insert(*key));
                }
            }
            proof {
                assert(seen@ =~= ov.active.dom().union(inflight_keys).union(order.take(k + 1).to_set()));
            }
            k += 1;
        }
        proof {
            assert(order.take(d as int) =~= order);
            assert(listed_keys(out@).to_set() =~= overlay_keys(ov));
        }
        out
    }
}

impl<K: Clone + Eq + Hash, V: Clone> CacheLogMap<K, V> {
    /// The visible index's entries, each once, in the order the index yields them.
    fn snapshot_visible_index(&self, out: &mut Vec<(K, DebugVisible<K, V>)>)
        requires
            self.wf(),
        ensures
            final(out)@.len() == old(out)@.len() + self@.visible.len(),
            final(out)@.take(old(out)@.len() as int) == old(out)@,
            lists_visible(final(out)@.skip(old(out)@.len() as int), self@.visible),
    {
        let ghost start = out@;
        let entries = self.visible.iter();
        let ghost all = entries.remaining();
        proof {
            self.lemma_visible_dom();
            assert(all == vstd::std_specs::hash::spec_hash_map_iter(&self.visible).remaining());
        }
        for pair in it: entries
            invariant
                self.wf(),
                it.seq() == all,
                all == vstd::std_specs::hash::spec_hash_map_iter(&self.visible).remaining(),
                out@.len() == start.len() + it.index(),
                out@.take(start.len() as int) == start,
                forall|i: int|
                    0 <= i < it.index() ==> #[trigger] out@[start.len() + i].0 == *all[i].0
                        && copies_entry(out@[start.len() + i].1, self@.visible[*all[i].0]),
        {
            let (key, value) = pair;
            proof {
                assert(pair == all[it.index()]);
                self.lemma_visible_dom();
                assert(self.visible@.contains_key(*key));
                assert(self.visible@[*key] == *value);
                assert(self@.visible[*key] == super::spec::entry_of(*value));
            }
            let projected = match value {
                VisibleValue::Dirty(record) => DebugVisible::Dirty(
                    DebugRecord { id: record.id, key: copy_key(&record.key), value: record.value.clone() },
                ),
                VisibleValue::Clean(record) => DebugVisible::Clean(
                    DebugRecord { id: record.id, key: copy_key(&record.key), value: record.value.clone() },
                ),
            };
            out.push((copy_key(key), projected));
        }
        proof {
            let listed = out@.skip(start.len() as int);
            let keys = listed.map_values(|p: (K, DebugVisible<K, V>)| p.0);
            assert(listed.len() == all.len());
            assert forall|i: int| 0 <= i < listed.len() implies keys[i] == *all[i].0
                && self.visible@.contains_key(*all[i].0) by {
                assert(listed[i] == out@[start.len() + i]);
            }
            assert forall|i: int, j: int| 0 <= i < keys.len() && 0 <= j < keys.len() && i != j implies keys[i]
                != keys[j] by {
                if keys[i] == keys[j] {
                    assert(*all[i].1 == self.visible@[*all[i].0]);
                    assert(*all[j].1 == self.visible@[*all[j].0]);
                    assert(all[i] == all[j]);
                }
            }
            assert forall|k: K| keys.to_set().contains(k) <==> self@.visible.dom().contains(k) by {
                if self.visible@.contains_key(k) {
                    assert(all.contains((&k, &self.visible@[k])));
                    let i = choose|i: int| 0 <= i < all.len() && all[i] == (&k, &self.visible@[k]);
                    assert(keys[i] == k);
                }
                if keys.to_set().contains(k) {
                    let i = choose|i: int| 0 <= i < keys.len() && keys[i] == k;
                    assert(self.visible@.contains_key(*all[i].0));
                }
            }
            assert(keys.to_set() =~= self@.visible.dom());
            assert forall|i: int| 0 <= i < listed.len() implies copies_entry(#[trigger] listed[i].1, self@.visible[listed[i].0]) by {
                assert(listed[i] == out@[start.len() + i]);
            }
            assert(self@.visible.len() == all.len()) by {
                assert(self@.visible.dom() =~= self.visible@.dom());
            }
        }
    }
}

/// The dirty records of `out` whose ids are not among `inflight`'s, in order.
fn collect_coalesced_pending<K: Clone, V: Clone>(
    out: &Vec<(K, DebugVisible<K, V>)>,
    inflight: &Vec<DebugRecord<K, V>>,
) -> (r: Vec<DebugRecord<K, V>>)
    requires
        super::table::keys_clone_exactly::<K>(),
    ensures
        copies_debug(r@, pending_in(out@, inflight@)),
{
    let mut pending: Vec<DebugRecord<K, V>> = Vec::new();
    let mut i: usize = 0;
    while i < out.len()
        invariant
            super::table::keys_clone_exactly::<K>(),
            i <= out@.len(),
            copies_debug(pending@, pending_in(out@.take(i as int), inflight@)),
        decreases out@.len() - i,
    {
        proof {
            assert(out@.take(i + 1).drop_last() =~= out@.take(i as int));
        }
        match &out[i].1 {
            DebugVisible::Dirty(record) => {
                let mut j: usize = 0;
                let mut in_flight = false;
                while j < inflight.len()
                    invariant
                        j <= inflight@.len(),
                        in_flight == (exists|c: int| 0 <= c < j && inflight@[c].id == record.id),
                    decreases inflight@.len() - j,
                {
                    if inflight[j].id == record.id {
                        in_flight = true;
                    }
                    j += 1;
                }
                if !in_flight {
                    let copied = DebugRecord {
                        id: record.id,
                        key: copy_key(&record.key),
                        value: record.value.clone(),
                    };
                    pending.push(copied);
                }
            },
            DebugVisible::Clean(_) => {},
        }
        i += 1;
    }
    proof {
        assert(out@.take(out@.len() as int) =~= out@);
    }
    pending
}

impl<K: Clone + Eq + Hash, V: Clone> CacheLogMap<K, V> {
    /// A copy of the map's entries, dirty records and counters. In coalesced mode the overlay's
    /// keys come first, then the visible index's entries, and the pending records are the listed
    /// dirty records not in flight.
    pub fn debug_snapshot(&self) -> (r: DebugSnapshot<K, V>)
        requires
            self.wf(),
        ensures
            r.next_write == (if self@.mode == DirtyWriteMode::StrictLog {
                self@.next_write
            } else {
                self@.next_dirty_write
            }),
            r.next_cache == self@.next_cache,
            r.clean_count == self@.clean_count,
            self@.mode == DirtyWriteMode::StrictLog ==> {
                &&& lists_visible(r.visible@, self@.visible)
                &&& copies_records(r.dirty_pending@, self@.pending)
                &&& match self@.inflight {
                    Some(batch) => copies_records(r.dirty_inflight@, batch),
                    None => r.dirty_inflight@.len() == 0,
                }
            },
            self@.mode == DirtyWriteMode::CoalescedMap ==> {
                let n = overlay_keys(self@.overlay).len() as int;
                &&& lists_overlay(r.visible@.take(n), self@.overlay)
                &&& lists_visible(r.visible@.skip(n), self@.visible)
                &&& match self@.overlay.inflight {
                    Some(batch) => copies_records(r.dirty_inflight@, batch),
                    None => r.dirty_inflight@.len() == 0,
                }
                &&& copies_debug(r.dirty_pending@, pending_in(r.visible@, r.dirty_inflight@))
            },
    {
        let coalesced = self.dirty_write_mode == DirtyWriteMode::CoalescedMap;
        let mut visible = if coalesced {
            self.snapshot_overlay()
        } else {
            Vec::new()
        };
        let ghost head = visible@;
        proof {
            if coalesced {
                listed_keys(head).unique_seq_to_set();
            }
        }
        self.snapshot_visible_index(&mut visible);
        proof {
            if !coalesced {
                assert(visible@.skip(0) =~= visible@);
            }
        }
        let (dirty_pending, dirty_inflight) = if coalesced {
            let mut inflight: Vec<DebugRecord<K, V>> = Vec::new();
            let m = self.coalesced.inflight_count();
            let mut i: usize = 0;
            while i < m
                invariant
                    self.wf(),
                    m == super::coalesced::inflight_len(self@.overlay),
                    i <= m,
                    self@.overlay.inflight matches Some(batch) ==> copies_records(
                        inflight@,
                        batch.take(i as int),
                    ),
                    self@.overlay.inflight is None ==> inflight@.len() == 0,
                decreases m - i,
            {
                let record = self.coalesced.inflight_at(i);
                inflight.push(copy_dirty(record));
                i += 1;
            }
            proof {
                if let Some(batch) = self@.overlay.inflight {
                    assert(batch.take(m as int) =~= batch);
                }
            }
            (collect_coalesced_pending(&visible, &inflight), inflight)
        } else {
            let handles = self.dirty_mode.pending_handles();
            let mut pending: Vec<DebugRecord<K, V>> = Vec::new();
            let mut i: usize = 0;
            while i < handles.len()
                invariant
                    self.wf(),
                    i <= handles@.len(),
                    unshare(handles@) == self@.pending,
                    copies_records(pending@, self@.pending.take(i as int)),
                decreases handles@.len() - i,
            {
                pending.push(copy_dirty(&*handles[i]));
                i += 1;
            }
            proof {
                assert(self@.pending.take(handles@.len() as int) =~= self@.pending);
            }
            let inflight = match self.dirty_mode.inflight_batch() {
                Some(batch) => copy_batch(&batch),
                None => Vec::new(),
            };
            (pending, inflight)
        };
        let next_write = if coalesced {
            self.next_dirty_write
        } else {
            self.dirty_mode.next_write()
        };
        DebugSnapshot {
            visible,
            dirty_pending,
            dirty_inflight,
            next_write,
            next_cache: self.next_cache,
            clean_count: self.clean_count,
        }
    }
}

} // verus!
