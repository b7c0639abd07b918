//! A map whose visible index stores `key -> latest write id` and whose writes live in a
//! [`MonotonicRing`] in write order.
//!
//! Payload layout: word 0 holds the key, word 1 the value, the other words are zero.
use std::collections::hash_map::RandomState;
use std::hash::BuildHasher;
use vstd::prelude::*;

use crate::ring::{tag_of, Direct, MonotonicRing, Payload};

verus! {

#[verifier::external_type_specification]
#[verifier::external_body]
#[verifier::reject_recursive_types(K)]
#[verifier::reject_recursive_types(V)]
#[verifier::reject_recursive_types(H)]
pub struct ExConcurrentHashMap<K, V, H: BuildHasher>(scc::HashMap<K, V, H>);

/// The concurrent index from key to write id.
pub type IdIndex = scc::HashMap<u64, u64>;

/// The index that holds no key.
pub open spec fn no_ids() -> Map<u64, u64> {
    Map::empty()
}

/// The key/value pairs held by a concurrent id index.
pub uninterp spec fn id_index_contents(m: IdIndex) -> Map<u64, u64>;

/// `scc::HashMap::with_capacity`: an empty map.
#[verifier::external_body]
fn id_index_with_capacity(capacity: usize) -> (r: IdIndex)
    ensures
        id_index_contents(r) == no_ids(),
{
    scc::HashMap::with_capacity(capacity)
}

/// `scc::HashMap::upsert_sync`: afterwards `key` maps to `id`, every other key is unchanged.
#[verifier::external_body]
fn id_index_upsert(m: &mut IdIndex, key: u64, id: u64)
    ensures
        id_index_contents(*final(m)) == id_index_contents(*old(m)).insert(key, id),
{
    let _ = m.upsert_sync(key, id);
}

/// `scc::HashMap::read_sync`: the value stored for `key`, if any.
#[verifier::external_body]
fn id_index_get(m: &IdIndex, key: u64) -> (r: Option<u64>)
    ensures
        r == (if id_index_contents(*m).contains_key(key) {
            Some(id_index_contents(*m)[key])
        } else {
            None
        }),
{
    m.read_sync(&key, |_, id| *id)
}

/// Whether a stored id equals `id`.
fn points_at(current: &mut u64, id: u64) -> (r: bool)
    ensures
        r == (*old(current) == id),
        *final(current) == *old(current),
{
    *current == id
}

/// `scc::HashMap::remove_if_sync`: removes `key` exactly when it is stored with value `id`.
#[verifier::external_body]
fn id_index_remove_if_points_at(m: &mut IdIndex, key: u64, id: u64)
    ensures
        id_index_contents(*final(m)) == (if id_index_contents(*old(m)).contains_key(key)
            && id_index_contents(*old(m))[key] == id {
            id_index_contents(*old(m)).remove(key)
        } else {
            id_index_contents(*old(m))
        }),
{
    let _ = m.remove_if_sync(&key, |current| points_at(current, id));
}

/// The visible-index state after the flusher passes over the ids `from..from + count` of `ring`:
/// each id whose slot still holds it unpublishes its key if the key still points at it.
pub open spec fn unpublish_flushed(
    m: Map<u64, u64>,
    ring: MonotonicRing<Direct>,
    from: int,
    count: nat,
) -> Map<u64, u64>
    decreases count,
{
    if count == 0 {
        m
    } else {
        let prev = unpublish_flushed(m, ring, from, (count - 1) as nat);
        let id = (from + count - 1) as u64;
        let slot = ring.slot_of(id);
        if ring.slot_tag(slot) == tag_of(id) {
            let key = ring.slot_value(slot)[0];
            if prev.contains_key(key) && prev[key] == id {
                prev.remove(key)
            } else {
                prev
            }
        } else {
            prev
        }
    }
}

/// Unpublishing only removes keys, and keeps every key whose id lies outside the flushed range.
proof fn lemma_unpublish_only_flushed(
    m: Map<u64, u64>,
    ring: MonotonicRing<Direct>,
    from: int,
    count: nat,
    k: u64,
)
    requires
        0 <= from,
        from + count <= u64::MAX,
    ensures
        ({
            let r = unpublish_flushed(m, ring, from, count);
            &&& r.contains_key(k) ==> m.contains_key(k) && r[k] == m[k]
            &&& m.contains_key(k) && (m[k] < from || m[k] >= from + count) ==> r.contains_key(k)
        }),
    decreases count,
{
    if count > 0 {
        lemma_unpublish_only_flushed(m, ring, from, (count - 1) as nat, k);
    }
}

/// The value of `payload` if it was written for `key`.
pub open spec fn value_for_key(payload: &Payload, key: u64) -> Option<u64> {
    if payload[0] == key {
        Some(payload[1])
    } else {
        None
    }
}

pub struct IdRingMap {
    ids: IdIndex,
    ring: MonotonicRing<Direct>,
}

impl IdRingMap {
    pub closed spec fn wf(&self) -> bool {
        self.ring.wf()
    }

    /// The visible index: key to latest write id.
    pub closed spec fn index(&self) -> Map<u64, u64> {
        id_index_contents(self.ids)
    }

    pub closed spec fn spec_ring(&self) -> MonotonicRing<Direct> {
        self.ring
    }

    /// The value the visible index resolves `key` to, if its write is still in the ring.
    pub open spec fn resolves(&self, key: u64) -> Option<u64> {
        if self.index().contains_key(key) {
            let id = self.index()[key];
            let ring = self.spec_ring();
            let payload = ring.slot_value(ring.slot_of(id));
            if ring.readable(id) && payload[0] == key {
                Some(payload[1])
            } else {
                None
            }
        } else {
            None
        }
    }

    /// What `upsert` does: the ring takes a fresh write under `id` whose payload carries `key`
    /// and `value`, and the index points `key` at it.
    pub open spec fn upsert_step(self, next: Self, key: u64, value: u64, id: u64) -> bool {
        let ring = next.spec_ring();
        let payload = ring.slot_value(ring.slot_of(id));
        &&& self.spec_ring().push_step(ring, id, payload)
        &&& payload[0] == key
        &&& payload[1] == value
        &&& next.index() == self.index().insert(key, id)
    }

    /// What `flush_advance(n)` does: the ring pops `advanced` ids and the index drops each key
    /// that still pointed at one of them.
    pub open spec fn flush_step(self, next: Self, n: u64, advanced: u64) -> bool {
        &&& self.spec_ring().pop_n_step(next.spec_ring(), n, advanced)
        &&& next.index() == unpublish_flushed(
            self.index(),
            self.spec_ring(),
            self.spec_ring().spec_base() as int,
            advanced as nat,
        )
    }

    /// `key`'s latest write is `id`, carrying `value`, and that write is still in the ring.
    pub open spec fn serves(&self, key: u64, id: u64, value: u64) -> bool {
        let ring = self.spec_ring();
        let payload = ring.slot_value(ring.slot_of(id));
        &&& self.index().contains_key(key)
        &&& self.index()[key] == id
        &&& id < ring.spec_top()
        &&& ring.readable(id)
        &&& payload[0] == key
        &&& payload[1] == value
    }

    /// A key whose latest write is still in the ring reads as that write's value.
    pub proof fn lemma_serves_reads(&self, key: u64, id: u64, value: u64)
        requires
            self.serves(key, id, value),
        ensures
            self.resolves(key) == Some(value),
    {
    }

    /// A key that the index does not hold reads as absent.
    pub proof fn lemma_unwritten_reads_none(&self, key: u64)
        requires
            !self.index().contains_key(key),
        ensures
            self.resolves(key) is None,
    {
    }

    /// After `upsert(key, value)` returns `id`, `key` is served by that write.
    pub proof fn lemma_upsert_serves(self, next: Self, key: u64, value: u64, id: u64)
        requires
            self.wf(),
            self.upsert_step(next, key, value, id),
        ensures
            next.serves(key, id, value),
    {
        let p = next.spec_ring().slot_value(next.spec_ring().slot_of(id));
        self.spec_ring().lemma_push_readable(next.spec_ring(), id, p);
    }

    /// An upsert of another key keeps `k` served by its write while that write's slot has not
    /// come round again (`top - id` at most the ring capacity after the upsert).
    pub proof fn lemma_upsert_keeps_serving(
        self,
        next: Self,
        key: u64,
        value: u64,
        id: u64,
        k: u64,
        kid: u64,
        v: u64,
    )
        requires
            self.wf(),
            self.upsert_step(next, key, value, id),
            k != key,
            self.serves(k, kid, v),
            next.spec_ring().spec_top() - kid <= next.spec_ring().spec_capacity(),
        ensures
            next.serves(k, kid, v),
    {
        let r0 = self.spec_ring();
        let r1 = next.spec_ring();
        let p = r1.slot_value(r1.slot_of(id));
        let q = r0.slot_value(r0.slot_of(kid));
        r0.lemma_push_keeps(r1, id, p, kid, q);
    }

    /// A flush keeps `k` served by its write while the flush stops at or before that write.
    pub proof fn lemma_flush_keeps_serving(
        self,
        next: Self,
        n: u64,
        advanced: u64,
        k: u64,
        kid: u64,
        v: u64,
    )
        requires
            self.wf(),
            self.flush_step(next, n, advanced),
            self.serves(k, kid, v),
            next.spec_ring().spec_base() <= kid,
        ensures
            next.serves(k, kid, v),
    {
        let r0 = self.spec_ring();
        let r1 = next.spec_ring();
        let q = r0.slot_value(r0.slot_of(kid));
        r0.lemma_base_le_top();
        r0.lemma_pop_n_keeps(r1, n, advanced, kid, q);
        lemma_unpublish_only_flushed(self.index(), r0, r0.spec_base() as int, advanced as nat, k);
    }

    /// An upsert of another key leaves a key the index does not hold absent.
    pub proof fn lemma_upsert_keeps_unwritten(
        self,
        next: Self,
        key: u64,
        value: u64,
        id: u64,
        k: u64,
    )
        requires
            self.upsert_step(next, key, value, id),
            k != key,
            !self.index().contains_key(k),
        ensures
            !next.index().contains_key(k),
    {
    }

    /// A flush leaves a key the index does not hold absent.
    pub proof fn lemma_flush_keeps_unwritten(self, next: Self, n: u64, advanced: u64, k: u64)
        requires
            self.wf(),
            self.flush_step(next, n, advanced),
            !self.index().contains_key(k),
        ensures
            !next.index().contains_key(k),
    {
        let r0 = self.spec_ring();
        r0.lemma_base_le_top();
        lemma_unpublish_only_flushed(self.index(), r0, r0.spec_base() as int, advanced as nat, k);
    }

    /// `next` follows from this map by a call of `upsert` for a key other than `key`, or by a
    /// call of `flush_advance`.
    pub open spec fn step_besides(self, next: Self, key: u64) -> bool {
        ||| exists|k: u64, v: u64, id: u64| k != key && #[trigger] self.upsert_step(next, k, v, id)
        ||| exists|n: u64, a: u64| #[trigger] self.flush_step(next, n, a)
    }

    /// `maps` is a run of well-formed maps, each following from the one before by a call that
    /// leaves `key` alone: an upsert of another key, or a flush.
    pub open spec fn is_run_besides(maps: Seq<Self>, key: u64) -> bool {
        &&& forall|i: int| 0 <= i < maps.len() ==> #[trigger] maps[i].wf()
        &&& forall|i: int|
            0 <= i < maps.len() - 1 ==> #[trigger] maps[i].step_besides(maps[i + 1], key)
    }

    /// Along such a run the ring's base and top never move back and its capacity stays.
    pub proof fn lemma_run_monotone(maps: Seq<Self>, key: u64, i: int, j: int)
        requires
            Self::is_run_besides(maps, key),
            0 <= i <= j < maps.len(),
        ensures
            maps[i].spec_ring().spec_base() <= maps[j].spec_ring().spec_base(),
            maps[i].spec_ring().spec_top() <= maps[j].spec_ring().spec_top(),
            maps[i].spec_ring().spec_capacity() == maps[j].spec_ring().spec_capacity(),
        decreases j - i,
    {
        if i < j {
            Self::lemma_run_monotone(maps, key, i, j - 1);
            let a = j - 1;
            assert(maps[a].step_besides(maps[a + 1], key));
            assert(maps[a].wf());
            maps[a].spec_ring().lemma_base_le_top();
        }
    }

    /// Read after upsert over a whole run: after `upsert(key, value)` returns `id`, and later
    /// upserts of other keys and flushes, `read(key)` gives `value` as long as no flush passed
    /// `id` (the base is at most `id`) and its ring slot has not come round again (`top - id` at
    /// most the ring capacity).
    pub proof fn lemma_run_reads_latest(before: Self, maps: Seq<Self>, key: u64, value: u64, id: u64)
        requires
            before.wf(),
            maps.len() > 0,
            before.upsert_step(maps[0], key, value, id),
            Self::is_run_besides(maps, key),
            maps.last().spec_ring().spec_base() <= id,
            maps.last().spec_ring().spec_top() - id <= maps.last().spec_ring().spec_capacity(),
        ensures
            maps.last().serves(key, id, value),
            maps.last().resolves(key) == Some(value),
    {
        Self::lemma_run_serves_upto(before, maps, key, value, id, maps.len() - 1);
    }

    proof fn lemma_run_serves_upto(
        before: Self,
        maps: Seq<Self>,
        key: u64,
        value: u64,
        id: u64,
        k: int,
    )
        requires
            before.wf(),
            0 <= k < maps.len(),
            before.upsert_step(maps[0], key, value, id),
            Self::is_run_besides(maps, key),
            maps.last().spec_ring().spec_base() <= id,
            maps.last().spec_ring().spec_top() - id <= maps.last().spec_ring().spec_capacity(),
        ensures
            maps[k].serves(key, id, value),
        decreases k,
    {
        if k == 0 {
            before.lemma_upsert_serves(maps[0], key, value, id);
        } else {
            Self::lemma_run_serves_upto(before, maps, key, value, id, k - 1);
            Self::lemma_run_monotone(maps, key, k, maps.len() - 1);
            let a = k - 1;
            assert(maps[a].step_besides(maps[a + 1], key));
            let cur = maps[a];
            let next = maps[a + 1];
            if exists|k2: u64, v2: u64, i2: u64| k2 != key && #[trigger] cur.upsert_step(next, k2, v2, i2) {
                let (k2, v2, i2) = choose|k2: u64, v2: u64, i2: u64|
                    k2 != key && #[trigger] cur.upsert_step(next, k2, v2, i2);
                cur.lemma_upsert_keeps_serving(next, k2, v2, i2, key, id, value);
            } else {
                let (n, adv) = choose|n: u64, adv: u64| #[trigger] cur.flush_step(next, n, adv);
                cur.lemma_flush_keeps_serving(next, n, adv, key, id, value);
            }
        }
    }

    /// A key that no call of a run wrote, and that the index did not hold at its start, reads as
    /// absent at its end.
    pub proof fn lemma_run_keeps_unwritten(maps: Seq<Self>, key: u64)
        requires
            maps.len() > 0,
            Self::is_run_besides(maps, key),
            !maps[0].index().contains_key(key),
        ensures
            !maps.last().index().contains_key(key),
            maps.last().resolves(key) is None,
    {
        Self::lemma_run_unwritten_upto(maps, key, maps.len() - 1);
    }

    proof fn lemma_run_unwritten_upto(maps: Seq<Self>, key: u64, k: int)
        requires
            0 <= k < maps.len(),
            Self::is_run_besides(maps, key),
            !maps[0].index().contains_key(key),
        ensures
            !maps[k].index().contains_key(key),
        decreases k,
    {
        if k > 0 {
            Self::lemma_run_unwritten_upto(maps, key, k - 1);
            let a = k - 1;
            assert(maps[a].step_besides(maps[a + 1], key));
            let cur = maps[a];
            let next = maps[a + 1];
            if exists|k2: u64, v2: u64, i2: u64| k2 != key && #[trigger] cur.upsert_step(next, k2, v2, i2) {
                let (k2, v2, i2) = choose|k2: u64, v2: u64, i2: u64|
                    k2 != key && #[trigger] cur.upsert_step(next, k2, v2, i2);
                cur.lemma_upsert_keeps_unwritten(next, k2, v2, i2, key);
            } else {
                let (n, adv) = choose|n: u64, adv: u64| #[trigger] cur.flush_step(next, n, adv);
                cur.lemma_flush_keeps_unwritten(next, n, adv, key);
            }
        }
    }

    pub fn new(visible_capacity: usize, ring_capacity: usize) -> (r: Self)
        requires
            ring_capacity <= usize::MAX / 2 + 1,
        ensures
            r.wf(),
            r.index() == Map::<u64, u64>::empty(),
            r.spec_ring().spec_top() == 0,
            r.spec_ring().spec_base() == 0,
            r.spec_ring().spec_capacity() >= ring_capacity,
    {
        let visible = if visible_capacity > 1 {
            visible_capacity
        } else {
            1
        };
        let ring_cap = if ring_capacity > 1 {
            ring_capacity
        } else {
            1
        };
        IdRingMap { ids: id_index_with_capacity(visible), ring: MonotonicRing::new(ring_cap) }
    }

    fn encode(key: u64, value: u64) -> (r: Payload)
        ensures
            r[0] == key,
            r[1] == value,
    {
        let mut payload = [0u64; 512];
        payload[0] = key;
        payload[1] = value;
        payload
    }

    /// The value of `payload` if it was written for `key`.
    fn value_if_key(payload: &Payload, key: u64) -> (r: Option<u64>)
        ensures
            r == value_for_key(payload, key),
    {
        let (stored_key, value) = Self::decode(payload);
        if stored_key == key {
            Some(value)
        } else {
            None
        }
    }

    fn decode(payload: &Payload) -> (r: (u64, u64))
        ensures
            r == (payload[0], payload[1]),
    {
        (payload[0], payload[1])
    }

    /// Inserts or overwrites `key`, returning the write id allocated in ring order.
    pub fn upsert(&mut self, key: u64, value: u64) -> (id: u64)
        requires
            old(self).wf(),
            old(self).spec_ring().spec_top() < u64::MAX,
        ensures
            final(self).wf(),
            old(self).upsert_step(*final(self), key, value, id),
            final(self).resolves(key) == (if id >= old(self).spec_ring().spec_base() {
                Some(value)
            } else {
                None
            }),
    {
        let id = self.ring.push(Self::encode(key, value));
        id_index_upsert(&mut self.ids, key, id);
        id
    }

    /// The currently visible value of `key`: `None` when the key is absent, when its write was
    /// overwritten in the ring or popped, or when the slot names another key.
    pub fn read(&self, key: u64) -> (r: Option<u64>)
        requires
            self.wf(),
        ensures
            r == self.resolves(key),
    {
        let id = match id_index_get(&self.ids, key) {
            Some(id) => id,
            None => return None,
        };
        let pick = |payload: &Payload| -> (r: Option<u64>)
            ensures
                r == value_for_key(payload, key),
            {
                Self::value_if_key(payload, key)
            };
        let found = self.ring.read(id, pick);
        match found {
            Some(inner) => inner,
            None => None,
        }
    }

    /// Advances the flush frontier by up to `n` ids. For each id, the key its slot names is
    /// unpublished if it still points at that id, then the id is popped. Returns the number of ids
    /// advanced.
    pub fn flush_advance(&mut self, n: u64) -> (advanced: u64)
        requires
            old(self).wf(),
        ensures
            final(self).wf(),
            old(self).flush_step(*final(self), n, advanced),
    {
        proof {
            self.ring.lemma_base_le_top();
        }
        if n == 0 {
            return 0;
        }
        let ghost ring0 = self.ring;
        let ghost base0 = self.ring.spec_base();
        let mut advanced: u64 = 0;
        let mut i: u64 = 0;
        while i < n
            invariant
                self.wf(),
                advanced == i,
                i <= n,
                self.ring.spec_base() == base0 + advanced,
                self.ring.spec_top() == ring0.spec_top(),
                base0 + advanced <= ring0.spec_top(),
                self.ring.spec_capacity() == ring0.spec_capacity(),
                ring0.wf(),
                base0 == ring0.spec_base(),
                forall|s: int|
                    0 <= s < ring0.spec_capacity() ==> self.ring.slot_value(s) == ring0.slot_value(s),
                forall|s: int|
                    0 <= s < ring0.spec_capacity() ==> #[trigger] self.ring.slot_tag(s) == (
                    if ring0.cleared_by(ring0.slot_tag(s), s, base0 as int, base0 + advanced) {
                        0
                    } else {
                        ring0.slot_tag(s)
                    }),
                id_index_contents(self.ids) == unpublish_flushed(
                    id_index_contents(old(self).ids),
                    ring0,
                    base0 as int,
                    advanced as nat,
                ),
                old(self).ring == ring0,
            ensures
                self.wf(),
                self.ring.spec_top() == ring0.spec_top(),
                self.ring.spec_capacity() == ring0.spec_capacity(),
                forall|s: int|
                    0 <= s < ring0.spec_capacity() ==> self.ring.slot_value(s) == ring0.slot_value(s),
                forall|s: int|
                    0 <= s < ring0.spec_capacity() ==> #[trigger] self.ring.slot_tag(s) == (
                    if ring0.cleared_by(ring0.slot_tag(s), s, base0 as int, base0 + advanced) {
                        0
                    } else {
                        ring0.slot_tag(s)
                    }),
                advanced == (if ring0.spec_top() - ring0.spec_base() < n {
                    ring0.spec_top() - ring0.spec_base()
                } else {
                    n as int
                }),
                self.ring.spec_base() == base0 + advanced,
                id_index_contents(self.ids) == unpublish_flushed(
                    id_index_contents(old(self).ids),
                    ring0,
                    base0 as int,
                    advanced as nat,
                ),
            decreases n - i,
        {
            proof {
                self.ring.lemma_base_le_top();
            }
            let id = self.ring.base();
            if id >= self.ring.top() {
                break;
            }
            let ghost before = id_index_contents(self.ids);
            proof {
                let s = ring0.slot_of(id);
                assert(self.ring.slot_of(id) == s);
                if ring0.cleared_by(ring0.slot_tag(s), s, base0 as int, base0 + advanced) {
                    assert(self.ring.slot_tag(s) == 0);
                    assert(ring0.slot_tag(s) != tag_of(id));
                } else {
                    assert(self.ring.slot_tag(s) == ring0.slot_tag(s));
                }
            }
            let key = self.ring.read(id, |payload: &Payload| -> (r: u64) ensures r == payload[0] { payload[0] });
            if let Some(key) = key {
                id_index_remove_if_points_at(&mut self.ids, key, id);
            }
            let step = self.ring.pop_n(1);
            proof {
                assert forall|s: int| 0 <= s < ring0.spec_capacity() implies #[trigger] self.ring.slot_tag(s) == (
                    if ring0.cleared_by(ring0.slot_tag(s), s, base0 as int, base0 + advanced + 1) {
                        0
                    } else {
                        ring0.slot_tag(s)
                    }) by {
                }
            }
            proof {
                self.ring.lemma_base_le_top();
            }
            advanced = advanced + step;
            i = i + 1;
        }
        proof {
            assert forall|x: u64| base0 <= x < self.ring.spec_base() implies !self.ring.readable(x) by {
                let s = ring0.slot_of(x);
                ring0.lemma_base_le_top();
                assert(0 <= s < ring0.spec_capacity());
                assert(self.ring.slot_of(x) == s);
                if ring0.cleared_by(ring0.slot_tag(s), s, base0 as int, base0 + advanced) {
                    assert(self.ring.slot_tag(s) == 0);
                } else {
                    assert(self.ring.slot_tag(s) == ring0.slot_tag(s));
                }
            }
        }
        advanced
    }

    pub fn base(&self) -> (r: u64)
        ensures
            r == self.spec_ring().spec_base(),
    {
        self.ring.base()
    }

    pub fn top(&self) -> (r: u64)
        ensures
            r == self.spec_ring().spec_top(),
    {
        self.ring.top()
    }
}

} // verus!
