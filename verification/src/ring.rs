//! A monotonic ring of fixed-size payloads addressed by ever-growing ids.
//!
//! `push` hands out the next id and stores the payload in slot `id % capacity`, tagging the slot
//! with `id + 1`; `read` accepts a slot only while its tag still names the requested id and the
//! id is not below `base`; `pop` and `pop_n` advance `base` and clear the slots they release.
use std::marker::PhantomData;
use vstd::arithmetic::div_mod::{lemma_mod_equivalence, lemma_small_mod};
use vstd::arithmetic::power2::{lemma2_to64, lemma_pow2_strictly_increases, lemma_pow2_unfold, pow2};
use vstd::bits::{lemma_u64_low_bits_mask_is_mod, low_bits_mask};
use vstd::prelude::*;

verus! {

pub const PAYLOAD_WORDS: usize = 512;

pub type Payload = [u64; PAYLOAD_WORDS];

/// Selects how a read validates the slot it copied.
pub trait ReadMode {
    /// Whether a read re-checks the tag and the base after copying the payload.
    fn checked() -> bool;
}

/// Reads check the base and the tag once.
pub struct Direct;

/// Reads re-check the tag and the base after copying.
pub struct Checked;

impl ReadMode for Direct {
    /// Direct reads never re-check.
    fn checked() -> (r: bool)
        ensures
            !r,
    {
        false
    }
}

impl ReadMode for Checked {
    /// Checked reads always re-check.
    fn checked() -> (r: bool)
        ensures
            r,
    {
        true
    }
}

struct Slot {
    /// `id + 1` while the slot holds write `id`, `0` when empty.
    tag: u64,
    value: Payload,
}

impl Slot {
    fn new() -> (r: Self)
        ensures
            r.tag == 0,
            forall|i: int| 0 <= i < PAYLOAD_WORDS ==> r.value[i] == 0,
    {
        Slot { tag: 0, value: [0u64; 512] }
    }
}

/// The tag a slot carries while it holds `id` (`id + 1`, wrapping).
pub open spec fn tag_of(id: u64) -> u64 {
    if id == u64::MAX {
        0
    } else {
        (id + 1) as u64
    }
}

/// The smallest power of two that is at least `n`, and its exponent.
fn next_power_of_two(n: usize) -> (r: (usize, Ghost<nat>))
    requires
        0 < n <= usize::MAX / 2 + 1,
    ensures
        r.0 == pow2(r.1@),
        r.0 >= n,
        r.1@ == 0 || pow2((r.1@ - 1) as nat) < n,
        r.1@ < 64,
{
    let mut p: usize = 1;
    let ghost mut k: nat = 0;
    proof {
        lemma2_to64();
    }
    while p < n
        invariant
            0 < n <= usize::MAX / 2 + 1,
            p == pow2(k),
            p >= 1,
            k == 0 || pow2((k - 1) as nat) < n,
        decreases usize::MAX - p,
    {
        proof {
            lemma_pow2_unfold(k + 1);
        }
        p = p * 2;
        proof {
            k = k + 1;
        }
    }
    proof {
        lemma2_to64();
        if k >= 64 {
            if k > 64 {
                lemma_pow2_strictly_increases(64, k);
            }
        }
    }
    (p, Ghost(k))
}

/// A monotonic ring over `u64` payloads.
pub struct MonotonicRing<M: ReadMode = Direct> {
    mask: u64,
    capacity: u64,
    top: u64,
    base: u64,
    slots: Vec<Slot>,
    log_capacity: Ghost<nat>,
    _mode: PhantomData<M>,
}

impl<M: ReadMode> MonotonicRing<M> {
    /// The ring's structural invariant.
    pub closed spec fn wf(&self) -> bool {
        &&& self.log_capacity@ < 64
        &&& self.capacity == pow2(self.log_capacity@)
        &&& self.capacity <= usize::MAX
        &&& self.mask == self.capacity - 1
        &&& self.slots@.len() == self.capacity
        &&& self.base <= self.top
        &&& self.tags_issued()
    }

    /// Every nonempty slot carries the tag of an id that was handed out and maps to that slot.
    spec fn tags_issued(&self) -> bool {
        forall|i: int|
            0 <= i < self.slots@.len() ==> #[trigger] self.slots@[i].tag == 0 || (
            self.slots@[i].tag - 1 < self.top && (self.slots@[i].tag - 1) % (self.capacity as int)
                == i)
    }

    pub closed spec fn spec_capacity(&self) -> nat {
        self.capacity as nat
    }

    pub closed spec fn spec_top(&self) -> u64 {
        self.top
    }

    pub closed spec fn spec_base(&self) -> u64 {
        self.base
    }

    /// The slot that holds `id`.
    pub open spec fn slot_of(&self, id: u64) -> int {
        id as int % self.spec_capacity() as int
    }

    pub closed spec fn slot_tag(&self, slot: int) -> u64 {
        self.slots@[slot].tag
    }

    pub closed spec fn slot_value(&self, slot: int) -> Payload {
        self.slots@[slot].value
    }

    /// Whether a read of `id` finds its payload.
    pub open spec fn readable(&self, id: u64) -> bool {
        id >= self.spec_base() && self.slot_tag(self.slot_of(id)) == tag_of(id)
    }

    /// Whether popping the ids `start..end` clears slot `i`, which carried `tag` before: the tag
    /// must name one of those ids, held in that slot.
    pub open spec fn cleared_by(&self, tag: u64, i: int, start: int, end: int) -> bool {
        tag > 0 && start <= tag - 1 < end && self.slot_of((tag - 1) as u64) == i
    }

    /// What `push` does: `next` is this ring with `value` stored under the fresh id `id`, the
    /// former top; every other slot is untouched.
    pub open spec fn push_step(self, next: Self, id: u64, value: Payload) -> bool {
        &&& id == self.spec_top()
        &&& next.spec_top() == id + 1
        &&& next.spec_base() == self.spec_base()
        &&& next.spec_capacity() == self.spec_capacity()
        &&& next.slot_tag(next.slot_of(id)) == id + 1
        &&& next.slot_value(next.slot_of(id)) == value
        &&& forall|i: int|
            0 <= i < next.spec_capacity() && i != next.slot_of(id) ==> {
                &&& next.slot_tag(i) == self.slot_tag(i)
                &&& next.slot_value(i) == self.slot_value(i)
            }
    }

    /// What `pop` does: on an empty ring nothing; otherwise the base moves past the oldest id,
    /// whose slot is cleared (and its first word returned) if it still holds that id.
    pub open spec fn pop_step(self, next: Self, r: Option<(u64, u64)>) -> bool {
        &&& next.spec_top() == self.spec_top()
        &&& next.spec_capacity() == self.spec_capacity()
        &&& self.spec_base() >= self.spec_top() ==> r is None && next == self
        &&& self.spec_base() < self.spec_top() ==> {
            let id = self.spec_base();
            let s = self.slot_of(id);
            &&& next.spec_base() == id + 1
            &&& (self.slot_tag(s) == tag_of(id) ==> {
                &&& r == Some((id, self.slot_value(s)[0]))
                &&& next.slot_tag(s) == 0
            })
            &&& (self.slot_tag(s) != tag_of(id) ==> r is None && next.slot_tag(s) == self.slot_tag(
                s,
            ))
            &&& next.slot_value(s) == self.slot_value(s)
            &&& forall|i: int|
                0 <= i < next.spec_capacity() && i != s ==> next.slot_tag(i) == self.slot_tag(i)
                    && next.slot_value(i) == self.slot_value(i)
        }
    }

    /// What `pop_n(n)` does: the base advances by `r`, the smaller of `n` and the number of
    /// pushed ids not yet popped; the slots still holding the popped ids are cleared.
    pub open spec fn pop_n_step(self, next: Self, n: u64, r: u64) -> bool {
        &&& next.spec_top() == self.spec_top()
        &&& next.spec_capacity() == self.spec_capacity()
        &&& r == (if self.spec_top() - self.spec_base() < n {
            self.spec_top() - self.spec_base()
        } else {
            n as int
        })
        &&& next.spec_base() == self.spec_base() + r
        &&& forall|id: u64| self.spec_base() <= id < next.spec_base() ==> !next.readable(id)
        &&& forall|i: int|
            0 <= i < next.spec_capacity() ==> next.slot_value(i) == self.slot_value(i)
        &&& forall|i: int|
            0 <= i < next.spec_capacity() ==> #[trigger] next.slot_tag(i) == (if self.cleared_by(
                self.slot_tag(i),
                i,
                self.spec_base() as int,
                next.spec_base() as int,
            ) {
                0
            } else {
                self.slot_tag(i)
            })
    }

    /// Whether a read of `id` finds the payload `v`.
    pub open spec fn holds(&self, id: u64, v: Payload) -> bool {
        self.readable(id) && self.slot_value(self.slot_of(id)) == v
    }

    /// The base never passes the top.
    pub proof fn lemma_base_le_top(&self)
        requires
            self.wf(),
        ensures
            self.spec_base() <= self.spec_top(),
            self.spec_capacity() > 0,
    {
        vstd::arithmetic::power2::lemma_pow2_pos(self.log_capacity@);
    }

    /// A fresh push is readable: right after `push` returns `id`, a read of `id` finds `value`.
    pub proof fn lemma_push_readable(self, next: Self, id: u64, value: Payload)
        requires
            self.wf(),
            self.push_step(next, id, value),
        ensures
            next.holds(id, value),
    {
    }

    /// A later push keeps an earlier id readable while its slot has not come round again: if `x`
    /// was handed out (`x < top`) and, after the push, `top - x` is at most the capacity, a read
    /// of `x` still finds `v`.
    pub proof fn lemma_push_keeps(self, next: Self, id: u64, value: Payload, x: u64, v: Payload)
        requires
            self.wf(),
            self.push_step(next, id, value),
            self.holds(x, v),
            x < self.spec_top(),
            next.spec_top() - x <= next.spec_capacity(),
        ensures
            next.holds(x, v),
    {
        self.lemma_base_le_top();
        let c = self.spec_capacity() as int;
        if self.slot_of(x) == self.slot_of(id) {
            lemma_mod_equivalence(id as int, x as int, c);
            lemma_small_mod((id - x) as nat, c as nat);
        }
    }

    /// `pop` keeps every id at or above the new base readable with the same payload.
    pub proof fn lemma_pop_keeps(self, next: Self, r: Option<(u64, u64)>, x: u64, v: Payload)
        requires
            self.wf(),
            self.pop_step(next, r),
            self.holds(x, v),
            next.spec_base() <= x,
        ensures
            next.holds(x, v),
    {
    }

    /// `pop_n` keeps every id at or above the new base readable with the same payload.
    pub proof fn lemma_pop_n_keeps(self, next: Self, n: u64, r: u64, x: u64, v: Payload)
        requires
            self.wf(),
            self.pop_n_step(next, n, r),
            self.holds(x, v),
            next.spec_base() <= x,
        ensures
            next.holds(x, v),
    {
        let i = self.slot_of(x);
        self.lemma_base_le_top();
        assert(0 <= i < self.spec_capacity());
        assert(next.slot_tag(i) == self.slot_tag(i));
    }

    /// Nothing is readable below the base, nor at or above the top (but for the id `u64::MAX`,
    /// whose tag is that of an empty slot).
    pub proof fn lemma_unreadable_outside(&self, j: u64)
        requires
            self.wf(),
            j < self.spec_base() || (self.spec_top() <= j && j < u64::MAX),
        ensures
            !self.readable(j),
    {
        if j >= self.spec_base() {
            self.lemma_base_le_top();
            let i = self.slot_of(j);
            assert(0 <= i < self.slots@.len());
            assert(self.slots@[i].tag == 0 || self.slots@[i].tag - 1 < self.top);
        }
    }

    /// `next` follows from this ring by one call of `push`, `pop` or `pop_n`.
    pub open spec fn ring_step(self, next: Self) -> bool {
        ||| exists|id: u64, value: Payload| #[trigger] self.push_step(next, id, value)
        ||| exists|r: Option<(u64, u64)>| #[trigger] self.pop_step(next, r)
        ||| exists|n: u64, r: u64| #[trigger] self.pop_n_step(next, n, r)
    }

    /// `rings` is a run of well-formed rings, each following from the one before by a call of
    /// `push`, `pop` or `pop_n`.
    pub open spec fn is_run(rings: Seq<Self>) -> bool {
        &&& forall|i: int| 0 <= i < rings.len() ==> #[trigger] rings[i].wf()
        &&& forall|i: int| 0 <= i < rings.len() - 1 ==> #[trigger] rings[i].ring_step(rings[i + 1])
    }

    /// Along a run the base and the top never move back and the capacity stays.
    pub proof fn lemma_run_monotone(rings: Seq<Self>, i: int, j: int)
        requires
            Self::is_run(rings),
            0 <= i <= j < rings.len(),
        ensures
            rings[i].spec_base() <= rings[j].spec_base(),
            rings[i].spec_top() <= rings[j].spec_top(),
            rings[i].spec_capacity() == rings[j].spec_capacity(),
        decreases j - i,
    {
        if i < j {
            Self::lemma_run_monotone(rings, i, j - 1);
            let a = j - 1;
            assert(rings[a].ring_step(rings[a + 1]));
            rings[j - 1].lemma_base_le_top();
        }
    }

    /// Read after push over a whole run: after `push(value)` returns `id`, and any later calls of
    /// `push`, `pop` and `pop_n`, a read of `id` still finds `value` as long as the base has not
    /// passed `id` and its slot has not come round again (`top - id` at most the capacity).
    pub proof fn lemma_run_keeps_pushed(before: Self, rings: Seq<Self>, id: u64, value: Payload)
        requires
            before.wf(),
            rings.len() > 0,
            before.push_step(rings[0], id, value),
            Self::is_run(rings),
            rings.last().spec_base() <= id,
            rings.last().spec_top() - id <= rings.last().spec_capacity(),
        ensures
            rings.last().holds(id, value),
    {
        Self::lemma_run_keeps_pushed_upto(before, rings, id, value, rings.len() - 1);
    }

    proof fn lemma_run_keeps_pushed_upto(
        before: Self,
        rings: Seq<Self>,
        id: u64,
        value: Payload,
        k: int,
    )
        requires
            before.wf(),
            0 <= k < rings.len(),
            before.push_step(rings[0], id, value),
            Self::is_run(rings),
            rings.last().spec_base() <= id,
            rings.last().spec_top() - id <= rings.last().spec_capacity(),
        ensures
            rings[k].holds(id, value),
            id < rings[k].spec_top(),
        decreases k,
    {
        if k == 0 {
            before.lemma_push_readable(rings[0], id, value);
        } else {
            Self::lemma_run_keeps_pushed_upto(before, rings, id, value, k - 1);
            Self::lemma_run_monotone(rings, k, rings.len() - 1);
            let a = k - 1;
            assert(rings[a].ring_step(rings[a + 1]));
            let cur = rings[a];
            let next = rings[a + 1];
            if exists|i: u64, v: Payload| #[trigger] cur.push_step(next, i, v) {
                let (i, v) = choose|i: u64, v: Payload| #[trigger] cur.push_step(next, i, v);
                cur.lemma_push_keeps(next, i, v, id, value);
            } else if exists|r: Option<(u64, u64)>| #[trigger] cur.pop_step(next, r) {
                let r = choose|r: Option<(u64, u64)>| #[trigger] cur.pop_step(next, r);
                cur.lemma_pop_keeps(next, r, id, value);
            } else {
                let (n, r) = choose|n: u64, r: u64| #[trigger] cur.pop_n_step(next, n, r);
                cur.lemma_pop_n_keeps(next, n, r, id, value);
            }
        }
    }

    proof fn lemma_slot_index(&self, id: u64)
        requires
            self.wf(),
        ensures
            (id & self.mask) == id % self.capacity,
            (id & self.mask) < self.slots@.len(),
    {
        lemma_u64_low_bits_mask_is_mod(id, self.log_capacity@);
        assert(low_bits_mask(self.log_capacity@) == pow2(self.log_capacity@) - 1);
    }

    /// A ring with at least `capacity` slots (rounded up to a power of two), all empty.
    pub fn new(capacity: usize) -> (r: Self)
        requires
            0 < capacity <= usize::MAX / 2 + 1,
        ensures
            r.wf(),
            r.spec_capacity() >= capacity,
            exists|k: nat|
                r.spec_capacity() == #[trigger] pow2(k) && (k == 0 || pow2((k - 1) as nat) < capacity),
            r.spec_top() == 0,
            r.spec_base() == 0,
            forall|i: int| 0 <= i < r.spec_capacity() ==> r.slot_tag(i) == 0,
    {
        let (cap_pow2, k) = next_power_of_two(capacity);
        let mut slots: Vec<Slot> = Vec::new();
        let mut i: usize = 0;
        while i < cap_pow2
            invariant
                i <= cap_pow2,
                slots@.len() == i,
                forall|j: int| 0 <= j < i ==> slots@[j].tag == 0,
            decreases cap_pow2 - i,
        {
            slots.push(Slot::new());
            i += 1;
        }
        let r = MonotonicRing {
            mask: (cap_pow2 as u64) - 1,
            capacity: cap_pow2 as u64,
            top: 0,
            base: 0,
            slots,
            log_capacity: k,
            _mode: PhantomData,
        };
        assert(r.spec_capacity() == pow2(k@) && (k@ == 0 || pow2((k@ - 1) as nat) < capacity));
        r
    }

    pub fn capacity(&self) -> (r: usize)
        requires
            self.wf(),
        ensures
            r == self.spec_capacity(),
    {
        self.capacity as usize
    }

    /// The next id `push` hands out.
    pub fn top(&self) -> (r: u64)
        ensures
            r == self.spec_top(),
    {
        self.top
    }

    /// The first id not yet popped.
    pub fn base(&self) -> (r: u64)
        ensures
            r == self.spec_base(),
    {
        self.base
    }

    /// Stores `value` under a fresh id and returns that id.
    pub fn push(&mut self, value: Payload) -> (id: u64)
        requires
            old(self).wf(),
            old(self).spec_top() < u64::MAX,
        ensures
            final(self).wf(),
            old(self).push_step(*final(self), id, value),
    {
        let id = self.top;
        self.top = id + 1;
        proof {
            self.lemma_slot_index(id);
        }
        let index = (id & self.mask) as usize;
        self.slots.set(index, Slot { tag: 0, value });
        self.slots.set(index, Slot { tag: id + 1, value });
        id
    }

    /// Applies `f` to the payload of `id` if that payload is still in the ring.
    pub fn read<R, F: FnOnce(&Payload) -> R>(&self, id: u64, f: F) -> (r: Option<R>)
        requires
            self.wf(),
            forall|p: Payload| f.requires((&p,)),
        ensures
            r is Some <==> self.readable(id),
            r is Some ==> f.ensures((&self.slot_value(self.slot_of(id)),), r->0),
    {
        let base0 = self.base;
        if id < base0 {
            return None;
        }
        proof {
            self.lemma_slot_index(id);
        }
        let index = (id & self.mask) as usize;
        assert(index as int == self.slot_of(id));
        let expected = id.wrapping_add(1);
        assert(expected == tag_of(id));
        let tag0 = self.slots[index].tag;
        if tag0 != expected {
            return None;
        }
        let value = self.slots[index].value;
        if M::checked() {
            let tag1 = self.slots[index].tag;
            let base1 = self.base;
            if tag1 != expected || id < base1 {
                return None;
            }
        }
        Some(f(&value))
    }

    /// Pops the oldest id; returns it with the first word of its payload if its slot still held it.
    pub fn pop(&mut self) -> (r: Option<(u64, u64)>)
        requires
            old(self).wf(),
        ensures
            final(self).wf(),
            old(self).pop_step(*final(self), r),
    {
        let id = match self.claim_pop_id() {
            Some(id) => id,
            None => return None,
        };
        match self.clear_if_matches(id) {
            Some(first) => Some((id, first)),
            None => None,
        }
    }

    /// Pops up to `n` ids by advancing the base once, then clears the slots that still hold them.
    /// Returns how many ids were popped.
    pub fn pop_n(&mut self, n: u64) -> (r: u64)
        requires
            old(self).wf(),
        ensures
            final(self).wf(),
            old(self).pop_n_step(*final(self), n, r),
    {
        if n == 0 {
            return 0;
        }
        let (start, count) = self.claim_pop_range(n);
        let mut id = start;
        while id < start + count
            invariant
                self.wf(),
                start == old(self).spec_base(),
                self.spec_base() == start + count,
                self.spec_top() == old(self).spec_top(),
                self.spec_capacity() == old(self).spec_capacity(),
                start <= id <= start + count,
                start + count <= self.spec_top(),
                forall|i: int|
                    0 <= i < self.spec_capacity() ==> self.slot_value(i) == old(self).slot_value(i),
                forall|i: int|
                    0 <= i < self.spec_capacity() ==> #[trigger] self.slot_tag(i) == (
                    if old(self).cleared_by(old(self).slot_tag(i), i, start as int, id as int) {
                        0
                    } else {
                        old(self).slot_tag(i)
                    }),
            decreases start + count - id,
        {
            let ghost pre = *self;
            let _ = self.clear_if_matches(id);
            proof {
                assert forall|i: int| 0 <= i < self.spec_capacity() implies #[trigger] self.slot_tag(i) == (
                    if old(self).cleared_by(old(self).slot_tag(i), i, start as int, id + 1) {
                        0
                    } else {
                        old(self).slot_tag(i)
                    }) by {
                    if i == self.slot_of(id) {
                        if old(self).slot_tag(i) == tag_of(id) {
                            assert(old(self).cleared_by(old(self).slot_tag(i), i, start as int, id + 1));
                        } else if old(self).cleared_by(old(self).slot_tag(i), i, start as int, id as int) {
                            assert(pre.slot_tag(i) == 0);
                        } else {
                            assert(pre.slot_tag(i) == old(self).slot_tag(i));
                        }
                    }
                }
            }
            id += 1;
        }
        proof {
            assert forall|x: u64| old(self).spec_base() <= x < self.spec_base() implies !self.readable(x) by {
                let i = self.slot_of(x);
                if old(self).cleared_by(old(self).slot_tag(i), i, start as int, id as int) {
                    assert(self.slot_tag(i) == 0);
                } else {
                    assert(self.slot_tag(i) == old(self).slot_tag(i));
                }
            }
        }
        count
    }

    fn claim_pop_id(&mut self) -> (r: Option<u64>)
        requires
            old(self).wf(),
        ensures
            final(self).wf(),
            old(self).base >= old(self).top ==> r is None && *final(self) == *old(self),
            old(self).base < old(self).top ==> r == Some(old(self).base) && *final(self) == (
            MonotonicRing { base: (old(self).base + 1) as u64, ..*old(self) }),
    {
        let b = self.base;
        let t = self.top;
        if b >= t {
            return None;
        }
        self.base = b + 1;
        Some(b)
    }

    fn claim_pop_range(&mut self, n: u64) -> (r: (u64, u64))
        requires
            old(self).wf(),
        ensures
            final(self).wf(),
            r.0 == old(self).base,
            r.1 == (if old(self).top - old(self).base < n {
                old(self).top - old(self).base
            } else {
                n as int
            }),
            *final(self) == (MonotonicRing { base: (old(self).base + r.1) as u64, ..*old(self) }),
    {
        let b = self.base;
        let t = self.top;
        if b >= t {
            return (b, 0);
        }
        let avail = t - b;
        let take = if avail < n {
            avail
        } else {
            n
        };
        self.base = b + take;
        (b, take)
    }

    /// Clears the slot of `id` if it still holds `id`; returns the first word of its payload then.
    fn clear_if_matches(&mut self, id: u64) -> (r: Option<u64>)
        requires
            old(self).wf(),
        ensures
            final(self).wf(),
            final(self).top == old(self).top,
            final(self).base == old(self).base,
            final(self).capacity == old(self).capacity,
            ({
                let s = old(self).slot_of(id);
                &&& old(self).slot_tag(s) == tag_of(id) ==> r == Some(old(self).slot_value(s)[0])
                    && final(self).slot_tag(s) == 0
                &&& old(self).slot_tag(s) != tag_of(id) ==> r is None && final(self).slot_tag(s)
                    == old(self).slot_tag(s)
                &&& forall|i: int|
                    0 <= i < final(self).spec_capacity() ==> final(self).slot_value(i) == old(
                        self,
                    ).slot_value(i)
                &&& forall|i: int|
                    0 <= i < final(self).spec_capacity() && i != s ==> final(self).slot_tag(i)
                        == old(self).slot_tag(i)
            }),
    {
        proof {
            self.lemma_slot_index(id);
        }
        let index = (id & self.mask) as usize;
        assert(index as int == self.slot_of(id));
        let expected = id.wrapping_add(1);
        assert(expected == tag_of(id));
        if self.slots[index].tag == expected {
            let value = self.slots[index].value;
            self.slots.set(index, Slot { tag: 0, value });
            Some(value[0])
        } else {
            None
        }
    }
}

} // verus!
