//! Invariant checking for model states.
use vstd::prelude::*;

use super::spec::{
    all_ids_lt_next_write, apply_flushed, checkable, clean_record_ok, clean_refs_indexable,
    clean_refs_key_consistent, dirty_q_ordered, dirty_record_ok, dirty_refs_indexable,
    dirty_refs_live, durable_matches_flushed, durable_value_ok, expected_failures,
    flushed_keys_in_range, flushed_ordered, lost_dirty_indexable, no_lost_dirty,
    queued_after_flushed, shape_ok, strictly_increasing, visible_ref_ok,
};
use super::state::{
    absent_durable, CleanRecord, DirtyRecord, DurableValue, InvariantMode, InvariantReport,
    ModelConfig, ModelState, VisibleRef, WriteId,
};

verus! {

/// Whether `needle` occurs in `items`.
pub fn contains_id(items: &[usize], needle: usize) -> (r: bool)
    ensures
        r == items@.contains(needle),
{
    let mut index: usize = 0;
    while index < items.len()
        invariant
            index <= items.len(),
            forall|i: int| 0 <= i < index ==> items@[i] != needle,
        decreases items.len() - index,
    {
        if items[index] == needle {
            return true;
        }
        index += 1;
    }
    false
}

/// Whether `items` holds a dirty ref to `needle`.
pub fn contains_visible_dirty(items: &[VisibleRef], needle: WriteId) -> (r: bool)
    ensures
        r == items@.contains(VisibleRef::Dirty(needle)),
{
    let mut index: usize = 0;
    while index < items.len()
        invariant
            index <= items.len(),
            forall|i: int| 0 <= i < index ==> items@[i] != VisibleRef::Dirty(needle),
        decreases items.len() - index,
    {
        if items[index] == VisibleRef::Dirty(needle) {
            return true;
        }
        index += 1;
    }
    false
}

/// Whether every element of `items` is below the next one.
pub fn strictly_increasing_exec(items: &[usize]) -> (r: bool)
    ensures
        r == strictly_increasing(items@),
{
    if items.len() < 2 {
        return true;
    }
    let mut index: usize = 1;
    while index < items.len()
        invariant
            1 <= index <= items.len(),
            forall|i: int, j: int| 0 <= i < j < index ==> items@[i] < items@[j],
        decreases items.len() - index,
    {
        if items[index - 1] >= items[index] {
            return false;
        }
        assert forall|i: int, j: int| 0 <= i < j < index + 1 implies items@[i] < items@[j] by {
            if j == index as int && i < index - 1 {
                assert(items@[i] < items@[index - 1]);
            }
        }
        index += 1;
    }
    true
}

/// The durable store obtained by replaying `flushed` over `write_hist`.
pub fn apply_flushed_exec(config: ModelConfig, flushed: &Vec<WriteId>, write_hist: &Vec<DirtyRecord>) -> (r:
    Vec<DurableValue>)
    requires
        flushed_keys_in_range(config, flushed@, write_hist@),
    ensures
        r@ == apply_flushed(config, flushed@, write_hist@),
{
    let mut durable: Vec<DurableValue> = Vec::new();
    let mut k: usize = 0;
    while k < config.key_count
        invariant
            k <= config.key_count,
            durable@ == Seq::new(k as nat, |i: int| absent_durable()),
        decreases config.key_count - k,
    {
        durable.push(DurableValue::absent());
        k += 1;
    }
    let mut index: usize = 0;
    while index < flushed.len()
        invariant
            index <= flushed.len(),
            flushed_keys_in_range(config, flushed@, write_hist@),
            durable@ == apply_flushed(config, flushed@.subrange(0, index as int), write_hist@),
            durable@.len() == config.key_count,
        decreases flushed.len() - index,
    {
        let id = flushed[index];
        proof {
            let pre = flushed@.subrange(0, index as int + 1);
            assert(pre.drop_last() =~= flushed@.subrange(0, index as int));
            assert(pre.last() == id);
        }
        if id < write_hist.len() && write_hist[id].present {
            let record = write_hist[id];
            durable.set(record.key, DurableValue::present(record.value, id));
        }
        index += 1;
    }
    assert(flushed@.subrange(0, flushed@.len() as int) =~= flushed@);
    durable
}

impl ModelState {
    /// Checks every invariant of `mode` and names the violated ones.
    pub fn check_invariants_for_mode(&self, config: ModelConfig, mode: InvariantMode) -> (r:
        InvariantReport)
        requires
            checkable(self@, config),
        ensures
            r.failures@ == expected_failures(self@, config, mode),
    {
        let mut report = InvariantReport::empty();
        if !self.type_ok(config) {
            report.failures.push("TypeOK");
        }
        if !self.dirty_refs_live(config) {
            report.failures.push("DirtyRefsLive");
        }
        if !self.clean_refs_key_consistent(config) {
            report.failures.push("CleanRefsKeyConsistent");
        }
        match mode {
            InvariantMode::StrictLog => {
                if !self.dirty_q_ordered() {
                    report.failures.push("DirtyQOrdered");
                }
                if !self.flushed_ordered() {
                    report.failures.push("FlushedOrdered");
                }
                if !self.queued_after_flushed() {
                    report.failures.push("QueuedAfterFlushed");
                }
                if !self.all_ids_lt_next_write() {
                    report.failures.push("AllIdsLtNextWrite");
                }
            },
            InvariantMode::CoalescedMap => {
                if !self.all_ids_lt_next_write() {
                    report.failures.push("AllIdsLtNextWrite");
                }
            },
        }
        if !self.durable_matches_flushed(config) {
            report.failures.push("DurableMatchesFlushed");
        }
        if !self.no_lost_dirty(config) {
            report.failures.push("NoLostDirty");
        }
        if self.bad_read {
            report.failures.push("NoBadRead");
        }
        report
    }

    /// Checks the strict-log invariants: reports exactly what
    /// `check_invariants_for_mode(config, InvariantMode::StrictLog)` reports.
    pub fn check_invariants(&self, config: ModelConfig) -> (r: InvariantReport)
        requires
            checkable(self@, config),
        ensures
            r.failures@ == expected_failures(self@, config, InvariantMode::StrictLog),
    {
        self.check_invariants_for_mode(config, InvariantMode::StrictLog)
    }

    pub fn type_ok(&self, config: ModelConfig) -> (r: bool)
        ensures
            r == shape_ok(self@, config),
    {
        if self.visible.len() != config.key_count || self.write_store.len() != config.max_write
            || self.write_hist.len() != config.max_write || self.cache_store.len()
            != config.max_cache || self.durable.len() != config.key_count
            || self.created_dirty.len() != config.max_write || self.next_write > config.max_write
            || self.next_cache > config.max_cache {
            return false;
        }
        let mut index: usize = 0;
        while index < self.visible.len()
            invariant
                index <= self.visible.len(),
                forall|i: int| 0 <= i < index ==> visible_ref_ok(#[trigger] self.visible@[i], config),
            decreases self.visible.len() - index,
        {
            match self.visible[index] {
                VisibleRef::Empty => {},
                VisibleRef::Dirty(id) => {
                    if !config.valid_write(id) {
                        return false;
                    }
                },
                VisibleRef::Clean(id) => {
                    if !config.valid_cache(id) {
                        return false;
                    }
                },
            }
            index += 1;
        }
        index = 0;
        while index < self.write_store.len()
            invariant
                index <= self.write_store.len(),
                forall|i: int|
                    0 <= i < index ==> dirty_record_ok(#[trigger] self.write_store@[i], config),
            decreases self.write_store.len() - index,
        {
            if !self.valid_dirty_record(config, &self.write_store[index]) {
                return false;
            }
            index += 1;
        }
        index = 0;
        while index < self.write_hist.len()
            invariant
                index <= self.write_hist.len(),
                forall|i: int|
                    0 <= i < index ==> dirty_record_ok(#[trigger] self.write_hist@[i], config),
            decreases self.write_hist.len() - index,
        {
            if !self.valid_dirty_record(config, &self.write_hist[index]) {
                return false;
            }
            index += 1;
        }
        index = 0;
        while index < self.cache_store.len()
            invariant
                index <= self.cache_store.len(),
                forall|i: int|
                    0 <= i < index ==> clean_record_ok(#[trigger] self.cache_store@[i], config),
            decreases self.cache_store.len() - index,
        {
            if !self.valid_clean_record(config, &self.cache_store[index]) {
                return false;
            }
            index += 1;
        }
        index = 0;
        while index < self.durable.len()
            invariant
                index <= self.durable.len(),
                forall|i: int|
                    0 <= i < index ==> durable_value_ok(#[trigger] self.durable@[i], config),
            decreases self.durable.len() - index,
        {
            if !self.valid_durable_value(config, &self.durable[index]) {
                return false;
            }
            index += 1;
        }
        index = 0;
        while index < self.dirty_q.len()
            invariant
                index <= self.dirty_q.len(),
                forall|i: int| 0 <= i < index ==> #[trigger] self.dirty_q@[i] < config.max_write,
            decreases self.dirty_q.len() - index,
        {
            if !config.valid_write(self.dirty_q[index]) {
                assert(!(self@.dirty_q[index as int] < config.max_write));
                return false;
            }
            index += 1;
        }
        index = 0;
        while index < self.flushed.len()
            invariant
                index <= self.flushed.len(),
                forall|i: int| 0 <= i < index ==> #[trigger] self.flushed@[i] < config.max_write,
            decreases self.flushed.len() - index,
        {
            if !config.valid_write(self.flushed[index]) {
                assert(!(self@.flushed[index as int] < config.max_write));
                return false;
            }
            index += 1;
        }
        true
    }

    pub fn dirty_refs_live(&self, config: ModelConfig) -> (r: bool)
        requires
            dirty_refs_indexable(self@, config),
        ensures
            r == dirty_refs_live(self@, config),
    {
        let mut index: usize = 0;
        while index < self.visible.len()
            invariant
                index <= self.visible.len(),
                dirty_refs_indexable(self@, config),
                forall|k: int|
                    0 <= k < index ==> match #[trigger] self.visible@[k] {
                        VisibleRef::Dirty(id) => {
                            &&& id < config.max_write
                            &&& self.write_store@[id as int].present
                            &&& self.write_store@[id as int].id == Some(id)
                            &&& self.write_store@[id as int].key == k
                        },
                        _ => true,
                    },
            decreases self.visible.len() - index,
        {
            if let VisibleRef::Dirty(id) = self.visible[index] {
                if !config.valid_write(id) || !self.write_store[id].present
                    || self.write_store[id].id != Some(id) || self.write_store[id].key != index {
                    return false;
                }
            }
            index += 1;
        }
        true
    }

    pub fn clean_refs_key_consistent(&self, config: ModelConfig) -> (r: bool)
        requires
            clean_refs_indexable(self@, config),
        ensures
            r == clean_refs_key_consistent(self@, config),
    {
        let mut index: usize = 0;
        while index < self.visible.len()
            invariant
                index <= self.visible.len(),
                clean_refs_indexable(self@, config),
                forall|k: int|
                    0 <= k < index ==> match #[trigger] self.visible@[k] {
                        VisibleRef::Clean(id) => id < config.max_cache
                            && self.cache_store@[id as int].present
                            ==> self.cache_store@[id as int].key == k,
                        _ => true,
                    },
            decreases self.visible.len() - index,
        {
            if let VisibleRef::Clean(id) = self.visible[index] {
                if config.valid_cache(id) && self.cache_store[id].present
                    && self.cache_store[id].key != index {
                    return false;
                }
            }
            index += 1;
        }
        true
    }

    pub fn queued_after_flushed(&self) -> (r: bool)
        ensures
            r == queued_after_flushed(self@),
    {
        let mut i: usize = 0;
        while i < self.flushed.len()
            invariant
                i <= self.flushed.len(),
                forall|a: int, b: int|
                    0 <= a < i && 0 <= b < self.dirty_q@.len() ==> self.flushed@[a]
                        < self.dirty_q@[b],
            decreases self.flushed.len() - i,
        {
            let f = self.flushed[i];
            let mut j: usize = 0;
            while j < self.dirty_q.len()
                invariant
                    i < self.flushed.len(),
                    j <= self.dirty_q.len(),
                    f == self.flushed@[i as int],
                    forall|b: int| 0 <= b < j ==> f < self.dirty_q@[b],
                decreases self.dirty_q.len() - j,
            {
                if f >= self.dirty_q[j] {
                    assert(!(self@.flushed[i as int] < self@.dirty_q[j as int]));
                    return false;
                }
                j += 1;
            }
            i += 1;
        }
        true
    }

    pub fn all_ids_lt_next_write(&self) -> (r: bool)
        ensures
            r == all_ids_lt_next_write(self@),
    {
        let mut i: usize = 0;
        while i < self.dirty_q.len()
            invariant
                i <= self.dirty_q.len(),
                forall|a: int| 0 <= a < i ==> #[trigger] self.dirty_q@[a] < self.next_write,
            decreases self.dirty_q.len() - i,
        {
            if self.dirty_q[i] >= self.next_write {
                assert(!(self@.dirty_q[i as int] < self@.next_write));
                return false;
            }
            i += 1;
        }
        i = 0;
        while i < self.flushed.len()
            invariant
                i <= self.flushed.len(),
                forall|a: int| 0 <= a < self.dirty_q@.len() ==> #[trigger] self.dirty_q@[a]
                    < self.next_write,
                forall|a: int| 0 <= a < i ==> #[trigger] self.flushed@[a] < self.next_write,
            decreases self.flushed.len() - i,
        {
            if self.flushed[i] >= self.next_write {
                assert(!(self@.flushed[i as int] < self@.next_write));
                return false;
            }
            i += 1;
        }
        true
    }

    pub fn durable_matches_flushed(&self, config: ModelConfig) -> (r: bool)
        requires
            flushed_keys_in_range(config, self.flushed@, self.write_hist@),
        ensures
            r == durable_matches_flushed(self@, config),
    {
        let expected = apply_flushed_exec(config, &self.flushed, &self.write_hist);
        if expected.len() != self.durable.len() {
            assert(expected@.len() != self.durable@.len());
            return false;
        }
        let mut i: usize = 0;
        while i < expected.len()
            invariant
                i <= expected.len(),
                expected.len() == self.durable.len(),
                expected@ == apply_flushed(config, self.flushed@, self.write_hist@),
                forall|a: int| 0 <= a < i ==> expected@[a] == self.durable@[a],
            decreases expected.len() - i,
        {
            if expected[i] != self.durable[i] {
                assert(expected@[i as int] != self.durable@[i as int]);
                assert(expected@ != self.durable@);
                assert(!durable_matches_flushed(self@, config));
                return false;
            }
            i += 1;
        }
        assert(expected@ =~= self.durable@);
        true
    }

    pub fn no_lost_dirty(&self, config: ModelConfig) -> (r: bool)
        requires
            lost_dirty_indexable(self@),
        ensures
            r == no_lost_dirty(self@),
    {
        if self.crashed {
            return true;
        }
        let mut id: usize = 0;
        while id < self.created_dirty.len()
            invariant
                id <= self.created_dirty.len(),
                !self.crashed,
                lost_dirty_indexable(self@),
                forall|j: int|
                    0 <= j < id && #[trigger] self.created_dirty@[j] ==> {
                        ||| self.dirty_q@.contains(j as usize)
                        ||| self.flushed@.contains(j as usize)
                        ||| self.visible@.contains(VisibleRef::Dirty(j as usize))
                        ||| self.write_store@[j].present
                    },
            decreases self.created_dirty.len() - id,
        {
            if self.created_dirty[id] {
                let in_q = contains_id(&self.dirty_q, id);
                let in_flushed = contains_id(&self.flushed, id);
                let in_visible = contains_visible_dirty(&self.visible, id);
                if !in_q && !in_flushed && !in_visible {
                    assert(self@.created_dirty[id as int]);
                    assert(id < self.write_store@.len());
                    if !self.write_store[id].present {
                        assert(self@.created_dirty[id as int]);
                        return false;
                    }
                }
            }
            id += 1;
        }
        true
    }

    pub fn dirty_q_ordered(&self) -> (r: bool)
        ensures
            r == dirty_q_ordered(self@),
    {
        strictly_increasing_exec(&self.dirty_q)
    }

    pub fn flushed_ordered(&self) -> (r: bool)
        ensures
            r == flushed_ordered(self@),
    {
        strictly_increasing_exec(&self.flushed)
    }

    fn valid_dirty_record(&self, config: ModelConfig, record: &DirtyRecord) -> (r: bool)
        ensures
            r == dirty_record_ok(*record, config),
    {
        if !record.present {
            return true;
        }
        match record.id {
            Some(id) => config.valid_write(id) && config.valid_key(record.key) && config.valid_value(
                record.value,
            ),
            None => false,
        }
    }

    fn valid_clean_record(&self, config: ModelConfig, record: &CleanRecord) -> (r: bool)
        ensures
            r == clean_record_ok(*record, config),
    {
        if !record.present {
            return true;
        }
        match record.id {
            Some(id) => config.valid_cache(id) && config.valid_key(record.key) && config.valid_value(
                record.value,
            ),
            None => false,
        }
    }

    fn valid_durable_value(&self, config: ModelConfig, value: &DurableValue) -> (r: bool)
        ensures
            r == durable_value_ok(*value, config),
    {
        if !value.present {
            return true;
        }
        match value.seq {
            Some(seq) => config.valid_write(seq) && config.valid_value(value.value),
            None => false,
        }
    }
}

} // verus!
