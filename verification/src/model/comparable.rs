//! Order-independent snapshots of a model state: absent slots are dropped and the rest is keyed
//! in ordered maps, so that two states compare equal when they hold the same live data.
use std::collections::{BTreeMap, BTreeSet};
use vstd::prelude::*;

use super::state::{
    CacheId, CleanRecord, DirtyRecord, DurableValue, KeyId, ModelState, ModelStateView, ValueId,
    VisibleRef, WriteId,
};

verus! {

broadcast use vstd::laws_cmp::group_laws_cmp, vstd::std_specs::btree::group_btree_axioms;

#[derive(Clone, Copy, Debug, PartialEq, Eq, Structural)]
pub struct ComparableDirtyRecord {
    pub id: WriteId,
    pub key: KeyId,
    pub value: ValueId,
}

#[derive(Clone, Copy, Debug, PartialEq, Eq, Structural)]
pub struct ComparableCleanRecord {
    pub id: CacheId,
    pub key: KeyId,
    pub value: ValueId,
}

#[derive(Clone, Copy, Debug, PartialEq, Eq, Structural)]
pub struct ComparableDurableValue {
    pub key: KeyId,
    pub value: ValueId,
    pub seq: WriteId,
}

#[derive(Clone, Copy, Debug, PartialEq, Eq, Structural, PartialOrd, Ord)]
pub enum ComparableVisibleRef {
    Dirty(WriteId),
    Clean(CacheId),
}

/// A model state with absent slots removed.
#[derive(Clone, Debug, PartialEq, Eq)]
pub struct ComparableState {
    pub visible: BTreeMap<KeyId, ComparableVisibleRef>,
    pub write_store: BTreeMap<WriteId, ComparableDirtyRecord>,
    pub write_hist: BTreeMap<WriteId, ComparableDirtyRecord>,
    pub dirty_q: Vec<WriteId>,
    pub cache_store: BTreeMap<CacheId, ComparableCleanRecord>,
    pub durable: BTreeMap<KeyId, ComparableDurableValue>,
    pub flushed: Vec<WriteId>,
    pub created_dirty: BTreeSet<WriteId>,
    pub next_write: usize,
    pub next_cache: usize,
    pub crashed: bool,
    pub bad_read: bool,
}

/// The mathematical value of a [`ComparableState`].
pub struct ComparableStateView {
    pub visible: Map<KeyId, ComparableVisibleRef>,
    pub write_store: Map<WriteId, ComparableDirtyRecord>,
    pub write_hist: Map<WriteId, ComparableDirtyRecord>,
    pub dirty_q: Seq<WriteId>,
    pub cache_store: Map<CacheId, ComparableCleanRecord>,
    pub durable: Map<KeyId, ComparableDurableValue>,
    pub flushed: Seq<WriteId>,
    pub created_dirty: Set<WriteId>,
    pub next_write: usize,
    pub next_cache: usize,
    pub crashed: bool,
    pub bad_read: bool,
}

impl View for ComparableState {
    type V = ComparableStateView;

    open spec fn view(&self) -> ComparableStateView {
        ComparableStateView {
            visible: self.visible@,
            write_store: self.write_store@,
            write_hist: self.write_hist@,
            dirty_q: self.dirty_q@,
            cache_store: self.cache_store@,
            durable: self.durable@,
            flushed: self.flushed@,
            created_dirty: self.created_dirty@,
            next_write: self.next_write,
            next_cache: self.next_cache,
            crashed: self.crashed,
            bad_read: self.bad_read,
        }
    }
}

/// The comparable form of a non-empty visible ref.
pub open spec fn comparable_ref(v: VisibleRef) -> ComparableVisibleRef {
    match v {
        VisibleRef::Clean(id) => ComparableVisibleRef::Clean(id),
        VisibleRef::Dirty(id) => ComparableVisibleRef::Dirty(id),
        VisibleRef::Empty => ComparableVisibleRef::Dirty(0),
    }
}

/// Keys with a non-empty visible ref, mapped to that ref.
pub open spec fn visible_map(v: Seq<VisibleRef>, upto: int) -> Map<KeyId, ComparableVisibleRef> {
    Map::new(
        |k: KeyId| k < upto && k < v.len() && v[k as int] != VisibleRef::Empty,
        |k: KeyId| comparable_ref(v[k as int]),
    )
}

/// Present dirty records keyed by their id; a later record with the same id wins.
pub open spec fn dirty_map(records: Seq<DirtyRecord>) -> Map<WriteId, ComparableDirtyRecord>
    decreases records.len(),
{
    if records.len() == 0 {
        Map::empty()
    } else {
        let m = dirty_map(records.drop_last());
        let r = records.last();
        if r.present && r.id is Some {
            m.insert(r.id->0, ComparableDirtyRecord { id: r.id->0, key: r.key, value: r.value })
        } else {
            m
        }
    }
}

/// Present clean records keyed by their id; a later record with the same id wins.
pub open spec fn clean_map(records: Seq<CleanRecord>) -> Map<CacheId, ComparableCleanRecord>
    decreases records.len(),
{
    if records.len() == 0 {
        Map::empty()
    } else {
        let m = clean_map(records.drop_last());
        let r = records.last();
        if r.present && r.id is Some {
            m.insert(r.id->0, ComparableCleanRecord { id: r.id->0, key: r.key, value: r.value })
        } else {
            m
        }
    }
}

/// Keys with a present durable value, mapped to that value.
pub open spec fn durable_map(d: Seq<DurableValue>, upto: int) -> Map<KeyId, ComparableDurableValue> {
    Map::new(
        |k: KeyId| k < upto && k < d.len() && d[k as int].present && d[k as int].seq is Some,
        |k: KeyId|
            ComparableDurableValue { key: k, value: d[k as int].value, seq: d[k as int].seq->0 },
    )
}

/// Ids whose created flag is set.
pub open spec fn created_set(c: Seq<bool>, upto: int) -> Set<WriteId> {
    Set::new(|i: WriteId| i < upto && i < c.len() && c[i as int])
}

/// The comparable form of a model state.
pub open spec fn spec_comparable(s: ModelStateView) -> ComparableStateView {
    ComparableStateView {
        visible: visible_map(s.visible, s.visible.len() as int),
        write_store: dirty_map(s.write_store),
        write_hist: dirty_map(s.write_hist),
        dirty_q: s.dirty_q,
        cache_store: clean_map(s.cache_store),
        durable: durable_map(s.durable, s.durable.len() as int),
        flushed: s.flushed,
        created_dirty: created_set(s.created_dirty, s.created_dirty.len() as int),
        next_write: s.next_write,
        next_cache: s.next_cache,
        crashed: s.crashed,
        bad_read: s.bad_read,
    }
}

fn collect_visible(visible: &Vec<VisibleRef>) -> (r: BTreeMap<KeyId, ComparableVisibleRef>)
    ensures
        r@ == visible_map(visible@, visible@.len() as int),
{
    let mut map: BTreeMap<KeyId, ComparableVisibleRef> = BTreeMap::new();
    let mut key: usize = 0;
    while key < visible.len()
        invariant
            key <= visible.len(),
            map@ == visible_map(visible@, key as int),
        decreases visible.len() - key,
    {
        match visible[key] {
            VisibleRef::Empty => {},
            VisibleRef::Dirty(id) => {
                map.insert(key, ComparableVisibleRef::Dirty(id));
            },
            VisibleRef::Clean(id) => {
                map.insert(key, ComparableVisibleRef::Clean(id));
            },
        }
        assert(map@ =~= visible_map(visible@, key + 1));
        key += 1;
    }
    map
}

fn collect_dirty(records: &Vec<DirtyRecord>) -> (r: BTreeMap<WriteId, ComparableDirtyRecord>)
    ensures
        r@ == dirty_map(records@),
{
    let mut map: BTreeMap<WriteId, ComparableDirtyRecord> = BTreeMap::new();
    let mut i: usize = 0;
    while i < records.len()
        invariant
            i <= records.len(),
            map@ == dirty_map(records@.subrange(0, i as int)),
        decreases records.len() - i,
    {
        let record = records[i];
        proof {
            let pre = records@.subrange(0, i as int + 1);
            assert(pre.drop_last() =~= records@.subrange(0, i as int));
            assert(pre.last() == record);
        }
        if record.present {
            if let Some(id) = record.id {
                map.insert(id, ComparableDirtyRecord { id, key: record.key, value: record.value });
            }
        }
        i += 1;
    }
    assert(records@.subrange(0, records@.len() as int) =~= records@);
    map
}

fn collect_clean(records: &Vec<CleanRecord>) -> (r: BTreeMap<CacheId, ComparableCleanRecord>)
    ensures
        r@ == clean_map(records@),
{
    let mut map: BTreeMap<CacheId, ComparableCleanRecord> = BTreeMap::new();
    let mut i: usize = 0;
    while i < records.len()
        invariant
            i <= records.len(),
            map@ == clean_map(records@.subrange(0, i as int)),
        decreases records.len() - i,
    {
        let record = records[i];
        proof {
            let pre = records@.subrange(0, i as int + 1);
            assert(pre.drop_last() =~= records@.subrange(0, i as int));
            assert(pre.last() == record);
        }
        if record.present {
            if let Some(id) = record.id {
                map.insert(id, ComparableCleanRecord { id, key: record.key, value: record.value });
            }
        }
        i += 1;
    }
    assert(records@.subrange(0, records@.len() as int) =~= records@);
    map
}

fn collect_durable(durable: &Vec<DurableValue>) -> (r: BTreeMap<KeyId, ComparableDurableValue>)
    ensures
        r@ == durable_map(durable@, durable@.len() as int),
{
    let mut map: BTreeMap<KeyId, ComparableDurableValue> = BTreeMap::new();
    let mut key: usize = 0;
    while key < durable.len()
        invariant
            key <= durable.len(),
            map@ == durable_map(durable@, key as int),
        decreases durable.len() - key,
    {
        let value = durable[key];
        if value.present {
            if let Some(seq) = value.seq {
                map.insert(key, ComparableDurableValue { key, value: value.value, seq });
            }
        }
        assert(map@ =~= durable_map(durable@, key + 1));
        key += 1;
    }
    map
}

fn collect_created(created: &Vec<bool>) -> (r: BTreeSet<WriteId>)
    ensures
        r@ == created_set(created@, created@.len() as int),
{
    let mut set: BTreeSet<WriteId> = BTreeSet::new();
    let mut id: usize = 0;
    while id < created.len()
        invariant
            id <= created.len(),
            set@ == created_set(created@, id as int),
        decreases created.len() - id,
    {
        if created[id] {
            set.insert(id);
        }
        assert(set@ =~= created_set(created@, id + 1));
        id += 1;
    }
    set
}

impl ComparableState {
    /// The comparable form of `state`.
    pub fn from_state(state: &ModelState) -> (r: Self)
        ensures
            r@ == spec_comparable(state@),
    {
        ComparableState {
            visible: collect_visible(&state.visible),
            write_store: collect_dirty(&state.write_store),
            write_hist: collect_dirty(&state.write_hist),
            dirty_q: state.dirty_q.clone(),
            cache_store: collect_clean(&state.cache_store),
            durable: collect_durable(&state.durable),
            flushed: state.flushed.clone(),
            created_dirty: collect_created(&state.created_dirty),
            next_write: state.next_write,
            next_cache: state.next_cache,
            crashed: state.crashed,
            bad_read: state.bad_read,
        }
    }
}

impl<'a> From<&'a ModelState> for ComparableState {
    /// The comparable form of `state`.
    fn from(state: &'a ModelState) -> (r: Self)
        ensures
            r@ == spec_comparable(state@),
    {
        ComparableState::from_state(state)
    }
}

/// The conversion is stated through views by `from` itself: two comparable states with the same
/// view need not be the same value, so no single value is named here.
impl<'a> vstd::std_specs::convert::FromSpecImpl<&'a ModelState> for ComparableState {
    open spec fn obeys_from_spec() -> bool {
        false
    }

    open spec fn from_spec(v: &'a ModelState) -> Self {
        arbitrary()
    }
}

impl ModelState {
    /// The comparable form of this state.
    pub fn comparable(&self) -> (r: ComparableState)
        ensures
            r@ == spec_comparable(self@),
    {
        ComparableState::from_state(self)
    }
}

} // verus!
