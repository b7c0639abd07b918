//! The flat, fully materialised form of a model state that trace validation emits.
use vstd::prelude::*;

use super::state::{
    CleanRecord, DirtyRecord, DurableValue, ModelConfig, ModelError, ModelState, ModelStateView,
    VisibleRef, WriteId,
};
use super::spec::{spec_apply_step, spec_new, step_safe};
use super::trace_value::{model_step_from_trace, spec_model_step, TraceError, TraceValue};

verus! {

/// A visible ref as a kind name and an id (`-1` for none).
#[derive(Clone, Copy, Debug, PartialEq, Eq)]
pub struct TraceVisibleRef {
    pub kind: &'static str,
    pub id: i64,
}

/// A dirty record with its optional id flattened (`-1` for none).
#[derive(Clone, Copy, Debug, PartialEq, Eq, Structural)]
pub struct TraceDirtyRecord {
    pub present: bool,
    pub id: i64,
    pub key: usize,
    pub value: usize,
}

/// A clean record with its optional id flattened (`-1` for none).
#[derive(Clone, Copy, Debug, PartialEq, Eq, Structural)]
pub struct TraceCleanRecord {
    pub present: bool,
    pub id: i64,
    pub key: usize,
    pub value: usize,
}

/// A durable value with its optional sequence number flattened (`-1` for none).
#[derive(Clone, Copy, Debug, PartialEq, Eq, Structural)]
pub struct TraceDurableValue {
    pub present: bool,
    pub value: usize,
    pub seq: i64,
}

/// A model state in the shape trace validation compares against.
#[derive(Clone, Debug, PartialEq, Eq)]
pub struct TraceState {
    pub visible: Vec<TraceVisibleRef>,
    pub write_store: Vec<TraceDirtyRecord>,
    pub write_hist: Vec<TraceDirtyRecord>,
    pub dirty_q: Vec<WriteId>,
    pub cache_store: Vec<TraceCleanRecord>,
    pub durable: Vec<TraceDurableValue>,
    pub flushed: Vec<WriteId>,
    pub created_dirty: Vec<bool>,
    pub next_write: usize,
    pub next_cache: usize,
    pub crashed: bool,
    pub bad_read: bool,
}

/// An optional id as a signed number, `-1` standing for none.
pub open spec fn flat_id(id: Option<usize>) -> i64 {
    match id {
        Some(i) => i as i64,
        None => -1i64,
    }
}

pub open spec fn trace_visible(v: VisibleRef) -> TraceVisibleRef {
    match v {
        VisibleRef::Empty => TraceVisibleRef { kind: "None", id: -1i64 },
        VisibleRef::Dirty(id) => TraceVisibleRef { kind: "Dirty", id: id as i64 },
        VisibleRef::Clean(id) => TraceVisibleRef { kind: "Clean", id: id as i64 },
    }
}

pub open spec fn trace_dirty(r: DirtyRecord) -> TraceDirtyRecord {
    TraceDirtyRecord { present: r.present, id: flat_id(r.id), key: r.key, value: r.value }
}

pub open spec fn trace_clean(r: CleanRecord) -> TraceCleanRecord {
    TraceCleanRecord { present: r.present, id: flat_id(r.id), key: r.key, value: r.value }
}

pub open spec fn trace_durable(d: DurableValue) -> TraceDurableValue {
    TraceDurableValue { present: d.present, value: d.value, seq: flat_id(d.seq) }
}

fn flatten_id(id: Option<usize>) -> (r: i64)
    ensures
        r == flat_id(id),
{
    match id {
        Some(i) => i as i64,
        None => -1,
    }
}

fn trace_visible_refs(v: &Vec<VisibleRef>) -> (r: Vec<TraceVisibleRef>)
    ensures
        r@ == v@.map_values(|x: VisibleRef| trace_visible(x)),
{
    let mut out: Vec<TraceVisibleRef> = Vec::new();
    let mut i: usize = 0;
    while i < v.len()
        invariant
            i <= v.len(),
            out@ == v@.subrange(0, i as int).map_values(|x: VisibleRef| trace_visible(x)),
        decreases v.len() - i,
    {
        let t = match v[i] {
            VisibleRef::Empty => TraceVisibleRef { kind: "None", id: -1 },
            VisibleRef::Dirty(id) => TraceVisibleRef { kind: "Dirty", id: id as i64 },
            VisibleRef::Clean(id) => TraceVisibleRef { kind: "Clean", id: id as i64 },
        };
        out.push(t);
        assert(v@.subrange(0, i + 1).map_values(|x: VisibleRef| trace_visible(x)) =~= v@.subrange(
            0,
            i as int,
        ).map_values(|x: VisibleRef| trace_visible(x)).push(trace_visible(v@[i as int])));
        i += 1;
    }
    assert(v@.subrange(0, v@.len() as int) =~= v@);
    out
}

fn trace_dirty_records(v: &Vec<DirtyRecord>) -> (r: Vec<TraceDirtyRecord>)
    ensures
        r@ == v@.map_values(|x: DirtyRecord| trace_dirty(x)),
{
    let mut out: Vec<TraceDirtyRecord> = Vec::new();
    let mut i: usize = 0;
    while i < v.len()
        invariant
            i <= v.len(),
            out@ == v@.subrange(0, i as int).map_values(|x: DirtyRecord| trace_dirty(x)),
        decreases v.len() - i,
    {
        let r = v[i];
        out.push(TraceDirtyRecord { present: r.present, id: flatten_id(r.id), key: r.key, value: r.value });
        assert(v@.subrange(0, i + 1).map_values(|x: DirtyRecord| trace_dirty(x)) =~= v@.subrange(
            0,
            i as int,
        ).map_values(|x: DirtyRecord| trace_dirty(x)).push(trace_dirty(v@[i as int])));
        i += 1;
    }
    assert(v@.subrange(0, v@.len() as int) =~= v@);
    out
}

fn trace_clean_records(v: &Vec<CleanRecord>) -> (r: Vec<TraceCleanRecord>)
    ensures
        r@ == v@.map_values(|x: CleanRecord| trace_clean(x)),
{
    let mut out: Vec<TraceCleanRecord> = Vec::new();
    let mut i: usize = 0;
    while i < v.len()
        invariant
            i <= v.len(),
            out@ == v@.subrange(0, i as int).map_values(|x: CleanRecord| trace_clean(x)),
        decreases v.len() - i,
    {
        let r = v[i];
        out.push(TraceCleanRecord { present: r.present, id: flatten_id(r.id), key: r.key, value: r.value });
        assert(v@.subrange(0, i + 1).map_values(|x: CleanRecord| trace_clean(x)) =~= v@.subrange(
            0,
            i as int,
        ).map_values(|x: CleanRecord| trace_clean(x)).push(trace_clean(v@[i as int])));
        i += 1;
    }
    assert(v@.subrange(0, v@.len() as int) =~= v@);
    out
}

fn trace_durable_values(v: &Vec<DurableValue>) -> (r: Vec<TraceDurableValue>)
    ensures
        r@ == v@.map_values(|x: DurableValue| trace_durable(x)),
{
    let mut out: Vec<TraceDurableValue> = Vec::new();
    let mut i: usize = 0;
    while i < v.len()
        invariant
            i <= v.len(),
            out@ == v@.subrange(0, i as int).map_values(|x: DurableValue| trace_durable(x)),
        decreases v.len() - i,
    {
        let d = v[i];
        out.push(TraceDurableValue { present: d.present, value: d.value, seq: flatten_id(d.seq) });
        assert(v@.subrange(0, i + 1).map_values(|x: DurableValue| trace_durable(x)) =~= v@.subrange(
            0,
            i as int,
        ).map_values(|x: DurableValue| trace_durable(x)).push(trace_durable(v@[i as int])));
        i += 1;
    }
    assert(v@.subrange(0, v@.len() as int) =~= v@);
    out
}

impl TraceState {
    /// Whether this is the trace form of `state`: every slot kept, in order, with optional ids
    /// flattened.
    pub open spec fn is_trace_of(self, state: ModelState) -> bool {
        &&& self.visible@ == state.visible@.map_values(|x: VisibleRef| trace_visible(x))
        &&& self.write_store@ == state.write_store@.map_values(|x: DirtyRecord| trace_dirty(x))
        &&& self.write_hist@ == state.write_hist@.map_values(|x: DirtyRecord| trace_dirty(x))
        &&& self.dirty_q@ == state.dirty_q@
        &&& self.cache_store@ == state.cache_store@.map_values(|x: CleanRecord| trace_clean(x))
        &&& self.durable@ == state.durable@.map_values(|x: DurableValue| trace_durable(x))
        &&& self.flushed@ == state.flushed@
        &&& self.created_dirty@ == state.created_dirty@
        &&& self.next_write == state.next_write
        &&& self.next_cache == state.next_cache
        &&& self.crashed == state.crashed
        &&& self.bad_read == state.bad_read
    }

    /// The trace form of `state`: every slot kept, in order, with optional ids flattened.
    pub fn from_state(state: &ModelState) -> (r: Self)
        ensures
            r.is_trace_of(*state),
    {
        TraceState {
            visible: trace_visible_refs(&state.visible),
            write_store: trace_dirty_records(&state.write_store),
            write_hist: trace_dirty_records(&state.write_hist),
            dirty_q: state.dirty_q.clone(),
            cache_store: trace_clean_records(&state.cache_store),
            durable: trace_durable_values(&state.durable),
            flushed: state.flushed.clone(),
            created_dirty: state.created_dirty.clone(),
            next_write: state.next_write,
            next_cache: state.next_cache,
            crashed: state.crashed,
            bad_read: state.bad_read,
        }
    }
}

impl<'a> From<&'a ModelState> for TraceState {
    /// The trace form of `state`.
    fn from(state: &'a ModelState) -> (r: Self)
        ensures
            r.is_trace_of(*state),
    {
        TraceState::from_state(state)
    }
}

/// The conversion is stated by `from` itself, over the slots of the state.
impl<'a> vstd::std_specs::convert::FromSpecImpl<&'a ModelState> for TraceState {
    open spec fn obeys_from_spec() -> bool {
        false
    }

    open spec fn from_spec(v: &'a ModelState) -> Self {
        arbitrary()
    }
}

/// A model instance driven by replayed trace steps.
pub struct ModelDriver {
    pub config: ModelConfig,
    pub state: ModelState,
}

/// Why a replayed trace step was refused.
#[derive(Debug, PartialEq, Eq)]
pub enum DriverStepError {
    /// The step could not be read.
    Trace(TraceError),
    /// The model refused the step the trace named.
    ActionFailed { action: String, reason: ModelError },
}

impl ModelDriver {
    pub fn new(config: ModelConfig) -> (r: Self)
        ensures
            r.config == config,
            r.state@ == spec_new(config),
    {
        ModelDriver { config, state: ModelState::new(config) }
    }

    /// Reads the trace step `action` with what it picked, and applies it to the model.
    pub fn step(&mut self, action: &String, picks: &TraceValue) -> (r: Result<(), DriverStepError>)
        requires
            spec_model_step(*action, *picks) matches Ok(step) ==> step_safe(
                old(self).state@,
                old(self).config,
                step,
            ),
        ensures
            final(self).config == old(self).config,
            match spec_model_step(*action, *picks) {
                Err(e) => r matches Err(DriverStepError::Trace(x)) && x == e && final(self).state@
                    == old(self).state@,
                Ok(step) => {
                    let (next, outcome) = spec_apply_step(old(self).state@, old(self).config, step);
                    &&& final(self).state@ == next
                    &&& match outcome {
                        Ok(()) => r is Ok,
                        Err(reason) => r matches Err(DriverStepError::ActionFailed { action: a, reason: x })
                            && a == *action && x == reason,
                    }
                },
            },
    {
        let step = match model_step_from_trace(action, picks) {
            Ok(step) => step,
            Err(e) => return Err(DriverStepError::Trace(e)),
        };
        match self.state.apply_step(self.config, step) {
            Ok(()) => Ok(()),
            Err(reason) => Err(DriverStepError::ActionFailed { action: action.clone(), reason }),
        }
    }
}

} // verus!
