use cachelog::model::comparable::{ComparableState, ComparableVisibleRef};
use cachelog::model::trace::{ModelDriver, TraceState};
use cachelog::model::{
    InvariantMode, ModelConfig, ModelError, ModelState, ModelStep, VisibleRef,
};

fn every_step(cfg: ModelConfig) -> Vec<ModelStep> {
    let mut steps = Vec::new();
    for key in 0..cfg.key_count + 1 {
        for value in 0..cfg.value_count + 1 {
            steps.push(ModelStep::WriterWrite { key, value });
        }
        steps.push(ModelStep::CacheInsert { key });
        steps.push(ModelStep::ReaderStep { key });
    }
    for id in 0..cfg.max_write + 1 {
        steps.push(ModelStep::FlusherDrop { id });
    }
    for id in 0..cfg.max_cache + 1 {
        steps.push(ModelStep::CacheDropRecord { id });
        steps.push(ModelStep::CacheCleanupVisible { id });
    }
    steps.push(ModelStep::FlusherFlushNext);
    steps
}

/// Every state reached by a walk of steps satisfies the invariant (checked on every state of a
/// breadth-limited exploration of the small configuration).
#[test]
fn explored_states_keep_invariants() {
    let cfg = ModelConfig::tla_small();
    let steps = every_step(cfg);
    let mut frontier = vec![ModelState::new(cfg)];
    for _depth in 0..4 {
        let mut next = Vec::new();
        for state in &frontier {
            for step in &steps {
                let mut s = state.clone();
                assert!(s.can_apply(cfg, *step));
                let before = s.clone();
                match s.apply_step(cfg, *step) {
                    Ok(()) => {
                        assert!(s.can_check(cfg));
                        assert!(s.check_invariants(cfg).is_ok(), "{:?} after {:?}", s, step);
                        if next.len() < 300 {
                            next.push(s);
                        }
                    }
                    Err(_) => assert_eq!(s, before),
                }
            }
        }
        frontier = next;
    }
}

#[test]
fn crash_keeps_durable_and_flushed() {
    let cfg = ModelConfig::tla_small();
    let mut state = ModelState::new(cfg);
    state.writer_write(cfg, 0, 1).unwrap();
    state.flusher_flush_next(cfg).unwrap();
    state.writer_write(cfg, 1, 0).unwrap();
    let durable = state.durable.clone();
    let flushed = state.flushed.clone();
    state.apply_step(cfg, ModelStep::Crash).unwrap();
    assert_eq!(state.durable, durable);
    assert_eq!(state.flushed, flushed);
    assert!(state.dirty_q.is_empty());
    assert!(state.crashed);
    // A crashed model accepts no further writes.
    assert_eq!(state.apply_step(cfg, ModelStep::WriterWrite { key: 0, value: 0 }), Ok(()));
    assert_eq!(state.next_write, 2);
    assert!(state.dirty_q.is_empty());
}

#[test]
fn each_error_variant_names_its_argument() {
    let cfg = ModelConfig::tla_small();
    let mut state = ModelState::new(cfg);
    let before = state.clone();
    assert_eq!(state.cache_insert(cfg, 5), Err(ModelError::InvalidKey(5)));
    assert_eq!(state.reader_step(cfg, 2), Err(ModelError::InvalidKey(2)));
    assert_eq!(state.writer_write(cfg, 0, 2), Err(ModelError::InvalidValue(2)));
    assert_eq!(state.flusher_drop(cfg, 3), Err(ModelError::InvalidWriteId(3)));
    assert_eq!(state.cache_cleanup_visible(cfg, 2), Err(ModelError::InvalidCacheId(2)));
    assert_eq!(state, before);
}

#[test]
fn write_budget_is_bounded_by_config() {
    let cfg = ModelConfig::tla_small();
    let mut state = ModelState::new(cfg);
    for _ in 0..5 {
        state.writer_write(cfg, 0, 1).unwrap();
    }
    assert_eq!(state.next_write, cfg.max_write);
    assert_eq!(state.dirty_q, vec![0, 1, 2]);
    assert_eq!(state.visible[0], VisibleRef::Dirty(2));
}

#[test]
fn report_lists_violated_invariants_in_order() {
    let cfg = ModelConfig::new(2, 2, 3, 2);
    let mut state = ModelState::new(cfg);
    state.writer_write(cfg, 0, 1).unwrap();
    state.write_store[0].key = 1;
    state.bad_read = true;
    let report = state.check_invariants(cfg);
    assert_eq!(report.failures, vec!["DirtyRefsLive", "NoBadRead"]);
    assert!(!report.is_ok());

    let mut broken = ModelState::new(cfg);
    broken.visible.pop();
    let coalesced = broken.check_invariants_for_mode(cfg, InvariantMode::CoalescedMap);
    assert_eq!(coalesced.failures, vec!["TypeOK"]);
    assert!(!broken.type_ok(cfg));
}

#[test]
fn guards_reject_states_too_short_for_a_step() {
    let cfg = ModelConfig::tla_small();
    let mut state = ModelState::new(cfg);
    state.write_store.clear();
    assert!(!state.can_apply(cfg, ModelStep::WriterWrite { key: 0, value: 0 }));
    assert!(state.can_apply(cfg, ModelStep::WriterWrite { key: 9, value: 0 }));
    assert!(state.can_apply(cfg, ModelStep::Crash));
    state.visible[1] = VisibleRef::Dirty(0);
    assert!(!state.can_check(cfg));
    assert!(!state.can_apply(cfg, ModelStep::ReaderStep { key: 1 }));
}

#[test]
fn comparable_and_trace_forms_drop_absent_slots() {
    let cfg = ModelConfig::tla_small();
    let mut state = ModelState::new(cfg);
    state.writer_write(cfg, 1, 1).unwrap();
    let comparable = ComparableState::from(&state);
    assert_eq!(comparable, state.comparable());
    assert_eq!(comparable.visible.get(&1), Some(&ComparableVisibleRef::Dirty(0)));
    assert!(comparable.visible.get(&0).is_none());
    assert_eq!(comparable.write_store.len(), 1);
    assert!(comparable.durable.is_empty());
    assert!(comparable.created_dirty.contains(&0));

    let trace = TraceState::from(&state);
    assert_eq!(trace.visible.len(), 2);
    assert_eq!(trace.write_store.len(), 3);
    assert_eq!(trace.next_write, 1);
    assert_eq!(trace.dirty_q, vec![0]);

    let driver = ModelDriver::new(cfg);
    assert_eq!(driver.state, ModelState::new(cfg));
}

#[test]
fn apply_step_matches_each_step_operation() {
    let cfg = ModelConfig::tla_small();
    let mut base = ModelState::new(cfg);
    base.writer_write(cfg, 0, 1).unwrap();
    for step in every_step(cfg) {
        let mut via_apply = base.clone();
        let mut direct = base.clone();
        let a = via_apply.apply_step(cfg, step);
        let d = match step {
            ModelStep::WriterWrite { key, value } => direct.writer_write(cfg, key, value),
            ModelStep::FlusherFlushNext => direct.flusher_flush_next(cfg),
            ModelStep::FlusherDrop { id } => direct.flusher_drop(cfg, id),
            ModelStep::CacheInsert { key } => direct.cache_insert(cfg, key),
            ModelStep::CacheDropRecord { id } => direct.cache_drop_record(cfg, id),
            ModelStep::CacheCleanupVisible { id } => direct.cache_cleanup_visible(cfg, id),
            ModelStep::ReaderStep { key } => direct.reader_step(cfg, key),
            ModelStep::Crash => direct.crash(cfg),
        };
        assert_eq!(a, d);
        assert_eq!(via_apply, direct);
    }
}

#[test]
fn default_check_reports_the_strict_log_check() {
    let cfg = ModelConfig::new(2, 2, 3, 2);
    let mut state = ModelState::new(cfg);
    state.writer_write(cfg, 0, 1).unwrap();
    state.bad_read = true;
    assert_eq!(
        state.check_invariants(cfg),
        state.check_invariants_for_mode(cfg, InvariantMode::StrictLog)
    );
}
