use cachelog::model::{DurableValue, ModelConfig, ModelState, VisibleRef};

fn assert_invariants(state: &ModelState, cfg: ModelConfig) {
    let report = state.check_invariants(cfg);
    assert!(report.is_ok(), "{report:?}");
}

#[test]
fn model_write_flush_drop_preserves_invariants() {
    let cfg = ModelConfig::tla_small();
    let mut state = ModelState::new(cfg);

    state.writer_write(cfg, 0, 1).unwrap();
    state.flusher_flush_next(cfg).unwrap();
    state.flusher_drop(cfg, 0).unwrap();

    assert_invariants(&state, cfg);
    assert_eq!(state.durable[0], DurableValue::present(1, 0));
    assert_eq!(state.visible[0], VisibleRef::Empty);
}

#[test]
fn model_stale_clean_ref_window_is_allowed() {
    let cfg = ModelConfig::tla_small();
    let mut state = ModelState::new(cfg);

    state.writer_write(cfg, 0, 1).unwrap();
    state.flusher_flush_next(cfg).unwrap();
    state.flusher_drop(cfg, 0).unwrap();
    state.cache_insert(cfg, 0).unwrap();
    let cache_id = match state.visible[0] {
        VisibleRef::Clean(id) => id,
        other => panic!("expected clean ref, got {other:?}"),
    };
    state.cache_drop_record(cfg, cache_id).unwrap();
    state.reader_step(cfg, 0).unwrap();

    assert!(!state.bad_read);
    assert_invariants(&state, cfg);
}

#[test]
fn model_cleanup_removes_stale_clean_ref() {
    let cfg = ModelConfig::tla_small();
    let mut state = ModelState::new(cfg);

    state.writer_write(cfg, 0, 1).unwrap();
    state.flusher_flush_next(cfg).unwrap();
    state.flusher_drop(cfg, 0).unwrap();
    state.cache_insert(cfg, 0).unwrap();
    let cache_id = match state.visible[0] {
        VisibleRef::Clean(id) => id,
        _ => unreachable!(),
    };
    state.cache_drop_record(cfg, cache_id).unwrap();
    state.cache_cleanup_visible(cfg, cache_id).unwrap();

    assert_eq!(state.visible[0], VisibleRef::Empty);
    assert_invariants(&state, cfg);
}

#[test]
fn model_crash_preserves_durable_prefix() {
    let cfg = ModelConfig::tla_small();
    let mut state = ModelState::new(cfg);

    state.writer_write(cfg, 1, 1).unwrap();
    state.flusher_flush_next(cfg).unwrap();
    let durable_before = state.durable.clone();
    state.crash(cfg).unwrap();

    assert_eq!(state.durable, durable_before);
    assert!(state.crashed);
    assert_invariants(&state, cfg);
}

#[test]
fn model_writer_write_preserves_invariants_from_init() {
    let cfg = ModelConfig::tla_small();
    let mut state = ModelState::new(cfg);

    state.writer_write(cfg, 1, 0).unwrap();

    assert_eq!(state.visible[1], VisibleRef::Dirty(0));
    assert_eq!(state.dirty_q, vec![0]);
    assert_invariants(&state, cfg);
}

#[test]
fn model_flusher_flush_next_preserves_invariants_on_empty_and_nonempty_queue() {
    let cfg = ModelConfig::tla_small();
    let mut state = ModelState::new(cfg);

    state.flusher_flush_next(cfg).unwrap();
    assert_invariants(&state, cfg);

    state.writer_write(cfg, 0, 1).unwrap();
    state.flusher_flush_next(cfg).unwrap();

    assert_eq!(state.flushed, vec![0]);
    assert_eq!(state.dirty_q, Vec::<usize>::new());
    assert_eq!(state.durable[0], DurableValue::present(1, 0));
    assert_invariants(&state, cfg);
}

#[test]
fn model_flusher_drop_clears_matching_visible_dirty_ref() {
    let cfg = ModelConfig::tla_small();
    let mut state = ModelState::new(cfg);

    state.writer_write(cfg, 0, 1).unwrap();
    state.flusher_flush_next(cfg).unwrap();
    state.flusher_drop(cfg, 0).unwrap();

    assert_eq!(state.visible[0], VisibleRef::Empty);
    assert!(!state.write_store[0].present);
    assert_invariants(&state, cfg);
}

#[test]
fn model_cache_insert_preserves_invariants_when_durable_exists() {
    let cfg = ModelConfig::tla_small();
    let mut state = ModelState::new(cfg);

    state.writer_write(cfg, 1, 1).unwrap();
    state.flusher_flush_next(cfg).unwrap();
    state.flusher_drop(cfg, 0).unwrap();
    state.cache_insert(cfg, 1).unwrap();

    assert_eq!(state.visible[1], VisibleRef::Clean(0));
    assert!(state.cache_store[0].present);
    assert_invariants(&state, cfg);
}

#[test]
fn model_cache_drop_record_preserves_invariants_with_stale_visible_clean_ref() {
    let cfg = ModelConfig::tla_small();
    let mut state = ModelState::new(cfg);

    state.writer_write(cfg, 1, 1).unwrap();
    state.flusher_flush_next(cfg).unwrap();
    state.flusher_drop(cfg, 0).unwrap();
    state.cache_insert(cfg, 1).unwrap();
    state.cache_drop_record(cfg, 0).unwrap();

    assert_eq!(state.visible[1], VisibleRef::Clean(0));
    assert!(!state.cache_store[0].present);
    assert_invariants(&state, cfg);
}

#[test]
fn model_reader_step_preserves_invariants_on_valid_states() {
    let cfg = ModelConfig::tla_small();
    let mut state = ModelState::new(cfg);

    state.writer_write(cfg, 0, 1).unwrap();
    state.reader_step(cfg, 0).unwrap();
    assert!(!state.bad_read);
    assert_invariants(&state, cfg);

    state.flusher_flush_next(cfg).unwrap();
    state.flusher_drop(cfg, 0).unwrap();
    state.cache_insert(cfg, 0).unwrap();
    state.reader_step(cfg, 0).unwrap();
    assert!(!state.bad_read);
    assert_invariants(&state, cfg);
}

#[test]
fn model_crash_from_clean_visible_state_preserves_invariants() {
    let cfg = ModelConfig::tla_small();
    let mut state = ModelState::new(cfg);

    state.writer_write(cfg, 0, 1).unwrap();
    state.flusher_flush_next(cfg).unwrap();
    state.flusher_drop(cfg, 0).unwrap();
    state.cache_insert(cfg, 0).unwrap();
    state.crash(cfg).unwrap();

    assert_eq!(state.visible, vec![VisibleRef::Empty, VisibleRef::Empty]);
    assert!(state.crashed);
    assert_invariants(&state, cfg);
}

fn cfg_small() -> ModelConfig {
    ModelConfig::new(2, 2, 3, 2)
}

#[test]
fn strict_write_then_flush_preserves_core_invariants() {
    let cfg = cfg_small();
    let mut state = ModelState::new(cfg);

    let _ = state.writer_write(cfg, 0, 0);
    let _ = state.flusher_flush_next(cfg);

    assert!(state.durable[0].present);
    assert_eq!(state.durable[0].seq, Some(0));
    assert_eq!(state.visible[0], VisibleRef::Dirty(0));
}

#[test]
fn stale_drop_does_not_remove_newer_visible_write() {
    let cfg = cfg_small();
    let mut state = ModelState::new(cfg);

    let _ = state.writer_write(cfg, 0, 0);
    let _ = state.flusher_flush_next(cfg);

    let _ = state.writer_write(cfg, 0, 1);
    let _ = state.flusher_drop(cfg, 0);

    assert_eq!(state.visible[0], VisibleRef::Dirty(1));
    assert!(state.write_store[1].present);
    assert!(!state.bad_read);
}

#[test]
fn flushing_old_record_replays_to_durable_without_losing_new_dirty() {
    let cfg = cfg_small();
    let mut state = ModelState::new(cfg);

    let _ = state.writer_write(cfg, 0, 0);
    let _ = state.writer_write(cfg, 0, 1);
    let _ = state.flusher_flush_next(cfg);

    assert_eq!(state.durable[0].seq, Some(0));
    assert_eq!(state.visible[0], VisibleRef::Dirty(1));
    assert!(state.write_store[1].present);
}

#[test]
fn deterministic_mixed_writer_flusher_sequence_keeps_ordering() {
    let cfg = cfg_small();
    let mut state = ModelState::new(cfg);

    let _ = state.writer_write(cfg, 0, 0);
    let _ = state.writer_write(cfg, 1, 1);
    let _ = state.flusher_flush_next(cfg);
    let _ = state.flusher_drop(cfg, 0);

    assert_eq!(state.flushed.len(), 1);
    assert_eq!(state.flushed[0], 0);
    assert_eq!(state.dirty_q.len(), 1);
    assert_eq!(state.dirty_q[0], 1);
    assert_eq!(state.next_write, 2);

    assert_eq!(state.visible[0], VisibleRef::Empty);
    assert_eq!(state.visible[1], VisibleRef::Dirty(1));
}
