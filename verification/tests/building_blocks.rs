use std::sync::Arc;
use std::time::Duration;

use cachelog::background_flush::{
    drain_limit, note_writes_action, reconfigure_should_flush, shutdown_error,
    BackgroundFlushConfig, CycleOutcome, NoteWritesAction, SyncStart, WorkerControl, WorkerStep,
};
use cachelog::dirty_log::OrderedFifoDirty;
use cachelog::entry::{DirtyRecord, Entry, EntryState, FlushBatch, PersistBatch, VisibleRef};
use cachelog::equivalent::Equivalent;
use cachelog::id_ring_map::IdRingMap;
use cachelog::map::types::{
    CacheLogConfig, DirtyBacklogCounts, DirtyWriteMode, FlushWork, VisibleValue,
};
use cachelog::perf::CoalescedSingleWritePerfCounters;
use cachelog::retired::RetiredGeneration;
use cachelog::ring::{Checked, MonotonicRing, Payload, PAYLOAD_WORDS};

fn payload(first: u64) -> Payload {
    let mut p = [0u64; PAYLOAD_WORDS];
    p[0] = first;
    p
}

#[test]
fn ring_rounds_capacity_up_and_reads_back_pushes() {
    let mut ring: MonotonicRing = MonotonicRing::new(3);
    assert_eq!(ring.capacity(), 4);
    assert_eq!(ring.push(payload(10)), 0);
    assert_eq!(ring.push(payload(11)), 1);
    assert_eq!(ring.top(), 2);
    assert_eq!(ring.read(1, |p| p[0]), Some(11));
    assert_eq!(ring.read(2, |p| p[0]), None);
}

#[test]
fn ring_overwrite_hides_old_id() {
    let mut ring: MonotonicRing<Checked> = MonotonicRing::new(2);
    for i in 0..3u64 {
        ring.push(payload(100 + i));
    }
    assert_eq!(ring.read(0, |p| p[0]), None);
    assert_eq!(ring.read(2, |p| p[0]), Some(102));
}

#[test]
fn ring_pop_and_pop_n_advance_base() {
    let mut ring: MonotonicRing = MonotonicRing::new(8);
    for i in 0..5u64 {
        ring.push(payload(i * 7));
    }
    assert_eq!(ring.pop(), Some((0, 0)));
    assert_eq!(ring.pop(), Some((1, 7)));
    assert_eq!(ring.base(), 2);
    assert_eq!(ring.read(1, |p| p[0]), None);
    assert_eq!(ring.pop_n(10), 3);
    assert_eq!(ring.base(), 5);
    assert_eq!(ring.pop(), None);
    assert_eq!(ring.pop_n(0), 0);
}

#[test]
fn id_ring_map_reads_latest_write_and_unpublishes_on_flush() {
    let mut map = IdRingMap::new(4, 8);
    assert_eq!(map.upsert(1, 10), 0);
    assert_eq!(map.upsert(2, 20), 1);
    assert_eq!(map.upsert(1, 11), 2);
    assert_eq!(map.read(1), Some(11));
    assert_eq!(map.read(2), Some(20));
    assert_eq!(map.read(3), None);
    assert_eq!(map.flush_advance(2), 2);
    assert_eq!(map.base(), 2);
    assert_eq!(map.read(2), None);
    assert_eq!(map.read(1), Some(11));
    assert_eq!(map.flush_advance(5), 1);
    assert_eq!(map.read(1), None);
    assert_eq!(map.top(), 3);
}

#[test]
fn dirty_log_numbers_writes_and_flushes_in_order() {
    let mut log: OrderedFifoDirty<u32, &str> = OrderedFifoDirty::new(4);
    let first = log.append(7, "a");
    assert_eq!(first.id, 0);
    let batch_ids: Vec<u64> = log
        .append_batch(vec![(8, "b"), (9, "c")])
        .iter()
        .map(|r| r.id)
        .collect();
    assert_eq!(batch_ids, vec![1, 2]);
    assert_eq!(log.len(), 3);
    assert_eq!(log.next_write(), 3);

    let batch = log.flush_batch(2);
    assert_eq!(batch.len(), 2);
    assert_eq!(batch.last_id(), Some(1));
    assert_eq!(log.pending_len(), 1);
    assert_eq!(log.inflight_len(), 2);

    let again = log.flush_batch(5);
    assert!(again.ptr_eq(&batch));

    assert_eq!(log.mark_flushed(&batch), 2);
    assert_eq!(log.inflight_len(), 0);
    assert_eq!(log.mark_flushed(&batch), 0);
    let rest = log.flush_batch(5);
    assert_eq!(rest.get(0).map(|r| r.key), Some(9));
}

#[test]
fn dirty_log_reports_force_flush_when_empty() {
    let mut log: OrderedFifoDirty<u32, u32> = OrderedFifoDirty::new(1);
    assert!(!log.flush_work_ready(4));
    log.signal_force_flush();
    assert!(log.flush_work_ready(4));
    assert!(matches!(log.wait_for_flush_work(4), FlushWork::ForceFlush));
    assert!(!log.flush_work_ready(4));
    log.append(1, 2);
    assert!(!log.flush_work_ready(0));
    assert!(log.flush_work_ready(4));
    match log.wait_for_flush_work(4) {
        FlushWork::Batch(batch) => assert_eq!(batch.len(), 1),
        FlushWork::ForceFlush => panic!("expected a batch"),
    }
}

#[test]
fn flush_and_persist_batches_expose_records_in_order() {
    let records = vec![
        DirtyRecord { id: 4, key: "k1", value: 1 },
        DirtyRecord { id: 5, key: "k2", value: 2 },
    ];
    let batch = FlushBatch::new_owned(records);
    assert!(!batch.is_empty());
    assert_eq!(batch.last_id(), Some(5));
    let mut ids = Vec::new();
    let mut iter = batch.iter();
    while let Some(record) = iter.next() {
        ids.push(record.id);
    }
    assert_eq!(ids, vec![4, 5]);

    let persist = PersistBatch::from_flush_batch(batch.clone());
    assert_eq!(persist.len(), 2);
    let mut pairs = Vec::new();
    let mut entries = persist.iter();
    while let Some(entry) = entries.next() {
        pairs.push((*entry.key(), *entry.value()));
    }
    assert_eq!(pairs, vec![("k1", 1), ("k2", 2)]);

    let empty: FlushBatch<u8, u8> = FlushBatch::new(Vec::new());
    assert!(empty.is_empty());
    assert_eq!(empty.last_id(), None);
    let shared = FlushBatch::new(vec![Arc::new(DirtyRecord { id: 1, key: 1u8, value: 1u8 })]);
    assert!(shared.ptr_eq(&shared.clone()));
}

#[test]
fn retired_generation_splits_dirty_and_clean() {
    let entries = vec![
        Entry { key: 1, value: 10, state: EntryState::Dirty },
        Entry { key: 2, value: 20, state: EntryState::Clean },
        Entry { key: 3, value: 30, state: EntryState::Dirty },
    ];
    let mut generation = RetiredGeneration::new(entries);
    assert_eq!(generation.len(), 3);
    assert_eq!(generation.iter_dirty().len(), 2);
    assert_eq!(generation.iter_clean().len(), 1);
    let dirty: Vec<i32> = generation.drain_dirty().iter().map(|e| e.key).collect();
    assert_eq!(dirty, vec![1, 3]);
    assert_eq!(generation.len(), 1);
    let clean: Vec<i32> = generation.drain_clean().iter().map(|e| e.key).collect();
    assert_eq!(clean, vec![2]);
    assert!(generation.is_empty());
}

#[test]
fn process_retired_hands_generation_back_on_failure() {
    let generation = RetiredGeneration::new(vec![Entry { key: 1, value: 1, state: EntryState::Dirty }]);
    let failed = generation.process_retired(|_| Err::<(), &str>("disk"), |_| Ok::<(), &str>(()));
    let returned = match failed {
        Err(back) => back,
        Ok(()) => panic!("expected the generation back"),
    };
    assert_eq!(returned.len(), 1);
    assert!(returned.process_retired(|_| Ok::<(), ()>(()), |_| Ok::<(), ()>(())).is_ok());
}

#[test]
fn visible_value_and_config_defaults() {
    let dirty = VisibleValue::Dirty(Arc::new(DirtyRecord { id: 9, key: 1, value: 2 }));
    assert_eq!(dirty.visible_ref(), VisibleRef::Dirty(9));
    let config = CacheLogConfig::new(16, 32, 8).with_dirty_write_mode(DirtyWriteMode::CoalescedMap);
    assert_eq!(config.visible_capacity, 16);
    assert_eq!(config.dirty_write_mode, DirtyWriteMode::CoalescedMap);
    assert_eq!(DirtyWriteMode::default(), DirtyWriteMode::StrictLog);
    let counts = DirtyBacklogCounts::default();
    assert_eq!(counts.dirty_total, 0);
    assert_eq!(CoalescedSingleWritePerfCounters::default().write_id_ns_total, 0);
}

#[test]
fn equivalent_compares_through_borrow() {
    let owned = String::from("key");
    assert!("key".equivalent(&owned));
    assert!(!"other".equivalent(&owned));
}

#[test]
fn background_config_for_batch_size() {
    let small = BackgroundFlushConfig::for_batch_size(0);
    assert_eq!(small.trigger_dirty, 1);
    assert_eq!(small.flush_limit, 512);
    assert_eq!(small.check_interval, Duration::from_millis(100));
    let large = BackgroundFlushConfig::for_batch_size(256);
    assert_eq!(large.check_interval, Duration::from_secs(10));
    let default = BackgroundFlushConfig::default();
    assert_eq!(default.trigger_dirty, 1024);
    assert_eq!(drain_limit(0), 1);
    assert_eq!(drain_limit(7), 7);
}

#[test]
fn worker_control_runs_a_sync_cycle() {
    let mut control = WorkerControl::new();
    assert!(control.should_sleep(0, 4));
    assert!(!control.should_sleep(4, 4));
    let target = match control.begin_sync(true) {
        SyncStart::Wait { target } => target,
        SyncStart::Immediate(_) => panic!("service is running"),
    };
    assert_eq!(target, 1);
    assert!(!control.sync_finished(1));
    let step = control.begin_cycle(0, 4);
    assert_eq!(step, WorkerStep::Cycle { target_sync: 1, needs_flush: true });
    assert!(!control.force_flush);
    match control.finish_cycle(1, Ok(())) {
        CycleOutcome::Continue { notify } => assert!(notify),
        CycleOutcome::Stop(_) => panic!("flush succeeded"),
    }
    assert!(control.sync_finished(1));
    assert_eq!(control.sync_result(), Ok(()));
}

#[test]
fn worker_control_stops_on_flush_error_and_refuses_requests() {
    let mut control = WorkerControl::new();
    assert!(control.request_wake());
    match control.finish_cycle(0, Err("disk full".to_string())) {
        CycleOutcome::Stop(result) => assert_eq!(result, Err("disk full".to_string())),
        CycleOutcome::Continue { .. } => panic!("flush failed"),
    }
    assert!(control.shutdown);
    assert!(!control.request_force_flush());
    assert_eq!(control.begin_cycle(0, 1), WorkerStep::FinalFlush);
    match control.begin_sync(true) {
        SyncStart::Immediate(result) => assert_eq!(result, Err("disk full".to_string())),
        SyncStart::Wait { .. } => panic!("service is down"),
    }
}

#[test]
fn shutdown_answers_with_shutdown_error() {
    let mut control = WorkerControl::new();
    control.mark_shutdown();
    assert_eq!(control.sync_result(), Err(shutdown_error()));
    assert_eq!(shutdown_error(), "Background flush service is shutting down");
}

#[test]
fn note_writes_and_reconfigure_decisions() {
    assert_eq!(note_writes_action(0, true, 4, 3), (NoteWritesAction::Done, 3));
    assert_eq!(note_writes_action(1, false, 4, 3), (NoteWritesAction::Refuse, 3));
    assert_eq!(note_writes_action(1, true, 4, 2), (NoteWritesAction::Done, 3));
    assert_eq!(note_writes_action(2, true, 4, 2), (NoteWritesAction::Wake, 4));
    assert_eq!(note_writes_action(5, true, 0, usize::MAX), (NoteWritesAction::Wake, usize::MAX));
    assert!(reconfigure_should_flush(2, 8, 3));
    assert!(!reconfigure_should_flush(2, 8, 1));
    assert!(!reconfigure_should_flush(8, 2, 100));
}

#[test]
fn ring_pushed_id_stays_readable_until_its_slot_comes_round() {
    let mut ring: MonotonicRing = MonotonicRing::new(4);
    let id = ring.push(payload(42));
    for i in 0..3u64 {
        ring.push(payload(i));
        assert_eq!(ring.read(id, |p| p[0]), Some(42));
    }
    assert_eq!(ring.top() - id, 4);
    ring.pop();
    assert_eq!(ring.base(), 1);
    assert_eq!(ring.read(id, |p| p[0]), None);
    assert_eq!(ring.read(1, |p| p[0]), Some(0));
    ring.pop_n(1);
    assert_eq!(ring.read(2, |p| p[0]), Some(1));
    ring.push(payload(99));
    assert_eq!(ring.read(3, |p| p[0]), Some(2));
    assert_eq!(ring.read(4, |p| p[0]), Some(99));
}

#[test]
fn ring_reads_nothing_at_or_above_top() {
    let mut ring: MonotonicRing = MonotonicRing::new(4);
    ring.push(payload(5));
    assert_eq!(ring.read(1, |p| p[0]), None);
    assert_eq!(ring.read(5, |p| p[0]), None);
    assert_eq!(ring.read(1000, |p| p[0]), None);
}

#[test]
fn id_ring_map_serves_latest_write_until_wrap_or_flush() {
    let mut map = IdRingMap::new(4, 4);
    let id = map.upsert(7, 70);
    for k in 0..3u64 {
        map.upsert(100 + k, k);
        assert_eq!(map.read(7), Some(70));
    }
    assert_eq!(map.top() - id, 4);
    assert_eq!(map.read(8), None);
    map.upsert(200, 1);
    assert_eq!(map.read(7), None);

    let mut map = IdRingMap::new(4, 8);
    map.upsert(1, 10);
    let id = map.upsert(2, 20);
    assert_eq!(map.flush_advance(1), 1);
    assert!(map.base() <= id);
    assert_eq!(map.read(2), Some(20));
    assert_eq!(map.read(9), None);
}
