use std::cell::{Cell, RefCell};

use cachelog::entry::{EntryState, VisibleRef};
use cachelog::map::types::{CacheLogConfig, DirtyWriteMode, FlushWork};
use cachelog::map::{CacheLogMap, COALESCED_UNASSIGNED_WRITE_ID};

fn strict_bytes() -> CacheLogMap<Vec<u8>, u32> {
    CacheLogMap::new(CacheLogConfig::new(64, 64, 64))
}

fn coalesced_bytes() -> CacheLogMap<Vec<u8>, u32> {
    CacheLogMap::new(CacheLogConfig::new(64, 64, 64).with_dirty_write_mode(DirtyWriteMode::CoalescedMap))
}

fn fill(map: &mut CacheLogMap<Vec<u8>, u32>) {
    map.put(b"ab:003".to_vec(), 3);
    map.put(b"zz".to_vec(), 9);
    map.put(b"ab:001".to_vec(), 1);
    map.put(b"ab".to_vec(), 0);
    map.put(b"ab:002".to_vec(), 2);
}

#[test]
fn list_prefix_is_sorted_and_limited_in_strict_mode() {
    let mut map = strict_bytes();
    fill(&mut map);
    let listed = map.list_prefix(b"ab:", |k, v, _| (k.clone(), *v), 10);
    assert_eq!(
        listed,
        vec![(b"ab:001".to_vec(), 1), (b"ab:002".to_vec(), 2), (b"ab:003".to_vec(), 3)]
    );
    let first_two = map.list_prefix(b"ab:", |k, _, _| k.clone(), 2);
    assert_eq!(first_two, vec![b"ab:001".to_vec(), b"ab:002".to_vec()]);
    assert_eq!(map.list_prefix(b"ab:", |k, _, _| k.clone(), 0), Vec::<Vec<u8>>::new());
    let with_short = map.list_prefix(b"ab", |k, _, _| k.clone(), 10);
    assert_eq!(with_short[0], b"ab".to_vec());
    assert_eq!(with_short.len(), 4);
    let everything = map.list_prefix(b"", |k, _, _| k.clone(), 100);
    assert_eq!(everything.len(), 5);
    assert_eq!(everything[4], b"zz".to_vec());
}

#[test]
fn smaller_limit_lists_a_prefix_of_larger_limit() {
    let mut map = strict_bytes();
    fill(&mut map);
    let small = map.list_prefix(b"a", |k, _, _| k.clone(), 2);
    let large = map.list_prefix(b"a", |k, _, _| k.clone(), 4);
    assert_eq!(small.as_slice(), &large[..2]);
}

#[test]
fn for_each_prefix_counts_and_visits_in_order() {
    let mut map = strict_bytes();
    fill(&mut map);
    let seen = RefCell::new(Vec::new());
    let count = map.for_each_prefix(b"ab:", |k, v, s| seen.borrow_mut().push((k.clone(), *v, s)), 2);
    assert_eq!(count, 2);
    assert_eq!(
        seen.into_inner(),
        vec![(b"ab:001".to_vec(), 1, EntryState::Dirty), (b"ab:002".to_vec(), 2, EntryState::Dirty)]
    );
    let keys = Cell::new(0usize);
    assert_eq!(map.for_each_prefix_key(b"zz", |_| keys.set(keys.get() + 1), 10), 1);
    assert_eq!(keys.get(), 1);
    assert_eq!(map.for_each_prefix(b"nothing", |_, _, _| {}, 10), 0);
    assert_eq!(map.for_each_prefix(b"ab:", |_, _, _| {}, 0), 0);
}

#[test]
fn with_prefix_snapshot_hands_sorted_keys_and_does_not_flush() {
    let mut map = strict_bytes();
    fill(&mut map);
    let snapshot = map.with_prefix_snapshot(b"ab:", 10, |keys| keys.to_vec());
    assert_eq!(snapshot, vec![b"ab:001".to_vec(), b"ab:002".to_vec(), b"ab:003".to_vec()]);
    assert_eq!(map.dirty_log_len(), 5);
}

#[test]
fn coalesced_listing_sees_overlay_in_flight_and_clean_keys() {
    let mut map = coalesced_bytes();
    assert_eq!(map.insert_clean_if_absent(b"ab:000".to_vec(), 100), Some(0));
    map.put(b"ab:002".to_vec(), 2);
    map.put(b"ab:001".to_vec(), 1);
    let batch = map.flush_batch(1);
    assert_eq!(batch.len(), 1);
    map.put(b"ab:003".to_vec(), 3);
    map.put(b"ab:002".to_vec(), 22);
    let listed = map.list_prefix(b"ab:", |k, v, s| (k.clone(), *v, s), 10);
    assert_eq!(
        listed,
        vec![
            (b"ab:000".to_vec(), 100, EntryState::Clean),
            (b"ab:001".to_vec(), 1, EntryState::Dirty),
            (b"ab:002".to_vec(), 22, EntryState::Dirty),
            (b"ab:003".to_vec(), 3, EntryState::Dirty),
        ]
    );
}

#[test]
fn strict_write_is_read_back_with_its_id() {
    let mut map: CacheLogMap<u64, u64> = CacheLogMap::new(CacheLogConfig::new(16, 16, 16));
    let first = map.insert_dirty(7, 70);
    let second = map.upsert_dirty(7, 71);
    assert_eq!((first, second), (0, 1));
    assert_eq!(map.get_cloned(&7), Some((71, EntryState::Dirty)));
    assert_eq!(map.get_cloned_full(&7), Some((71, EntryState::Dirty, VisibleRef::Dirty(1))));
    assert_eq!(map.visible_ref(&7), Some(VisibleRef::Dirty(1)));
    assert!(map.contains(&7));
    assert!(!map.contains(&8));
    assert_eq!(map.read(&8, |_, v, _| *v), None);
    assert_eq!(map.dirty_log_len(), 2);
}

#[test]
fn clean_entries_are_refused_over_dirty_and_evicted_oldest_first() {
    let mut map: CacheLogMap<u64, u64> = CacheLogMap::new(CacheLogConfig::new(16, 16, 2));
    map.put(1, 10);
    assert_eq!(map.insert_clean_if_absent(1, 11), None);
    assert_eq!(map.insert_clean_if_absent(2, 20), Some(1));
    assert_eq!(map.insert_clean_if_absent(3, 30), Some(2));
    assert_eq!(map.insert_clean_if_absent(4, 40), Some(3));
    assert!(!map.contains(&2));
    assert_eq!(map.get_cloned(&3), Some((30, EntryState::Clean)));
    assert_eq!(map.get_cloned(&4), Some((40, EntryState::Clean)));
    assert!(map.evict_clean(&3));
    assert!(!map.evict_clean(&3));
    assert!(!map.evict_clean(&1));
    assert_eq!(map.get_cloned(&1), Some((10, EntryState::Dirty)));
}

#[test]
fn dirty_write_replaces_clean_entry() {
    let mut map: CacheLogMap<u64, u64> = CacheLogMap::new(CacheLogConfig::new(16, 16, 16));
    assert_eq!(map.insert_clean_if_absent(5, 50), Some(0));
    assert_eq!(map.clean_store_len(), 1);
    map.put(5, 51);
    assert_eq!(map.get_cloned(&5), Some((51, EntryState::Dirty)));
    assert_eq!(map.clean_store_len(), 0);
}

#[test]
fn strict_flush_marks_prefix_and_keeps_newer_writes() {
    let mut map: CacheLogMap<u64, u64> = CacheLogMap::new(CacheLogConfig::new(16, 16, 16));
    map.put(1, 10);
    map.put(2, 20);
    map.put(1, 11);
    let batch = map.flush_batch(2);
    assert_eq!(batch.len(), 2);
    let again = map.flush_batch(8);
    assert_eq!(again.len(), 2);
    assert_eq!(map.mark_flushed(&batch), 2);
    assert_eq!(map.mark_flushed(&batch), 0);
    assert_eq!(map.get_cloned(&1), Some((11, EntryState::Dirty)));
    assert!(!map.contains(&2));
    assert_eq!(map.dirty_log_len(), 1);
    let rest = map.flush_batch(8);
    assert_eq!(rest.len(), 1);
    assert_eq!(map.mark_flushed(&rest), 1);
    assert!(!map.contains(&1));
    assert_eq!(map.dirty_log_len(), 0);
}

#[test]
fn strict_batch_write_returns_ids_in_order() {
    let mut map: CacheLogMap<u64, u64> = CacheLogMap::new(CacheLogConfig::new(16, 16, 16));
    let ids = map.insert_dirty_batch(vec![(1, 10), (2, 20), (1, 11)]);
    assert_eq!(ids, vec![0, 1, 2]);
    assert_eq!(map.get_cloned(&1), Some((11, EntryState::Dirty)));
    assert_eq!(map.insert_dirty_batch_without_ids(vec![(3, 30)]), 1);
    assert_eq!(map.put_batch(vec![(4, 40), (5, 50)]), 2);
    assert_eq!(map.dirty_log_len(), 6);
    let counts = map.dirty_backlog_counts();
    assert_eq!(counts.dirty_total, 6);
}

#[test]
fn coalesced_put_has_no_id_until_flushed() {
    let config = CacheLogConfig::new(16, 16, 16).with_dirty_write_mode(DirtyWriteMode::CoalescedMap);
    let mut map: CacheLogMap<u64, u64> = CacheLogMap::new(config);
    map.put(1, 10);
    map.put(1, 11);
    map.put(2, 20);
    assert_eq!(map.visible_ref(&1), Some(VisibleRef::Dirty(COALESCED_UNASSIGNED_WRITE_ID)));
    assert_eq!(map.get_cloned(&1), Some((11, EntryState::Dirty)));
    assert_eq!(map.visible_len(), 2);
    let batch = map.flush_batch(8);
    assert_eq!(batch.len(), 2);
    let mut ids = Vec::new();
    let mut cursor = batch.iter();
    while let Some(record) = cursor.next() {
        assert_ne!(record.id, COALESCED_UNASSIGNED_WRITE_ID);
        ids.push(record.id);
    }
    ids.sort();
    ids.dedup();
    assert_eq!(ids.len(), 2);
    assert_eq!(map.mark_flushed(&batch), 2);
    assert!(!map.contains(&1));
    assert_eq!(map.dirty_log_len(), 0);
}

#[test]
fn coalesced_insert_dirty_hands_out_ids() {
    let config = CacheLogConfig::new(16, 16, 16).with_dirty_write_mode(DirtyWriteMode::CoalescedMap);
    let mut map: CacheLogMap<u64, u64> = CacheLogMap::new(config);
    assert_eq!(map.insert_dirty(1, 10), 0);
    assert_eq!(map.insert_dirty(1, 11), 1);
    assert_eq!(map.visible_ref(&1), Some(VisibleRef::Dirty(1)));
    assert_eq!(map.insert_clean_if_absent(1, 5), None);
}

#[test]
fn flush_now_empties_backlog_and_reports_errors() {
    let mut map: CacheLogMap<u64, u64> = CacheLogMap::new(CacheLogConfig::new(16, 16, 16));
    for k in 0..5u64 {
        map.put(k, k * 10);
    }
    let failed: Result<usize, &str> = map.flush_now(2, |_| Err("offline"));
    assert_eq!(failed, Err("offline"));
    assert_eq!(map.dirty_log_len(), 5);
    let sizes = RefCell::new(Vec::new());
    let flushed: Result<usize, &str> = map.flush_now(2, |batch| {
        sizes.borrow_mut().push(batch.len());
        Ok(())
    });
    assert_eq!(flushed, Ok(5));
    assert_eq!(sizes.into_inner(), vec![2, 2, 1]);
    assert_eq!(map.dirty_log_len(), 0);
    let nothing: Result<usize, &str> = map.flush_now(0, |_| Ok(()));
    assert_eq!(nothing, Ok(0));
}

#[test]
fn with_persisted_scan_sees_flushed_state() {
    let mut map: CacheLogMap<u64, u64> = CacheLogMap::new(CacheLogConfig::new(16, 16, 16));
    map.put(1, 10);
    map.put(2, 20);
    let scanned: Result<(usize, bool), ()> =
        map.with_persisted_scan(1, |_| Ok(()), |m| Ok((m.dirty_log_len(), m.contains(&1))));
    assert_eq!(scanned, Ok((0, false)));
    let refused: Result<usize, ()> = {
        map.put(3, 30);
        map.with_persisted_scan(1, |_| Err(()), |_| Ok(1))
    };
    assert_eq!(refused, Err(()));
}

#[test]
fn wait_flush_work_hands_batches_or_force_flush() {
    let mut map: CacheLogMap<u64, u64> = CacheLogMap::new(CacheLogConfig::new(16, 16, 16));
    assert!(map.poll_flush_work(4).is_none());
    map.signal_force_flush();
    assert!(matches!(map.poll_flush_work(4), Some(FlushWork::ForceFlush)));
    assert!(map.poll_flush_work(4).is_none());
    map.put(1, 10);
    assert!(map.poll_flush_work(0).is_none());
    match map.wait_flush_work(4) {
        FlushWork::Batch(batch) => assert_eq!(batch.len(), 1),
        FlushWork::ForceFlush => panic!("expected a batch"),
    }
    assert!(matches!(map.poll_flush_work(4), Some(FlushWork::Batch(_))));
}

#[test]
fn cleanup_stale_visible_removes_only_matching_ref() {
    let mut map: CacheLogMap<u64, u64> = CacheLogMap::new(CacheLogConfig::new(16, 16, 16));
    let id = map.insert_dirty(4, 40);
    assert!(!map.cleanup_stale_visible_matching(&4, VisibleRef::Dirty(id + 1)));
    assert!(map.contains(&4));
    assert!(map.cleanup_stale_visible_matching(&4, VisibleRef::Dirty(id)));
    assert!(!map.contains(&4));
    assert!(!map.cleanup_stale_visible(&4));
    assert_eq!(map.insert_clean_if_absent(6, 60), Some(0));
    assert!(map.cleanup_stale_visible(&6));
    assert!(!map.contains(&6));
}

#[test]
fn borrowed_writes_store_copies() {
    let mut map: CacheLogMap<Vec<u8>, Vec<u8>> = CacheLogMap::new(CacheLogConfig::new(16, 16, 16));
    let key = [1u8, 2, 3];
    let value = [9u8];
    assert_eq!(map.insert_dirty_borrowed(&key, &value), 0);
    assert_eq!(map.get_cloned(&vec![1, 2, 3]), Some((vec![9], EntryState::Dirty)));
    let written = map.insert_dirty_batch_borrowed_without_ids(vec![(&b"a"[..], &b"x"[..]), (&b"b"[..], &b"y"[..])]);
    assert_eq!(written, 2);
    assert_eq!(map.get_cloned(&b"b".to_vec()), Some((b"y".to_vec(), EntryState::Dirty)));
    assert_eq!(map.dirty_log_len(), 3);
}

#[test]
fn coalesced_borrowed_batch_keeps_last_write_per_key() {
    let config = CacheLogConfig::new(16, 16, 16).with_dirty_write_mode(DirtyWriteMode::CoalescedMap);
    let mut map: CacheLogMap<Vec<u8>, Vec<u8>> = CacheLogMap::new(config);
    let written = map.insert_dirty_batch_borrowed_without_ids(vec![
        (&b"k"[..], &b"1"[..]),
        (&b"j"[..], &b"2"[..]),
        (&b"k"[..], &b"3"[..]),
    ]);
    assert_eq!(written, 2);
    assert_eq!(map.get_cloned(&b"k".to_vec()), Some((b"3".to_vec(), EntryState::Dirty)));
    assert_eq!(map.dirty_log_len(), 2);
}

#[test]
fn quick_start_write_read_flush_and_cache_back() {
    let mut map: CacheLogMap<String, i32> = CacheLogMap::new(CacheLogConfig::new(1024, 1024, 1024));
    map.put("key".to_owned(), 42);
    let value = map.read(&"key".to_owned(), |_key, value, _state| *value);
    assert_eq!(value, Some(42));
    let flushed = map
        .with_flush_batch(64, |batch| {
            let mut cursor = batch.iter();
            while let Some(entry) = cursor.next() {
                assert_eq!(entry.key(), "key");
                assert_eq!(*entry.value(), 42);
            }
            Ok::<_, ()>(())
        })
        .unwrap();
    assert_eq!(flushed, 1);
    assert!(map.read(&"key".to_owned(), |_, _, _| ()).is_none());
    assert_eq!(map.insert_clean_if_absent("key".to_owned(), 42), Some(0));
    assert_eq!(map.get_cloned(&"key".to_owned()), Some((42, EntryState::Clean)));
}

#[test]
fn basic_example_dirty_and_clean_reads() {
    let mut map: CacheLogMap<String, i32> = CacheLogMap::new(CacheLogConfig::new(16, 16, 16));
    map.put("dirty".to_owned(), 10);
    assert_eq!(map.insert_clean_if_absent("clean".to_owned(), 20), Some(0));
    let dirty = map.read(&"dirty".to_owned(), |key, value, state| (key.clone(), *value, state));
    let clean = map.read(&"clean".to_owned(), |key, value, state| (key.clone(), *value, state));
    assert_eq!(dirty, Some(("dirty".to_owned(), 10, EntryState::Dirty)));
    assert_eq!(clean, Some(("clean".to_owned(), 20, EntryState::Clean)));
    let marked = map.with_flush_batch(8, |_| Ok::<_, ()>(())).expect("flush batch");
    assert_eq!(marked, 1);
    assert_eq!(map.read(&"dirty".to_owned(), |_, _, _| ()), None);
    map.put("dirty".to_owned(), 11);
    assert_eq!(map.read(&"dirty".to_owned(), |_, value, _| *value), Some(11));
}
