use std::cell::RefCell;

use cachelog::byte_prefix_map::BytePrefixMap;
use cachelog::entry::EntryState;
use cachelog::map::types::{CacheLogConfig, DirtyWriteMode};

#[test]
fn mark_flushed_prunes_non_visible_keys_from_trie() {
    let mut map = BytePrefixMap::<usize>::new(CacheLogConfig::new(512, 512, 512));
    for i in 0..128usize {
        map.insert_dirty(format!("ab:{i:03}").into_bytes(), i);
    }

    let _ = map.advance_trie(512);
    assert_eq!(map.prefix_trie_len(), 128);

    let batch = map.flush_batch(128);
    assert_eq!(batch.len(), 128);
    assert_eq!(map.mark_flushed(&batch), 128);
    assert_eq!(map.prefix_trie_len(), 0);
}

#[test]
fn mark_flushed_keeps_key_when_newer_visible_value_exists() {
    let mut map = BytePrefixMap::<usize>::new(CacheLogConfig::new(64, 64, 64));

    map.insert_dirty(b"ab:001".to_vec(), 1);
    let _ = map.advance_trie(64);
    let first = map.flush_batch(1);
    assert_eq!(first.len(), 1);

    map.insert_dirty(b"ab:001".to_vec(), 2);
    let _ = map.advance_trie(64);
    assert_eq!(map.prefix_trie_len(), 1);

    assert_eq!(map.mark_flushed(&first), 1);
    assert_eq!(map.prefix_trie_len(), 1);
}

#[test]
fn with_persisted_scan_flushes_and_prunes_trie() {
    let mut map = BytePrefixMap::<usize>::new(CacheLogConfig::new(64, 64, 64));
    map.insert_dirty(b"ab:001".to_vec(), 1);
    map.insert_dirty(b"ab:002".to_vec(), 2);
    let _ = map.advance_trie(64);

    let persisted = RefCell::new(Vec::new());
    let result = map
        .with_persisted_scan(
            8,
            |batch| {
                let mut entries = Vec::new();
                let mut cursor = batch.iter();
                while let Some(entry) = cursor.next() {
                    entries.push((entry.key().clone(), *entry.value()));
                }
                *persisted.borrow_mut() = entries;
                Ok::<_, ()>(())
            },
            |map| Ok::<_, ()>(map.list_prefix(b"ab:", |k, _, _| k.clone(), 16)),
        )
        .expect("persisted scan");

    assert_eq!(
        persisted.into_inner(),
        vec![(b"ab:001".to_vec(), 1), (b"ab:002".to_vec(), 2)]
    );
    assert!(
        result.is_empty(),
        "flushed trie-backed list should be empty"
    );
    assert_eq!(map.prefix_trie_len(), 0);
}

#[test]
fn trie_sees_writes_only_after_advance() {
    let mut map = BytePrefixMap::<u32>::new(CacheLogConfig::new(64, 64, 64));
    map.put(b"ab:1".to_vec(), 10);
    map.put(b"ab:2".to_vec(), 20);
    map.put(b"zz".to_vec(), 30);
    assert!(map.list_prefix(b"ab:", |k, _, _| k.clone(), 10).is_empty());
    assert_eq!(map.read(&b"ab:1".to_vec(), |_, v, s| (*v, s)), Some((10, EntryState::Dirty)));

    assert_eq!(map.advance_trie(10), 3);
    let mut listed = map.list_prefix(b"ab:", |k, v, _| (k.clone(), *v), 10);
    listed.sort();
    assert_eq!(listed, vec![(b"ab:1".to_vec(), 10), (b"ab:2".to_vec(), 20)]);
    assert_eq!(map.prefix_trie_len(), 3);
}

#[test]
fn advance_trie_collapses_repeated_keys() {
    let mut map = BytePrefixMap::<u32>::new(CacheLogConfig::new(64, 64, 64));
    map.insert_dirty(b"k".to_vec(), 1);
    map.insert_dirty(b"k".to_vec(), 2);
    map.insert_dirty(b"k".to_vec(), 3);
    assert_eq!(map.advance_trie(0), 0);
    assert_eq!(map.prefix_trie_len(), 0);
    assert_eq!(map.advance_trie(2), 1);
    assert_eq!(map.prefix_trie_len(), 1);
    assert_eq!(map.advance_trie(5), 1);
    assert_eq!(map.prefix_trie_len(), 1);
    assert_eq!(map.advance_trie(5), 0);
}

#[test]
fn clean_insert_is_published_only_when_it_wins() {
    let mut map = BytePrefixMap::<u32>::new(CacheLogConfig::new(64, 64, 64));
    assert_eq!(map.insert_clean_if_absent(b"c:1".to_vec(), 5), Some(0));
    map.insert_dirty(b"c:2".to_vec(), 6);
    assert_eq!(map.insert_clean_if_absent(b"c:2".to_vec(), 7), None);
    assert_eq!(map.advance_trie(10), 2);
    assert_eq!(map.clean_store_len(), 1);
    let count = map.for_each_prefix_key(b"c:", |_| {}, 10);
    assert_eq!(count, 2);
    let mut states = map.list_prefix(b"c:", |k, v, s| (k.clone(), *v, s), 10);
    states.sort_by(|a, b| a.0.cmp(&b.0));
    assert_eq!(
        states,
        vec![
            (b"c:1".to_vec(), 5, EntryState::Clean),
            (b"c:2".to_vec(), 6, EntryState::Dirty)
        ]
    );
}

#[test]
fn put_batch_queues_every_key_and_limit_caps_listing() {
    let mut map = BytePrefixMap::<u32>::new(CacheLogConfig::new(64, 64, 64));
    assert_eq!(map.put_batch(Vec::new()), 0);
    let written = map.put_batch(vec![
        (b"p:1".to_vec(), 1),
        (b"p:2".to_vec(), 2),
        (b"p:3".to_vec(), 3),
    ]);
    assert_eq!(written, 3);
    assert_eq!(map.dirty_log_len(), 3);
    assert_eq!(map.advance_trie(100), 3);
    assert_eq!(map.list_prefix(b"p:", |k, _, _| k.clone(), 2).len(), 2);
    assert_eq!(map.list_prefix(b"p:", |k, _, _| k.clone(), 0).len(), 0);
    assert_eq!(map.for_each_prefix_key(b"p:", |_| {}, 1), 1);
    assert_eq!(map.for_each_prefix_key(b"q", |_| {}, 10), 0);
}

#[test]
fn with_flush_batch_error_keeps_trie_and_batch_in_flight() {
    let mut map = BytePrefixMap::<u32>::new(CacheLogConfig::new(64, 64, 64));
    map.insert_dirty(b"e:1".to_vec(), 1);
    let _ = map.advance_trie(8);
    let failed: Result<usize, String> = map.with_flush_batch(8, |_| Err("disk full".to_string()));
    assert_eq!(failed, Err("disk full".to_string()));
    assert_eq!(map.prefix_trie_len(), 1);
    assert_eq!(map.dirty_log_len(), 1);
    let done: Result<usize, String> = map.with_flush_batch(8, |batch| {
        assert_eq!(batch.len(), 1);
        Ok(())
    });
    assert_eq!(done, Ok(1));
    assert_eq!(map.prefix_trie_len(), 0);
    assert_eq!(map.dirty_log_len(), 0);
    let empty: Result<usize, String> = map.with_flush_batch(8, |_| Ok(()));
    assert_eq!(empty, Ok(0));
}

#[test]
fn coalesced_flush_now_prunes_trie() {
    let config = CacheLogConfig::new(64, 64, 64).with_dirty_write_mode(DirtyWriteMode::CoalescedMap);
    let mut map = BytePrefixMap::<u32>::new(config);
    map.put(b"x:1".to_vec(), 1);
    map.put(b"x:2".to_vec(), 2);
    map.put(b"x:1".to_vec(), 3);
    assert_eq!(map.advance_trie(10), 2);
    assert_eq!(map.visible_len(), 2);
    let flushed: Result<usize, ()> = map.flush_now(1, |_| Ok(()));
    assert_eq!(flushed, Ok(2));
    assert_eq!(map.prefix_trie_len(), 0);
    assert_eq!(map.read_full(&b"x:1".to_vec(), |_, v, _, _| *v), None);
}

#[test]
fn list_prefix_follows_the_trie_walk_order() {
    let mut map = BytePrefixMap::<usize>::new(CacheLogConfig::new(16, 16, 16));
    map.insert_dirty(vec![b'k', 0x01], 1);
    map.insert_dirty(vec![b'k', 0x01, 0x00], 2);
    map.insert_dirty(vec![b'k', 0x10], 3);
    assert_eq!(map.advance_trie(16), 3);
    let listed = map.list_prefix(b"k", |_, v, _| *v, 16);
    assert_eq!(listed, vec![3, 1, 2]);
    let first_two = map.list_prefix(b"k", |_, v, _| *v, 2);
    assert_eq!(first_two, vec![3, 1]);
}
