use std::collections::BTreeMap;

use cachelog::entry::{EntryState, VisibleRef};
use cachelog::map::debug::DebugVisible;
use cachelog::map::types::CacheLogConfig;
use cachelog::map::CacheLogMap;
use cachelog::model::comparable::{
    ComparableCleanRecord, ComparableDirtyRecord, ComparableState, ComparableVisibleRef,
};
use cachelog::model::{ModelConfig, ModelState, VisibleRef as ModelVisibleRef};

fn to_core_id(id: u64) -> usize {
    usize::try_from(id).expect("id does not fit in usize")
}

struct ConformanceHarness {
    live: CacheLogMap<usize, usize>,
    model: ModelState,
    model_cfg: ModelConfig,
    inflight: Vec<usize>,
}

impl ConformanceHarness {
    fn new() -> Self {
        let model_cfg = ModelConfig::new(8, 64, 64, 64);
        Self {
            live: CacheLogMap::new(CacheLogConfig::new(64, 64, 64)),
            model: ModelState::new(model_cfg),
            model_cfg,
            inflight: Vec::new(),
        }
    }

    fn insert_dirty(&mut self, key: usize, value: usize) -> usize {
        let previous = self.model.visible[key];
        let live_id = self.live.insert_dirty(key, value);
        self.model
            .writer_write(self.model_cfg, key, value)
            .expect("model writer_write failed");
        if let ModelVisibleRef::Clean(id) = previous {
            self.model
                .cache_drop_record(self.model_cfg, id)
                .expect("model cache_drop_record failed");
            self.model
                .cache_cleanup_visible(self.model_cfg, id)
                .expect("model cache_cleanup_visible failed");
        }
        assert_eq!(to_core_id(live_id), self.model.next_write - 1);
        self.assert_matches_model();
        to_core_id(live_id)
    }

    fn insert_clean_from_durable(&mut self, key: usize) -> Option<usize> {
        let durable = &self.model.durable[key];
        assert!(durable.present, "no durable value for key {key}");
        let expected_id = self.model.next_cache;
        let result = self.live.insert_clean_if_absent(key, durable.value);
        self.model
            .cache_insert(self.model_cfg, key)
            .expect("model cache_insert failed");
        self.assert_matches_model();
        result.map(|id| {
            let id = to_core_id(id);
            assert_eq!(id, expected_id);
            id
        })
    }

    fn evict_clean(&mut self, key: usize) -> bool {
        let current = self.model.visible[key];
        let removed = self.live.evict_clean(&key);
        if let ModelVisibleRef::Clean(id) = current {
            self.model
                .cache_drop_record(self.model_cfg, id)
                .expect("model cache_drop_record failed");
            self.model
                .cache_cleanup_visible(self.model_cfg, id)
                .expect("model cache_cleanup_visible failed");
            assert!(removed);
        } else {
            assert!(!removed);
        }
        self.assert_matches_model();
        removed
    }

    fn batch_ids(&mut self, limit: usize) -> (cachelog::entry::FlushBatch<usize, usize>, Vec<usize>) {
        let batch = self.live.flush_batch(limit);
        let mut ids = Vec::new();
        for i in 0..batch.len() {
            ids.push(to_core_id(batch.get(i).expect("index within batch").id));
        }
        (batch, ids)
    }

    fn flush_batch(&mut self, limit: usize) -> Vec<usize> {
        let (_, ids) = self.batch_ids(limit);
        if self.inflight.is_empty() {
            let model_queue = self.model.dirty_q.clone();
            assert_eq!(
                ids,
                model_queue.iter().copied().take(limit).collect::<Vec<_>>()
            );
        } else {
            assert_eq!(ids, self.inflight);
        }
        self.inflight = ids.clone();
        self.assert_matches_model();
        ids
    }

    fn mark_flushed(&mut self, limit: usize) -> Vec<usize> {
        let (batch, ids) = self.batch_ids(limit);
        assert_eq!(ids, self.inflight);
        let marked = self.live.mark_flushed(&batch);
        assert_eq!(marked, ids.len());
        drop(batch);
        for &id in &ids {
            let expected = *self.model.dirty_q.first().expect("model dirty_q empty");
            assert_eq!(expected, id);
            self.model
                .flusher_flush_next(self.model_cfg)
                .expect("model flusher_flush_next failed");
            self.model
                .flusher_drop(self.model_cfg, id)
                .expect("model flusher_drop failed");
        }
        self.inflight.clear();
        self.assert_matches_model();
        ids
    }

    fn assert_public_behavior_matches_model(&self) {
        for key in 0..self.model_cfg.key_count {
            let expected_visible = match self.model.visible[key] {
                ModelVisibleRef::Empty => None,
                ModelVisibleRef::Dirty(id) => Some(ComparableVisibleRef::Dirty(id)),
                ModelVisibleRef::Clean(id) => Some(ComparableVisibleRef::Clean(id)),
            };
            let actual_visible = self.live.visible_ref(&key).map(|visible| match visible {
                VisibleRef::Dirty(id) => ComparableVisibleRef::Dirty(to_core_id(id)),
                VisibleRef::Clean(id) => ComparableVisibleRef::Clean(to_core_id(id)),
            });
            assert_eq!(
                actual_visible, expected_visible,
                "visible_ref mismatch for key {key}"
            );

            let expected_triplet = match self.model.visible[key] {
                ModelVisibleRef::Empty => None,
                ModelVisibleRef::Dirty(id) => {
                    let record = &self.model.write_store[id];
                    Some((
                        record.value,
                        EntryState::Dirty,
                        ComparableVisibleRef::Dirty(id),
                    ))
                }
                ModelVisibleRef::Clean(id) => {
                    let record = &self.model.cache_store[id];
                    Some((
                        record.value,
                        EntryState::Clean,
                        ComparableVisibleRef::Clean(id),
                    ))
                }
            };
            let actual_triplet = self.live.read_full(&key, |_, value, state, visible| {
                let visible = match visible {
                    VisibleRef::Dirty(id) => ComparableVisibleRef::Dirty(to_core_id(id)),
                    VisibleRef::Clean(id) => ComparableVisibleRef::Clean(to_core_id(id)),
                };
                (*value, state, visible)
            });
            assert_eq!(
                actual_triplet, expected_triplet,
                "read mismatch for key {key}"
            );
            assert_eq!(
                self.live.contains(&key),
                expected_triplet.is_some(),
                "contains mismatch for key {key}"
            );
        }
    }

    fn assert_matches_model(&self) {
        let snapshot = self.live.debug_snapshot();
        let comparable = ComparableState::from(&self.model);

        let visible = snapshot
            .visible
            .iter()
            .map(|(key, visible)| {
                let visible = match visible {
                    DebugVisible::Dirty(record) => ComparableVisibleRef::Dirty(to_core_id(record.id)),
                    DebugVisible::Clean(record) => ComparableVisibleRef::Clean(to_core_id(record.id)),
                };
                (*key, visible)
            })
            .collect::<BTreeMap<_, _>>();
        assert_eq!(visible, comparable.visible);

        let mut write_store = BTreeMap::new();
        for (_, visible) in &snapshot.visible {
            if let DebugVisible::Dirty(record) = visible {
                write_store.insert(
                    to_core_id(record.id),
                    ComparableDirtyRecord {
                        id: to_core_id(record.id),
                        key: record.key,
                        value: record.value,
                    },
                );
            }
        }
        for record in snapshot
            .dirty_pending
            .iter()
            .chain(snapshot.dirty_inflight.iter())
        {
            write_store.insert(
                to_core_id(record.id),
                ComparableDirtyRecord {
                    id: to_core_id(record.id),
                    key: record.key,
                    value: record.value,
                },
            );
        }
        assert_eq!(write_store, comparable.write_store);

        let queue_total = snapshot
            .dirty_inflight
            .iter()
            .chain(snapshot.dirty_pending.iter())
            .map(|record| to_core_id(record.id))
            .collect::<Vec<_>>();
        assert_eq!(queue_total, comparable.dirty_q);
        assert_eq!(
            snapshot
                .dirty_inflight
                .iter()
                .map(|record| to_core_id(record.id))
                .collect::<Vec<_>>(),
            self.inflight
        );

        let cache_store = snapshot
            .visible
            .iter()
            .filter_map(|(_, visible)| match visible {
                DebugVisible::Clean(record) => Some((
                    to_core_id(record.id),
                    ComparableCleanRecord {
                        id: to_core_id(record.id),
                        key: record.key,
                        value: record.value,
                    },
                )),
                DebugVisible::Dirty(_) => None,
            })
            .collect::<BTreeMap<_, _>>();
        assert_eq!(cache_store, comparable.cache_store);
        assert_eq!(to_core_id(snapshot.next_write), comparable.next_write);
        assert_eq!(to_core_id(snapshot.next_cache), comparable.next_cache);
        assert_eq!(snapshot.clean_count, cache_store.len());
        self.assert_public_behavior_matches_model();
    }
}

#[test]
fn conformance_dirty_write_then_read() {
    let mut harness = ConformanceHarness::new();
    harness.insert_dirty(1, 11);
}

#[test]
fn conformance_clean_insert_after_flush() {
    let mut harness = ConformanceHarness::new();
    harness.insert_dirty(2, 22);
    harness.flush_batch(1);
    harness.mark_flushed(1);
    assert_eq!(harness.insert_clean_from_durable(2), Some(0));
}

#[test]
fn conformance_dirty_over_clean_replacement() {
    let mut harness = ConformanceHarness::new();
    harness.insert_dirty(3, 30);
    harness.flush_batch(1);
    harness.mark_flushed(1);
    assert_eq!(harness.insert_clean_from_durable(3), Some(0));
    harness.insert_dirty(3, 31);
}

#[test]
fn conformance_flush_old_dirty_keeps_newer_visible() {
    let mut harness = ConformanceHarness::new();
    harness.insert_dirty(1, 10);
    harness.insert_dirty(1, 20);
    assert_eq!(harness.flush_batch(1), vec![0]);
    assert_eq!(harness.mark_flushed(1), vec![0]);
}

#[test]
fn conformance_inflight_batch_reuse_matches_model_queue() {
    let mut harness = ConformanceHarness::new();
    harness.insert_dirty(0, 1);
    harness.insert_dirty(1, 2);
    let first = harness.flush_batch(1);
    let second = harness.flush_batch(2);
    assert_eq!(first, second);
    harness.assert_matches_model();
}

#[test]
fn conformance_clean_eviction_matches_model() {
    let mut harness = ConformanceHarness::new();
    harness.insert_dirty(4, 40);
    harness.flush_batch(1);
    harness.mark_flushed(1);
    harness.insert_clean_from_durable(4);
    assert!(harness.evict_clean(4));
}

#[test]
fn conformance_interleaved_partial_flush() {
    let mut harness = ConformanceHarness::new();
    harness.insert_dirty(0, 1);
    harness.insert_dirty(1, 2);
    harness.insert_dirty(0, 3);
    assert_eq!(harness.flush_batch(2), vec![0, 1]);
    assert_eq!(harness.mark_flushed(2), vec![0, 1]);
    harness.insert_dirty(2, 4);
    harness.assert_matches_model();
}
