# cachelog

A key-value cache/log with a dirty-write overlay, a clean cache and flushes to a
durable store, verified with Verus.

- `src/model/` — the deterministic state machine of the cache log: state, steps,
  invariants and their preservation proofs, comparable and trace forms of a state,
  and reading states and steps out of ITF trace values.
- `src/map.rs`, `src/map/` — the cache log map: visible index, strict log and
  coalesced overlay modes, clean FIFO, flush batches, prefix listings of byte keys,
  and the laws that relate its operations.
- `src/byte_prefix_map.rs` — a byte-keyed map with a prefix trie (`qp_trie`)
  brought up to date on demand.
- `src/ring.rs`, `src/id_ring_map.rs`, `src/dirty_log.rs`, `src/retired.rs`,
  `src/background_flush.rs` — the building blocks: id-addressed ring, ordered dirty
  log, retired generations, and the decisions of the background flusher.
- `app/` — the command-line model driver, the background flush worker thread,
  JSON forms of the model types, and trace replay through `tla_connect`.
- `tests/` — scenarios, conformance of the map with the model, and checks of the
  laws on concrete values.

Verify with Verus on `src/lib.rs`; the tests run as ordinary Rust tests.
