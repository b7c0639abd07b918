//! A key-value cache/log library: a deterministic model of the dirty overlay,
//! clean cache and durable store, together with the sequential building
//! blocks (ring, dirty log, flush batches) that the live map is made from.
pub mod model;
pub mod entry;
pub mod equivalent;
pub mod map;
pub mod ring;
pub mod id_ring_map;
pub mod dirty_log;
pub mod retired;
pub mod background_flush;
pub mod perf;
pub mod byte_prefix_map;
