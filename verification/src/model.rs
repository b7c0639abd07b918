//! The deterministic semantic state machine of the cache log.
pub mod state;
pub mod spec;
pub mod invariants;
pub mod guards;
pub mod operations;
pub mod proofs;
pub mod comparable;
pub mod trace;
pub mod trace_value;

pub use state::{
    CacheId, CleanRecord, DirtyRecord, DurableValue, KeyId, ModelConfig, ModelError, ModelState,
    ModelStateView, ModelStep, ValueId, VisibleRef, WriteId, InvariantMode, InvariantReport,
};
