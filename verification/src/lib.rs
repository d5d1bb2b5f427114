//! Deferred side effects: collected while a computation runs, captured into pre-resolved form, and
//! applied later, at most once per key and value.

pub mod batch_laws;
pub mod dedup;
pub mod dedup_laws;
pub mod effect;
pub mod effects;
pub mod error;
pub mod key_slots;
pub mod progress;
pub mod protocol;
pub mod reapply;
pub mod state;
pub mod storage;
pub mod storage_laws;

pub use dedup::{build_unique_keys, dedup_identities, UniqueKeys};
pub use effect::{emit_effect, CapturedEffect, Effect, EffectCollectibles, EffectInstance};
pub use effects::{
    capture_all, take_effects, ApplyBatch, Effects, APPLY_EFFECTS_CONCURRENCY_LIMIT,
};
pub use error::{ApplyOutcome, ConflictingEffectError, EffectError, EffectsError};
pub use state::EffectLastApplied;
pub use storage::{ApplyRun, ApplyStep, EffectStateEntry, EffectStateStorage, EventGuard};
