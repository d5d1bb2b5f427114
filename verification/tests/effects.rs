//! Producer, batch and storage together: how many times each side effect actually runs.

use std::fmt;
use std::future::{ready, Ready};
use std::sync::atomic::{AtomicU64, Ordering};
use std::sync::Arc;

use futures::executor::block_on;
use parking_lot::Mutex;
use rustc_hash::FxHashMap;
use turbo_effects::{
    capture_all, emit_effect, take_effects, ApplyBatch, ApplyOutcome, ApplyStep, CapturedEffect,
    Effect, EffectCollectibles, EffectError, EffectStateStorage, Effects, EffectsError,
};

/// Per-test counters and storage.
struct Shared {
    applies_by_key: Mutex<FxHashMap<u32, u64>>,
    total_applies: AtomicU64,
    state_storage: Mutex<EffectStateStorage<dyn EffectError, ()>>,
}

impl Shared {
    fn new() -> Arc<Self> {
        Arc::new(Self {
            applies_by_key: Mutex::new(Default::default()),
            total_applies: AtomicU64::new(0),
            state_storage: Mutex::new(Default::default()),
        })
    }

    fn applies_for(&self, key: u32) -> u64 {
        self.applies_by_key.lock().get(&key).copied().unwrap_or(0)
    }

    fn total(&self) -> u64 {
        self.total_applies.load(Ordering::Relaxed)
    }
}

struct TestEffectEmit {
    key: u32,
    value_hash: u128,
    shared: Arc<Shared>,
}

impl Effect for TestEffectEmit {
    type Captured = TestEffectCaptured;
    type Error = TestError;
    type Capturing<'a> = Ready<Result<TestEffectCaptured, TestError>>;

    fn capture<'a>(&'a self) -> Self::Capturing<'a> {
        ready(Ok(TestEffectCaptured {
            key: self.key,
            value_hash: self.value_hash,
            shared: self.shared.clone(),
        }))
    }
}

struct TestEffectCaptured {
    key: u32,
    value_hash: u128,
    shared: Arc<Shared>,
}

impl CapturedEffect for TestEffectCaptured {
    type Error = dyn EffectError;
    type Applying<'a> = Ready<Result<(), ApplyOutcome<Arc<dyn EffectError>>>>;

    fn key(&self) -> Box<[u8]> {
        self.key.to_le_bytes().into()
    }

    fn value_hash(&self) -> u128 {
        self.value_hash
    }

    fn apply<'a>(&'a self) -> Self::Applying<'a> {
        let mut storage = self.shared.state_storage.lock();
        let body = || {
            self.shared.total_applies.fetch_add(1, Ordering::Relaxed);
            *self.shared.applies_by_key.lock().entry(self.key).or_insert(0) += 1;
        };
        match storage.run_apply(self.key(), self.value_hash, Some(body), ()) {
            ApplyStep::RunBody(body, guard) => {
                body();
                ready(storage.finish_apply(guard, Ok(())).0)
            }
            ApplyStep::Return(result) => ready(result),
            ApplyStep::Wait(_) => panic!("nothing is in flight"),
        }
    }
}

/// Trivial uninhabited error type.
#[derive(Debug)]
enum TestError {}

impl fmt::Display for TestError {
    fn fmt(&self, _f: &mut fmt::Formatter<'_>) -> fmt::Result {
        match *self {}
    }
}

fn emit_and_take(
    shared: &Arc<Shared>,
    pairs: Vec<(u32, u64)>,
) -> Result<Effects<TestEffectCaptured, u32>, TestError> {
    let mut collectibles = EffectCollectibles::new();
    for (key, value_hash) in pairs {
        emit_effect(
            &mut collectibles,
            TestEffectEmit {
                key,
                value_hash: value_hash as u128,
                shared: shared.clone(),
            },
        );
    }
    let instances = collectibles.take_collectibles();
    let captures = capture_all(&instances).into_iter().map(block_on).collect();
    take_effects(captures, || 77)
}

fn apply(
    effects: &Effects<TestEffectCaptured, u32>,
) -> Result<(), EffectsError<dyn EffectError>> {
    let mut batch: ApplyBatch<'_, TestEffectCaptured, u32> = effects.apply()?;
    while let Some(applying) = batch.start_next() {
        batch.record(block_on(applying))?;
    }
    assert!(batch.is_settled());
    batch.finish().0
}

#[test]
fn duplicate_apply_runs_once() {
    let shared = Shared::new();

    let effects = emit_and_take(&shared, vec![(1, 0xAAAA)]).unwrap();

    apply(&effects).unwrap();
    assert_eq!(shared.applies_for(1), 1, "first apply runs the effect");

    apply(&effects).unwrap();
    assert_eq!(
        shared.applies_for(1),
        1,
        "second apply on the same Effects must not re-run"
    );
}

#[test]
fn reemit_unchanged_hash_does_not_reapply() {
    let shared = Shared::new();

    apply(&emit_and_take(&shared, vec![(1, 0xAAAA), (2, 0xBBBB)]).unwrap()).unwrap();
    assert_eq!(shared.total(), 2, "first emit runs both effects");

    apply(&emit_and_take(&shared, vec![(1, 0xAAAA), (2, 0xBBBB)]).unwrap()).unwrap();
    assert_eq!(
        shared.total(),
        2,
        "re-emit with same (key, hash) must not re-run any apply"
    );
}

#[test]
fn hash_change_reapplies_only_changed_key() {
    let shared = Shared::new();

    apply(&emit_and_take(&shared, vec![(1, 0xAAAA), (2, 0xBBBB)]).unwrap()).unwrap();
    assert_eq!(shared.applies_for(1), 1);
    assert_eq!(shared.applies_for(2), 1);

    // Change key 1's hash; leave key 2 alone.
    apply(&emit_and_take(&shared, vec![(1, 0xCCCC), (2, 0xBBBB)]).unwrap()).unwrap();
    assert_eq!(
        shared.applies_for(1),
        2,
        "key 1 hash changed; apply must run again"
    );
    assert_eq!(
        shared.applies_for(2),
        1,
        "key 2 unchanged; apply must short-circuit"
    );
}

#[test]
fn adding_effect_only_runs_new_key() {
    let shared = Shared::new();

    apply(&emit_and_take(&shared, vec![(1, 0xAAAA)]).unwrap()).unwrap();
    assert_eq!(shared.total(), 1);

    // Add a new effect, key 2.
    apply(&emit_and_take(&shared, vec![(1, 0xAAAA), (2, 0xBBBB)]).unwrap()).unwrap();

    assert_eq!(shared.applies_for(1), 1, "key 1 already applied");
    assert_eq!(shared.applies_for(2), 1, "key 2 newly added");
}

#[test]
fn removing_effect_does_not_reapply_survivors() {
    let shared = Shared::new();

    apply(&emit_and_take(&shared, vec![(1, 0xAAAA), (2, 0xBBBB)]).unwrap()).unwrap();
    assert_eq!(shared.total(), 2);

    // Drop key 2.
    apply(&emit_and_take(&shared, vec![(1, 0xAAAA)]).unwrap()).unwrap();

    assert_eq!(shared.applies_for(1), 1, "key 1 stays cached");
    assert_eq!(
        shared.applies_for(2),
        1,
        "key 2 was removed; its apply must not run again"
    );
}

#[test]
fn is_send() {
    fn assert_send<T: Send>(_: T) {}
    let effects: Effects<TestEffectCaptured, u32> = Effects::empty();
    assert_send(effects.apply());
    let captures: Vec<Result<TestEffectCaptured, TestError>> = Vec::new();
    assert_send(take_effects(captures, || 77u32));
}

#[test]
fn duplicate_emission_runs_once() {
    let shared = Shared::new();
    apply(&emit_and_take(&shared, vec![(1, 7), (2, 8), (1, 7), (1, 7)]).unwrap()).unwrap();
    assert_eq!(shared.applies_for(1), 1);
    assert_eq!(shared.applies_for(2), 1);
    assert_eq!(shared.total(), 2);
}

#[test]
fn conflicting_effects_apply_nothing() {
    let shared = Shared::new();
    let effects = emit_and_take(&shared, vec![(2, 5), (1, 7), (1, 8)]).unwrap();
    let error = apply(&effects).unwrap_err();
    assert!(matches!(error, EffectsError::Conflict(4)));
    assert_eq!(
        error.message(),
        "conflicting effects for the same key (key length: 4 bytes)"
    );
    assert_eq!(shared.total(), 0);
}

#[test]
fn taken_effects_are_gone() {
    let shared = Shared::new();
    let mut collectibles = EffectCollectibles::new();
    for key in [4, 2, 9] {
        emit_effect(
            &mut collectibles,
            TestEffectEmit {
                key,
                value_hash: 1,
                shared: shared.clone(),
            },
        );
    }
    let taken = collectibles.take_collectibles();
    let keys: Vec<u32> = taken.iter().map(|instance| instance.inner.key).collect();
    assert_eq!(keys, vec![4, 2, 9]);
    assert!(collectibles.take_collectibles().is_empty());
}

#[test]
fn effects_never_compare_equal() {
    let effects: Effects<TestEffectCaptured, u32> = Effects::empty();
    assert!(effects != effects);
}

#[test]
fn batch_stops_at_a_failure_and_stops_there_again() {
    let shared = Shared::new();
    // Key 2 holds a failure of the value that is emitted below.
    {
        let mut storage = shared.state_storage.lock();
        let key: Box<[u8]> = 2u32.to_le_bytes().into();
        let error: Arc<dyn EffectError> = Arc::new("disk full".to_string());
        match storage.run_apply(key, 8, Some(()), ()) {
            ApplyStep::RunBody((), guard) => {
                assert!(storage.finish_apply(guard, Err(error)).0.is_err())
            }
            _ => panic!("nothing was applied yet"),
        }
    }
    let effects = emit_and_take(&shared, vec![(1, 7), (2, 8), (3, 9)]).unwrap();
    for _ in 0..2 {
        match apply(&effects) {
            Err(EffectsError::Apply(err)) => assert_eq!(err.to_string(), "disk full"),
            _ => panic!("key 2 failed"),
        }
        assert_eq!(shared.applies_for(1), 1);
        assert_eq!(shared.applies_for(2), 0);
        assert_eq!(shared.applies_for(3), 0, "key 3 is behind the failure");
    }
    // With a new value for key 2 the effect behind it counts as new.
    apply(&emit_and_take(&shared, vec![(1, 7), (2, 80), (3, 9)]).unwrap()).unwrap();
    assert_eq!(shared.applies_for(1), 1);
    assert_eq!(shared.applies_for(2), 1);
    assert_eq!(shared.applies_for(3), 1);
}
