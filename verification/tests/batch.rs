//! Deduplication, capture errors and the result of a batch.

use std::future::{ready, Ready};
use std::sync::Arc;

use futures::executor::block_on;
use turbo_effects::{
    build_unique_keys, dedup_identities, take_effects, ApplyOutcome, CapturedEffect,
    ConflictingEffectError, Effects, EffectsError, APPLY_EFFECTS_CONCURRENCY_LIMIT,
};

/// What applying a [`Fixed`] effect gives.
#[derive(Clone, Copy, PartialEq)]
enum Outcome {
    Applied,
    Failed,
    Retry,
}

struct Fixed {
    key: &'static str,
    value_hash: u128,
    outcome: Outcome,
}

impl CapturedEffect for Fixed {
    type Error = String;
    type Applying<'a> = Ready<Result<(), ApplyOutcome<Arc<String>>>>;

    fn key(&self) -> Box<[u8]> {
        self.key.as_bytes().into()
    }

    fn value_hash(&self) -> u128 {
        self.value_hash
    }

    fn apply<'a>(&'a self) -> Self::Applying<'a> {
        ready(match self.outcome {
            Outcome::Applied => Ok(()),
            Outcome::Failed => Err(ApplyOutcome::Failed(Arc::new(format!("{} failed", self.key)))),
            Outcome::Retry => Err(ApplyOutcome::Retry),
        })
    }
}

fn fixed(key: &'static str, value_hash: u128, outcome: Outcome) -> Fixed {
    Fixed {
        key,
        value_hash,
        outcome,
    }
}

fn unique(pairs: &[(&'static str, u128)]) -> Result<Vec<usize>, usize> {
    let captured: Vec<Fixed> = pairs
        .iter()
        .map(|(key, value_hash)| fixed(key, *value_hash, Outcome::Applied))
        .collect();
    let ids = pairs
        .iter()
        .map(|(key, value_hash)| (key.as_bytes().into(), *value_hash))
        .collect();
    let unique_keys = build_unique_keys(&captured).map_err(|err| err.key_len);
    assert_eq!(
        unique_keys,
        dedup_identities(ids).map_err(|err| err.key_len)
    );
    unique_keys
}

/// Applies the effects one after the other; also gives what has to be invalidated and how many
/// effects were started.
fn run(effects: &Effects<Fixed, u32>) -> (Result<(), EffectsError<String>>, Option<u32>, usize) {
    let mut batch = match effects.apply() {
        Ok(batch) => batch,
        Err(err) => return (Err(err), None, 0),
    };
    let mut started = 0;
    while let Some(applying) = batch.start_next() {
        started += 1;
        assert!(batch.is_awaiting_outcome());
        let failed = batch.record(block_on(applying)).is_err();
        assert!(!failed || batch.start_next().is_none());
    }
    assert!(!batch.is_awaiting_outcome());
    assert!(batch.is_settled());
    let (result, invalidate) = batch.finish();
    (result, invalidate.copied(), started)
}

fn effects(captured: Vec<Fixed>) -> Effects<Fixed, u32> {
    let captures: Vec<Result<Fixed, String>> = captured.into_iter().map(Ok).collect();
    take_effects(captures, || 77).unwrap()
}

#[test]
fn first_effect_of_each_key_is_kept() {
    assert_eq!(unique(&[]), Ok(vec![]));
    assert_eq!(unique(&[("a", 1)]), Ok(vec![0]));
    assert_eq!(
        unique(&[("b", 1), ("a", 2), ("b", 1), ("", 3), ("a", 2), ("c", 1)]),
        Ok(vec![0, 1, 3, 5])
    );
}

#[test]
fn first_conflict_is_reported() {
    assert_eq!(unique(&[("abc", 1), ("abc", 2)]), Err(3));
    assert_eq!(unique(&[("abc", 2), ("abc", 1)]), Err(3));
    assert_eq!(
        unique(&[("long key", 1), ("ab", 1), ("ab", 2), ("long key", 2)]),
        Err(2)
    );
    assert_eq!(unique(&[("", 1), ("", 2)]), Err(0));
}

#[test]
fn conflict_is_shown_with_its_key_length() {
    let conflict = ConflictingEffectError { key_len: 1290 };
    assert_eq!(
        conflict.message(),
        "Conflicting effects for the same key (key length: 1290 bytes)"
    );
    assert_eq!(
        EffectsError::<String>::Conflict(0).message(),
        "conflicting effects for the same key (key length: 0 bytes)"
    );
    assert_eq!(
        EffectsError::<String>::Conflict(usize::MAX).message(),
        format!(
            "conflicting effects for the same key (key length: {} bytes)",
            usize::MAX
        )
    );
}

#[test]
fn other_errors_are_shown() {
    assert_eq!(
        EffectsError::<String>::Retry.message(),
        "effect state was reset; producing operation has been invalidated, retry required"
    );
    let error = EffectsError::from(Arc::new("disk full".to_string()));
    assert!(matches!(&error, EffectsError::Apply(err) if err.as_str() == "disk full"));
    assert_eq!(error.clone().message(), "disk full");
}

#[test]
fn first_capture_error_wins() {
    let captures = vec![
        Ok(fixed("a", 1, Outcome::Applied)),
        Err("second"),
        Ok(fixed("b", 1, Outcome::Applied)),
        Err("fourth"),
    ];
    let unused = || -> u32 { panic!("there is nothing to invalidate") };
    let error = match take_effects(captures, unused) {
        Ok(_) => panic!("two captures failed"),
        Err(err) => err,
    };
    assert_eq!(error, "second");
}

#[test]
fn empty_batch_succeeds() {
    assert!(matches!(run(&Effects::empty()), (Ok(()), None, 0)));
    assert!(matches!(run(&effects(Vec::new())), (Ok(()), None, 0)));
}

#[test]
fn batch_of_applied_effects_succeeds() {
    let batch = effects(vec![
        fixed("a", 1, Outcome::Applied),
        fixed("b", 1, Outcome::Applied),
        fixed("a", 1, Outcome::Failed),
    ]);
    assert!(matches!(run(&batch), (Ok(()), None, 2)));
}

#[test]
fn first_failure_wins() {
    let batch = effects(vec![
        fixed("a", 1, Outcome::Retry),
        fixed("b", 1, Outcome::Failed),
        fixed("c", 1, Outcome::Failed),
    ]);
    let (result, invalidate, started) = run(&batch);
    match result {
        Err(EffectsError::Apply(err)) => assert_eq!(err.as_str(), "b failed"),
        _ => panic!("b failed"),
    }
    assert_eq!(invalidate, None);
    assert_eq!(started, 2);
}

#[test]
fn retry_comes_after_the_remaining_effects() {
    let batch = effects(vec![
        fixed("a", 1, Outcome::Retry),
        fixed("b", 1, Outcome::Applied),
        fixed("c", 1, Outcome::Retry),
    ]);
    let (result, invalidate, started) = run(&batch);
    assert!(matches!(result, Err(EffectsError::Retry)));
    assert_eq!(invalidate, Some(77));
    assert_eq!(started, 3);
}

#[test]
fn retry_signal_names_what_to_invalidate() {
    let batch = effects(Vec::new());
    assert!(matches!(
        batch.signal_retry(),
        (Err(EffectsError::Retry), Some(77))
    ));
    let none: Effects<Fixed, u32> = Effects::empty();
    assert!(matches!(
        none.signal_retry(),
        (Err(EffectsError::Retry), None)
    ));
}

#[test]
fn order_of_completion_does_not_matter_without_failures() {
    let outcomes = [Outcome::Applied, Outcome::Retry, Outcome::Applied];
    for shift in 0..3 {
        let batch = effects(vec![
            fixed("a", 1, outcomes[shift % 3]),
            fixed("b", 1, outcomes[(shift + 1) % 3]),
            fixed("c", 1, outcomes[(shift + 2) % 3]),
        ]);
        assert!(matches!(
            run(&batch),
            (Err(EffectsError::Retry), Some(77), 3)
        ));
    }
}

#[test]
fn first_failure_to_come_in_wins() {
    let batch = effects(vec![
        fixed("a", 1, Outcome::Failed),
        fixed("b", 1, Outcome::Failed),
        fixed("c", 1, Outcome::Applied),
    ]);
    let mut batch = batch.apply().unwrap();
    assert_eq!(batch.len(), 3);
    assert!(!batch.is_awaiting_outcome());
    let a = batch.start_next().unwrap();
    let b = batch.start_next().unwrap();
    assert!(batch.is_awaiting_outcome());
    assert!(batch.record(block_on(b)).is_err());
    assert!(batch.is_settled());
    assert!(!batch.is_awaiting_outcome());
    drop(a);
    match batch.finish() {
        (Err(EffectsError::Apply(err)), None) => assert_eq!(err.as_str(), "b failed"),
        _ => panic!("b failed first"),
    }
}

#[test]
fn concurrency_is_limited() {
    assert_eq!(APPLY_EFFECTS_CONCURRENCY_LIMIT, 1024);
    let names: Vec<&'static str> = (0..1026)
        .map(|i| &*Box::leak(format!("{i}").into_boxed_str()))
        .collect();
    let batch = effects(
        names
            .iter()
            .map(|name| fixed(name, 1, Outcome::Applied))
            .collect(),
    );
    let mut batch = batch.apply().unwrap();
    let mut applying = Vec::new();
    while let Some(next) = batch.start_next() {
        applying.push(next);
    }
    assert_eq!(applying.len(), 1024);
    assert!(!batch.is_settled());
    // Each outcome makes room for one more.
    for _ in 0..2 {
        batch.record(block_on(applying.pop().unwrap())).unwrap();
        applying.push(batch.start_next().unwrap());
        assert!(batch.start_next().is_none());
    }
    for rest in applying {
        assert!(!batch.is_settled());
        batch.record(block_on(rest)).unwrap();
    }
    assert!(batch.start_next().is_none());
    assert!(batch.is_settled());
    assert!(batch.finish().0.is_ok());
}
