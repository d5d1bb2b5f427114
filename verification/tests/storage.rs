//! The per-key state machine, one access at a time.

use std::sync::Arc;

use turbo_effects::{ApplyOutcome, ApplyRun, ApplyStep, EffectStateStorage, EventGuard};

type Storage = EffectStateStorage<String, u32>;

fn key(bytes: &[u8]) -> Box<[u8]> {
    bytes.into()
}

/// Starts an apply that is expected to run.
fn start(storage: &mut Storage, bytes: &[u8], value_hash: u128, event: u32) -> EventGuard {
    match storage.run_apply(key(bytes), value_hash, Some("body"), event) {
        ApplyStep::RunBody(body, guard) => {
            assert_eq!(body, "body");
            guard
        }
        _ => panic!("the side effect has to run"),
    }
}

fn returned(step: ApplyStep<String, &str>) -> Result<(), ApplyOutcome<Arc<String>>> {
    match step {
        ApplyStep::Return(result) => result,
        _ => panic!("nothing has to run"),
    }
}

fn waiting<F>(step: ApplyStep<String, F>) -> ApplyRun<F> {
    match step {
        ApplyStep::Wait(run) => run,
        _ => panic!("an apply is in flight"),
    }
}

#[test]
fn applied_value_is_cached() {
    let mut storage = Storage::default();
    let guard = start(&mut storage, b"a", 1, 10);
    let (result, event) = storage.finish_apply(guard, Ok(()));
    assert!(result.is_ok());
    assert_eq!(event, 10);
    assert!(returned(storage.run_apply(key(b"a"), 1, Some("body"), 11)).is_ok());
    assert!(returned(storage.run_apply(key(b"a"), 1, None, 12)).is_ok());
}

#[test]
fn failure_is_cached() {
    let mut storage = Storage::default();
    let guard = start(&mut storage, b"a", 1, 10);
    let error = Arc::new("disk full".to_string());
    let (result, _) = storage.finish_apply(guard, Err(error.clone()));
    match result {
        Err(ApplyOutcome::Failed(err)) => assert!(Arc::ptr_eq(&err, &error)),
        _ => panic!("the side effect failed"),
    }
    for body in [Some("body"), None] {
        match returned(storage.run_apply(key(b"a"), 1, body, 11)) {
            Err(ApplyOutcome::Failed(err)) => assert!(Arc::ptr_eq(&err, &error)),
            _ => panic!("the failure is cached"),
        }
    }
    assert!(!storage.matches_applied(b"a", 1));
}

#[test]
fn other_value_runs_again() {
    let mut storage = Storage::default();
    let guard = start(&mut storage, b"a", 1, 10);
    storage.finish_apply(guard, Ok(()));
    let guard = start(&mut storage, b"a", 2, 11);
    storage.finish_apply(guard, Ok(()));
    assert!(!storage.matches_applied(b"a", 1));
    assert!(storage.matches_applied(b"a", 2));
    start(&mut storage, b"a", 1, 12);
}

#[test]
fn callers_wait_for_the_apply_in_flight() {
    let mut storage = Storage::default();
    let guard = start(&mut storage, b"a", 1, 10);
    assert_eq!(storage.write_event(guard.entry()), Some(&10));

    let same = waiting(storage.run_apply(key(b"a"), 1, Some("same"), 11));
    let other = waiting(storage.run_apply(key(b"a"), 2, Some("other"), 12));
    let elided = waiting(storage.run_apply(key(b"a"), 1, None::<&str>, 13));
    assert_eq!(storage.write_event(&same.entry), Some(&10));
    assert_eq!(storage.write_event(&other.entry), Some(&10));
    assert_eq!(same.body, Some("same"));
    assert_eq!(other.value_hash, 2);
    let same = waiting(storage.resume_apply(same, 14));

    let (_, event) = storage.finish_apply(guard, Ok(()));
    assert_eq!(event, 10);
    assert_eq!(storage.write_event(&same.entry), None);
    assert!(returned(storage.resume_apply(same, 15)).is_ok());
    assert!(returned(storage.resume_apply(elided, 16)).is_ok());
    match storage.resume_apply(other, 17) {
        ApplyStep::RunBody(body, guard) => {
            assert_eq!(body, "other");
            assert_eq!(storage.finish_apply(guard, Ok(())).1, 17);
        }
        _ => panic!("the value changed"),
    }
    assert!(storage.matches_applied(b"a", 2));
}

#[test]
fn abandoned_apply_runs_again() {
    let mut storage = Storage::default();
    let guard = start(&mut storage, b"a", 1, 10);
    let waiter = waiting(storage.run_apply(key(b"a"), 1, Some("second"), 11));
    assert_eq!(storage.abort_apply(guard), 10);
    assert!(!storage.matches_applied(b"a", 1));
    match storage.resume_apply(waiter, 12) {
        ApplyStep::RunBody(body, guard) => {
            assert_eq!(body, "second");
            assert_eq!(storage.finish_apply(guard, Ok(())).1, 12);
        }
        _ => panic!("the waiter takes over"),
    }
    assert!(storage.matches_applied(b"a", 1));
}

#[test]
fn elided_content_forces_a_retry() {
    let mut storage = Storage::default();
    assert!(matches!(
        returned(storage.run_apply(key(b"a"), 1, None, 10)),
        Err(ApplyOutcome::Retry)
    ));
    let guard = start(&mut storage, b"a", 1, 11);
    storage.finish_apply(guard, Ok(()));
    assert!(matches!(
        returned(storage.run_apply(key(b"a"), 2, None, 12)),
        Err(ApplyOutcome::Retry)
    ));
    // The entry was left unapplied.
    assert!(!storage.matches_applied(b"a", 1));
    start(&mut storage, b"a", 1, 13);
}

#[test]
fn keys_are_told_apart_by_their_bytes() {
    let mut storage = Storage::default();
    let empty = start(&mut storage, b"", 1, 10);
    let a = start(&mut storage, b"a", 1, 11);
    let ab = start(&mut storage, b"ab", 1, 12);
    assert_eq!(storage.finish_apply(a, Ok(())).1, 11);
    assert_eq!(storage.abort_apply(empty), 10);
    assert_eq!(storage.finish_apply(ab, Ok(())).1, 12);
    assert!(storage.matches_applied(b"a", 1));
    assert!(storage.matches_applied(&[97, 98], 1));
    assert!(!storage.matches_applied(b"", 1));
    assert!(!storage.matches_applied(b"b", 1));
}

#[test]
fn side_effect_runs_once_for_all_callers() {
    let mut storage = Storage::default();
    let guard = start(&mut storage, b"a", 1, 0);
    let mut waiters = Vec::new();
    for caller in 1..10 {
        waiters.push(waiting(storage.run_apply(key(b"a"), 1, Some("body"), caller)));
    }
    storage.finish_apply(guard, Ok(()));
    for waiter in waiters {
        assert!(returned(storage.resume_apply(waiter, 0)).is_ok());
    }
}

#[test]
fn entry_is_found_again() {
    let mut storage = Storage::default();
    let entry = storage.entry_for(key(b"a"));
    assert_eq!(storage.write_event(&entry), None);
    let guard = start(&mut storage, b"a", 1, 10);
    let again = storage.entry_for(key(b"a"));
    let other = storage.entry_for(key(b"b"));
    assert_eq!(storage.write_event(&entry), Some(&10));
    assert_eq!(storage.write_event(&again), Some(&10));
    assert_eq!(storage.write_event(&other), None);
    storage.finish_apply(guard, Ok(()));
    assert_eq!(storage.write_event(&entry), None);
}

#[test]
fn later_calls_return_the_same() {
    let mut storage = Storage::default();
    let failed = start(&mut storage, b"a", 1, 10);
    let applied = start(&mut storage, b"b", 2, 11);
    let error = Arc::new("disk full".to_string());
    storage.finish_apply(applied, Ok(()));
    storage.finish_apply(failed, Err(error.clone()));
    // Another key comes and goes in between.
    let other = start(&mut storage, b"c", 3, 12);
    for event in 13..16 {
        assert!(returned(storage.run_apply(key(b"b"), 2, None, event)).is_ok());
        match returned(storage.run_apply(key(b"a"), 1, Some("body"), event)) {
            Err(ApplyOutcome::Failed(err)) => assert!(Arc::ptr_eq(&err, &error)),
            _ => panic!("the failure is cached"),
        }
    }
    storage.abort_apply(other);
    assert!(returned(storage.run_apply(key(b"b"), 2, Some("body"), 16)).is_ok());
}

#[test]
fn waiting_call_gets_through() {
    let mut storage = Storage::default();
    let first = start(&mut storage, b"a", 1, 10);
    let waiter = waiting(storage.run_apply(key(b"a"), 3, Some("waiter"), 11));
    assert_eq!(storage.abort_apply(first), 10);
    // Another call takes its turn first, so the waiter has to wait once more.
    let second = start(&mut storage, b"a", 2, 12);
    let waiter = waiting(storage.resume_apply(waiter, 13));
    assert_eq!(storage.write_event(&waiter.entry), Some(&12));
    assert_eq!(storage.finish_apply(second, Ok(())).1, 12);
    match storage.resume_apply(waiter, 14) {
        ApplyStep::RunBody(body, guard) => {
            assert_eq!(body, "waiter");
            assert!(storage.finish_apply(guard, Ok(())).0.is_ok());
        }
        _ => panic!("nobody is in the way any more"),
    }
    assert!(storage.matches_applied(b"a", 3));
}
