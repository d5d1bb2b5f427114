//! What the calls of a storage do, stated of the calls themselves.
//!
//! Each law speaks of calls by what went in and what came out, and of the key states that a storage
//! holds before and after: a key that the storage does not hold was never asked for. Where a law
//! takes several calls, each of them finds the storage as the one before it left it.

use std::sync::Arc;

use vstd::prelude::*;

use crate::error::ApplyOutcome;
use crate::protocol;
use crate::protocol::{Access, System};
use crate::state::EffectLastApplied;
use crate::storage::{ApplyRun, ApplyStep, EffectStateEntry, EffectStateStorage, EventGuard};

verus! {

/// A new storage holds no key, and can be used.
pub proof fn law_new_storage_holds_no_key<E: ?Sized, W>(storage: EffectStateStorage<E, W>)
    requires
        call_ensures(<EffectStateStorage<E, W> as Default>::default, (), storage),
    ensures
        storage.wf(),
        forall|key: Seq<u8>| !#[trigger] storage@.contains_key(key),
{
}

/// A storage that can be used accepts every request, and stays one that can be used.
pub proof fn law_every_request_is_accepted<E: ?Sized, W, F>(
    storage: &mut EffectStateStorage<E, W>,
    key: Box<[u8]>,
    value_hash: u128,
    body: Option<F>,
    event: W,
    step: ApplyStep<E, F>,
)
    requires
        old(storage).wf(),
        call_ensures(
            EffectStateStorage::<E, W>::run_apply::<F>,
            (storage, key, value_hash, body, event),
            step,
        ),
    ensures
        call_requires(
            EffectStateStorage::<E, W>::run_apply::<F>,
            (storage, key, value_hash, body, event),
        ),
        final(storage).wf(),
{
}

/// A handle is never lost: whatever is asked of the storage, the handles that were good before are
/// good after, and a call that has to wait can look again.
pub proof fn law_handles_stay_good<E: ?Sized, W, F>(
    storage: &mut EffectStateStorage<E, W>,
    key: Box<[u8]>,
    value_hash: u128,
    body: Option<F>,
    event: W,
    step: ApplyStep<E, F>,
    resumed: &mut EffectStateStorage<E, W>,
    run: ApplyRun<F>,
    resumed_step: ApplyStep<E, F>,
    handle: EffectStateEntry,
)
    requires
        call_ensures(
            EffectStateStorage::<E, W>::run_apply::<F>,
            (storage, key, value_hash, body, event),
            step,
        ),
        call_ensures(
            EffectStateStorage::<E, W>::resume_apply::<F>,
            (resumed, run, event),
            resumed_step,
        ),
    ensures
        old(storage).has_entry(handle) ==> final(storage).has_entry(handle),
        old(resumed).has_entry(handle) ==> final(resumed).has_entry(handle),
        step matches ApplyStep::Wait(waiting) ==> final(storage).has_entry(waiting.entry),
        step matches ApplyStep::RunBody(_, guard) ==> final(storage).has_entry(guard.spec_entry()),
        resumed_step matches ApplyStep::Wait(waiting) ==> waiting == run,
        resumed_step matches ApplyStep::RunBody(_, guard) ==> final(resumed).has_entry(
            guard.spec_entry(),
        ),
        old(resumed).wf() && old(resumed).has_entry(run.entry) ==> call_requires(
            EffectStateStorage::<E, W>::resume_apply::<F>,
            (resumed, run, event),
        ),
        final(resumed).wf(),
{
}

/// Ending an application keeps the storage usable and all handles good, and whoever holds the guard
/// of a key in flight may end it.
pub proof fn law_holder_may_end_the_application<E: ?Sized, W>(
    finished: &mut EffectStateStorage<E, W>,
    aborted: &mut EffectStateStorage<E, W>,
    guard: EventGuard,
    result: Result<(), Arc<E>>,
    done: (Result<(), ApplyOutcome<Arc<E>>>, W),
    event: W,
    handle: EffectStateEntry,
)
    requires
        *old(finished) == *old(aborted),
        old(finished).wf(),
        old(finished).has_entry(guard.spec_entry()),
        old(finished)@.contains_key(guard.key()),
        old(finished)@[guard.key()] is InProgress,
        call_ensures(
            EffectStateStorage::<E, W>::finish_apply,
            (finished, guard, result),
            done,
        ),
        call_ensures(EffectStateStorage::<E, W>::abort_apply, (aborted, guard), event),
    ensures
        call_requires(EffectStateStorage::<E, W>::finish_apply, (finished, guard, result)),
        call_requires(EffectStateStorage::<E, W>::abort_apply, (aborted, guard)),
        final(finished).wf(),
        final(aborted).wf(),
        old(finished).has_entry(handle) ==> final(finished).has_entry(handle),
        old(aborted).has_entry(handle) ==> final(aborted).has_entry(handle),
{
}

/// `matches_applied` holds if and only if the last application of the key ended successfully and
/// carried exactly this value.
pub proof fn law_matches_only_a_successful_application<E: ?Sized, W>(
    storage: &EffectStateStorage<E, W>,
    key: &[u8],
    target: u128,
    matches: bool,
)
    requires
        call_ensures(
            EffectStateStorage::<E, W>::matches_applied,
            (storage, key, target),
            matches,
        ),
    ensures
        matches <==> storage@.contains_key(key@) && (storage@[key@] matches
            EffectLastApplied::Applied { value_hash, result: Ok(_) } && value_hash == target),
        storage.wf() ==> call_requires(
            EffectStateStorage::<E, W>::matches_applied,
            (storage, key, target),
        ),
{
}

/// Looking up a key adds it as unapplied if the storage does not hold it yet, and changes nothing
/// otherwise. The handles that were good before are good after.
pub proof fn law_lookup_changes_no_state<E: ?Sized, W>(
    storage: &mut EffectStateStorage<E, W>,
    key: Box<[u8]>,
    entry: EffectStateEntry,
    handle: EffectStateEntry,
)
    requires
        call_ensures(EffectStateStorage::<E, W>::entry_for, (storage, key), entry),
    ensures
        entry.key() == key@,
        final(storage).has_entry(entry),
        old(storage).has_entry(handle) ==> final(storage).has_entry(handle),
        old(storage)@.contains_key(key@) ==> final(storage)@ == old(storage)@,
        !old(storage)@.contains_key(key@) ==> final(storage)@ == old(storage)@.insert(
            key@,
            EffectLastApplied::Unapplied,
        ),
        old(storage).wf() ==> final(storage).wf() && call_requires(
            EffectStateStorage::<E, W>::entry_for,
            (storage, key),
        ),
{
}

/// A call for a key in flight is told to wait, whatever value it wants, with what it asked for and
/// without any change. The event to wait on is the one of the application in flight.
pub proof fn law_call_waits_for_the_one_in_flight<E: ?Sized, W, F>(
    storage: &mut EffectStateStorage<E, W>,
    key: Box<[u8]>,
    value_hash: u128,
    body: Option<F>,
    event: W,
    step: ApplyStep<E, F>,
)
    requires
        call_ensures(
            EffectStateStorage::<E, W>::run_apply::<F>,
            (storage, key, value_hash, body, event),
            step,
        ),
        old(storage)@.contains_key(key@),
        old(storage)@[key@] is InProgress,
    ensures
        final(storage)@ == old(storage)@,
        step matches ApplyStep::Wait(run) && run.entry.key() == key@ && run.value_hash == value_hash
            && run.body == body,
{
}

/// A call for the value that the key holds gets the result of that application, with or without
/// content of its own, and changes nothing.
pub proof fn law_call_gets_the_result_held<E: ?Sized, W, F>(
    storage: &mut EffectStateStorage<E, W>,
    key: Box<[u8]>,
    value_hash: u128,
    body: Option<F>,
    event: W,
    step: ApplyStep<E, F>,
    result: Result<(), Arc<E>>,
)
    requires
        call_ensures(
            EffectStateStorage::<E, W>::run_apply::<F>,
            (storage, key, value_hash, body, event),
            step,
        ),
        old(storage)@.contains_key(key@),
        old(storage)@[key@] == (EffectLastApplied::<E, W>::Applied { value_hash, result }),
    ensures
        final(storage)@ == old(storage)@,
        result is Ok ==> step == ApplyStep::<E, F>::Return(Ok(())),
        result matches Err(err) ==> step == ApplyStep::<E, F>::Return(
            Err(ApplyOutcome::Failed(err)),
        ),
{
}

/// A call with content for a key that is not in flight and does not hold the value gets its own
/// content back to run it, and a guard for that key and value. The key is in flight from then on,
/// with the caller's event.
pub proof fn law_call_with_content_runs<E: ?Sized, W, F>(
    storage: &mut EffectStateStorage<E, W>,
    key: Box<[u8]>,
    value_hash: u128,
    body: F,
    event: W,
    step: ApplyStep<E, F>,
)
    requires
        call_ensures(
            EffectStateStorage::<E, W>::run_apply::<F>,
            (storage, key, value_hash, Some(body), event),
            step,
        ),
        old(storage)@.contains_key(key@) ==> {
            ||| old(storage)@[key@] is Unapplied
            ||| old(storage)@[key@] matches EffectLastApplied::Applied { value_hash: held, .. }
                && held != value_hash
        },
    ensures
        step matches ApplyStep::RunBody(run, guard) && run == body && guard.key() == key@
            && guard.value_hash() == value_hash,
        final(storage)@ == old(storage)@.insert(
            key@,
            EffectLastApplied::InProgress { write_event: event },
        ),
{
}

/// A call without content for a key that is not in flight and does not hold the value has to be
/// retried, and leaves the key unapplied.
pub proof fn law_call_without_content_retries<E: ?Sized, W, F>(
    storage: &mut EffectStateStorage<E, W>,
    key: Box<[u8]>,
    value_hash: u128,
    event: W,
    step: ApplyStep<E, F>,
)
    requires
        call_ensures(
            EffectStateStorage::<E, W>::run_apply::<F>,
            (storage, key, value_hash, None::<F>, event),
            step,
        ),
        old(storage)@.contains_key(key@) ==> {
            ||| old(storage)@[key@] is Unapplied
            ||| old(storage)@[key@] matches EffectLastApplied::Applied { value_hash: held, .. }
                && held != value_hash
        },
    ensures
        step == ApplyStep::<E, F>::Return(Err(ApplyOutcome::Retry)),
        final(storage)@ == old(storage)@.insert(key@, EffectLastApplied::Unapplied),
{
}

/// A call that looks again after a wait fares like a new call for the same key, value and content.
pub proof fn law_resumed_call_is_a_new_call<E: ?Sized, W, F>(
    storage: &mut EffectStateStorage<E, W>,
    key: Box<[u8]>,
    value_hash: u128,
    body: Option<F>,
    event: W,
    step: ApplyStep<E, F>,
    resumed: &mut EffectStateStorage<E, W>,
    run: ApplyRun<F>,
    resumed_step: ApplyStep<E, F>,
)
    requires
        call_ensures(
            EffectStateStorage::<E, W>::run_apply::<F>,
            (storage, key, value_hash, body, event),
            step,
        ),
        call_ensures(
            EffectStateStorage::<E, W>::resume_apply::<F>,
            (resumed, run, event),
            resumed_step,
        ),
        old(resumed)@ == old(storage)@,
        run.entry.key() == key@,
        run.value_hash == value_hash,
        run.body == body,
    ensures
        final(resumed)@ == final(storage)@,
        step is Wait <==> resumed_step is Wait,
        resumed_step matches ApplyStep::Wait(waiting) ==> waiting == run,
        step matches ApplyStep::Return(outcome) ==> resumed_step == ApplyStep::<E, F>::Return(
            outcome,
        ),
        step matches ApplyStep::RunBody(content, guard) ==> (resumed_step matches
            ApplyStep::RunBody(resumed_content, resumed_guard) && resumed_content == content
            && resumed_guard.key() == guard.key() && resumed_guard.value_hash()
            == guard.value_hash()),
{
}

/// While an application is in flight, its event is there to wait on; at any other time there is
/// none.
pub proof fn law_event_is_that_of_the_one_in_flight<E: ?Sized, W>(
    storage: &EffectStateStorage<E, W>,
    entry: &EffectStateEntry,
    event: Option<&W>,
)
    requires
        call_ensures(EffectStateStorage::<E, W>::write_event, (storage, entry), event),
    ensures
        storage@.contains_key(entry.key()),
        storage@[entry.key()] matches EffectLastApplied::InProgress { write_event } ==> event
            == Some(&write_event),
        !(storage@[entry.key()] is InProgress) ==> event is None,
        storage.wf() && storage.has_entry(*entry) ==> call_requires(
            EffectStateStorage::<E, W>::write_event,
            (storage, entry),
        ),
{
}

/// When an application ends, its key holds its value and its result and no other key changes. The
/// caller returns that result, and the event that others wait on is fired.
pub proof fn law_finished_application_is_held<E: ?Sized, W>(
    storage: &mut EffectStateStorage<E, W>,
    guard: EventGuard,
    result: Result<(), Arc<E>>,
    done: (Result<(), ApplyOutcome<Arc<E>>>, W),
    event: W,
)
    requires
        call_ensures(
            EffectStateStorage::<E, W>::finish_apply,
            (storage, guard, result),
            done,
        ),
        old(storage)@.contains_key(guard.key()),
        old(storage)@[guard.key()] == (EffectLastApplied::<E, W>::InProgress {
            write_event: event,
        }),
    ensures
        final(storage)@ == old(storage)@.insert(
            guard.key(),
            EffectLastApplied::Applied { value_hash: guard.value_hash(), result },
        ),
        result is Ok ==> done.0 is Ok,
        result matches Err(err) ==> done.0 == Err::<(), ApplyOutcome<Arc<E>>>(
            ApplyOutcome::Failed(err),
        ),
        done.1 == event,
{
}

/// When an application is abandoned, its key is unapplied and no other key changes. The event that
/// others wait on is fired.
pub proof fn law_abandoned_application_leaves_nothing<E: ?Sized, W>(
    storage: &mut EffectStateStorage<E, W>,
    guard: EventGuard,
    fired: W,
    event: W,
)
    requires
        call_ensures(EffectStateStorage::<E, W>::abort_apply, (storage, guard), fired),
        old(storage)@.contains_key(guard.key()),
        old(storage)@[guard.key()] == (EffectLastApplied::<E, W>::InProgress {
            write_event: event,
        }),
    ensures
        final(storage)@ == old(storage)@.insert(guard.key(), EffectLastApplied::Unapplied),
        fired == event,
{
}

/// The handle that a guard gives out is that of the key being applied.
pub proof fn law_guard_knows_its_key(guard: &EventGuard, entry: &EffectStateEntry)
    requires
        call_ensures(EventGuard::entry, (guard,), entry),
    ensures
        entry.key() == guard.key(),
        *entry == guard.spec_entry(),
{
}

/// The first call with content for a key of a new storage runs, whatever its key and value.
pub proof fn law_first_call_runs<E: ?Sized, W, F>(
    new_storage: EffectStateStorage<E, W>,
    storage: &mut EffectStateStorage<E, W>,
    key: Box<[u8]>,
    value_hash: u128,
    body: F,
    event: W,
    step: ApplyStep<E, F>,
)
    requires
        call_ensures(<EffectStateStorage<E, W> as Default>::default, (), new_storage),
        *old(storage) == new_storage,
        call_ensures(
            EffectStateStorage::<E, W>::run_apply::<F>,
            (storage, key, value_hash, Some(body), event),
            step,
        ),
    ensures
        step matches ApplyStep::RunBody(run, guard) && run == body && guard.value_hash()
            == value_hash,
{
}

/// After a call without content was answered with a retry, no value of the key counts as applied:
/// the next call with content for that key runs, whatever value either call wanted, and the next
/// one without content is answered with a retry again.
pub proof fn law_retry_makes_the_next_call_run<E: ?Sized, W, F>(
    storage: &mut EffectStateStorage<E, W>,
    key: Box<[u8]>,
    value_hash: u128,
    event: W,
    step: ApplyStep<E, F>,
    with_content: &mut EffectStateStorage<E, W>,
    without_content: &mut EffectStateStorage<E, W>,
    next_key: Box<[u8]>,
    next_hash: u128,
    next_body: F,
    next_event: W,
    next_step: ApplyStep<E, F>,
    other_step: ApplyStep<E, F>,
    matches: bool,
)
    requires
        call_ensures(
            EffectStateStorage::<E, W>::run_apply::<F>,
            (storage, key, value_hash, None::<F>, event),
            step,
        ),
        step == ApplyStep::<E, F>::Return(Err(ApplyOutcome::Retry)),
        next_key@ == key@,
        *old(with_content) == *final(storage),
        call_ensures(
            EffectStateStorage::<E, W>::run_apply::<F>,
            (with_content, next_key, next_hash, Some(next_body), next_event),
            next_step,
        ),
        *old(without_content) == *final(storage),
        call_ensures(
            EffectStateStorage::<E, W>::run_apply::<F>,
            (without_content, next_key, next_hash, None::<F>, next_event),
            other_step,
        ),
        call_ensures(
            EffectStateStorage::<E, W>::matches_applied,
            (&*final(storage), &*next_key, next_hash),
            matches,
        ),
    ensures
        next_step matches ApplyStep::RunBody(run, guard) && run == next_body && guard.value_hash()
            == next_hash && guard.key() == key@,
        other_step == ApplyStep::<E, F>::Return(Err(ApplyOutcome::Retry)),
        !matches,
        final(storage)@.contains_key(key@),
        final(storage)@[key@] is Unapplied,
{
}

/// The same of a call that was answered with a retry when it looked again after a wait.
pub proof fn law_resumed_retry_makes_the_next_call_run<E: ?Sized, W, F>(
    storage: &mut EffectStateStorage<E, W>,
    run: ApplyRun<F>,
    event: W,
    step: ApplyStep<E, F>,
    next: &mut EffectStateStorage<E, W>,
    next_run: ApplyRun<F>,
    next_event: W,
    next_step: ApplyStep<E, F>,
)
    requires
        call_ensures(
            EffectStateStorage::<E, W>::resume_apply::<F>,
            (storage, run, event),
            step,
        ),
        step == ApplyStep::<E, F>::Return(Err(ApplyOutcome::Retry)),
        *old(next) == *final(storage),
        next_run.entry.key() == run.entry.key(),
        call_ensures(
            EffectStateStorage::<E, W>::resume_apply::<F>,
            (next, next_run, next_event),
            next_step,
        ),
    ensures
        run.body is None,
        final(storage)@[run.entry.key()] is Unapplied,
        next_run.body matches Some(body) ==> (next_step matches ApplyStep::RunBody(content, guard)
            && content == body && guard.value_hash() == next_run.value_hash),
        next_run.body is None ==> next_step == ApplyStep::<E, F>::Return(Err(ApplyOutcome::Retry)),
{
}

/// While one call runs its content, every other call for the same key is told to wait, and the
/// event that it waits on is the one that the first call brought along.
pub proof fn law_others_wait_while_one_runs<E: ?Sized, W, F>(
    storage: &mut EffectStateStorage<E, W>,
    key: Box<[u8]>,
    value_hash: u128,
    body: Option<F>,
    event: W,
    content: F,
    guard: EventGuard,
    other: &mut EffectStateStorage<E, W>,
    other_key: Box<[u8]>,
    other_hash: u128,
    other_body: Option<F>,
    other_event: W,
    other_step: ApplyStep<E, F>,
    write_event: Option<&W>,
)
    requires
        call_ensures(
            EffectStateStorage::<E, W>::run_apply::<F>,
            (storage, key, value_hash, body, event),
            ApplyStep::<E, F>::RunBody(content, guard),
        ),
        *old(other) == *final(storage),
        other_key@ == key@,
        call_ensures(
            EffectStateStorage::<E, W>::run_apply::<F>,
            (other, other_key, other_hash, other_body, other_event),
            other_step,
        ),
        call_ensures(
            EffectStateStorage::<E, W>::write_event,
            (&*final(other), &other_step->Wait_0.entry),
            write_event,
        ),
    ensures
        body == Some(content),
        guard.key() == key@,
        guard.value_hash() == value_hash,
        other_step matches ApplyStep::Wait(run) && run.value_hash == other_hash && run.body
            == other_body,
        write_event == Some(&event),
{
}

/// Once the content of a call has run, with `result`, every later call for the same key and value
/// returns that result and runs nothing, and the target matches if and only if the result is a
/// success. A call for any other value of the key runs its own content, or has to be retried if it
/// has none, and no other value matches.
pub proof fn law_each_value_runs_once<E: ?Sized, W, F>(
    started: &mut EffectStateStorage<E, W>,
    key: Box<[u8]>,
    value_hash: u128,
    body: Option<F>,
    event: W,
    content: F,
    guard: EventGuard,
    finished: &mut EffectStateStorage<E, W>,
    result: Result<(), Arc<E>>,
    done: (Result<(), ApplyOutcome<Arc<E>>>, W),
    later: &mut EffectStateStorage<E, W>,
    later_key: Box<[u8]>,
    later_hash: u128,
    later_body: Option<F>,
    later_event: W,
    step: ApplyStep<E, F>,
    matches: bool,
)
    requires
        call_ensures(
            EffectStateStorage::<E, W>::run_apply::<F>,
            (started, key, value_hash, body, event),
            ApplyStep::<E, F>::RunBody(content, guard),
        ),
        *old(finished) == *final(started),
        call_ensures(
            EffectStateStorage::<E, W>::finish_apply,
            (finished, guard, result),
            done,
        ),
        *old(later) == *final(finished),
        later_key@ == key@,
        call_ensures(
            EffectStateStorage::<E, W>::run_apply::<F>,
            (later, later_key, later_hash, later_body, later_event),
            step,
        ),
        call_ensures(
            EffectStateStorage::<E, W>::matches_applied,
            (&*final(finished), &*later_key, later_hash),
            matches,
        ),
    ensures
        done.1 == event,
        result is Ok ==> done.0 is Ok,
        result matches Err(err) ==> done.0 == Err::<(), ApplyOutcome<Arc<E>>>(
            ApplyOutcome::Failed(err),
        ),
        later_hash == value_hash && result is Ok ==> step == ApplyStep::<E, F>::Return(Ok(())),
        later_hash == value_hash && result is Err ==> step == ApplyStep::<E, F>::Return(done.0),
        later_hash == value_hash ==> final(later)@ == final(finished)@,
        later_hash != value_hash && later_body is Some ==> (step matches ApplyStep::RunBody(
            run,
            later_guard,
        ) && later_body == Some(run) && later_guard.value_hash() == later_hash),
        later_hash != value_hash && later_body is None ==> step == ApplyStep::<E, F>::Return(
            Err(ApplyOutcome::Retry),
        ),
        matches <==> later_hash == value_hash && result is Ok,
        call_requires(EffectStateStorage::<E, W>::finish_apply, (finished, guard, result)),
{
}

/// Once a call was abandoned while its content ran, the next call with content for the same key
/// runs, whatever value it wants, and no value of the key matches.
pub proof fn law_abandoned_value_runs_again<E: ?Sized, W, F>(
    started: &mut EffectStateStorage<E, W>,
    key: Box<[u8]>,
    value_hash: u128,
    body: Option<F>,
    event: W,
    content: F,
    guard: EventGuard,
    aborted: &mut EffectStateStorage<E, W>,
    fired: W,
    later: &mut EffectStateStorage<E, W>,
    later_key: Box<[u8]>,
    later_hash: u128,
    later_body: F,
    later_event: W,
    step: ApplyStep<E, F>,
    matches: bool,
)
    requires
        call_ensures(
            EffectStateStorage::<E, W>::run_apply::<F>,
            (started, key, value_hash, body, event),
            ApplyStep::<E, F>::RunBody(content, guard),
        ),
        *old(aborted) == *final(started),
        call_ensures(EffectStateStorage::<E, W>::abort_apply, (aborted, guard), fired),
        *old(later) == *final(aborted),
        later_key@ == key@,
        call_ensures(
            EffectStateStorage::<E, W>::run_apply::<F>,
            (later, later_key, later_hash, Some(later_body), later_event),
            step,
        ),
        call_ensures(
            EffectStateStorage::<E, W>::matches_applied,
            (&*final(aborted), &*later_key, later_hash),
            matches,
        ),
    ensures
        fired == event,
        step matches ApplyStep::RunBody(run, later_guard) && run == later_body
            && later_guard.value_hash() == later_hash,
        !matches,
        call_requires(EffectStateStorage::<E, W>::abort_apply, (aborted, guard)),
{
}

/// Where the target matches, a call without content succeeds without any change; where it does
/// not, no such call succeeds.
pub proof fn law_matching_target_needs_no_content<E: ?Sized, W, F>(
    storage: &mut EffectStateStorage<E, W>,
    key: Box<[u8]>,
    value_hash: u128,
    event: W,
    matches: bool,
    step: ApplyStep<E, F>,
)
    requires
        call_ensures(
            EffectStateStorage::<E, W>::matches_applied,
            (&*old(storage), &*key, value_hash),
            matches,
        ),
        call_ensures(
            EffectStateStorage::<E, W>::run_apply::<F>,
            (storage, key, value_hash, None::<F>, event),
            step,
        ),
    ensures
        matches <==> (step matches ApplyStep::Return(Ok(_))),
        matches ==> final(storage)@ == old(storage)@,
{
}

/// No call for one key has a part in another: keys with other bytes stay as they were.
pub proof fn law_calls_leave_other_keys_alone<E: ?Sized, W, F>(
    storage: &mut EffectStateStorage<E, W>,
    key: Box<[u8]>,
    value_hash: u128,
    body: Option<F>,
    event: W,
    step: ApplyStep<E, F>,
    finished: &mut EffectStateStorage<E, W>,
    aborted: &mut EffectStateStorage<E, W>,
    guard: EventGuard,
    result: Result<(), Arc<E>>,
    done: (Result<(), ApplyOutcome<Arc<E>>>, W),
    fired: W,
    other: Seq<u8>,
)
    requires
        call_ensures(
            EffectStateStorage::<E, W>::run_apply::<F>,
            (storage, key, value_hash, body, event),
            step,
        ),
        call_ensures(
            EffectStateStorage::<E, W>::finish_apply,
            (finished, guard, result),
            done,
        ),
        call_ensures(EffectStateStorage::<E, W>::abort_apply, (aborted, guard), fired),
        other != key@,
        other != guard.key(),
    ensures
        final(storage)@.contains_key(other) <==> old(storage)@.contains_key(other),
        old(storage)@.contains_key(other) ==> final(storage)@[other] == old(storage)@[other],
        final(finished)@.contains_key(other) <==> old(finished)@.contains_key(other),
        old(finished)@.contains_key(other) ==> final(finished)@[other] == old(finished)@[other],
        final(aborted)@.contains_key(other) <==> old(aborted)@.contains_key(other),
        old(aborted)@.contains_key(other) ==> final(aborted)@[other] == old(aborted)@[other],
{
}

/// A call at the storage is the access that stands for it in the system of all callers: it leaves
/// the same key states behind, hands out its content when the access does, and returns what the
/// access answers.
pub proof fn law_call_is_an_access<E: ?Sized, W, F>(
    system: System<E, W>,
    storage: &mut EffectStateStorage<E, W>,
    key: Box<[u8]>,
    value_hash: u128,
    body: Option<F>,
    event: W,
    step: ApplyStep<E, F>,
)
    requires
        system.states == old(storage)@,
        call_ensures(
            EffectStateStorage::<E, W>::run_apply::<F>,
            (storage, key, value_hash, body, event),
            step,
        ),
    ensures
        ({
            let access = Access::Run { key: key@, value_hash, has_body: body is Some, event };
            &&& system.after(access).states == final(storage)@
            &&& system.starts(access) <==> step is RunBody
            &&& system.answer(access) is Some <==> step is Return
            &&& step matches ApplyStep::Return(outcome) ==> system.answer(access) == Some(outcome)
            &&& step matches ApplyStep::RunBody(_, guard) ==> system.after(access).guards
                == system.guards.insert(key@, value_hash) && guard.value_hash() == value_hash
            &&& !(step is RunBody) ==> system.after(access).guards == system.guards
        }),
{
}

/// To end an application at the storage is the access that stands for it in the system of all
/// callers, in which the guard is held.
pub proof fn law_end_is_an_access<E: ?Sized, W>(
    system: System<E, W>,
    finished: &mut EffectStateStorage<E, W>,
    aborted: &mut EffectStateStorage<E, W>,
    guard: EventGuard,
    result: Result<(), Arc<E>>,
    done: (Result<(), ApplyOutcome<Arc<E>>>, W),
    fired: W,
)
    requires
        system.states == old(finished)@,
        system.states == old(aborted)@,
        system.guards.contains_key(guard.key()),
        system.guards[guard.key()] == guard.value_hash(),
        call_ensures(
            EffectStateStorage::<E, W>::finish_apply,
            (finished, guard, result),
            done,
        ),
        call_ensures(EffectStateStorage::<E, W>::abort_apply, (aborted, guard), fired),
    ensures
        ({
            let finish = Access::Finish { key: guard.key(), result };
            let abort = Access::Abort { key: guard.key() };
            &&& system.allows(finish) && system.allows(abort)
            &&& system.after(finish).states == final(finished)@
            &&& system.answer(finish) == Some(done.0)
            &&& system.after(finish).guards == system.guards.remove(guard.key())
            &&& system.after(abort).states == final(aborted)@
            &&& system.answer(abort) is None
            &&& system.after(abort).guards == system.guards.remove(guard.key())
        }),
{
}

/// Once an application of a value has succeeded, the target matches that value, whatever callers do
/// at the storage in between, as long as none of them asks for another value of the key.
pub proof fn law_applied_target_goes_on_matching<E: ?Sized, W>(
    system: System<E, W>,
    result: Result<(), Arc<E>>,
    history: Seq<Access<E, W>>,
    storage: &EffectStateStorage<E, W>,
    key: &[u8],
    matches: bool,
)
    requires
        system.consistent(),
        system.guards.contains_key(key@),
        result is Ok,
        system.after(Access::Finish { key: key@, result }).allows_all(history),
        forall|i: int|
            0 <= i < history.len() ==> ((#[trigger] history[i]) matches Access::Run {
                key: asked,
                value_hash,
                ..
            } ==> asked == key@ ==> value_hash == system.guards[key@]),
        storage@ == system.after(Access::Finish { key: key@, result }).after_all(history).states,
        call_ensures(
            EffectStateStorage::<E, W>::matches_applied,
            (storage, key, system.guards[key@]),
            matches,
        ),
    ensures
        matches,
{
    let finish = Access::Finish { key: key@, result };
    let finished = system.after(finish);
    let turns = seq![finish];
    assert(turns.drop_last() =~= Seq::empty());
    assert(system.after_all(turns.drop_last()) == system);
    assert(system.after_all(turns) == finished);
    assert(system.allows_all(turns.drop_last()));
    assert(system.allows_all(turns));
    protocol::law_guards_are_in_flight(system, turns);
    assert(protocol::all_agree_on(history, key@, system.guards[key@])) by {
        assert forall|i: int| 0 <= i < history.len() implies (#[trigger] history[i]).agrees_on(
            key@,
            system.guards[key@],
        ) by {}
    }
    protocol::law_applied_value_stays(finished, history, key@, system.guards[key@]);
}

} // verus!
