//! The life cycle of one effect key, as a state machine.

use std::sync::Arc;

use vstd::prelude::*;

use crate::error::ApplyOutcome;

verus! {

/// What is known about the effect last applied to one key.
///
/// `W` is the event on which concurrent callers wait while an application is in flight.
pub enum EffectLastApplied<E: ?Sized, W> {
    /// No application has completed, or the last one was abandoned.
    Unapplied,
    /// An application is in flight; `write_event` fires when it ends.
    InProgress { write_event: W },
    /// The last application carried `value_hash` and ended with `result`.
    Applied { value_hash: u128, result: Result<(), Arc<E>> },
}

/// The state of `key`: a key that was never looked up is unapplied.
pub open spec fn state_of<E: ?Sized, W>(
    states: Map<Seq<u8>, EffectLastApplied<E, W>>,
    key: Seq<u8>,
) -> EffectLastApplied<E, W> {
    if states.contains_key(key) {
        states[key]
    } else {
        EffectLastApplied::Unapplied
    }
}

/// The value with hash `value_hash` was the last one applied, successfully or not.
pub open spec fn holds_value<E: ?Sized, W>(
    state: EffectLastApplied<E, W>,
    value_hash: u128,
) -> bool {
    state matches EffectLastApplied::Applied { value_hash: stored, .. } && stored == value_hash
}

/// The value with hash `value_hash` was the last one applied, and successfully.
pub open spec fn is_applied<E: ?Sized, W>(
    state: EffectLastApplied<E, W>,
    value_hash: u128,
) -> bool {
    holds_value(state, value_hash) && state->result is Ok
}

/// All key states once `key` has been looked up.
pub open spec fn with_entry<E: ?Sized, W>(
    states: Map<Seq<u8>, EffectLastApplied<E, W>>,
    key: Seq<u8>,
) -> Map<Seq<u8>, EffectLastApplied<E, W>> {
    states.insert(key, state_of(states, key))
}

/// How a caller sees the result of an application.
pub open spec fn outcome_of<E: ?Sized>(result: Result<(), Arc<E>>) -> Result<
    (),
    ApplyOutcome<Arc<E>>,
> {
    match result {
        Ok(_) => Ok(()),
        Err(err) => Err(ApplyOutcome::Failed(err)),
    }
}

/// What a caller that wants `(key, value_hash)` applied has to do next.
pub enum Decision<E: ?Sized> {
    /// Another application of the same key is in flight: wait for it, then look again.
    Wait,
    /// The same value was applied before, with this result: nothing to run.
    Cached(Result<(), Arc<E>>),
    /// Run the side effect.
    Run,
    /// The side effect has to run, but its content was elided: capture it again.
    Recapture,
}

/// The decision for a key in state `state`.
pub open spec fn decide<E: ?Sized, W>(
    state: EffectLastApplied<E, W>,
    value_hash: u128,
    has_body: bool,
) -> Decision<E> {
    match state {
        EffectLastApplied::InProgress { .. } => Decision::Wait,
        EffectLastApplied::Applied { value_hash: stored, result } if stored == value_hash => {
            Decision::Cached(result)
        },
        _ => if has_body {
            Decision::Run
        } else {
            Decision::Recapture
        },
    }
}

/// All key states after a caller looked at `key` and took the decision that [`decide`] gives.
/// `event` is the event that others wait on if the caller is now the one in flight.
pub open spec fn after_run<E: ?Sized, W>(
    states: Map<Seq<u8>, EffectLastApplied<E, W>>,
    key: Seq<u8>,
    value_hash: u128,
    has_body: bool,
    event: W,
) -> Map<Seq<u8>, EffectLastApplied<E, W>> {
    match decide(state_of(states, key), value_hash, has_body) {
        Decision::Wait | Decision::Cached(_) => states,
        Decision::Run => states.insert(key, EffectLastApplied::InProgress { write_event: event }),
        Decision::Recapture => states.insert(key, EffectLastApplied::Unapplied),
    }
}

/// All key states after the application of `value_hash` that was in flight for `key` ended with
/// `result`.
pub open spec fn after_finish<E: ?Sized, W>(
    states: Map<Seq<u8>, EffectLastApplied<E, W>>,
    key: Seq<u8>,
    value_hash: u128,
    result: Result<(), Arc<E>>,
) -> Map<Seq<u8>, EffectLastApplied<E, W>> {
    states.insert(key, EffectLastApplied::Applied { value_hash, result })
}

/// All key states after the application that was in flight for `key` was abandoned.
pub open spec fn after_abort<E: ?Sized, W>(
    states: Map<Seq<u8>, EffectLastApplied<E, W>>,
    key: Seq<u8>,
) -> Map<Seq<u8>, EffectLastApplied<E, W>> {
    states.insert(key, EffectLastApplied::Unapplied)
}

/// A key holds a value if and only if its last application carried exactly that value, and the
/// value is applied if and only if that application also succeeded.
pub proof fn law_applied_means_this_value_and_success<E: ?Sized, W>(
    state: EffectLastApplied<E, W>,
    value_hash: u128,
)
    ensures
        holds_value(state, value_hash) <==> (state matches EffectLastApplied::Applied {
            value_hash: held,
            ..
        } && held == value_hash),
        is_applied(state, value_hash) <==> (state matches EffectLastApplied::Applied {
            value_hash: held,
            result: Ok(_),
        } && held == value_hash),
{
}

/// At most one value of a key is applied at a time.
pub proof fn law_one_value_is_applied<E: ?Sized, W>(
    state: EffectLastApplied<E, W>,
    one: u128,
    other: u128,
)
    requires
        is_applied(state, one),
        is_applied(state, other),
    ensures
        one == other,
{
}

/// A key that was never looked up fares like an unapplied one, and looking it up does not change
/// what is decided about any key.
pub proof fn law_lookup_decides_nothing<E: ?Sized, W>(
    states: Map<Seq<u8>, EffectLastApplied<E, W>>,
    key: Seq<u8>,
    other: Seq<u8>,
)
    ensures
        states.contains_key(key) ==> state_of(states, key) == states[key],
        !states.contains_key(key) ==> state_of(states, key) is Unapplied,
        with_entry(states, key).contains_key(key),
        state_of(with_entry(states, key), other) == state_of(states, other),
        other != key ==> (with_entry(states, key).contains_key(other) <==> states.contains_key(
            other,
        )),
{
}

/// What a caller has to do, by what is in the key's place: wait while the key is in flight, take
/// the result if the key holds the value, and otherwise run its content or capture it again.
pub proof fn law_decision_by_state<E: ?Sized, W>(
    states: Map<Seq<u8>, EffectLastApplied<E, W>>,
    key: Seq<u8>,
    value_hash: u128,
    has_body: bool,
    result: Result<(), Arc<E>>,
)
    ensures
        states.contains_key(key) && states[key] is InProgress <==> decide(
            state_of(states, key),
            value_hash,
            has_body,
        ) is Wait,
        states.contains_key(key) && states[key] == (EffectLastApplied::<E, W>::Applied {
            value_hash,
            result,
        }) <==> decide(state_of(states, key), value_hash, has_body) == Decision::<E>::Cached(
            result,
        ),
        !states.contains_key(key) || states[key] is Unapplied || (states[key] matches
            EffectLastApplied::Applied { value_hash: held, .. } && held != value_hash) <==> {
            let decision = decide(state_of(states, key), value_hash, has_body);
            decision is Run || decision is Recapture
        },
        decide(state_of(states, key), value_hash, has_body) is Run ==> has_body,
        decide(state_of(states, key), value_hash, has_body) is Recapture ==> !has_body,
{
}

/// Once a call without content was told to capture it again, the key is unapplied, whatever it held
/// before: the next call with content runs, for any value, and the next one without content has to
/// capture it again too.
pub proof fn law_recaptured_key_is_unapplied<E: ?Sized, W>(
    states: Map<Seq<u8>, EffectLastApplied<E, W>>,
    key: Seq<u8>,
    value_hash: u128,
    has_body: bool,
    event: W,
    next_hash: u128,
)
    requires
        decide(state_of(states, key), value_hash, has_body) is Recapture,
    ensures
        ({
            let after = after_run(states, key, value_hash, has_body, event);
            &&& after.contains_key(key)
            &&& after[key] is Unapplied
            &&& decide(state_of(after, key), next_hash, true) is Run
            &&& decide(state_of(after, key), next_hash, false) is Recapture
            &&& !is_applied(state_of(after, key), next_hash)
        }),
{
}

/// A call that is told to wait, or gets a result, changes nothing. One that runs puts its key in
/// flight with its own event. No call changes another key.
pub proof fn law_call_changes_only_its_key<E: ?Sized, W>(
    states: Map<Seq<u8>, EffectLastApplied<E, W>>,
    key: Seq<u8>,
    value_hash: u128,
    has_body: bool,
    event: W,
    other: Seq<u8>,
)
    ensures
        ({
            let decision = decide(state_of(states, key), value_hash, has_body);
            let after = after_run(states, key, value_hash, has_body, event);
            &&& decision is Wait || decision is Cached ==> after == states
            &&& decision is Run ==> after.contains_key(key) && after[key] == (EffectLastApplied::<
                E,
                W,
            >::InProgress { write_event: event })
            &&& other != key ==> (after.contains_key(other) <==> states.contains_key(other))
            &&& other != key && states.contains_key(other) ==> after[other] == states[other]
        }),
{
}

/// When an application ends, every call for its value gets its result, for no other value, and the
/// value is applied if and only if it succeeded. When it is abandoned, every call with content
/// runs. Neither changes another key.
pub proof fn law_ended_application_counts_for_its_value<E: ?Sized, W>(
    states: Map<Seq<u8>, EffectLastApplied<E, W>>,
    key: Seq<u8>,
    value_hash: u128,
    result: Result<(), Arc<E>>,
    next_hash: u128,
    has_body: bool,
    other: Seq<u8>,
)
    ensures
        ({
            let finished = after_finish(states, key, value_hash, result);
            let aborted = after_abort(states, key);
            let next = decide(state_of(finished, key), next_hash, has_body);
            &&& next_hash == value_hash ==> next == Decision::<E>::Cached(result)
            &&& next_hash != value_hash ==> next is Run || next is Recapture
            &&& is_applied(state_of(finished, key), next_hash) <==> next_hash == value_hash
                && result is Ok
            &&& decide(state_of(aborted, key), next_hash, true) is Run
            &&& decide(state_of(aborted, key), next_hash, false) is Recapture
            &&& other != key ==> state_of(finished, other) == state_of(states, other)
            &&& other != key ==> state_of(aborted, other) == state_of(states, other)
        }),
{
}

/// A caller sees a success as such, and a failure with the error of the side effect. A result is
/// never seen as a retry.
pub proof fn law_outcome_shows_the_result<E: ?Sized>(result: Result<(), Arc<E>>)
    ensures
        outcome_of(result) is Ok <==> result is Ok,
        result matches Err(err) ==> outcome_of(result) == Err::<(), ApplyOutcome<Arc<E>>>(
            ApplyOutcome::Failed(err),
        ),
{
}

} // verus!
