//! The storage as many callers see it at once.
//!
//! Callers get at the storage one at a time, but their requests interleave in any order: one caller
//! may look at a key while another one is still running its side effect. A [`System`] is the
//! storage together with the guards that callers hold at the moment, and an [`Access`] is one
//! caller's turn at the storage.

use std::sync::Arc;

use vstd::prelude::*;

use crate::error::ApplyOutcome;
use crate::state;
use crate::state::{Decision, EffectLastApplied};

verus! {

/// The state of all keys, and for each guard that a caller holds its key and value hash.
pub struct System<E: ?Sized, W> {
    pub states: Map<Seq<u8>, EffectLastApplied<E, W>>,
    pub guards: Map<Seq<u8>, u128>,
}

/// One turn at the storage.
pub enum Access<E: ?Sized, W> {
    /// [`EffectStateStorage::run_apply`](crate::EffectStateStorage::run_apply), or
    /// [`EffectStateStorage::resume_apply`](crate::EffectStateStorage::resume_apply) after a wait.
    Run { key: Seq<u8>, value_hash: u128, has_body: bool, event: W },
    /// [`EffectStateStorage::finish_apply`](crate::EffectStateStorage::finish_apply) by the holder
    /// of the guard for `key`.
    Finish { key: Seq<u8>, result: Result<(), Arc<E>> },
    /// [`EffectStateStorage::abort_apply`](crate::EffectStateStorage::abort_apply) by the holder of
    /// the guard for `key`.
    Abort { key: Seq<u8> },
}

impl<E: ?Sized, W> Access<E, W> {
    /// The key that is accessed.
    pub open spec fn key(self) -> Seq<u8> {
        match self {
            Access::Run { key, .. } => key,
            Access::Finish { key, .. } => key,
            Access::Abort { key } => key,
        }
    }

    /// Ends an application that was in flight for `key`.
    pub open spec fn ends(self, key: Seq<u8>) -> bool {
        !(self is Run) && self.key() == key
    }

    /// Asks for `key` to be applied, if at all, with the value `value_hash`.
    pub open spec fn agrees_on(self, key: Seq<u8>, value_hash: u128) -> bool {
        self matches Access::Run { key: k, value_hash: hash, .. } ==> {
            k == key ==> hash == value_hash
        }
    }
}

impl<E: ?Sized, W> System<E, W> {
    /// Only the holder of a guard can end an application.
    pub open spec fn allows(self, access: Access<E, W>) -> bool {
        access is Run || self.guards.contains_key(access.key())
    }

    /// Whether this access hands out the side effect to run, and a guard with it.
    pub open spec fn starts(self, access: Access<E, W>) -> bool {
        access matches Access::Run { key, value_hash, has_body, .. } && state::decide(
            state::state_of(self.states, key),
            value_hash,
            has_body,
        ) is Run
    }

    /// Whether this access is part of a call that wants `key` applied with the value `value_hash`.
    pub open spec fn serves(self, access: Access<E, W>, key: Seq<u8>, value_hash: u128) -> bool {
        match access {
            Access::Run { key: k, value_hash: hash, .. } => k == key && hash == value_hash,
            _ => access.key() == key && self.guards[key] == value_hash,
        }
    }

    /// What the call that this access is part of returns, if the access ends it. A call that is
    /// abandoned returns nothing.
    pub open spec fn answer(self, access: Access<E, W>) -> Option<
        Result<(), ApplyOutcome<Arc<E>>>,
    > {
        match access {
            Access::Run { key, value_hash, has_body, .. } => match state::decide(
                state::state_of(self.states, key),
                value_hash,
                has_body,
            ) {
                Decision::Cached(result) => Some(state::outcome_of(result)),
                Decision::Recapture => Some(Err(ApplyOutcome::Retry)),
                Decision::Wait | Decision::Run => None,
            },
            Access::Finish { result, .. } => Some(state::outcome_of(result)),
            Access::Abort { .. } => None,
        }
    }

    /// The system after one access.
    pub open spec fn after(self, access: Access<E, W>) -> System<E, W> {
        match access {
            Access::Run { key, value_hash, has_body, event } => System {
                states: state::after_run(self.states, key, value_hash, has_body, event),
                guards: if self.starts(access) {
                    self.guards.insert(key, value_hash)
                } else {
                    self.guards
                },
            },
            Access::Finish { key, result } => System {
                states: state::after_finish(self.states, key, self.guards[key], result),
                guards: self.guards.remove(key),
            },
            Access::Abort { key } => System {
                states: state::after_abort(self.states, key),
                guards: self.guards.remove(key),
            },
        }
    }

    /// The system after a history of accesses.
    pub open spec fn after_all(self, history: Seq<Access<E, W>>) -> System<E, W>
        decreases history.len(),
    {
        if history.len() == 0 {
            self
        } else {
            self.after_all(history.drop_last()).after(history.last())
        }
    }

    /// The system when the `n`th access of the history gets its turn.
    pub open spec fn at(self, history: Seq<Access<E, W>>, n: int) -> System<E, W> {
        self.after_all(history.take(n))
    }

    /// Every access of the history was possible when its turn came.
    pub open spec fn allows_all(self, history: Seq<Access<E, W>>) -> bool
        decreases history.len(),
    {
        history.len() == 0 || {
            &&& self.allows_all(history.drop_last())
            &&& self.after_all(history.drop_last()).allows(history.last())
        }
    }

    /// How often the history hands out the side effect of `key`.
    pub open spec fn runs_of(self, history: Seq<Access<E, W>>, key: Seq<u8>) -> nat
        decreases history.len(),
    {
        if history.len() == 0 {
            0
        } else {
            let before = history.drop_last();
            let last = history.last();
            self.runs_of(before, key) + if last.key() == key && self.after_all(before).starts(
                last,
            ) {
                1nat
            } else {
                0nat
            }
        }
    }

    /// An application of `key` is in flight.
    pub open spec fn in_flight(self, key: Seq<u8>) -> bool {
        state::state_of(self.states, key) is InProgress
    }

    /// The keys in flight are those that some caller holds the guard of.
    pub open spec fn consistent(self) -> bool {
        forall|key: Seq<u8>| #[trigger] self.guards.contains_key(key) <==> self.in_flight(key)
    }
}

/// How often the history abandons an application of `key`.
pub open spec fn aborts_of<E: ?Sized, W>(history: Seq<Access<E, W>>, key: Seq<u8>) -> nat
    decreases history.len(),
{
    if history.len() == 0 {
        0
    } else {
        aborts_of(history.drop_last(), key) + if history.last() is Abort && history.last().key()
            == key {
            1nat
        } else {
            0nat
        }
    }
}

/// Whoever asks for `key` to be applied asks for the value `value_hash`.
pub open spec fn all_agree_on<E: ?Sized, W>(
    history: Seq<Access<E, W>>,
    key: Seq<u8>,
    value_hash: u128,
) -> bool {
    forall|i: int| 0 <= i < history.len() ==> (#[trigger] history[i]).agrees_on(key, value_hash)
}

/// A new storage, which no caller has accessed yet, is consistent.
pub proof fn law_new_storage_is_consistent<E: ?Sized, W>()
    ensures
        (System::<E, W> { states: Map::empty(), guards: Map::empty() }).consistent(),
{
}

/// However callers interleave, the keys in flight stay those that some caller holds the guard of.
/// So whoever holds a guard can give it back.
pub proof fn law_guards_are_in_flight<E: ?Sized, W>(
    system: System<E, W>,
    history: Seq<Access<E, W>>,
)
    requires
        system.consistent(),
        system.allows_all(history),
    ensures
        system.after_all(history).consistent(),
    decreases history.len(),
{
    if history.len() > 0 {
        let before = system.after_all(history.drop_last());
        let last = history.last();
        law_guards_are_in_flight(system, history.drop_last());
        assert forall|key: Seq<u8>|
            (#[trigger] before.after(last).guards.contains_key(key)) == before.after(
                last,
            ).in_flight(key) by {
            assert(before.guards.contains_key(key) == before.in_flight(key));
        }
    }
}

/// At most one application of a key is in flight: the side effect of a key is never handed out
/// while some caller holds the guard of that key.
pub proof fn law_one_application_in_flight<E: ?Sized, W>(
    system: System<E, W>,
    history: Seq<Access<E, W>>,
    access: Access<E, W>,
)
    requires
        system.consistent(),
        system.allows_all(history),
        system.after_all(history).starts(access),
    ensures
        !system.after_all(history).guards.contains_key(access.key()),
        system.after_all(history).after(access).guards.contains_key(access.key()),
{
    law_guards_are_in_flight(system, history);
}

/// A caller that was told to wait on `event` waits on the event that fires: as long as nobody ends
/// the application in flight, `event` stays the one that is handed out when it ends.
pub proof fn law_waiters_are_notified<E: ?Sized, W>(
    system: System<E, W>,
    history: Seq<Access<E, W>>,
    key: Seq<u8>,
    event: W,
)
    requires
        state::state_of(system.states, key) == (EffectLastApplied::<E, W>::InProgress {
            write_event: event,
        }),
        forall|i: int| 0 <= i < history.len() ==> !(#[trigger] history[i]).ends(key),
    ensures
        state::state_of(system.after_all(history).states, key) == (EffectLastApplied::<
            E,
            W,
        >::InProgress { write_event: event }),
    decreases history.len(),
{
    if history.len() > 0 {
        assert forall|i: int| 0 <= i < history.drop_last().len() implies !(
        #[trigger] history.drop_last()[i]).ends(key) by {
            assert(!history[i].ends(key));
        }
        law_waiters_are_notified(system, history.drop_last(), key, event);
        assert(!history[history.len() - 1].ends(key));
    }
}

/// One if the side effect of `(key, value_hash)` could be handed out now.
spec fn pending<E: ?Sized, W>(system: System<E, W>, key: Seq<u8>, value_hash: u128) -> nat {
    if state::decide(state::state_of(system.states, key), value_hash, true) is Run {
        1
    } else {
        0
    }
}

/// As long as all callers agree on the value of a key, each run of its side effect but one makes up
/// for an abandoned run.
proof fn lemma_runs_are_accounted_for<E: ?Sized, W>(
    system: System<E, W>,
    history: Seq<Access<E, W>>,
    key: Seq<u8>,
    value_hash: u128,
)
    requires
        system.consistent(),
        system.allows_all(history),
        system.guards.contains_key(key) ==> system.guards[key] == value_hash,
        all_agree_on(history, key, value_hash),
    ensures
        system.runs_of(history, key) + pending(system.after_all(history), key, value_hash)
            <= aborts_of(history, key) + pending(system, key, value_hash),
        ({
            let guards = system.after_all(history).guards;
            guards.contains_key(key) ==> guards[key] == value_hash
        }),
    decreases history.len(),
{
    if history.len() > 0 {
        let init = history.drop_last();
        let last = history.last();
        assert forall|i: int| 0 <= i < init.len() implies (#[trigger] init[i]).agrees_on(
            key,
            value_hash,
        ) by {
            assert(history[i].agrees_on(key, value_hash));
        }
        lemma_runs_are_accounted_for(system, init, key, value_hash);
        law_guards_are_in_flight(system, init);
        assert(history[history.len() - 1].agrees_on(key, value_hash));
        let before = system.after_all(init);
        assert(before.guards.contains_key(key) == before.in_flight(key));
    }
}

/// Each side effect runs at most once per stored key and value hash, across all callers.
///
/// As long as all callers agree on the value of a key, its side effect runs once, plus once for
/// each run that was abandoned. It does not run at all if that value was the last one applied.
pub proof fn law_runs_at_most_once<E: ?Sized, W>(
    system: System<E, W>,
    history: Seq<Access<E, W>>,
    key: Seq<u8>,
    value_hash: u128,
)
    requires
        system.consistent(),
        system.allows_all(history),
        system.guards.contains_key(key) ==> system.guards[key] == value_hash,
        all_agree_on(history, key, value_hash),
    ensures
        system.runs_of(history, key) <= aborts_of(history, key) + 1,
        state::holds_value(state::state_of(system.states, key), value_hash) ==> system.runs_of(
            history,
            key,
        ) == 0,
{
    lemma_runs_are_accounted_for(system, history, key, value_hash);
    if state::holds_value(state::state_of(system.states, key), value_hash) {
        law_applied_value_stays(system, history, key, value_hash);
    }
}

/// What was last applied to a key stays as it is, and the side effect of the key does not run
/// again, as long as callers ask for no other value. Accesses to other keys do not matter.
pub proof fn law_applied_value_stays<E: ?Sized, W>(
    system: System<E, W>,
    history: Seq<Access<E, W>>,
    key: Seq<u8>,
    value_hash: u128,
)
    requires
        system.consistent(),
        system.allows_all(history),
        state::holds_value(state::state_of(system.states, key), value_hash),
        all_agree_on(history, key, value_hash),
    ensures
        state::state_of(system.after_all(history).states, key) == state::state_of(
            system.states,
            key,
        ),
        system.runs_of(history, key) == 0,
    decreases history.len(),
{
    if history.len() > 0 {
        let init = history.drop_last();
        assert forall|i: int| 0 <= i < init.len() implies (#[trigger] init[i]).agrees_on(
            key,
            value_hash,
        ) by {
            assert(history[i].agrees_on(key, value_hash));
        }
        law_applied_value_stays(system, init, key, value_hash);
        law_guards_are_in_flight(system, init);
        assert(history[history.len() - 1].agrees_on(key, value_hash));
        let before = system.after_all(init);
        assert(before.guards.contains_key(key) == before.in_flight(key));
    }
}

/// A caller has to wait if and only if another one holds the guard of the key, so there is always
/// somebody who can end the application that is waited for.
pub proof fn law_waits_only_for_a_holder<E: ?Sized, W>(
    system: System<E, W>,
    history: Seq<Access<E, W>>,
    key: Seq<u8>,
    value_hash: u128,
    has_body: bool,
)
    requires
        system.consistent(),
        system.allows_all(history),
    ensures
        state::decide(
            state::state_of(system.after_all(history).states, key),
            value_hash,
            has_body,
        ) is Wait <==> system.after_all(history).guards.contains_key(key),
{
    law_guards_are_in_flight(system, history);
    let after = system.after_all(history);
    assert(after.guards.contains_key(key) == after.in_flight(key));
}

/// When an application is abandoned, the next caller gets to run its side effect: nothing of the
/// abandoned run is taken for a result.
pub proof fn law_abandoned_key_runs_again<E: ?Sized, W>(
    system: System<E, W>,
    key: Seq<u8>,
    value_hash: u128,
    event: W,
)
    requires
        system.allows(Access::Abort { key }),
    ensures
        system.after(Access::Abort { key }).starts(
            Access::Run { key, value_hash, has_body: true, event },
        ),
{
}

/// When an application ends, every caller that asks for the same value gets its result, with or
/// without content of its own, and runs nothing.
pub proof fn law_result_is_cached<E: ?Sized, W>(
    system: System<E, W>,
    key: Seq<u8>,
    result: Result<(), Arc<E>>,
    has_body: bool,
)
    requires
        system.allows(Access::Finish { key, result }),
    ensures
        ({
            let after = system.after(Access::Finish { key, result });
            state::decide(state::state_of(after.states, key), system.guards[key], has_body)
                == Decision::Cached(result)
        }),
{
}

/// Content may be elided when the key already holds the value: applying the effect then succeeds
/// without running anything, unless callers asked for another value in between.
pub proof fn law_content_may_be_elided<E: ?Sized, W>(
    system: System<E, W>,
    history: Seq<Access<E, W>>,
    key: Seq<u8>,
    value_hash: u128,
)
    requires
        system.consistent(),
        system.allows_all(history),
        state::is_applied(state::state_of(system.states, key), value_hash),
        all_agree_on(history, key, value_hash),
    ensures
        state::decide(
            state::state_of(system.after_all(history).states, key),
            value_hash,
            false,
        ) matches Decision::Cached(Ok(_)),
{
    law_applied_value_stays(system, history, key, value_hash);
}

/// An effect without content never runs: it gets a cached result if the key holds its value, and
/// has to be captured again if the key holds another value or none.
pub proof fn law_elided_effect_is_cached_or_recaptured<E: ?Sized, W>(
    state: EffectLastApplied<E, W>,
    value_hash: u128,
)
    requires
        !(state is InProgress),
    ensures
        state::holds_value(state, value_hash) ==> state::decide(state, value_hash, false)
            == Decision::<E>::Cached(state->result),
        !state::holds_value(state, value_hash) ==> state::decide(state, value_hash, false)
            == Decision::<E>::Recapture,
{
}

/// An access to one key leaves all other keys, and the guards held on them, as they were.
pub proof fn law_keys_are_independent<E: ?Sized, W>(
    system: System<E, W>,
    access: Access<E, W>,
    key: Seq<u8>,
)
    requires
        access.key() != key,
    ensures
        state::state_of(system.after(access).states, key) == state::state_of(system.states, key),
        system.after(access).guards.contains_key(key) == system.guards.contains_key(key),
        system.guards.contains_key(key) ==> system.after(access).guards[key] == system.guards[key],
{
}

/// Histories compose: what follows one history is what follows its first part and then its second.
pub proof fn law_histories_compose<E: ?Sized, W>(
    system: System<E, W>,
    one: Seq<Access<E, W>>,
    two: Seq<Access<E, W>>,
    key: Seq<u8>,
)
    ensures
        system.after_all(one + two) == system.after_all(one).after_all(two),
        system.allows_all(one + two) <==> system.allows_all(one) && system.after_all(
            one,
        ).allows_all(two),
        system.runs_of(one + two, key) == system.runs_of(one, key) + system.after_all(one).runs_of(
            two,
            key,
        ),
    decreases two.len(),
{
    if two.len() == 0 {
        assert(one + two =~= one);
    } else {
        assert((one + two).drop_last() =~= one + two.drop_last());
        assert((one + two).last() == two.last());
        law_histories_compose(system, one, two.drop_last(), key);
    }
}

/// Once a call for `(key, value_hash)` has returned a result, and not a retry, the key holds that
/// value with that result, and goes on holding it while callers ask for no other value of the key.
pub proof fn law_result_is_held<E: ?Sized, W>(
    system: System<E, W>,
    history: Seq<Access<E, W>>,
    key: Seq<u8>,
    value_hash: u128,
    n: int,
    p: int,
)
    requires
        system.consistent(),
        system.allows_all(history),
        0 <= n < p <= history.len(),
        system.at(history, n).serves(history[n], key, value_hash),
        system.at(history, n).answer(history[n]) is Some,
        system.at(history, n).answer(history[n]) != Some(
            Err::<(), ApplyOutcome<Arc<E>>>(ApplyOutcome::Retry),
        ),
        all_agree_on(history.skip(n + 1), key, value_hash),
    ensures
        system.at(history, p).consistent(),
        system.at(history, p).allows_all(history.skip(p)),
        system.at(history, p).runs_of(history.skip(p), key) == 0,
        ({
            let now = state::state_of(system.at(history, p).states, key);
            &&& state::holds_value(now, value_hash)
            &&& system.at(history, n).answer(history[n]) == Some(
                state::outcome_of(now->result),
            )
        }),
{
    // The access that ends the call leaves the result behind.
    let ended = system.at(history, n + 1);
    assert(history.take(n + 1).drop_last() =~= history.take(n));
    assert(history.take(n + 1).last() == history[n]);
    assert(ended == system.at(history, n).after(history[n]));
    assert(history =~= history.take(n + 1) + history.skip(n + 1));
    law_histories_compose(system, history.take(n + 1), history.skip(n + 1), key);
    law_guards_are_in_flight(system, history.take(n + 1));

    // Nothing that comes between changes it.
    let between = history.subrange(n + 1, p);
    assert(history.take(p) =~= history.take(n + 1) + between);
    assert(history =~= history.take(p) + history.skip(p));
    law_histories_compose(system, history.take(n + 1), between, key);
    law_histories_compose(system, history.take(p), history.skip(p), key);
    law_guards_are_in_flight(system, history.take(p));
    assert forall|q: int| 0 <= q < between.len() implies (#[trigger] between[q]).agrees_on(
        key,
        value_hash,
    ) by {
        assert(history.skip(n + 1)[q].agrees_on(key, value_hash));
    }
    law_applied_value_stays(ended, between, key, value_hash);

    // Nor does anything that comes after.
    let rest = history.skip(p);
    assert forall|q: int| 0 <= q < rest.len() implies (#[trigger] rest[q]).agrees_on(
        key,
        value_hash,
    ) by {
        assert(history.skip(n + 1)[q + p - (n + 1)].agrees_on(key, value_hash));
    }
    law_applied_value_stays(system.at(history, p), rest, key, value_hash);
}

/// Once a call for `(key, value_hash)` has returned a result, and not a retry, every later call for
/// it returns that same result as soon as it gets its turn, with or without content, and runs
/// nothing. This holds for all callers, while none of them asks for another value of the key.
pub proof fn law_later_calls_return_the_same<E: ?Sized, W>(
    system: System<E, W>,
    history: Seq<Access<E, W>>,
    key: Seq<u8>,
    value_hash: u128,
    n: int,
    later: int,
)
    requires
        system.consistent(),
        system.allows_all(history),
        0 <= n < later < history.len(),
        system.at(history, n).serves(history[n], key, value_hash),
        system.at(history, n).answer(history[n]) is Some,
        system.at(history, n).answer(history[n]) != Some(
            Err::<(), ApplyOutcome<Arc<E>>>(ApplyOutcome::Retry),
        ),
        all_agree_on(history.skip(n + 1), key, value_hash),
        history[later].key() == key,
    ensures
        history[later] is Run,
        system.at(history, later).answer(history[later]) == system.at(history, n).answer(
            history[n],
        ),
        system.at(history, later).runs_of(history.skip(later), key) == 0,
{
    law_result_is_held(system, history, key, value_hash, n, later);
    let now = system.at(history, later);
    assert(now.guards.contains_key(key) == now.in_flight(key));
    lemma_allowed_at(system, history, later);
    assert(history.skip(n + 1)[later - (n + 1)].agrees_on(key, value_hash));
}

/// Each access of a history was possible when its turn came.
proof fn lemma_allowed_at<E: ?Sized, W>(
    system: System<E, W>,
    history: Seq<Access<E, W>>,
    n: int,
)
    requires
        system.allows_all(history),
        0 <= n < history.len(),
    ensures
        system.at(history, n).allows(history[n]),
{
    assert(history =~= history.take(n + 1) + history.skip(n + 1));
    law_histories_compose(system, history.take(n + 1), history.skip(n + 1), history[n].key());
    assert(history.take(n + 1).drop_last() =~= history.take(n));
    assert(history.take(n + 1).last() == history[n]);
}

/// Whoever waited for an application that has ended has to wait again only if the key was handed
/// out again in the meantime: if nobody starts an application of the key after turn `end`, none is
/// in flight at any turn `now` behind it, and no caller is told to wait.
pub proof fn law_waits_again_only_after_a_start<E: ?Sized, W>(
    system: System<E, W>,
    history: Seq<Access<E, W>>,
    key: Seq<u8>,
    end: int,
    now: int,
)
    requires
        0 <= end < now <= history.len(),
        history[end].ends(key),
        forall|n: int|
            end < n < now && (#[trigger] history[n]).key() == key ==> !system.at(history, n).starts(
                history[n],
            ),
    ensures
        !system.at(history, now).in_flight(key),
        forall|value_hash: u128, has_body: bool|
            !(#[trigger] state::decide(
                state::state_of(system.at(history, now).states, key),
                value_hash,
                has_body,
            ) is Wait),
    decreases now - end,
{
    assert(history.take(now).drop_last() =~= history.take(now - 1));
    assert(history.take(now).last() == history[now - 1]);
    if now - 1 > end {
        law_waits_again_only_after_a_start(system, history, key, end, now - 1);
        assert(history[now - 1].key() == key ==> !system.at(history, now - 1).starts(
            history[now - 1],
        ));
    }
}

} // verus!
