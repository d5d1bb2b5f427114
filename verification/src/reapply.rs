//! What one batch of effects after another does to the storage.
//!
//! Effects are told apart by their identities, that is their keys and value hashes. In
//! [`after_batch`] the effects of a batch are applied one after the other, with content, and nobody
//! else is at the storage. In [`batch_ended`] they are applied in any order, with content or
//! without, and any number of other callers are at the storage as well.

use std::sync::Arc;

use vstd::prelude::*;

use crate::effects;
use crate::error::{ApplyOutcome, EffectError, EffectsError};
use crate::protocol;
use crate::protocol::{Access, System};
use crate::state;
use crate::state::{Decision, EffectLastApplied};

verus! {

/// No two effects have the same key.
pub open spec fn distinct_keys(ids: Seq<(Seq<u8>, u128)>) -> bool {
    forall|i: int, j: int|
        0 <= i < j < ids.len() ==> (#[trigger] ids[i]).0 != (#[trigger] ids[j]).0
}

/// None of the effects' keys is in flight.
pub open spec fn none_in_flight<E: ?Sized, W>(
    states: Map<Seq<u8>, EffectLastApplied<E, W>>,
    ids: Seq<(Seq<u8>, u128)>,
) -> bool {
    forall|i: int|
        0 <= i < ids.len() ==> !(state::state_of(states, (#[trigger] ids[i]).0) is InProgress)
}

/// What the call for the `i`th effect of a batch returns if its turn comes: what its key holds from
/// before if that is the effect's value, and what the side effect ends with, `results[i]`, if not.
pub open spec fn result_in_batch<E: ?Sized, W>(
    states: Map<Seq<u8>, EffectLastApplied<E, W>>,
    ids: Seq<(Seq<u8>, u128)>,
    results: Seq<Result<(), Arc<E>>>,
    i: int,
) -> Result<(), Arc<E>> {
    let state = state::state_of(states, ids[i].0);
    if state::holds_value(state, ids[i].1) {
        state->result
    } else {
        results[i]
    }
}

/// All key states after a batch. A failure ends the batch, and the effects behind it are not
/// applied. `results[i]` is what the `i`th side effect ends with if it runs, `event` the event that
/// others could wait on meanwhile.
pub open spec fn after_batch<E: ?Sized, W>(
    states: Map<Seq<u8>, EffectLastApplied<E, W>>,
    ids: Seq<(Seq<u8>, u128)>,
    results: Seq<Result<(), Arc<E>>>,
    event: W,
) -> Map<Seq<u8>, EffectLastApplied<E, W>>
    decreases ids.len(),
{
    if ids.len() == 0 {
        states
    } else {
        let before = after_batch(states, ids.drop_last(), results, event);
        let (key, value_hash) = ids.last();
        let looked_at = state::after_run(before, key, value_hash, true, event);
        if batch_failed(states, ids.drop_last(), results, event) {
            before
        } else if state::decide(state::state_of(before, key), value_hash, true) is Run {
            state::after_finish(looked_at, key, value_hash, results[ids.len() - 1])
        } else {
            looked_at
        }
    }
}

/// Whether an effect of the batch failed, now or when its value was applied before.
pub open spec fn batch_failed<E: ?Sized, W>(
    states: Map<Seq<u8>, EffectLastApplied<E, W>>,
    ids: Seq<(Seq<u8>, u128)>,
    results: Seq<Result<(), Arc<E>>>,
    event: W,
) -> bool
    decreases ids.len(),
{
    ids.len() > 0 && {
        ||| batch_failed(states, ids.drop_last(), results, event)
        ||| {
            let before = after_batch(states, ids.drop_last(), results, event);
            let (key, value_hash) = ids.last();
            match state::decide(state::state_of(before, key), value_hash, true) {
                Decision::Cached(result) => result is Err,
                Decision::Run => results[ids.len() - 1] is Err,
                _ => false,
            }
        }
    }
}

/// Whether the turn of the `i`th effect of a batch comes: no effect before it failed.
pub open spec fn reached_in_batch<E: ?Sized, W>(
    states: Map<Seq<u8>, EffectLastApplied<E, W>>,
    ids: Seq<(Seq<u8>, u128)>,
    results: Seq<Result<(), Arc<E>>>,
    event: W,
    i: int,
) -> bool {
    !batch_failed(states, ids.take(i), results, event)
}

/// Whether the `i`th side effect of a batch runs.
pub open spec fn runs_in_batch<E: ?Sized, W>(
    states: Map<Seq<u8>, EffectLastApplied<E, W>>,
    ids: Seq<(Seq<u8>, u128)>,
    results: Seq<Result<(), Arc<E>>>,
    event: W,
    i: int,
) -> bool {
    let before = after_batch(states, ids.take(i), results, event);
    reached_in_batch(states, ids, results, event, i) && state::decide(
        state::state_of(before, ids[i].0),
        ids[i].1,
        true,
    ) is Run
}

/// Keys that no effect of the batch has stay as they were.
pub proof fn law_other_keys_stay<E: ?Sized, W>(
    states: Map<Seq<u8>, EffectLastApplied<E, W>>,
    ids: Seq<(Seq<u8>, u128)>,
    results: Seq<Result<(), Arc<E>>>,
    event: W,
    key: Seq<u8>,
)
    requires
        forall|i: int| 0 <= i < ids.len() ==> (#[trigger] ids[i]).0 != key,
    ensures
        state::state_of(after_batch(states, ids, results, event), key) == state::state_of(
            states,
            key,
        ),
    decreases ids.len(),
{
    if ids.len() > 0 {
        assert(ids[ids.len() - 1].0 != key);
        assert forall|i: int| 0 <= i < ids.drop_last().len() implies (
        #[trigger] ids.drop_last()[i]).0 != key by {
            assert(ids[i].0 != key);
        }
        law_other_keys_stay(states, ids.drop_last(), results, event, key);
    }
}

/// When its turn comes, the key of an effect is in the state in which the batch found it.
proof fn lemma_state_at_turn<E: ?Sized, W>(
    states: Map<Seq<u8>, EffectLastApplied<E, W>>,
    ids: Seq<(Seq<u8>, u128)>,
    results: Seq<Result<(), Arc<E>>>,
    event: W,
    i: int,
)
    requires
        distinct_keys(ids),
        0 <= i < ids.len(),
    ensures
        state::state_of(after_batch(states, ids.take(i), results, event), ids[i].0)
            == state::state_of(states, ids[i].0),
{
    assert forall|j: int| 0 <= j < ids.take(i).len() implies (#[trigger] ids.take(i)[j]).0
        != ids[i].0 by {
        assert(ids.take(i)[j] == ids[j]);
    }
    law_other_keys_stay(states, ids.take(i), results, event, ids[i].0);
}

/// A batch stops at its first failure: the turn of an effect comes if and only if the calls for all
/// effects before it returned `Ok`, and the batch fails if and only if a call returned an error.
/// `len` is the number of effects looked at.
pub proof fn law_batch_stops_at_first_failure<E: ?Sized, W>(
    states: Map<Seq<u8>, EffectLastApplied<E, W>>,
    ids: Seq<(Seq<u8>, u128)>,
    results: Seq<Result<(), Arc<E>>>,
    event: W,
    len: int,
)
    requires
        distinct_keys(ids),
        none_in_flight(states, ids),
        0 <= len <= ids.len(),
    ensures
        batch_failed(states, ids.take(len), results, event) <==> exists|i: int|
            0 <= i < len && (#[trigger] result_in_batch(states, ids, results, i)) is Err,
        len < ids.len() ==> (reached_in_batch(states, ids, results, event, len) <==> forall|i: int|
            0 <= i < len ==> (#[trigger] result_in_batch(states, ids, results, i)) is Ok),
    decreases len,
{
    if len > 0 {
        let last = len - 1;
        law_batch_stops_at_first_failure(states, ids, results, event, last);
        lemma_state_at_turn(states, ids, results, event, last);
        assert(ids.take(len).drop_last() =~= ids.take(last));
        assert(ids.take(len).last() == ids[last]);
        assert(!(state::state_of(states, ids[last].0) is InProgress));
        assert(batch_failed(states, ids.take(len), results, event) <==> batch_failed(
            states,
            ids.take(last),
            results,
            event,
        ) || result_in_batch(states, ids, results, last) is Err);
    }
}

/// The outcomes of a batch, one for each effect whose turn came.
pub open spec fn batch_outcomes<E: ?Sized, W>(
    states: Map<Seq<u8>, EffectLastApplied<E, W>>,
    ids: Seq<(Seq<u8>, u128)>,
    results: Seq<Result<(), Arc<E>>>,
    event: W,
) -> Seq<Result<(), ApplyOutcome<Arc<E>>>>
    decreases ids.len(),
{
    if ids.len() == 0 {
        Seq::empty()
    } else {
        let before = batch_outcomes(states, ids.drop_last(), results, event);
        if batch_failed(states, ids.drop_last(), results, event) {
            before
        } else {
            before.push(state::outcome_of(result_in_batch(states, ids, results, ids.len() - 1)))
        }
    }
}

/// The result of a batch is the one that its outcomes give: an error if an effect failed, `Ok` if
/// none did.
pub proof fn law_batch_result_is_that_of_its_outcomes<E: EffectError + ?Sized, W>(
    states: Map<Seq<u8>, EffectLastApplied<E, W>>,
    ids: Seq<(Seq<u8>, u128)>,
    results: Seq<Result<(), Arc<E>>>,
    event: W,
)
    requires
        distinct_keys(ids),
        none_in_flight(states, ids),
    ensures
        ({
            let result = effects::batch_result(batch_outcomes(states, ids, results, event));
            if batch_failed(states, ids, results, event) {
                result matches Err(EffectsError::Apply(_))
            } else {
                result is Ok
            }
        }),
    decreases ids.len(),
{
    let outcomes = batch_outcomes(states, ids, results, event);
    effects::law_batch_result(outcomes);
    if ids.len() > 0 {
        let init = ids.drop_last();
        let last = ids.len() - 1;
        assert forall|j: int| 0 <= j < init.len() implies init[j] == ids[j] by {}
        assert forall|j: int, k: int| 0 <= j < k < init.len() implies (#[trigger] init[j]).0 != (
        #[trigger] init[k]).0 by {
            assert(ids[j].0 != ids[k].0);
        }
        assert forall|j: int| 0 <= j < init.len() implies !(state::state_of(
            states,
            (#[trigger] init[j]).0,
        ) is InProgress) by {
            assert(ids[j].0 == init[j].0);
        }
        law_batch_result_is_that_of_its_outcomes(states, init, results, event);
        assert(ids.take(last) =~= init);
        lemma_state_at_turn(states, ids, results, event, last);
        assert(!(state::state_of(states, ids[last].0) is InProgress));
        let before = batch_outcomes(states, init, results, event);
        if !batch_failed(states, init, results, event) {
            effects::law_batch_result(before);
            assert(outcomes.drop_last() =~= before);
            assert forall|i: int| 0 <= i < before.len() implies (#[trigger] before[i]) is Ok
                && outcomes[i] == before[i] by {}
        }
    }
}

/// A side effect of a batch runs if and only if its turn comes and its key does not hold its value
/// yet.
pub proof fn law_batch_runs_what_changed<E: ?Sized, W>(
    states: Map<Seq<u8>, EffectLastApplied<E, W>>,
    ids: Seq<(Seq<u8>, u128)>,
    results: Seq<Result<(), Arc<E>>>,
    event: W,
    i: int,
)
    requires
        distinct_keys(ids),
        none_in_flight(states, ids),
        0 <= i < ids.len(),
    ensures
        runs_in_batch(states, ids, results, event, i) <==> {
            &&& reached_in_batch(states, ids, results, event, i)
            &&& !state::holds_value(state::state_of(states, ids[i].0), ids[i].1)
        },
{
    lemma_state_at_turn(states, ids, results, event, i);
}

/// After a batch the key of each effect whose turn came holds the effect's value, with the result
/// that the call for it returned. The keys of the effects behind a failure are as they were.
pub proof fn law_batch_leaves_its_values<E: ?Sized, W>(
    states: Map<Seq<u8>, EffectLastApplied<E, W>>,
    ids: Seq<(Seq<u8>, u128)>,
    results: Seq<Result<(), Arc<E>>>,
    event: W,
    i: int,
)
    requires
        distinct_keys(ids),
        none_in_flight(states, ids),
        0 <= i < ids.len(),
    ensures
        state::state_of(after_batch(states, ids, results, event), ids[i].0) == (
        if reached_in_batch(states, ids, results, event, i) {
            EffectLastApplied::Applied {
                value_hash: ids[i].1,
                result: result_in_batch(states, ids, results, i),
            }
        } else {
            state::state_of(states, ids[i].0)
        }),
    decreases ids.len(),
{
    let init = ids.drop_last();
    assert forall|j: int| 0 <= j < init.len() implies init[j] == ids[j] by {}
    assert forall|j: int, k: int| 0 <= j < k < init.len() implies (#[trigger] init[j]).0 != (
    #[trigger] init[k]).0 by {
        assert(ids[j].0 != ids[k].0);
    }
    assert forall|j: int| 0 <= j < init.len() implies !(state::state_of(
        states,
        (#[trigger] init[j]).0,
    ) is InProgress) by {
        assert(ids[j].0 == init[j].0);
    }
    if i < init.len() {
        law_batch_leaves_its_values(states, init, results, event, i);
        assert(init.take(i) =~= ids.take(i));
        assert(ids[i].0 != ids[ids.len() - 1].0);
    } else {
        assert(ids.take(i) =~= init);
        lemma_state_at_turn(states, ids, results, event, i);
        assert(!(state::state_of(states, ids[i].0) is InProgress));
    }
}

/// No effect of the batch fails, now or when its value was applied before.
pub open spec fn none_fails<E: ?Sized, W>(
    states: Map<Seq<u8>, EffectLastApplied<E, W>>,
    ids: Seq<(Seq<u8>, u128)>,
    results: Seq<Result<(), Arc<E>>>,
) -> bool {
    forall|i: int|
        0 <= i < ids.len() ==> (#[trigger] result_in_batch(states, ids, results, i)) is Ok
}

/// Every effect of one batch occurs in another one, with the same result.
pub open spec fn occurs_in<E: ?Sized>(
    ids: Seq<(Seq<u8>, u128)>,
    results: Seq<Result<(), Arc<E>>>,
    other_ids: Seq<(Seq<u8>, u128)>,
    other_results: Seq<Result<(), Arc<E>>>,
) -> bool {
    forall|i: int|
        #![trigger ids[i]]
        0 <= i < ids.len() ==> exists|j: int|
            0 <= j < other_ids.len() && #[trigger] other_ids[j] == ids[i] && other_results[j]
                == results[i]
}

/// The order in which the effects of a batch are applied does not matter if none of them fails:
/// every key ends up in the same state.
pub proof fn law_order_of_application_does_not_matter<E: ?Sized, W>(
    states: Map<Seq<u8>, EffectLastApplied<E, W>>,
    ids: Seq<(Seq<u8>, u128)>,
    results: Seq<Result<(), Arc<E>>>,
    other_ids: Seq<(Seq<u8>, u128)>,
    other_results: Seq<Result<(), Arc<E>>>,
    event: W,
    key: Seq<u8>,
)
    requires
        distinct_keys(ids),
        distinct_keys(other_ids),
        none_in_flight(states, ids),
        none_fails(states, ids, results),
        occurs_in(ids, results, other_ids, other_results),
        occurs_in(other_ids, other_results, ids, results),
    ensures
        state::state_of(after_batch(states, ids, results, event), key) == state::state_of(
            after_batch(states, other_ids, other_results, event),
            key,
        ),
{
    assert forall|j: int| 0 <= j < other_ids.len() implies !(state::state_of(
        states,
        (#[trigger] other_ids[j]).0,
    ) is InProgress) && result_in_batch(states, other_ids, other_results, j) is Ok by {
        let i = choose|i: int|
            0 <= i < ids.len() && #[trigger] ids[i] == other_ids[j] && results[i]
                == other_results[j];
        assert(!(state::state_of(states, ids[i].0) is InProgress));
        assert(result_in_batch(states, ids, results, i) is Ok);
    }
    if exists|i: int| 0 <= i < ids.len() && (#[trigger] ids[i]).0 == key {
        let i = choose|i: int| 0 <= i < ids.len() && (#[trigger] ids[i]).0 == key;
        let j = choose|j: int|
            0 <= j < other_ids.len() && #[trigger] other_ids[j] == ids[i] && other_results[j]
                == results[i];
        law_batch_stops_at_first_failure(states, ids, results, event, i);
        law_batch_leaves_its_values(states, ids, results, event, i);
        assert(none_in_flight(states, other_ids));
        assert forall|k: int| 0 <= k < other_ids.len() implies (#[trigger] result_in_batch(
            states,
            other_ids,
            other_results,
            k,
        )) is Ok by {
            assert(!(state::state_of(states, other_ids[k].0) is InProgress));
        }
        law_batch_stops_at_first_failure(states, other_ids, other_results, event, j);
        law_batch_leaves_its_values(states, other_ids, other_results, event, j);
    } else {
        assert forall|j: int| 0 <= j < other_ids.len() implies (#[trigger] other_ids[j]).0
            != key by {
            let i = choose|i: int|
                0 <= i < ids.len() && #[trigger] ids[i] == other_ids[j] && results[i]
                    == other_results[j];
            assert(ids[i].0 != key);
        }
        law_other_keys_stay(states, ids, results, event, key);
        law_other_keys_stay(states, other_ids, other_results, event, key);
    }
}

/// When a batch is applied again, its first `len` effects change nothing, and it stops where it
/// stopped before.
proof fn lemma_nothing_to_run<E: ?Sized, W>(
    states: Map<Seq<u8>, EffectLastApplied<E, W>>,
    ids: Seq<(Seq<u8>, u128)>,
    results: Seq<Result<(), Arc<E>>>,
    event: W,
    results_again: Seq<Result<(), Arc<E>>>,
    event_again: W,
    len: int,
)
    requires
        distinct_keys(ids),
        none_in_flight(states, ids),
        0 <= len <= ids.len(),
    ensures
        ({
            let once = after_batch(states, ids, results, event);
            &&& after_batch(once, ids.take(len), results_again, event_again) == once
            &&& batch_failed(once, ids.take(len), results_again, event_again) == batch_failed(
                states,
                ids.take(len),
                results,
                event,
            )
        }),
    decreases len,
{
    if len > 0 {
        let last = len - 1;
        lemma_nothing_to_run(states, ids, results, event, results_again, event_again, last);
        assert(ids.take(len).drop_last() =~= ids.take(last));
        assert(ids.take(len).last() == ids[last]);
        law_batch_leaves_its_values(states, ids, results, event, last);
        lemma_state_at_turn(states, ids, results, event, last);
        assert(!(state::state_of(states, ids[last].0) is InProgress));
    }
}

/// Applying the same effects again runs no side effect and leaves every key as it is, whether the
/// batch succeeded or failed the first time. It stops where it stopped before, and until then each
/// call returns what it returned before.
pub proof fn law_reapplying_changes_nothing<E: ?Sized, W>(
    states: Map<Seq<u8>, EffectLastApplied<E, W>>,
    ids: Seq<(Seq<u8>, u128)>,
    results: Seq<Result<(), Arc<E>>>,
    event: W,
    results_again: Seq<Result<(), Arc<E>>>,
    event_again: W,
)
    requires
        distinct_keys(ids),
        none_in_flight(states, ids),
    ensures
        ({
            let once = after_batch(states, ids, results, event);
            &&& after_batch(once, ids, results_again, event_again) == once
            &&& batch_failed(once, ids, results_again, event_again) == batch_failed(
                states,
                ids,
                results,
                event,
            )
            &&& forall|i: int|
                0 <= i < ids.len() ==> !#[trigger] runs_in_batch(
                    once,
                    ids,
                    results_again,
                    event_again,
                    i,
                )
            &&& forall|i: int|
                0 <= i < ids.len() && reached_in_batch(states, ids, results, event, i) ==> {
                    &&& #[trigger] reached_in_batch(once, ids, results_again, event_again, i)
                    &&& result_in_batch(once, ids, results_again, i) == result_in_batch(
                        states,
                        ids,
                        results,
                        i,
                    )
                }
        }),
{
    let once = after_batch(states, ids, results, event);
    assert(ids.take(ids.len() as int) =~= ids);
    let len = ids.len() as int;
    lemma_nothing_to_run(states, ids, results, event, results_again, event_again, len);
    assert forall|i: int| 0 <= i < ids.len() implies !#[trigger] runs_in_batch(
        once,
        ids,
        results_again,
        event_again,
        i,
    ) by {
        lemma_nothing_to_run(states, ids, results, event, results_again, event_again, i);
        law_batch_leaves_its_values(states, ids, results, event, i);
    }
    assert forall|i: int|
        0 <= i < ids.len() && reached_in_batch(states, ids, results, event, i) implies {
        &&& #[trigger] reached_in_batch(once, ids, results_again, event_again, i)
        &&& result_in_batch(once, ids, results_again, i) == result_in_batch(
            states,
            ids,
            results,
            i,
        )
    } by {
        lemma_nothing_to_run(states, ids, results, event, results_again, event_again, i);
        law_batch_leaves_its_values(states, ids, results, event, i);
    }
}

/// When a producer emits its effects again, exactly the side effects run whose turn comes and whose
/// value changed or is not applied yet. An effect that was applied and is emitted unchanged does
/// not run again, and one that is no longer emitted has no part in it. An effect that was behind a
/// failure the first time counts as new.
pub proof fn law_second_batch_runs_what_changed<E: ?Sized, W>(
    states: Map<Seq<u8>, EffectLastApplied<E, W>>,
    first: Seq<(Seq<u8>, u128)>,
    first_results: Seq<Result<(), Arc<E>>>,
    second: Seq<(Seq<u8>, u128)>,
    second_results: Seq<Result<(), Arc<E>>>,
    event: W,
    i: int,
)
    requires
        distinct_keys(first),
        none_in_flight(states, first),
        distinct_keys(second),
        none_in_flight(states, second),
        0 <= i < second.len(),
    ensures
        ({
            let once = after_batch(states, first, first_results, event);
            let runs = runs_in_batch(once, second, second_results, event, i);
            let reached = reached_in_batch(once, second, second_results, event, i);
            &&& forall|j: int|
                0 <= j < first.len() && (#[trigger] first[j]).0 == second[i].0 && reached_in_batch(
                    states,
                    first,
                    first_results,
                    event,
                    j,
                ) ==> {
                    runs <==> reached && first[j].1 != second[i].1
                }
            &&& (forall|j: int|
                0 <= j < first.len() && (#[trigger] first[j]).0 == second[i].0
                    ==> !reached_in_batch(states, first, first_results, event, j)) ==> {
                runs <==> reached && !state::holds_value(
                    state::state_of(states, second[i].0),
                    second[i].1,
                )
            }
        }),
{
    let once = after_batch(states, first, first_results, event);
    assert forall|k: int| 0 <= k < second.len() implies !(state::state_of(
        once,
        (#[trigger] second[k]).0,
    ) is InProgress) by {
        lemma_state_after_batch(states, first, first_results, event, second[k].0);
    }
    law_batch_runs_what_changed(once, second, second_results, event, i);
    lemma_state_after_batch(states, first, first_results, event, second[i].0);
}

/// The state of any key after a batch.
proof fn lemma_state_after_batch<E: ?Sized, W>(
    states: Map<Seq<u8>, EffectLastApplied<E, W>>,
    ids: Seq<(Seq<u8>, u128)>,
    results: Seq<Result<(), Arc<E>>>,
    event: W,
    key: Seq<u8>,
)
    requires
        distinct_keys(ids),
        none_in_flight(states, ids),
    ensures
        ({
            let after = state::state_of(after_batch(states, ids, results, event), key);
            &&& forall|j: int|
                0 <= j < ids.len() && (#[trigger] ids[j]).0 == key && reached_in_batch(
                    states,
                    ids,
                    results,
                    event,
                    j,
                ) ==> state::holds_value(after, ids[j].1)
            &&& (forall|j: int|
                0 <= j < ids.len() && (#[trigger] ids[j]).0 == key ==> !reached_in_batch(
                    states,
                    ids,
                    results,
                    event,
                    j,
                )) ==> after == state::state_of(states, key)
        }),
{
    if exists|j: int| 0 <= j < ids.len() && (#[trigger] ids[j]).0 == key {
        let j = choose|j: int| 0 <= j < ids.len() && (#[trigger] ids[j]).0 == key;
        law_batch_leaves_its_values(states, ids, results, event, j);
        assert forall|k: int| 0 <= k < ids.len() && (#[trigger] ids[k]).0 == key implies k == j by {
            if k < j {
                assert(ids[k].0 != ids[j].0);
            } else if j < k {
                assert(ids[j].0 != ids[k].0);
            }
        }
    } else {
        law_other_keys_stay(states, ids, results, event, key);
    }
}

/// In the course of a history all effects of a batch were applied: the call for the `i`th effect
/// ended with the access `ends[i]` and returned `outcomes[i]`.
pub open spec fn batch_ended<E: ?Sized, W>(
    system: System<E, W>,
    history: Seq<Access<E, W>>,
    ids: Seq<(Seq<u8>, u128)>,
    ends: Seq<int>,
    outcomes: Seq<Result<(), ApplyOutcome<Arc<E>>>>,
) -> bool {
    &&& ends.len() == ids.len()
    &&& outcomes.len() == ids.len()
    &&& forall|i: int|
        #![trigger ids[i]]
        #![trigger ends[i]]
        #![trigger outcomes[i]]
        0 <= i < ids.len() ==> {
            &&& 0 <= ends[i] < history.len()
            &&& system.at(history, ends[i]).serves(history[ends[i]], ids[i].0, ids[i].1)
            &&& system.at(history, ends[i]).answer(history[ends[i]]) == Some(outcomes[i])
        }
}

/// Applying is idempotent, however callers interleave: once a batch returned `Ok`, every later
/// batch of the same effects returns `Ok` and runs nothing, while callers ask for no other value of
/// their keys.
///
/// `later` is the turn from which on the second batch is at the storage; by then the first one has
/// ended. From there on nobody runs any of the side effects.
pub proof fn law_apply_is_idempotent<E: EffectError + ?Sized, W>(
    system: System<E, W>,
    history: Seq<Access<E, W>>,
    ids: Seq<(Seq<u8>, u128)>,
    ends: Seq<int>,
    outcomes: Seq<Result<(), ApplyOutcome<Arc<E>>>>,
    later: int,
    ends_again: Seq<int>,
    outcomes_again: Seq<Result<(), ApplyOutcome<Arc<E>>>>,
)
    requires
        system.consistent(),
        system.allows_all(history),
        batch_ended(system, history, ids, ends, outcomes),
        effects::batch_result(outcomes) is Ok,
        forall|i: int|
            0 <= i < ids.len() ==> protocol::all_agree_on(
                history.skip(ends[i] + 1),
                (#[trigger] ids[i]).0,
                ids[i].1,
            ),
        later <= history.len(),
        forall|i: int| 0 <= i < ids.len() ==> #[trigger] ends[i] < later,
        batch_ended(system, history, ids, ends_again, outcomes_again),
        forall|i: int| 0 <= i < ids.len() ==> later <= #[trigger] ends_again[i],
    ensures
        effects::batch_result(outcomes_again) is Ok,
        forall|i: int|
            0 <= i < ids.len() ==> system.at(history, later).runs_of(
                history.skip(later),
                (#[trigger] ids[i]).0,
            ) == 0,
{
    effects::law_batch_result(outcomes);
    effects::law_batch_result(outcomes_again);
    assert forall|i: int| 0 <= i < ids.len() implies (#[trigger] outcomes_again[i]) is Ok
        && system.at(history, later).runs_of(history.skip(later), ids[i].0) == 0 by {
        let (key, value_hash) = ids[i];
        assert(outcomes[i] is Ok);
        assert(ends[i] < later <= ends_again[i]);
        protocol::law_later_calls_return_the_same(
            system,
            history,
            key,
            value_hash,
            ends[i],
            ends_again[i],
        );
        protocol::law_result_is_held(system, history, key, value_hash, ends[i], later);
    }
    assert forall|i: int| 0 <= i < ids.len() implies system.at(history, later).runs_of(
        history.skip(later),
        (#[trigger] ids[i]).0,
    ) == 0 by {
        assert(outcomes_again[i] is Ok);
    }
}

} // verus!
