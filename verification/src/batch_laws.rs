//! What the calls of a batch do, stated of the calls themselves.
//!
//! Each law speaks of calls by what went in and what came out. What there is to apply is the list
//! of indices that the effects were bundled with.

use std::sync::Arc;

use vstd::prelude::*;

use crate::dedup::UniqueKeys;
use crate::dedup_laws;
use crate::effect::{CapturedEffect, Effect, EffectInstance};
use crate::effects;
use crate::effects::{
    capture_all, take_effects, ApplyBatch, Effects, APPLY_EFFECTS_CONCURRENCY_LIMIT,
};
use crate::error::{ApplyOutcome, ConflictingEffectError, EffectError, EffectsError};

verus! {

/// Every emitted effect is captured once, in the order of emission.
pub proof fn law_every_effect_is_captured<T: Effect>(
    instances: &[EffectInstance<T>],
    capturing: Vec<T::Capturing<'_>>,
)
    requires
        call_ensures(capture_all::<T>, (instances,), capturing),
    ensures
        call_requires(capture_all::<T>, (instances,)),
        capturing@.len() == instances@.len(),
        forall|i: int|
            0 <= i < instances@.len() ==> call_ensures(
                T::capture,
                (&instances@[i].inner,),
                #[trigger] capturing@[i],
            ),
{
}

/// Bundled effects are those that were handed over, with the indices that were handed over. They
/// can be applied if these are indices of the effects.
pub proof fn law_bundle_keeps_its_parts<C: CapturedEffect, I>(
    captured: Vec<C>,
    unique_keys: UniqueKeys,
    invalidator: I,
    bundle: Effects<C, I>,
)
    requires
        unique_keys matches Ok(keys) ==> forall|i: int|
            0 <= i < keys@.len() ==> #[trigger] keys@[i] < captured@.len(),
        call_ensures(Effects::<C, I>::new, (captured, unique_keys, invalidator), bundle),
    ensures
        call_requires(Effects::<C, I>::new, (captured, unique_keys, invalidator)),
        bundle.captured() == captured@,
        bundle.invalidator() == Some(invalidator),
        unique_keys matches Ok(keys) ==> bundle.unique_keys() == Ok::<
            Seq<usize>,
            ConflictingEffectError,
        >(keys@),
        unique_keys matches Err(err) ==> bundle.unique_keys() == Err::<
            Seq<usize>,
            ConflictingEffectError,
        >(err),
        call_requires(Effects::<C, I>::apply, (&bundle,)),
{
}

/// No effects means nothing captured, nothing to apply and nothing to invalidate.
pub proof fn law_no_effects<C: CapturedEffect, I>(bundle: Effects<C, I>)
    requires
        call_ensures(Effects::<C, I>::empty, (), bundle),
    ensures
        bundle.captured().len() == 0,
        bundle.unique_keys() matches Ok(keys) && keys.len() == 0,
        bundle.invalidator() is None,
        call_requires(Effects::<C, I>::apply, (&bundle,)),
{
}

/// No batch equals another one, nor itself.
pub proof fn law_batches_are_never_equal<C: CapturedEffect, I>(
    one: &Effects<C, I>,
    other: &Effects<C, I>,
    equal: bool,
)
    requires
        call_ensures(<Effects<C, I> as PartialEq>::eq, (one, other), equal),
    ensures
        !equal,
{
}

/// Conflicting effects are not applied: the error gives the length of the key. Other effects are,
/// from the first one to apply on.
pub proof fn law_conflicting_effects_are_not_applied<C: CapturedEffect, I>(
    bundle: &Effects<C, I>,
    batch: Result<ApplyBatch<'_, C, I>, EffectsError<C::Error>>,
)
    requires
        call_ensures(Effects::<C, I>::apply, (bundle,), batch),
    ensures
        batch is Err <==> bundle.unique_keys() is Err,
        bundle.unique_keys() matches Err(err) ==> batch == Err::<
            ApplyBatch<'_, C, I>,
            EffectsError<C::Error>,
        >(EffectsError::Conflict(err.key_len)),
        batch matches Ok(batch) ==> {
            &&& batch.wf()
            &&& batch.effects() == *bundle
            &&& batch.started() == 0
            &&& batch.outcomes().len() == 0
        },
{
}

/// As many effects are to be applied as there are indices.
pub proof fn law_length_is_that_of_the_indices<C: CapturedEffect, I>(
    batch: &ApplyBatch<'_, C, I>,
    len: usize,
)
    requires
        batch.wf(),
        call_ensures(ApplyBatch::<C, I>::len, (batch,), len),
    ensures
        batch.effects().unique_keys() matches Ok(keys) && len == keys.len(),
        call_requires(ApplyBatch::<C, I>::len, (batch,)),
{
    effects::law_batch_keeps_count(*batch);
}

/// The next effect is started if and only if no application has failed, not all of them have been
/// started and fewer than 1024 are in flight. The one that is started is the captured effect that
/// the index behind those already started refers to.
pub proof fn law_effects_start_in_order<'a, C: CapturedEffect, I>(
    batch: &mut ApplyBatch<'a, C, I>,
    applying: Option<C::Applying<'a>>,
)
    requires
        old(batch).wf(),
        call_ensures(ApplyBatch::<'a, C, I>::start_next, (batch,), applying),
    ensures
        call_requires(ApplyBatch::<'a, C, I>::start_next, (batch,)),
        final(batch).wf(),
        final(batch).effects() == old(batch).effects(),
        final(batch).outcomes() == old(batch).outcomes(),
        old(batch).effects().unique_keys() matches Ok(keys) && {
            &&& applying is Some <==> {
                &&& forall|i: int|
                    0 <= i < old(batch).outcomes().len() ==> !((
                    #[trigger] old(batch).outcomes()[i]) matches Err(ApplyOutcome::Failed(_)))
                &&& old(batch).started() < keys.len()
                &&& old(batch).started() - old(batch).outcomes().len() < 1024
            }
            &&& applying matches Some(applying) ==> {
                &&& final(batch).started() == old(batch).started() + 1
                &&& keys[old(batch).started() as int] < old(batch).effects().captured().len()
                &&& call_ensures(
                    C::apply,
                    (&old(batch).effects().captured()[keys[old(batch).started() as int] as int],),
                    applying,
                )
            }
            &&& applying is None ==> final(batch).started() == old(batch).started()
        },
{
    effects::law_batch_keeps_count(*old(batch));
    lemma_failure_or_none(old(batch).outcomes());
}

/// There is an outcome to wait for if and only if no application has failed and fewer have ended
/// than were started.
pub proof fn law_waits_for_what_was_started<C: CapturedEffect, I>(
    batch: &ApplyBatch<'_, C, I>,
    awaiting: bool,
)
    requires
        call_ensures(ApplyBatch::<C, I>::is_awaiting_outcome, (batch,), awaiting),
    ensures
        awaiting <==> {
            &&& forall|i: int|
                0 <= i < batch.outcomes().len() ==> !((#[trigger] batch.outcomes()[i]) matches Err(
                    ApplyOutcome::Failed(_),
                ))
            &&& batch.outcomes().len() < batch.started()
        },
        batch.wf() ==> call_requires(ApplyBatch::<C, I>::is_awaiting_outcome, (batch,)),
{
    lemma_failure_or_none(batch.outcomes());
}

/// A batch is settled if and only if an application failed or as many applications have ended as
/// there are indices.
pub proof fn law_settled_means_failed_or_done<C: CapturedEffect, I>(
    batch: &ApplyBatch<'_, C, I>,
    settled: bool,
)
    requires
        batch.wf(),
        call_ensures(ApplyBatch::<C, I>::is_settled, (batch,), settled),
    ensures
        call_requires(ApplyBatch::<C, I>::is_settled, (batch,)),
        batch.effects().unique_keys() matches Ok(keys) && (settled <==> {
            ||| exists|i: int|
                0 <= i < batch.outcomes().len() && ((#[trigger] batch.outcomes()[i]) matches Err(
                    ApplyOutcome::Failed(_),
                ))
            ||| batch.outcomes().len() == keys.len()
        }),
{
    effects::law_batch_keeps_count(*batch);
    lemma_failure_or_none(batch.outcomes());
}

/// A batch that is settled without a failure has started and ended as many applications as there
/// are indices.
pub proof fn law_settled_batch_applied_all<C: CapturedEffect, I>(batch: &ApplyBatch<'_, C, I>)
    requires
        batch.wf(),
        call_ensures(ApplyBatch::<C, I>::is_settled, (batch,), true),
        forall|i: int|
            0 <= i < batch.outcomes().len() ==> !((#[trigger] batch.outcomes()[i]) matches Err(
                ApplyOutcome::Failed(_),
            )),
    ensures
        batch.effects().unique_keys() matches Ok(keys) && batch.started() == keys.len()
            && batch.outcomes().len() == keys.len(),
{
    effects::law_batch_keeps_count(*batch);
    law_settled_means_failed_or_done(batch, true);
}

/// An unsettled batch is never stuck: it waits for an outcome, or it can start another effect.
pub proof fn law_batch_is_never_stuck<'a, C: CapturedEffect, I>(
    batch: &mut ApplyBatch<'a, C, I>,
    awaiting: bool,
    applying: Option<C::Applying<'a>>,
)
    requires
        old(batch).wf(),
        call_ensures(ApplyBatch::<'a, C, I>::is_settled, (&*old(batch),), false),
        call_ensures(ApplyBatch::<'a, C, I>::is_awaiting_outcome, (&*old(batch),), awaiting),
        call_ensures(ApplyBatch::<'a, C, I>::start_next, (batch,), applying),
    ensures
        awaiting || applying is Some,
{
    effects::law_batch_keeps_count(*old(batch));
    law_settled_means_failed_or_done(&*old(batch), false);
    law_waits_for_what_was_started(&*old(batch), awaiting);
    law_effects_start_in_order(batch, applying);
}

/// An outcome that comes in is added to those before it. The batch goes on unless it is a failure,
/// which is handed back.
pub proof fn law_outcomes_add_up<'a, C: CapturedEffect, I>(
    batch: &mut ApplyBatch<'a, C, I>,
    outcome: Result<(), ApplyOutcome<Arc<C::Error>>>,
    go_on: Result<(), EffectsError<C::Error>>,
)
    requires
        call_ensures(ApplyBatch::<'a, C, I>::record, (batch, outcome), go_on),
    ensures
        final(batch).effects() == old(batch).effects(),
        final(batch).started() == old(batch).started(),
        final(batch).outcomes() == old(batch).outcomes().push(outcome),
        outcome matches Err(ApplyOutcome::Failed(err)) ==> go_on == Err::<
            (),
            EffectsError<C::Error>,
        >(EffectsError::Apply(err)),
        !(outcome matches Err(ApplyOutcome::Failed(_))) ==> go_on is Ok,
        final(batch).wf(),
        old(batch).wf() && old(batch).outcomes().len() < old(batch).started() && (forall|i: int|
            0 <= i < old(batch).outcomes().len() ==> !((
            #[trigger] old(batch).outcomes()[i]) matches Err(ApplyOutcome::Failed(_))))
            ==> call_requires(ApplyBatch::<'a, C, I>::record, (batch, outcome)),
{
    lemma_failure_or_none(old(batch).outcomes());
}

/// The next two effects to be started are those of two consecutive indices, whatever outcome comes
/// in between.
pub proof fn law_no_effect_is_skipped<'a, C: CapturedEffect, I>(
    one: &mut ApplyBatch<'a, C, I>,
    first: C::Applying<'a>,
    between: &mut ApplyBatch<'a, C, I>,
    outcome: Result<(), ApplyOutcome<Arc<C::Error>>>,
    go_on: Result<(), EffectsError<C::Error>>,
    two: &mut ApplyBatch<'a, C, I>,
    second: C::Applying<'a>,
)
    requires
        old(one).wf(),
        call_ensures(ApplyBatch::<'a, C, I>::start_next, (one,), Some(first)),
        *old(between) == *final(one),
        call_ensures(ApplyBatch::<'a, C, I>::record, (between, outcome), go_on),
        *old(two) == *final(between),
        call_ensures(ApplyBatch::<'a, C, I>::start_next, (two,), Some(second)),
    ensures
        old(one).effects().unique_keys() matches Ok(keys) && {
            let k = old(one).started() as int;
            let captured = old(one).effects().captured();
            &&& k + 1 < keys.len()
            &&& call_ensures(C::apply, (&captured[keys[k] as int],), first)
            &&& call_ensures(C::apply, (&captured[keys[k + 1] as int],), second)
        },
{
    law_effects_start_in_order(one, Some(first));
    law_outcomes_add_up(between, outcome, go_on);
    law_effects_start_in_order(two, Some(second));
}

/// The result of a batch: the failure that came in first if there is one, else a retry if some
/// effect asked for one, else success. Only a retry invalidates anything, if there is anything to
/// invalidate.
pub proof fn law_batch_result_by_outcomes<'a, C: CapturedEffect, I>(
    batch: ApplyBatch<'a, C, I>,
    done: (Result<(), EffectsError<C::Error>>, Option<&'a I>),
)
    requires
        call_ensures(ApplyBatch::<'a, C, I>::finish, (batch,), done),
    ensures
        done.0 is Ok <==> forall|i: int|
            0 <= i < batch.outcomes().len() ==> (#[trigger] batch.outcomes()[i]) is Ok,
        done.0 == Err::<(), EffectsError<C::Error>>(EffectsError::Retry) <==> {
            &&& exists|i: int|
                0 <= i < batch.outcomes().len() && ((#[trigger] batch.outcomes()[i]) matches Err(
                    ApplyOutcome::Retry,
                ))
            &&& forall|i: int|
                0 <= i < batch.outcomes().len() ==> !((#[trigger] batch.outcomes()[i]) matches Err(
                    ApplyOutcome::Failed(_),
                ))
        },
        forall|i: int|
            0 <= i < batch.outcomes().len() && (forall|j: int|
                0 <= j < i ==> !((#[trigger] batch.outcomes()[j]) matches Err(
                    ApplyOutcome::Failed(_),
                ))) ==> ((#[trigger] batch.outcomes()[i]) matches Err(ApplyOutcome::Failed(err))
                ==> done.0 == Err::<(), EffectsError<C::Error>>(EffectsError::Apply(err))),
        !(done.0 matches Err(EffectsError::Conflict(_))),
        done.0 == Err::<(), EffectsError<C::Error>>(EffectsError::Retry) && (
        batch.effects().invalidator() matches Some(_)) ==> done.1 == Some(
            &batch.effects().invalidator()->0,
        ),
        done.0 != Err::<(), EffectsError<C::Error>>(EffectsError::Retry)
            || batch.effects().invalidator() is None ==> done.1 is None,
{
    let outcomes = batch.outcomes();
    lemma_failure_or_none(outcomes);
    effects::law_first_failure_wins(outcomes);
    effects::law_batch_result(outcomes);
    if effects::any_retry(outcomes) {
        let i = choose|i: int|
            0 <= i < outcomes.len() && effects::is_retry(#[trigger] outcomes[i]);
        assert(outcomes[i] matches Err(ApplyOutcome::Retry));
    } else {
        assert forall|i: int| 0 <= i < outcomes.len() implies !((
        #[trigger] outcomes[i]) matches Err(ApplyOutcome::Retry)) by {
            assert(!effects::is_retry(outcomes[i]));
        }
    }
    assert forall|i: int|
        0 <= i < outcomes.len() && (forall|j: int|
            0 <= j < i ==> !((#[trigger] outcomes[j]) matches Err(
                ApplyOutcome::Failed(_),
            ))) && ((#[trigger] outcomes[i]) matches Err(ApplyOutcome::Failed(_))) implies done.0
        == Err::<(), EffectsError<C::Error>>(
        EffectsError::Apply(outcomes[i]->Err_0->Failed_0),
    ) by {
        assert(effects::is_failure(outcomes[i]));
        let first = effects::first_failure(outcomes)->0;
        let k = choose|k: int|
            {
                &&& 0 <= k < outcomes.len()
                &&& #[trigger] outcomes[k] == Err::<(), ApplyOutcome<Arc<C::Error>>>(
                    ApplyOutcome::Failed(first),
                )
                &&& forall|j: int| 0 <= j < k ==> !effects::is_failure(#[trigger] outcomes[j])
            };
        if i < k {
            assert(!effects::is_failure(outcomes[i]));
        }
        if k < i {
            assert(!(outcomes[k] matches Err(ApplyOutcome::Failed(_))));
        }
    }
}

/// A settled batch can be brought to an end.
pub proof fn law_settled_batch_can_finish<'a, C: CapturedEffect, I>(batch: ApplyBatch<'a, C, I>)
    requires
        batch.wf(),
        call_ensures(ApplyBatch::<'a, C, I>::is_settled, (&batch,), true),
    ensures
        call_requires(ApplyBatch::<'a, C, I>::finish, (batch,)),
{
}

/// A retry is signalled by the error for it and by what there is to invalidate.
pub proof fn law_retry_is_signalled<'a, C: CapturedEffect, I>(
    bundle: &'a Effects<C, I>,
    signal: (Result<(), EffectsError<C::Error>>, Option<&'a I>),
)
    requires
        call_ensures(Effects::<C, I>::signal_retry, (bundle,), signal),
    ensures
        call_requires(Effects::<C, I>::signal_retry, (bundle,)),
        signal.0 == Err::<(), EffectsError<C::Error>>(EffectsError::Retry),
        signal.1 is Some <==> bundle.invalidator() is Some,
        signal.1 matches Some(invalidator) ==> bundle.invalidator() == Some(*invalidator),
{
}

/// Up to 1024 effects may be in flight at the same time.
pub proof fn law_limit_of_effects_in_flight()
    ensures
        APPLY_EFFECTS_CONCURRENCY_LIMIT == 1024,
{
}

/// When a batch of taken effects is settled without a failure, the captured effect `idx`, whichever
/// it is, was applied, by itself or by another one that gave the same key and the same value hash.
/// Returns the keys and value hashes that the captured effects gave.
pub proof fn law_settled_batch_covers_every_effect<
    C: CapturedEffect,
    I,
    A,
    G: FnOnce() -> I,
>(
    captures: Vec<Result<C, A>>,
    get_invalidator: G,
    bundle: Effects<C, I>,
    batch: &ApplyBatch<'_, C, I>,
    idx: int,
) -> (ids: Seq<(Box<[u8]>, u128)>)
    requires
        call_ensures(take_effects::<C, I, A, G>, (captures, get_invalidator), Ok(bundle)),
        batch.wf(),
        batch.effects() == bundle,
        call_ensures(ApplyBatch::<C, I>::is_settled, (batch,), true),
        forall|i: int|
            0 <= i < batch.outcomes().len() ==> !((#[trigger] batch.outcomes()[i]) matches Err(
                ApplyOutcome::Failed(_),
            )),
        0 <= idx < captures@.len(),
    ensures
        ids.len() == captures@.len(),
        forall|i: int|
            0 <= i < ids.len() ==> (captures@[i] matches Ok(effect) && call_ensures(
                C::key,
                (&effect,),
                (#[trigger] ids[i]).0,
            ) && call_ensures(C::value_hash, (&effect,), ids[i].1)),
        bundle.unique_keys() matches Ok(keys) && exists|k: int|
            0 <= k < batch.started() && ids[(#[trigger] keys[k]) as int].0@ == ids[idx].0@
                && ids[keys[k] as int].1 == ids[idx].1,
{
    let taken = Ok::<Effects<C, I>, A>(bundle);
    let ids = dedup_laws::law_taken_effects_are_those_captured(captures, get_invalidator, taken);
    law_settled_batch_applied_all(batch);
    let keys = bundle.unique_keys()->Ok_0;
    assert forall|i: int| 0 <= i < ids.len() implies (captures@[i] matches Ok(effect)
        && call_ensures(C::key, (&effect,), (#[trigger] ids[i]).0) && call_ensures(
        C::value_hash,
        (&effect,),
        ids[i].1,
    )) by {
        assert(captures@[i] == Ok::<C, A>(bundle.captured()[i]));
    }
    assert(captures@.len() == captures.len());
    lemma_listed_with_same_key(ids, keys, idx);
    ids
}

/// For every effect one with the same key and value hash is listed.
proof fn lemma_listed_with_same_key(ids: Seq<(Box<[u8]>, u128)>, keys: Seq<usize>, idx: int)
    requires
        ids.len() <= usize::MAX,
        0 <= idx < ids.len(),
        forall|i: int, j: int|
            0 <= i < j < ids.len() && (#[trigger] ids[i]).0@ == (#[trigger] ids[j]).0@ ==> ids[i].1
                == ids[j].1,
        forall|idx: usize|
            idx < ids.len() && (forall|earlier: int|
                0 <= earlier < idx ==> (#[trigger] ids[earlier]).0@ != ids[idx as int].0@)
                ==> #[trigger] keys.contains(idx),
    ensures
        exists|k: int|
            0 <= k < keys.len() && ids[(#[trigger] keys[k]) as int].0@ == ids[idx].0@
                && ids[keys[k] as int].1 == ids[idx].1,
    decreases idx,
{
    if forall|earlier: int| 0 <= earlier < idx ==> (#[trigger] ids[earlier]).0@ != ids[idx].0@ {
        assert(keys.contains(idx as usize));
        let k = choose|k: int| 0 <= k < keys.len() && keys[k] == idx as usize;
        assert(ids[keys[k] as int] == ids[idx]);
    } else {
        let earlier = choose|earlier: int|
            0 <= earlier < idx && (#[trigger] ids[earlier]).0@ == ids[idx].0@;
        lemma_listed_with_same_key(ids, keys, earlier);
    }
}

/// There is a first failure if and only if some application failed.
proof fn lemma_failure_or_none<E: ?Sized>(outcomes: Seq<Result<(), ApplyOutcome<Arc<E>>>>)
    ensures
        effects::first_failure(outcomes) is None <==> forall|i: int|
            0 <= i < outcomes.len() ==> !((#[trigger] outcomes[i]) matches Err(
                ApplyOutcome::Failed(_),
            )),
{
    effects::law_first_failure_wins(outcomes);
    if effects::first_failure(outcomes) is None {
        assert forall|i: int| 0 <= i < outcomes.len() implies !((
        #[trigger] outcomes[i]) matches Err(ApplyOutcome::Failed(_))) by {
            assert(!effects::is_failure(outcomes[i]));
        }
    } else {
        let err = effects::first_failure(outcomes)->0;
        let i = choose|i: int|
            {
                &&& 0 <= i < outcomes.len()
                &&& #[trigger] outcomes[i] == Err::<(), ApplyOutcome<Arc<E>>>(
                    ApplyOutcome::Failed(err),
                )
                &&& forall|j: int| 0 <= j < i ==> !effects::is_failure(#[trigger] outcomes[j])
            };
        assert(outcomes[i] matches Err(ApplyOutcome::Failed(_)));
    }
}

} // verus!
