//! Batches of captured effects and their application.

use std::sync::Arc;

use vstd::prelude::*;

use crate::dedup;
use crate::dedup::{build_unique_keys, UniqueKeys};
use crate::effect::{CapturedEffect, Effect, EffectInstance};
use crate::error::{ApplyOutcome, ConflictingEffectError, EffectError, EffectsError};

verus! {

/// How many effects of one batch are in flight at the same time, at most.
pub const APPLY_EFFECTS_CONCURRENCY_LIMIT: usize = 1024;

/// Start capturing emitted effects, each of them once and in their order.
pub fn capture_all<'a, T: Effect>(instances: &'a [EffectInstance<T>]) -> (capturing: Vec<
    T::Capturing<'a>,
>)
    ensures
        capturing@.len() == instances@.len(),
        forall|i: int|
            0 <= i < instances@.len() ==> call_ensures(
                T::capture,
                (&instances@[i].inner,),
                #[trigger] capturing@[i],
            ),
{
    let mut capturing: Vec<T::Capturing<'a>> = Vec::new();
    let mut i: usize = 0;
    while i < instances.len()
        invariant
            i <= instances@.len(),
            capturing@.len() == i,
            forall|j: int|
                0 <= j < i ==> call_ensures(
                    T::capture,
                    (&instances@[j].inner,),
                    #[trigger] capturing@[j],
                ),
        decreases instances@.len() - i,
    {
        capturing.push(instances[i].capture());
        i = i + 1;
    }
    capturing
}

/// Bundle captured effects for later application.
///
/// `captures` holds what capturing the emitted effects gave, in the order of emission. If any of
/// them failed, the first one in that order is the error. `get_invalidator` gives what invalidates
/// the task that emitted the effects; it is called only if no capture failed.
///
/// Per-key conflicts are detected here, from the captured effects alone, and reported when the
/// effects are applied.
pub fn take_effects<C: CapturedEffect, I, A, G: FnOnce() -> I>(
    captures: Vec<Result<C, A>>,
    get_invalidator: G,
) -> (effects: Result<Effects<C, I>, A>)
    requires
        call_requires(get_invalidator, ()),
    ensures
        match effects {
            Ok(effects) => {
                &&& effects.wf()
                &&& effects.captured().len() == captures@.len()
                &&& forall|i: int|
                    0 <= i < captures@.len() ==> #[trigger] captures@[i] == Ok::<C, A>(
                        effects.captured()[i],
                    )
                &&& effects.invalidator() matches Some(invalidator)
                &&& call_ensures(get_invalidator, (), invalidator)
                &&& exists|ids: Seq<(Box<[u8]>, u128)>|
                    #![trigger dedup::are_identities_of(effects.captured(), ids)]
                    dedup::are_identities_of(effects.captured(), ids) && dedup::is_dedup_of(
                        dedup::identities(ids),
                        effects.unique_keys(),
                    )
            },
            Err(err) => exists|i: int|
                {
                    &&& 0 <= i < captures@.len()
                    &&& #[trigger] captures@[i] == Err::<C, A>(err)
                    &&& forall|j: int| 0 <= j < i ==> (#[trigger] captures@[j]) is Ok
                },
        },
{
    let ghost all = captures@;
    let mut captured: Vec<C> = Vec::new();
    for capture in iter: captures
        invariant
            iter.seq() == all,
            captured@.len() == iter.index(),
            forall|i: int| 0 <= i < iter.index() ==> #[trigger] all[i] == Ok::<C, A>(captured@[i]),
    {
        match capture {
            Ok(effect) => {
                captured.push(effect);
            },
            Err(err) => {
                return Err(err);
            },
        }
    }
    let unique_keys = build_unique_keys(captured.as_slice());
    Ok(Effects::new(captured, unique_keys, get_invalidator()))
}

/// Captured effects from an operation, to be applied later.
///
/// `I` invalidates the task that produced the effects.
///
/// Applying is idempotent: the state machine behind
/// [`EffectStateStorage::run_apply`](crate::EffectStateStorage::run_apply) runs each underlying
/// side effect at most once per stored key and value hash.
pub struct Effects<C: CapturedEffect, I> {
    captured: Vec<C>,
    invalidator: Option<I>,
    unique_keys: UniqueKeys,
}

/// Two batches never compare equal, so that whatever holds one is refreshed whenever its producer
/// runs again.
impl<C: CapturedEffect, I> PartialEq for Effects<C, I> {
    fn eq(&self, _other: &Self) -> (res: bool) {
        false
    }
}

impl<C: CapturedEffect, I> vstd::std_specs::cmp::PartialEqSpecImpl for Effects<C, I> {
    open spec fn obeys_eq_spec() -> bool {
        true
    }

    open spec fn eq_spec(&self, _other: &Self) -> bool {
        false
    }
}

impl<C: CapturedEffect, I> Eq for Effects<C, I> {

}

impl<C: CapturedEffect, I> Effects<C, I> {
    /// The captured effects.
    pub closed spec fn captured(self) -> Seq<C> {
        self.captured@
    }

    /// What to invalidate when the effects have to be produced again.
    pub closed spec fn invalidator(self) -> Option<I> {
        self.invalidator
    }

    /// Which of the captured effects to apply, or why none of them can be.
    pub closed spec fn unique_keys(self) -> Result<Seq<usize>, ConflictingEffectError> {
        dedup::unique_keys_view(self.unique_keys)
    }

    /// All effects to apply exist.
    pub open spec fn wf(self) -> bool {
        self.unique_keys() matches Ok(keys) ==> forall|i: int|
            0 <= i < keys.len() ==> #[trigger] keys[i] < self.captured().len()
    }

    /// No effects.
    pub fn empty() -> (effects: Self)
        ensures
            effects.wf(),
            effects.captured() == Seq::<C>::empty(),
            effects.invalidator() is None,
            effects.unique_keys() == Ok::<Seq<usize>, ConflictingEffectError>(Seq::empty()),
    {
        Effects { captured: Vec::new(), invalidator: None, unique_keys: Ok(Vec::new()) }
    }

    /// Bundle captured effects with what is known of their keys.
    pub fn new(captured: Vec<C>, unique_keys: UniqueKeys, invalidator: I) -> (effects: Self)
        requires
            unique_keys matches Ok(keys) ==> forall|i: int|
                0 <= i < keys@.len() ==> #[trigger] keys@[i] < captured@.len(),
        ensures
            effects.wf(),
            effects.captured() == captured@,
            effects.invalidator() == Some(invalidator),
            effects.unique_keys() == dedup::unique_keys_view(unique_keys),
    {
        Effects { captured, invalidator: Some(invalidator), unique_keys }
    }

    /// Start applying all captured effects, one per key.
    ///
    /// Conflicting effects are an error right away and nothing is applied. Otherwise the batch
    /// hands out the applications, which may run in parallel, and takes their outcomes.
    pub fn apply<'a>(&'a self) -> (batch: Result<ApplyBatch<'a, C, I>, EffectsError<C::Error>>)
        requires
            self.wf(),
        ensures
            match (self.unique_keys(), batch) {
                (Ok(_), Ok(batch)) => {
                    &&& batch.wf()
                    &&& batch.effects() == *self
                    &&& batch.started() == 0
                    &&& batch.outcomes() == Seq::<
                        Result<(), ApplyOutcome<Arc<C::Error>>>,
                    >::empty()
                },
                (Err(err), Err(batch)) => batch == EffectsError::<C::Error>::Conflict(err.key_len),
                _ => false,
            },
    {
        match &self.unique_keys {
            Ok(unique) => Ok(
                ApplyBatch {
                    effects: self,
                    unique: unique.as_slice(),
                    started: 0,
                    completed: 0,
                    needs_retry: false,
                    failure: None,
                    outcomes: Ghost(Seq::empty()),
                },
            ),
            Err(err) => Err(EffectsError::Conflict(err.key_len)),
        }
    }

    /// What to return, and what to invalidate if there is anything, when some captured effect
    /// asked for a retry.
    pub fn signal_retry<'a>(&'a self) -> (signal: (
        Result<(), EffectsError<C::Error>>,
        Option<&'a I>,
    ))
        ensures
            signal.0 == Err::<(), EffectsError<C::Error>>(EffectsError::Retry),
            signal.1 == (match self.invalidator() {
                Some(invalidator) => Some(&invalidator),
                None => None,
            }),
    {
        (Err(EffectsError::Retry), self.invalidator.as_ref())
    }
}

/// The first failure among `outcomes`.
pub open spec fn first_failure<E: ?Sized>(
    outcomes: Seq<Result<(), ApplyOutcome<Arc<E>>>>,
) -> Option<Arc<E>>
    decreases outcomes.len(),
{
    if outcomes.len() == 0 {
        None
    } else {
        match (first_failure(outcomes.drop_last()), outcomes.last()) {
            (Some(err), _) => Some(err),
            (None, Err(ApplyOutcome::Failed(err))) => Some(err),
            (None, _) => None,
        }
    }
}

/// The side effect itself failed.
pub open spec fn is_failure<E: ?Sized>(outcome: Result<(), ApplyOutcome<Arc<E>>>) -> bool {
    outcome matches Err(ApplyOutcome::Failed(_))
}

/// The effect has to be captured again.
pub open spec fn is_retry<E: ?Sized>(outcome: Result<(), ApplyOutcome<Arc<E>>>) -> bool {
    outcome matches Err(ApplyOutcome::Retry)
}

/// Some application asked for a retry.
pub open spec fn any_retry<E: ?Sized>(outcomes: Seq<Result<(), ApplyOutcome<Arc<E>>>>) -> bool {
    exists|i: int| 0 <= i < outcomes.len() && is_retry(#[trigger] outcomes[i])
}

/// The result of a batch whose applications ended with `outcomes`, in the order in which they
/// ended: the first failure wins, then a retry.
pub open spec fn batch_result<E: EffectError + ?Sized>(
    outcomes: Seq<Result<(), ApplyOutcome<Arc<E>>>>,
) -> Result<(), EffectsError<E>> {
    match first_failure(outcomes) {
        Some(err) => Err(EffectsError::Apply(err)),
        None => if any_retry(outcomes) {
            Err(EffectsError::Retry)
        } else {
            Ok(())
        },
    }
}

/// A batch of effects while it is being applied.
pub struct ApplyBatch<'a, C: CapturedEffect, I> {
    effects: &'a Effects<C, I>,
    unique: &'a [usize],
    started: usize,
    completed: usize,
    needs_retry: bool,
    failure: Option<Arc<C::Error>>,
    outcomes: Ghost<Seq<Result<(), ApplyOutcome<Arc<C::Error>>>>>,
}

impl<'a, C: CapturedEffect, I> ApplyBatch<'a, C, I> {
    /// The effects being applied.
    pub closed spec fn effects(self) -> Effects<C, I> {
        *self.effects
    }

    /// How many of the effects to apply have been started.
    pub closed spec fn started(self) -> nat {
        self.started as nat
    }

    /// The outcomes so far, in the order in which they came in.
    pub closed spec fn outcomes(self) -> Seq<Result<(), ApplyOutcome<Arc<C::Error>>>> {
        self.outcomes@
    }

    /// Indices of the captured effects to apply.
    pub open spec fn unique(self) -> Seq<usize> {
        self.effects().unique_keys()->Ok_0
    }

    /// How many of the effects that were started have not ended.
    pub open spec fn in_flight(self) -> int {
        self.started() - self.outcomes().len()
    }

    /// The batch keeps track of its outcomes, and does not start more effects than may be in flight
    /// at the same time.
    pub closed spec fn wf(self) -> bool {
        &&& self.effects().wf()
        &&& self.effects().unique_keys() is Ok
        &&& self.unique@ == self.unique()
        &&& self.completed == self.outcomes@.len()
        &&& self.completed <= self.started <= self.unique@.len()
        &&& self.started - self.completed <= APPLY_EFFECTS_CONCURRENCY_LIMIT
        &&& self.failure == first_failure(self.outcomes@)
        &&& self.needs_retry == any_retry(self.outcomes@)
    }

    /// Nothing has failed yet, and some effect that was started has not ended.
    pub open spec fn awaits_outcome(self) -> bool {
        first_failure(self.outcomes()) is None && self.in_flight() > 0
    }

    /// Nothing is left to wait for: an effect failed, or all of them were applied.
    pub open spec fn settled(self) -> bool {
        first_failure(self.outcomes()) is Some || self.outcomes().len() == self.unique().len()
    }

    /// How many effects there are to apply.
    pub fn len(&self) -> (len: usize)
        requires
            self.wf(),
        ensures
            len == self.unique().len(),
    {
        self.unique.len()
    }

    /// Start applying the next one of the effects to apply, until all of them have been started or
    /// one of them failed. While as many of them are in flight as may be, none is started; the next
    /// one can be once an outcome has come in.
    pub fn start_next(&mut self) -> (applying: Option<C::Applying<'a>>)
        requires
            old(self).wf(),
        ensures
            final(self).wf(),
            final(self).effects() == old(self).effects(),
            final(self).outcomes() == old(self).outcomes(),
            0 <= final(self).in_flight() <= APPLY_EFFECTS_CONCURRENCY_LIMIT,
            match applying {
                Some(applying) => {
                    let next = old(self).unique()[old(self).started() as int];
                    &&& first_failure(old(self).outcomes()) is None
                    &&& old(self).started() < old(self).unique().len()
                    &&& old(self).in_flight() < APPLY_EFFECTS_CONCURRENCY_LIMIT
                    &&& next < old(self).effects().captured().len()
                    &&& call_ensures(
                        C::apply,
                        (&old(self).effects().captured()[next as int],),
                        applying,
                    )
                    &&& final(self).started() == old(self).started() + 1
                },
                None => {
                    &&& {
                        ||| first_failure(old(self).outcomes()) is Some
                        ||| old(self).started() == old(self).unique().len()
                        ||| old(self).in_flight() == APPLY_EFFECTS_CONCURRENCY_LIMIT
                    }
                    &&& final(self).started() == old(self).started()
                },
            },
    {
        if self.failure.is_none() && self.started < self.unique.len() && self.started
            - self.completed < APPLY_EFFECTS_CONCURRENCY_LIMIT {
            let next: usize = self.unique[self.started];
            let effects: &'a Effects<C, I> = self.effects;
            let captured: &'a Vec<C> = &effects.captured;
            self.started = self.started + 1;
            Some(captured[next].apply())
        } else {
            None
        }
    }

    /// Whether there is an outcome to wait for.
    pub fn is_awaiting_outcome(&self) -> (awaiting: bool)
        requires
            self.wf(),
        ensures
            awaiting == self.awaits_outcome(),
    {
        self.failure.is_none() && self.completed < self.started
    }

    /// Whether there is nothing left to wait for.
    pub fn is_settled(&self) -> (settled: bool)
        requires
            self.wf(),
        ensures
            settled == self.settled(),
    {
        self.failure.is_some() || self.completed == self.unique.len()
    }

    /// Take the outcome of one application. A failure ends the batch at once; a retry is kept for
    /// the end of the batch.
    pub fn record(&mut self, outcome: Result<(), ApplyOutcome<Arc<C::Error>>>) -> (go_on: Result<
        (),
        EffectsError<C::Error>,
    >)
        requires
            old(self).wf(),
            old(self).awaits_outcome(),
        ensures
            final(self).wf(),
            final(self).effects() == old(self).effects(),
            final(self).started() == old(self).started(),
            final(self).outcomes() == old(self).outcomes().push(outcome),
            go_on == (match outcome {
                Err(ApplyOutcome::Failed(err)) => Err(EffectsError::Apply(err)),
                _ => Ok(()),
            }),
    {
        proof {
            let before = self.outcomes@;
            let after = before.push(outcome);
            assert(after.drop_last() =~= before);
            assert(after.last() == outcome);
            assert forall|i: int| 0 <= i < before.len() implies after[i] == before[i] by {}
            assert(after[before.len() as int] == outcome);
            assert(any_retry(after) == (any_retry(before) || is_retry(outcome)));
        }
        self.completed = self.completed + 1;
        self.outcomes = Ghost(self.outcomes@.push(outcome));
        match outcome {
            Ok(_) => Ok(()),
            Err(ApplyOutcome::Failed(err)) => {
                self.failure = Some(err.clone());
                Err(EffectsError::Apply(err))
            },
            Err(ApplyOutcome::Retry) => {
                self.needs_retry = true;
                Ok(())
            },
        }
    }

    /// The result of the batch, and what to invalidate if there is anything.
    pub fn finish(self) -> (done: (Result<(), EffectsError<C::Error>>, Option<&'a I>))
        requires
            self.wf(),
            self.settled(),
        ensures
            done.0 == batch_result(self.outcomes()),
            done.1 == (match (batch_result(self.outcomes()), self.effects().invalidator()) {
                (Err(EffectsError::Retry), Some(invalidator)) => Some(&invalidator),
                _ => None,
            }),
    {
        match self.failure {
            Some(err) => (Err(EffectsError::Apply(err)), None),
            None => if self.needs_retry {
                self.effects.signal_retry()
            } else {
                (Ok(()), None)
            },
        }
    }
}

/// However far a batch has got, no effect has been started twice or ended before it was started,
/// and only so many are in flight at the same time.
pub proof fn law_in_flight_is_bounded<C: CapturedEffect, I>(batch: ApplyBatch<'_, C, I>)
    requires
        batch.wf(),
    ensures
        0 <= batch.in_flight() <= APPLY_EFFECTS_CONCURRENCY_LIMIT,
        batch.outcomes().len() <= batch.started() <= batch.unique().len(),
{
}

/// A batch has effects to apply, all of which were captured. No more of them have ended than were
/// started, and no more were started than there are; at most 1024 are in flight.
pub proof fn law_batch_keeps_count<C: CapturedEffect, I>(batch: ApplyBatch<'_, C, I>)
    requires
        batch.wf(),
    ensures
        batch.effects().unique_keys() matches Ok(keys) && {
            &&& forall|i: int|
                0 <= i < keys.len() ==> #[trigger] keys[i] < batch.effects().captured().len()
            &&& batch.outcomes().len() <= batch.started() <= keys.len()
            &&& batch.started() <= batch.outcomes().len() + 1024
        },
{
}

/// The first failure is the failure that no other one precedes; there is none only if no
/// application failed.
pub proof fn law_first_failure_wins<E: ?Sized>(outcomes: Seq<Result<(), ApplyOutcome<Arc<E>>>>)
    ensures
        match first_failure(outcomes) {
            Some(err) => exists|i: int|
                {
                    &&& 0 <= i < outcomes.len()
                    &&& #[trigger] outcomes[i] == Err::<(), ApplyOutcome<Arc<E>>>(
                        ApplyOutcome::Failed(err),
                    )
                    &&& forall|j: int| 0 <= j < i ==> !is_failure(#[trigger] outcomes[j])
                },
            None => forall|i: int| 0 <= i < outcomes.len() ==> !is_failure(#[trigger] outcomes[i]),
        },
    decreases outcomes.len(),
{
    if outcomes.len() > 0 {
        let init = outcomes.drop_last();
        law_first_failure_wins(init);
        assert forall|i: int| 0 <= i < init.len() implies init[i] == outcomes[i] by {}
        match first_failure(init) {
            Some(err) => {
                let i = choose|i: int|
                    {
                        &&& 0 <= i < init.len()
                        &&& #[trigger] init[i] == Err::<(), ApplyOutcome<Arc<E>>>(
                            ApplyOutcome::Failed(err),
                        )
                        &&& forall|j: int| 0 <= j < i ==> !is_failure(#[trigger] init[j])
                    };
                assert(outcomes[i] == init[i]);
                assert forall|j: int| 0 <= j < i implies !is_failure(#[trigger] outcomes[j]) by {
                    assert(!is_failure(init[j]));
                }
            },
            None => {
                assert forall|j: int| 0 <= j < init.len() implies !is_failure(
                    #[trigger] outcomes[j],
                ) by {
                    assert(!is_failure(init[j]));
                }
                assert(outcomes[outcomes.len() - 1] == outcomes.last());
            },
        }
    }
}

/// A batch succeeds if and only if every effect was applied, and asks for a retry if and only if
/// some effect did and none failed.
pub proof fn law_batch_result<E: EffectError + ?Sized>(
    outcomes: Seq<Result<(), ApplyOutcome<Arc<E>>>>,
)
    ensures
        batch_result(outcomes) is Ok <==> forall|i: int|
            0 <= i < outcomes.len() ==> (#[trigger] outcomes[i]) is Ok,
        batch_result(outcomes) == Err::<(), EffectsError<E>>(EffectsError::Retry) <==> {
            &&& any_retry(outcomes)
            &&& forall|i: int| 0 <= i < outcomes.len() ==> !is_failure(#[trigger] outcomes[i])
        },
        !(batch_result(outcomes) matches Err(EffectsError::Conflict(_))),
{
    law_first_failure_wins(outcomes);
    if first_failure(outcomes) is None && !any_retry(outcomes) {
        assert forall|i: int| 0 <= i < outcomes.len() implies (#[trigger] outcomes[i]) is Ok by {
            assert(!is_failure(outcomes[i]));
        }
    }
    if first_failure(outcomes) is Some {
        let i = choose|i: int|
            0 <= i < outcomes.len() && is_failure(#[trigger] outcomes[i]);
        assert(is_failure(outcomes[i]));
    }
}

/// The order in which the applications of a batch end matters only for which failure is reported.
pub proof fn law_order_does_not_matter<E: EffectError + ?Sized>(
    one: Seq<Result<(), ApplyOutcome<Arc<E>>>>,
    other: Seq<Result<(), ApplyOutcome<Arc<E>>>>,
)
    requires
        one.to_multiset() == other.to_multiset(),
    ensures
        batch_result(one) == batch_result(other) || (batch_result(one) matches Err(
            EffectsError::Apply(_),
        ) && batch_result(other) matches Err(EffectsError::Apply(_))),
{
    lemma_same_members(one, other);
    lemma_same_members(other, one);
    law_batch_result(one);
    law_batch_result(other);
    law_first_failure_wins(one);
    law_first_failure_wins(other);
    if any_retry(one) {
        let i = choose|i: int| 0 <= i < one.len() && is_retry(#[trigger] one[i]);
        assert(other.contains(one[i]));
    }
    if any_retry(other) {
        let i = choose|i: int| 0 <= i < other.len() && is_retry(#[trigger] other[i]);
        assert(one.contains(other[i]));
    }
    if first_failure(one) is Some {
        let i = choose|i: int| 0 <= i < one.len() && is_failure(#[trigger] one[i]);
        assert(other.contains(one[i]));
    }
    if first_failure(other) is Some {
        let i = choose|i: int| 0 <= i < other.len() && is_failure(#[trigger] other[i]);
        assert(one.contains(other[i]));
    }
}

/// What occurs in one sequence occurs in a rearrangement of it.
proof fn lemma_same_members<T>(one: Seq<T>, other: Seq<T>)
    requires
        one.to_multiset() == other.to_multiset(),
    ensures
        forall|i: int| 0 <= i < one.len() ==> other.contains(#[trigger] one[i]),
{
    broadcast use vstd::seq_lib::group_to_multiset_ensures;

    assert forall|i: int| 0 <= i < one.len() implies other.contains(#[trigger] one[i]) by {
        assert(one.to_multiset().count(one[i]) > 0);
    }
}

} // verus!
