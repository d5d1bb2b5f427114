//! Effects as their producers emit them, and the form in which they are applied.

use std::future::Future;
use std::sync::Arc;

use vstd::prelude::*;

use crate::error::{ApplyOutcome, EffectError};

verus! {

/// Emit-time effect.
///
/// [`Effect::capture`] resolves whatever data the side effect needs and returns a
/// [`CapturedEffect`] that holds only the resolved data. The captured value is what is kept in
/// [`Effects`](crate::Effects) and what eventually drives the side effect.
pub trait Effect: Send + Sync + 'static {
    /// The pre-resolved companion that performs the side effect.
    type Captured: CapturedEffect;

    /// Why an effect could not be captured.
    type Error;

    /// A capture under way.
    type Capturing<'a>: Future<Output = Result<Self::Captured, Self::Error>> + Send;

    /// Resolve any data needed for [`CapturedEffect::apply`].
    fn capture<'a>(&'a self) -> Self::Capturing<'a>;
}

/// Post-capture effect. Holds only pre-resolved data and performs the actual side effect.
///
/// `apply` is responsible for going through
/// [`EffectStateStorage::run_apply`](crate::EffectStateStorage::run_apply), which handles the
/// per-key state machine. An implementation may elide its content when
/// [`EffectStateStorage::matches_applied`](crate::EffectStateStorage::matches_applied) holds at
/// capture time; it then has nothing to apply, and must report [`ApplyOutcome::Retry`] when the
/// state machine asks for an actual apply.
pub trait CapturedEffect: Send + Sync + 'static {
    /// What the side effect fails with. Usually `dyn EffectError`, since results are cached across
    /// all effects that write to the same key.
    type Error: EffectError + ?Sized;

    /// An application under way.
    type Applying<'a>: Future<Output = Result<(), ApplyOutcome<Arc<Self::Error>>>> + Send;

    /// Unique key identifying this effect's target (e.g., absolute path bytes).
    fn key(&self) -> Box<[u8]>;

    /// Hash of the value part of this effect for comparison.
    fn value_hash(&self) -> u128;

    /// Perform the side effect, routing through the per-key state machine.
    fn apply<'a>(&'a self) -> Self::Applying<'a>;
}

/// One emission of an effect.
pub struct EffectInstance<T> {
    pub inner: T,
}

impl<T: Effect> EffectInstance<T> {
    pub fn new(effect: T) -> (instance: Self)
        ensures
            instance.inner == effect,
    {
        EffectInstance { inner: effect }
    }

    /// Start capturing the emitted effect.
    pub fn capture<'a>(&'a self) -> (capturing: T::Capturing<'a>)
        ensures
            call_ensures(T::capture, (&self.inner,), capturing),
    {
        self.inner.capture()
    }
}

/// The effects that a task emitted and nobody has taken yet, in the order of emission.
pub struct EffectCollectibles<T> {
    emitted: Vec<EffectInstance<T>>,
}

impl<T> View for EffectCollectibles<T> {
    type V = Seq<EffectInstance<T>>;

    closed spec fn view(&self) -> Seq<EffectInstance<T>> {
        self.emitted@
    }
}

impl<T: Effect> EffectCollectibles<T> {
    /// No effects.
    pub fn new() -> (collectibles: Self)
        ensures
            collectibles@ == Seq::<EffectInstance<T>>::empty(),
    {
        EffectCollectibles { emitted: Vec::new() }
    }

    /// Take all emitted effects; none stay behind.
    pub fn take_collectibles(&mut self) -> (taken: Vec<EffectInstance<T>>)
        ensures
            taken@ == old(self)@,
            final(self)@ == Seq::<EffectInstance<T>>::empty(),
    {
        let mut taken = Vec::new();
        std::mem::swap(&mut taken, &mut self.emitted);
        taken
    }
}

/// Emits an effect to be applied. The effect is executed once
/// [`Effects::apply`](crate::Effects::apply) is called (see
/// [`take_effects`](crate::take_effects)).
///
/// Effects are executed in parallel, and the order of execution of multiple effects is not
/// defined.
pub fn emit_effect<T: Effect>(collectibles: &mut EffectCollectibles<T>, effect: T)
    ensures
        final(collectibles)@ == old(collectibles)@.push(EffectInstance { inner: effect }),
{
    collectibles.emitted.push(EffectInstance::new(effect));
}

/// What was emitted is what is taken, in the order of emission and behind what was emitted before;
/// after that there is nothing left to take.
pub proof fn law_emitted_effects_are_taken_once<T: Effect>(
    emitted: &mut EffectCollectibles<T>,
    one: T,
    emitted_again: &mut EffectCollectibles<T>,
    other: T,
    taken_from: &mut EffectCollectibles<T>,
    taken: Vec<EffectInstance<T>>,
    taken_again_from: &mut EffectCollectibles<T>,
    taken_again: Vec<EffectInstance<T>>,
)
    requires
        call_ensures(emit_effect::<T>, (emitted, one), ()),
        *old(emitted_again) == *final(emitted),
        call_ensures(emit_effect::<T>, (emitted_again, other), ()),
        *old(taken_from) == *final(emitted_again),
        call_ensures(EffectCollectibles::<T>::take_collectibles, (taken_from,), taken),
        *old(taken_again_from) == *final(taken_from),
        call_ensures(
            EffectCollectibles::<T>::take_collectibles,
            (taken_again_from,),
            taken_again,
        ),
    ensures
        taken@.len() == old(emitted)@.len() + 2,
        forall|i: int| 0 <= i < old(emitted)@.len() ==> #[trigger] taken@[i] == old(emitted)@[i],
        taken@[old(emitted)@.len() as int].inner == one,
        taken@[old(emitted)@.len() as int + 1].inner == other,
        taken_again@.len() == 0,
        call_requires(emit_effect::<T>, (emitted, one)),
        call_requires(EffectCollectibles::<T>::take_collectibles, (taken_from,)),
{
}

/// Nothing can be taken before anything was emitted.
pub proof fn law_nothing_is_emitted_at_first<T: Effect>(
    new: EffectCollectibles<T>,
    taken_from: &mut EffectCollectibles<T>,
    taken: Vec<EffectInstance<T>>,
)
    requires
        call_ensures(EffectCollectibles::<T>::new, (), new),
        *old(taken_from) == new,
        call_ensures(EffectCollectibles::<T>::take_collectibles, (taken_from,), taken),
    ensures
        taken@.len() == 0,
{
}

/// To capture an emission is to capture the effect that was emitted.
pub proof fn law_emission_captures_its_effect<T: Effect>(
    effect: T,
    instance: EffectInstance<T>,
    capturing: T::Capturing<'_>,
)
    requires
        call_ensures(EffectInstance::<T>::new, (effect,), instance),
        call_ensures(EffectInstance::<T>::capture, (&instance,), capturing),
    ensures
        instance.inner == effect,
        call_ensures(T::capture, (&effect,), capturing),
        call_requires(EffectInstance::<T>::new, (effect,)),
        call_requires(EffectInstance::<T>::capture, (&instance,)),
{
}

} // verus!
