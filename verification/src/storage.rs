//! Shared state that decides, per key, whether an effect still has to run.

use std::mem::swap;
use std::sync::Arc;

use rustc_hash::FxHashMap;
use vstd::prelude::*;

use crate::error::ApplyOutcome;
use crate::key_slots;
use crate::key_slots::{empty_slots, get_slot, insert_slot};
use crate::state;
use crate::state::{Decision, EffectLastApplied};

verus! {

/// Handle on the state of one key. Entries are never removed, so a handle stays good for as long
/// as its storage lives.
pub struct EffectStateEntry {
    slot: usize,
    key: Ghost<Seq<u8>>,
}

impl EffectStateEntry {
    /// The key that this handle stands for.
    pub closed spec fn key(self) -> Seq<u8> {
        self.key@
    }
}

/// One caller's request to apply an effect, while it may still have to wait its turn.
///
/// `body` performs the side effect; it is `None` when the content was elided at capture time.
pub struct ApplyRun<F> {
    pub entry: EffectStateEntry,
    pub value_hash: u128,
    pub body: Option<F>,
}

/// Held by the one caller whose application of a key is in flight. It has to be given back with
/// [`EffectStateStorage::finish_apply`] or [`EffectStateStorage::abort_apply`].
pub struct EventGuard {
    entry: EffectStateEntry,
    value_hash: u128,
}

impl EventGuard {
    /// Handle on the state of the key being applied.
    pub closed spec fn spec_entry(self) -> EffectStateEntry {
        self.entry
    }

    /// The key being applied.
    pub open spec fn key(self) -> Seq<u8> {
        self.spec_entry().key()
    }

    /// The hash of the value being applied.
    pub closed spec fn value_hash(self) -> u128 {
        self.value_hash
    }

    /// Handle on the state of the key being applied.
    pub fn entry(&self) -> (entry: &EffectStateEntry)
        ensures
            *entry == self.spec_entry(),
    {
        &self.entry
    }
}

/// What a caller of [`EffectStateStorage::run_apply`] has to do next.
pub enum ApplyStep<E: ?Sized, F> {
    /// Another application of the same key is in flight. Register with
    /// [`EffectStateStorage::write_event`] before anyone else gets at the storage, wait, then call
    /// [`EffectStateStorage::resume_apply`].
    Wait(ApplyRun<F>),
    /// Perform the side effect, then give the guard back.
    RunBody(F, EventGuard),
    /// Done.
    Return(Result<(), ApplyOutcome<Arc<E>>>),
}

/// Shared state storage for tracking applied effects, one entry per key.
pub struct EffectStateStorage<E: ?Sized, W> {
    effect_state: FxHashMap<Box<[u8]>, usize>,
    entries: Vec<EffectLastApplied<E, W>>,
}

impl<E: ?Sized, W> View for EffectStateStorage<E, W> {
    type V = Map<Seq<u8>, EffectLastApplied<E, W>>;

    closed spec fn view(&self) -> Map<Seq<u8>, EffectLastApplied<E, W>> {
        Map::new(
            |key: Seq<u8>| key_slots::key_slots(self.effect_state).contains_key(key),
            |key: Seq<u8>| self.entries@[key_slots::key_slots(self.effect_state)[key] as int],
        )
    }
}

impl<E: ?Sized, W> EffectStateStorage<E, W> {
    /// Every key has a slot of its own.
    pub closed spec fn wf(self) -> bool {
        let slots = key_slots::key_slots(self.effect_state);
        &&& forall|key: Seq<u8>| #[trigger]
            slots.contains_key(key) ==> slots[key] < self.entries@.len()
        &&& forall|key1: Seq<u8>, key2: Seq<u8>|
            #[trigger] slots.contains_key(key1) && #[trigger] slots.contains_key(key2)
                && slots[key1] == slots[key2] ==> key1 == key2
    }

    /// `entry` is a handle on a key of this storage.
    pub closed spec fn has_entry(self, entry: EffectStateEntry) -> bool {
        let slots = key_slots::key_slots(self.effect_state);
        slots.contains_key(entry.key@) && slots[entry.key@] == entry.slot
    }

    /// All handles on `before` are good for `self`.
    pub open spec fn keeps_entries(self, before: Self) -> bool {
        forall|entry: EffectStateEntry| #[trigger]
            before.has_entry(entry) ==> self.has_entry(entry)
    }

    /// Whether `key` holds a successful application of exactly the value `target`.
    ///
    /// An effect whose target is already up to date need not materialize its content when it is
    /// captured. The state is looked at again when the effect is applied, so a change in between
    /// shows as a retry.
    pub fn matches_applied(&self, key: &[u8], target: u128) -> (matches: bool)
        requires
            self.wf(),
        ensures
            matches == state::is_applied(state::state_of(self@, key@), target),
    {
        match get_slot(&self.effect_state, key) {
            Some(slot) => match &self.entries[*slot] {
                EffectLastApplied::Applied { value_hash, result: Ok(_) } => *value_hash == target,
                _ => false,
            },
            None => false,
        }
    }

    /// Look up or create the per-key state entry.
    pub fn entry_for(&mut self, key: Box<[u8]>) -> (entry: EffectStateEntry)
        requires
            old(self).wf(),
        ensures
            final(self).wf(),
            entry.key() == key@,
            final(self).has_entry(entry),
            final(self).keeps_entries(*old(self)),
            final(self)@ == state::with_entry(old(self)@, key@),
    {
        let ghost bytes = key@;
        match get_slot(&self.effect_state, &key) {
            Some(slot) => {
                assert(self@ =~= state::with_entry(old(self)@, bytes));
                EffectStateEntry { slot: *slot, key: Ghost(bytes) }
            },
            None => {
                let slot: usize = self.entries.len();
                self.entries.push(EffectLastApplied::Unapplied);
                insert_slot(&mut self.effect_state, key, slot);
                assert(self@ =~= old(self)@.insert(bytes, EffectLastApplied::Unapplied));
                EffectStateEntry { slot, key: Ghost(bytes) }
            },
        }
    }

    /// Coordinate an apply for `(key, value_hash)` against the per-key state machine.
    ///
    /// If the same value was applied before, its result comes back and `body` is not run. Otherwise
    /// the entry goes over to in-progress, with `event` as the event that others wait on, and the
    /// caller gets `body` back to run it. If an apply for the same key is already in flight the
    /// caller has to wait for it.
    ///
    /// Without a `body` there is nothing to apply: a state that does not match forces a retry, and
    /// the entry is left unapplied.
    pub fn run_apply<F>(
        &mut self,
        key: Box<[u8]>,
        value_hash: u128,
        body: Option<F>,
        event: W,
    ) -> (step: ApplyStep<E, F>)
        requires
            old(self).wf(),
        ensures
            final(self).wf(),
            final(self).keeps_entries(*old(self)),
            final(self)@ == state::after_run(old(self)@, key@, value_hash, body is Some, event),
            match state::decide(state::state_of(old(self)@, key@), value_hash, body is Some) {
                Decision::Wait => {
                    &&& step matches ApplyStep::Wait(run)
                    &&& run.entry.key() == key@
                    &&& run.value_hash == value_hash
                    &&& run.body == body
                    &&& final(self).has_entry(run.entry)
                },
                Decision::Cached(result) => step == ApplyStep::<E, F>::Return(
                    state::outcome_of(result),
                ),
                Decision::Run => {
                    &&& step matches ApplyStep::RunBody(run, guard)
                    &&& Some(run) == body
                    &&& guard.key() == key@
                    &&& guard.value_hash() == value_hash
                    &&& final(self).has_entry(guard.spec_entry())
                },
                Decision::Recapture => step == ApplyStep::<E, F>::Return(Err(ApplyOutcome::Retry)),
            },
    {
        let ghost bytes = key@;
        let entry = self.entry_for(key);
        proof {
            let has_body = body is Some;
            assert(state::after_run(self@, bytes, value_hash, has_body, event)
                =~= state::after_run(old(self)@, bytes, value_hash, has_body, event));
        }
        self.resume_apply(ApplyRun { entry, value_hash, body }, event)
    }

    /// Look again at the entry of a call that was told to wait.
    pub fn resume_apply<F>(&mut self, run: ApplyRun<F>, event: W) -> (step: ApplyStep<E, F>)
        requires
            old(self).wf(),
            old(self).has_entry(run.entry),
        ensures
            final(self).wf(),
            final(self).keeps_entries(*old(self)),
            old(self)@.contains_key(run.entry.key()),
            final(self)@ == state::after_run(
                old(self)@,
                run.entry.key(),
                run.value_hash,
                run.body is Some,
                event,
            ),
            match state::decide(old(self)@[run.entry.key()], run.value_hash, run.body is Some) {
                Decision::Wait => step == ApplyStep::<E, F>::Wait(run),
                Decision::Cached(result) => step == ApplyStep::<E, F>::Return(
                    state::outcome_of(result),
                ),
                Decision::Run => {
                    &&& step matches ApplyStep::RunBody(body, guard)
                    &&& Some(body) == run.body
                    &&& guard.key() == run.entry.key()
                    &&& guard.value_hash() == run.value_hash
                    &&& final(self).has_entry(guard.spec_entry())
                },
                Decision::Recapture => step == ApplyStep::<E, F>::Return(Err(ApplyOutcome::Retry)),
            },
    {
        let slot: usize = run.entry.slot;
        let ghost key = run.entry.key();
        match &self.entries[slot] {
            EffectLastApplied::Unapplied => {},
            EffectLastApplied::Applied { value_hash: stored, result } => {
                if *stored == run.value_hash {
                    return ApplyStep::Return(cached_outcome(result));
                }
            },
            EffectLastApplied::InProgress { .. } => {
                return ApplyStep::Wait(run);
            },
        }
        match run.body {
            Some(body) => {
                self.entries[slot] = EffectLastApplied::InProgress { write_event: event };
                assert(self@ =~= old(self)@.insert(
                    key,
                    EffectLastApplied::InProgress { write_event: event },
                ));
                let guard = EventGuard { entry: run.entry, value_hash: run.value_hash };
                ApplyStep::RunBody(body, guard)
            },
            None => {
                self.entries[slot] = EffectLastApplied::Unapplied;
                assert(self@ =~= old(self)@.insert(key, EffectLastApplied::Unapplied));
                ApplyStep::Return(Err(ApplyOutcome::Retry))
            },
        }
    }

    /// The event to wait on while an apply for this key is in flight, `None` when none is.
    pub fn write_event(&self, entry: &EffectStateEntry) -> (event: Option<&W>)
        requires
            self.wf(),
            self.has_entry(*entry),
        ensures
            self@.contains_key(entry.key()),
            match self@[entry.key()] {
                EffectLastApplied::InProgress { write_event } => event == Some(&write_event),
                _ => event is None,
            },
    {
        match &self.entries[entry.slot] {
            EffectLastApplied::InProgress { write_event } => Some(write_event),
            _ => None,
        }
    }

    /// Record the result of the apply that `guard` stands for, and hand out what the caller returns
    /// and the event to fire.
    pub fn finish_apply(&mut self, guard: EventGuard, result: Result<(), Arc<E>>) -> (done: (
        Result<(), ApplyOutcome<Arc<E>>>,
        W,
    ))
        requires
            old(self).wf(),
            old(self).has_entry(guard.spec_entry()),
            state::state_of(old(self)@, guard.key()) is InProgress,
        ensures
            final(self).wf(),
            final(self).keeps_entries(*old(self)),
            final(self)@ == state::after_finish(
                old(self)@,
                guard.key(),
                guard.value_hash(),
                result,
            ),
            done.0 == state::outcome_of(result),
            state::state_of(old(self)@, guard.key()) matches EffectLastApplied::InProgress {
                write_event,
            } && write_event == done.1,
    {
        let outcome = cached_outcome(&result);
        let event = self.replace_in_progress(
            &guard.entry,
            EffectLastApplied::Applied { value_hash: guard.value_hash, result },
        );
        (outcome, event)
    }

    /// Give up the apply that `guard` stands for: its key is unapplied again, so that others retry.
    /// Returns the event to fire.
    pub fn abort_apply(&mut self, guard: EventGuard) -> (event: W)
        requires
            old(self).wf(),
            old(self).has_entry(guard.spec_entry()),
            state::state_of(old(self)@, guard.key()) is InProgress,
        ensures
            final(self).wf(),
            final(self).keeps_entries(*old(self)),
            final(self)@ == state::after_abort(old(self)@, guard.key()),
            state::state_of(old(self)@, guard.key()) matches EffectLastApplied::InProgress {
                write_event,
            } && write_event == event,
    {
        self.replace_in_progress(&guard.entry, EffectLastApplied::Unapplied)
    }

    /// Puts `state` in the place of an in-progress state and returns that state's event.
    fn replace_in_progress(
        &mut self,
        entry: &EffectStateEntry,
        state: EffectLastApplied<E, W>,
    ) -> (event: W)
        requires
            old(self).wf(),
            old(self).has_entry(*entry),
            state::state_of(old(self)@, entry.key()) is InProgress,
        ensures
            final(self).wf(),
            final(self).keeps_entries(*old(self)),
            final(self)@ == old(self)@.insert(entry.key(), state),
            state::state_of(old(self)@, entry.key()) matches EffectLastApplied::InProgress {
                write_event,
            } && write_event == event,
    {
        let ghost new_state = state;
        let mut prev_state = state;
        swap(&mut prev_state, &mut self.entries[entry.slot]);
        assert(self@ =~= old(self)@.insert(entry.key(), new_state));
        match prev_state {
            EffectLastApplied::InProgress { write_event } => write_event,
            _ => vstd::pervasive::unreached(),
        }
    }
}

impl<E: ?Sized, W> Default for EffectStateStorage<E, W> {
    /// A storage that has seen no key yet.
    fn default() -> (storage: Self)
        ensures
            storage.wf(),
            storage@ == Map::<Seq<u8>, EffectLastApplied<E, W>>::empty(),
    {
        let storage = EffectStateStorage { effect_state: empty_slots(), entries: Vec::new() };
        assert(storage@ =~= Map::<Seq<u8>, EffectLastApplied<E, W>>::empty());
        storage
    }
}

/// What a caller returns for a result that was applied before.
fn cached_outcome<E: ?Sized>(result: &Result<(), Arc<E>>) -> (outcome: Result<
    (),
    ApplyOutcome<Arc<E>>,
>)
    ensures
        outcome == state::outcome_of(*result),
{
    match result {
        Ok(_) => Ok(()),
        Err(err) => Err(ApplyOutcome::Failed(err.clone())),
    }
}

} // verus!
