//! Waiting calls get through.
//!
//! An execution is a storage together with an unending run of turns at it: `turns(n)` is the `n`th
//! turn, and `call_of(n)` tells which call takes it. A call takes a turn with
//! [`Access::Run`] each time it looks at its key.

use vstd::prelude::*;

use crate::protocol;
use crate::protocol::{Access, System};
use crate::state;

verus! {

/// The first `n` turns.
pub open spec fn first_turns<E: ?Sized, W>(
    turns: spec_fn(nat) -> Access<E, W>,
    n: nat,
) -> Seq<Access<E, W>> {
    Seq::new(n, |i: int| turns(i as nat))
}

/// The system when the `n`th turn comes.
pub open spec fn system_at<E: ?Sized, W>(
    system: System<E, W>,
    turns: spec_fn(nat) -> Access<E, W>,
    n: nat,
) -> System<E, W> {
    system.after_all(first_turns(turns, n))
}

/// The `n`th turn is that of a call that looks at `key`.
pub open spec fn looks_at<E: ?Sized, W>(
    turns: spec_fn(nat) -> Access<E, W>,
    key: Seq<u8>,
    n: nat,
) -> bool {
    turns(n) is Run && turns(n).key() == key
}

/// At the `n`th turn a call looks at `key` and is told to wait.
pub open spec fn waits<E: ?Sized, W>(
    system: System<E, W>,
    turns: spec_fn(nat) -> Access<E, W>,
    key: Seq<u8>,
    n: nat,
) -> bool {
    turns(n) matches Access::Run { key: looked_at, value_hash, has_body, .. } && looked_at == key
        && state::decide(
        state::state_of(system_at(system, turns, n).states, key),
        value_hash,
        has_body,
    ) is Wait
}

/// At the `n`th turn a call gets to run the side effect of `key`.
pub open spec fn starts<E: ?Sized, W>(
    system: System<E, W>,
    turns: spec_fn(nat) -> Access<E, W>,
    key: Seq<u8>,
    n: nat,
) -> bool {
    turns(n).key() == key && system_at(system, turns, n).starts(turns(n))
}

/// The application that is in flight at turn `n` ends at turn `end`.
pub open spec fn ends_next<E: ?Sized, W>(
    turns: spec_fn(nat) -> Access<E, W>,
    key: Seq<u8>,
    n: nat,
    end: nat,
) -> bool {
    &&& n < end
    &&& turns(end).ends(key)
    &&& forall|between: nat| n < between < end ==> !(#[trigger] turns(between)).ends(key)
}

/// Only the calls `0..calls` look at `key`, and none of them gets to run its side effect twice.
pub open spec fn finitely_many_calls<E: ?Sized, W>(
    system: System<E, W>,
    turns: spec_fn(nat) -> Access<E, W>,
    call_of: spec_fn(nat) -> nat,
    key: Seq<u8>,
    calls: nat,
) -> bool {
    &&& forall|n: nat| #[trigger] looks_at(turns, key, n) ==> call_of(n) < calls
    &&& forall|n: nat, m: nat|
        #[trigger] starts(system, turns, key, n) && #[trigger] starts(system, turns, key, m)
            && call_of(n) == call_of(m) ==> n == m
}

/// Every application of `key` ends: it completes, fails, or is abandoned.
pub open spec fn applications_end<E: ?Sized, W>(
    system: System<E, W>,
    turns: spec_fn(nat) -> Access<E, W>,
    key: Seq<u8>,
) -> bool {
    forall|n: nat| #[trigger]
        system_at(system, turns, n).in_flight(key) ==> exists|end: nat|
            n <= end && (#[trigger] turns(end)).ends(key)
}

/// A call that was told to wait looks again once the application that it waits for has ended and
/// its event has been fired.
pub open spec fn woken_calls_look_again<E: ?Sized, W>(
    system: System<E, W>,
    turns: spec_fn(nat) -> Access<E, W>,
    call_of: spec_fn(nat) -> nat,
    key: Seq<u8>,
) -> bool {
    forall|n: nat, end: nat|
        #[trigger] waits(system, turns, key, n) && #[trigger] ends_next(turns, key, n, end)
            ==> exists|again: nat|
            {
                &&& end < again
                &&& #[trigger] looks_at(turns, key, again)
                &&& call_of(again) == call_of(n)
            }
}

/// The call that takes turn `n` is done waiting: it returns, or it gets to run its side effect and
/// that run ends.
pub open spec fn gets_through<E: ?Sized, W>(
    system: System<E, W>,
    turns: spec_fn(nat) -> Access<E, W>,
    key: Seq<u8>,
    n: nat,
) -> bool {
    &&& looks_at(turns, key, n)
    &&& {
        ||| system_at(system, turns, n).answer(turns(n)) is Some
        ||| {
            &&& starts(system, turns, key, n)
            &&& exists|end: nat| ends_next(turns, key, n, end)
        }
    }
}

/// One more turn.
proof fn lemma_next_turn<E: ?Sized, W>(
    system: System<E, W>,
    turns: spec_fn(nat) -> Access<E, W>,
    n: nat,
)
    ensures
        system_at(system, turns, n + 1) == system_at(system, turns, n).after(turns(n)),
{
    assert(first_turns(turns, n + 1).drop_last() =~= first_turns(turns, n));
    assert(first_turns(turns, n + 1).last() == turns(n));
}

/// If the application of `key` ends at some turn behind `n`, there is a next such turn.
proof fn lemma_next_end<E: ?Sized, W>(
    turns: spec_fn(nat) -> Access<E, W>,
    key: Seq<u8>,
    n: nat,
    some_end: nat,
)
    requires
        n < some_end,
        turns(some_end).ends(key),
    ensures
        exists|end: nat| ends_next(turns, key, n, end),
    decreases some_end,
{
    if exists|earlier: nat| n < earlier < some_end && (#[trigger] turns(earlier)).ends(key) {
        let earlier = choose|earlier: nat|
            n < earlier < some_end && (#[trigger] turns(earlier)).ends(key);
        lemma_next_end(turns, key, n, earlier);
    } else {
        assert(ends_next(turns, key, n, some_end));
    }
}

/// From some turn on, none of the first `calls` calls gets to run its side effect any more.
proof fn lemma_last_start<E: ?Sized, W>(
    system: System<E, W>,
    turns: spec_fn(nat) -> Access<E, W>,
    call_of: spec_fn(nat) -> nat,
    key: Seq<u8>,
    calls: nat,
    all_calls: nat,
) -> (bound: nat)
    requires
        finitely_many_calls(system, turns, call_of, key, all_calls),
    ensures
        forall|n: nat|
            bound <= n && call_of(n) < calls ==> !#[trigger] starts(system, turns, key, n),
    decreases calls,
{
    if calls == 0 {
        0
    } else {
        let last = (calls - 1) as nat;
        let bound = lemma_last_start(system, turns, call_of, key, last, all_calls);
        if exists|n: nat| #[trigger] starts(system, turns, key, n) && call_of(n) == last {
            let start = choose|n: nat| #[trigger]
                starts(system, turns, key, n) && call_of(n) == last;
            if bound <= start {
                start + 1
            } else {
                bound
            }
        } else {
            bound
        }
    }
}

/// A call that is told to wait gets through, given a turn from which on nobody starts an
/// application of the key any more.
proof fn lemma_gets_through<E: ?Sized, W>(
    system: System<E, W>,
    turns: spec_fn(nat) -> Access<E, W>,
    call_of: spec_fn(nat) -> nat,
    key: Seq<u8>,
    bound: nat,
    n: nat,
)
    requires
        applications_end(system, turns, key),
        woken_calls_look_again(system, turns, call_of, key),
        forall|m: nat| bound <= m ==> !#[trigger] starts(system, turns, key, m),
        waits(system, turns, key, n),
    ensures
        exists|p: nat|
            n < p && call_of(p) == call_of(n) && #[trigger] gets_through(system, turns, key, p),
    decreases
            (if n < bound {
                bound - n
            } else {
                0
            }),
{
    assert(system_at(system, turns, n).in_flight(key));
    let some_end = choose|end: nat| n <= end && (#[trigger] turns(end)).ends(key);
    lemma_next_end(turns, key, n, some_end);
    let end = choose|end: nat| ends_next(turns, key, n, end);
    let again = choose|again: nat|
        {
            &&& end < again
            &&& #[trigger] looks_at(turns, key, again)
            &&& call_of(again) == call_of(n)
        };
    if waits(system, turns, key, again) {
        if bound <= n {
            let history = first_turns(turns, again);
            assert forall|m: int| end < m < again && (#[trigger] history[m]).key() == key implies
                !system.at(history, m).starts(history[m]) by {
                assert(history.take(m) =~= first_turns(turns, m as nat));
                assert(!starts(system, turns, key, m as nat));
            }
            assert(history.take(again as int) =~= history);
            protocol::law_waits_again_only_after_a_start(
                system,
                history,
                key,
                end as int,
                again as int,
            );
        } else {
            lemma_gets_through(system, turns, call_of, key, bound, again);
            let p = choose|p: nat|
                again < p && call_of(p) == call_of(again) && #[trigger] gets_through(
                    system,
                    turns,
                    key,
                    p,
                );
            assert(n < p);
        }
    } else {
        if starts(system, turns, key, again) {
            lemma_next_turn(system, turns, again);
            assert(system_at(system, turns, again + 1).in_flight(key));
            let run_end = choose|run_end: nat|
                again + 1 <= run_end && (#[trigger] turns(run_end)).ends(key);
            lemma_next_end(turns, key, again, run_end);
        }
        assert(gets_through(system, turns, key, again));
    }
}

/// A waiting call gets through in the end: it returns, or it gets to run its side effect and that
/// run ends.
///
/// This holds however the application that it waits for ends, as long as every application of the
/// key does end, calls look again when they are woken, and no more than finitely many calls are
/// made for the key.
pub proof fn law_waiting_call_gets_through<E: ?Sized, W>(
    system: System<E, W>,
    turns: spec_fn(nat) -> Access<E, W>,
    call_of: spec_fn(nat) -> nat,
    key: Seq<u8>,
    calls: nat,
    n: nat,
)
    requires
        finitely_many_calls(system, turns, call_of, key, calls),
        applications_end(system, turns, key),
        woken_calls_look_again(system, turns, call_of, key),
        waits(system, turns, key, n),
    ensures
        exists|p: nat|
            n < p && call_of(p) == call_of(n) && #[trigger] gets_through(system, turns, key, p),
{
    let bound = lemma_last_start(system, turns, call_of, key, calls, calls);
    assert forall|m: nat| bound <= m implies !#[trigger] starts(system, turns, key, m) by {
        if starts(system, turns, key, m) {
            assert(looks_at(turns, key, m));
        }
    }
    lemma_gets_through(system, turns, call_of, key, bound, n);
}

} // verus!
