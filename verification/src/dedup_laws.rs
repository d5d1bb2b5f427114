//! What deduplication does, stated of the keys and value hashes themselves.
//!
//! Keys are the same if and only if they have the same bytes.

use vstd::prelude::*;

use crate::dedup;
use crate::dedup::{build_unique_keys, dedup_identities, UniqueKeys};
use crate::effect::CapturedEffect;
use crate::effects::{take_effects, Effects};
use crate::error::ConflictingEffectError;

verus! {

/// The outcome of a deduplication, by the keys and value hashes that were compared.
///
/// It is an error if and only if two effects have the same key and different value hashes. The
/// error then gives the length of the first key that is met with a second value. Otherwise an
/// effect is listed if and only if no effect before it has the same key, in ascending order.
pub proof fn law_dedup_compares_keys_and_hashes(
    ids: Seq<(Box<[u8]>, u128)>,
    unique_keys: Result<Seq<usize>, ConflictingEffectError>,
)
    requires
        dedup::is_dedup_of(dedup::identities(ids), unique_keys),
    ensures
        unique_keys is Err <==> exists|i: int, j: int|
            0 <= i < j < ids.len() && (#[trigger] ids[i]).0@ == (#[trigger] ids[j]).0@ && ids[i].1
                != ids[j].1,
        unique_keys matches Err(err) ==> exists|i: int, j: int|
            {
                &&& 0 <= i < j < ids.len()
                &&& (#[trigger] ids[i]).0@ == (#[trigger] ids[j]).0@
                &&& ids[i].1 != ids[j].1
                &&& err.key_len == ids[j].0@.len()
                &&& forall|a: int, b: int|
                    0 <= a < b < j && (#[trigger] ids[a]).0@ == (#[trigger] ids[b]).0@ ==> ids[a].1
                        == ids[b].1
            },
        unique_keys matches Ok(keys) ==> {
            &&& forall|k: int, l: int| 0 <= k < l < keys.len() ==> keys[k] < keys[l]
            &&& forall|k: int| 0 <= k < keys.len() ==> #[trigger] keys[k] < ids.len()
            &&& forall|idx: usize|
                idx < ids.len() ==> (#[trigger] keys.contains(idx) <==> forall|earlier: int|
                    0 <= earlier < idx ==> (#[trigger] ids[earlier]).0@ != ids[idx as int].0@)
        },
{
    let view = dedup::identities(ids);
    assert(view.len() == ids.len());
    assert forall|i: int| 0 <= i < ids.len() implies #[trigger] view[i] == (
        ids[i].0@,
        ids[i].1,
    ) by {}
    dedup::law_conflict_iff_values_differ(view, unique_keys);
    match unique_keys {
        Err(err) => {
            let j = choose|idx: int|
                {
                    &&& 0 <= idx < view.len()
                    &&& #[trigger] dedup::conflicts_with_earlier(view, idx)
                    &&& forall|before: int|
                        0 <= before < idx ==> !#[trigger] dedup::conflicts_with_earlier(
                            view,
                            before,
                        )
                    &&& err.key_len == view[idx].0.len()
                };
            let i = choose|i: int|
                0 <= i < j && (#[trigger] view[i]).0 == view[j].0 && view[i].1 != view[j].1;
            assert(ids[i].0@ == ids[j].0@ && ids[i].1 != ids[j].1);
            assert forall|a: int, b: int|
                0 <= a < b < j && (#[trigger] ids[a]).0@ == (#[trigger] ids[b]).0@ implies ids[a].1
                == ids[b].1 by {
                assert(!dedup::conflicts_with_earlier(view, b));
                assert(view[a].0 == view[b].0);
            }
        },
        Ok(keys) => {
            assert forall|i: int, j: int|
                0 <= i < j < ids.len() && (#[trigger] ids[i]).0@ == (
                #[trigger] ids[j]).0@ implies ids[i].1 == ids[j].1 by {
                assert(view[i].0 == view[j].0);
            }
            assert forall|idx: usize|
                idx < ids.len() implies (#[trigger] keys.contains(idx) <==> forall|earlier: int|
                0 <= earlier < idx ==> (#[trigger] ids[earlier]).0@ != ids[idx as int].0@) by {
                if keys.contains(idx) {
                    let k = choose|k: int| 0 <= k < keys.len() && keys[k] == idx;
                    assert(dedup::is_first_of_key(view, keys[k] as int));
                    assert forall|earlier: int| 0 <= earlier < idx implies (
                    #[trigger] ids[earlier]).0@ != ids[idx as int].0@ by {
                        assert(view[earlier].0 != view[idx as int].0);
                    }
                } else {
                    assert(!dedup::is_first_of_key(view, idx as int));
                    let earlier = choose|earlier: int|
                        0 <= earlier < idx && (#[trigger] view[earlier]).0 == view[idx as int].0;
                    assert(ids[earlier].0@ == ids[idx as int].0@);
                }
            }
        },
    }
}

/// Deduplicating keys and value hashes gives the outcome that these call for, whatever they are.
pub proof fn law_dedup_identities(ids: Vec<(Box<[u8]>, u128)>, unique_keys: UniqueKeys)
    requires
        call_ensures(dedup_identities, (ids,), unique_keys),
    ensures
        call_requires(dedup_identities, (ids,)),
        unique_keys is Err <==> exists|i: int, j: int|
            0 <= i < j < ids@.len() && (#[trigger] ids@[i]).0@ == (#[trigger] ids@[j]).0@
                && ids@[i].1 != ids@[j].1,
        unique_keys matches Err(err) ==> exists|i: int, j: int|
            {
                &&& 0 <= i < j < ids@.len()
                &&& (#[trigger] ids@[i]).0@ == (#[trigger] ids@[j]).0@
                &&& ids@[i].1 != ids@[j].1
                &&& err.key_len == ids@[j].0@.len()
                &&& forall|a: int, b: int|
                    0 <= a < b < j && (#[trigger] ids@[a]).0@ == (#[trigger] ids@[b]).0@
                        ==> ids@[a].1 == ids@[b].1
            },
        unique_keys matches Ok(keys) ==> {
            &&& forall|k: int, l: int| 0 <= k < l < keys@.len() ==> keys@[k] < keys@[l]
            &&& forall|k: int| 0 <= k < keys@.len() ==> #[trigger] keys@[k] < ids@.len()
            &&& forall|idx: usize|
                idx < ids@.len() ==> (#[trigger] keys@.contains(idx) <==> forall|earlier: int|
                    0 <= earlier < idx ==> (#[trigger] ids@[earlier]).0@ != ids@[idx as int].0@)
        },
{
    law_dedup_compares_keys_and_hashes(ids@, dedup::unique_keys_view(unique_keys));
}

/// What is compared for each captured effect is a key and a value hash that the effect itself gave.
/// Returns these keys and value hashes.
pub proof fn law_compared_ids_come_from_the_effects<C: CapturedEffect>(
    captured: &[C],
    unique_keys: UniqueKeys,
) -> (ids: Seq<(Box<[u8]>, u128)>)
    requires
        call_ensures(build_unique_keys::<C>, (captured,), unique_keys),
    ensures
        ids.len() == captured@.len(),
        forall|i: int|
            0 <= i < ids.len() ==> call_ensures(
                C::key,
                (&captured@[i],),
                (#[trigger] ids[i]).0,
            ) && call_ensures(C::value_hash, (&captured@[i],), ids[i].1),
        unique_keys is Err <==> exists|i: int, j: int|
            0 <= i < j < ids.len() && (#[trigger] ids[i]).0@ == (#[trigger] ids[j]).0@ && ids[i].1
                != ids[j].1,
        unique_keys matches Err(err) ==> exists|i: int, j: int|
            {
                &&& 0 <= i < j < ids.len()
                &&& (#[trigger] ids[i]).0@ == (#[trigger] ids[j]).0@
                &&& ids[i].1 != ids[j].1
                &&& err.key_len == ids[j].0@.len()
                &&& forall|a: int, b: int|
                    0 <= a < b < j && (#[trigger] ids[a]).0@ == (#[trigger] ids[b]).0@ ==> ids[a].1
                        == ids[b].1
            },
        unique_keys matches Ok(keys) ==> {
            &&& forall|k: int, l: int| 0 <= k < l < keys@.len() ==> keys@[k] < keys@[l]
            &&& forall|k: int| 0 <= k < keys@.len() ==> #[trigger] keys@[k] < ids.len()
            &&& forall|idx: usize|
                idx < ids.len() ==> (#[trigger] keys@.contains(idx) <==> forall|earlier: int|
                    0 <= earlier < idx ==> (#[trigger] ids[earlier]).0@ != ids[idx as int].0@)
        },
{
    let ids = choose|ids: Seq<(Box<[u8]>, u128)>|
        #![trigger dedup::are_identities_of(captured@, ids)]
        dedup::are_identities_of(captured@, ids) && dedup::is_dedup_of(
            dedup::identities(ids),
            dedup::unique_keys_view(unique_keys),
        );
    assert forall|i: int| 0 <= i < ids.len() implies call_ensures(
        C::key,
        (&captured@[i],),
        (#[trigger] ids[i]).0,
    ) && call_ensures(C::value_hash, (&captured@[i],), ids[i].1) by {
        assert(dedup::identifies(captured@[i], ids[i]));
    }
    law_dedup_compares_keys_and_hashes(ids, dedup::unique_keys_view(unique_keys));
    ids
}

/// Let each effect have one key, with the bytes `keys_of[i]`, and one value hash, `hashes[i]`. Then
/// deduplication fails if and only if two of them have the same key and different value hashes.
/// Otherwise an effect is listed if and only if no effect before it has the same key.
pub proof fn law_dedup_of_effects<C: CapturedEffect>(
    captured: &[C],
    unique_keys: UniqueKeys,
    keys_of: Seq<Seq<u8>>,
    hashes: Seq<u128>,
)
    requires
        call_ensures(build_unique_keys::<C>, (captured,), unique_keys),
        keys_of.len() == captured@.len(),
        hashes.len() == captured@.len(),
        forall|i: int, key: Box<[u8]>|
            0 <= i < captured@.len() && #[trigger] call_ensures(C::key, (&captured@[i],), key)
                ==> key@ == keys_of[i],
        forall|i: int, hash: u128|
            0 <= i < captured@.len() && #[trigger] call_ensures(
                C::value_hash,
                (&captured@[i],),
                hash,
            ) ==> hash == hashes[i],
    ensures
        call_requires(build_unique_keys::<C>, (captured,)),
        unique_keys is Err <==> exists|i: int, j: int|
            0 <= i < j < captured@.len() && #[trigger] keys_of[i] == #[trigger] keys_of[j]
                && hashes[i] != hashes[j],
        unique_keys matches Err(err) ==> exists|i: int, j: int|
            {
                &&& 0 <= i < j < captured@.len()
                &&& #[trigger] keys_of[i] == #[trigger] keys_of[j]
                &&& hashes[i] != hashes[j]
                &&& err.key_len == keys_of[j].len()
                &&& forall|a: int, b: int|
                    0 <= a < b < j && #[trigger] keys_of[a] == #[trigger] keys_of[b] ==> hashes[a]
                        == hashes[b]
            },
        unique_keys matches Ok(keys) ==> {
            &&& forall|k: int, l: int| 0 <= k < l < keys@.len() ==> keys@[k] < keys@[l]
            &&& forall|k: int| 0 <= k < keys@.len() ==> #[trigger] keys@[k] < captured@.len()
            &&& forall|idx: usize|
                idx < captured@.len() ==> (#[trigger] keys@.contains(idx) <==> forall|earlier: int|
                    0 <= earlier < idx ==> #[trigger] keys_of[earlier] != keys_of[idx as int])
        },
{
    let ids = law_compared_ids_come_from_the_effects(captured, unique_keys);
    assert forall|i: int| 0 <= i < ids.len() implies (#[trigger] ids[i]).0@ == keys_of[i]
        && ids[i].1 == hashes[i] by {}
    match unique_keys {
        Err(err) => {
            let (i, j) = choose|i: int, j: int|
                {
                    &&& 0 <= i < j < ids.len()
                    &&& (#[trigger] ids[i]).0@ == (#[trigger] ids[j]).0@
                    &&& ids[i].1 != ids[j].1
                    &&& err.key_len == ids[j].0@.len()
                    &&& forall|a: int, b: int|
                        0 <= a < b < j && (#[trigger] ids[a]).0@ == (#[trigger] ids[b]).0@
                            ==> ids[a].1 == ids[b].1
                };
            assert(keys_of[i] == keys_of[j]);
            assert forall|a: int, b: int|
                0 <= a < b < j && #[trigger] keys_of[a] == #[trigger] keys_of[b] implies hashes[a]
                == hashes[b] by {
                assert(ids[a].0@ == ids[b].0@);
            }
        },
        Ok(keys) => {
            assert forall|i: int, j: int|
                0 <= i < j < captured@.len() && #[trigger] keys_of[i]
                    == #[trigger] keys_of[j] implies hashes[i] == hashes[j] by {
                assert(ids[i].0@ == ids[j].0@);
            }
            assert forall|idx: usize|
                idx < captured@.len() implies (#[trigger] keys@.contains(idx) <==> forall|
                earlier: int,
            |
                0 <= earlier < idx ==> #[trigger] keys_of[earlier] != keys_of[idx as int]) by {
                assert(ids[idx as int].0@ == keys_of[idx as int]);
                if keys@.contains(idx) {
                    assert forall|earlier: int|
                        0 <= earlier < idx implies #[trigger] keys_of[earlier]
                        != keys_of[idx as int] by {
                        assert(ids[earlier].0@ != ids[idx as int].0@);
                    }
                } else {
                    let earlier = choose|earlier: int|
                        0 <= earlier < idx && (#[trigger] ids[earlier]).0@ == ids[idx as int].0@;
                    assert(keys_of[earlier] == keys_of[idx as int]);
                }
            }
        },
    }
}

/// Effects are taken if and only if every capture succeeded, all of them and in their order; the
/// first failure is the error otherwise. What to apply is determined as for any captured effects.
/// Returns the keys and value hashes that were compared.
pub proof fn law_taken_effects_are_those_captured<C: CapturedEffect, I, A, G: FnOnce() -> I>(
    captures: Vec<Result<C, A>>,
    get_invalidator: G,
    taken: Result<Effects<C, I>, A>,
) -> (ids: Seq<(Box<[u8]>, u128)>)
    requires
        call_ensures(take_effects::<C, I, A, G>, (captures, get_invalidator), taken),
    ensures
        call_requires(get_invalidator, ()) ==> call_requires(
            take_effects::<C, I, A, G>,
            (captures, get_invalidator),
        ),
        taken is Ok <==> forall|i: int|
            0 <= i < captures@.len() ==> (#[trigger] captures@[i]) is Ok,
        taken matches Err(err) ==> exists|i: int|
            {
                &&& 0 <= i < captures@.len()
                &&& #[trigger] captures@[i] == Err::<C, A>(err)
                &&& forall|j: int| 0 <= j < i ==> (#[trigger] captures@[j]) is Ok
            },
        taken matches Ok(effects) ==> {
            &&& call_requires(Effects::<C, I>::apply, (&effects,))
            &&& effects.captured().len() == captures@.len()
            &&& forall|i: int|
                0 <= i < captures@.len() ==> #[trigger] captures@[i] == Ok::<C, A>(
                    effects.captured()[i],
                )
            &&& effects.invalidator() matches Some(invalidator)
            &&& call_ensures(get_invalidator, (), invalidator)
            &&& ids.len() == captures@.len()
            &&& forall|i: int|
                0 <= i < ids.len() ==> call_ensures(
                    C::key,
                    (&effects.captured()[i],),
                    (#[trigger] ids[i]).0,
                ) && call_ensures(C::value_hash, (&effects.captured()[i],), ids[i].1)
            &&& effects.unique_keys() is Err <==> exists|i: int, j: int|
                0 <= i < j < ids.len() && (#[trigger] ids[i]).0@ == (#[trigger] ids[j]).0@
                    && ids[i].1 != ids[j].1
            &&& effects.unique_keys() matches Err(err) ==> exists|i: int, j: int|
                {
                    &&& 0 <= i < j < ids.len()
                    &&& (#[trigger] ids[i]).0@ == (#[trigger] ids[j]).0@
                    &&& ids[i].1 != ids[j].1
                    &&& err.key_len == ids[j].0@.len()
                    &&& forall|a: int, b: int|
                        0 <= a < b < j && (#[trigger] ids[a]).0@ == (#[trigger] ids[b]).0@
                            ==> ids[a].1 == ids[b].1
                }
            &&& effects.unique_keys() matches Ok(keys) ==> {
                &&& forall|k: int, l: int| 0 <= k < l < keys.len() ==> keys[k] < keys[l]
                &&& forall|k: int| 0 <= k < keys.len() ==> #[trigger] keys[k] < ids.len()
                &&& forall|idx: usize|
                    idx < ids.len() ==> (#[trigger] keys.contains(idx) <==> forall|earlier: int|
                        0 <= earlier < idx ==> (#[trigger] ids[earlier]).0@ != ids[idx as int].0@)
            }
        },
{
    match taken {
        Ok(effects) => {
            let ids = choose|ids: Seq<(Box<[u8]>, u128)>|
                #![trigger dedup::are_identities_of(effects.captured(), ids)]
                dedup::are_identities_of(effects.captured(), ids) && dedup::is_dedup_of(
                    dedup::identities(ids),
                    effects.unique_keys(),
                );
            assert forall|i: int| 0 <= i < ids.len() implies call_ensures(
                C::key,
                (&effects.captured()[i],),
                (#[trigger] ids[i]).0,
            ) && call_ensures(C::value_hash, (&effects.captured()[i],), ids[i].1) by {
                assert(dedup::identifies(effects.captured()[i], ids[i]));
            }
            law_dedup_compares_keys_and_hashes(ids, effects.unique_keys());
            ids
        },
        Err(_) => Seq::empty(),
    }
}

/// Deduplication looks at the whole key and the whole value hash: effects that all differ in their
/// keys are all listed, and effects that all have the same key are all stood for by the first one
/// if they agree on the value, and a conflict if they do not.
pub proof fn law_dedup_tells_keys_and_values_apart(
    ids: Vec<(Box<[u8]>, u128)>,
    unique_keys: UniqueKeys,
)
    requires
        call_ensures(dedup_identities, (ids,), unique_keys),
    ensures
        (forall|i: int, j: int|
            0 <= i < j < ids@.len() ==> (#[trigger] ids@[i]).0@ != (#[trigger] ids@[j]).0@) ==> {
            &&& unique_keys matches Ok(keys)
            &&& keys@.len() == ids@.len()
            &&& forall|i: int| 0 <= i < ids@.len() ==> #[trigger] keys@[i] == i
        },
        ids@.len() > 0 && (forall|i: int|
            0 <= i < ids@.len() ==> (#[trigger] ids@[i]).0@ == ids@[0].0@ && ids@[i].1
                == ids@[0].1) ==> (unique_keys matches Ok(keys) && keys@ == seq![0usize]),
        forall|i: int, j: int|
            0 <= i < j < ids@.len() && (#[trigger] ids@[i]).0@ == (#[trigger] ids@[j]).0@
                && ids@[i].1 != ids@[j].1 ==> unique_keys is Err,
{
    law_dedup_identities(ids, unique_keys);
    if unique_keys is Ok {
        let keys = unique_keys->Ok_0@;
        if forall|i: int, j: int|
            0 <= i < j < ids@.len() ==> (#[trigger] ids@[i]).0@ != (#[trigger] ids@[j]).0@ {
            assert(ids@.len() == ids.len());
            lemma_ascending_and_complete(keys, ids@.len() as int);
        }
        if ids@.len() > 0 && (forall|i: int|
            0 <= i < ids@.len() ==> (#[trigger] ids@[i]).0@ == ids@[0].0@ && ids@[i].1
                == ids@[0].1) {
            assert forall|k: int| 0 <= k < keys.len() implies #[trigger] keys[k] == 0 by {
                assert(keys.contains(keys[k]));
                if keys[k] > 0 {
                    assert(ids@[0].0@ != ids@[keys[k] as int].0@);
                }
            }
            assert(keys.contains(0usize));
            if keys.len() > 1 {
                assert(keys[0] < keys[1]);
            }
            assert(keys =~= seq![0usize]);
        }
    }
}

/// An ascending list of all numbers below `len` has each of them at its own place.
proof fn lemma_ascending_and_complete(keys: Seq<usize>, len: int)
    requires
        0 <= len <= usize::MAX,
        forall|k: int, l: int| 0 <= k < l < keys.len() ==> keys[k] < keys[l],
        forall|k: int| 0 <= k < keys.len() ==> #[trigger] keys[k] < len,
        forall|idx: usize| idx < len ==> #[trigger] keys.contains(idx),
    ensures
        keys.len() == len,
        forall|i: int| 0 <= i < len ==> #[trigger] keys[i] == i,
    decreases len,
{
    if len == 0 {
        if keys.len() > 0 {
            assert(keys[0] < len);
        }
    } else {
        let last = keys.len() - 1;
        let top: usize = (len - 1) as usize;
        assert(keys.contains(top));
        let k = choose|k: int| 0 <= k < keys.len() && keys[k] == top;
        if k < last {
            assert(keys[k] < keys[last]);
        }
        let init = keys.drop_last();
        assert forall|i: int| 0 <= i < init.len() implies #[trigger] init[i] < len - 1 by {
            assert(keys[i] < keys[last]);
        }
        assert forall|idx: usize| idx < len - 1 implies #[trigger] init.contains(idx) by {
            assert(keys.contains(idx));
            let i = choose|i: int| 0 <= i < keys.len() && keys[i] == idx;
            assert(init[i] == idx);
        }
        lemma_ascending_and_complete(init, len - 1);
        assert forall|i: int| 0 <= i < len implies #[trigger] keys[i] == i by {
            if i < last {
                assert(init[i] == i);
            }
        }
    }
}

} // verus!
