//! Which of the captured effects have to be applied: one per key.

use rustc_hash::FxHashMap;
use vstd::prelude::*;

use crate::effect::CapturedEffect;
use crate::error::ConflictingEffectError;
use crate::key_slots;
use crate::key_slots::{empty_slots, get_slot, insert_slot};
use crate::reapply;

verus! {

/// Indices of the effects to apply, one entry per unique key, or the conflict that keeps all of
/// them from being applied.
pub type UniqueKeys = Result<Vec<usize>, ConflictingEffectError>;

/// What tells captured effects apart: their keys, taken by their bytes, and value hashes.
pub open spec fn identities(ids: Seq<(Box<[u8]>, u128)>) -> Seq<(Seq<u8>, u128)> {
    ids.map_values(|id: (Box<[u8]>, u128)| (id.0@, id.1))
}

/// `id` is what [`CapturedEffect::key`] and [`CapturedEffect::value_hash`] gave for `effect`.
pub open spec fn identifies<C: CapturedEffect>(effect: C, id: (Box<[u8]>, u128)) -> bool {
    call_ensures(C::key, (&effect,), id.0) && call_ensures(C::value_hash, (&effect,), id.1)
}

/// `ids` is what asking each of the captured effects for its key and value hash gave.
pub open spec fn are_identities_of<C: CapturedEffect>(
    captured: Seq<C>,
    ids: Seq<(Box<[u8]>, u128)>,
) -> bool {
    &&& ids.len() == captured.len()
    &&& forall|i: int| 0 <= i < ids.len() ==> identifies(captured[i], #[trigger] ids[i])
}

/// No effect before `idx` has the same key.
pub open spec fn is_first_of_key(ids: Seq<(Seq<u8>, u128)>, idx: int) -> bool {
    forall|earlier: int| 0 <= earlier < idx ==> (#[trigger] ids[earlier]).0 != ids[idx].0
}

/// Some effect before `idx` has the same key but another value hash.
pub open spec fn conflicts_with_earlier(ids: Seq<(Seq<u8>, u128)>, idx: int) -> bool {
    exists|earlier: int|
        0 <= earlier < idx && (#[trigger] ids[earlier]).0 == ids[idx].0 && ids[earlier].1
            != ids[idx].1
}

/// `keys` lists, in ascending order, the first effect of each key among the first `len` effects.
pub open spec fn lists_first_of_keys(
    ids: Seq<(Seq<u8>, u128)>,
    len: int,
    keys: Seq<usize>,
) -> bool {
    &&& forall|i: int, j: int| 0 <= i < j < keys.len() ==> keys[i] < keys[j]
    &&& forall|i: int|
        0 <= i < keys.len() ==> (#[trigger] keys[i]) < len && is_first_of_key(ids, keys[i] as int)
    &&& forall|idx: int|
        0 <= idx < len && #[trigger] is_first_of_key(ids, idx) ==> keys.contains(idx as usize)
}

/// The outcome of deduplicating effects with the given identities: the first effect of each key, or
/// the length of the key of the first effect that contradicts an earlier one.
pub open spec fn is_dedup_of(
    ids: Seq<(Seq<u8>, u128)>,
    unique_keys: Result<Seq<usize>, ConflictingEffectError>,
) -> bool {
    match unique_keys {
        Ok(keys) => {
            &&& forall|idx: int|
                0 <= idx < ids.len() ==> !#[trigger] conflicts_with_earlier(ids, idx)
            &&& lists_first_of_keys(ids, ids.len() as int, keys)
        },
        Err(err) => exists|idx: int|
            {
                &&& 0 <= idx < ids.len()
                &&& #[trigger] conflicts_with_earlier(ids, idx)
                &&& forall|before: int|
                    0 <= before < idx ==> !#[trigger] conflicts_with_earlier(ids, before)
                &&& err.key_len == ids[idx].0.len()
            },
    }
}

/// The mathematical value of a [`UniqueKeys`].
pub open spec fn unique_keys_view(unique_keys: UniqueKeys) -> Result<
    Seq<usize>,
    ConflictingEffectError,
> {
    match unique_keys {
        Ok(keys) => Ok(keys@),
        Err(err) => Err(err),
    }
}

/// Deduplicates captured effects by key and detects per-key value-hash conflicts. Inspects only the
/// captured effects themselves.
pub fn build_unique_keys<C: CapturedEffect>(captured: &[C]) -> (unique_keys: UniqueKeys)
    ensures
        exists|ids: Seq<(Box<[u8]>, u128)>|
            #![trigger are_identities_of(captured@, ids)]
            are_identities_of(captured@, ids) && is_dedup_of(
                identities(ids),
                unique_keys_view(unique_keys),
            ),
{
    let mut ids: Vec<(Box<[u8]>, u128)> = Vec::new();
    let mut idx: usize = 0;
    while idx < captured.len()
        invariant
            idx == ids@.len(),
            idx <= captured@.len(),
            forall|i: int| 0 <= i < idx ==> identifies(captured@[i], #[trigger] ids@[i]),
        decreases captured@.len() - idx,
    {
        let effect = &captured[idx];
        ids.push((effect.key(), effect.value_hash()));
        idx = idx + 1;
    }
    assert(are_identities_of(captured@, ids@));
    dedup_identities(ids)
}

/// Deduplicates effects with the given keys and value hashes.
pub fn dedup_identities(ids: Vec<(Box<[u8]>, u128)>) -> (unique_keys: UniqueKeys)
    ensures
        is_dedup_of(identities(ids@), unique_keys_view(unique_keys)),
{
    let ghost all = ids@;
    let ghost ids_view = identities(ids@);
    let mut by_key: FxHashMap<Box<[u8]>, usize> = empty_slots();
    let mut value_hashes: Vec<u128> = Vec::new();
    let mut keys: Vec<usize> = Vec::new();
    for id in iter: ids
        invariant
            iter.seq() == all,
            ids_view == identities(all),
            value_hashes@.len() == iter.index(),
            forall|i: int| 0 <= i < iter.index() ==> value_hashes@[i] == (#[trigger] ids_view[i]).1,
            forall|i: int|
                0 <= i < iter.index() ==> !#[trigger] conflicts_with_earlier(ids_view, i),
            lists_first_of_keys(ids_view, iter.index(), keys@),
            forall|i: int|
                0 <= i < iter.index() ==> key_slots::key_slots(by_key).contains_key(
                    (#[trigger] ids_view[i]).0,
                ),
            forall|key: Seq<u8>| #[trigger]
                key_slots::key_slots(by_key).contains_key(key) ==> {
                    let first = key_slots::key_slots(by_key)[key];
                    first < iter.index() && ids_view[first as int].0 == key
                },
    {
        let idx: usize = value_hashes.len();
        let (key, value_hash) = id;
        assert(ids_view[idx as int] == (key@, value_hash));
        let first = match get_slot(&by_key, &key) {
            Some(first) => Some(*first),
            None => None,
        };
        match first {
            None => {
                let ghost before = keys@;
                insert_slot(&mut by_key, key, idx);
                keys.push(idx);
                assert(keys@[before.len() as int] == idx);
                assert forall|i: int| 0 <= i < before.len() implies keys@[i] == before[i] by {}
                assert(is_first_of_key(ids_view, idx as int));
                assert forall|i: int|
                    0 <= i < idx + 1 && #[trigger] is_first_of_key(
                        ids_view,
                        i,
                    ) implies keys@.contains(i as usize) by {
                    if i < idx {
                        let k = choose|k: int| 0 <= k < before.len() && before[k] == i as usize;
                        assert(keys@[k] == i as usize);
                    }
                }
            },
            Some(first) => {
                if value_hashes[first] != value_hash {
                    assert(ids_view[first as int].1 == value_hashes@[first as int]);
                    assert(conflicts_with_earlier(ids_view, idx as int));
                    return Err(ConflictingEffectError { key_len: key.len() });
                }
                assert(ids_view[first as int] == ids_view[idx as int]);
                assert(!is_first_of_key(ids_view, idx as int));
                proof {
                    if conflicts_with_earlier(ids_view, idx as int) {
                        let i = choose|i: int|
                            0 <= i < idx && (#[trigger] ids_view[i]).0 == ids_view[idx as int].0
                                && ids_view[i].1 != ids_view[idx as int].1;
                        assert(conflicts_with_earlier(
                            ids_view,
                            if i < first { first as int } else { i },
                        ));
                    }
                }
            },
        }
        value_hashes.push(value_hash);
    }
    Ok(keys)
}

/// The identities of the effects to apply.
pub open spec fn selected(ids: Seq<(Seq<u8>, u128)>, keys: Seq<usize>) -> Seq<(Seq<u8>, u128)> {
    keys.map_values(|idx: usize| ids[idx as int])
}

/// No two of the effects to apply have the same key.
pub proof fn law_one_effect_per_key(ids: Seq<(Seq<u8>, u128)>, keys: Seq<usize>)
    requires
        is_dedup_of(ids, Ok(keys)),
    ensures
        reapply::distinct_keys(selected(ids, keys)),
{
    let chosen = selected(ids, keys);
    assert forall|i: int, j: int| 0 <= i < j < chosen.len() implies (#[trigger] chosen[i]).0 != (
    #[trigger] chosen[j]).0 by {
        assert(keys[i] < keys[j]);
        assert(is_first_of_key(ids, keys[j] as int));
    }
}

/// Every captured effect is applied, by itself or by another one with the same key and value hash.
pub proof fn law_no_effect_is_lost(ids: Seq<(Seq<u8>, u128)>, keys: Seq<usize>, idx: int)
    requires
        ids.len() <= usize::MAX,
        is_dedup_of(ids, Ok(keys)),
        0 <= idx < ids.len(),
    ensures
        selected(ids, keys).contains(ids[idx]),
    decreases idx,
{
    if is_first_of_key(ids, idx) {
        assert(keys.contains(idx as usize));
        let k = choose|k: int| 0 <= k < keys.len() && keys[k] == idx as usize;
        assert(keys[k] < ids.len());
        assert(selected(ids, keys)[k] == ids[idx]);
    } else {
        let earlier = choose|earlier: int|
            0 <= earlier < idx && (#[trigger] ids[earlier]).0 == ids[idx].0;
        assert(!conflicts_with_earlier(ids, idx));
        assert(ids[earlier] == ids[idx]);
        law_no_effect_is_lost(ids, keys, earlier);
    }
}

/// Deduplication fails if and only if two effects have the same key and different value hashes, in
/// whatever order they were emitted.
pub proof fn law_conflict_iff_values_differ(
    ids: Seq<(Seq<u8>, u128)>,
    unique_keys: Result<Seq<usize>, ConflictingEffectError>,
)
    requires
        is_dedup_of(ids, unique_keys),
    ensures
        unique_keys is Err <==> exists|i: int, j: int|
            0 <= i < ids.len() && 0 <= j < ids.len() && (#[trigger] ids[i]).0 == (
            #[trigger] ids[j]).0 && ids[i].1 != ids[j].1,
{
    if unique_keys is Err {
        let j = choose|idx: int|
            {
                &&& 0 <= idx < ids.len()
                &&& #[trigger] conflicts_with_earlier(ids, idx)
                &&& forall|before: int|
                    0 <= before < idx ==> !#[trigger] conflicts_with_earlier(ids, before)
                &&& unique_keys->Err_0.key_len == ids[idx].0.len()
            };
        let i = choose|i: int|
            0 <= i < j && (#[trigger] ids[i]).0 == ids[j].0 && ids[i].1 != ids[j].1;
        assert(ids[i].0 == ids[j].0);
    } else {
        assert forall|i: int, j: int|
            0 <= i < ids.len() && 0 <= j < ids.len() && (#[trigger] ids[i]).0 == (
            #[trigger] ids[j]).0 implies ids[i].1 == ids[j].1 by {
            assert(!conflicts_with_earlier(ids, i));
            assert(!conflicts_with_earlier(ids, j));
        }
    }
}

/// Deduplication has one outcome: the effects to apply and their order depend on nothing but the
/// identities of the captured effects.
pub proof fn law_dedup_is_deterministic(
    ids: Seq<(Seq<u8>, u128)>,
    one: Result<Seq<usize>, ConflictingEffectError>,
    other: Result<Seq<usize>, ConflictingEffectError>,
)
    requires
        ids.len() <= usize::MAX,
        is_dedup_of(ids, one),
        is_dedup_of(ids, other),
    ensures
        one == other,
{
    match (one, other) {
        (Ok(a), Ok(b)) => {
            lemma_ascending_lists_agree(ids, a, b, a.len() as int);
            lemma_ascending_lists_agree(ids, b, a, b.len() as int);
            assert(a =~= b);
        },
        (Err(a), Err(b)) => {
            let i = choose|idx: int|
                {
                    &&& 0 <= idx < ids.len()
                    &&& #[trigger] conflicts_with_earlier(ids, idx)
                    &&& forall|before: int|
                        0 <= before < idx ==> !#[trigger] conflicts_with_earlier(ids, before)
                    &&& a.key_len == ids[idx].0.len()
                };
            let j = choose|idx: int|
                {
                    &&& 0 <= idx < ids.len()
                    &&& #[trigger] conflicts_with_earlier(ids, idx)
                    &&& forall|before: int|
                        0 <= before < idx ==> !#[trigger] conflicts_with_earlier(ids, before)
                    &&& b.key_len == ids[idx].0.len()
                };
            assert(i == j);
        },
        _ => {},
    }
}

/// Two ascending lists of the first effects of all keys start with the same `len` effects, if the
/// first one is that long.
proof fn lemma_ascending_lists_agree(
    ids: Seq<(Seq<u8>, u128)>,
    a: Seq<usize>,
    b: Seq<usize>,
    len: int,
)
    requires
        ids.len() <= usize::MAX,
        lists_first_of_keys(ids, ids.len() as int, a),
        lists_first_of_keys(ids, ids.len() as int, b),
        0 <= len <= a.len(),
    ensures
        len <= b.len(),
        forall|i: int| 0 <= i < len ==> a[i] == b[i],
    decreases len,
{
    if len > 0 {
        let last = len - 1;
        lemma_ascending_lists_agree(ids, a, b, last);
        assert(is_first_of_key(ids, a[last] as int));
        assert(b.contains(a[last] as int as usize));
        let k = choose|k: int| 0 <= k < b.len() && b[k] == a[last];
        if k < last {
            assert(a[k] == b[k]);
            assert(a[k] < a[last]);
        }
        assert(last <= k < b.len());
        assert(is_first_of_key(ids, b[last] as int));
        assert(a.contains(b[last] as int as usize));
        let l = choose|l: int| 0 <= l < a.len() && a[l] == b[last];
        if l < last {
            assert(a[l] == b[l]);
            assert(b[l] < b[last]);
        }
        if last < k {
            assert(b[last] < b[k]);
        }
        if last < l {
            assert(a[last] < a[l]);
        }
    }
}

} // verus!
