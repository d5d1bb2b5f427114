//! The hash map that assigns each effect key a slot.

use rustc_hash::FxHashMap;
use vstd::prelude::*;

verus! {

/// The hasher of [`rustc_hash::FxHashMap`]. Opaque here: nothing depends on which hash it computes.
#[verifier::external_type_specification]
#[verifier::external_body]
pub struct ExFxBuildHasher(rustc_hash::FxBuildHasher);

/// Which slot a map assigns to which key, keys taken by their bytes.
pub uninterp spec fn key_slots(map: FxHashMap<Box<[u8]>, usize>) -> Map<Seq<u8>, usize>;

/// `FxHashMap::default`: a new map assigns no slots.
#[verifier::external_body]
pub(crate) fn empty_slots() -> (map: FxHashMap<Box<[u8]>, usize>)
    ensures
        (key_slots(map) == Map::<Seq<u8>, usize>::empty()),
{
    FxHashMap::default()
}

/// `FxHashMap::get`: the slot assigned to a key with the same bytes, if there is one.
#[verifier::external_body]
pub(crate) fn get_slot<'a>(map: &'a FxHashMap<Box<[u8]>, usize>, key: &[u8]) -> (slot: Option<
    &'a usize,
>)
    ensures
        match slot {
            Some(slot) => key_slots(*map).contains_key(key@) && *slot == key_slots(*map)[key@],
            None => !key_slots(*map).contains_key(key@),
        },
{
    map.get(key)
}

/// `FxHashMap::insert`: assigns the slot to the key, leaves all other keys as they were, and
/// returns the slot that the key had before, if any.
#[verifier::external_body]
pub(crate) fn insert_slot(
    map: &mut FxHashMap<Box<[u8]>, usize>,
    key: Box<[u8]>,
    slot: usize,
) -> (previous: Option<usize>)
    ensures
        key_slots(*final(map)) == key_slots(*old(map)).insert(key@, slot),
        match previous {
            Some(slot) => key_slots(*old(map)).contains_key(key@) && slot == key_slots(
                *old(map),
            )[key@],
            None => !key_slots(*old(map)).contains_key(key@),
        },
{
    map.insert(key, slot)
}

} // verus!
