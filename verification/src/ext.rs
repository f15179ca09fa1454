//! The outside crates that the library calls, with what it assumes of them.

use vstd::prelude::*;

use rand::seq::IndexedRandom;

use crate::shatranj::board::FeatureUpdate;
use crate::shatranj::board::movegen::MoveListEntry;

verus! {

/// `arrayvec::ArrayVec`, a vector with a fixed capacity.
#[verifier::external_type_specification]
#[verifier::external_body]
#[verifier::reject_recursive_types(T)]
pub struct ExArrayVec<T, const CAP: usize>(arrayvec::ArrayVec<T, CAP>);

/// `rand::rngs::ThreadRng`, the thread-local random number generator.
#[verifier::external_type_specification]
#[verifier::external_body]
pub struct ExThreadRng(rand::rngs::ThreadRng);

/// What an update list holds, in order.
pub uninterp spec fn update_items(v: arrayvec::ArrayVec<FeatureUpdate, 2>) -> Seq<FeatureUpdate>;

/// What a move list holds, in order.
pub uninterp spec fn move_items(v: arrayvec::ArrayVec<MoveListEntry, 218>) -> Seq<MoveListEntry>;

/// `ArrayVec::new`: an empty vector.
#[verifier::external_body]
pub(crate) fn updates_new() -> (r: arrayvec::ArrayVec<FeatureUpdate, 2>)
    ensures
        update_items(r) == Seq::<FeatureUpdate>::empty(),
{
    arrayvec::ArrayVec::new()
}

/// `ArrayVec::push`: appends an item; it panics when the vector is full,
/// so a caller must leave room.
#[verifier::external_body]
pub(crate) fn updates_push(v: &mut arrayvec::ArrayVec<FeatureUpdate, 2>, x: FeatureUpdate)
    requires
        update_items(*old(v)).len() < 2,
    ensures
        update_items(*final(v)) == update_items(*old(v)).push(x),
{
    v.push(x)
}

/// `ArrayVec::as_slice`: the items, in order.
#[verifier::external_body]
pub(crate) fn updates_as_slice(v: &arrayvec::ArrayVec<FeatureUpdate, 2>) -> (r: &[FeatureUpdate])
    ensures
        r@ == update_items(*v),
{
    v.as_slice()
}

/// `ArrayVec::new`: an empty vector.
#[verifier::external_body]
pub(crate) fn moves_new() -> (r: arrayvec::ArrayVec<MoveListEntry, 218>)
    ensures
        move_items(r) == Seq::<MoveListEntry>::empty(),
{
    arrayvec::ArrayVec::new()
}

/// `ArrayVec::push`: appends an item; it panics when the vector is full,
/// so a caller must leave room.
#[verifier::external_body]
pub(crate) fn moves_push(v: &mut arrayvec::ArrayVec<MoveListEntry, 218>, x: MoveListEntry)
    requires
        move_items(*old(v)).len() < 218,
    ensures
        move_items(*final(v)) == move_items(*old(v)).push(x),
{
    v.push(x)
}

/// `ArrayVec::clear`: removes every item.
#[verifier::external_body]
pub(crate) fn moves_clear(v: &mut arrayvec::ArrayVec<MoveListEntry, 218>)
    ensures
        move_items(*final(v)) == Seq::<MoveListEntry>::empty(),
{
    v.clear()
}

/// `ArrayVec::as_slice`: the items, in order.
#[verifier::external_body]
pub(crate) fn moves_as_slice(v: &arrayvec::ArrayVec<MoveListEntry, 218>) -> (r: &[MoveListEntry])
    ensures
        r@ == move_items(*v),
{
    v.as_slice()
}

/// `rand::seq::IndexedRandom::choose`: `None` for an empty slice, else one of
/// its items; which one is up to the generator.
#[verifier::external_body]
pub(crate) fn choose_entry<'a>(entries: &'a [MoveListEntry], rng: &mut rand::rngs::ThreadRng) -> (r: Option<&'a MoveListEntry>)
    ensures
        r is None <==> entries@.len() == 0,
        r matches Some(e) ==> entries@.contains(*e),
{
    entries.choose(rng)
}

} // verus!
