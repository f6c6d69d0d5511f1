//! The fixed-capacity sequence buffer: fixed_slice_vec's vector over
//! caller-provided storage, as the engine's no-allocation store for the
//! round sequence, behind trusted wrappers.
//!
//! Two names tie the contracts together: `sequence_contents`, the
//! elements the vector holds, and `sequence_capacity`, the bound fixed by
//! the storage it was built over. Every wrapper states what the crate's
//! source shows over those names; pushing into a full vector panics
//! there, so the wrapper requires room.

use core::mem::MaybeUninit;

use vstd::prelude::*;

use crate::session::MAX_SEQUENCE;

verus! {

/// fixed_slice_vec's vector type, declared so the engine can hold one.
#[verifier::external_type_specification]
#[verifier::external_body]
#[verifier::reject_recursive_types(T)]
pub struct ExFixedSliceVec<'a, T>(fixed_slice_vec::FixedSliceVec<'a, T>);

/// The elements a sequence vector holds, oldest first.
pub uninterp spec fn sequence_contents(v: fixed_slice_vec::FixedSliceVec<bool>) -> Seq<bool>;

/// The capacity the vector was built with: the length of its storage.
pub uninterp spec fn sequence_capacity(v: fixed_slice_vec::FixedSliceVec<bool>) -> int;

/// Relies on `FixedSliceVec::new`: an empty vector over the given
/// storage, whose capacity is the storage's length.
#[verifier::external_body]
pub fn new_sequence_vec(storage: &mut [MaybeUninit<bool>; MAX_SEQUENCE]) -> (r:
    fixed_slice_vec::FixedSliceVec<bool>)
    ensures
        sequence_contents(r) == Seq::<bool>::empty(),
        sequence_capacity(r) == MAX_SEQUENCE,
{
    fixed_slice_vec::FixedSliceVec::new(&mut storage[..])
}

/// Relies on `FixedSliceVec::len`: how many elements are held.
#[verifier::external_body]
pub fn sequence_len(v: &fixed_slice_vec::FixedSliceVec<bool>) -> (r: usize)
    ensures
        r == sequence_contents(*v).len(),
{
    v.len()
}

/// Relies on `FixedSliceVec::push`, which panics on a full vector: so
/// room is required, and the value lands at the end.
#[verifier::external_body]
pub fn sequence_push(v: &mut fixed_slice_vec::FixedSliceVec<bool>, value: bool)
    requires
        sequence_contents(*old(v)).len() < sequence_capacity(*old(v)),
    ensures
        sequence_contents(*final(v)) == sequence_contents(*old(v)).push(value),
        sequence_capacity(*final(v)) == sequence_capacity(*old(v)),
{
    v.push(value)
}

/// Relies on `FixedSliceVec::clear`: all elements dropped, the storage
/// and its capacity kept.
#[verifier::external_body]
pub fn sequence_clear(v: &mut fixed_slice_vec::FixedSliceVec<bool>)
    ensures
        sequence_contents(*final(v)) == Seq::<bool>::empty(),
        sequence_capacity(*final(v)) == sequence_capacity(*old(v)),
{
    v.clear()
}

/// Relies on `FixedSliceVec`'s `Deref` to the slice of its initialized
/// prefix; slice indexing panics out of range, so the index is required
/// in range, and the element at it is returned.
#[verifier::external_body]
pub fn sequence_get(v: &fixed_slice_vec::FixedSliceVec<bool>, i: usize) -> (r: bool)
    requires
        i < sequence_contents(*v).len(),
    ensures
        r == sequence_contents(*v)[i as int],
{
    v[i]
}

} // verus!
