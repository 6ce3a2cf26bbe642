//! A fixed-capacity buffer of decimal digits, held in an `arrayvec::ArrayVec`.
use vstd::prelude::*;
use arrayvec::ArrayVec;

verus! {

#[verifier::external_type_specification]
#[verifier::external_body]
#[verifier::reject_recursive_types(T)]
pub struct ExArrayVec<T, const CAP: usize>(ArrayVec<T, CAP>);

/// The digits a buffer holds, in the order they were pushed.
pub uninterp spec fn digit_buffer(v: ArrayVec<u8, 255>) -> Seq<u8>;

/// `ArrayVec::new`: an empty buffer.
#[verifier::external_body]
pub(crate) fn buffer_new() -> (r: ArrayVec<u8, 255>)
    ensures
        digit_buffer(r) == Seq::<u8>::empty(),
{
    ArrayVec::new()
}

/// `ArrayVec::push`: appends a digit at the end. It panics on a full buffer, so the buffer must
/// hold fewer than its capacity of 255.
#[verifier::external_body]
pub(crate) fn buffer_push(v: &mut ArrayVec<u8, 255>, d: u8)
    requires
        digit_buffer(*old(v)).len() < 255,
    ensures
        digit_buffer(*final(v)) == digit_buffer(*old(v)).push(d),
{
    v.push(d)
}

/// `ArrayVec::is_empty`: whether the buffer holds no digit.
#[verifier::external_body]
pub(crate) fn buffer_is_empty(v: &ArrayVec<u8, 255>) -> (r: bool)
    ensures
        r == (digit_buffer(*v).len() == 0),
{
    v.is_empty()
}

/// `ArrayVec::as_slice`: the digits held, in order.
#[verifier::external_body]
pub(crate) fn buffer_as_slice(v: &ArrayVec<u8, 255>) -> (r: &[u8])
    ensures
        r@ == digit_buffer(*v),
{
    v.as_slice()
}

} // verus!
