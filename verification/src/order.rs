//! Element-wise ordering of limb sequences: shorter sequences first, then the first limb, from
//! the low end, that differs.
use vstd::prelude::*;
use core::cmp::Ordering;
use crate::limb::BitLike;
use crate::bit_slice::BitSliceExt;

verus! {

/// The order given by the first limb at or after `i` where the sequences differ.
pub open spec fn first_difference<B: BitLike>(a: Seq<B>, b: Seq<B>, i: int) -> Ordering
    decreases a.len() - i,
{
    if i < 0 || i >= a.len() || i >= b.len() {
        Ordering::Equal
    } else if a[i].to_nat() < b[i].to_nat() {
        Ordering::Less
    } else if b[i].to_nat() < a[i].to_nat() {
        Ordering::Greater
    } else {
        first_difference(a, b, i + 1)
    }
}

/// A position as an integer.
pub open spec fn position(i: usize) -> int {
    i as int
}

/// Length first, then the first differing limb from the low end.
pub open spec fn element_order<B: BitLike>(a: Seq<B>, b: Seq<B>) -> Ordering {
    if a.len() < b.len() {
        Ordering::Less
    } else if b.len() < a.len() {
        Ordering::Greater
    } else {
        first_difference(a, b, 0)
    }
}

/// Comparison of limb sequences element by element.
pub trait ElementCmp: BitSliceExt {
    /// Compare by length, and for equal lengths by the first limb, lowest first, that differs.
    fn cmp<T: ?Sized + BitSliceExt<Bit = Self::Bit>>(left: &Self, right: &T) -> (r: Ordering)
        ensures
            r == element_order(left.limbs(), right.limbs()),
    {
        let l = left.slice();
        let r = right.slice();
        if l.len() != r.len() {
            if l.len() < r.len() {
                return Ordering::Less;
            } else {
                return Ordering::Greater;
            }
        }
        let mut i: usize = 0;
        while i < l.len()
            invariant
                l@ == left.limbs(),
                r@ == right.limbs(),
                l@.len() == r@.len(),
                i <= l@.len(),
                first_difference(l@, r@, 0) == first_difference(l@, r@, position(i)),
            decreases l@.len() - i,
        {
            if l[i].limb_lt(r[i]) {
                return Ordering::Less;
            } else if r[i].limb_lt(l[i]) {
                return Ordering::Greater;
            }
            i += 1;
        }
        Ordering::Equal
    }
}

impl<I: BitLike> ElementCmp for [I] {}

impl<I: BitLike> ElementCmp for Vec<I> {}

impl<I: BitLike, const N: usize> ElementCmp for [I; N] {}

} // verus!
