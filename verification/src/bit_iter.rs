//! Walking the bits of a slice of limbs, lowest bit first.
use vstd::prelude::*;
use crate::limb::BitLike;
use crate::limbs::seq_bit;

verus! {

/// See `BitSliceExt::iter_bits`
pub struct BitIter<'a, I> {
    slice: &'a [I],
    idx: usize,
}

impl<'a, I: BitLike> BitIter<'a, I> {
    /// The limbs whose bits are walked.
    pub closed spec fn limbs(&self) -> Seq<I> {
        self.slice@
    }

    /// The index of the next bit to hand out.
    pub closed spec fn pos(&self) -> nat {
        self.idx as nat
    }

    /// Whether a bit is left to hand out.
    pub open spec fn has_next(&self) -> bool {
        self.pos() / I::width() < self.limbs().len()
    }

    /// An iterator at the first bit of `slice`.
    pub fn new(slice: &'a [I]) -> (r: BitIter<'a, I>)
        ensures
            r.limbs() == slice@,
            r.pos() == 0,
    {
        BitIter { slice, idx: 0 }
    }

    /// The next bit, lowest first, or `None` once every bit has been handed out.
    pub fn next(&mut self) -> (r: Option<bool>)
        requires
            old(self).pos() < usize::MAX,
        ensures
            final(self).limbs() == old(self).limbs(),
            old(self).has_next() ==> r == Some(seq_bit(old(self).limbs(), old(self).pos()))
                && final(self).pos() == old(self).pos() + 1,
            !old(self).has_next() ==> r is None && final(self).pos() == old(self).pos(),
    {
        let w = I::bit_len();
        proof {
            I::lemma_width();
        }
        let idx = self.idx / w;
        let bit_idx = self.idx % w;
        if idx < self.slice.len() {
            let val = self.slice[idx];
            self.idx += 1;
            Some(val.get_bit(bit_idx))
        } else {
            None
        }
    }

    /// The number of bits left to hand out.
    pub fn len(&self) -> (r: usize)
        requires
            self.limbs().len() * I::width() <= usize::MAX,
        ensures
            r == if self.pos() <= self.limbs().len() * I::width() {
                (self.limbs().len() * I::width() - self.pos()) as nat
            } else {
                0
            },
    {
        let total = self.slice.len() * I::bit_len();
        total.saturating_sub(self.idx)
    }
}

} // verus!
