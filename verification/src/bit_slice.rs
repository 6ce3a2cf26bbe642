//! Indexing single elements and single bits of slices of limbs.
use vstd::prelude::*;

use crate::limb::{BitLike, nat_bit, with_nat_bit};
use crate::limbs::{seq_val, seq_bit, lemma_val_set_bit, lemma_bit_of_val};
use crate::bit_iter::BitIter;

verus! {

/// Read and write access to a sequence of limbs, by element and by bit.
pub trait BitSliceExt {
    type Bit: BitLike;

    /// The limbs held, lowest first.
    spec fn limbs(&self) -> Seq<Self::Bit>;

    /// Access this items as a slice of its elements
    fn slice(&self) -> (r: &[Self::Bit])
        ensures
            r@ == self.limbs(),
    ;

    /// Overwrite the element at `idx`, which must be in range.
    fn put(&mut self, idx: usize, val: Self::Bit)
        requires
            idx < old(self).limbs().len(),
        ensures
            final(self).limbs() == old(self).limbs().update(idx as int, val),
    ;

    /// Split a bit index into the index of its element and its position within that element.
    fn idx_bit(idx: usize) -> (r: (usize, usize))
        ensures
            r.0 == idx as nat / Self::Bit::width(),
            r.1 == idx as nat % Self::Bit::width(),
            r.1 < Self::Bit::width(),
    {
        let w = Self::Bit::bit_len();
        proof {
            Self::Bit::lemma_width();
        }
        (idx / w, idx % w)
    }

    /// Get the length of this slice in terms of [`Self::Bit`]
    fn len(&self) -> (r: usize)
        ensures
            r == self.limbs().len(),
    {
        self.slice().len()
    }

    /// Whether this slice is empty
    fn is_empty(&self) -> (r: bool)
        ensures
            r == (self.limbs().len() == 0),
    {
        self.slice().len() == 0
    }

    /// Get the length of this slice in bits
    fn bit_len(&self) -> (r: usize)
        requires
            self.limbs().len() * Self::Bit::width() <= usize::MAX,
        ensures
            r == self.limbs().len() * Self::Bit::width(),
    {
        self.len() * Self::Bit::bit_len()
    }

    /// Get the value of an element at a given index, panicking if the index is out of range
    fn get(&self, idx: usize) -> (r: Self::Bit)
        requires
            idx < self.limbs().len(),
        ensures
            r == self.limbs()[idx as int],
    {
        self.slice()[idx]
    }

    /// Get the value of an element at a given index, returning `None` if the index is out of
    /// range
    fn get_opt(&self, idx: usize) -> (r: Option<Self::Bit>)
        ensures
            r == if idx < self.limbs().len() {
                Some(self.limbs()[idx as int])
            } else {
                None
            },
    {
        let s = self.slice();
        if idx < s.len() {
            Some(s[idx])
        } else {
            None
        }
    }

    /// Get an iterator over the bit values of this slice
    fn iter_bits(&self) -> (r: BitIter<'_, Self::Bit>)
        ensures
            r.limbs() == self.limbs(),
            r.pos() == 0,
    {
        BitIter::new(self.slice())
    }

    /// Get the value of a bit at a given position, panicking if the index is out of range
    fn get_bit(&self, idx: usize) -> (r: bool)
        requires
            (idx as nat) / Self::Bit::width() < self.limbs().len(),
        ensures
            r == seq_bit(self.limbs(), idx as nat),
            r == nat_bit(seq_val(self.limbs()), idx as nat),
    {
        let (i, bit) = Self::idx_bit(idx);
        proof {
            lemma_bit_of_val(self.limbs(), idx as nat);
        }
        self.slice()[i].get_bit(bit)
    }

    /// Get the value of a bit at a given index, returning `None` if the index is out of range
    fn get_bit_opt(&self, idx: usize) -> (r: Option<bool>)
        ensures
            r == if (idx as nat) / Self::Bit::width() < self.limbs().len() {
                Some(seq_bit(self.limbs(), idx as nat))
            } else {
                None
            },
            r matches Some(b) ==> b == nat_bit(seq_val(self.limbs()), idx as nat),
            r is None ==> !nat_bit(seq_val(self.limbs()), idx as nat),
    {
        let (i, bit) = Self::idx_bit(idx);
        proof {
            lemma_bit_of_val(self.limbs(), idx as nat);
        }
        let s = self.slice();
        if i < s.len() {
            Some(s[i].get_bit(bit))
        } else {
            None
        }
    }

    /// Set a single value by index on this slice, panicking if the index is out of range
    fn set(&mut self, idx: usize, val: Self::Bit)
        requires
            idx < old(self).limbs().len(),
        ensures
            final(self).limbs() == old(self).limbs().update(idx as int, val),
    {
        self.put(idx, val);
    }

    /// Set a single value by index on this slice, returning `None` if the index is out of range
    fn set_opt(&mut self, idx: usize, val: Self::Bit) -> (r: Option<()>)
        ensures
            r is Some <==> idx < old(self).limbs().len(),
            final(self).limbs() == if idx < old(self).limbs().len() {
                old(self).limbs().update(idx as int, val)
            } else {
                old(self).limbs()
            },
    {
        if idx < self.len() {
            self.put(idx, val);
            Some(())
        } else {
            None
        }
    }

    /// Set a single bit by index on this slice, panicking if the index is out of range
    fn set_bit(&mut self, idx: usize, val: bool)
        requires
            (idx as nat) / Self::Bit::width() < old(self).limbs().len(),
        ensures
            final(self).limbs().len() == old(self).limbs().len(),
            seq_val(final(self).limbs()) == with_nat_bit(seq_val(old(self).limbs()), idx as nat, val),
    {
        let r = self.set_bit_opt(idx, val);
    }

    /// Set a single bit by index on this slice, returning `None` if the index is out of range
    fn set_bit_opt(&mut self, idx: usize, val: bool) -> (r: Option<()>)
        ensures
            r is Some <==> (idx as nat) / Self::Bit::width() < old(self).limbs().len(),
            final(self).limbs().len() == old(self).limbs().len(),
            seq_val(final(self).limbs()) == if r is Some {
                with_nat_bit(seq_val(old(self).limbs()), idx as nat, val)
            } else {
                seq_val(old(self).limbs())
            },
            r is None ==> final(self).limbs() == old(self).limbs(),
    {
        let (i, bit) = Self::idx_bit(idx);
        if i < self.len() {
            let cur = self.slice()[i];
            let new = cur.with_bit(bit, val);
            proof {
                let s = self.limbs();
                Self::Bit::lemma_width();
                lemma_bit_of_val(s, idx as nat);
                vstd::arithmetic::div_mod::lemma_fundamental_div_mod(
                    idx as int,
                    Self::Bit::width() as int,
                );
                assert(idx as nat == Self::Bit::width() * i as nat + bit as nat) by (nonlinear_arith)
                    requires
                        idx == Self::Bit::width() * (idx as nat / Self::Bit::width()) + (idx as nat
                            % Self::Bit::width()),
                        i == idx as nat / Self::Bit::width(),
                        bit == idx as nat % Self::Bit::width(),
                ;
                if nat_bit(cur.to_nat(), bit as nat) != val {
                    lemma_val_set_bit(s, i as int, bit as nat, new);
                } else {
                    Self::Bit::lemma_limb_injective(cur, new);
                    assert(s.update(i as int, new) =~= s);
                }
            }
            self.put(i, new);
            Some(())
        } else {
            None
        }
    }

    /// Set a single value by index on this slice, doing nothing if the index is out of range
    fn set_ignore(&mut self, pos: usize, val: Self::Bit)
        ensures
            final(self).limbs() == if pos < old(self).limbs().len() {
                old(self).limbs().update(pos as int, val)
            } else {
                old(self).limbs()
            },
    {
        let _ = self.set_opt(pos, val);
    }

    /// Set a single bit by index on this slice, doing nothing if the index is out of range
    fn set_bit_ignore(&mut self, pos: usize, val: bool)
        ensures
            final(self).limbs().len() == old(self).limbs().len(),
            seq_val(final(self).limbs()) == if (pos as nat) / Self::Bit::width() < old(
                self,
            ).limbs().len() {
                with_nat_bit(seq_val(old(self).limbs()), pos as nat, val)
            } else {
                seq_val(old(self).limbs())
            },
    {
        let _ = self.set_bit_opt(pos, val);
    }
}

/// Growable sequences of limbs.
pub trait BitVecExt: BitSliceExt {
    /// Resize to `len` elements, filling any new elements with `val`.
    fn extend(&mut self, len: usize, val: Self::Bit)
        ensures
            final(self).limbs().len() == len,
            forall|i: int|
                0 <= i < len && i < old(self).limbs().len() ==> #[trigger] final(self).limbs()[i]
                    == old(self).limbs()[i],
            forall|i: int| old(self).limbs().len() <= i < len ==> #[trigger] final(self).limbs()[i] == val,
    ;

    /// Set a single value by index on this slice, extending it with zeros if the index is out of
    /// range
    fn set_push(&mut self, idx: usize, val: Self::Bit)
        requires
            idx < usize::MAX,
        ensures
            final(self).limbs().len() == if idx < old(self).limbs().len() {
                old(self).limbs().len()
            } else {
                (idx + 1) as nat
            },
            final(self).limbs()[idx as int] == val,
            forall|i: int|
                0 <= i < final(self).limbs().len() && i != idx ==> (#[trigger] final(self).limbs()[i]).to_nat()
                    == crate::element::digit(old(self).limbs(), i),
    {
        let z = Self::Bit::zero();
        if idx >= self.len() {
            self.extend(idx + 1, z);
        }
        self.set(idx, val);
    }

    /// Set a single bit by index on this slice, extending it with zeros if the index is out of
    /// range
    fn set_bit_push(&mut self, idx: usize, val: bool)
        ensures
            final(self).limbs().len() == if (idx as nat) / Self::Bit::width() < old(self).limbs().len() {
                old(self).limbs().len() as nat
            } else {
                (idx as nat) / Self::Bit::width() + 1
            },
            seq_val(final(self).limbs()) == with_nat_bit(seq_val(old(self).limbs()), idx as nat, val),
    {
        let (len, _) = Self::idx_bit(idx);
        proof {
            Self::Bit::lemma_width();
            assert(len < usize::MAX) by (nonlinear_arith)
                requires
                    len == idx as nat / Self::Bit::width(),
                    Self::Bit::width() >= 8,
            ;
        }
        if len >= self.len() {
            let z = Self::Bit::zero();
            let ghost before = self.limbs();
            self.extend(len + 1, z);
            proof {
                let after = self.limbs();
                let zs = after.skip(before.len() as int);
                assert(after =~= before + zs);
                assert(crate::limbs::all_zero(zs));
                crate::limbs::lemma_val_extend_zeros(before, zs);
            }
        }
        self.set_bit(idx, val);
    }
}

impl<I: BitLike> BitVecExt for Vec<I> {
    fn extend(&mut self, len: usize, val: I) {
        if len <= self.len() {
            self.truncate(len);
        } else {
            while self.len() < len
                invariant
                    old(self).len() < len,
                    old(self)@.len() <= self@.len() <= len,
                    forall|i: int| 0 <= i < old(self)@.len() ==> #[trigger] self@[i] == old(self)@[i],
                    forall|i: int| old(self)@.len() <= i < self@.len() ==> #[trigger] self@[i] == val,
                decreases len - self@.len(),
            {
                self.push(val);
            }
        }
    }
}

impl<I: BitLike> BitSliceExt for [I] {
    type Bit = I;

    open spec fn limbs(&self) -> Seq<I> {
        self@
    }

    fn slice(&self) -> (r: &[I]) {
        self
    }

    fn put(&mut self, idx: usize, val: I) {
        self[idx] = val;
    }
}

impl<I: BitLike> BitSliceExt for Vec<I> {
    type Bit = I;

    open spec fn limbs(&self) -> Seq<I> {
        self@
    }

    fn slice(&self) -> (r: &[I]) {
        self.as_slice()
    }

    fn put(&mut self, idx: usize, val: I) {
        self[idx] = val;
    }
}

impl<I: BitLike, const N: usize> BitSliceExt for [I; N] {
    type Bit = I;

    open spec fn limbs(&self) -> Seq<I> {
        self@
    }

    fn slice(&self) -> (r: &[I]) {
        self.as_slice()
    }

    fn put(&mut self, idx: usize, val: I) {
        self[idx] = val;
    }
}

} // verus!
