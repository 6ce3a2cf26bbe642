//! A sequence of limbs taken as one unsigned number, with whole-number operations implemented
//! bit by bit and limb by limb.
use vstd::prelude::*;
use vstd::arithmetic::power2::pow2;
use crate::limb::BitLike;
use crate::limbs::{seq_val, weight, is_normalized, lemma_val_bound, lemma_weight_mono, all_zero,
    lemma_val_extend_zeros};
use crate::element::{add_values, mul_values, zero_vec, div_rem_values};
use crate::bitwise::{shl_bits, shr_bits, add_bits, sub_bits, mul_bits, div_bits};
use crate::fixed_bytes::lemma_val_take_mod;

verus! {

/// The first `n` limbs of `v`, padded with zero limbs: the value modulo `weight(n)`.
pub fn truncate_limbs<B: BitLike>(v: &[B], n: usize) -> (r: Vec<B>)
    ensures
        r@.len() == n,
        seq_val(r@) == seq_val(v@) % weight::<B>(n as nat),
{
    let mut r: Vec<B> = zero_vec(n);
    let k: usize = if v.len() < n {
        v.len()
    } else {
        n
    };
    let mut i: usize = 0;
    while i < k
        invariant
            i <= k,
            k <= n,
            k <= v@.len(),
            r@.len() == n,
            forall|j: int| 0 <= j < i ==> r@[j] == v@[j],
            forall|j: int| i <= j < n ==> (#[trigger] r@[j]).to_nat() == 0,
        decreases k - i,
    {
        r.set(i, v[i]);
        i += 1;
    }
    proof {
        let t = v@.take(k as int);
        let z = r@.skip(k as int);
        assert(r@ =~= t + z);
        assert(all_zero(z));
        lemma_val_extend_zeros(t, z);
        if v@.len() < n {
            assert(t =~= v@);
            lemma_val_bound(v@);
            lemma_weight_mono::<B>(v@.len(), n as nat);
            vstd::arithmetic::div_mod::lemma_small_mod(seq_val(v@), weight::<B>(n as nat));
        } else {
            lemma_val_take_mod(v@, n as nat);
        }
    }
    r
}

/// A sequence of limbs, lowest first, taken as one unsigned number.
pub struct BitSlice<I> {
    inner: Vec<I>,
}

impl<I: BitLike> View for BitSlice<I> {
    type V = Seq<I>;

    closed spec fn view(&self) -> Seq<I> {
        self.inner@
    }
}

impl<I: BitLike> BitSlice<I> {
    /// Wrap a vector of limbs.
    pub fn new(inner: Vec<I>) -> (r: BitSlice<I>)
        ensures
            r@ == inner@,
    {
        BitSlice { inner }
    }

    /// The limbs.
    pub fn into_inner(self) -> (r: Vec<I>)
        ensures
            r@ == self@,
    {
        self.inner
    }

    /// The limbs, borrowed.
    pub fn inner(&self) -> (r: &[I])
        ensures
            r@ == self@,
    {
        self.inner.as_slice()
    }

    /// The number of limbs.
    pub fn len(&self) -> (r: usize)
        ensures
            r == self@.len(),
    {
        self.inner.len()
    }

    /// Shift left by `right` bits, implemented as a series of bitwise copies
    pub fn shl_bitwise(left: BitSlice<I>, right: usize) -> (r: BitSlice<I>)
        requires
            left@.len() * I::width() + right + I::width() <= usize::MAX,
        ensures
            seq_val(r@) == seq_val(left@) * pow2(right as nat),
            r@.len() >= left@.len(),
            r@.len() * I::width() <= left@.len() * I::width() + right + I::width(),
    {
        BitSlice { inner: shl_bits(left.inner.as_slice(), right) }
    }

    /// Shift right by `right` bits, implemented as a series of bitwise copies
    pub fn shr_bitwise(left: BitSlice<I>, right: usize) -> (r: BitSlice<I>)
        requires
            left@.len() * I::width() <= usize::MAX,
        ensures
            seq_val(r@) == seq_val(left@) / pow2(right as nat),
            r@.len() == left@.len(),
    {
        BitSlice { inner: shr_bits(left.inner.as_slice(), right) }
    }

    /// Add two slices, implemented as a bitwise add-and-carry
    pub fn add_bitwise(left: BitSlice<I>, right: BitSlice<I>) -> (r: BitSlice<I>)
        requires
            left@.len() * I::width() < usize::MAX,
            right@.len() * I::width() < usize::MAX,
        ensures
            seq_val(r@) == seq_val(left@) + seq_val(right@),
            r@.len() == if seq_val(left@) + seq_val(right@) < weight::<I>(
                if left@.len() >= right@.len() { left@.len() } else { right@.len() },
            ) {
                if left@.len() >= right@.len() { left@.len() } else { right@.len() }
            } else {
                (if left@.len() >= right@.len() { left@.len() } else { right@.len() }) + 1
            },
    {
        BitSlice { inner: add_bits(left.inner.as_slice(), right.inner.as_slice()) }
    }

    /// Add `right` into `left`, bitwise with a carry, keeping the length of `left`: the sum
    /// modulo `weight(left.len())`.
    pub fn add_in_place_bitwise(left: BitSlice<I>, right: &BitSlice<I>) -> (r: BitSlice<I>)
        requires
            left@.len() * I::width() < usize::MAX,
            right@.len() * I::width() < usize::MAX,
        ensures
            r@.len() == left@.len(),
            seq_val(r@) == (seq_val(left@) + seq_val(right@)) % weight::<I>(left@.len()),
    {
        let sum = add_bits(left.inner.as_slice(), right.inner.as_slice());
        BitSlice { inner: truncate_limbs(sum.as_slice(), left.len()) }
    }

    /// Subtract, implemented as a bitwise sub-and-borrow: the magnitude of the difference and
    /// whether `right` was the larger
    pub fn sub_bitwise(left: BitSlice<I>, right: BitSlice<I>) -> (r: (BitSlice<I>, bool))
        requires
            left@.len() * I::width() < usize::MAX,
            right@.len() * I::width() < usize::MAX,
        ensures
            r.1 == (seq_val(left@) < seq_val(right@)),
            seq_val(r.0@) == if r.1 {
                seq_val(right@) - seq_val(left@)
            } else {
                seq_val(left@) - seq_val(right@)
            },
            r.0@.len() == if left@.len() >= right@.len() { left@.len() } else { right@.len() },
    {
        let (v, b) = sub_bits(left.inner.as_slice(), right.inner.as_slice());
        (BitSlice { inner: v }, b)
    }

    /// Multiply, implemented as a bitwise shift-and-add
    pub fn add_shift_mul_bitwise(left: BitSlice<I>, right: BitSlice<I>) -> (r: BitSlice<I>)
        requires
            (left@.len() + right@.len() + 2) * I::width() <= usize::MAX,
        ensures
            seq_val(r@) == seq_val(left@) * seq_val(right@),
    {
        BitSlice { inner: mul_bits(left.inner.as_slice(), right.inner.as_slice()) }
    }

    /// Divide, implemented as bitwise long division: the quotient, as long as the longer input,
    /// and the remainder. A zero divisor gives a quotient with every bit set and the numerator
    /// as remainder.
    pub fn div_long_bitwise(num: BitSlice<I>, div: BitSlice<I>) -> (r: (BitSlice<I>, BitSlice<I>))
        requires
            num@.len() + 2 < usize::MAX,
            div@.len() + 2 < usize::MAX,
            (if num@.len() >= div@.len() { num@.len() } else { div@.len() }) * I::width() <= usize::MAX,
        ensures
            r.0@.len() == if num@.len() >= div@.len() { num@.len() } else { div@.len() },
            seq_val(div@) > 0 ==> seq_val(r.0@) == seq_val(num@) / seq_val(div@),
            seq_val(div@) > 0 ==> seq_val(r.1@) == seq_val(num@) % seq_val(div@),
            seq_val(div@) == 0 ==> seq_val(r.0@) == pow2(r.0@.len() * I::width()) - 1,
            seq_val(div@) == 0 ==> seq_val(r.1@) == seq_val(num@),
    {
        let (q, m) = div_bits(num.inner.as_slice(), div.inner.as_slice());
        (BitSlice { inner: q }, BitSlice { inner: m })
    }

    /// Divide, implemented as long division of elements: the quotient, as long as the longer
    /// input, and the remainder. A zero divisor gives a quotient with every bit set and the
    /// numerator as remainder.
    pub fn div_long_element(left: BitSlice<I>, right: BitSlice<I>) -> (r: (BitSlice<I>, BitSlice<I>))
        requires
            left@.len() + 2 < usize::MAX,
            right@.len() + 2 < usize::MAX,
            (if left@.len() >= right@.len() { left@.len() } else { right@.len() }) * I::width() <= usize::MAX,
        ensures
            r.0@.len() == if left@.len() >= right@.len() { left@.len() } else { right@.len() },
            seq_val(right@) > 0 ==> seq_val(r.0@) == seq_val(left@) / seq_val(right@),
            seq_val(right@) > 0 ==> seq_val(r.1@) == seq_val(left@) % seq_val(right@),
            seq_val(right@) == 0 ==> seq_val(r.0@) == pow2(r.0@.len() * I::width()) - 1,
            seq_val(right@) == 0 ==> seq_val(r.1@) == seq_val(left@),
    {
        let (q, m) = div_rem_values(left.inner.as_slice(), right.inner.as_slice());
        (BitSlice { inner: q }, BitSlice { inner: m })
    }

    /// Divide in the limbs of `left`: the quotient, and whether the division overflowed, which
    /// only a zero divisor does; its quotient has every bit of `left`'s limbs set.
    pub fn div_long_element_overflowing(left: BitSlice<I>, right: BitSlice<I>) -> (r: (BitSlice<I>, bool))
        requires
            left@.len() + 2 < usize::MAX,
            right@.len() + 2 < usize::MAX,
            (if left@.len() >= right@.len() { left@.len() } else { right@.len() }) * I::width() <= usize::MAX,
        ensures
            r.0@.len() == left@.len(),
            r.1 == (seq_val(right@) == 0),
            seq_val(right@) > 0 ==> seq_val(r.0@) == seq_val(left@) / seq_val(right@),
            seq_val(right@) == 0 ==> seq_val(r.0@) == weight::<I>(left@.len()) - 1,
    {
        let la = left.len();
        let empty: Vec<I> = Vec::new();
        let zero = crate::element::equal_values(right.inner.as_slice(), empty.as_slice());
        proof {
            assert(empty@.len() == 0);
        }
        let (q, _m) = div_rem_values(left.inner.as_slice(), right.inner.as_slice());
        let out = truncate_limbs(q.as_slice(), la);
        proof {
            let lv = seq_val(left@);
            let rv = seq_val(right@);
            lemma_val_bound(left@);
            vstd::arithmetic::power2::lemma_pow2_pos(la as nat * I::width());
            if rv > 0 {
                vstd::arithmetic::div_mod::lemma_div_is_ordered_by_denominator(lv as int, 1, rv as int);
                vstd::arithmetic::div_mod::lemma_div_basics_2(lv as int);
                vstd::arithmetic::div_mod::lemma_small_mod(lv / rv, weight::<I>(la as nat));
            } else {
                let n = q@.len();
                assert(I::width() * la <= n * I::width()) by (nonlinear_arith)
                    requires
                        la <= n,
                ;
                lemma_all_ones_mod((n * I::width()) as nat, (I::width() * la) as nat);
            }
        }
        (BitSlice { inner: out }, zero)
    }

    /// Divide in the limbs of `left`, where the divisor is not zero
    pub fn div_long_element_checked(left: BitSlice<I>, right: BitSlice<I>) -> (r: Option<BitSlice<I>>)
        requires
            left@.len() + 2 < usize::MAX,
            right@.len() + 2 < usize::MAX,
            (if left@.len() >= right@.len() { left@.len() } else { right@.len() }) * I::width() <= usize::MAX,
        ensures
            r is Some <==> seq_val(right@) > 0,
            r matches Some(v) ==> v@.len() == left@.len() && seq_val(v@) == seq_val(left@) / seq_val(right@),
    {
        let (out, over) = BitSlice::div_long_element_overflowing(left, right);
        if over {
            None
        } else {
            Some(out)
        }
    }

    /// Divide in the limbs of `left`; a zero divisor gives every bit of `left`'s limbs set
    pub fn div_long_element_wrapping(left: BitSlice<I>, right: BitSlice<I>) -> (r: BitSlice<I>)
        requires
            left@.len() + 2 < usize::MAX,
            right@.len() + 2 < usize::MAX,
            (if left@.len() >= right@.len() { left@.len() } else { right@.len() }) * I::width() <= usize::MAX,
        ensures
            r@.len() == left@.len(),
            seq_val(right@) > 0 ==> seq_val(r@) == seq_val(left@) / seq_val(right@),
            seq_val(right@) == 0 ==> seq_val(r@) == weight::<I>(left@.len()) - 1,
    {
        BitSlice::div_long_element_overflowing(left, right).0
    }

    /// Add, implemented as element-wise add and carry; no zero limbs on top
    pub fn add_element(left: BitSlice<I>, right: BitSlice<I>) -> (r: BitSlice<I>)
        requires
            left@.len() < usize::MAX,
            right@.len() < usize::MAX,
        ensures
            seq_val(r@) == seq_val(left@) + seq_val(right@),
            is_normalized(r@),
    {
        BitSlice { inner: add_values(left.inner.as_slice(), right.inner.as_slice()) }
    }

    /// Add in the limbs of `left`, wrapping: the sum modulo `weight(left.len())`, and whether the
    /// sum reached `weight` of the longer operand's length
    pub fn add_element_overflowing(left: BitSlice<I>, right: BitSlice<I>) -> (r: (BitSlice<I>, bool))
        requires
            left@.len() < usize::MAX,
            right@.len() < usize::MAX,
        ensures
            r.0@.len() == left@.len(),
            seq_val(r.0@) == (seq_val(left@) + seq_val(right@)) % weight::<I>(left@.len()),
            r.1 == (seq_val(left@) + seq_val(right@) >= weight::<I>(
                if left@.len() >= right@.len() { left@.len() } else { right@.len() },
            )),
    {
        let len: usize = if left.len() >= right.len() {
            left.len()
        } else {
            right.len()
        };
        let s = add_values(left.inner.as_slice(), right.inner.as_slice());
        let out = truncate_limbs(s.as_slice(), left.len());
        let carry = if s.len() > len {
            if len == 0 {
                !s[0].limb_eq(I::zero())
            } else {
                true
            }
        } else {
            false
        };
        proof {
            let v = seq_val(s@);
            crate::limbs::lemma_weight_zero::<I>();
            lemma_val_bound(s@);
            if s@.len() > len {
                if len == 0 {
                    if s@.len() > 1 {
                        crate::limbs::lemma_val_top_nonzero(s@);
                        crate::limbs::lemma_weight_pos::<I>((s@.len() - 1) as nat);
                    }
                    crate::limbs::lemma_val_single(s@);
                } else {
                    crate::limbs::lemma_val_top_nonzero(s@);
                    lemma_weight_mono::<I>(len as nat, (s@.len() - 1) as nat);
                }
            } else {
                lemma_weight_mono::<I>(s@.len(), len as nat);
            }
        }
        (BitSlice { inner: out }, carry)
    }

    /// Add in the limbs of `left`, where the sum fits
    pub fn add_element_checked(left: BitSlice<I>, right: BitSlice<I>) -> (r: Option<BitSlice<I>>)
        requires
            left@.len() < usize::MAX,
            right@.len() < usize::MAX,
        ensures
            r is Some <==> seq_val(left@) + seq_val(right@) < weight::<I>(
                if left@.len() >= right@.len() { left@.len() } else { right@.len() },
            ),
            r matches Some(v) ==> seq_val(v@) == (seq_val(left@) + seq_val(right@)) % weight::<I>(
                left@.len(),
            ),
            r matches Some(v) ==> v@.len() == left@.len(),
    {
        let (out, carry) = BitSlice::add_element_overflowing(left, right);
        if carry {
            None
        } else {
            Some(out)
        }
    }

    /// Add in the limbs of `left`, wrapping
    pub fn add_element_wrapping(left: BitSlice<I>, right: BitSlice<I>) -> (r: BitSlice<I>)
        requires
            left@.len() < usize::MAX,
            right@.len() < usize::MAX,
        ensures
            seq_val(r@) == (seq_val(left@) + seq_val(right@)) % weight::<I>(left@.len()),
            r@.len() == left@.len(),
    {
        BitSlice::add_element_overflowing(left, right).0
    }

    /// Multiply, implemented as long multiplication of elements; no zero limbs on top
    pub fn mul_long_element(left: BitSlice<I>, right: BitSlice<I>) -> (r: BitSlice<I>)
        requires
            left@.len() + right@.len() <= usize::MAX,
        ensures
            seq_val(r@) == seq_val(left@) * seq_val(right@),
            left@.len() + right@.len() >= 1 ==> is_normalized(r@),
    {
        BitSlice { inner: mul_values(left.inner.as_slice(), right.inner.as_slice()) }
    }

    /// Multiply in the limbs of `left`, wrapping: the product modulo `weight(left.len())`, and
    /// whether the product did not fit
    pub fn mul_long_element_overflowing(left: BitSlice<I>, right: BitSlice<I>) -> (r: (BitSlice<I>, bool))
        requires
            left@.len() + right@.len() <= usize::MAX,
        ensures
            r.0@.len() == left@.len(),
            seq_val(r.0@) == (seq_val(left@) * seq_val(right@)) % weight::<I>(left@.len()),
            r.1 == (seq_val(left@) * seq_val(right@) >= weight::<I>(left@.len())),
    {
        let la = left.len();
        let p = mul_values(left.inner.as_slice(), right.inner.as_slice());
        let out = truncate_limbs(p.as_slice(), la);
        let over = if la == 0 {
            false
        } else {
            p.len() > la
        };
        proof {
            let a = seq_val(left@);
            let b = seq_val(right@);
            crate::limbs::lemma_weight_zero::<I>();
            lemma_val_bound(p@);
            if la == 0 {
                assert(a == 0);
                assert(a * b == 0) by (nonlinear_arith)
                    requires
                        a == 0,
                ;
            } else {
                if p@.len() > la {
                    crate::limbs::lemma_val_top_nonzero(p@);
                    lemma_weight_mono::<I>(la as nat, (p@.len() - 1) as nat);
                } else {
                    lemma_weight_mono::<I>(p@.len(), la as nat);
                }
            }
        }
        (BitSlice { inner: out }, over)
    }

    /// Multiply in the limbs of `left`, where the product fits
    pub fn mul_long_element_checked(left: BitSlice<I>, right: BitSlice<I>) -> (r: Option<BitSlice<I>>)
        requires
            left@.len() + right@.len() <= usize::MAX,
        ensures
            r is Some <==> seq_val(left@) * seq_val(right@) < weight::<I>(left@.len()),
            r matches Some(v) ==> seq_val(v@) == seq_val(left@) * seq_val(right@),
            r matches Some(v) ==> v@.len() == left@.len(),
    {
        let (out, over) = BitSlice::mul_long_element_overflowing(left, right);
        proof {
            if !over {
                vstd::arithmetic::div_mod::lemma_small_mod(seq_val(left@) * seq_val(right@), weight::<I>(left@.len()));
            }
        }
        if over {
            None
        } else {
            Some(out)
        }
    }

    /// Multiply in the limbs of `left`, wrapping
    pub fn mul_long_element_wrapping(left: BitSlice<I>, right: BitSlice<I>) -> (r: BitSlice<I>)
        requires
            left@.len() + right@.len() <= usize::MAX,
        ensures
            seq_val(r@) == (seq_val(left@) * seq_val(right@)) % weight::<I>(left@.len()),
            r@.len() == left@.len(),
    {
        BitSlice::mul_long_element_overflowing(left, right).0
    }
}

/// Every bit set in `a` bits, kept to its low `b` bits, is every bit set in `b` bits.
proof fn lemma_all_ones_mod(a: nat, b: nat)
    requires
        b <= a,
    ensures
        (pow2(a) - 1) % (pow2(b) as int) == pow2(b) - 1,
{
    let k = (a - b) as nat;
    vstd::arithmetic::power2::lemma_pow2_adds(b, k);
    vstd::arithmetic::power2::lemma_pow2_pos(b);
    vstd::arithmetic::power2::lemma_pow2_pos(k);
    let pb = pow2(b) as int;
    let pk = pow2(k) as int;
    assert(pow2(a) - 1 == (pk - 1) * pb + (pb - 1)) by (nonlinear_arith)
        requires
            pow2(a) == pb * pk,
    ;
    vstd::arithmetic::div_mod::lemma_fundamental_div_mod_converse(pow2(a) - 1, pb, pk - 1, pb - 1);
}

} // verus!
