//! An unsigned 'big' integer: an unbounded natural number. Values that fit in a machine word
//! minus two bits are held inline in the tagged word; larger values are held as limbs.
use vstd::prelude::*;
use crate::limb::BitLike;
use vstd::arithmetic::power2::pow2;
use core::cmp::Ordering;
use crate::limb::lemma_usize_width;
use crate::limbs::{seq_val, is_normalized, weight, lemma_val_bound};
use crate::element::{
    shrink_vec, add_values, sub_values, mul_values, div_rem_values, cmp_values, ordering_of,
    lemma_normalized_short, shrink_slice,
};
use crate::limbs::lemma_val_single;
use crate::radix_text::{radix_string, radix_char, rev_radix_chars, lemma_rev_radix_chars_push, write_radix_digits};
use crate::decimal::{dec_string, rev_chars, digit_char, lemma_rev_chars_push, write_digits};
use crate::bitwise::{shl_bits, shr_bits};
use crate::big_utils::{TaggedOffset, MaybeInline, OutOfRangeError, Side};
use crate::utils::{Prim, arr_to_int, lemma_normalized_fit};

verus! {

/// The most limbs a big integer may hold; keeps every bit count within a machine word.
pub open spec fn limb_cap() -> nat {
    (usize::MAX / 128) as nat
}

/// Whether a value can be held: its limbs stay within `limb_cap`.
pub open spec fn fits(v: nat) -> bool {
    v < weight::<usize>(limb_cap())
}

/// A value below `2^b` with `b` at most a quarter of a machine word fits.
pub proof fn lemma_fits_bits(b: nat)
    requires
        b <= (6 * limb_cap()) as nat,
    ensures
        forall|v: nat| v < pow2(b) ==> #[trigger] fits(v),
{
    lemma_usize_width();
    let w = usize::BITS as nat;
    assert(b <= w * limb_cap()) by (nonlinear_arith)
        requires
            b <= 6 * limb_cap(),
            w >= 32,
    ;
    if b < w * limb_cap() {
        vstd::arithmetic::power2::lemma_pow2_strictly_increases(b, w * limb_cap());
    }
}

/// The largest value held inline.
pub open spec fn inline_max() -> nat {
    (usize::MAX >> 2usize) as nat
}

/// An unsigned 'big' integer - an unbounded unsigned value, capable of representing any value up
/// to however many bytes the running computer can reasonably hold in memory.
#[derive(Debug)]
pub struct UBig {
    tag: TaggedOffset<1>,
    limbs: Vec<usize>,
}

impl UBig {
    #[verifier::type_invariant]
    closed spec fn wf(self) -> bool {
        if self.tag.spec_inline() {
            &&& self.limbs@.len() == 0
            &&& self.tag.spec_offset() <= inline_max()
        } else {
            &&& self.tag.spec_offset() == 0
            &&& is_normalized(self.limbs@)
            &&& self.limbs@.len() <= limb_cap()
            &&& !(self.limbs@.len() == 1 && self.limbs@[0] <= inline_max())
        }
    }

    /// The limbs of the value, lowest first, with no zero limb on top.
    pub closed spec fn digits(self) -> Seq<usize> {
        if self.tag.spec_inline() {
            seq![self.tag.spec_offset() as usize]
        } else {
            self.limbs@
        }
    }

    /// The number of limbs the value needs.
    pub closed spec fn limb_len(self) -> nat {
        self.digits().len()
    }

    /// Whether the value is held inline.
    pub closed spec fn spec_is_inline(self) -> bool {
        self.tag.spec_inline()
    }

    proof fn lemma_wf(self)
        requires
            self.wf(),
        ensures
            is_normalized(self.digits()),
            1 <= self.limb_len() <= limb_cap(),
            seq_val(self.digits()) == self@,
            self.spec_is_inline() <==> self@ <= inline_max(),
            self.spec_is_inline() ==> self.digits() == seq![self@ as usize],
    {
        lemma_usize_width();
        vstd::bits::lemma_usize_shr_is_div(usize::MAX, 2);
        vstd::arithmetic::power2::lemma2_to64();
        if self.tag.spec_inline() {
            let d = self.digits();
            crate::limbs::lemma_val_single(d);
        } else {
            let d = self.digits();
            if d.len() == 1 {
                crate::limbs::lemma_val_single(d);
            } else {
                crate::limbs::lemma_val_top_nonzero(d);
                crate::limbs::lemma_weight_mono::<usize>(1, (d.len() - 1) as nat);
                crate::limbs::lemma_weight_succ::<usize>(0);
                crate::limbs::lemma_weight_zero::<usize>();
            }
        }
    }

    /// Create a new `UBig` with the default value of zero
    pub fn new() -> (r: UBig)
        ensures
            r@ == 0,
    {
        UBig::new_inline(0)
    }

    fn new_inline(val: usize) -> (r: UBig)
        requires
            val <= inline_max(),
        ensures
            r@ == val,
            r.spec_is_inline(),
    {
        proof {
            lemma_usize_width();
            vstd::arithmetic::power2::lemma2_to64();
            vstd::bits::lemma_usize_shr_is_div(usize::MAX, 1);
            vstd::bits::lemma_usize_shr_is_div(usize::MAX, 2);
        }
        let r = UBig { tag: TaggedOffset::new(val, 0), limbs: Vec::new() };
        proof {
            r.lemma_wf();
        }
        r
    }

    /// The canonical value of a vector of limbs.
    fn from_limbs(val: Vec<usize>) -> (r: UBig)
        requires
            val@.len() >= 1,
            val@.len() <= limb_cap(),
        ensures
            r@ == seq_val(val@),
    {
        let v = shrink_vec(val);
        if v.len() == 1 && v[0] <= (usize::MAX >> 2usize) {
            proof {
                crate::limbs::lemma_val_single(v@);
            }
            UBig::new_inline(v[0])
        } else {
            proof {
                lemma_usize_width();
                vstd::arithmetic::power2::lemma2_to64();
            }
            let r = UBig { tag: TaggedOffset::new_ptr(0), limbs: v };
            proof {
                r.lemma_wf();
            }
            r
        }
    }

    /// The value of a slice of limbs, lowest first.
    pub fn new_slice(val: &[usize]) -> (r: UBig)
        requires
            val@.len() >= 1,
            val@.len() <= limb_cap(),
        ensures
            r@ == seq_val(val@),
    {
        let s = shrink_slice(val);
        let mut v: Vec<usize> = Vec::new();
        let mut i: usize = 0;
        while i < s.len()
            invariant
                i <= s@.len(),
                v@ == s@.take(i as int),
            decreases s@.len() - i,
        {
            v.push(s[i]);
            i += 1;
            proof {
                assert(v@ =~= s@.take(i as int));
            }
        }
        proof {
            assert(s@.take(s@.len() as int) =~= s@);
        }
        UBig::from_limbs(v)
    }

    /// The limbs of the value, lowest first.
    pub fn val(&self) -> (r: MaybeInline<'_>)
        ensures
            r.slice_view() == self.digits(),
    {
        proof {
            use_type_invariant(self);
        }
        if self.tag.inline() {
            MaybeInline::Inline([self.tag.offset_bits()])
        } else {
            MaybeInline::Slice(self.limbs.as_slice())
        }
    }

    /// The limbs of the value, lowest first, as a value.
    pub fn val_checked(&self) -> (r: MaybeInline<'_>)
        ensures
            seq_val(r.slice_view()) == self@,
            r.slice_view().len() >= 1,
            r.slice_view().len() <= limb_cap(),
    {
        proof {
            use_type_invariant(self);
            self.lemma_wf();
        }
        self.val()
    }

    /// Whether the value is below `other`.
    pub fn less(&self, other: &UBig) -> (r: bool)
        ensures
            r == (self@ < other@),
    {
        let a = self.val_checked();
        let b = other.val_checked();
        crate::element::less_values(a.slice(), b.slice())
    }

    /// Whether the value is odd.
    pub fn is_odd(&self) -> (r: bool)
        ensures
            r == (self@ % 2 == 1),
    {
        let v = self.val_checked();
        let s = v.slice();
        proof {
            crate::limbs::lemma_bit_of_val(s@, 0);
            vstd::arithmetic::power2::lemma2_to64();
            usize::lemma_width();
            vstd::arithmetic::div_mod::lemma_small_mod(0, usize::width());
            vstd::arithmetic::div_mod::lemma_div_basics(0);
        }
        s[0].get_bit(0)
    }

    /// Check whether this value is stored inline
    pub fn is_inline(&self) -> (r: bool)
        ensures
            r == (self@ <= inline_max()),
    {
        proof {
            use_type_invariant(self);
            self.lemma_wf();
        }
        self.tag.inline()
    }

    /// Check whether this value is stored in the interned limbs
    pub fn is_interned(&self) -> (r: bool)
        ensures
            r == (self@ > inline_max()),
    {
        proof {
            use_type_invariant(self);
            self.lemma_wf();
        }
        !self.tag.inline()
    }
}

impl UBig {
    /// The number of limbs bounds the value, and the value bounds the number of limbs.
    proof fn lemma_limb_len(self, n: nat)
        requires
            n >= 1,
            self.wf(),
        ensures
            self.limb_len() <= n <==> self@ < weight::<usize>(n),
            self@ < weight::<usize>(self.limb_len()),
            1 <= self.limb_len() <= limb_cap(),
    {
        self.lemma_wf();
        lemma_val_bound(self.digits());
        if self.limb_len() <= n {
            crate::limbs::lemma_weight_mono::<usize>(self.limb_len(), n);
        }
        if self@ < weight::<usize>(n) {
            lemma_normalized_short(self.digits(), n);
        }
    }

    /// Sum of two values.
    pub fn plus(&self, rhs: &UBig) -> (r: UBig)
        requires
            fits(self@ + rhs@),
        ensures
            r@ == self@ + rhs@,
    {
        proof {
            use_type_invariant(self);
            use_type_invariant(rhs);
            self.lemma_wf();
            rhs.lemma_wf();
            lemma_usize_width();
        }
        let va = self.val();
        let vb = rhs.val();
        let out = add_values(va.slice(), vb.slice());
        proof {
            lemma_normalized_short(out@, limb_cap());
        }
        UBig::from_limbs(out)
    }

    /// Difference of two values, the second no larger than the first.
    pub fn minus(&self, rhs: &UBig) -> (r: UBig)
        requires
            rhs@ <= self@,
        ensures
            r@ == self@ - rhs@,
    {
        proof {
            use_type_invariant(self);
            use_type_invariant(rhs);
            self.lemma_wf();
            rhs.lemma_wf();
        }
        let va = self.val();
        let vb = rhs.val();
        let (out, _) = sub_values(va.slice(), vb.slice());
        proof {
            self.lemma_limb_len(self.limb_len());
            lemma_normalized_short(out@, self.limb_len());
        }
        UBig::from_limbs(out)
    }

    /// Product of two values.
    pub fn times(&self, rhs: &UBig) -> (r: UBig)
        requires
            fits(self@ * rhs@),
        ensures
            r@ == self@ * rhs@,
    {
        proof {
            use_type_invariant(self);
            use_type_invariant(rhs);
            self.lemma_wf();
            rhs.lemma_wf();
            lemma_usize_width();
        }
        let va = self.val();
        let vb = rhs.val();
        let out = mul_values(va.slice(), vb.slice());
        proof {
            lemma_normalized_short(out@, limb_cap());
        }
        UBig::from_limbs(out)
    }

    /// Quotient and remainder. Division by zero gives a quotient with every bit of the wider
    /// operand set and the numerator as remainder.
    pub fn div_rem(&self, rhs: &UBig) -> (r: (UBig, UBig))
        ensures
            rhs@ > 0 ==> r.0@ == self@ / rhs@,
            rhs@ > 0 ==> r.1@ == self@ % rhs@,
            rhs@ == 0 ==> r.0@ == weight::<usize>(if self.limb_len() >= rhs.limb_len() {
                self.limb_len()
            } else {
                rhs.limb_len()
            }) - 1,
            rhs@ == 0 ==> r.1@ == self@,
            rhs@ == 0 ==> r.0@ == weight::<usize>(self.limb_len()) - 1,
    {
        proof {
            use_type_invariant(self);
            use_type_invariant(rhs);
            self.lemma_wf();
            rhs.lemma_wf();
            if rhs@ == 0 {
                assert(rhs.limb_len() == 1) by {
                    if rhs.limb_len() > 1 {
                        crate::limbs::lemma_val_top_nonzero(rhs.digits());
                        crate::limbs::lemma_weight_pos::<usize>((rhs.limb_len() - 1) as nat);
                    }
                }
            }
            lemma_usize_width();
            assert(limb_cap() * 64 <= usize::MAX) by (nonlinear_arith)
                requires
                    limb_cap() == usize::MAX / 128,
            ;
        }
        let va = self.val();
        let vb = rhs.val();
        let (q, rem) = div_rem_values(va.slice(), vb.slice());
        proof {
            let m: nat = if self.limb_len() >= rhs.limb_len() { self.limb_len() } else { rhs.limb_len() };
            self.lemma_limb_len(m);
            rhs.lemma_limb_len(m);
            lemma_val_bound(q@);
            if rhs@ > 0 {
                vstd::arithmetic::div_mod::lemma_mod_bound(self@ as int, rhs@ as int);
            }
            lemma_normalized_short(rem@, m);
        }
        (UBig::from_limbs(q), UBig::from_limbs(rem))
    }

    /// The value shifted left by `n` bits.
    pub fn shift_left(&self, n: usize) -> (r: UBig)
        requires
            fits(self@ * pow2(n as nat)),
        ensures
            r@ == self@ * pow2(n as nat),
    {
        proof {
            use_type_invariant(self);
            self.lemma_wf();
            lemma_usize_width();
        }
        if self.is_zero() {
            proof {
                let p = pow2(n as nat);
                assert(0 * p == 0) by (nonlinear_arith);
            }
            return UBig::new();
        }
        proof {
            let cap = limb_cap();
            let w = usize::BITS as nat;
            vstd::arithmetic::power2::lemma_pow2_pos(n as nat);
            assert(self@ * pow2(n as nat) >= pow2(n as nat)) by (nonlinear_arith)
                requires
                    self@ >= 1,
            ;
            if n as nat > w * cap {
                vstd::arithmetic::power2::lemma_pow2_strictly_increases(w * cap, n as nat);
            }
            assert(w * cap == usize::BITS * cap);
            assert(self.limb_len() * w + n + w <= usize::MAX) by (nonlinear_arith)
                requires
                    self.limb_len() <= cap,
                    n < w * cap,
                    cap == usize::MAX / 128,
                    w <= 64,
            ;
        }
        let va = self.val();
        let out = shl_bits(va.slice(), n);
        let out = shrink_vec(out);
        proof {
            lemma_normalized_short(out@, limb_cap());
        }
        UBig::from_limbs(out)
    }

    /// The value shifted right by `n` bits.
    pub fn shift_right(&self, n: usize) -> (r: UBig)
        ensures
            r@ == self@ / pow2(n as nat),
    {
        proof {
            use_type_invariant(self);
            self.lemma_wf();
            lemma_usize_width();
            assert(limb_cap() * 64 <= usize::MAX) by (nonlinear_arith)
                requires
                    limb_cap() == usize::MAX / 128,
            ;
        }
        let va = self.val();
        let out = shr_bits(va.slice(), n);
        UBig::from_limbs(out)
    }

    /// Whether the value is zero.
    pub fn is_zero(&self) -> (r: bool)
        ensures
            r == (self@ == 0),
    {
        proof {
            use_type_invariant(self);
            self.lemma_wf();
        }
        self.tag.inline() && self.tag.offset_bits() == 0
    }

    /// Whether the value is one.
    pub fn is_one(&self) -> (r: bool)
        ensures
            r == (self@ == 1),
    {
        proof {
            use_type_invariant(self);
            self.lemma_wf();
        }
        proof {
            lemma_usize_width();
            vstd::arithmetic::power2::lemma2_to64();
            vstd::bits::lemma_usize_shr_is_div(usize::MAX, 2);
        }
        self.tag.inline() && self.tag.offset_bits() == 1
    }

    /// The value zero.
    pub fn zero() -> (r: UBig)
        ensures
            r@ == 0,
    {
        UBig::new_inline(0)
    }

    /// The value one.
    pub fn one() -> (r: UBig)
        ensures
            r@ == 1,
    {
        proof {
            lemma_usize_width();
            vstd::arithmetic::power2::lemma2_to64();
            vstd::bits::lemma_usize_shr_is_div(usize::MAX, 2);
        }
        UBig::new_inline(1)
    }

    /// The value as the unsigned machine integer `U`, where it fits.
    pub fn checked_to_unsigned<U: Prim>(&self) -> (r: Option<U>)
        ensures
            r is Some <==> self@ < pow2(U::bits()),
            r matches Some(v) ==> v.value() == self@,
    {
        proof {
            use_type_invariant(self);
            self.lemma_wf();
        }
        let va = self.val();
        let s = va.slice();
        proof {
            if self@ < pow2(U::bits()) {
                lemma_normalized_fit(s@, U::bits());
            }
        }
        arr_to_int::<usize, U>(s)
    }

    /// The value as the unsigned machine integer `U`, or an error above its range.
    pub fn to_unsigned<U: Prim>(&self) -> (r: Result<U, OutOfRangeError>)
        ensures
            r is Ok <==> self@ < pow2(U::bits()),
            r matches Ok(v) ==> v.value() == self@,
            r matches Err(e) ==> e.0 == Side::Above,
    {
        match self.checked_to_unsigned::<U>() {
            Some(v) => Ok(v),
            None => Err(OutOfRangeError::above()),
        }
    }

    /// The value as the machine integer `S` (any of `i8` to `i128` or `u8` to `u64`), or an error
    /// above its range.
    pub fn to_signed<S: crate::machine_int::MachineInt>(&self) -> (r: Result<S, OutOfRangeError>)
        ensures
            r is Ok <==> self@ <= S::high(),
            r matches Ok(v) ==> v.int_of() == self@,
            r matches Err(e) ==> e.0 == Side::Above,
    {
        proof {
            S::lemma_range();
            vstd::arithmetic::power2::lemma2_to64();
            vstd::arithmetic::power2::lemma2_to64_rest();
            vstd::arithmetic::power2::lemma_pow2_adds(64, 64);
        }
        match self.checked_to_unsigned::<u128>() {
            Some(m) => {
                if m > 0x7fff_ffff_ffff_ffff_ffff_ffff_ffff_ffffu128 {
                    Err(OutOfRangeError::above())
                } else {
                    let v = m as i128;
                    if v > S::max_int().to_wide() {
                        Err(OutOfRangeError::above())
                    } else {
                        Ok(S::from_wide(v))
                    }
                }
            },
            None => Err(OutOfRangeError::above()),
        }
    }

    /// The value as the unsigned machine integer `U`, or its largest value when it does not fit.
    pub fn saturate_to_unsigned<U: Prim>(&self) -> (r: U)
        ensures
            r.value() == if self@ < pow2(U::bits()) {
                self@
            } else {
                (pow2(U::bits()) - 1) as nat
            },
    {
        match self.checked_to_unsigned::<U>() {
            Some(v) => v,
            None => U::narrow(U::max_wide()),
        }
    }

    /// The value, where it fits in a `usize`.
    pub fn to_usize(&self) -> (r: Option<usize>)
        ensures
            r is Some <==> self@ <= usize::MAX,
            r matches Some(v) ==> v == self@,
    {
        proof {
            use_type_invariant(self);
            self.lemma_wf();
        }
        let va = self.val();
        let s = va.slice();
        if s.len() == 1 {
            proof {
                crate::limbs::lemma_val_single(s@);
            }
            Some(s[0])
        } else {
            proof {
                crate::limbs::lemma_val_top_nonzero(s@);
                crate::limbs::lemma_weight_mono::<usize>(1, (s@.len() - 1) as nat);
                crate::limbs::lemma_weight_succ::<usize>(0);
                crate::limbs::lemma_weight_zero::<usize>();
                lemma_usize_width();
            }
            None
        }
    }

    /// The value of a `usize`.
    pub fn from_usize(v: usize) -> (r: UBig)
        ensures
            r@ == v,
    {
        let a = [v];
        proof {
            assert(a@.len() == 1);
            crate::limbs::lemma_val_single(a@);
            lemma_usize_width();
            assert(limb_cap() >= 1) by {
                vstd::arithmetic::power2::lemma2_to64();
            }
        }
        UBig::new_slice(a.as_slice())
    }
}

impl View for UBig {
    type V = nat;

    closed spec fn view(&self) -> nat {
        seq_val(self.digits())
    }
}

/// A signed machine integer as an integer.
pub open spec fn int_of_i32(x: i32) -> int {
    x as int
}

/// A base of at least two raised to `e` is at least `2^e`.
pub proof fn lemma_pow_at_least_pow2(s: nat, e: nat)
    requires
        s >= 2,
    ensures
        vstd::arithmetic::power::pow(s as int, e) >= pow2(e),
    decreases e,
{
    if e == 0 {
        vstd::arithmetic::power::lemma_pow0(s as int);
        vstd::arithmetic::power2::lemma2_to64();
    } else {
        vstd::arithmetic::power2::lemma_pow2_unfold(e);
        reveal(vstd::arithmetic::power::pow);
        lemma_pow_at_least_pow2(s, (e - 1) as nat);
        let p = vstd::arithmetic::power::pow(s as int, (e - 1) as nat);
        assert(vstd::arithmetic::power::pow(s as int, e) == s * p);
        let q = pow2((e - 1) as nat);
        assert(s * p >= 2 * q) by (nonlinear_arith)
            requires
                s >= 2,
                p >= q,
                q >= 0,
        ;
    }
}

impl UBig {
    /// The value of a `u128`.
    pub fn from_u128(v: u128) -> (r: UBig)
        ensures
            r@ == v,
    {
        proof {
            lemma_usize_width();
            vstd::arithmetic::power2::lemma2_to64();
            vstd::arithmetic::power2::lemma2_to64_rest();
        }
        let base: u128 = (usize::MAX as u128) + 1;
        let mut limbs: Vec<usize> = Vec::new();
        let mut left: u128 = v;
        let ghost mut k: nat = 0;
        proof {
            vstd::arithmetic::power2::lemma_pow2_adds(64, 64);
            crate::limbs::lemma_weight_zero::<usize>();
            let l = left;
            assert(l * 1 == l) by (nonlinear_arith);
        }
        while left > 0 || limbs.len() == 0
            invariant
                base == usize::MAX + 1,
                base == pow2(usize::BITS as nat),
                usize::BITS == 32 || usize::BITS == 64,
                limbs@.len() == k,
                k <= 4,
                seq_val(limbs@) + left * weight::<usize>(k) == v,
                v < pow2(128),
                left == 0 ==> k >= 1 || v == 0,
            decreases left, 5 - k,
        {
            let digit = (left % base) as usize;
            let ghost old_left = left;
            let ghost w = weight::<usize>(k);
            left = left / base;
            proof {
                vstd::arithmetic::div_mod::lemma_fundamental_div_mod(old_left as int, base as int);
                vstd::arithmetic::div_mod::lemma_mod_bound(old_left as int, base as int);
                crate::limbs::lemma_val_push(limbs@, digit);
                crate::limbs::lemma_weight_succ::<usize>(k);
                crate::limbs::lemma_weight_pos::<usize>(k);
                let l = left;
                assert(old_left * w == digit * w + l * (w * base)) by (nonlinear_arith)
                    requires
                        old_left == base * l + digit,
                ;
                if old_left > 0 {
                    let rest = seq_val(limbs@);
                    assert(w <= v) by (nonlinear_arith)
                        requires
                            rest + old_left * w == v,
                            old_left >= 1,
                            w > 0,
                    ;
                    if usize::BITS * k >= 128 {
                        if usize::BITS * k > 128 {
                            vstd::arithmetic::power2::lemma_pow2_strictly_increases(128, (usize::BITS * k) as nat);
                        }
                    }
                    assert(usize::BITS * k < 128);
                    assert(k < 4) by (nonlinear_arith)
                        requires
                            usize::BITS * k < 128,
                            usize::BITS >= 32,
                    ;
                }
            }
            limbs.push(digit);
            proof {
                k = k + 1;
            }
        }
        proof {
            assert(limb_cap() >= 4) by {
                vstd::arithmetic::power2::lemma2_to64();
            }
            let z = left;
            let w = weight::<usize>(k);
            assert(z * w == 0) by (nonlinear_arith)
                requires
                    z == 0,
            ;
        }
        UBig::from_limbs(limbs)
    }

    /// The value raised to the power `rhs`.
    pub fn pow(self, rhs: UBig) -> (r: UBig)
        requires
            fits(vstd::arithmetic::power::pow(self@ as int, rhs@) as nat),
        ensures
            r@ == vstd::arithmetic::power::pow(self@ as int, rhs@),
    {
        proof {
            vstd::arithmetic::power::lemma_pow0(self@ as int);
            vstd::arithmetic::power::lemma_pow1(self@ as int);
        }
        if rhs.is_zero() {
            return UBig::one();
        }
        if self.is_zero() || self.is_one() {
            proof {
                vstd::arithmetic::power::lemma0_pow(rhs@);
                vstd::arithmetic::power::lemma1_pow(rhs@);
            }
            return self;
        }
        let ghost s = self@;
        let ghost e = rhs@;
        proof {
            lemma_pow_at_least_pow2(s, e);
            lemma_usize_width();
            vstd::arithmetic::power2::lemma_pow2_pos(e);
            let w = usize::BITS as nat;
            let cap = limb_cap();
            if e > w * cap {
                vstd::arithmetic::power2::lemma_pow2_strictly_increases(w * cap, e);
            }
            assert(w * cap <= usize::MAX) by (nonlinear_arith)
                requires
                    w <= 64,
                    cap == usize::MAX / 128,
            ;
        }
        let count: usize = match rhs.to_usize() {
            Some(c) => c,
            None => 0,
        };
        let mut out = self.clone();
        let mut i: usize = 1;
        while i < count
            invariant
                1 <= i <= count,
                count == e,
                s == self@,
                s >= 2,
                out@ == vstd::arithmetic::power::pow(s as int, i as nat),
                fits(vstd::arithmetic::power::pow(s as int, e) as nat),
            decreases count - i,
        {
            proof {
                vstd::arithmetic::power::lemma_pow_adds(s as int, i as nat, 1);
                vstd::arithmetic::power::lemma_pow1(s as int);
                vstd::arithmetic::power::lemma_pow_increases(s, (i + 1) as nat, e);
            }
            out = out.times(&self);
            i += 1;
        }
        out
    }
}

impl Clone for UBig {
    fn clone(&self) -> (r: Self)
        ensures
            r@ == self@,
    {
        proof {
            use_type_invariant(self);
            self.lemma_wf();
        }
        let v = self.val();
        UBig::new_slice(v.slice())
    }
}

impl Default for UBig {
    fn default() -> (r: Self)
        ensures
            r@ == 0,
    {
        UBig::new()
    }
}

impl PartialEq for UBig {
    fn eq(&self, other: &Self) -> (r: bool) {
        let a = self.val();
        let b = other.val();
        crate::element::equal_values(a.slice(), b.slice())
    }
}

impl vstd::std_specs::cmp::PartialEqSpecImpl for UBig {
    open spec fn obeys_eq_spec() -> bool {
        true
    }

    open spec fn eq_spec(&self, other: &UBig) -> bool {
        self@ == other@
    }
}

impl Eq for UBig {}

impl PartialOrd for UBig {
    fn partial_cmp(&self, other: &Self) -> (r: Option<Ordering>) {
        let a = self.val();
        let b = other.val();
        Some(cmp_values(a.slice(), b.slice()))
    }
}

impl vstd::std_specs::cmp::PartialOrdSpecImpl for UBig {
    open spec fn obeys_partial_cmp_spec() -> bool {
        true
    }

    open spec fn partial_cmp_spec(&self, other: &UBig) -> Option<Ordering> {
        Some(ordering_of(self@, other@))
    }
}

impl core::ops::Add<UBig> for UBig {
    type Output = UBig;

    fn add(self, rhs: UBig) -> (r: UBig)
        ensures
            r@ == self@ + rhs@,
    {
        self.plus(&rhs)
    }
}

impl vstd::std_specs::ops::AddSpecImpl<UBig> for UBig {
    open spec fn obeys_add_spec() -> bool {
        false
    }

    open spec fn add_req(self, rhs: UBig) -> bool {
        fits(self@ + rhs@)
    }

    open spec fn add_spec(self, rhs: UBig) -> UBig {
        arbitrary()
    }
}

impl core::ops::Sub<UBig> for UBig {
    type Output = UBig;

    fn sub(self, rhs: UBig) -> (r: UBig)
        ensures
            r@ == self@ - rhs@,
    {
        self.minus(&rhs)
    }
}

impl vstd::std_specs::ops::SubSpecImpl<UBig> for UBig {
    open spec fn obeys_sub_spec() -> bool {
        false
    }

    open spec fn sub_req(self, rhs: UBig) -> bool {
        rhs@ <= self@
    }

    open spec fn sub_spec(self, rhs: UBig) -> UBig {
        arbitrary()
    }
}

impl core::ops::Mul<UBig> for UBig {
    type Output = UBig;

    fn mul(self, rhs: UBig) -> (r: UBig)
        ensures
            r@ == self@ * rhs@,
    {
        self.times(&rhs)
    }
}

impl vstd::std_specs::ops::MulSpecImpl<UBig> for UBig {
    open spec fn obeys_mul_spec() -> bool {
        false
    }

    open spec fn mul_req(self, rhs: UBig) -> bool {
        fits(self@ * rhs@)
    }

    open spec fn mul_spec(self, rhs: UBig) -> UBig {
        arbitrary()
    }
}

impl core::ops::Div<UBig> for UBig {
    type Output = UBig;

    fn div(self, rhs: UBig) -> (r: UBig)
        ensures
            rhs@ > 0 ==> r@ == self@ / rhs@,
            rhs@ == 0 ==> r@ == weight::<usize>(if self.limb_len() >= rhs.limb_len() {
                self.limb_len()
            } else {
                rhs.limb_len()
            }) - 1,
    {
        self.div_rem(&rhs).0
    }
}

impl vstd::std_specs::ops::DivSpecImpl<UBig> for UBig {
    open spec fn obeys_div_spec() -> bool {
        false
    }

    open spec fn div_req(self, rhs: UBig) -> bool {
        true
    }

    open spec fn div_spec(self, rhs: UBig) -> UBig {
        arbitrary()
    }
}

impl core::ops::Rem<UBig> for UBig {
    type Output = UBig;

    fn rem(self, rhs: UBig) -> (r: UBig)
        ensures
            rhs@ > 0 ==> r@ == self@ % rhs@,
            rhs@ == 0 ==> r@ == self@,
    {
        self.div_rem(&rhs).1
    }
}

impl vstd::std_specs::ops::RemSpecImpl<UBig> for UBig {
    open spec fn obeys_rem_spec() -> bool {
        false
    }

    open spec fn rem_req(self, rhs: UBig) -> bool {
        true
    }

    open spec fn rem_spec(self, rhs: UBig) -> UBig {
        arbitrary()
    }
}

impl core::ops::Shl<UBig> for UBig {
    type Output = UBig;

    fn shl(self, rhs: UBig) -> (r: UBig)
        ensures
            r@ == self@ * pow2(rhs@),
    {
        match rhs.to_usize() {
            Some(n) => self.shift_left(n),
            None => UBig::new(),
        }
    }
}

impl vstd::std_specs::ops::ShlSpecImpl<UBig> for UBig {
    open spec fn obeys_shl_spec() -> bool {
        false
    }

    open spec fn shl_req(self, rhs: UBig) -> bool {
        rhs@ <= usize::MAX && fits(self@ * pow2(rhs@))
    }

    open spec fn shl_spec(self, rhs: UBig) -> UBig {
        arbitrary()
    }
}

impl core::ops::Shr<UBig> for UBig {
    type Output = UBig;

    fn shr(self, rhs: UBig) -> (r: UBig)
        ensures
            r@ == self@ / pow2(rhs@),
    {
        match rhs.to_usize() {
            Some(n) => self.shift_right(n),
            None => UBig::new(),
        }
    }
}

impl vstd::std_specs::ops::ShrSpecImpl<UBig> for UBig {
    open spec fn obeys_shr_spec() -> bool {
        false
    }

    open spec fn shr_req(self, rhs: UBig) -> bool {
        rhs@ <= usize::MAX
    }

    open spec fn shr_spec(self, rhs: UBig) -> UBig {
        arbitrary()
    }
}

impl core::ops::Shl<u32> for UBig {
    type Output = UBig;

    fn shl(self, rhs: u32) -> (r: UBig)
        ensures
            r@ == self@ * pow2(rhs as nat),
    {
        self.shift_left(rhs as usize)
    }
}

impl vstd::std_specs::ops::ShlSpecImpl<u32> for UBig {
    open spec fn obeys_shl_spec() -> bool {
        false
    }

    open spec fn shl_req(self, rhs: u32) -> bool {
        fits(self@ * pow2(rhs as nat))
    }

    open spec fn shl_spec(self, rhs: u32) -> UBig {
        arbitrary()
    }
}

impl core::ops::Shr<u32> for UBig {
    type Output = UBig;

    fn shr(self, rhs: u32) -> (r: UBig)
        ensures
            r@ == self@ / pow2(rhs as nat),
    {
        self.shift_right(rhs as usize)
    }
}

impl vstd::std_specs::ops::ShrSpecImpl<u32> for UBig {
    open spec fn obeys_shr_spec() -> bool {
        false
    }

    open spec fn shr_req(self, rhs: u32) -> bool {
        true
    }

    open spec fn shr_spec(self, rhs: u32) -> UBig {
        arbitrary()
    }
}

impl From<u8> for UBig {
    fn from(v: u8) -> (r: UBig)
        ensures
            r@ == v,
    {
        UBig::from_usize(v as usize)
    }
}

impl vstd::std_specs::convert::FromSpecImpl<u8> for UBig {
    open spec fn obeys_from_spec() -> bool {
        false
    }

    open spec fn from_spec(v: u8) -> UBig {
        arbitrary()
    }
}

impl From<u16> for UBig {
    fn from(v: u16) -> (r: UBig)
        ensures
            r@ == v,
    {
        UBig::from_usize(v as usize)
    }
}

impl vstd::std_specs::convert::FromSpecImpl<u16> for UBig {
    open spec fn obeys_from_spec() -> bool {
        false
    }

    open spec fn from_spec(v: u16) -> UBig {
        arbitrary()
    }
}

impl From<u32> for UBig {
    fn from(v: u32) -> (r: UBig)
        ensures
            r@ == v,
    {
        UBig::from_u128(v as u128)
    }
}

impl vstd::std_specs::convert::FromSpecImpl<u32> for UBig {
    open spec fn obeys_from_spec() -> bool {
        false
    }

    open spec fn from_spec(v: u32) -> UBig {
        arbitrary()
    }
}

impl From<u64> for UBig {
    fn from(v: u64) -> (r: UBig)
        ensures
            r@ == v,
    {
        UBig::from_u128(v as u128)
    }
}

impl vstd::std_specs::convert::FromSpecImpl<u64> for UBig {
    open spec fn obeys_from_spec() -> bool {
        false
    }

    open spec fn from_spec(v: u64) -> UBig {
        arbitrary()
    }
}

impl From<u128> for UBig {
    fn from(v: u128) -> (r: UBig)
        ensures
            r@ == v,
    {
        UBig::from_u128(v)
    }
}

impl vstd::std_specs::convert::FromSpecImpl<u128> for UBig {
    open spec fn obeys_from_spec() -> bool {
        false
    }

    open spec fn from_spec(v: u128) -> UBig {
        arbitrary()
    }
}

impl From<usize> for UBig {
    fn from(v: usize) -> (r: UBig)
        ensures
            r@ == v,
    {
        UBig::from_usize(v)
    }
}

impl vstd::std_specs::convert::FromSpecImpl<usize> for UBig {
    open spec fn obeys_from_spec() -> bool {
        false
    }

    open spec fn from_spec(v: usize) -> UBig {
        arbitrary()
    }
}

impl UBig {
    /// The decimal digits of the value, lowest first.
    pub fn decimal_digits(&self) -> (r: Vec<u8>)
        ensures
            r@.len() >= 1,
            forall|i: int| 0 <= i < r@.len() ==> r@[i] < 10,
            rev_chars(r@) == dec_string(self@),
    {
        let ten = UBig::from_usize(10);
        let mut digits: Vec<u8> = Vec::new();
        let mut scratch = self.clone();
        let ghost n = self@;
        while !scratch.is_zero()
            invariant
                ten@ == 10,
                forall|i: int| 0 <= i < digits@.len() ==> digits@[i] < 10,
                scratch@ > 0 ==> dec_string(n) == dec_string(scratch@) + rev_chars(digits@),
                scratch@ == 0 ==> (n == 0 && digits@.len() == 0) || (dec_string(n) == rev_chars(
                    digits@,
                ) && digits@.len() >= 1),
            decreases scratch@,
        {
            let (q, rem) = scratch.div_rem(&ten);
            let d: u8 = match rem.to_usize() {
                Some(x) => x as u8,
                None => 0,
            };
            proof {
                vstd::arithmetic::div_mod::lemma_mod_bound(scratch@ as int, 10);
                lemma_rev_chars_push(digits@, d);
                let s = scratch@;
                assert(d == s % 10);
                if s >= 10 {
                    assert(dec_string(s) == dec_string(s / 10).push(digit_char(s % 10)));
                    assert(dec_string(s / 10) + rev_chars(digits@.push(d)) =~= dec_string(s) + rev_chars(digits@));
                    vstd::arithmetic::div_mod::lemma_div_pos_is_pos(s as int, 10);
                } else {
                    vstd::arithmetic::div_mod::lemma_small_mod(s, 10);
                    assert(rev_chars(digits@.push(d)) =~= dec_string(s) + rev_chars(digits@));
                }
            }
            digits.push(d);
            scratch = q;
        }
        if digits.len() == 0 {
            digits.push(0);
            proof {
                lemma_rev_chars_push(Seq::<u8>::empty(), 0);
                assert(Seq::<u8>::empty().push(0) =~= digits@);
                assert(rev_chars(Seq::<u8>::empty()) == Seq::<char>::empty());
                assert(seq![digit_char(0)] + Seq::<char>::empty() =~= seq![digit_char(0)]);
            }
        }
        digits
    }

    /// The digits of the value in `radix`, lowest first.
    pub fn radix_digits(&self, radix: u32) -> (r: Vec<u8>)
        requires
            2 <= radix <= 36,
        ensures
            r@.len() >= 1,
            forall|i: int| 0 <= i < r@.len() ==> r@[i] < radix,
            forall|upper: bool| rev_radix_chars(r@, upper) == radix_string(self@, radix as nat, upper),
    {
        let b = UBig::from_usize(radix as usize);
        let ghost bn = radix as nat;
        let mut digits: Vec<u8> = Vec::new();
        let mut scratch = self.clone();
        let ghost n = self@;
        while !scratch.is_zero()
            invariant
                b@ == bn,
                bn == radix,
                2 <= radix <= 36,
                forall|i: int| 0 <= i < digits@.len() ==> digits@[i] < radix,
                forall|upper: bool| scratch@ > 0 ==> radix_string(n, bn, upper) == radix_string(scratch@, bn, upper)
                    + rev_radix_chars(digits@, upper),
                forall|upper: bool| scratch@ == 0 ==> (n == 0 && digits@.len() == 0) || (radix_string(n, bn, upper)
                    == rev_radix_chars(digits@, upper) && digits@.len() >= 1),
            decreases scratch@,
        {
            let (q, rem) = scratch.div_rem(&b);
            let d: u8 = match rem.to_usize() {
                Some(x) => x as u8,
                None => 0,
            };
            proof {
                vstd::arithmetic::div_mod::lemma_mod_bound(scratch@ as int, bn as int);
                let s = scratch@;
                assert(d == s % bn);
                vstd::arithmetic::div_mod::lemma_div_decreases(s as int, bn as int);
                assert forall|upper: bool| #![auto] (q@ > 0 ==> radix_string(n, bn, upper) == radix_string(q@, bn, upper)
                    + rev_radix_chars(digits@.push(d), upper)) && (q@ == 0 ==> radix_string(n, bn, upper)
                    == rev_radix_chars(digits@.push(d), upper)) by {
                    lemma_rev_radix_chars_push(digits@, d, upper);
                    if s >= bn {
                        assert(radix_string(s, bn, upper) == radix_string(s / bn, bn, upper).push(radix_char(s % bn, upper)));
                        assert(radix_string(s / bn, bn, upper) + rev_radix_chars(digits@.push(d), upper)
                            =~= radix_string(s, bn, upper) + rev_radix_chars(digits@, upper));
                        vstd::arithmetic::div_mod::lemma_div_pos_is_pos(s as int, bn as int);
                        vstd::arithmetic::div_mod::lemma_div_non_zero(s as int, bn as int);
                    } else {
                        vstd::arithmetic::div_mod::lemma_small_mod(s, bn);
                        vstd::arithmetic::div_mod::lemma_basic_div(s as int, bn as int);
                        assert(rev_radix_chars(digits@.push(d), upper) =~= radix_string(s, bn, upper) + rev_radix_chars(digits@, upper));
                    }
                }
            }
            digits.push(d);
            scratch = q;
        }
        if digits.len() == 0 {
            digits.push(0);
            proof {
                assert forall|upper: bool| #![auto] rev_radix_chars(digits@, upper) == radix_string(n, bn, upper) by {
                    lemma_rev_radix_chars_push(Seq::<u8>::empty(), 0, upper);
                    assert(Seq::<u8>::empty().push(0) =~= digits@);
                    assert(rev_radix_chars(Seq::<u8>::empty(), upper) == Seq::<char>::empty());
                    assert(seq![radix_char(0, upper)] + Seq::<char>::empty() =~= seq![radix_char(0, upper)]);
                }
            }
        }
        digits
    }

    /// The value written in `radix`, from 2 to 36, with letters for the digits above nine in
    /// upper or lower case.
    pub fn to_string_radix(&self, radix: u32, upper: bool) -> (r: String)
        requires
            2 <= radix <= 36,
        ensures
            r@ == radix_string(self@, radix as nat, upper),
    {
        let digits = self.radix_digits(radix);
        write_radix_digits(digits.as_slice(), upper)
    }

    /// The value written in decimal.
    pub fn to_string(&self) -> (r: String)
        ensures
            r@ == dec_string(self@),
    {
        let digits = self.decimal_digits();
        write_digits(digits.as_slice())
    }

    /// Compare with a machine integer: -1, 0 or 1.
    fn compare_int(&self, other: i32) -> (r: i8)
        ensures
            r == -1 <==> (self@ as int) < other as int,
            r == 0 <==> (self@ as int) == other as int,
            r == 1 <==> (self@ as int) > other as int,
    {
        if other < 0 {
            return 1;
        }
        let o = UBig::from_usize(other as usize);
        let a = self.val();
        let b = o.val();
        if crate::element::less_values(a.slice(), b.slice()) {
            -1
        } else if crate::element::equal_values(a.slice(), b.slice()) {
            0
        } else {
            1
        }
    }
}

/// The order of a natural number against an integer.
pub open spec fn order_against(v: nat, x: int) -> Ordering {
    if v < x {
        Ordering::Less
    } else if v == x {
        Ordering::Equal
    } else {
        Ordering::Greater
    }
}

impl PartialEq<i32> for UBig {
    fn eq(&self, other: &i32) -> (r: bool) {
        self.compare_int(*other) == 0
    }
}

impl vstd::std_specs::cmp::PartialEqSpecImpl<i32> for UBig {
    open spec fn obeys_eq_spec() -> bool {
        true
    }

    open spec fn eq_spec(&self, other: &i32) -> bool {
        self@ == int_of_i32(*other)
    }
}

impl PartialOrd<i32> for UBig {
    fn partial_cmp(&self, other: &i32) -> (r: Option<Ordering>) {
        let c = self.compare_int(*other);
        if c < 0 {
            Some(Ordering::Less)
        } else if c == 0 {
            Some(Ordering::Equal)
        } else {
            Some(Ordering::Greater)
        }
    }
}

impl vstd::std_specs::cmp::PartialOrdSpecImpl<i32> for UBig {
    open spec fn obeys_partial_cmp_spec() -> bool {
        true
    }

    open spec fn partial_cmp_spec(&self, other: &i32) -> Option<Ordering> {
        Some(order_against(self@, int_of_i32(*other)))
    }
}

impl crate::traits::Numeric for UBig {

}

impl crate::traits::Integral for UBig {

}

impl crate::traits::Unsigned for UBig {

}

} // verus!
