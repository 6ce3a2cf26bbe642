//! A signed 'big' integer: a sign and an unbounded magnitude, with no negative zero.
use vstd::prelude::*;
use vstd::arithmetic::power2::pow2;
use core::cmp::Ordering;
use crate::limbs::seq_val;
use crate::ubig::{UBig, fits, limb_cap, inline_max, int_of_i32};
use crate::big_utils::{MaybeInline, OutOfRangeError, Side};
use crate::utils::Prim;
use crate::decimal::dec_string;
use crate::radix_text::radix_string;

use crate::radix::{str_value, first_non_digit, first_non_digit_from, char_digit, lemma_digit_step};
use vstd::string::StringExecFns;
use vstd::std_specs::iter::IteratorSpec;

verus! {

/// The absolute value of an integer.
pub open spec fn abs(x: int) -> nat {
    if x < 0 {
        (-x) as nat
    } else {
        x as nat
    }
}

/// Apply a sign to a magnitude.
pub open spec fn signed(neg: bool, m: nat) -> int {
    if neg {
        -(m as int)
    } else {
        m as int
    }
}

/// The quotient of magnitudes, carrying the sign that differs between the operands.
pub open spec fn quotient_toward_zero(a: int, b: int) -> int {
    signed((a < 0) != (b < 0), abs(a) / abs(b))
}

/// The remainder of magnitudes, carrying the sign that differs between the operands.
pub open spec fn remainder_signed(a: int, b: int) -> int {
    signed((a < 0) != (b < 0), abs(a) % abs(b))
}

/// A signed 'big' integer - an unbounded signed value, capable of representing any value up to
/// however many bytes the running computer can reasonably hold in memory.
#[derive(Debug)]
pub struct IBig {
    neg: bool,
    mag: UBig,
}

impl IBig {
    #[verifier::type_invariant]
    closed spec fn wf(self) -> bool {
        self.neg ==> self.mag@ > 0
    }

    /// The magnitude of the value.
    pub closed spec fn magnitude(self) -> nat {
        self.mag@
    }

    /// The number of limbs of the magnitude.
    pub closed spec fn limb_len(self) -> nat {
        self.mag.limb_len()
    }

    /// Quotient and remainder of the magnitudes, each negative where exactly one operand is.
    /// Division by zero gives a quotient whose magnitude has every bit of its limbs set, and
    /// the numerator as remainder.
    pub fn div_rem(&self, rhs: &IBig) -> (r: (IBig, IBig))
        ensures
            rhs@ != 0 ==> r.0@ == quotient_toward_zero(self@, rhs@),
            rhs@ != 0 ==> r.1@ == remainder_signed(self@, rhs@),
            rhs@ == 0 ==> r.0@ == signed(self@ < 0, (crate::limbs::weight::<usize>(self.limb_len()) - 1) as nat),
            rhs@ == 0 ==> r.1@ == self@,
    {
        proof {
            use_type_invariant(self);
            use_type_invariant(rhs);
        }
        let (q, m) = self.mag.div_rem(&rhs.mag);
        proof {
            crate::limbs::lemma_weight_pos::<usize>(self.mag.limb_len());
        }
        (IBig::from_parts(self.neg != rhs.neg, q), IBig::from_parts(self.neg != rhs.neg, m))
    }

    /// The value with the given sign and magnitude; a zero magnitude is never negative.
    pub fn from_sign_magnitude(neg: bool, mag: UBig) -> (r: IBig)
        ensures
            r@ == signed(neg && mag@ > 0, mag@),
    {
        IBig::from_parts(neg, mag)
    }

    fn from_parts(neg: bool, mag: UBig) -> (r: IBig)
        ensures
            r@ == signed(neg && mag@ > 0, mag@),
            r.magnitude() == mag@,
    {
        let n = neg && !mag.is_zero();
        IBig { neg: n, mag }
    }

    /// Create a new `IBig` with the default value of zero
    pub fn new() -> (r: IBig)
        ensures
            r@ == 0,
    {
        IBig::from_parts(false, UBig::new())
    }

    /// The value with magnitude given by limbs, lowest first, and the given sign; a zero
    /// magnitude is never negative.
    pub fn new_slice(val: &[usize], neg: bool) -> (r: IBig)
        requires
            val@.len() >= 1,
            val@.len() <= limb_cap(),
        ensures
            r@ == signed(neg && seq_val(val@) > 0, seq_val(val@)),
    {
        IBig::from_parts(neg, UBig::new_slice(val))
    }

    /// The limbs of the magnitude, lowest first.
    pub fn val(&self) -> (r: MaybeInline<'_>)
        ensures
            seq_val(r.slice_view()) == abs(self@),
    {
        proof {
            use_type_invariant(self);
        }
        self.mag.val_checked()
    }

    /// Call `f` on the limbs of the magnitude, lowest first.
    pub fn with_slice<R, F: FnOnce(&[usize]) -> R>(&self, f: F) -> (r: R)
        requires
            forall|s: &[usize]| #[trigger] f.requires((s,)),
        ensures
            exists|s: &[usize]| seq_val(s@) == abs(self@) && f.ensures((s,), r),
    {
        let v = self.val();
        let s = v.slice();
        f(s)
    }

    /// Check whether this value is stored inline
    pub fn is_inline(&self) -> (r: bool)
        ensures
            r == (abs(self@) <= inline_max()),
    {
        proof {
            use_type_invariant(self);
        }
        self.mag.is_inline()
    }

    /// Check whether this value is stored in the interned limbs
    pub fn is_interned(&self) -> (r: bool)
        ensures
            r == (abs(self@) > inline_max()),
    {
        proof {
            use_type_invariant(self);
        }
        self.mag.is_interned()
    }

    /// The value zero.
    pub fn zero() -> (r: IBig)
        ensures
            r@ == 0,
    {
        IBig::new()
    }

    /// The value one.
    pub fn one() -> (r: IBig)
        ensures
            r@ == 1,
    {
        IBig::from_parts(false, UBig::one())
    }

    /// Whether the value is zero.
    pub fn is_zero(&self) -> (r: bool)
        ensures
            r == (self@ == 0),
    {
        self.mag.is_zero()
    }

    /// Whether the value is one.
    pub fn is_one(&self) -> (r: bool)
        ensures
            r == (self@ == 1),
    {
        proof {
            use_type_invariant(self);
        }
        !self.neg && self.mag.is_one()
    }

    /// Whether the value is zero or above.
    pub fn is_positive(&self) -> (r: bool)
        ensures
            r == (self@ >= 0),
    {
        proof {
            use_type_invariant(self);
        }
        !self.neg
    }

    /// Whether the value is below zero.
    pub fn is_negative(&self) -> (r: bool)
        ensures
            r == (self@ < 0),
    {
        proof {
            use_type_invariant(self);
        }
        self.neg
    }

    /// The absolute value.
    pub fn abs(self) -> (r: IBig)
        ensures
            r@ == abs(self@),
    {
        IBig::from_parts(false, self.mag)
    }

    /// The value with its sign flipped.
    pub fn negate(&self) -> (r: IBig)
        ensures
            r@ == -self@,
    {
        proof {
            use_type_invariant(self);
        }
        IBig::from_parts(!self.neg, self.mag.clone())
    }

    /// Sum of two values.
    pub fn plus(&self, rhs: &IBig) -> (r: IBig)
        requires
            fits(abs(self@) + abs(rhs@)),
        ensures
            r@ == self@ + rhs@,
    {
        proof {
            use_type_invariant(self);
            use_type_invariant(rhs);
        }
        if self.neg == rhs.neg {
            IBig::from_parts(self.neg, self.mag.plus(&rhs.mag))
        } else if !self.mag.less(&rhs.mag) {
            IBig::from_parts(self.neg, self.mag.minus(&rhs.mag))
        } else {
            IBig::from_parts(rhs.neg, rhs.mag.minus(&self.mag))
        }
    }

    /// Difference of two values.
    pub fn minus(&self, rhs: &IBig) -> (r: IBig)
        requires
            fits(abs(self@) + abs(rhs@)),
        ensures
            r@ == self@ - rhs@,
    {
        let n = rhs.negate();
        self.plus(&n)
    }

    /// Product of two values.
    pub fn times(&self, rhs: &IBig) -> (r: IBig)
        requires
            fits(abs(self@) * abs(rhs@)),
        ensures
            r@ == self@ * rhs@,
    {
        proof {
            use_type_invariant(self);
            use_type_invariant(rhs);
            let a = self.mag@;
            let b = rhs.mag@;
            assert(signed(self.neg != rhs.neg, a * b) == signed(self.neg, a) * signed(rhs.neg, b))
                by (nonlinear_arith);
        }
        IBig::from_parts(self.neg != rhs.neg, self.mag.times(&rhs.mag))
    }

    /// Quotient, rounded toward zero.
    pub fn divide(&self, rhs: &IBig) -> (r: IBig)
        requires
            rhs@ != 0,
        ensures
            r@ == quotient_toward_zero(self@, rhs@),
    {
        proof {
            use_type_invariant(self);
            use_type_invariant(rhs);
        }
        let (q, _) = self.mag.div_rem(&rhs.mag);
        IBig::from_parts(self.neg != rhs.neg, q)
    }

    /// Remainder of the magnitudes, negative where exactly one operand is.
    pub fn remainder(&self, rhs: &IBig) -> (r: IBig)
        requires
            rhs@ != 0,
        ensures
            r@ == remainder_signed(self@, rhs@),
    {
        proof {
            use_type_invariant(self);
            use_type_invariant(rhs);
        }
        let (_, m) = self.mag.div_rem(&rhs.mag);
        IBig::from_parts(self.neg != rhs.neg, m)
    }

    /// The magnitude shifted left by `n` bits, keeping the sign.
    pub fn shift_left(&self, n: usize) -> (r: IBig)
        requires
            fits(abs(self@) * pow2(n as nat)),
        ensures
            r@ == signed(self@ < 0, abs(self@) * pow2(n as nat)),
    {
        proof {
            use_type_invariant(self);
        }
        IBig::from_parts(self.neg, self.mag.shift_left(n))
    }

    /// The magnitude shifted right by `n` bits, keeping the sign; a zero result is not negative.
    pub fn shift_right(&self, n: usize) -> (r: IBig)
        ensures
            r@ == signed(self@ < 0, abs(self@) / pow2(n as nat)),
    {
        proof {
            use_type_invariant(self);
        }
        IBig::from_parts(self.neg, self.mag.shift_right(n))
    }

    /// The value as the unsigned machine integer `U`, or an error naming the side of its range
    /// that the value lies beyond.
    pub fn to_unsigned<U: Prim>(&self) -> (r: Result<U, OutOfRangeError>)
        ensures
            r is Ok <==> 0 <= self@ < pow2(U::bits()),
            r matches Ok(v) ==> v.value() == self@,
            r matches Err(e) ==> (e.0 == Side::Below <==> self@ < 0),
    {
        proof {
            use_type_invariant(self);
        }
        if self.neg {
            Err(OutOfRangeError::below())
        } else {
            self.mag.to_unsigned::<U>()
        }
    }

    /// The value as the machine integer `S` (any of `i8` to `i128` or `u8` to `u64`), or an error
    /// naming the side of its range that the value lies beyond.
    pub fn to_signed<S: crate::machine_int::MachineInt>(&self) -> (r: Result<S, OutOfRangeError>)
        ensures
            r is Ok <==> S::low() <= self@ <= S::high(),
            r matches Ok(v) ==> v.int_of() == self@,
            r matches Err(e) ==> (e.0 == Side::Below <==> self@ < S::low()),
    {
        proof {
            use_type_invariant(self);
            S::lemma_range();
            vstd::arithmetic::power2::lemma2_to64();
            vstd::arithmetic::power2::lemma2_to64_rest();
            vstd::arithmetic::power2::lemma_pow2_adds(64, 64);
        }
        if !self.neg {
            return self.mag.to_signed::<S>();
        }
        match self.mag.checked_to_unsigned::<u128>() {
            Some(m) => {
                if m > 0x8000_0000_0000_0000_0000_0000_0000_0000u128 {
                    Err(OutOfRangeError::below())
                } else {
                    let v: i128 = if m == 0x8000_0000_0000_0000_0000_0000_0000_0000u128 {
                        i128::MIN
                    } else {
                        -(m as i128)
                    };
                    if v < S::min_int().to_wide() {
                        Err(OutOfRangeError::below())
                    } else {
                        Ok(S::from_wide(v))
                    }
                }
            },
            None => Err(OutOfRangeError::below()),
        }
    }

    /// The value as the unsigned machine integer `U`, where it fits.
    pub fn checked_to_unsigned<U: Prim>(&self) -> (r: Option<U>)
        ensures
            r is Some <==> 0 <= self@ < pow2(U::bits()),
            r matches Some(v) ==> v.value() == self@,
    {
        match self.to_unsigned::<U>() {
            Ok(v) => Some(v),
            Err(_) => None,
        }
    }

    /// The value as the unsigned machine integer `U`, clamped to its range.
    pub fn saturate_to_unsigned<U: Prim>(&self) -> (r: U)
        ensures
            r.value() == if self@ < 0 {
                0
            } else if self@ < pow2(U::bits()) {
                self@ as nat
            } else {
                (pow2(U::bits()) - 1) as nat
            },
    {
        match self.to_unsigned::<U>() {
            Ok(v) => v,
            Err(e) => match e.0 {
                Side::Above => U::narrow(U::max_wide()),
                Side::Below => {
                    proof {
                        vstd::arithmetic::power2::lemma_pow2_pos(U::bits());
                    }
                    U::narrow(0)
                },
            },
        }
    }

    /// The magnitude as the unsigned machine integer `U`, or its largest value when it does not
    /// fit; the sign is not looked at.
    pub fn truncate_to_unsigned<U: Prim>(&self) -> (r: U)
        ensures
            r.value() == if abs(self@) < pow2(U::bits()) {
                abs(self@)
            } else {
                (pow2(U::bits()) - 1) as nat
            },
    {
        proof {
            use_type_invariant(self);
        }
        self.mag.saturate_to_unsigned::<U>()
    }

    /// The value as an `i64`, where it fits.
    pub fn checked_to_i64(&self) -> (r: Option<i64>)
        ensures
            r is Some <==> i64::MIN <= self@ <= i64::MAX,
            r matches Some(v) ==> v == self@,
    {
        proof {
            use_type_invariant(self);
            vstd::arithmetic::power2::lemma2_to64();
        }
        match self.mag.checked_to_unsigned::<u64>() {
            Some(m) => {
                if !self.neg {
                    if m <= 0x7FFF_FFFF_FFFF_FFFF {
                        Some(m as i64)
                    } else {
                        None
                    }
                } else if m < 0x8000_0000_0000_0000 {
                    Some(-(m as i64))
                } else if m == 0x8000_0000_0000_0000 {
                    Some(i64::MIN)
                } else {
                    None
                }
            },
            None => None,
        }
    }

    /// The value, where it lies in `0..=usize::MAX`.
    pub fn to_usize(&self) -> (r: Option<usize>)
        ensures
            r is Some <==> 0 <= self@ <= usize::MAX,
            r matches Some(v) ==> v == self@,
    {
        proof {
            use_type_invariant(self);
        }
        if self.neg {
            None
        } else {
            self.mag.to_usize()
        }
    }

    /// The value of a machine integer.
    pub fn from_i128(v: i128) -> (r: IBig)
        ensures
            r@ == v,
    {
        if v < 0 {
            let m: u128 = if v == i128::MIN {
                (i128::MAX as u128) + 1
            } else {
                (-v) as u128
            };
            IBig::from_parts(true, UBig::from_u128(m))
        } else {
            IBig::from_parts(false, UBig::from_u128(v as u128))
        }
    }

    /// The value of an unsigned machine integer.
    pub fn from_u128(v: u128) -> (r: IBig)
        ensures
            r@ == v,
    {
        IBig::from_parts(false, UBig::from_u128(v))
    }

    /// The value raised to the power `rhs`: one for a zero exponent, the value itself for a
    /// negative one.
    pub fn pow(self, rhs: IBig) -> (r: IBig)
        requires
            rhs@ > 0 ==> fits(vstd::arithmetic::power::pow(abs(self@) as int, abs(rhs@)) as nat),
        ensures
            r@ == if rhs@ == 0 {
                1
            } else if rhs@ < 0 {
                self@
            } else {
                vstd::arithmetic::power::pow(self@, abs(rhs@))
            },
    {
        proof {
            use_type_invariant(&self);
            use_type_invariant(&rhs);
        }
        if rhs.is_zero() {
            return IBig::one();
        }
        if rhs.neg {
            return self;
        }
        let ghost e = rhs.mag@;
        let odd_exp = rhs.mag.is_odd();
        let m = self.mag.clone().pow(rhs.mag);
        proof {
            lemma_pow_signed(self.neg, self.mag@, e);
        }
        IBig::from_parts(self.neg && odd_exp, m)
    }

    /// The value written in `radix`, from 2 to 36, with letters for the digits above nine in
    /// upper or lower case, and a leading `-` when negative.
    pub fn to_string_radix(&self, radix: u32, upper: bool) -> (r: String)
        requires
            2 <= radix <= 36,
        ensures
            r@ == if self@ < 0 {
                seq!['-'] + radix_string(abs(self@), radix as nat, upper)
            } else {
                radix_string(abs(self@), radix as nat, upper)
            },
    {
        proof {
            use_type_invariant(self);
        }
        let digits = self.mag.to_string_radix(radix, upper);
        if self.neg {
            let mut out = String::new();
            proof {
                reveal_strlit("-");
            }
            out.append("-");
            out.append(digits.as_str());
            out
        } else {
            digits
        }
    }

    /// The value written in decimal, with a leading `-` when negative.
    pub fn to_string(&self) -> (r: String)
        ensures
            r@ == if self@ < 0 {
                seq!['-'] + dec_string(abs(self@))
            } else {
                dec_string(abs(self@))
            },
    {
        proof {
            use_type_invariant(self);
        }
        let digits = self.mag.to_string();
        if self.neg {
            let mut out = String::new();
            proof {
                reveal_strlit("-");
            }
            out.append("-");
            out.append(digits.as_str());
            out
        } else {
            digits
        }
    }
}

/// Whether a natural number is odd.
pub open spec fn odd(e: nat) -> bool {
    e % 2 == 1
}

/// The power of a signed value is the power of its magnitude, negative for an odd exponent.
proof fn lemma_pow_signed(neg: bool, m: nat, e: nat)
    ensures
        vstd::arithmetic::power::pow(signed(neg, m), e) == signed(neg && odd(e), vstd::arithmetic::power::pow(m as int, e) as nat),
        vstd::arithmetic::power::pow(m as int, e) >= 0,
    decreases e,
{
    reveal(vstd::arithmetic::power::pow);
    if e == 0 {
    } else {
        lemma_pow_signed(neg, m, (e - 1) as nat);
        let p = vstd::arithmetic::power::pow(m as int, (e - 1) as nat);
        assert(m * p >= 0) by (nonlinear_arith)
            requires
                p >= 0,
        ;
        if neg {
            assert(signed(neg, m) * signed(neg && odd((e - 1) as nat), p as nat) == signed(
                neg && odd(e),
                (m * p) as nat,
            )) by (nonlinear_arith)
                requires
                    neg,
                    odd(e) == !odd((e - 1) as nat),
                    p >= 0,
            ;
        }
    }
}

impl View for IBig {
    type V = int;

    closed spec fn view(&self) -> int {
        signed(self.neg, self.mag@)
    }
}

impl core::ops::Add<IBig> for IBig {
    type Output = IBig;

    fn add(self, rhs: IBig) -> (r: IBig)
        ensures
            r@ == self@ + rhs@,
    {
        self.plus(&rhs)
    }
}

impl vstd::std_specs::ops::AddSpecImpl<IBig> for IBig {
    open spec fn obeys_add_spec() -> bool {
        false
    }

    open spec fn add_req(self, rhs: IBig) -> bool {
        fits(abs(self@) + abs(rhs@))
    }

    open spec fn add_spec(self, rhs: IBig) -> IBig {
        arbitrary()
    }
}

impl<'a> core::ops::Add<&'a IBig> for &'a IBig {
    type Output = IBig;

    fn add(self, rhs: &'a IBig) -> (r: IBig)
        ensures
            r@ == self@ + rhs@,
    {
        self.plus(rhs)
    }
}

impl<'a> vstd::std_specs::ops::AddSpecImpl<&'a IBig> for &'a IBig {
    open spec fn obeys_add_spec() -> bool {
        false
    }

    open spec fn add_req(self, rhs: &'a IBig) -> bool {
        fits(abs(self@) + abs(rhs@))
    }

    open spec fn add_spec(self, rhs: &'a IBig) -> IBig {
        arbitrary()
    }
}

impl core::ops::Sub<IBig> for IBig {
    type Output = IBig;

    fn sub(self, rhs: IBig) -> (r: IBig)
        ensures
            r@ == self@ - rhs@,
    {
        self.minus(&rhs)
    }
}

impl vstd::std_specs::ops::SubSpecImpl<IBig> for IBig {
    open spec fn obeys_sub_spec() -> bool {
        false
    }

    open spec fn sub_req(self, rhs: IBig) -> bool {
        fits(abs(self@) + abs(rhs@))
    }

    open spec fn sub_spec(self, rhs: IBig) -> IBig {
        arbitrary()
    }
}

impl<'a> core::ops::Sub<&'a IBig> for IBig {
    type Output = IBig;

    fn sub(self, rhs: &'a IBig) -> (r: IBig)
        ensures
            r@ == self@ - rhs@,
    {
        self.minus(rhs)
    }
}

impl<'a> vstd::std_specs::ops::SubSpecImpl<&'a IBig> for IBig {
    open spec fn obeys_sub_spec() -> bool {
        false
    }

    open spec fn sub_req(self, rhs: &'a IBig) -> bool {
        fits(abs(self@) + abs(rhs@))
    }

    open spec fn sub_spec(self, rhs: &'a IBig) -> IBig {
        arbitrary()
    }
}

impl core::ops::Mul<IBig> for IBig {
    type Output = IBig;

    fn mul(self, rhs: IBig) -> (r: IBig)
        ensures
            r@ == self@ * rhs@,
    {
        self.times(&rhs)
    }
}

impl vstd::std_specs::ops::MulSpecImpl<IBig> for IBig {
    open spec fn obeys_mul_spec() -> bool {
        false
    }

    open spec fn mul_req(self, rhs: IBig) -> bool {
        fits(abs(self@) * abs(rhs@))
    }

    open spec fn mul_spec(self, rhs: IBig) -> IBig {
        arbitrary()
    }
}

impl core::ops::Div<IBig> for IBig {
    type Output = IBig;

    fn div(self, rhs: IBig) -> (r: IBig)
        ensures
            r@ == quotient_toward_zero(self@, rhs@),
    {
        self.divide(&rhs)
    }
}

impl vstd::std_specs::ops::DivSpecImpl<IBig> for IBig {
    open spec fn obeys_div_spec() -> bool {
        false
    }

    open spec fn div_req(self, rhs: IBig) -> bool {
        rhs@ != 0
    }

    open spec fn div_spec(self, rhs: IBig) -> IBig {
        arbitrary()
    }
}

impl core::ops::Rem<IBig> for IBig {
    type Output = IBig;

    fn rem(self, rhs: IBig) -> (r: IBig)
        ensures
            r@ == remainder_signed(self@, rhs@),
    {
        self.remainder(&rhs)
    }
}

impl vstd::std_specs::ops::RemSpecImpl<IBig> for IBig {
    open spec fn obeys_rem_spec() -> bool {
        false
    }

    open spec fn rem_req(self, rhs: IBig) -> bool {
        rhs@ != 0
    }

    open spec fn rem_spec(self, rhs: IBig) -> IBig {
        arbitrary()
    }
}

impl core::ops::Shl<IBig> for IBig {
    type Output = IBig;

    fn shl(self, rhs: IBig) -> (r: IBig)
        ensures
            r@ == signed(self@ < 0, abs(self@) * pow2(abs(rhs@))),
    {
        match rhs.to_usize() {
            Some(n) => self.shift_left(n),
            None => IBig::new(),
        }
    }
}

impl vstd::std_specs::ops::ShlSpecImpl<IBig> for IBig {
    open spec fn obeys_shl_spec() -> bool {
        false
    }

    open spec fn shl_req(self, rhs: IBig) -> bool {
        0 <= rhs@ <= usize::MAX && fits(abs(self@) * pow2(abs(rhs@)))
    }

    open spec fn shl_spec(self, rhs: IBig) -> IBig {
        arbitrary()
    }
}

impl core::ops::Shr<IBig> for IBig {
    type Output = IBig;

    fn shr(self, rhs: IBig) -> (r: IBig)
        ensures
            r@ == signed(self@ < 0, abs(self@) / pow2(abs(rhs@))),
    {
        match rhs.to_usize() {
            Some(n) => self.shift_right(n),
            None => IBig::new(),
        }
    }
}

impl vstd::std_specs::ops::ShrSpecImpl<IBig> for IBig {
    open spec fn obeys_shr_spec() -> bool {
        false
    }

    open spec fn shr_req(self, rhs: IBig) -> bool {
        0 <= rhs@ <= usize::MAX
    }

    open spec fn shr_spec(self, rhs: IBig) -> IBig {
        arbitrary()
    }
}

impl core::ops::Shr<i32> for IBig {
    type Output = IBig;

    fn shr(self, rhs: i32) -> (r: IBig)
        ensures
            r@ == signed(self@ < 0, abs(self@) / pow2(rhs as nat)),
    {
        self.shift_right(rhs as usize)
    }
}

impl vstd::std_specs::ops::ShrSpecImpl<i32> for IBig {
    open spec fn obeys_shr_spec() -> bool {
        false
    }

    open spec fn shr_req(self, rhs: i32) -> bool {
        rhs >= 0
    }

    open spec fn shr_spec(self, rhs: i32) -> IBig {
        arbitrary()
    }
}

impl From<i8> for IBig {
    fn from(v: i8) -> (r: IBig)
        ensures
            r@ == v,
    {
        IBig::from_i128(v as i128)
    }
}

impl vstd::std_specs::convert::FromSpecImpl<i8> for IBig {
    open spec fn obeys_from_spec() -> bool {
        false
    }

    open spec fn from_spec(v: i8) -> IBig {
        arbitrary()
    }
}

impl From<i16> for IBig {
    fn from(v: i16) -> (r: IBig)
        ensures
            r@ == v,
    {
        IBig::from_i128(v as i128)
    }
}

impl vstd::std_specs::convert::FromSpecImpl<i16> for IBig {
    open spec fn obeys_from_spec() -> bool {
        false
    }

    open spec fn from_spec(v: i16) -> IBig {
        arbitrary()
    }
}

impl From<i32> for IBig {
    fn from(v: i32) -> (r: IBig)
        ensures
            r@ == v,
    {
        IBig::from_i128(v as i128)
    }
}

impl vstd::std_specs::convert::FromSpecImpl<i32> for IBig {
    open spec fn obeys_from_spec() -> bool {
        false
    }

    open spec fn from_spec(v: i32) -> IBig {
        arbitrary()
    }
}

impl From<i64> for IBig {
    fn from(v: i64) -> (r: IBig)
        ensures
            r@ == v,
    {
        IBig::from_i128(v as i128)
    }
}

impl vstd::std_specs::convert::FromSpecImpl<i64> for IBig {
    open spec fn obeys_from_spec() -> bool {
        false
    }

    open spec fn from_spec(v: i64) -> IBig {
        arbitrary()
    }
}

impl From<isize> for IBig {
    fn from(v: isize) -> (r: IBig)
        ensures
            r@ == v,
    {
        IBig::from_i128(v as i128)
    }
}

impl vstd::std_specs::convert::FromSpecImpl<isize> for IBig {
    open spec fn obeys_from_spec() -> bool {
        false
    }

    open spec fn from_spec(v: isize) -> IBig {
        arbitrary()
    }
}

impl From<i128> for IBig {
    fn from(v: i128) -> (r: IBig)
        ensures
            r@ == v,
    {
        IBig::from_i128(v)
    }
}

impl vstd::std_specs::convert::FromSpecImpl<i128> for IBig {
    open spec fn obeys_from_spec() -> bool {
        false
    }

    open spec fn from_spec(v: i128) -> IBig {
        arbitrary()
    }
}

impl From<u8> for IBig {
    fn from(v: u8) -> (r: IBig)
        ensures
            r@ == v,
    {
        IBig::from_u128(v as u128)
    }
}

impl vstd::std_specs::convert::FromSpecImpl<u8> for IBig {
    open spec fn obeys_from_spec() -> bool {
        false
    }

    open spec fn from_spec(v: u8) -> IBig {
        arbitrary()
    }
}

impl From<u16> for IBig {
    fn from(v: u16) -> (r: IBig)
        ensures
            r@ == v,
    {
        IBig::from_u128(v as u128)
    }
}

impl vstd::std_specs::convert::FromSpecImpl<u16> for IBig {
    open spec fn obeys_from_spec() -> bool {
        false
    }

    open spec fn from_spec(v: u16) -> IBig {
        arbitrary()
    }
}

impl From<u32> for IBig {
    fn from(v: u32) -> (r: IBig)
        ensures
            r@ == v,
    {
        IBig::from_u128(v as u128)
    }
}

impl vstd::std_specs::convert::FromSpecImpl<u32> for IBig {
    open spec fn obeys_from_spec() -> bool {
        false
    }

    open spec fn from_spec(v: u32) -> IBig {
        arbitrary()
    }
}

impl From<u64> for IBig {
    fn from(v: u64) -> (r: IBig)
        ensures
            r@ == v,
    {
        IBig::from_u128(v as u128)
    }
}

impl vstd::std_specs::convert::FromSpecImpl<u64> for IBig {
    open spec fn obeys_from_spec() -> bool {
        false
    }

    open spec fn from_spec(v: u64) -> IBig {
        arbitrary()
    }
}

impl From<usize> for IBig {
    fn from(v: usize) -> (r: IBig)
        ensures
            r@ == v,
    {
        IBig::from_u128(v as u128)
    }
}

impl vstd::std_specs::convert::FromSpecImpl<usize> for IBig {
    open spec fn obeys_from_spec() -> bool {
        false
    }

    open spec fn from_spec(v: usize) -> IBig {
        arbitrary()
    }
}

impl From<u128> for IBig {
    fn from(v: u128) -> (r: IBig)
        ensures
            r@ == v,
    {
        IBig::from_u128(v)
    }
}

impl vstd::std_specs::convert::FromSpecImpl<u128> for IBig {
    open spec fn obeys_from_spec() -> bool {
        false
    }

    open spec fn from_spec(v: u128) -> IBig {
        arbitrary()
    }
}

impl core::ops::Neg for IBig {
    type Output = IBig;

    fn neg(self) -> (r: IBig)
        ensures
            r@ == -self@,
    {
        self.negate()
    }
}

impl vstd::std_specs::ops::NegSpecImpl for IBig {
    open spec fn obeys_neg_spec() -> bool {
        false
    }

    open spec fn neg_req(self) -> bool {
        true
    }

    open spec fn neg_spec(self) -> IBig {
        arbitrary()
    }
}

impl<'a> core::ops::Neg for &'a IBig {
    type Output = IBig;

    fn neg(self) -> (r: IBig)
        ensures
            r@ == -self@,
    {
        self.negate()
    }
}

impl<'a> vstd::std_specs::ops::NegSpecImpl for &'a IBig {
    open spec fn obeys_neg_spec() -> bool {
        false
    }

    open spec fn neg_req(self) -> bool {
        true
    }

    open spec fn neg_spec(self) -> IBig {
        arbitrary()
    }
}

impl Clone for IBig {
    fn clone(&self) -> (r: Self)
        ensures
            r@ == self@,
    {
        proof {
            use_type_invariant(self);
        }
        IBig { neg: self.neg, mag: self.mag.clone() }
    }
}

impl Default for IBig {
    fn default() -> (r: Self)
        ensures
            r@ == 0,
    {
        IBig::new()
    }
}

impl IBig {
    /// Compare with another value: -1, 0 or 1.
    fn compare(&self, other: &IBig) -> (r: i8)
        ensures
            r == -1 <==> self@ < other@,
            r == 0 <==> self@ == other@,
            r == 1 <==> self@ > other@,
    {
        proof {
            use_type_invariant(self);
            use_type_invariant(other);
        }
        if self.neg != other.neg {
            if self.neg {
                -1
            } else {
                1
            }
        } else if self.mag.less(&other.mag) {
            if self.neg {
                1
            } else {
                -1
            }
        } else if other.mag.less(&self.mag) {
            if self.neg {
                -1
            } else {
                1
            }
        } else {
            0
        }
    }
}

/// The order of two integers.
pub open spec fn order_of_ints(x: int, y: int) -> Ordering {
    if x < y {
        Ordering::Less
    } else if x == y {
        Ordering::Equal
    } else {
        Ordering::Greater
    }
}

/// An unsigned machine integer as an integer.
pub open spec fn int_of_usize(x: usize) -> int {
    x as int
}

impl PartialEq for IBig {
    fn eq(&self, other: &Self) -> (r: bool) {
        self.compare(other) == 0
    }
}

impl vstd::std_specs::cmp::PartialEqSpecImpl for IBig {
    open spec fn obeys_eq_spec() -> bool {
        true
    }

    open spec fn eq_spec(&self, other: &IBig) -> bool {
        self@ == other@
    }
}

impl Eq for IBig {}

impl PartialEq<i32> for IBig {
    fn eq(&self, other: &i32) -> (r: bool) {
        let o = IBig::from_i128(*other as i128);
        self.compare(&o) == 0
    }
}

impl vstd::std_specs::cmp::PartialEqSpecImpl<i32> for IBig {
    open spec fn obeys_eq_spec() -> bool {
        true
    }

    open spec fn eq_spec(&self, other: &i32) -> bool {
        self@ == int_of_i32(*other)
    }
}

impl PartialEq<usize> for IBig {
    fn eq(&self, other: &usize) -> (r: bool) {
        let o = IBig::from_u128(*other as u128);
        self.compare(&o) == 0
    }
}

impl vstd::std_specs::cmp::PartialEqSpecImpl<usize> for IBig {
    open spec fn obeys_eq_spec() -> bool {
        true
    }

    open spec fn eq_spec(&self, other: &usize) -> bool {
        self@ == int_of_usize(*other)
    }
}

impl IBig {
    /// Compare with a machine integer: -1, 0 or 1.
    fn compare_int(&self, other: i32) -> (r: i8)
        ensures
            r == -1 <==> self@ < other as int,
            r == 0 <==> self@ == other as int,
            r == 1 <==> self@ > other as int,
    {
        let o = IBig::from_i128(other as i128);
        self.compare(&o)
    }
}

impl PartialOrd for IBig {
    fn partial_cmp(&self, other: &Self) -> (r: Option<Ordering>) {
        let c = self.compare(other);
        if c < 0 {
            Some(Ordering::Less)
        } else if c == 0 {
            Some(Ordering::Equal)
        } else {
            Some(Ordering::Greater)
        }
    }
}

impl vstd::std_specs::cmp::PartialOrdSpecImpl for IBig {
    open spec fn obeys_partial_cmp_spec() -> bool {
        true
    }

    open spec fn partial_cmp_spec(&self, other: &IBig) -> Option<Ordering> {
        Some(order_of_ints(self@, other@))
    }
}

impl PartialOrd<i32> for IBig {
    fn partial_cmp(&self, other: &i32) -> (r: Option<Ordering>) {
        let c = self.compare_int(*other);
        if c < 0 {
            Some(Ordering::Less)
        } else if c == 0 {
            Some(Ordering::Equal)
        } else {
            Some(Ordering::Greater)
        }
    }
}

impl vstd::std_specs::cmp::PartialOrdSpecImpl<i32> for IBig {
    open spec fn obeys_partial_cmp_spec() -> bool {
        true
    }

    open spec fn partial_cmp_spec(&self, other: &i32) -> Option<Ordering> {
        Some(order_of_ints(self@, int_of_i32(*other)))
    }
}

/// The error for when you try to create a `IBig` from a string and either the radix is invalid,
/// or the string contains invalid characters.
#[derive(Debug)]
pub enum FromStrError {
    /// Radix was outside the valid range for conversion
    InvalidRadix(u32),
    /// Character wasn't a valid digit for the provided radix
    InvalidChar(char),
}

/// Parse digits of `radix` (at most 36) into a magnitude.
fn parse_magnitude(str: &str, radix: u32) -> (r: Result<UBig, FromStrError>)
    requires
        str@.len() <= limb_cap(),
    ensures
        radix > 36 && str@.len() > 0 ==> (r matches Err(FromStrError::InvalidRadix(x)) && x == radix),
        radix > 36 && str@.len() == 0 ==> (r matches Ok(v) && v@ == 0),
        radix <= 36 ==> (r is Ok <==> first_non_digit(str@, radix as nat) is None),
        radix <= 36 ==> (r matches Err(FromStrError::InvalidChar(c)) ==> (first_non_digit(
            str@,
            radix as nat,
        ) matches Some(i) && c == str@[i])),
        r matches Ok(v) ==> v@ == str_value(str@, radix as nat),
{
    let mut out = UBig::new();
    let mut it = str.chars();
    let ghost s = str@;
    let ghost mut k: int = 0;
    let r = UBig::from_usize(radix as usize);
    proof {
        broadcast use vstd::string::axiom_spec_iter;
        vstd::arithmetic::power2::lemma2_to64();
        assert(s.take(0) =~= Seq::<char>::empty());
    }
    loop
        invariant
            0 <= k <= s.len(),
            s == str@,
            s.len() <= limb_cap(),
            it.remaining() == s.skip(k),
            r@ == radix,
            radix <= 36 ==> first_non_digit(s, radix as nat) == first_non_digit_from(s, radix as nat, k),
            radix > 36 ==> k == 0,
            out@ == str_value(s.take(k), radix as nat),
            out@ < pow2((6 * k) as nat),
        ensures
            k == s.len(),
            out@ == str_value(s, radix as nat),
            radix <= 36 ==> first_non_digit(s, radix as nat) is None,
        decreases s.len() - k,
    {
        let ghost before = it;
        let next = it.next();
        proof {
            vstd::string::next_postcondition(&before, &it, next);
        }
        match next {
            None => {
                proof {
                    assert(s.take(k) =~= s);
                }
                break;
            },
            Some(c) => {
                proof {
                    assert(s.skip(k).len() == s.len() - k);
                    assert(k < s.len());
                    assert(c == s[k]);
                    assert(s.skip(k).drop_first() =~= s.skip(k + 1));
                }
                if radix > 36 {
                    return Err(FromStrError::InvalidRadix(radix));
                }
                match char_digit(c, radix) {
                    None => {
                        proof {
                            assert(first_non_digit_from(s, radix as nat, k) == Some(k));
                        }
                        return Err(FromStrError::InvalidChar(c));
                    },
                    Some(d) => {
                        proof {
                            lemma_digit_step(out@, k as nat, radix as nat, d as nat);
                            assert(s.take(k + 1).drop_last() =~= s.take(k));
                            crate::ubig::lemma_fits_bits((6 * (k + 1)) as nat);
                            assert((6 * (k + 1)) as nat <= 6 * limb_cap());
                            let v = out@;
                            assert(v * radix <= v * radix + d);
                        }
                        let dv = UBig::from_usize(d as usize);
                        let m = out.times(&r);
                        out = m.plus(&dv);
                        proof {
                            k = k + 1;
                        }
                    },
                }
            },
        }
    }
    Ok(out)
}

impl IBig {
    /// Parse digits of `radix` (at most 36), most significant first, without a sign. Fails on
    /// the first character that is not such a digit, or, for a nonempty string, on a radix above
    /// 36.
    pub fn from_str_radix(str: &str, radix: u32) -> (r: Result<IBig, FromStrError>)
        requires
            str@.len() <= limb_cap(),
        ensures
            radix > 36 && str@.len() > 0 ==> (r matches Err(FromStrError::InvalidRadix(x)) && x == radix),
            radix > 36 && str@.len() == 0 ==> (r matches Ok(v) && v@ == 0),
            radix <= 36 ==> (r is Ok <==> first_non_digit(str@, radix as nat) is None),
            radix <= 36 ==> (r matches Err(FromStrError::InvalidChar(c)) ==> (first_non_digit(
                str@,
                radix as nat,
            ) matches Some(i) && c == str@[i])),
            r matches Ok(v) ==> v@ == str_value(str@, radix as nat),
    {
        match parse_magnitude(str, radix) {
            Ok(m) => Ok(IBig::from_parts(false, m)),
            Err(e) => Err(e),
        }
    }
}

impl crate::traits::Signed for IBig {
    fn abs(self) -> (r: IBig)
        ensures
            r@ == abs(self@),
    {
        IBig::abs(self)
    }

    fn is_positive(&self) -> (r: bool)
        ensures
            r == (self@ >= 0),
    {
        IBig::is_positive(self)
    }

    fn is_negative(&self) -> (r: bool)
        ensures
            r == (self@ < 0),
    {
        IBig::is_negative(self)
    }
}

impl crate::traits::Numeric for IBig {

}

impl crate::traits::Integral for IBig {

}

} // verus!
