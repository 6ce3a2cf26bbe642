//! Machine integers of every width read as mathematical integers, and the machine operations
//! on them computed through 128-bit words.
use vstd::prelude::*;
use vstd::arithmetic::power2::pow2;
use crate::ibig::{abs, signed, quotient_toward_zero};

verus! {

/// A machine integer, read as a mathematical integer, with its range.
pub trait MachineInt: Copy + Sized {
    /// The value as an integer.
    spec fn int_of(self) -> int;

    /// The smallest value of the type.
    spec fn low() -> int;

    /// The largest value of the type.
    spec fn high() -> int;

    /// The number of bits of the type.
    spec fn width() -> nat;

    proof fn lemma_bounds(x: Self)
        ensures
            Self::low() <= x.int_of() <= Self::high(),
    ;

    proof fn lemma_range()
        ensures
            i128::MIN <= Self::low() <= 0,
            0 < Self::high() <= i128::MAX,
            8 <= Self::width() <= 128,
            Self::low() == 0 || Self::low() == -(pow2((Self::width() - 1) as nat) as int),
            Self::high() == pow2(Self::width()) + Self::low() - 1,
            Self::low() == 0 || Self::high() == -Self::low() - 1,
    ;

    /// The value widened to an `i128`.
    fn to_wide(self) -> (r: i128)
        ensures
            r == self.int_of(),
    ;

    /// The value of an `i128` that lies in the type's range.
    fn from_wide(v: i128) -> (r: Self)
        requires
            Self::low() <= v <= Self::high(),
        ensures
            r.int_of() == v,
    ;

    /// The smallest value of the type.
    fn min_int() -> (r: Self)
        ensures
            r.int_of() == Self::low(),
    ;

    /// The largest value of the type.
    fn max_int() -> (r: Self)
        ensures
            r.int_of() == Self::high(),
    ;
}

impl MachineInt for i8 {
    open spec fn int_of(self) -> int {
        self as int
    }

    open spec fn low() -> int {
        i8::MIN as int
    }

    open spec fn high() -> int {
        i8::MAX as int
    }

    open spec fn width() -> nat {
        8
    }

    proof fn lemma_bounds(x: Self) {
    }

    proof fn lemma_range() {
        vstd::arithmetic::power2::lemma2_to64();
    }

    fn to_wide(self) -> (r: i128) {
        self as i128
    }

    fn from_wide(v: i128) -> (r: Self) {
        v as i8
    }

    fn min_int() -> (r: Self) {
        i8::MIN
    }

    fn max_int() -> (r: Self) {
        i8::MAX
    }
}

impl MachineInt for i16 {
    open spec fn int_of(self) -> int {
        self as int
    }

    open spec fn low() -> int {
        i16::MIN as int
    }

    open spec fn high() -> int {
        i16::MAX as int
    }

    open spec fn width() -> nat {
        16
    }

    proof fn lemma_bounds(x: Self) {
    }

    proof fn lemma_range() {
        vstd::arithmetic::power2::lemma2_to64();
    }

    fn to_wide(self) -> (r: i128) {
        self as i128
    }

    fn from_wide(v: i128) -> (r: Self) {
        v as i16
    }

    fn min_int() -> (r: Self) {
        i16::MIN
    }

    fn max_int() -> (r: Self) {
        i16::MAX
    }
}

impl MachineInt for i32 {
    open spec fn int_of(self) -> int {
        self as int
    }

    open spec fn low() -> int {
        i32::MIN as int
    }

    open spec fn high() -> int {
        i32::MAX as int
    }

    open spec fn width() -> nat {
        32
    }

    proof fn lemma_bounds(x: Self) {
    }

    proof fn lemma_range() {
        vstd::arithmetic::power2::lemma2_to64();
    }

    fn to_wide(self) -> (r: i128) {
        self as i128
    }

    fn from_wide(v: i128) -> (r: Self) {
        v as i32
    }

    fn min_int() -> (r: Self) {
        i32::MIN
    }

    fn max_int() -> (r: Self) {
        i32::MAX
    }
}

impl MachineInt for i64 {
    open spec fn int_of(self) -> int {
        self as int
    }

    open spec fn low() -> int {
        i64::MIN as int
    }

    open spec fn high() -> int {
        i64::MAX as int
    }

    open spec fn width() -> nat {
        64
    }

    proof fn lemma_bounds(x: Self) {
    }

    proof fn lemma_range() {
        vstd::arithmetic::power2::lemma2_to64();
        vstd::arithmetic::power2::lemma2_to64_rest();
    }

    fn to_wide(self) -> (r: i128) {
        self as i128
    }

    fn from_wide(v: i128) -> (r: Self) {
        v as i64
    }

    fn min_int() -> (r: Self) {
        i64::MIN
    }

    fn max_int() -> (r: Self) {
        i64::MAX
    }
}

impl MachineInt for i128 {
    open spec fn int_of(self) -> int {
        self as int
    }

    open spec fn low() -> int {
        i128::MIN as int
    }

    open spec fn high() -> int {
        i128::MAX as int
    }

    open spec fn width() -> nat {
        128
    }

    proof fn lemma_bounds(x: Self) {
    }

    proof fn lemma_range() {
        vstd::arithmetic::power2::lemma2_to64();
        vstd::arithmetic::power2::lemma2_to64_rest();
        vstd::arithmetic::power2::lemma_pow2_adds(64, 63);
        vstd::arithmetic::power2::lemma_pow2_adds(64, 64);
    }

    fn to_wide(self) -> (r: i128) {
        self
    }

    fn from_wide(v: i128) -> (r: Self) {
        v
    }

    fn min_int() -> (r: Self) {
        i128::MIN
    }

    fn max_int() -> (r: Self) {
        i128::MAX
    }
}

impl MachineInt for u8 {
    open spec fn int_of(self) -> int {
        self as int
    }

    open spec fn low() -> int {
        u8::MIN as int
    }

    open spec fn high() -> int {
        u8::MAX as int
    }

    open spec fn width() -> nat {
        8
    }

    proof fn lemma_bounds(x: Self) {
    }

    proof fn lemma_range() {
        vstd::arithmetic::power2::lemma2_to64();
    }

    fn to_wide(self) -> (r: i128) {
        self as i128
    }

    fn from_wide(v: i128) -> (r: Self) {
        v as u8
    }

    fn min_int() -> (r: Self) {
        u8::MIN
    }

    fn max_int() -> (r: Self) {
        u8::MAX
    }
}

impl MachineInt for u16 {
    open spec fn int_of(self) -> int {
        self as int
    }

    open spec fn low() -> int {
        u16::MIN as int
    }

    open spec fn high() -> int {
        u16::MAX as int
    }

    open spec fn width() -> nat {
        16
    }

    proof fn lemma_bounds(x: Self) {
    }

    proof fn lemma_range() {
        vstd::arithmetic::power2::lemma2_to64();
    }

    fn to_wide(self) -> (r: i128) {
        self as i128
    }

    fn from_wide(v: i128) -> (r: Self) {
        v as u16
    }

    fn min_int() -> (r: Self) {
        u16::MIN
    }

    fn max_int() -> (r: Self) {
        u16::MAX
    }
}

impl MachineInt for u32 {
    open spec fn int_of(self) -> int {
        self as int
    }

    open spec fn low() -> int {
        u32::MIN as int
    }

    open spec fn high() -> int {
        u32::MAX as int
    }

    open spec fn width() -> nat {
        32
    }

    proof fn lemma_bounds(x: Self) {
    }

    proof fn lemma_range() {
        vstd::arithmetic::power2::lemma2_to64();
    }

    fn to_wide(self) -> (r: i128) {
        self as i128
    }

    fn from_wide(v: i128) -> (r: Self) {
        v as u32
    }

    fn min_int() -> (r: Self) {
        u32::MIN
    }

    fn max_int() -> (r: Self) {
        u32::MAX
    }
}

impl MachineInt for u64 {
    open spec fn int_of(self) -> int {
        self as int
    }

    open spec fn low() -> int {
        u64::MIN as int
    }

    open spec fn high() -> int {
        u64::MAX as int
    }

    open spec fn width() -> nat {
        64
    }

    proof fn lemma_bounds(x: Self) {
    }

    proof fn lemma_range() {
        vstd::arithmetic::power2::lemma2_to64();
        vstd::arithmetic::power2::lemma2_to64_rest();
    }

    fn to_wide(self) -> (r: i128) {
        self as i128
    }

    fn from_wide(v: i128) -> (r: Self) {
        v as u64
    }

    fn min_int() -> (r: Self) {
        u64::MIN
    }

    fn max_int() -> (r: Self) {
        u64::MAX
    }
}
/// A quotient rounded toward zero of values in the backing type's range is in its range, except
/// for the smallest value divided by minus one.
pub proof fn lemma_quotient_fits<T: MachineInt>(a: int, b: int)
    requires
        fits::<T>(a),
        fits::<T>(b),
        b != 0,
        !(a == T::low() && b == -1),
    ensures
        fits::<T>(quotient_toward_zero(a, b)),
{
    T::lemma_range();
    let q = abs(a) / abs(b);
    vstd::arithmetic::div_mod::lemma_div_is_ordered_by_denominator(abs(a) as int, 1, abs(b) as int);
    if abs(b) >= 2 {
        vstd::arithmetic::div_mod::lemma_div_is_ordered_by_denominator(abs(a) as int, 2, abs(b) as int);
    }
}

/// A remainder with the sign of the dividend lies between zero and the dividend.
pub proof fn lemma_remainder_fits<T: MachineInt>(a: int, b: int)
    requires
        fits::<T>(a),
        b != 0,
    ensures
        fits::<T>(rem_toward_zero(a, b)),
{
    T::lemma_range();
    vstd::arithmetic::div_mod::lemma_mod_decreases(abs(a), abs(b));
}


/// `v` wrapped into the range of `T`: the value of `T` that is congruent to `v` modulo
/// `2^width`.
pub open spec fn wrap_to<T: MachineInt>(v: int) -> int {
    T::low() + (v - T::low()) % (pow2(T::width()) as int)
}

/// Wrapping picks the one value of the range congruent to `v`.
pub proof fn lemma_wrap_unique<T: MachineInt>(v: int, r: int, k: int)
    requires
        fits::<T>(r),
        v == r + k * (pow2(T::width()) as int),
    ensures
        wrap_to::<T>(v) == r,
{
    T::lemma_range();
    let p = pow2(T::width()) as int;
    vstd::arithmetic::div_mod::lemma_fundamental_div_mod_converse(v - T::low(), p, k, r - T::low());
}

/// Doubling a wrapped value and wrapping again is wrapping the doubled value.
pub proof fn lemma_wrap_double<T: MachineInt>(y: int)
    ensures
        wrap_to::<T>(2 * wrap_to::<T>(y)) == wrap_to::<T>(2 * y),
{
    T::lemma_range();
    let p = pow2(T::width()) as int;
    vstd::arithmetic::power2::lemma_pow2_pos(T::width());
    vstd::arithmetic::div_mod::lemma_fundamental_div_mod(y - T::low(), p);
    vstd::arithmetic::div_mod::lemma_mod_bound(y - T::low(), p);
    let w = wrap_to::<T>(y);
    let q = (y - T::low()) / p;
    assert(2 * y == 2 * w + (2 * q) * p) by (nonlinear_arith)
        requires
            y - T::low() == p * q + (y - T::low()) % p,
            w == T::low() + (y - T::low()) % p,
    ;
    let r = wrap_to::<T>(2 * w);
    vstd::arithmetic::div_mod::lemma_fundamental_div_mod(2 * w - T::low(), p);
    vstd::arithmetic::div_mod::lemma_mod_bound(2 * w - T::low(), p);
    let q2 = (2 * w - T::low()) / p;
    assert(2 * y == r + (q2 + 2 * q) * p) by (nonlinear_arith)
        requires
            2 * y == 2 * w + (2 * q) * p,
            2 * w - T::low() == p * q2 + (2 * w - T::low()) % p,
            r == T::low() + (2 * w - T::low()) % p,
    ;
    lemma_wrap_unique::<T>(2 * y, r, q2 + 2 * q);
}

/// A value already in range wraps to itself.
pub proof fn lemma_wrap_fits<T: MachineInt>(v: int)
    requires
        fits::<T>(v),
    ensures
        wrap_to::<T>(v) == v,
{
    lemma_wrap_unique::<T>(v, v, 0);
}

/// Double `v` and wrap the result into the range of `T`.
pub fn double_wrapping<T: MachineInt>(v: T) -> (r: T)
    ensures
        r.int_of() == wrap_to::<T>(2 * v.int_of()),
{
    proof {
        T::lemma_range();
        T::lemma_bounds(v);
        vstd::arithmetic::power2::lemma_pow2_unfold(T::width());
    }
    let x = v.to_wide();
    let lo = T::min_int().to_wide();
    let hi = T::max_int().to_wide();
    let r: i128 = if lo < 0 {
        if x > hi / 2 {
            proof {
                lemma_wrap_unique::<T>(2 * x, (x + lo) + (x + lo), 1);
            }
            (x + lo) + (x + lo)
        } else if x < lo / 2 {
            proof {
                lemma_wrap_unique::<T>(2 * x, (x - lo) + (x - lo), -1);
            }
            (x - lo) + (x - lo)
        } else {
            proof {
                lemma_wrap_unique::<T>(2 * x, x + x, 0);
            }
            x + x
        }
    } else {
        if x > hi / 2 {
            proof {
                lemma_wrap_unique::<T>(2 * x, (x - hi - 1) + x, 1);
            }
            (x - hi - 1) + x
        } else {
            proof {
                lemma_wrap_unique::<T>(2 * x, x + x, 0);
            }
            x + x
        }
    };
    T::from_wide(r)
}

/// Whether an integer lies in the range of the backing type `T`.
pub open spec fn fits<T: MachineInt>(v: int) -> bool {
    T::low() <= v <= T::high()
}

/// The remainder of `a` by `b` with the sign of `a`, as machine `%` computes it.
pub open spec fn rem_toward_zero(a: int, b: int) -> int {
    signed(a < 0, abs(a) % abs(b))
}

/// The magnitude of an `i128`.
pub fn magnitude_wide(a: i128) -> (r: u128)
    ensures
        r == abs(a as int),
{
    if a < 0 {
        ((-(a + 1)) as u128) + 1
    } else {
        a as u128
    }
}

/// An `i128` from a sign and a magnitude that fits.
pub fn signed_wide(neg: bool, m: u128) -> (r: i128)
    requires
        i128::MIN <= signed(neg, m as nat) <= i128::MAX,
    ensures
        r == signed(neg, m as nat),
{
    if neg {
        if m == 0 {
            0
        } else {
            -(((m - 1) as i128)) - 1
        }
    } else {
        m as i128
    }
}

/// Machine division, rounding toward zero.
pub fn div_wide(a: i128, b: i128) -> (r: i128)
    requires
        b != 0,
        !(a == i128::MIN && b == -1),
    ensures
        r == quotient_toward_zero(a as int, b as int),
{
    let ma = magnitude_wide(a);
    let mb = magnitude_wide(b);
    let q = ma / mb;
    proof {
        vstd::arithmetic::div_mod::lemma_div_is_ordered_by_denominator(ma as int, 1, mb as int);
        if mb >= 2 {
            vstd::arithmetic::div_mod::lemma_div_is_ordered_by_denominator(ma as int, 2, mb as int);
        }
    }
    signed_wide((a < 0) != (b < 0), q)
}

/// Machine remainder, with the sign of the dividend.
pub fn rem_wide(a: i128, b: i128) -> (r: i128)
    requires
        b != 0,
    ensures
        r == rem_toward_zero(a as int, b as int),
{
    let ma = magnitude_wide(a);
    let mb = magnitude_wide(b);
    let m = ma % mb;
    proof {
        vstd::arithmetic::div_mod::lemma_mod_bound(ma as int, mb as int);
        vstd::arithmetic::div_mod::lemma_mod_decreases(ma as nat, mb as nat);
    }
    signed_wide(a < 0, m)
}

/// Floor division by a positive divisor, from the magnitude of the dividend: the quotient rounds
/// toward negative infinity.
pub proof fn lemma_floor_from_magnitude(a: int, p: int)
    requires
        p > 0,
    ensures
        a / p == if a >= 0 {
            (abs(a) as int) / p
        } else if (abs(a) as int) % p == 0 {
            -((abs(a) as int) / p)
        } else {
            -((abs(a) as int) / p) - 1
        },
        (a % p == 0) == ((abs(a) as int) % p == 0),
        rem_toward_zero(a, p) < 0 <==> (a < 0 && (abs(a) as int) % p != 0),
        abs(rem_toward_zero(a, p)) <= abs(a),
        (a >= 0 ==> 0 <= rem_toward_zero(a, p) <= a),
        (a < 0 ==> a <= rem_toward_zero(a, p) <= 0),
        abs(rem_toward_zero(a, p)) < p,
{
    vstd::arithmetic::div_mod::lemma_fundamental_div_mod(a, p);
    vstd::arithmetic::div_mod::lemma_mod_bound(abs(a) as int, p);
    vstd::arithmetic::div_mod::lemma_mod_decreases(abs(a), p as nat);
    if a < 0 {
        let m = abs(a) as int;
        let q = m / p;
        let r = m % p;
        vstd::arithmetic::div_mod::lemma_fundamental_div_mod(m, p);
        vstd::arithmetic::div_mod::lemma_mod_bound(m, p);
        if r == 0 {
            assert(a == p * (-q)) by (nonlinear_arith)
                requires
                    m == p * q + r,
                    r == 0,
                    a == -m,
            ;
            vstd::arithmetic::div_mod::lemma_div_multiples_vanish(-q, p);
        } else {
            assert(p * (-q - 1) + (p - r) == a) by (nonlinear_arith)
                requires
                    m == p * q + r,
                    a == -m,
            ;
            vstd::arithmetic::div_mod::lemma_div_multiples_vanish_fancy(-q - 1, p - r, p);
        }
    }
}

} // verus!
