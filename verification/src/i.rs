//! N-byte bounded signed integers in two's complement, held as little-endian bytes.
use vstd::prelude::*;
use vstd::arithmetic::power2::pow2;
use core::cmp::Ordering;
use crate::limbs::{seq_val, weight, lemma_val_bound};
use crate::element::{add_values, mul_values, div_rem_values, equal_values};
use crate::fixed_bytes::{zero_bytes, truncate_bytes, reverse_bytes, value_bytes, bytes_not, bytes_and,
    bytes_or, bytes_xor};
use crate::decimal::{dec_string, write_digits, rev_chars, digit_char, lemma_rev_chars_push,
    lemma_dec_string_len, lemma_rev_chars_len};
use crate::digit_buffer::{digit_buffer, buffer_new, buffer_push, buffer_is_empty, buffer_as_slice};
use vstd::string::StringExecFns;
use crate::u::{modulus, small_width, U};
use crate::traits::FromChecked;
use crate::ibig::{abs, signed, quotient_toward_zero, remainder_signed, order_of_ints};
use vstd::arithmetic::mul::{lemma_mul_is_distributive_add, lemma_mul_is_distributive_add_other_way,
    lemma_mul_is_associative, lemma_mul_is_commutative};

verus! {

/// Half the number of values of `n` bytes: the first value whose top bit is set.
pub open spec fn half(n: nat) -> nat {
    modulus(n) / 2
}

/// The two's complement reading of an unsigned value of `n` bytes.
pub open spec fn to_signed(u: nat, n: nat) -> int {
    if n > 0 && u >= half(n) {
        u - modulus(n)
    } else {
        u as int
    }
}

/// An integer reduced into the range of `n` bytes.
pub open spec fn wrap(x: int, n: nat) -> int {
    to_signed((x % (modulus(n) as int)) as nat, n)
}

/// N-byte bounded, signed integer. `I<1> == i8`, `I<16> == i128`, etc.
///
/// Represented in two's complement, with the highest bit forming the sign bit
#[derive(Copy, Clone, Debug)]
pub struct I<const N: usize>(pub [u8; N]);

impl<const N: usize> View for I<N> {
    type V = int;

    open spec fn view(&self) -> int {
        to_signed(seq_val(self.0@), N as nat)
    }
}

impl<const N: usize> I<N> {
    /// The unsigned value of the bytes.
    pub open spec fn bits(self) -> nat {
        seq_val(self.0@)
    }
}

/// `modulus(n)` is twice `half(n)` and the unsigned value of an `n`-byte value is below it.
pub proof fn lemma_half(n: nat)
    requires
        n >= 1,
    ensures
        modulus(n) == 2 * half(n),
        half(n) >= 128,
{
    crate::element::lemma_weight_even::<u8>(n);
    crate::limbs::lemma_weight_mono::<u8>(1, n);
    crate::limbs::lemma_weight_succ::<u8>(0);
    crate::limbs::lemma_weight_zero::<u8>();
    vstd::arithmetic::power2::lemma2_to64();
}

/// The signed reading is congruent to the unsigned one and lies in `[-half, half)`.
pub proof fn lemma_signed_range(u: nat, n: nat)
    requires
        n >= 1,
        u < modulus(n),
    ensures
        -(half(n) as int) <= to_signed(u, n) < half(n),
        (u as int) % (modulus(n) as int) == to_signed(u, n) % (modulus(n) as int),
        (u as int) % (modulus(n) as int) == u,
        wrap(to_signed(u, n), n) == to_signed(u, n),
{
    lemma_half(n);
    let m = modulus(n) as int;
    vstd::arithmetic::div_mod::lemma_small_mod(u, modulus(n));
    if u >= half(n) {
        vstd::arithmetic::div_mod::lemma_mod_multiples_vanish(1, u - m, m);
        assert(m * 1 + (u - m) == u);
    }
}

/// Reducing a sum, product or difference of signed readings gives the same as reducing the
/// unsigned values.
pub proof fn lemma_congruent(u: nat, s: int, n: nat) -> (k: int)
    requires
        n >= 1,
        u < modulus(n),
        s == to_signed(u, n),
    ensures
        u == s + k * modulus(n),
        0 <= k <= 1,
{
    if u >= half(n) {
        1
    } else {
        0
    }
}

/// Reduction of `x + k m` equals reduction of `x`.
pub proof fn lemma_shift_multiple(x: int, k: int, m: int)
    requires
        m > 0,
    ensures
        (x + k * m) % m == x % m,
{
    vstd::arithmetic::div_mod::lemma_mod_multiples_vanish(k, x, m);
    assert(m * k + x == x + k * m) by (nonlinear_arith);
}

/// The unsigned value `(x mod m)` of an integer, read back as signed, is its wrap.
pub proof fn lemma_wrap_of(u: nat, x: int, n: nat)
    requires
        n >= 1,
        (u as int) == x % (modulus(n) as int),
    ensures
        to_signed(u, n) == wrap(x, n),
{
}

/// Bytes complemented byte by byte hold `256^n - 1` minus the value they came from.
pub proof fn lemma_complement(s: Seq<u8>, t: Seq<u8>)
    requires
        s.len() == t.len(),
        forall|i: int| 0 <= i < s.len() ==> t[i] == 255 - s[i],
    ensures
        seq_val(s) + seq_val(t) == weight::<u8>(s.len()) - 1,
    decreases s.len(),
{
    if s.len() == 0 {
        crate::limbs::lemma_weight_zero::<u8>();
    } else {
        lemma_complement(s.drop_last(), t.drop_last());
        crate::limbs::lemma_weight_succ::<u8>((s.len() - 1) as nat);
        vstd::arithmetic::power2::lemma2_to64();
        let w = weight::<u8>((s.len() - 1) as nat);
        let a = s.last() as nat;
        let b = t.last() as nat;
        assert(a * w + b * w == 255 * w) by (nonlinear_arith)
            requires
                a + b == 255,
        ;
        assert(w - 1 + 255 * w == w * 256 - 1) by (nonlinear_arith);
    }
}

impl<const N: usize> I<N> {
    /// Create a new instance containing the default value (0)
    pub fn new() -> (r: I<N>)
        ensures
            r@ == 0,
            r.bits() == 0,
    {
        proof {
            if N >= 1 {
                lemma_half(N as nat);
            }
        }
        I(zero_bytes())
    }

    /// Create a value from raw bytes, laid out in little-endian order
    pub fn from_le_bytes(bytes: [u8; N]) -> (r: I<N>)
        ensures
            r.0 == bytes,
    {
        I(bytes)
    }

    /// Create a value from raw bytes, laid out in big-endian order
    pub fn from_be_bytes(bytes: [u8; N]) -> (r: I<N>)
        ensures
            r.0@ == bytes@.reverse(),
    {
        I(reverse_bytes(bytes))
    }

    /// Create a value from raw bytes, laid out in the native (little-endian) order
    pub fn from_ne_bytes(bytes: [u8; N]) -> (r: I<N>)
        ensures
            r.0 == bytes,
    {
        I::from_le_bytes(bytes)
    }

    /// Convert this value to raw bytes, laid out in little-endian order
    pub fn to_le_bytes(self) -> (r: [u8; N])
        ensures
            r == self.0,
    {
        self.0
    }

    /// Convert this value to raw bytes, laid out in big-endian order
    pub fn to_be_bytes(self) -> (r: [u8; N])
        ensures
            r@ == self.0@.reverse(),
    {
        reverse_bytes(self.0)
    }

    /// Convert this value to raw bytes, laid out in the native (little-endian) order
    pub fn to_ne_bytes(self) -> (r: [u8; N])
        ensures
            r == self.0,
    {
        self.to_le_bytes()
    }

    /// The value zero.
    pub fn zero() -> (r: I<N>)
        ensures
            r@ == 0,
    {
        I::new()
    }

    /// The value one.
    pub fn one() -> (r: I<N>)
        requires
            N >= 1,
        ensures
            r@ == 1,
            r.bits() == 1,
    {
        proof {
            lemma_half(N as nat);
            vstd::arithmetic::div_mod::lemma_small_mod(1, modulus(N as nat));
        }
        I(value_bytes(1))
    }

    /// Whether the value is zero.
    pub fn is_zero(&self) -> (r: bool)
        ensures
            r == (self@ == 0),
    {
        proof {
            lemma_val_bound(self.0@);
            if N >= 1 {
                lemma_half(N as nat);
            }
        }
        let u = U(self.0);
        u.is_zero()
    }

    /// Whether the value is one.
    pub fn is_one(&self) -> (r: bool)
        ensures
            r == (self@ == 1),
    {
        proof {
            lemma_val_bound(self.0@);
            if N >= 1 {
                lemma_half(N as nat);
            } else {
                crate::limbs::lemma_weight_zero::<u8>();
            }
        }
        let u = U(self.0);
        u.is_one()
    }

    /// Whether the sign bit is set.
    pub fn is_negative(&self) -> (r: bool)
        requires
            N >= 1,
        ensures
            r == (self@ < 0),
    {
        let half_value = I::<N>::min_value();
        proof {
            lemma_val_bound(self.0@);
            lemma_half(N as nat);
        }
        !U(self.0).less(&U(half_value.0))
    }

    /// Whether the sign bit is clear.
    pub fn is_positive(&self) -> (r: bool)
        requires
            N >= 1,
        ensures
            r == (self@ >= 0),
    {
        !self.is_negative()
    }

    /// The smallest value, `-half`.
    pub fn min_value() -> (r: I<N>)
        requires
            N >= 1,
        ensures
            r.bits() == half(N as nat),
            r@ == -(half(N as nat) as int),
    {
        let mut b: [u8; N] = zero_bytes();
        b[N - 1] = 0x80;
        proof {
            lemma_top_byte(b@, 0x80);
            lemma_half(N as nat);
        }
        I(b)
    }

    /// The largest value, `half - 1`.
    pub fn max_value() -> (r: I<N>)
        requires
            N >= 1,
        ensures
            r@ == half(N as nat) - 1,
    {
        proof {
            broadcast use vstd::array::axiom_spec_array_fill_for_copy_type;
        }
        let mut b: [u8; N] = [0xFFu8; N];
        b[N - 1] = 0x7F;
        proof {
            lemma_top_byte_below(b@);
            lemma_half(N as nat);
        }
        I(b)
    }

    /// The smallest value above zero: one.
    pub fn min_positive() -> (r: I<N>)
        requires
            N >= 1,
        ensures
            r@ == 1,
    {
        I::one()
    }

    /// The largest value below zero: every bit set, minus one.
    pub fn max_negative() -> (r: I<N>)
        requires
            N >= 1,
        ensures
            r@ == -1,
    {
        let u: U<N> = U::max_value();
        proof {
            lemma_half(N as nat);
        }
        I(u.0)
    }
}

/// Bytes that are zero but for a top byte `t` hold `t * 256^(n-1)`.
proof fn lemma_top_byte(s: Seq<u8>, t: u8)
    requires
        s.len() >= 1,
        s.last() == t,
        forall|i: int| 0 <= i < s.len() - 1 ==> s[i] == 0,
    ensures
        seq_val(s) == t * weight::<u8>((s.len() - 1) as nat),
        t == 0x80 ==> seq_val(s) == weight::<u8>(s.len()) / 2,
{
    let lo = s.drop_last();
    assert(crate::limbs::all_zero(lo));
    crate::limbs::lemma_val_zeros(lo);
    crate::limbs::lemma_weight_succ::<u8>((s.len() - 1) as nat);
    vstd::arithmetic::power2::lemma2_to64();
    let w = weight::<u8>((s.len() - 1) as nat);
    assert(128 * w * 2 == w * 256) by (nonlinear_arith);
    vstd::arithmetic::div_mod::lemma_div_multiples_vanish((128 * w) as int, 2);
    assert(2 * (128 * w) == w * 256) by (nonlinear_arith);
}

/// Bytes all `0xFF` but for a top byte `0x7F` hold `256^n / 2 - 1`.
proof fn lemma_top_byte_below(s: Seq<u8>)
    requires
        s.len() >= 1,
        s.last() == 0x7F,
        forall|i: int| 0 <= i < s.len() - 1 ==> s[i] == 0xFF,
    ensures
        seq_val(s) == weight::<u8>(s.len()) / 2 - 1,
{
    let lo = s.drop_last();
    crate::u::lemma_all_ones(lo);
    crate::limbs::lemma_weight_succ::<u8>((s.len() - 1) as nat);
    vstd::arithmetic::power2::lemma2_to64();
    let w = weight::<u8>((s.len() - 1) as nat);
    vstd::arithmetic::div_mod::lemma_div_multiples_vanish((128 * w) as int, 2);
    assert(2 * (128 * w) == w * 256) by (nonlinear_arith);
    assert(w - 1 + 127 * w == 128 * w - 1) by (nonlinear_arith);
}

/// Sums of unsigned values reduce as the sums of their signed readings.
proof fn lemma_wrap_add(ua: nat, ub: nat, n: nat)
    requires
        n >= 1,
        ua < modulus(n),
        ub < modulus(n),
    ensures
        to_signed(((ua + ub) % modulus(n)) as nat, n) == wrap(to_signed(ua, n) + to_signed(ub, n), n),
{
    let m = modulus(n) as int;
    let ka = lemma_congruent(ua, to_signed(ua, n), n);
    let kb = lemma_congruent(ub, to_signed(ub, n), n);
    let x = to_signed(ua, n) + to_signed(ub, n);
    assert(ua + ub == x + (ka + kb) * m) by (nonlinear_arith)
        requires
            ua == to_signed(ua, n) + ka * m,
            ub == to_signed(ub, n) + kb * m,
            x == to_signed(ua, n) + to_signed(ub, n),
    ;
    lemma_half(n);
    lemma_shift_multiple(x, ka + kb, m);
}

/// `(a + k m)(b + l m)` is `a b` plus a multiple of `m`.
proof fn lemma_product_shift(a: int, b: int, k: int, l: int, m: int)
    ensures
        (a + k * m) * (b + l * m) == a * b + (k * b + l * a + k * l * m) * m,
{
    let km = k * m;
    let lm = l * m;
    lemma_mul_is_distributive_add_other_way(b + lm, a, km);
    lemma_mul_is_distributive_add(a, b, lm);
    lemma_mul_is_distributive_add(km, b, lm);
    lemma_mul_is_associative(a, l, m);
    lemma_mul_is_commutative(a, l);
    lemma_mul_is_associative(k, m, b);
    lemma_mul_is_commutative(m, b);
    lemma_mul_is_associative(k, b, m);
    lemma_mul_is_associative(k, m, l * m);
    lemma_mul_is_associative(m, l, m);
    lemma_mul_is_commutative(m, l);
    lemma_mul_is_associative(l, m, m);
    lemma_mul_is_associative(k, l, m * m);
    lemma_mul_is_associative(k * l, m, m);
    lemma_mul_is_associative(k, l, m);
    lemma_mul_is_distributive_add_other_way(m, k * b + l * a, k * l * m);
    lemma_mul_is_distributive_add_other_way(m, k * b, l * a);
}

/// Products of unsigned values reduce as the products of their signed readings.
proof fn lemma_wrap_mul(ua: nat, ub: nat, n: nat)
    requires
        n >= 1,
        ua < modulus(n),
        ub < modulus(n),
    ensures
        to_signed(((ua * ub) % modulus(n)) as nat, n) == wrap(to_signed(ua, n) * to_signed(ub, n), n),
{
    let m = modulus(n) as int;
    let sa = to_signed(ua, n);
    let sb = to_signed(ub, n);
    let ka = lemma_congruent(ua, sa, n);
    let kb = lemma_congruent(ub, sb, n);
    let k = ka * sb + kb * sa + ka * kb * m;
    lemma_product_shift(sa, sb, ka, kb, m);
    lemma_half(n);
    lemma_shift_multiple(sa * sb, k, m);
}

/// The complement-plus-one of an unsigned value reduces as the negation of its signed reading.
proof fn lemma_wrap_neg(u: nat, n: nat)
    requires
        n >= 1,
        u < modulus(n),
    ensures
        to_signed(((modulus(n) - u) % (modulus(n) as int)) as nat, n) == wrap(-to_signed(u, n), n),
        ((modulus(n) - u) % (modulus(n) as int)) as nat == (if u == 0 { 0 } else { (modulus(n) - u) as nat }),
{
    let m = modulus(n) as int;
    let s = to_signed(u, n);
    let k = lemma_congruent(u, s, n);
    assert(m - u == -s + (1 - k) * m) by (nonlinear_arith)
        requires
            u == s + k * m,
    ;
    lemma_half(n);
    lemma_shift_multiple(-s, 1 - k, m);
    if u == 0 {
        vstd::arithmetic::div_mod::lemma_mod_self_0(m);
    } else {
        vstd::arithmetic::div_mod::lemma_small_mod((m - u) as nat, m as nat);
    }
}

impl<const N: usize> I<N> {
    /// Sum, wrapping around the range.
    pub fn wrapping_add(self, rhs: I<N>) -> (r: I<N>)
        requires
            N >= 1,
            small_width(N as nat),
        ensures
            r.bits() == (self.bits() + rhs.bits()) % modulus(N as nat),
            r@ == wrap(self@ + rhs@, N as nat),
    {
        let s = add_values(self.0.as_slice(), rhs.0.as_slice());
        proof {
            lemma_val_bound(self.0@);
            lemma_val_bound(rhs.0@);
            lemma_wrap_add(self.bits(), rhs.bits(), N as nat);
        }
        I(truncate_bytes(s.as_slice()))
    }

    /// Negation, wrapping around the range (the smallest value is its own negation).
    pub fn wrapping_neg(self) -> (r: I<N>)
        requires
            N >= 1,
            small_width(N as nat),
        ensures
            r.bits() == (if self.bits() == 0 { 0 } else { (modulus(N as nat) - self.bits()) as nat }),
            r@ == wrap(-self@, N as nat),
    {
        let mut b = self.0;
        let mut i: usize = 0;
        while i < N
            invariant
                i <= N,
                b@.len() == N,
                forall|j: int| 0 <= j < i ==> b@[j] == 255 - self.0@[j],
                forall|j: int| i <= j < N ==> b@[j] == self.0@[j],
            decreases N - i,
        {
            b[i] = 255 - b[i];
            i += 1;
        }
        proof {
            lemma_complement(self.0@, b@);
            lemma_val_bound(self.0@);
            lemma_half(N as nat);
        }
        let one = I::<N>::one();
        let r = I(b).wrapping_add(one);
        proof {
            lemma_wrap_neg(self.bits(), N as nat);
            let m = modulus(N as nat) as int;
            assert(seq_val(b@) + 1 == m - self.bits());
        }
        r
    }

    /// Difference, wrapping around the range.
    pub fn wrapping_sub(self, rhs: I<N>) -> (r: I<N>)
        requires
            N >= 1,
            small_width(N as nat),
        ensures
            r@ == wrap(self@ - rhs@, N as nat),
    {
        let n = rhs.wrapping_neg();
        let r = self.wrapping_add(n);
        proof {
            lemma_val_bound(rhs.0@);
            lemma_val_bound(self.0@);
            lemma_half(N as nat);
            let m = modulus(N as nat) as int;
            let nv = -rhs@;
            let q = nv % m;
            vstd::arithmetic::div_mod::lemma_fundamental_div_mod(nv, m);
            vstd::arithmetic::div_mod::lemma_mod_bound(nv, m);
            lemma_signed_range(q as nat, N as nat);
            let k = lemma_congruent(q as nat, n@, N as nat);
            let d = nv / m;
            let sv = self@;
            let nn = n@;
            assert(sv + nn == (sv - rhs@) + (-d - k) * m) by (nonlinear_arith)
                requires
                    nv == m * d + q,
                    q == nn + k * m,
                    nv == -rhs@,
            ;
            lemma_shift_multiple(sv - rhs@, -d - k, m);
        }
        r
    }
}

impl<const N: usize> I<N> {
    /// Product, wrapping around the range.
    pub fn wrapping_mul(self, rhs: I<N>) -> (r: I<N>)
        requires
            N >= 1,
            small_width(N as nat),
        ensures
            r@ == wrap(self@ * rhs@, N as nat),
    {
        let p = mul_values(self.0.as_slice(), rhs.0.as_slice());
        proof {
            lemma_val_bound(self.0@);
            lemma_val_bound(rhs.0@);
            lemma_wrap_mul(self.bits(), rhs.bits(), N as nat);
        }
        I(truncate_bytes(p.as_slice()))
    }

    /// The magnitude as an unsigned value of the same width; the smallest value's magnitude
    /// is `half`.
    pub fn magnitude(self) -> (r: U<N>)
        requires
            N >= 1,
            small_width(N as nat),
        ensures
            r@ == abs(self@),
    {
        proof {
            lemma_val_bound(self.0@);
            lemma_half(N as nat);
        }
        if self.is_negative() {
            let n = self.wrapping_neg();
            U(n.0)
        } else {
            U(self.0)
        }
    }

    /// The absolute value, wrapping for the smallest value, which is its own absolute value.
    pub fn abs(self) -> (r: I<N>)
        requires
            N >= 1,
            small_width(N as nat),
        ensures
            r@ == wrap(abs(self@) as int, N as nat),
    {
        proof {
            lemma_val_bound(self.0@);
            lemma_signed_range(self.bits(), N as nat);
        }
        if self.is_negative() {
            self.wrapping_neg()
        } else {
            self
        }
    }

    /// The value with the given sign applied to an unsigned magnitude of at most `half`.
    fn with_sign(neg: bool, m: U<N>) -> (r: I<N>)
        requires
            N >= 1,
            small_width(N as nat),
            m@ <= half(N as nat),
            !neg ==> m@ < half(N as nat),
        ensures
            r@ == signed(neg, m@),
    {
        proof {
            crate::u::lemma_u_bound(m);
            lemma_half(N as nat);
        }
        let v = I(m.0);
        if neg {
            let r = v.wrapping_neg();
            proof {
                lemma_wrap_neg(m@, N as nat);
            }
            r
        } else {
            v
        }
    }

    /// Quotient rounded toward zero.
    pub fn divide(self, rhs: I<N>) -> (r: I<N>)
        requires
            N >= 1,
            small_width(N as nat),
            rhs@ != 0,
            !(self@ == -(half(N as nat) as int) && rhs@ == -1),
        ensures
            r@ == quotient_toward_zero(self@, rhs@),
    {
        let neg = self.is_negative() != rhs.is_negative();
        let a = self.magnitude();
        let b = rhs.magnitude();
        let q = match a.checked_div(b) {
            Some(v) => v,
            None => a,
        };
        proof {
            lemma_val_bound(self.0@);
            lemma_signed_range(self.bits(), N as nat);
            lemma_val_bound(rhs.0@);
            lemma_signed_range(rhs.bits(), N as nat);
            vstd::arithmetic::div_mod::lemma_div_is_ordered_by_denominator(a@ as int, 1, b@ as int);
            if b@ == 1 {
                vstd::arithmetic::div_mod::lemma_div_basics(a@ as int);
            } else {
                vstd::arithmetic::div_mod::lemma_div_is_ordered_by_denominator(a@ as int, 2, b@ as int);
                assert(a@ / 2 < half(N as nat)) by {
                    vstd::arithmetic::div_mod::lemma_div_is_ordered(a@ as int, half(N as nat) as int, 2);
                }
            }
        }
        I::with_sign(neg, q)
    }

    /// Remainder of the magnitudes, negative where exactly one operand is.
    pub fn remainder(self, rhs: I<N>) -> (r: I<N>)
        requires
            N >= 1,
            small_width(N as nat),
            rhs@ != 0,
        ensures
            r@ == remainder_signed(self@, rhs@),
    {
        let neg = self.is_negative() != rhs.is_negative();
        let a = self.magnitude();
        let b = rhs.magnitude();
        let (_, m) = a.div_rem_checked(b);
        proof {
            lemma_val_bound(rhs.0@);
            lemma_signed_range(rhs.bits(), N as nat);
            vstd::arithmetic::div_mod::lemma_mod_bound(a@ as int, b@ as int);
        }
        I::with_sign(neg, m)
    }

    /// Compare: -1, 0 or 1.
    fn compare(&self, other: &I<N>) -> (r: i8)
        requires
            N >= 1,
        ensures
            r == -1 <==> self@ < other@,
            r == 0 <==> self@ == other@,
            r == 1 <==> self@ > other@,
    {
        proof {
            lemma_val_bound(self.0@);
            lemma_val_bound(other.0@);
            lemma_half(N as nat);
        }
        let a = self.is_negative();
        let b = other.is_negative();
        if a && !b {
            -1
        } else if !a && b {
            1
        } else {
            let x = U(self.0);
            let y = U(other.0);
            if x.less(&y) {
                -1
            } else if y.less(&x) {
                1
            } else {
                0
            }
        }
    }

    /// The value written in decimal, with a leading `-` when negative.
    pub fn to_string(&self) -> (r: String)
        requires
            N >= 1,
            small_width(N as nat),
            dec_string(abs(self@)).len() <= 255,
        ensures
            r@ == if self@ < 0 {
                seq!['-'] + dec_string(abs(self@))
            } else {
                dec_string(abs(self@))
            },
    {
        let ghost n = abs(self@);
        let base = I::<N>::ten();
        let mut digits = buffer_new();
        let mut scratch = *self;
        let mut out = String::new();
        if scratch.is_negative() {
            proof {
                reveal_strlit("-");
            }
            out.append("-");
        }
        let ghost prefix = out@;
        proof {
            lemma_dec_string_len(n);
        }
        while !scratch.is_zero()
            invariant
                N >= 1,
                small_width(N as nat),
                base@ == 10,
                out@ == prefix,
                dec_string(n).len() <= 255,
                forall|j: int| 0 <= j < digit_buffer(digits).len() ==> #[trigger] digit_buffer(
                    digits,
                )[j] < 10,
                abs(scratch@) > 0 ==> dec_string(n) == dec_string(abs(scratch@)) + rev_chars(
                    digit_buffer(digits),
                ),
                abs(scratch@) == 0 ==> (n == 0 && digit_buffer(digits).len() == 0) || (dec_string(n)
                    == rev_chars(digit_buffer(digits)) && digit_buffer(digits).len() >= 1),
            decreases abs(scratch@),
        {
            let ghost v = abs(scratch@);
            let ghost before = digit_buffer(digits);
            proof {
                lemma_half(N as nat);
                lemma_val_bound(scratch.0@);
                lemma_signed_range(scratch.bits(), N as nat);
                lemma_dec_string_len(v);
                lemma_rev_chars_len(before);
                vstd::arithmetic::div_mod::lemma_mod_bound(v as int, 10);
            }
            let rem = scratch.remainder(base);
            let m = rem.magnitude();
            proof {
                crate::limb::lemma_usize_width();
            }
            let d = m.small_count() as u8;
            buffer_push(&mut digits, d);
            proof {
                assert(digit_buffer(digits) == before.push(d));
                lemma_rev_chars_push(before, d);
                assert(d == v % 10);
                if v >= 10 {
                    assert(dec_string(v) == dec_string(v / 10).push(digit_char(v % 10)));
                    assert(dec_string(v / 10) + rev_chars(before.push(d)) =~= dec_string(v) + rev_chars(
                        before,
                    ));
                    vstd::arithmetic::div_mod::lemma_div_pos_is_pos(v as int, 10);
                } else {
                    vstd::arithmetic::div_mod::lemma_small_mod(v, 10);
                    vstd::arithmetic::div_mod::lemma_basic_div(v as int, 10);
                    assert(rev_chars(before.push(d)) =~= dec_string(v) + rev_chars(before));
                }
                vstd::arithmetic::div_mod::lemma_div_decreases(v as int, 10);
            }
            scratch = scratch.divide(base);
        }
        if buffer_is_empty(&digits) {
            buffer_push(&mut digits, 0);
            proof {
                lemma_rev_chars_push(Seq::<u8>::empty(), 0);
                assert(Seq::<u8>::empty().push(0) =~= digit_buffer(digits));
                assert(rev_chars(Seq::<u8>::empty()) == Seq::<char>::empty());
                assert(seq![digit_char(0)] + Seq::<char>::empty() =~= seq![digit_char(0)]);
            }
        }
        let text = write_digits(buffer_as_slice(&digits));
        out.append(text.as_str());
        proof {
            if self@ >= 0 {
                assert(out@ =~= text@);
            }
        }
        out
    }

    /// The value ten.
    fn ten() -> (r: I<N>)
        requires
            N >= 1,
            small_width(N as nat),
        ensures
            r@ == 10,
    {
        proof {
            lemma_half(N as nat);
        }
        match I::<N>::from_i128_checked(10) {
            Some(v) => v,
            None => vstd::pervasive::unreached(),
        }
    }

    /// The value of an integer, where it lies in the range of `N` bytes.
    pub fn from_i128_checked(v: i128) -> (r: Option<I<N>>)
        requires
            N >= 1,
            small_width(N as nat),
        ensures
            r is Some <==> -(half(N as nat) as int) <= v < half(N as nat),
            r matches Some(x) ==> x@ == v,
    {
        let m: u128 = if v >= 0 {
            v as u128
        } else if v == i128::MIN {
            (i128::MAX as u128) + 1
        } else {
            (-v) as u128
        };
        let wide: [u8; 16] = value_bytes(m);
        let digits = crate::element::shrink_slice(wide.as_slice());
        proof {
            vstd::arithmetic::power2::lemma2_to64();
            vstd::arithmetic::power2::lemma_pow2_adds(64, 64);
            assert(modulus(16) == pow2(128));
            vstd::arithmetic::div_mod::lemma_small_mod(m as nat, modulus(16));
            lemma_half(N as nat);
        }
        if digits.len() > N {
            proof {
                crate::limbs::lemma_val_top_nonzero(digits@);
                crate::limbs::lemma_weight_mono::<u8>(N as nat, (digits@.len() - 1) as nat);
            }
            return None;
        }
        let mag: U<N> = U(truncate_bytes(digits));
        proof {
            lemma_val_bound(digits@);
            crate::limbs::lemma_weight_mono::<u8>(digits@.len(), N as nat);
            vstd::arithmetic::div_mod::lemma_small_mod(seq_val(digits@), modulus(N as nat));
        }
        let cap = I::<N>::min_value();
        let cap_u = U(cap.0);
        if v >= 0 {
            if mag.less(&cap_u) {
                Some(I::with_sign(false, mag))
            } else {
                None
            }
        } else {
            if cap_u.less(&mag) {
                None
            } else {
                Some(I::with_sign(true, mag))
            }
        }
    }
}

impl<const N: usize> U<N> {
    /// Quotient and remainder, for a nonzero divisor.
    pub fn div_rem_checked(self, rhs: U<N>) -> (r: (U<N>, U<N>))
        requires
            small_width(N as nat),
            rhs@ != 0,
        ensures
            r.0@ == self@ / rhs@,
            r.1@ == self@ % rhs@,
    {
        let (q, m) = div_rem_values(self.0.as_slice(), rhs.0.as_slice());
        proof {
            lemma_val_bound(self.0@);
            vstd::arithmetic::div_mod::lemma_div_is_ordered_by_denominator(self@ as int, 1, rhs@ as int);
            vstd::arithmetic::div_mod::lemma_mod_bound(self@ as int, rhs@ as int);
            lemma_val_bound(rhs.0@);
            vstd::arithmetic::div_mod::lemma_small_mod(seq_val(q@), modulus(N as nat));
            vstd::arithmetic::div_mod::lemma_small_mod(seq_val(m@), modulus(N as nat));
        }
        (U(truncate_bytes(q.as_slice())), U(truncate_bytes(m.as_slice())))
    }
}

impl<const N: usize> core::ops::Add for I<N> {
    type Output = I<N>;

    fn add(self, rhs: I<N>) -> (r: I<N>)
        ensures
            r@ == wrap(self@ + rhs@, N as nat),
    {
        self.wrapping_add(rhs)
    }
}

impl<const N: usize> vstd::std_specs::ops::AddSpecImpl for I<N> {
    open spec fn obeys_add_spec() -> bool {
        false
    }

    open spec fn add_req(self, rhs: I<N>) -> bool {
        N >= 1 && small_width(N as nat)
    }

    open spec fn add_spec(self, rhs: I<N>) -> I<N> {
        arbitrary()
    }
}

impl<const N: usize> core::ops::Sub for I<N> {
    type Output = I<N>;

    fn sub(self, rhs: I<N>) -> (r: I<N>)
        ensures
            r@ == wrap(self@ - rhs@, N as nat),
    {
        self.wrapping_sub(rhs)
    }
}

impl<const N: usize> vstd::std_specs::ops::SubSpecImpl for I<N> {
    open spec fn obeys_sub_spec() -> bool {
        false
    }

    open spec fn sub_req(self, rhs: I<N>) -> bool {
        N >= 1 && small_width(N as nat)
    }

    open spec fn sub_spec(self, rhs: I<N>) -> I<N> {
        arbitrary()
    }
}

impl<const N: usize> core::ops::Mul for I<N> {
    type Output = I<N>;

    fn mul(self, rhs: I<N>) -> (r: I<N>)
        ensures
            r@ == wrap(self@ * rhs@, N as nat),
    {
        self.wrapping_mul(rhs)
    }
}

impl<const N: usize> vstd::std_specs::ops::MulSpecImpl for I<N> {
    open spec fn obeys_mul_spec() -> bool {
        false
    }

    open spec fn mul_req(self, rhs: I<N>) -> bool {
        N >= 1 && small_width(N as nat)
    }

    open spec fn mul_spec(self, rhs: I<N>) -> I<N> {
        arbitrary()
    }
}

impl<const N: usize> core::ops::Div for I<N> {
    type Output = I<N>;

    fn div(self, rhs: I<N>) -> (r: I<N>)
        ensures
            r@ == quotient_toward_zero(self@, rhs@),
    {
        // The quotient of the smallest value by minus one is out of range, and no quotient by
        // zero exists: neither input is admitted, and both stop here rather than go on.
        let min = I::<N>::min_value();
        let neg_one = I::<N>::max_negative();
        if self == min && rhs == neg_one {
            return vstd::pervasive::unreached();
        }
        if rhs.is_zero() {
            return vstd::pervasive::unreached();
        }
        self.divide(rhs)
    }
}

impl<const N: usize> vstd::std_specs::ops::DivSpecImpl for I<N> {
    open spec fn obeys_div_spec() -> bool {
        false
    }

    open spec fn div_req(self, rhs: I<N>) -> bool {
        N >= 1 && small_width(N as nat) && rhs@ != 0 && !(self@ == -(half(N as nat) as int) && rhs@ == -1)
    }

    open spec fn div_spec(self, rhs: I<N>) -> I<N> {
        arbitrary()
    }
}

impl<const N: usize> core::ops::Rem for I<N> {
    type Output = I<N>;

    fn rem(self, rhs: I<N>) -> (r: I<N>)
        ensures
            r@ == remainder_signed(self@, rhs@),
    {
        self.remainder(rhs)
    }
}

impl<const N: usize> vstd::std_specs::ops::RemSpecImpl for I<N> {
    open spec fn obeys_rem_spec() -> bool {
        false
    }

    open spec fn rem_req(self, rhs: I<N>) -> bool {
        N >= 1 && small_width(N as nat) && rhs@ != 0
    }

    open spec fn rem_spec(self, rhs: I<N>) -> I<N> {
        arbitrary()
    }
}

impl<const N: usize> core::ops::Neg for I<N> {
    type Output = I<N>;

    fn neg(self) -> (r: I<N>)
        ensures
            r@ == wrap(-self@, N as nat),
    {
        self.wrapping_neg()
    }
}

impl<const N: usize> vstd::std_specs::ops::NegSpecImpl for I<N> {
    open spec fn obeys_neg_spec() -> bool {
        false
    }

    open spec fn neg_req(self) -> bool {
        N >= 1 && small_width(N as nat)
    }

    open spec fn neg_spec(self) -> I<N> {
        arbitrary()
    }
}

/// Shifting the unsigned reading left and reducing gives the wrap of the shifted signed value.
proof fn lemma_wrap_shift(u: nat, x: int, p: nat, n: nat)
    requires
        n >= 1,
        u < modulus(n),
        x == to_signed(u, n),
    ensures
        to_signed(((u * p) % modulus(n)) as nat, n) == wrap(x * p, n),
{
    let m = modulus(n) as int;
    let k = lemma_congruent(u, x, n);
    lemma_mul_is_distributive_add_other_way(p as int, x, k * m);
    lemma_mul_is_associative(k, m, p as int);
    lemma_mul_is_commutative(m, p as int);
    lemma_mul_is_associative(k, p as int, m);
    assert(u * p == x * p + (k * p) * m);
    lemma_shift_multiple(x * p, k * p, m);
    lemma_half(n);
    vstd::arithmetic::div_mod::lemma_mod_bound((u * p) as int, m);
    lemma_wrap_of(((u * p) % modulus(n)) as nat, x * p, n);
}

impl<const N: usize> core::ops::Not for I<N> {
    type Output = I<N>;

    fn not(self) -> (r: I<N>)
        ensures
            forall|i: int| 0 <= i < N ==> r.0@[i] == !self.0@[i],
            N >= 1 ==> r@ == -self@ - 1,
    {
        let b = bytes_not(self.0);
        proof {
            lemma_complement(self.0@, b@);
            if N >= 1 {
                lemma_half(N as nat);
                lemma_val_bound(self.0@);
            }
        }
        I(b)
    }
}

impl<const N: usize> vstd::std_specs::ops::NotSpecImpl for I<N> {
    open spec fn obeys_not_spec() -> bool {
        false
    }

    open spec fn not_req(self) -> bool {
        true
    }

    open spec fn not_spec(self) -> I<N> {
        arbitrary()
    }
}

impl<const N: usize> core::ops::BitAnd for I<N> {
    type Output = I<N>;

    fn bitand(self, rhs: I<N>) -> (r: I<N>)
        ensures
            forall|i: int| 0 <= i < N ==> r.0@[i] == self.0@[i] & rhs.0@[i],
    {
        I(bytes_and(self.0, rhs.0))
    }
}

impl<const N: usize> vstd::std_specs::ops::BitAndSpecImpl for I<N> {
    open spec fn obeys_bitand_spec() -> bool {
        false
    }

    open spec fn bitand_req(self, rhs: I<N>) -> bool {
        true
    }

    open spec fn bitand_spec(self, rhs: I<N>) -> I<N> {
        arbitrary()
    }
}

impl<const N: usize> core::ops::BitOr for I<N> {
    type Output = I<N>;

    fn bitor(self, rhs: I<N>) -> (r: I<N>)
        ensures
            forall|i: int| 0 <= i < N ==> r.0@[i] == self.0@[i] | rhs.0@[i],
    {
        I(bytes_or(self.0, rhs.0))
    }
}

impl<const N: usize> vstd::std_specs::ops::BitOrSpecImpl for I<N> {
    open spec fn obeys_bitor_spec() -> bool {
        false
    }

    open spec fn bitor_req(self, rhs: I<N>) -> bool {
        true
    }

    open spec fn bitor_spec(self, rhs: I<N>) -> I<N> {
        arbitrary()
    }
}

impl<const N: usize> core::ops::BitXor for I<N> {
    type Output = I<N>;

    fn bitxor(self, rhs: I<N>) -> (r: I<N>)
        ensures
            forall|i: int| 0 <= i < N ==> r.0@[i] == self.0@[i] ^ rhs.0@[i],
    {
        I(bytes_xor(self.0, rhs.0))
    }
}

impl<const N: usize> vstd::std_specs::ops::BitXorSpecImpl for I<N> {
    open spec fn obeys_bitxor_spec() -> bool {
        false
    }

    open spec fn bitxor_req(self, rhs: I<N>) -> bool {
        true
    }

    open spec fn bitxor_spec(self, rhs: I<N>) -> I<N> {
        arbitrary()
    }
}

impl<const N: usize> I<N> {
    /// The bytes shifted left by `rhs` bits, dropping bits shifted past the top.
    pub fn shift_left(self, rhs: usize) -> (r: I<N>)
        requires
            N >= 1,
            small_width(N as nat),
            rhs < 8 * N,
        ensures
            r.bits() == (self.bits() * pow2(rhs as nat)) % modulus(N as nat),
            r@ == wrap(self@ * pow2(rhs as nat), N as nat),
    {
        let u = U(self.0).shift_left(rhs);
        proof {
            lemma_val_bound(self.0@);
            lemma_wrap_shift(self.bits(), self@, pow2(rhs as nat), N as nat);
        }
        I(u.0)
    }

    /// The bytes shifted right by `rhs` bits, filling the top with zero bits.
    pub fn shift_right(self, rhs: usize) -> (r: I<N>)
        requires
            small_width(N as nat),
            rhs < 8 * N,
        ensures
            r.bits() == self.bits() / pow2(rhs as nat),
    {
        let u = U(self.0).shift_right(rhs);
        I(u.0)
    }
}

impl<const N: usize> core::ops::Shl<usize> for I<N> {
    type Output = I<N>;

    fn shl(self, rhs: usize) -> (r: I<N>)
        ensures
            r@ == wrap(self@ * pow2(rhs as nat), N as nat),
    {
        self.shift_left(rhs)
    }
}

impl<const N: usize> vstd::std_specs::ops::ShlSpecImpl<usize> for I<N> {
    open spec fn obeys_shl_spec() -> bool {
        false
    }

    open spec fn shl_req(self, rhs: usize) -> bool {
        N >= 1 && small_width(N as nat) && rhs < 8 * N
    }

    open spec fn shl_spec(self, rhs: usize) -> I<N> {
        arbitrary()
    }
}

impl<const N: usize> core::ops::Shr<usize> for I<N> {
    type Output = I<N>;

    fn shr(self, rhs: usize) -> (r: I<N>)
        ensures
            r.bits() == self.bits() / pow2(rhs as nat),
    {
        self.shift_right(rhs)
    }
}

impl<const N: usize> vstd::std_specs::ops::ShrSpecImpl<usize> for I<N> {
    open spec fn obeys_shr_spec() -> bool {
        false
    }

    open spec fn shr_req(self, rhs: usize) -> bool {
        small_width(N as nat) && rhs < 8 * N
    }

    open spec fn shr_spec(self, rhs: usize) -> I<N> {
        arbitrary()
    }
}

/// A non-negative shift count held in the bytes of an `I<N>`, as a machine word.
fn shift_count<const N: usize>(rhs: I<N>) -> (r: usize)
    requires
        N >= 1,
        small_width(N as nat),
        0 <= rhs@ < 8 * N,
    ensures
        r == rhs@,
{
    proof {
        lemma_half(N as nat);
        lemma_val_bound(rhs.0@);
        crate::limb::lemma_usize_width();
    }
    let v = U(rhs.0);
    let c: usize = crate::u::U::<N>::small_count(v);
    c
}

impl<const N: usize> core::ops::Shl for I<N> {
    type Output = I<N>;

    fn shl(self, rhs: I<N>) -> (r: I<N>)
        ensures
            r@ == wrap(self@ * pow2(rhs@ as nat), N as nat),
    {
        let c = shift_count(rhs);
        self.shift_left(c)
    }
}

impl<const N: usize> vstd::std_specs::ops::ShlSpecImpl for I<N> {
    open spec fn obeys_shl_spec() -> bool {
        false
    }

    open spec fn shl_req(self, rhs: I<N>) -> bool {
        N >= 1 && small_width(N as nat) && 0 <= rhs@ < 8 * N
    }

    open spec fn shl_spec(self, rhs: I<N>) -> I<N> {
        arbitrary()
    }
}

impl<const N: usize> core::ops::Shr for I<N> {
    type Output = I<N>;

    fn shr(self, rhs: I<N>) -> (r: I<N>)
        ensures
            r.bits() == self.bits() / pow2(rhs@ as nat),
    {
        let c = shift_count(rhs);
        self.shift_right(c)
    }
}

impl<const N: usize> vstd::std_specs::ops::ShrSpecImpl for I<N> {
    open spec fn obeys_shr_spec() -> bool {
        false
    }

    open spec fn shr_req(self, rhs: I<N>) -> bool {
        N >= 1 && small_width(N as nat) && 0 <= rhs@ < 8 * N
    }

    open spec fn shr_spec(self, rhs: I<N>) -> I<N> {
        arbitrary()
    }
}

impl<const N: usize> Default for I<N> {
    fn default() -> (r: Self)
        ensures
            r@ == 0,
    {
        I::new()
    }
}

impl<const N: usize> PartialEq for I<N> {
    fn eq(&self, other: &Self) -> (r: bool) {
        proof {
            lemma_val_bound(self.0@);
            lemma_val_bound(other.0@);
            if N >= 1 {
                lemma_half(N as nat);
            }
        }
        equal_values(self.0.as_slice(), other.0.as_slice())
    }
}

impl<const N: usize> vstd::std_specs::cmp::PartialEqSpecImpl for I<N> {
    open spec fn obeys_eq_spec() -> bool {
        true
    }

    open spec fn eq_spec(&self, other: &I<N>) -> bool {
        self@ == other@
    }
}

impl<const N: usize> Eq for I<N> {}

impl<const N: usize> PartialOrd for I<N> {
    fn partial_cmp(&self, other: &Self) -> (r: Option<Ordering>) {
        if N == 0 {
            return Some(Ordering::Equal);
        }
        let c = self.compare(other);
        if c < 0 {
            Some(Ordering::Less)
        } else if c == 0 {
            Some(Ordering::Equal)
        } else {
            Some(Ordering::Greater)
        }
    }
}

impl<const N: usize> vstd::std_specs::cmp::PartialOrdSpecImpl for I<N> {
    open spec fn obeys_partial_cmp_spec() -> bool {
        N >= 1
    }

    open spec fn partial_cmp_spec(&self, other: &I<N>) -> Option<Ordering> {
        Some(order_of_ints(self@, other@))
    }
}

impl<const N: usize> FromChecked<u8> for I<N> {
    fn from_checked(val: u8) -> (r: Option<I<N>>)
        ensures
            N >= 1 && small_width(N as nat) ==> (r is Some <==> -(half(N as nat) as int) <= val < half(
                N as nat,
            )),
            r matches Some(x) ==> x@ == val,
    {
        if N == 0 || N > (usize::MAX - 16) / 16 {
            return None;
        }
        I::from_i128_checked(val as i128)
    }
}

impl<const N: usize> FromChecked<u16> for I<N> {
    fn from_checked(val: u16) -> (r: Option<I<N>>)
        ensures
            N >= 1 && small_width(N as nat) ==> (r is Some <==> -(half(N as nat) as int) <= val < half(
                N as nat,
            )),
            r matches Some(x) ==> x@ == val,
    {
        if N == 0 || N > (usize::MAX - 16) / 16 {
            return None;
        }
        I::from_i128_checked(val as i128)
    }
}

impl<const N: usize> FromChecked<u32> for I<N> {
    fn from_checked(val: u32) -> (r: Option<I<N>>)
        ensures
            N >= 1 && small_width(N as nat) ==> (r is Some <==> -(half(N as nat) as int) <= val < half(
                N as nat,
            )),
            r matches Some(x) ==> x@ == val,
    {
        if N == 0 || N > (usize::MAX - 16) / 16 {
            return None;
        }
        I::from_i128_checked(val as i128)
    }
}

impl<const N: usize> FromChecked<u64> for I<N> {
    fn from_checked(val: u64) -> (r: Option<I<N>>)
        ensures
            N >= 1 && small_width(N as nat) ==> (r is Some <==> -(half(N as nat) as int) <= val < half(
                N as nat,
            )),
            r matches Some(x) ==> x@ == val,
    {
        if N == 0 || N > (usize::MAX - 16) / 16 {
            return None;
        }
        I::from_i128_checked(val as i128)
    }
}

impl<const N: usize> FromChecked<i8> for I<N> {
    fn from_checked(val: i8) -> (r: Option<I<N>>)
        ensures
            N >= 1 && small_width(N as nat) ==> (r is Some <==> -(half(N as nat) as int) <= val < half(
                N as nat,
            )),
            r matches Some(x) ==> x@ == val,
    {
        if N == 0 || N > (usize::MAX - 16) / 16 {
            return None;
        }
        I::from_i128_checked(val as i128)
    }
}

impl<const N: usize> FromChecked<i16> for I<N> {
    fn from_checked(val: i16) -> (r: Option<I<N>>)
        ensures
            N >= 1 && small_width(N as nat) ==> (r is Some <==> -(half(N as nat) as int) <= val < half(
                N as nat,
            )),
            r matches Some(x) ==> x@ == val,
    {
        if N == 0 || N > (usize::MAX - 16) / 16 {
            return None;
        }
        I::from_i128_checked(val as i128)
    }
}

impl<const N: usize> FromChecked<i32> for I<N> {
    fn from_checked(val: i32) -> (r: Option<I<N>>)
        ensures
            N >= 1 && small_width(N as nat) ==> (r is Some <==> -(half(N as nat) as int) <= val < half(
                N as nat,
            )),
            r matches Some(x) ==> x@ == val,
    {
        if N == 0 || N > (usize::MAX - 16) / 16 {
            return None;
        }
        I::from_i128_checked(val as i128)
    }
}

impl<const N: usize> FromChecked<i64> for I<N> {
    fn from_checked(val: i64) -> (r: Option<I<N>>)
        ensures
            N >= 1 && small_width(N as nat) ==> (r is Some <==> -(half(N as nat) as int) <= val < half(
                N as nat,
            )),
            r matches Some(x) ==> x@ == val,
    {
        if N == 0 || N > (usize::MAX - 16) / 16 {
            return None;
        }
        I::from_i128_checked(val as i128)
    }
}

} // verus!
