//! N-byte bounded unsigned integers, held as little-endian bytes.
use vstd::prelude::*;
use vstd::arithmetic::power2::pow2;
use core::cmp::Ordering;
use crate::limbs::{seq_val, weight, lemma_val_bound};
use crate::element::{add_values, sub_values, mul_values, div_rem_values, less_values, equal_values,
    cmp_values, ordering_of};
use crate::fixed_bytes::{zero_bytes, truncate_bytes, reverse_bytes, bytes_value, value_bytes, bytes_not,
    bytes_and, bytes_or, bytes_xor};
use crate::decimal::{dec_string, write_digits};

verus! {

/// The number of values an `N`-byte integer holds: `256^N`.
pub open spec fn modulus(n: nat) -> nat {
    weight::<u8>(n)
}

/// Byte counts small enough that every bit index of a few such numbers fits in a machine word.
pub open spec fn small_width(n: nat) -> bool {
    n * 16 + 16 <= usize::MAX
}

/// N-byte bounded, unsigned integer. `U<1> == u8`, `U<16> == u128`, etc.
#[derive(Copy, Clone, Debug)]
pub struct U<const N: usize>(pub [u8; N]);

impl<const N: usize> View for U<N> {
    type V = nat;

    open spec fn view(&self) -> nat {
        seq_val(self.0@)
    }
}

/// The value of a value's bytes lies below the modulus.
pub proof fn lemma_u_bound<const N: usize>(x: U<N>)
    ensures
        x@ < modulus(N as nat),
{
    lemma_val_bound(x.0@);
}

impl<const N: usize> U<N> {
    /// Create a new instance containing the default value (0)
    pub fn new() -> (r: U<N>)
        ensures
            r@ == 0,
    {
        U(zero_bytes())
    }

    /// Create a value from raw bytes, laid out in little-endian order
    pub fn from_le_bytes(bytes: [u8; N]) -> (r: U<N>)
        ensures
            r.0 == bytes,
    {
        U(bytes)
    }

    /// Create a value from raw bytes, laid out in big-endian order
    pub fn from_be_bytes(bytes: [u8; N]) -> (r: U<N>)
        ensures
            r.0@ == bytes@.reverse(),
    {
        U(reverse_bytes(bytes))
    }

    /// Create a value from raw bytes, laid out in the native (little-endian) order
    pub fn from_ne_bytes(bytes: [u8; N]) -> (r: U<N>)
        ensures
            r.0 == bytes,
    {
        U::from_le_bytes(bytes)
    }

    /// Convert this value to raw bytes, laid out in little-endian order
    pub fn to_le_bytes(self) -> (r: [u8; N])
        ensures
            r == self.0,
    {
        self.0
    }

    /// Convert this value to raw bytes, laid out in big-endian order
    pub fn to_be_bytes(self) -> (r: [u8; N])
        ensures
            r@ == self.0@.reverse(),
    {
        reverse_bytes(self.0)
    }

    /// Convert this value to raw bytes, laid out in the native (little-endian) order
    pub fn to_ne_bytes(self) -> (r: [u8; N])
        ensures
            r == self.0,
    {
        self.to_le_bytes()
    }

    /// The value `v` modulo `256^N`.
    pub fn from_u128_wrapping(v: u128) -> (r: U<N>)
        ensures
            r@ == (v as nat) % modulus(N as nat),
    {
        U(value_bytes(v))
    }

    /// The value zero.
    pub fn zero() -> (r: U<N>)
        ensures
            r@ == 0,
    {
        U::new()
    }

    /// The value one, or zero when there are no bytes.
    pub fn one() -> (r: U<N>)
        ensures
            r@ == 1nat % modulus(N as nat),
    {
        U::from_u128_wrapping(1)
    }

    /// Whether the value is zero.
    pub fn is_zero(&self) -> (r: bool)
        ensures
            r == (self@ == 0),
    {
        let z: [u8; 1] = [0u8];
        proof {
            crate::limbs::lemma_val_single(z@);
        }
        equal_values(self.0.as_slice(), z.as_slice())
    }

    /// Whether the value is one.
    pub fn is_one(&self) -> (r: bool)
        ensures
            r == (self@ == 1),
    {
        let o: [u8; 1] = [1u8];
        proof {
            crate::limbs::lemma_val_single(o@);
        }
        equal_values(self.0.as_slice(), o.as_slice())
    }

    /// The smallest value, zero.
    pub fn min_value() -> (r: U<N>)
        ensures
            r@ == 0,
    {
        U::new()
    }

    /// The largest value, every bit set.
    pub fn max_value() -> (r: U<N>)
        ensures
            r@ == modulus(N as nat) - 1,
    {
        proof {
            broadcast use vstd::array::axiom_spec_array_fill_for_copy_type;
        }
        let b: [u8; N] = [0xFFu8; N];
        proof {
            lemma_all_ones(b@);
        }
        U(b)
    }

    /// Whether the value is below `rhs`.
    pub fn less(&self, rhs: &U<N>) -> (r: bool)
        ensures
            r == (self@ < rhs@),
    {
        less_values(self.0.as_slice(), rhs.0.as_slice())
    }

    /// Sum, where it fits.
    pub fn checked_add(self, rhs: U<N>) -> (r: Option<U<N>>)
        requires
            small_width(N as nat),
        ensures
            r is Some <==> self@ + rhs@ < modulus(N as nat),
            r matches Some(v) ==> v@ == self@ + rhs@,
    {
        let s = add_values(self.0.as_slice(), rhs.0.as_slice());
        let out: [u8; N] = truncate_bytes(s.as_slice());
        proof {
            lemma_val_bound(self.0@);
            lemma_val_bound(rhs.0@);
            crate::limbs::lemma_weight_zero::<u8>();
        }
        if N == 0 {
            proof {
                vstd::arithmetic::div_mod::lemma_small_mod(seq_val(s@), modulus(N as nat));
            }
            return Some(U(out));
        }
        if s.len() <= N {
            proof {
                lemma_val_bound(s@);
                crate::limbs::lemma_weight_mono::<u8>(s@.len(), N as nat);
                vstd::arithmetic::div_mod::lemma_small_mod(seq_val(s@), modulus(N as nat));
            }
            Some(U(out))
        } else {
            proof {
                crate::limbs::lemma_val_top_nonzero(s@);
                crate::limbs::lemma_weight_mono::<u8>(N as nat, (s@.len() - 1) as nat);
            }
            None
        }
    }

    /// Difference, where `rhs` is no larger.
    pub fn checked_sub(self, rhs: U<N>) -> (r: Option<U<N>>)
        ensures
            r is Some <==> rhs@ <= self@,
            r matches Some(v) ==> v@ == self@ - rhs@,
    {
        let (d, neg) = sub_values(self.0.as_slice(), rhs.0.as_slice());
        if neg {
            None
        } else {
            let out: [u8; N] = truncate_bytes(d.as_slice());
            proof {
                lemma_val_bound(self.0@);
                vstd::arithmetic::div_mod::lemma_small_mod(seq_val(d@), modulus(N as nat));
            }
            Some(U(out))
        }
    }

    /// Product, where it fits.
    pub fn checked_mul(self, rhs: U<N>) -> (r: Option<U<N>>)
        requires
            small_width(N as nat),
        ensures
            r is Some <==> self@ * rhs@ < modulus(N as nat),
            r matches Some(v) ==> v@ == self@ * rhs@,
    {
        let p = mul_values(self.0.as_slice(), rhs.0.as_slice());
        let out: [u8; N] = truncate_bytes(p.as_slice());
        if N == 0 {
            proof {
                lemma_val_bound(self.0@);
                crate::limbs::lemma_weight_zero::<u8>();
                let a = self@;
                let b = rhs@;
                assert(a * b == 0) by (nonlinear_arith)
                    requires
                        a == 0,
                ;
            }
            return Some(U(out));
        }
        if p.len() <= N {
            proof {
                lemma_val_bound(p@);
                crate::limbs::lemma_weight_mono::<u8>(p@.len(), N as nat);
                vstd::arithmetic::div_mod::lemma_small_mod(seq_val(p@), modulus(N as nat));
            }
            Some(U(out))
        } else {
            proof {
                crate::limbs::lemma_val_top_nonzero(p@);
                crate::limbs::lemma_weight_mono::<u8>(N as nat, (p@.len() - 1) as nat);
            }
            None
        }
    }

    /// Quotient, for a nonzero divisor.
    pub fn checked_div(self, rhs: U<N>) -> (r: Option<U<N>>)
        requires
            small_width(N as nat),
        ensures
            r is Some <==> rhs@ != 0,
            r matches Some(v) ==> v@ == self@ / rhs@,
    {
        if rhs.is_zero() {
            return None;
        }
        Some(self.div_exact_width(rhs).0)
    }

    /// Quotient and remainder, for a nonzero divisor.
    fn div_exact_width(self, rhs: U<N>) -> (r: (U<N>, U<N>))
        requires
            small_width(N as nat),
            rhs@ != 0,
        ensures
            r.0@ == self@ / rhs@,
            r.1@ == self@ % rhs@,
    {
        let (q, m) = div_rem_values(self.0.as_slice(), rhs.0.as_slice());
        let qa: [u8; N] = truncate_bytes(q.as_slice());
        let ma: [u8; N] = truncate_bytes(m.as_slice());
        proof {
            lemma_val_bound(self.0@);
            vstd::arithmetic::div_mod::lemma_div_is_ordered_by_denominator(self@ as int, 1, rhs@ as int);
            vstd::arithmetic::div_mod::lemma_mod_bound(self@ as int, rhs@ as int);
            lemma_val_bound(rhs.0@);
            vstd::arithmetic::div_mod::lemma_small_mod(seq_val(q@), modulus(N as nat));
            vstd::arithmetic::div_mod::lemma_small_mod(seq_val(m@), modulus(N as nat));
        }
        (U(qa), U(ma))
    }

    /// Sum, or the largest value where it does not fit.
    pub fn saturating_add(self, rhs: U<N>) -> (r: U<N>)
        requires
            small_width(N as nat),
        ensures
            r@ == if self@ + rhs@ < modulus(N as nat) {
                self@ + rhs@
            } else {
                (modulus(N as nat) - 1) as nat
            },
    {
        match self.checked_add(rhs) {
            Some(v) => v,
            None => U::max_value(),
        }
    }

    /// Difference, or zero where `rhs` is larger.
    pub fn saturating_sub(self, rhs: U<N>) -> (r: U<N>)
        ensures
            r@ == if rhs@ <= self@ {
                (self@ - rhs@) as nat
            } else {
                0
            },
    {
        match self.checked_sub(rhs) {
            Some(v) => v,
            None => U::min_value(),
        }
    }

    /// Product, or the largest value where it does not fit.
    pub fn saturating_mul(self, rhs: U<N>) -> (r: U<N>)
        requires
            small_width(N as nat),
        ensures
            r@ == if self@ * rhs@ < modulus(N as nat) {
                self@ * rhs@
            } else {
                (modulus(N as nat) - 1) as nat
            },
    {
        match self.checked_mul(rhs) {
            Some(v) => v,
            None => U::max_value(),
        }
    }

    /// The value written in decimal.
    pub fn to_string(&self) -> (r: String)
        requires
            small_width(N as nat),
        ensures
            r@ == dec_string(self@),
    {
        let digits = crate::decimal_digits::decimal_digits(self.0.as_slice());
        write_digits(digits.as_slice())
    }
}

/// Bytes that are all `0xFF` hold `256^n - 1`.
pub proof fn lemma_all_ones(s: Seq<u8>)
    requires
        forall|i: int| 0 <= i < s.len() ==> s[i] == 0xFF,
    ensures
        seq_val(s) == weight::<u8>(s.len()) - 1,
    decreases s.len(),
{
    if s.len() == 0 {
        crate::limbs::lemma_weight_zero::<u8>();
    } else {
        lemma_all_ones(s.drop_last());
        crate::limbs::lemma_weight_succ::<u8>((s.len() - 1) as nat);
        vstd::arithmetic::power2::lemma2_to64();
        let w = weight::<u8>((s.len() - 1) as nat);
        assert(w - 1 + 255 * w == w * 256 - 1) by (nonlinear_arith);
    }
}

impl<const N: usize> U<N> {
    /// The value shifted left by `rhs` bits, dropping bits shifted past the top.
    pub fn shift_left(self, rhs: usize) -> (r: U<N>)
        requires
            small_width(N as nat),
            rhs < 8 * N,
        ensures
            r@ == (self@ * pow2(rhs as nat)) % modulus(N as nat),
    {
        let out = crate::bitwise::shl_bits(self.0.as_slice(), rhs);
        U(truncate_bytes(out.as_slice()))
    }

    /// The value shifted right by `rhs` bits.
    pub fn shift_right(self, rhs: usize) -> (r: U<N>)
        requires
            small_width(N as nat),
            rhs < 8 * N,
        ensures
            r@ == self@ / pow2(rhs as nat),
    {
        let out = crate::bitwise::shr_bits(self.0.as_slice(), rhs);
        proof {
            lemma_val_bound(self.0@);
            vstd::arithmetic::power2::lemma_pow2_pos(rhs as nat);
            vstd::arithmetic::div_mod::lemma_div_is_ordered_by_denominator(self@ as int, 1, pow2(rhs as nat) as int);
            vstd::arithmetic::div_mod::lemma_small_mod(seq_val(out@), modulus(N as nat));
        }
        U(truncate_bytes(out.as_slice()))
    }

    /// The value raised to the power `rhs`; zero and one are their own powers.
    pub fn pow(self, rhs: U<N>) -> (r: U<N>)
        requires
            small_width(N as nat),
            self@ >= 2 && rhs@ > 0 ==> vstd::arithmetic::power::pow(self@ as int, rhs@) < modulus(N as nat),
        ensures
            r@ == if self@ <= 1 {
                self@ as int
            } else if rhs@ == 0 {
                (1nat % modulus(N as nat)) as int
            } else {
                vstd::arithmetic::power::pow(self@ as int, rhs@)
            },
    {
        if self.is_zero() || self.is_one() {
            return self;
        }
        if rhs.is_zero() {
            return U::one();
        }
        let ghost s = self@;
        let ghost e = rhs@;
        proof {
            crate::ubig::lemma_pow_at_least_pow2(s, e);
            lemma_val_bound(self.0@);
            crate::limb::lemma_usize_width();
            assert(8 * N <= usize::MAX);
            if e > 8 * N {
                vstd::arithmetic::power2::lemma_pow2_strictly_increases(8 * N as nat, e);
            }
            assert(N as nat * 8 == 8 * N);
        }
        let count: usize = bytes_value_small(rhs.0.as_slice());
        let mut out = self;
        let mut i: usize = 1;
        proof {
            vstd::arithmetic::power::lemma_pow1(s as int);
        }
        while i < count
            invariant
                1 <= i <= count,
                count == e,
                s == self@,
                s >= 2,
                small_width(N as nat),
                out@ == vstd::arithmetic::power::pow(s as int, i as nat),
                vstd::arithmetic::power::pow(s as int, e) < modulus(N as nat),
            decreases count - i,
        {
            proof {
                vstd::arithmetic::power::lemma_pow_adds(s as int, i as nat, 1);
                vstd::arithmetic::power::lemma_pow1(s as int);
                vstd::arithmetic::power::lemma_pow_increases(s, (i + 1) as nat, e);
            }
            out = match out.checked_mul(self) {
                Some(v) => v,
                None => out,
            };
            i += 1;
        }
        out
    }
}

impl<const N: usize> U<N> {
    /// The value as a machine word, for values known to fit in one.
    pub(crate) fn small_count(self) -> (r: usize)
        requires
            self@ <= usize::MAX,
        ensures
            r == self@,
    {
        bytes_value_small(self.0.as_slice())
    }
}

/// The value of bytes that is known to fit in a `usize`.
fn bytes_value_small(b: &[u8]) -> (r: usize)
    requires
        seq_val(b@) <= usize::MAX,
    ensures
        r == seq_val(b@),
{
    if b.len() == 0 {
        return 0;
    }
    let s = crate::element::shrink_slice(b);
    proof {
        crate::limb::lemma_usize_width();
        vstd::arithmetic::power2::lemma2_to64();
        if s@.len() > 8 {
            crate::limbs::lemma_val_top_nonzero(s@);
            crate::limbs::lemma_weight_mono::<u8>(8, (s@.len() - 1) as nat);
        }
    }
    let v = bytes_value(s);
    v as usize
}

impl<const N: usize> core::ops::Add<U<N>> for U<N> {
    type Output = U<N>;

    fn add(self, rhs: U<N>) -> (r: U<N>)
        ensures
            r@ == self@ + rhs@,
    {
        match self.checked_add(rhs) {
            Some(v) => v,
            None => self,
        }
    }
}

impl<const N: usize> vstd::std_specs::ops::AddSpecImpl<U<N>> for U<N> {
    open spec fn obeys_add_spec() -> bool {
        false
    }

    open spec fn add_req(self, rhs: U<N>) -> bool {
        small_width(N as nat) && self@ + rhs@ < modulus(N as nat)
    }

    open spec fn add_spec(self, rhs: U<N>) -> U<N> {
        arbitrary()
    }
}

impl<const N: usize> core::ops::Sub<U<N>> for U<N> {
    type Output = U<N>;

    fn sub(self, rhs: U<N>) -> (r: U<N>)
        ensures
            r@ == self@ - rhs@,
    {
        match self.checked_sub(rhs) {
            Some(v) => v,
            None => self,
        }
    }
}

impl<const N: usize> vstd::std_specs::ops::SubSpecImpl<U<N>> for U<N> {
    open spec fn obeys_sub_spec() -> bool {
        false
    }

    open spec fn sub_req(self, rhs: U<N>) -> bool {
        rhs@ <= self@
    }

    open spec fn sub_spec(self, rhs: U<N>) -> U<N> {
        arbitrary()
    }
}

impl<const N: usize> core::ops::Mul<U<N>> for U<N> {
    type Output = U<N>;

    fn mul(self, rhs: U<N>) -> (r: U<N>)
        ensures
            r@ == self@ * rhs@,
    {
        match self.checked_mul(rhs) {
            Some(v) => v,
            None => self,
        }
    }
}

impl<const N: usize> vstd::std_specs::ops::MulSpecImpl<U<N>> for U<N> {
    open spec fn obeys_mul_spec() -> bool {
        false
    }

    open spec fn mul_req(self, rhs: U<N>) -> bool {
        small_width(N as nat) && self@ * rhs@ < modulus(N as nat)
    }

    open spec fn mul_spec(self, rhs: U<N>) -> U<N> {
        arbitrary()
    }
}

impl<const N: usize> core::ops::Div<U<N>> for U<N> {
    type Output = U<N>;

    fn div(self, rhs: U<N>) -> (r: U<N>)
        ensures
            r@ == self@ / rhs@,
    {
        self.div_exact_width(rhs).0
    }
}

impl<const N: usize> vstd::std_specs::ops::DivSpecImpl<U<N>> for U<N> {
    open spec fn obeys_div_spec() -> bool {
        false
    }

    open spec fn div_req(self, rhs: U<N>) -> bool {
        small_width(N as nat) && rhs@ != 0
    }

    open spec fn div_spec(self, rhs: U<N>) -> U<N> {
        arbitrary()
    }
}

impl<const N: usize> core::ops::Rem<U<N>> for U<N> {
    type Output = U<N>;

    fn rem(self, rhs: U<N>) -> (r: U<N>)
        ensures
            r@ == self@ % rhs@,
    {
        self.div_exact_width(rhs).1
    }
}

impl<const N: usize> vstd::std_specs::ops::RemSpecImpl<U<N>> for U<N> {
    open spec fn obeys_rem_spec() -> bool {
        false
    }

    open spec fn rem_req(self, rhs: U<N>) -> bool {
        small_width(N as nat) && rhs@ != 0
    }

    open spec fn rem_spec(self, rhs: U<N>) -> U<N> {
        arbitrary()
    }
}

impl<const N: usize> core::ops::Shl<usize> for U<N> {
    type Output = U<N>;

    fn shl(self, rhs: usize) -> (r: U<N>)
        ensures
            r@ == (self@ * pow2(rhs as nat)) % modulus(N as nat),
    {
        self.shift_left(rhs)
    }
}

impl<const N: usize> vstd::std_specs::ops::ShlSpecImpl<usize> for U<N> {
    open spec fn obeys_shl_spec() -> bool {
        false
    }

    open spec fn shl_req(self, rhs: usize) -> bool {
        small_width(N as nat) && rhs < 8 * N
    }

    open spec fn shl_spec(self, rhs: usize) -> U<N> {
        arbitrary()
    }
}

impl<const N: usize> core::ops::Shr<usize> for U<N> {
    type Output = U<N>;

    fn shr(self, rhs: usize) -> (r: U<N>)
        ensures
            r@ == self@ / pow2(rhs as nat),
    {
        self.shift_right(rhs)
    }
}

impl<const N: usize> vstd::std_specs::ops::ShrSpecImpl<usize> for U<N> {
    open spec fn obeys_shr_spec() -> bool {
        false
    }

    open spec fn shr_req(self, rhs: usize) -> bool {
        small_width(N as nat) && rhs < 8 * N
    }

    open spec fn shr_spec(self, rhs: usize) -> U<N> {
        arbitrary()
    }
}

impl<const N: usize> core::ops::Not for U<N> {
    type Output = U<N>;

    fn not(self) -> (r: U<N>)
        ensures
            forall|i: int| 0 <= i < N ==> r.0@[i] == !self.0@[i],
            r@ == modulus(N as nat) - 1 - self@,
    {
        let b = bytes_not(self.0);
        proof {
            crate::i::lemma_complement(self.0@, b@);
        }
        U(b)
    }
}

impl<const N: usize> vstd::std_specs::ops::NotSpecImpl for U<N> {
    open spec fn obeys_not_spec() -> bool {
        false
    }

    open spec fn not_req(self) -> bool {
        true
    }

    open spec fn not_spec(self) -> U<N> {
        arbitrary()
    }
}

impl<const N: usize> core::ops::BitAnd<U<N>> for U<N> {
    type Output = U<N>;

    fn bitand(self, rhs: U<N>) -> (r: U<N>)
        ensures
            forall|i: int| 0 <= i < N ==> r.0@[i] == self.0@[i] & rhs.0@[i],
    {
        U(bytes_and(self.0, rhs.0))
    }
}

impl<const N: usize> vstd::std_specs::ops::BitAndSpecImpl<U<N>> for U<N> {
    open spec fn obeys_bitand_spec() -> bool {
        false
    }

    open spec fn bitand_req(self, rhs: U<N>) -> bool {
        true
    }

    open spec fn bitand_spec(self, rhs: U<N>) -> U<N> {
        arbitrary()
    }
}

impl<const N: usize> core::ops::BitOr<U<N>> for U<N> {
    type Output = U<N>;

    fn bitor(self, rhs: U<N>) -> (r: U<N>)
        ensures
            forall|i: int| 0 <= i < N ==> r.0@[i] == self.0@[i] | rhs.0@[i],
    {
        U(bytes_or(self.0, rhs.0))
    }
}

impl<const N: usize> vstd::std_specs::ops::BitOrSpecImpl<U<N>> for U<N> {
    open spec fn obeys_bitor_spec() -> bool {
        false
    }

    open spec fn bitor_req(self, rhs: U<N>) -> bool {
        true
    }

    open spec fn bitor_spec(self, rhs: U<N>) -> U<N> {
        arbitrary()
    }
}

impl<const N: usize> core::ops::BitXor<U<N>> for U<N> {
    type Output = U<N>;

    fn bitxor(self, rhs: U<N>) -> (r: U<N>)
        ensures
            forall|i: int| 0 <= i < N ==> r.0@[i] == self.0@[i] ^ rhs.0@[i],
    {
        U(bytes_xor(self.0, rhs.0))
    }
}

impl<const N: usize> vstd::std_specs::ops::BitXorSpecImpl<U<N>> for U<N> {
    open spec fn obeys_bitxor_spec() -> bool {
        false
    }

    open spec fn bitxor_req(self, rhs: U<N>) -> bool {
        true
    }

    open spec fn bitxor_spec(self, rhs: U<N>) -> U<N> {
        arbitrary()
    }
}

impl<const N: usize> core::ops::Shl<U<N>> for U<N> {
    type Output = U<N>;

    fn shl(self, rhs: U<N>) -> (r: U<N>)
        ensures
            r@ == (self@ * pow2(rhs@)) % modulus(N as nat),
    {
        proof {
            crate::limb::lemma_usize_width();
        }
        let count: usize = bytes_value_small(rhs.0.as_slice());
        self.shift_left(count)
    }
}

impl<const N: usize> vstd::std_specs::ops::ShlSpecImpl<U<N>> for U<N> {
    open spec fn obeys_shl_spec() -> bool {
        false
    }

    open spec fn shl_req(self, rhs: U<N>) -> bool {
        small_width(N as nat) && rhs@ < 8 * N
    }

    open spec fn shl_spec(self, rhs: U<N>) -> U<N> {
        arbitrary()
    }
}

impl<const N: usize> core::ops::Shr<U<N>> for U<N> {
    type Output = U<N>;

    fn shr(self, rhs: U<N>) -> (r: U<N>)
        ensures
            r@ == self@ / pow2(rhs@),
    {
        proof {
            crate::limb::lemma_usize_width();
        }
        let count: usize = bytes_value_small(rhs.0.as_slice());
        self.shift_right(count)
    }
}

impl<const N: usize> vstd::std_specs::ops::ShrSpecImpl<U<N>> for U<N> {
    open spec fn obeys_shr_spec() -> bool {
        false
    }

    open spec fn shr_req(self, rhs: U<N>) -> bool {
        small_width(N as nat) && rhs@ < 8 * N
    }

    open spec fn shr_spec(self, rhs: U<N>) -> U<N> {
        arbitrary()
    }
}

impl<const N: usize> Default for U<N> {
    fn default() -> (r: Self)
        ensures
            r@ == 0,
    {
        U::new()
    }
}

impl<const N: usize> PartialEq for U<N> {
    fn eq(&self, other: &Self) -> (r: bool) {
        equal_values(self.0.as_slice(), other.0.as_slice())
    }
}

impl<const N: usize> vstd::std_specs::cmp::PartialEqSpecImpl for U<N> {
    open spec fn obeys_eq_spec() -> bool {
        true
    }

    open spec fn eq_spec(&self, other: &U<N>) -> bool {
        self@ == other@
    }
}

impl<const N: usize> Eq for U<N> {}

impl<const N: usize> PartialOrd for U<N> {
    fn partial_cmp(&self, other: &Self) -> (r: Option<Ordering>) {
        Some(cmp_values(self.0.as_slice(), other.0.as_slice()))
    }
}

impl<const N: usize> vstd::std_specs::cmp::PartialOrdSpecImpl for U<N> {
    open spec fn obeys_partial_cmp_spec() -> bool {
        true
    }

    open spec fn partial_cmp_spec(&self, other: &U<N>) -> Option<Ordering> {
        Some(ordering_of(self@, other@))
    }
}

impl U<1> {
    /// Lossless infallible conversion for `U<1> -> u8`
    pub fn as_u8(self) -> (r: u8)
        ensures
            r == self@,
    {
        proof {
            lemma_val_bound(self.0@);
            lemma_width_1();
        }
        bytes_value(self.0.as_slice()) as u8
    }

    /// Lossless infallible conversion for `u8 -> U<1>`
    pub fn from_u8(val: u8) -> (r: Self)
        ensures
            r@ == val,
    {
        proof {
            lemma_width_1();
            vstd::arithmetic::div_mod::lemma_small_mod(val as nat, modulus(1));
        }
        U::from_u128_wrapping(val as u128)
    }
}

/// The values of `1` bytes are those of a `u8`.
proof fn lemma_width_1()
    ensures
        modulus(1) == pow2(8),
        u8::MAX + 1 == pow2(8),
{
    vstd::arithmetic::power2::lemma2_to64();
    vstd::arithmetic::power2::lemma2_to64_rest();
    vstd::arithmetic::power2::lemma_pow2_adds(64, 64);
    assert(1 * 8 == 8);
}

impl U<2> {
    /// Lossless infallible conversion for `U<2> -> u16`
    pub fn as_u16(self) -> (r: u16)
        ensures
            r == self@,
    {
        proof {
            lemma_val_bound(self.0@);
            lemma_width_2();
        }
        bytes_value(self.0.as_slice()) as u16
    }

    /// Lossless infallible conversion for `u16 -> U<2>`
    pub fn from_u16(val: u16) -> (r: Self)
        ensures
            r@ == val,
    {
        proof {
            lemma_width_2();
            vstd::arithmetic::div_mod::lemma_small_mod(val as nat, modulus(2));
        }
        U::from_u128_wrapping(val as u128)
    }
}

/// The values of `2` bytes are those of a `u16`.
proof fn lemma_width_2()
    ensures
        modulus(2) == pow2(16),
        u16::MAX + 1 == pow2(16),
{
    vstd::arithmetic::power2::lemma2_to64();
    vstd::arithmetic::power2::lemma2_to64_rest();
    vstd::arithmetic::power2::lemma_pow2_adds(64, 64);
    assert(2 * 8 == 16);
}

impl U<4> {
    /// Lossless infallible conversion for `U<4> -> u32`
    pub fn as_u32(self) -> (r: u32)
        ensures
            r == self@,
    {
        proof {
            lemma_val_bound(self.0@);
            lemma_width_4();
        }
        bytes_value(self.0.as_slice()) as u32
    }

    /// Lossless infallible conversion for `u32 -> U<4>`
    pub fn from_u32(val: u32) -> (r: Self)
        ensures
            r@ == val,
    {
        proof {
            lemma_width_4();
            vstd::arithmetic::div_mod::lemma_small_mod(val as nat, modulus(4));
        }
        U::from_u128_wrapping(val as u128)
    }
}

/// The values of `4` bytes are those of a `u32`.
proof fn lemma_width_4()
    ensures
        modulus(4) == pow2(32),
        u32::MAX + 1 == pow2(32),
{
    vstd::arithmetic::power2::lemma2_to64();
    vstd::arithmetic::power2::lemma2_to64_rest();
    vstd::arithmetic::power2::lemma_pow2_adds(64, 64);
    assert(4 * 8 == 32);
}

impl U<8> {
    /// Lossless infallible conversion for `U<8> -> u64`
    pub fn as_u64(self) -> (r: u64)
        ensures
            r == self@,
    {
        proof {
            lemma_val_bound(self.0@);
            lemma_width_8();
        }
        bytes_value(self.0.as_slice()) as u64
    }

    /// Lossless infallible conversion for `u64 -> U<8>`
    pub fn from_u64(val: u64) -> (r: Self)
        ensures
            r@ == val,
    {
        proof {
            lemma_width_8();
            vstd::arithmetic::div_mod::lemma_small_mod(val as nat, modulus(8));
        }
        U::from_u128_wrapping(val as u128)
    }

    /// Lossless conversion for `U<8> -> usize`, where the value fits
    pub fn as_usize(self) -> (r: usize)
        requires
            self@ <= usize::MAX,
        ensures
            r == self@,
    {
        bytes_value_small(self.0.as_slice())
    }

    /// Lossless infallible conversion for `usize -> U<8>`
    pub fn from_usize(val: usize) -> (r: Self)
        ensures
            r@ == val,
    {
        proof {
            lemma_width_8();
            crate::limb::lemma_usize_width();
            vstd::arithmetic::div_mod::lemma_small_mod(val as nat, modulus(8));
        }
        U::from_u128_wrapping(val as u128)
    }
}

/// The values of `8` bytes are those of a `u64`.
proof fn lemma_width_8()
    ensures
        modulus(8) == pow2(64),
        u64::MAX + 1 == pow2(64),
{
    vstd::arithmetic::power2::lemma2_to64();
    vstd::arithmetic::power2::lemma2_to64_rest();
    vstd::arithmetic::power2::lemma_pow2_adds(64, 64);
    assert(8 * 8 == 64);
}

impl U<16> {
    /// Lossless infallible conversion for `U<16> -> u128`
    pub fn as_u128(self) -> (r: u128)
        ensures
            r == self@,
    {
        proof {
            lemma_val_bound(self.0@);
            lemma_width_16();
        }
        bytes_value(self.0.as_slice()) as u128
    }

    /// Lossless infallible conversion for `u128 -> U<16>`
    pub fn from_u128(val: u128) -> (r: Self)
        ensures
            r@ == val,
    {
        proof {
            lemma_width_16();
            vstd::arithmetic::div_mod::lemma_small_mod(val as nat, modulus(16));
        }
        U::from_u128_wrapping(val as u128)
    }
}

/// The values of `16` bytes are those of a `u128`.
proof fn lemma_width_16()
    ensures
        modulus(16) == pow2(128),
        u128::MAX + 1 == pow2(128),
{
    vstd::arithmetic::power2::lemma2_to64();
    vstd::arithmetic::power2::lemma2_to64_rest();
    vstd::arithmetic::power2::lemma_pow2_adds(64, 64);
    assert(16 * 8 == 128);
}

impl<const N: usize> crate::traits::Bounded for U<N> {
    fn min_value() -> (r: U<N>)
        ensures
            r@ == 0,
    {
        U::min_value()
    }

    fn max_value() -> (r: U<N>)
        ensures
            r@ == modulus(N as nat) - 1,
    {
        U::max_value()
    }
}

impl<const N: usize> crate::traits::Numeric for U<N> {

}

impl<const N: usize> crate::traits::Integral for U<N> {

}

impl<const N: usize> crate::traits::Unsigned for U<N> {

}

} // verus!
