//! Single machine-word integers ("limbs"): the building block of every multi-word algorithm.
use vstd::prelude::*;
use vstd::arithmetic::power2::*;
use vstd::bits::*;
use vstd::arithmetic::div_mod::*;

verus! {

/// Is bit `i` of `n` set?
pub open spec fn nat_bit(n: nat, i: nat) -> bool {
    (n / pow2(i)) % 2 == 1
}


/// The value `v` with bit `idx` forced to `val`.
pub open spec fn with_nat_bit(v: nat, idx: nat, val: bool) -> nat {
    if nat_bit(v, idx) == val {
        v
    } else if val {
        v + pow2(idx)
    } else {
        (v - pow2(idx)) as nat
    }
}

/// `(d * x + b) / d == x + b / d` for nonnegative `b`.
pub proof fn lemma_div_shift(x: int, b: int, d: int)
    requires
        d > 0,
        b >= 0,
    ensures
        (d * x + b) / d == x + b / d,
        (d * x + b) % d == b % d,
{
    lemma_fundamental_div_mod(b, d);
    lemma_mod_bound(b, d);
    assert(d * x + b == d * (x + b / d) + b % d) by (nonlinear_arith)
        requires
            b == d * (b / d) + b % d,
    ;
    lemma_div_multiples_vanish_fancy(x + b / d, b % d, d);
    lemma_mod_multiples_vanish(x + b / d, b % d, d);
    lemma_mod_twice(b, d);
    lemma_small_mod((b % d) as nat, d as nat);
}

/// Forcing bit `idx` changes that bit and no other.
pub proof fn lemma_with_nat_bit(v: nat, idx: nat, val: bool, j: nat)
    ensures
        nat_bit(with_nat_bit(v, idx, val), j) == if j == idx {
            val
        } else {
            nat_bit(v, j)
        },
{
    let p = pow2(idx);
    lemma_pow2_pos(idx);
    lemma_pow2_unfold(idx + 1);
    let q = v / p;
    let lo = v % p;
    let hi = q / 2;
    let b = q % 2;
    lemma_fundamental_div_mod(v as int, p as int);
    lemma_fundamental_div_mod(q as int, 2);
    lemma_mod_bound(v as int, p as int);
    let bn: int = if val { 1 } else { 0 };
    let w = with_nat_bit(v, idx, val);
    assert(v == hi * (2 * p) + b * p + lo) by (nonlinear_arith)
        requires
            v == p * q + lo,
            q == 2 * hi + b,
    ;
    let bw: int = if nat_bit(v, idx) == val { b as int } else { bn };
    assert(nat_bit(v, idx) == (b == 1));
    if nat_bit(v, idx) == val {
        assert(w == hi * (2 * p) + bw * p + lo);
    } else if val {
        assert(b == 0 && bw == 1);
        assert(w == hi * (2 * p) + bw * p + lo) by (nonlinear_arith)
            requires
                w == v + p,
                v == hi * (2 * p) + b * p + lo,
                b == 0,
                bw == 1,
        ;
    } else {
        assert(b == 1 && bw == 0);
        assert(w == hi * (2 * p) + bw * p + lo) by (nonlinear_arith)
            requires
                w == v - p,
                v == hi * (2 * p) + b * p + lo,
                b == 1,
                bw == 0,
        ;
    }
    assert(0 <= bw <= 1);
    lemma_same_outside(w, bw, v, b as int, hi, lo, idx);
    lemma_same_outside(v, b as int, v, b as int, hi, lo, idx);
}

/// Two values that share the bits above and below bit `idx` differ at most in that bit.
proof fn lemma_same_outside(u: nat, c: int, v: nat, b: int, hi: nat, lo: nat, idx: nat)
    requires
        0 <= c <= 1,
        0 <= b <= 1,
        lo < pow2(idx),
        u == hi * (2 * pow2(idx)) + c * pow2(idx) + lo,
        v == hi * (2 * pow2(idx)) + b * pow2(idx) + lo,
    ensures
        nat_bit(u, idx) == (c == 1),
        forall|jj: nat| jj != idx ==> #[trigger] nat_bit(u, jj) == nat_bit(v, jj),
{
    let p = pow2(idx);
    lemma_pow2_pos(idx);
    lemma_pow2_unfold(idx + 1);
    assert(u == p * (2 * hi + c) + lo) by (nonlinear_arith)
        requires
            u == hi * (2 * p) + c * p + lo,
    ;
    assert(v == p * (2 * hi + b) + lo) by (nonlinear_arith)
        requires
            v == hi * (2 * p) + b * p + lo,
    ;
    lemma_div_multiples_vanish_fancy((2 * hi + c) as int, lo as int, p as int);
    lemma_mod_multiples_vanish(hi as int, c, 2);
    assert forall|jj: nat| jj != idx implies #[trigger] nat_bit(u, jj) == nat_bit(v, jj) by {
        lemma_pow2_pos(jj);
        if jj < idx {
            let d = pow2(jj);
            let e = pow2((idx - jj) as nat);
            lemma_pow2_adds(jj, (idx - jj) as nat);
            lemma_pow2_unfold((idx - jj) as nat);
            let ee = pow2((idx - jj - 1) as nat);
            assert(u == d * ((2 * hi + c) * e) + lo) by (nonlinear_arith)
                requires
                    u == p * (2 * hi + c) + lo,
                    p == d * e,
            ;
            assert(v == d * ((2 * hi + b) * e) + lo) by (nonlinear_arith)
                requires
                    v == p * (2 * hi + b) + lo,
                    p == d * e,
            ;
            lemma_div_shift(((2 * hi + c) * e) as int, lo as int, d as int);
            lemma_div_shift(((2 * hi + b) * e) as int, lo as int, d as int);
            assert((2 * hi + c) * e + lo / d == 2 * ((2 * hi + c) * ee) + lo / d) by (
            nonlinear_arith)
                requires
                    e == 2 * ee,
            ;
            assert((2 * hi + b) * e + lo / d == 2 * ((2 * hi + b) * ee) + lo / d) by (
            nonlinear_arith)
                requires
                    e == 2 * ee,
            ;
            lemma_div_pos_is_pos(lo as int, d as int);
            lemma_mod_multiples_vanish(((2 * hi + c) * ee) as int, (lo / d) as int, 2);
            lemma_mod_multiples_vanish(((2 * hi + b) * ee) as int, (lo / d) as int, 2);
        } else {
            let d = pow2(idx + 1);
            let e = pow2((jj - idx - 1) as nat);
            lemma_pow2_adds(idx + 1, (jj - idx - 1) as nat);
            lemma_pow2_pos((jj - idx - 1) as nat);
            assert(c * p + lo < d && b * p + lo < d) by (nonlinear_arith)
                requires
                    0 <= c <= 1,
                    0 <= b <= 1,
                    lo < p,
                    d == 2 * p,
            ;
            assert(u == d * hi + (c * p + lo)) by (nonlinear_arith)
                requires
                    u == hi * (2 * p) + c * p + lo,
                    d == 2 * p,
            ;
            assert(v == d * hi + (b * p + lo)) by (nonlinear_arith)
                requires
                    v == hi * (2 * p) + b * p + lo,
                    d == 2 * p,
            ;
            lemma_div_multiples_vanish_fancy(hi as int, c * p + lo, d as int);
            lemma_div_multiples_vanish_fancy(hi as int, (b * p + lo) as int, d as int);
            lemma_div_denominator(u as int, d as int, e as int);
            lemma_div_denominator(v as int, d as int, e as int);
        }
    }
}


/// Splitting off bit `i`: `v / 2^i == 2 * (v / 2^(i+1)) + bit_i` and
/// `v % 2^(i+1) == v % 2^i + bit_i * 2^i`.
pub proof fn lemma_nat_bit_split(v: nat, i: nat)
    ensures
        v / pow2(i) == 2 * (v / pow2(i + 1)) + (if nat_bit(v, i) { 1int } else { 0 }),
        v % pow2(i + 1) == v % pow2(i) + (if nat_bit(v, i) { pow2(i) as int } else { 0 }),
{
    let p = pow2(i);
    lemma_pow2_pos(i);
    lemma_pow2_unfold(i + 1);
    lemma_div_denominator(v as int, p as int, 2);
    let q = v / p;
    lemma_fundamental_div_mod(q as int, 2);
    lemma_fundamental_div_mod(v as int, p as int);
    lemma_fundamental_div_mod(v as int, (2 * p) as int);
    let b: int = if nat_bit(v, i) { 1 } else { 0 };
    assert(q % 2 == b);
    lemma_mod_bound(v as int, p as int);
    let h = q / 2;
    let r = v % p;
    assert(v == (2 * p) * h + (b * p + r)) by (nonlinear_arith)
        requires
            v == p * q + r,
            q == 2 * h + b,
    ;
    assert(0 <= b * p + r < 2 * p) by (nonlinear_arith)
        requires
            0 <= b <= 1,
            0 <= r < p,
    ;
    lemma_fundamental_div_mod_converse(v as int, (2 * p) as int, h as int, b * p + r);
    assert(b * p == (if b == 1 { p as int } else { 0 })) by (nonlinear_arith)
        requires
            0 <= b <= 1,
    ;
}

/// A value below `2^i` has no bit at `i` or above.
pub proof fn lemma_nat_bit_above(v: nat, i: nat, j: nat)
    requires
        v < pow2(i),
        i <= j,
    ensures
        !nat_bit(v, j),
        v / pow2(j) == 0,
{
    if i < j {
        lemma_pow2_strictly_increases(i, j);
    }
    lemma_basic_div(v as int, pow2(j) as int);
}

/// A multiple of `2^(i+1)` has bit `i` clear.
pub proof fn lemma_nat_bit_of_multiple(k: nat, i: nat)
    ensures
        !nat_bit(k * pow2(i + 1), i),
{
    lemma_pow2_pos(i);
    lemma_pow2_unfold(i + 1);
    let p = pow2(i);
    assert(k * pow2(i + 1) == p * (2 * k)) by (nonlinear_arith)
        requires
            pow2(i + 1) == 2 * p,
    ;
    lemma_div_multiples_vanish((2 * k) as int, p as int);
    lemma_mod_multiples_basic(k as int, 2);
}

/// An unsigned machine integer usable as one element of a bit slice.
pub trait BitLike: Copy + Sized {
    /// Number of bits in one value.
    spec fn width() -> nat;

    /// The value as a natural number.
    spec fn to_nat(self) -> nat;

    proof fn lemma_limb(x: Self)
        ensures
            8 <= Self::width() <= 64,
            x.to_nat() < pow2(Self::width()),
    ;

    proof fn lemma_width()
        ensures
            8 <= Self::width() <= 64,
    ;

    /// The limb whose value is zero.
    spec fn spec_zero() -> Self;

    proof fn lemma_spec_zero()
        ensures
            Self::spec_zero().to_nat() == 0,
    ;

    proof fn lemma_limb_injective(x: Self, y: Self)
        requires
            x.to_nat() == y.to_nat(),
        ensures
            x == y,
    ;

    /// The value zero.
    fn zero() -> (r: Self)
        ensures
            r.to_nat() == 0,
    ;

    /// The value one.
    fn one() -> (r: Self)
        ensures
            r.to_nat() == 1,
    ;

    /// The largest value, all bits set.
    fn max_limb() -> (r: Self)
        ensures
            r.to_nat() == pow2(Self::width()) - 1,
    ;

    /// The number of bits in one value.
    fn bit_len() -> (r: usize)
        ensures
            r == Self::width(),
    ;

    /// Convert a small integer to a limb.
    fn from_u8(v: u8) -> (r: Self)
        ensures
            r.to_nat() == v,
    ;

    /// The value, widened to a `u128`.
    fn to_u128(self) -> (r: u128)
        ensures
            r == self.to_nat(),
    ;

    /// A limb holding a `u128` small enough for it.
    fn from_u128(v: u128) -> (r: Self)
        requires
            v < pow2(Self::width()),
        ensures
            r.to_nat() == v,
    ;

    fn limb_eq(self, other: Self) -> (r: bool)
        ensures
            r == (self.to_nat() == other.to_nat()),
    ;

    fn limb_lt(self, other: Self) -> (r: bool)
        ensures
            r == (self.to_nat() < other.to_nat()),
    ;

    /// Addition returning the wrapped sum and whether it overflowed.
    fn overflowing_add(self, other: Self) -> (r: (Self, bool))
        ensures
            r.0.to_nat() + (if r.1 { pow2(Self::width()) } else { 0 }) == self.to_nat()
                + other.to_nat(),
    ;

    /// Subtraction returning the wrapped difference and whether it borrowed.
    fn overflowing_sub(self, other: Self) -> (r: (Self, bool))
        ensures
            r.1 == (self.to_nat() < other.to_nat()),
            r.0.to_nat() == self.to_nat() - other.to_nat() + (if r.1 {
                pow2(Self::width())
            } else {
                0
            }),
    ;

    /// `(lhs * rhs) + add`, returned as the low and high halves of the double-width result.
    fn widening_mul(lhs: Self, rhs: Self, add: Self) -> (r: (Self, Self))
        ensures
            r.0.to_nat() + r.1.to_nat() * pow2(Self::width()) == lhs.to_nat() * rhs.to_nat()
                + add.to_nat(),
    ;

    /// Value of bit `i`.
    fn get_bit(self, i: usize) -> (r: bool)
        requires
            i < Self::width(),
        ensures
            r == nat_bit(self.to_nat(), i as nat),
    ;

    /// Copy of `self` with bit `i` set to `val`.
    fn with_bit(self, i: usize, val: bool) -> (r: Self)
        requires
            i < Self::width(),
        ensures
            r.to_nat() == if nat_bit(self.to_nat(), i as nat) == val {
                self.to_nat() as int
            } else if val {
                self.to_nat() + pow2(i as nat) as int
            } else {
                self.to_nat() - pow2(i as nat)
            },
    ;
}


/// The machine word has 32 or 64 bits and its values are exactly those below `2^BITS`.
pub proof fn lemma_usize_width()
    ensures
        usize::BITS == 32 || usize::BITS == 64,
        usize::MAX + 1 == pow2(usize::BITS as nat),
        pow2(usize::BITS as nat) <= pow2(64),
{
    lemma2_to64();
    lemma2_to64_rest();
    if usize::BITS == 32 {
        assert(usize::MAX == 0xffff_ffff);
    } else {
        assert(usize::MAX == 0xffff_ffff_ffff_ffff);
    }
}

impl BitLike for u8 {
    open spec fn width() -> nat {
        8
    }

    open spec fn to_nat(self) -> nat {
        self as nat
    }

    proof fn lemma_limb(x: Self) {
        lemma2_to64();
    }

    proof fn lemma_width() {
        lemma2_to64();
    }

    open spec fn spec_zero() -> Self {
        0
    }

    proof fn lemma_spec_zero() {
    }

    proof fn lemma_limb_injective(x: Self, y: Self) {
    }

    fn zero() -> (r: Self) {
        0
    }

    fn one() -> (r: Self) {
        1
    }

    fn max_limb() -> (r: Self) {
        proof {
            lemma2_to64();
        }
        u8::MAX
    }

    fn bit_len() -> (r: usize) {
        u8::BITS as usize
    }

    fn from_u8(v: u8) -> (r: Self) {
        v as u8
    }

    fn to_u128(self) -> (r: u128) {
        self as u128
    }

    fn from_u128(v: u128) -> (r: Self) {
        proof {
            lemma2_to64();
            lemma_usize_width();
        }
        v as u8
    }

    fn limb_eq(self, other: Self) -> (r: bool) {
        self == other
    }

    fn limb_lt(self, other: Self) -> (r: bool) {
        self < other
    }

    fn overflowing_add(self, other: Self) -> (r: (Self, bool)) {
        proof {
            lemma2_to64();
        }
        if self > u8::MAX - other {
            (self - (u8::MAX - other) - 1, true)
        } else {
            (self + other, false)
        }
    }

    fn overflowing_sub(self, other: Self) -> (r: (Self, bool)) {
        proof {
            lemma2_to64();
        }
        if self < other {
            (u8::MAX - (other - self) + 1, true)
        } else {
            (self - other, false)
        }
    }

    fn widening_mul(lhs: Self, rhs: Self, add: Self) -> (r: (Self, Self)) {
        proof {
            lemma2_to64();
        }
        let base: u16 = u8::MAX as u16 + 1;
        assert(lhs as u16 * rhs as u16 <= u8::MAX as u16 * u8::MAX as u16)
            by (nonlinear_arith)
            requires
                lhs <= u8::MAX,
                rhs <= u8::MAX,
        ;
        assert((u8::MAX as u16) * (u8::MAX as u16) + (u8::MAX as u16) < base * base)
            by (nonlinear_arith)
            requires
                base == u8::MAX as u16 + 1,
        ;
        let wide: u16 = lhs as u16 * rhs as u16 + add as u16;
        let hi = wide / base;
        assert(hi < base) by (nonlinear_arith)
            requires
                hi == wide / base,
                wide < base * base,
                base > 0,
        ;
        ((wide % base) as u8, hi as u8)
    }

    fn get_bit(self, i: usize) -> (r: bool) {
        let s: u8 = i as u8;
        let shifted: u8 = self >> s;
        proof {
            lemma_u8_shr_is_div(self, s);
        }
        shifted % 2 == 1
    }

    fn with_bit(self, i: usize, val: bool) -> (r: Self) {
        let s: u8 = i as u8;
        let cur = self.get_bit(i);
        let mask: u8 = 1u8 << s;
        proof {
            lemma2_to64();
            lemma_u8_pow2_no_overflow(s as nat);
            lemma_u8_shl_is_mul(1u8, s);
            lemma_u8_shr_is_div(self, s);
            assert((self >> s) % 2 == 0 ==> self + (1u8 << s) == (self | (1u8 << s))) by (bit_vector)
                requires s < u8::BITS;
            assert((self >> s) % 2 == 1 ==> self - (1u8 << s) == (self & !(1u8 << s))
                && self >= (1u8 << s)) by (bit_vector)
                requires s < u8::BITS;
        }
        if cur == val {
            self
        } else if val {
            self | mask
        } else {
            self & !mask
        }
    }
}

impl BitLike for u16 {
    open spec fn width() -> nat {
        16
    }

    open spec fn to_nat(self) -> nat {
        self as nat
    }

    proof fn lemma_limb(x: Self) {
        lemma2_to64();
    }

    proof fn lemma_width() {
        lemma2_to64();
    }

    open spec fn spec_zero() -> Self {
        0
    }

    proof fn lemma_spec_zero() {
    }

    proof fn lemma_limb_injective(x: Self, y: Self) {
    }

    fn zero() -> (r: Self) {
        0
    }

    fn one() -> (r: Self) {
        1
    }

    fn max_limb() -> (r: Self) {
        proof {
            lemma2_to64();
        }
        u16::MAX
    }

    fn bit_len() -> (r: usize) {
        u16::BITS as usize
    }

    fn from_u8(v: u8) -> (r: Self) {
        v as u16
    }

    fn to_u128(self) -> (r: u128) {
        self as u128
    }

    fn from_u128(v: u128) -> (r: Self) {
        proof {
            lemma2_to64();
            lemma_usize_width();
        }
        v as u16
    }

    fn limb_eq(self, other: Self) -> (r: bool) {
        self == other
    }

    fn limb_lt(self, other: Self) -> (r: bool) {
        self < other
    }

    fn overflowing_add(self, other: Self) -> (r: (Self, bool)) {
        proof {
            lemma2_to64();
        }
        if self > u16::MAX - other {
            (self - (u16::MAX - other) - 1, true)
        } else {
            (self + other, false)
        }
    }

    fn overflowing_sub(self, other: Self) -> (r: (Self, bool)) {
        proof {
            lemma2_to64();
        }
        if self < other {
            (u16::MAX - (other - self) + 1, true)
        } else {
            (self - other, false)
        }
    }

    fn widening_mul(lhs: Self, rhs: Self, add: Self) -> (r: (Self, Self)) {
        proof {
            lemma2_to64();
        }
        let base: u32 = u16::MAX as u32 + 1;
        assert(lhs as u32 * rhs as u32 <= u16::MAX as u32 * u16::MAX as u32)
            by (nonlinear_arith)
            requires
                lhs <= u16::MAX,
                rhs <= u16::MAX,
        ;
        assert((u16::MAX as u32) * (u16::MAX as u32) + (u16::MAX as u32) < base * base)
            by (nonlinear_arith)
            requires
                base == u16::MAX as u32 + 1,
        ;
        let wide: u32 = lhs as u32 * rhs as u32 + add as u32;
        let hi = wide / base;
        assert(hi < base) by (nonlinear_arith)
            requires
                hi == wide / base,
                wide < base * base,
                base > 0,
        ;
        ((wide % base) as u16, hi as u16)
    }

    fn get_bit(self, i: usize) -> (r: bool) {
        let s: u16 = i as u16;
        let shifted: u16 = self >> s;
        proof {
            lemma_u16_shr_is_div(self, s);
        }
        shifted % 2 == 1
    }

    fn with_bit(self, i: usize, val: bool) -> (r: Self) {
        let s: u16 = i as u16;
        let cur = self.get_bit(i);
        let mask: u16 = 1u16 << s;
        proof {
            lemma2_to64();
            lemma_u16_pow2_no_overflow(s as nat);
            lemma_u16_shl_is_mul(1u16, s);
            lemma_u16_shr_is_div(self, s);
            assert((self >> s) % 2 == 0 ==> self + (1u16 << s) == (self | (1u16 << s))) by (bit_vector)
                requires s < u16::BITS;
            assert((self >> s) % 2 == 1 ==> self - (1u16 << s) == (self & !(1u16 << s))
                && self >= (1u16 << s)) by (bit_vector)
                requires s < u16::BITS;
        }
        if cur == val {
            self
        } else if val {
            self | mask
        } else {
            self & !mask
        }
    }
}

impl BitLike for u32 {
    open spec fn width() -> nat {
        32
    }

    open spec fn to_nat(self) -> nat {
        self as nat
    }

    proof fn lemma_limb(x: Self) {
        lemma2_to64();
    }

    proof fn lemma_width() {
        lemma2_to64();
    }

    open spec fn spec_zero() -> Self {
        0
    }

    proof fn lemma_spec_zero() {
    }

    proof fn lemma_limb_injective(x: Self, y: Self) {
    }

    fn zero() -> (r: Self) {
        0
    }

    fn one() -> (r: Self) {
        1
    }

    fn max_limb() -> (r: Self) {
        proof {
            lemma2_to64();
        }
        u32::MAX
    }

    fn bit_len() -> (r: usize) {
        u32::BITS as usize
    }

    fn from_u8(v: u8) -> (r: Self) {
        v as u32
    }

    fn to_u128(self) -> (r: u128) {
        self as u128
    }

    fn from_u128(v: u128) -> (r: Self) {
        proof {
            lemma2_to64();
            lemma_usize_width();
        }
        v as u32
    }

    fn limb_eq(self, other: Self) -> (r: bool) {
        self == other
    }

    fn limb_lt(self, other: Self) -> (r: bool) {
        self < other
    }

    fn overflowing_add(self, other: Self) -> (r: (Self, bool)) {
        proof {
            lemma2_to64();
        }
        if self > u32::MAX - other {
            (self - (u32::MAX - other) - 1, true)
        } else {
            (self + other, false)
        }
    }

    fn overflowing_sub(self, other: Self) -> (r: (Self, bool)) {
        proof {
            lemma2_to64();
        }
        if self < other {
            (u32::MAX - (other - self) + 1, true)
        } else {
            (self - other, false)
        }
    }

    fn widening_mul(lhs: Self, rhs: Self, add: Self) -> (r: (Self, Self)) {
        proof {
            lemma2_to64();
        }
        let base: u64 = u32::MAX as u64 + 1;
        assert(lhs as u64 * rhs as u64 <= u32::MAX as u64 * u32::MAX as u64)
            by (nonlinear_arith)
            requires
                lhs <= u32::MAX,
                rhs <= u32::MAX,
        ;
        assert((u32::MAX as u64) * (u32::MAX as u64) + (u32::MAX as u64) < base * base)
            by (nonlinear_arith)
            requires
                base == u32::MAX as u64 + 1,
        ;
        let wide: u64 = lhs as u64 * rhs as u64 + add as u64;
        let hi = wide / base;
        assert(hi < base) by (nonlinear_arith)
            requires
                hi == wide / base,
                wide < base * base,
                base > 0,
        ;
        ((wide % base) as u32, hi as u32)
    }

    fn get_bit(self, i: usize) -> (r: bool) {
        let s: u32 = i as u32;
        let shifted: u32 = self >> s;
        proof {
            lemma_u32_shr_is_div(self, s);
        }
        shifted % 2 == 1
    }

    fn with_bit(self, i: usize, val: bool) -> (r: Self) {
        let s: u32 = i as u32;
        let cur = self.get_bit(i);
        let mask: u32 = 1u32 << s;
        proof {
            lemma2_to64();
            lemma_u32_pow2_no_overflow(s as nat);
            lemma_u32_shl_is_mul(1u32, s);
            lemma_u32_shr_is_div(self, s);
            assert((self >> s) % 2 == 0 ==> self + (1u32 << s) == (self | (1u32 << s))) by (bit_vector)
                requires s < u32::BITS;
            assert((self >> s) % 2 == 1 ==> self - (1u32 << s) == (self & !(1u32 << s))
                && self >= (1u32 << s)) by (bit_vector)
                requires s < u32::BITS;
        }
        if cur == val {
            self
        } else if val {
            self | mask
        } else {
            self & !mask
        }
    }
}

impl BitLike for u64 {
    open spec fn width() -> nat {
        64
    }

    open spec fn to_nat(self) -> nat {
        self as nat
    }

    proof fn lemma_limb(x: Self) {
        lemma2_to64(); lemma2_to64_rest();
    }

    proof fn lemma_width() {
        lemma2_to64(); lemma2_to64_rest();
    }

    open spec fn spec_zero() -> Self {
        0
    }

    proof fn lemma_spec_zero() {
    }

    proof fn lemma_limb_injective(x: Self, y: Self) {
    }

    fn zero() -> (r: Self) {
        0
    }

    fn one() -> (r: Self) {
        1
    }

    fn max_limb() -> (r: Self) {
        proof {
            lemma2_to64(); lemma2_to64_rest();
        }
        u64::MAX
    }

    fn bit_len() -> (r: usize) {
        u64::BITS as usize
    }

    fn from_u8(v: u8) -> (r: Self) {
        v as u64
    }

    fn to_u128(self) -> (r: u128) {
        self as u128
    }

    fn from_u128(v: u128) -> (r: Self) {
        proof {
            lemma2_to64();
            lemma_usize_width();
        }
        v as u64
    }

    fn limb_eq(self, other: Self) -> (r: bool) {
        self == other
    }

    fn limb_lt(self, other: Self) -> (r: bool) {
        self < other
    }

    fn overflowing_add(self, other: Self) -> (r: (Self, bool)) {
        proof {
            lemma2_to64(); lemma2_to64_rest();
        }
        if self > u64::MAX - other {
            (self - (u64::MAX - other) - 1, true)
        } else {
            (self + other, false)
        }
    }

    fn overflowing_sub(self, other: Self) -> (r: (Self, bool)) {
        proof {
            lemma2_to64(); lemma2_to64_rest();
        }
        if self < other {
            (u64::MAX - (other - self) + 1, true)
        } else {
            (self - other, false)
        }
    }

    fn widening_mul(lhs: Self, rhs: Self, add: Self) -> (r: (Self, Self)) {
        proof {
            lemma2_to64(); lemma2_to64_rest();
        }
        let base: u128 = u64::MAX as u128 + 1;
        assert(lhs as u128 * rhs as u128 <= u64::MAX as u128 * u64::MAX as u128)
            by (nonlinear_arith)
            requires
                lhs <= u64::MAX,
                rhs <= u64::MAX,
        ;
        assert((u64::MAX as u128) * (u64::MAX as u128) + (u64::MAX as u128) < base * base)
            by (nonlinear_arith)
            requires
                base == u64::MAX as u128 + 1,
        ;
        let wide: u128 = lhs as u128 * rhs as u128 + add as u128;
        let hi = wide / base;
        assert(hi < base) by (nonlinear_arith)
            requires
                hi == wide / base,
                wide < base * base,
                base > 0,
        ;
        ((wide % base) as u64, hi as u64)
    }

    fn get_bit(self, i: usize) -> (r: bool) {
        let s: u64 = i as u64;
        let shifted: u64 = self >> s;
        proof {
            lemma_u64_shr_is_div(self, s);
        }
        shifted % 2 == 1
    }

    fn with_bit(self, i: usize, val: bool) -> (r: Self) {
        let s: u64 = i as u64;
        let cur = self.get_bit(i);
        let mask: u64 = 1u64 << s;
        proof {
            lemma2_to64(); lemma2_to64_rest();
            lemma_u64_pow2_no_overflow(s as nat);
            lemma_u64_shl_is_mul(1u64, s);
            lemma_u64_shr_is_div(self, s);
            assert((self >> s) % 2 == 0 ==> self + (1u64 << s) == (self | (1u64 << s))) by (bit_vector)
                requires s < u64::BITS;
            assert((self >> s) % 2 == 1 ==> self - (1u64 << s) == (self & !(1u64 << s))
                && self >= (1u64 << s)) by (bit_vector)
                requires s < u64::BITS;
        }
        if cur == val {
            self
        } else if val {
            self | mask
        } else {
            self & !mask
        }
    }
}

impl BitLike for usize {
    open spec fn width() -> nat {
        usize::BITS as nat
    }

    open spec fn to_nat(self) -> nat {
        self as nat
    }

    proof fn lemma_limb(x: Self) {
        lemma_usize_width();
    }

    proof fn lemma_width() {
        lemma_usize_width();
    }

    open spec fn spec_zero() -> Self {
        0
    }

    proof fn lemma_spec_zero() {
    }

    proof fn lemma_limb_injective(x: Self, y: Self) {
    }

    fn zero() -> (r: Self) {
        0
    }

    fn one() -> (r: Self) {
        1
    }

    fn max_limb() -> (r: Self) {
        proof {
            lemma_usize_width();
        }
        usize::MAX
    }

    fn bit_len() -> (r: usize) {
        usize::BITS as usize
    }

    fn from_u8(v: u8) -> (r: Self) {
        v as usize
    }

    fn to_u128(self) -> (r: u128) {
        self as u128
    }

    fn from_u128(v: u128) -> (r: Self) {
        proof {
            lemma2_to64();
            lemma_usize_width();
        }
        v as usize
    }

    fn limb_eq(self, other: Self) -> (r: bool) {
        self == other
    }

    fn limb_lt(self, other: Self) -> (r: bool) {
        self < other
    }

    fn overflowing_add(self, other: Self) -> (r: (Self, bool)) {
        proof {
            lemma_usize_width();
        }
        if self > usize::MAX - other {
            (self - (usize::MAX - other) - 1, true)
        } else {
            (self + other, false)
        }
    }

    fn overflowing_sub(self, other: Self) -> (r: (Self, bool)) {
        proof {
            lemma_usize_width();
        }
        if self < other {
            (usize::MAX - (other - self) + 1, true)
        } else {
            (self - other, false)
        }
    }

    fn widening_mul(lhs: Self, rhs: Self, add: Self) -> (r: (Self, Self)) {
        proof {
            lemma_usize_width();
        }
        let base: u128 = usize::MAX as u128 + 1;
        assert(lhs as u128 * rhs as u128 <= usize::MAX as u128 * usize::MAX as u128)
            by (nonlinear_arith)
            requires
                lhs <= usize::MAX,
                rhs <= usize::MAX,
        ;
        assert((usize::MAX as u128) * (usize::MAX as u128) + (usize::MAX as u128) < base * base)
            by (nonlinear_arith)
            requires
                base == usize::MAX as u128 + 1,
        ;
        let wide: u128 = lhs as u128 * rhs as u128 + add as u128;
        let hi = wide / base;
        assert(hi < base) by (nonlinear_arith)
            requires
                hi == wide / base,
                wide < base * base,
                base > 0,
        ;
        ((wide % base) as usize, hi as usize)
    }

    fn get_bit(self, i: usize) -> (r: bool) {
        let s: usize = i as usize;
        let shifted: usize = self >> s;
        proof {
            lemma_usize_shr_is_div(self, s);
        }
        shifted % 2 == 1
    }

    fn with_bit(self, i: usize, val: bool) -> (r: Self) {
        let s: usize = i as usize;
        let cur = self.get_bit(i);
        let mask: usize = 1usize << s;
        proof {
            lemma_usize_width();
            lemma_usize_pow2_no_overflow(s as nat);
            lemma_usize_shl_is_mul(1usize, s);
            lemma_usize_shr_is_div(self, s);
            assert((self >> s) % 2 == 0 ==> self + (1usize << s) == (self | (1usize << s))) by (bit_vector)
                requires s < usize::BITS;
            assert((self >> s) % 2 == 1 ==> self - (1usize << s) == (self & !(1usize << s))
                && self >= (1usize << s)) by (bit_vector)
                requires s < usize::BITS;
        }
        if cur == val {
            self
        } else if val {
            self | mask
        } else {
            self & !mask
        }
    }
}

} // verus!
