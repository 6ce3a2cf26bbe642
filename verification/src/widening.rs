//! Widening multiply-add of machine words: the full double-width result as two words.
use vstd::prelude::*;
use vstd::arithmetic::mul::{lemma_mul_is_distributive_add, lemma_mul_is_distributive_add_other_way,
    lemma_mul_is_associative, lemma_mul_is_commutative};

verus! {

/// Trait for types that implement 'widening' multiplication
pub trait WideningMul: Sized {
    /// Extended multiply-addition of `(lhs * rhs) + add`. The result is returned as a tuple of the
    /// wrapping part and the overflow part. No numerical overflow is possible even if all three
    /// arguments are set to their max values.
    fn widening_mul(lhs: Self, rhs: Self, add: Self) -> (Self, Self);
}

/// `(x * y + a)` for words below `m` is below `m * m`, so its high word is below `m`.
proof fn lemma_wide_bound(x: int, y: int, a: int, m: int)
    requires
        0 <= x < m,
        0 <= y < m,
        0 <= a < m,
    ensures
        0 <= x * y + a < m * m,
        (x * y + a) / m < m,
        0 <= (x * y + a) / m,
        (x * y + a) % m + ((x * y + a) / m) * m == x * y + a,
{
    assert(0 <= x * y <= (m - 1) * (m - 1)) by (nonlinear_arith)
        requires
            0 <= x < m,
            0 <= y < m,
    ;
    assert((m - 1) * (m - 1) + m - 1 < m * m) by (nonlinear_arith)
        requires
            m > 0,
    ;
    vstd::arithmetic::div_mod::lemma_fundamental_div_mod(x * y + a, m);
    vstd::arithmetic::mul::lemma_mul_is_commutative(m, (x * y + a) / m);
    vstd::arithmetic::div_mod::lemma_div_pos_is_pos(x * y + a, m);
    vstd::arithmetic::div_mod::lemma_mod_bound(x * y + a, m);
    if (x * y + a) / m >= m {
        assert(((x * y + a) / m) * m >= m * m) by (nonlinear_arith)
            requires
                (x * y + a) / m >= m,
                m > 0,
        ;
    }
}

impl WideningMul for u8 {
    fn widening_mul(lhs: u8, rhs: u8, add: u8) -> (r: (u8, u8))
        ensures
            r.0 + r.1 * 0x100 == lhs * rhs + add,
    {
        proof {
            lemma_wide_bound(lhs as int, rhs as int, add as int, 0x100);
        }
        let wide: u16 = (lhs as u16) * (rhs as u16) + (add as u16);
        ((wide % 0x100) as u8, (wide / 0x100) as u8)
    }
}

impl WideningMul for u16 {
    fn widening_mul(lhs: u16, rhs: u16, add: u16) -> (r: (u16, u16))
        ensures
            r.0 + r.1 * 0x1_0000 == lhs * rhs + add,
    {
        proof {
            lemma_wide_bound(lhs as int, rhs as int, add as int, 0x1_0000);
        }
        let wide: u32 = (lhs as u32) * (rhs as u32) + (add as u32);
        ((wide % 0x1_0000) as u16, (wide / 0x1_0000) as u16)
    }
}

impl WideningMul for u32 {
    fn widening_mul(lhs: u32, rhs: u32, add: u32) -> (r: (u32, u32))
        ensures
            r.0 + r.1 * 0x1_0000_0000 == lhs * rhs + add,
    {
        proof {
            lemma_wide_bound(lhs as int, rhs as int, add as int, 0x1_0000_0000);
        }
        let wide: u64 = (lhs as u64) * (rhs as u64) + (add as u64);
        ((wide % 0x1_0000_0000) as u32, (wide / 0x1_0000_0000) as u32)
    }
}

impl WideningMul for u64 {
    fn widening_mul(lhs: u64, rhs: u64, add: u64) -> (r: (u64, u64))
        ensures
            r.0 + r.1 * 0x1_0000_0000_0000_0000 == lhs * rhs + add,
    {
        proof {
            lemma_wide_bound(lhs as int, rhs as int, add as int, 0x1_0000_0000_0000_0000);
        }
        let wide: u128 = (lhs as u128) * (rhs as u128) + (add as u128);
        ((wide % 0x1_0000_0000_0000_0000) as u64, (wide / 0x1_0000_0000_0000_0000) as u64)
    }
}

impl WideningMul for usize {
    fn widening_mul(lhs: usize, rhs: usize, add: usize) -> (r: (usize, usize))
        ensures
            r.0 + r.1 * (usize::MAX + 1) == lhs * rhs + add,
    {
        proof {
            crate::limb::lemma_usize_width();
            lemma_wide_bound(lhs as int, rhs as int, add as int, usize::MAX + 1);
            assert((usize::MAX as int + 1) * (usize::MAX as int + 1) <= 0x1_0000_0000_0000_0000 * 0x1_0000_0000_0000_0000)
                by (nonlinear_arith)
                requires
                    usize::MAX + 1 <= 0x1_0000_0000_0000_0000,
            ;
        }
        let m: u128 = (usize::MAX as u128) + 1;
        let wide: u128 = (lhs as u128) * (rhs as u128) + (add as u128);
        ((wide % m) as usize, (wide / m) as usize)
    }
}

/// Sum of two words with the carry out: `(a + b) mod 2^128` and whether it wrapped.
fn add_carry(a: u128, b: u128) -> (r: (u128, bool))
    ensures
        r.0 + (if r.1 { 0x1_0000_0000_0000_0000_0000_0000_0000_0000int } else { 0int }) == a + b,
{
    if a > u128::MAX - b {
        (a - (u128::MAX - b) - 1, true)
    } else {
        (a + b, false)
    }
}

/// The full product-plus-addend of 128-bit words, assembled from four half-word products.
proof fn lemma_split_product(a: int, b: int, c: int, d: int, h: int)
    ensures
        (a + b * h) * (c + d * h) == a * c + (a * d + b * c) * h + (b * d) * (h * h),
{
    let bh = b * h;
    let dh = d * h;
    lemma_mul_is_distributive_add_other_way(c + dh, a, bh);
    lemma_mul_is_distributive_add(a, c, dh);
    lemma_mul_is_distributive_add(bh, c, dh);
    lemma_mul_is_associative(a, d, h);
    lemma_mul_is_associative(b, h, c);
    lemma_mul_is_commutative(h, c);
    lemma_mul_is_associative(b, c, h);
    lemma_mul_is_associative(b, h, dh);
    lemma_mul_is_associative(h, d, h);
    lemma_mul_is_commutative(h, d);
    lemma_mul_is_associative(d, h, h);
    lemma_mul_is_associative(b, d, h * h);
    lemma_mul_is_distributive_add_other_way(h, a * d, b * c);
    lemma_mul_is_commutative(a + bh, c + dh);
}

impl WideningMul for u128 {
    fn widening_mul(lhs: u128, rhs: u128, add: u128) -> (r: (u128, u128))
        ensures
            r.0 + r.1 * 0x1_0000_0000_0000_0000_0000_0000_0000_0000int == lhs * rhs + add,
    {
        let ghost h: int = 0x1_0000_0000_0000_0000int;
        let ghost w: int = 0x1_0000_0000_0000_0000_0000_0000_0000_0000int;
        let half: u128 = 0x1_0000_0000_0000_0000;
        let lhs_lo = lhs % half;
        let rhs_lo = rhs % half;
        let lhs_hi = lhs / half;
        let rhs_hi = rhs / half;
        proof {
            assert(h * h == w);
            assert(lhs_hi < h) by (nonlinear_arith)
                requires
                    lhs_hi == lhs as int / h,
                    lhs < h * h,
                    h > 0,
            ;
            assert(rhs_hi < h) by (nonlinear_arith)
                requires
                    rhs_hi == rhs as int / h,
                    rhs < h * h,
                    h > 0,
            ;
            assert((h - 1) * (h - 1) < w) by (nonlinear_arith)
                requires
                    h * h == w,
                    h > 1,
            ;
            assert(lhs_lo * rhs_lo <= (h - 1) * (h - 1)) by (nonlinear_arith)
                requires
                    0 <= lhs_lo < h,
                    0 <= rhs_lo < h,
            ;
            assert(lhs_lo * rhs_hi <= (h - 1) * (h - 1)) by (nonlinear_arith)
                requires
                    0 <= lhs_lo < h,
                    0 <= rhs_hi < h,
            ;
            assert(lhs_hi * rhs_lo <= (h - 1) * (h - 1)) by (nonlinear_arith)
                requires
                    0 <= lhs_hi < h,
                    0 <= rhs_lo < h,
            ;
            assert(lhs_hi * rhs_hi <= (h - 1) * (h - 1)) by (nonlinear_arith)
                requires
                    0 <= lhs_hi < h,
                    0 <= rhs_hi < h,
            ;
        }
        let tmp0 = lhs_lo * rhs_lo;
        let tmp1 = lhs_lo * rhs_hi;
        let tmp2 = lhs_hi * rhs_lo;
        let tmp3 = lhs_hi * rhs_hi;
        let t1_lo = tmp1 % half;
        let t2_lo = tmp2 % half;
        proof {
            assert(t1_lo * h < w) by (nonlinear_arith)
                requires
                    0 <= t1_lo < h,
                    h * h == w,
            ;
            assert(t2_lo * h < w) by (nonlinear_arith)
                requires
                    0 <= t2_lo < h,
                    h * h == w,
            ;
        }
        let (sum0, carry0) = add_carry(tmp0, t1_lo * half);
        let (sum0, carry1) = add_carry(sum0, t2_lo * half);
        let (sum0, carry2) = add_carry(sum0, add);
        let c0: u128 = if carry0 { 1 } else { 0 };
        let c1: u128 = if carry1 { 1 } else { 0 };
        let c2: u128 = if carry2 { 1 } else { 0 };
        proof {
            let t1_hi: int = tmp1 as int / h;
            let t2_hi: int = tmp2 as int / h;
            vstd::arithmetic::div_mod::lemma_fundamental_div_mod(lhs as int, h);
            vstd::arithmetic::div_mod::lemma_fundamental_div_mod(rhs as int, h);
            vstd::arithmetic::div_mod::lemma_fundamental_div_mod(tmp1 as int, h);
            vstd::arithmetic::div_mod::lemma_fundamental_div_mod(tmp2 as int, h);
            vstd::arithmetic::mul::lemma_mul_is_commutative(h, lhs_hi as int);
            vstd::arithmetic::mul::lemma_mul_is_commutative(h, rhs_hi as int);
            vstd::arithmetic::mul::lemma_mul_is_commutative(h, t1_hi);
            vstd::arithmetic::mul::lemma_mul_is_commutative(h, t2_hi);
            lemma_split_product(lhs_lo as int, lhs_hi as int, rhs_lo as int, rhs_hi as int, h);
            assert((tmp1 + tmp2) * h == (t1_lo + t2_lo) * h + (t1_hi + t2_hi) * w) by (nonlinear_arith)
                requires
                    tmp1 == t1_lo + t1_hi * h,
                    tmp2 == t2_lo + t2_hi * h,
                    h * h == w,
            ;
            assert(t1_lo * half == t1_lo * h);
            assert(t2_lo * half == t2_lo * h);
            assert(lhs * rhs + add == sum0 + (tmp3 + t1_hi + t2_hi + c0 + c1 + c2) * w) by (
            nonlinear_arith)
                requires
                    lhs * rhs == tmp0 + (tmp1 + tmp2) * h + tmp3 * w,
                    (tmp1 + tmp2) * h == (t1_lo + t2_lo) * h + (t1_hi + t2_hi) * w,
                    tmp0 + t1_lo * h + t2_lo * h + add == sum0 + (c0 + c1 + c2) * w,
            ;
            assert(lhs * rhs + add < w * w) by (nonlinear_arith)
                requires
                    0 <= lhs < w,
                    0 <= rhs < w,
                    0 <= add < w,
            ;
            assert(tmp3 + t1_hi + t2_hi + c0 + c1 + c2 < w) by (nonlinear_arith)
                requires
                    lhs * rhs + add == sum0 + (tmp3 + t1_hi + t2_hi + c0 + c1 + c2) * w,
                    lhs * rhs + add < w * w,
                    0 <= sum0,
                    w > 0,
            ;
            assert(t1_hi <= tmp1);
            assert(t2_hi <= tmp2);
        }
        let sum1 = tmp3 + tmp1 / half + tmp2 / half + c0 + c1 + c2;
        (sum0, sum1)
    }
}

} // verus!
