//! Bit-at-a-time algorithms on slices of limbs: shifts, add-and-carry, sub-and-borrow,
//! shift-and-add multiplication and long division.
use vstd::prelude::*;
use crate::bit_slice::BitVecExt;
use vstd::arithmetic::power2::{pow2, lemma_pow2_pos, lemma_pow2_adds, lemma_pow2_unfold, lemma2_to64};
use vstd::arithmetic::div_mod::{lemma_small_mod, lemma_fundamental_div_mod};
use crate::limb::{BitLike, nat_bit, lemma_nat_bit_split, lemma_nat_bit_above, lemma_with_nat_bit};
use crate::limbs::{seq_val, weight, is_normalized, lemma_val_bound};
use crate::bit_slice::BitSliceExt;
use crate::element::{zero_vec, div_rem_values, less_values, add_values, shrink_vec};

verus! {

/// The number of bits in `n` limbs of `B` is `width * n`.
proof fn lemma_bits<B: BitLike>(n: nat, bl: nat)
    requires
        bl == n * B::width(),
    ensures
        weight::<B>(n) == pow2(bl),
{
    assert(B::width() * n == bl) by (nonlinear_arith)
        requires
            bl == n * B::width(),
    ;
}

/// A bit position below `n * w` lies in one of the first `n` limbs of width `w`.
proof fn lemma_limb_of_bit(idx: nat, n: nat, w: nat)
    requires
        w > 0,
        idx < n * w,
    ensures
        idx / w < n,
        (idx / w) * w <= idx,
{
    vstd::arithmetic::div_mod::lemma_fundamental_div_mod(idx as int, w as int);
    vstd::arithmetic::div_mod::lemma_mod_bound(idx as int, w as int);
    let q = idx / w;
    assert(q < n) by (nonlinear_arith)
        requires
            idx == w * q + idx % w,
            idx % w >= 0,
            idx < n * w,
            w > 0,
    ;
    assert(q * w <= idx) by (nonlinear_arith)
        requires
            idx == w * q + idx % w,
            idx % w >= 0,
    ;
}

/// Shift a slice left by `right` bits, implemented as a series of bitwise copies.
pub fn shl_bits<B: BitLike>(left: &[B], right: usize) -> (out: Vec<B>)
    requires
        left@.len() * B::width() + right + B::width() <= usize::MAX,
    ensures
        seq_val(out@) == seq_val(left@) * pow2(right as nat),
        out@.len() >= left@.len(),
        out@.len() * B::width() <= left@.len() * B::width() + right + B::width(),
{
    let bit_len = BitSliceExt::bit_len(left);
    let mut out: Vec<B> = zero_vec(left.len());
    let ghost v = seq_val(left@);
    let mut idx: usize = 0;
    proof {
        B::lemma_width();
        lemma2_to64();
        lemma_pow2_pos(right as nat);
        assert((v % pow2(0)) * pow2(right as nat) == 0) by {
            vstd::arithmetic::div_mod::lemma_mod_bound(v as int, 1);
            let p = pow2(right as nat);
            assert(0 * p == 0) by (nonlinear_arith);
        }
        lemma_val_bound(left@);
        lemma_bits::<B>(left@.len(), bit_len as nat);
    }
    while idx < bit_len
        invariant
            idx <= bit_len,
            bit_len == left@.len() * B::width(),
            bit_len + right + B::width() <= usize::MAX,
            v == seq_val(left@),
            v < pow2(bit_len as nat),
            seq_val(out@) == (v % pow2(idx as nat)) * pow2(right as nat),
            out@.len() >= left@.len(),
            out@.len() * B::width() <= bit_len + right + B::width(),
        decreases bit_len - idx,
    {
        proof {
            B::lemma_width();
            lemma_limb_of_bit(idx as nat, left@.len(), B::width());
        }
        let new = BitSliceExt::get_bit(left, idx);
        let ghost before = seq_val(out@);
        let ghost old_len = out@.len();
        proof {
            lemma_pow2_pos(idx as nat);
            lemma_pow2_pos(right as nat);
            lemma_nat_bit_split(v, idx as nat);
            lemma_pow2_adds(idx as nat, right as nat);
            vstd::arithmetic::div_mod::lemma_mod_bound(v as int, pow2(idx as nat) as int);
            let m = v % pow2(idx as nat);
            assert(m * pow2(right as nat) < pow2(idx as nat) * pow2(right as nat)) by (nonlinear_arith)
                requires
                    m < pow2(idx as nat),
                    pow2(right as nat) > 0,
            ;
            lemma_nat_bit_above(before, (idx + right) as nat, (idx + right) as nat);
            assert((m + pow2(idx as nat)) * pow2(right as nat) == m * pow2(right as nat) + pow2(
                idx as nat,
            ) * pow2(right as nat)) by (nonlinear_arith);
            let p = (idx + right) as nat;
            vstd::arithmetic::div_mod::lemma_fundamental_div_mod(p as int, B::width() as int);
            vstd::arithmetic::div_mod::lemma_mod_bound(p as int, B::width() as int);
            let q = p / B::width();
            assert((q + 1) * B::width() <= p + B::width()) by (nonlinear_arith)
                requires
                    p == B::width() * q + p % B::width(),
                    p % B::width() >= 0,
            ;
        }
        if new || idx + right < bit_len {
            out.set_bit_push(idx + right, new);
        }
        idx += 1;
    }
    proof {
        lemma_small_mod(v, pow2(bit_len as nat));
    }
    out
}

/// Bit `j` of `v / 2^r` is bit `r + j` of `v`.
proof fn lemma_bit_of_quotient(v: nat, r: nat, j: nat)
    ensures
        nat_bit(v / pow2(r), j) == nat_bit(v, r + j),
{
    lemma_pow2_pos(r);
    lemma_pow2_pos(j);
    lemma_pow2_adds(r, j);
    vstd::arithmetic::div_mod::lemma_div_denominator(v as int, pow2(r) as int, pow2(j) as int);
}

/// `v < 2^(r + k)` gives `v / 2^r < 2^k`.
proof fn lemma_quotient_bound(v: nat, r: nat, k: nat)
    requires
        v < pow2(r + k),
    ensures
        v / pow2(r) < pow2(k),
{
    lemma_pow2_pos(r);
    lemma_pow2_adds(r, k);
    vstd::arithmetic::div_mod::lemma_fundamental_div_mod(v as int, pow2(r) as int);
    vstd::arithmetic::div_mod::lemma_mod_bound(v as int, pow2(r) as int);
    let q = v / pow2(r);
    let p = pow2(r);
    let pk = pow2(k);
    assert(q < pk) by (nonlinear_arith)
        requires
            v == p * q + v % p,
            v % p >= 0,
            v < p * pk,
            p > 0,
    ;
}

/// Shift a slice right by `right` bits, implemented as a series of bitwise copies.
pub fn shr_bits<B: BitLike>(left: &[B], right: usize) -> (out: Vec<B>)
    requires
        left@.len() * B::width() <= usize::MAX,
    ensures
        seq_val(out@) == seq_val(left@) / pow2(right as nat),
        out@.len() == left@.len(),
{
    let bit_len = BitSliceExt::bit_len(left);
    let mut out: Vec<B> = zero_vec(left.len());
    let ghost v = seq_val(left@);
    let ghost w = v / pow2(right as nat);
    proof {
        B::lemma_width();
        lemma2_to64();
        lemma_pow2_pos(right as nat);
        lemma_val_bound(left@);
        lemma_bits::<B>(left@.len(), bit_len as nat);
    }
    if right >= bit_len {
        proof {
            lemma_nat_bit_above(v, bit_len as nat, right as nat);
        }
        return out;
    }
    let mut idx: usize = right;
    proof {
        vstd::arithmetic::div_mod::lemma_mod_bound(w as int, 1);
    }
    while idx < bit_len
        invariant
            right <= idx <= bit_len,
            bit_len == left@.len() * B::width(),
            v == seq_val(left@),
            v < pow2(bit_len as nat),
            w == v / pow2(right as nat),
            seq_val(out@) == w % pow2((idx - right) as nat),
            out@.len() == left@.len(),
        decreases bit_len - idx,
    {
        proof {
            B::lemma_width();
            lemma_limb_of_bit(idx as nat, left@.len(), B::width());
        }
        let new = BitSliceExt::get_bit(left, idx);
        let ghost j = (idx - right) as nat;
        proof {
            lemma_bit_of_quotient(v, right as nat, j);
            lemma_pow2_pos(j);
            vstd::arithmetic::div_mod::lemma_mod_bound(w as int, pow2(j) as int);
            lemma_nat_bit_above(w % pow2(j), j, j);
            lemma_nat_bit_split(w, j);
            lemma_limb_of_bit(j, left@.len(), B::width());
        }
        out.set_bit_ignore(idx - right, new);
        idx += 1;
    }
    proof {
        lemma_quotient_bound(v, right as nat, (bit_len - right) as nat);
        lemma_small_mod(w, pow2((bit_len - right) as nat));
    }
    out
}

/// A value held in `n` limbs lies below `2^(n * width)`, and so below `2^bl` for any `bl` at
/// least that many bits.
proof fn lemma_val_below_bits<B: BitLike>(s: Seq<B>, bl: nat)
    requires
        s.len() * B::width() <= bl,
    ensures
        seq_val(s) < pow2(bl),
{
    lemma_val_bound(s);
    lemma_bits::<B>(s.len(), s.len() * B::width());
    if s.len() * B::width() < bl {
        vstd::arithmetic::power2::lemma_pow2_strictly_increases(s.len() * B::width(), bl);
    }
}

/// One bit of a ripple-carry sum.
proof fn lemma_add_bit(a: nat, b: nat, out: nat, c: nat, idx: nat, nc: nat, new: nat)
    requires
        out + c * pow2(idx) == a % pow2(idx) + b % pow2(idx),
        c <= 1,
        new + 2 * nc == c + (if nat_bit(a, idx) { 1nat } else { 0 }) + (if nat_bit(b, idx) { 1nat } else { 0 }),
    ensures
        out + new * pow2(idx) + nc * pow2(idx + 1) == a % pow2(idx + 1) + b % pow2(idx + 1),
{
    lemma_nat_bit_split(a, idx);
    lemma_nat_bit_split(b, idx);
    lemma_pow2_unfold(idx + 1);
    let p = pow2(idx);
    assert(nc * (2 * p) == (2 * nc) * p) by (nonlinear_arith);
    assert(new * p + (2 * nc) * p == (new + 2 * nc) * p) by (nonlinear_arith);
    assert(c * p + (if nat_bit(a, idx) { 1nat } else { 0 }) * p + (if nat_bit(b, idx) { 1nat } else { 0 }) * p
        == (c + (if nat_bit(a, idx) { 1nat } else { 0 }) + (if nat_bit(b, idx) { 1nat } else { 0 })) * p)
        by (nonlinear_arith);
}

/// Add two slices, implemented as a bitwise add-and-carry.
pub fn add_bits<B: BitLike>(left: &[B], right: &[B]) -> (out: Vec<B>)
    requires
        left@.len() * B::width() < usize::MAX,
        right@.len() * B::width() < usize::MAX,
    ensures
        seq_val(out@) == seq_val(left@) + seq_val(right@),
        out@.len() >= left@.len(),
        out@.len() >= right@.len(),
        out@.len() <= (if left@.len() >= right@.len() { left@.len() } else { right@.len() }) + 1,
        out@.len() == if seq_val(left@) + seq_val(right@) < weight::<B>(
            if left@.len() >= right@.len() { left@.len() } else { right@.len() },
        ) {
            if left@.len() >= right@.len() { left@.len() } else { right@.len() }
        } else {
            (if left@.len() >= right@.len() { left@.len() } else { right@.len() }) + 1
        },
{
    let len: usize = if left.len() >= right.len() {
        left.len()
    } else {
        right.len()
    };
    let bit_len: usize = if left.len() >= right.len() {
        BitSliceExt::bit_len(left)
    } else {
        BitSliceExt::bit_len(right)
    };
    let mut out: Vec<B> = zero_vec(len);
    let ghost a = seq_val(left@);
    let ghost b = seq_val(right@);
    let mut carry = false;
    let mut idx: usize = 0;
    proof {
        B::lemma_width();
        lemma2_to64();
        lemma_bits::<B>(len as nat, bit_len as nat);
        assert(left@.len() * B::width() <= bit_len) by (nonlinear_arith)
            requires
                left@.len() <= len,
                bit_len == len * B::width(),
        ;
        assert(right@.len() * B::width() <= bit_len) by (nonlinear_arith)
            requires
                right@.len() <= len,
                bit_len == len * B::width(),
        ;
        lemma_val_below_bits(left@, bit_len as nat);
        lemma_val_below_bits(right@, bit_len as nat);
        vstd::arithmetic::div_mod::lemma_mod_bound(a as int, 1);
        vstd::arithmetic::div_mod::lemma_mod_bound(b as int, 1);
    }
    while idx <= bit_len
        invariant
            idx <= bit_len + 1,
            bit_len == len * B::width(),
            bit_len < usize::MAX,
            len == left@.len() || len == right@.len(),
            left@.len() <= len,
            right@.len() <= len,
            a == seq_val(left@),
            b == seq_val(right@),
            a < pow2(bit_len as nat),
            b < pow2(bit_len as nat),
            seq_val(out@) + (if carry { pow2(idx as nat) } else { 0 }) == a % pow2(idx as nat) + b
                % pow2(idx as nat),
            seq_val(out@) < pow2(idx as nat),
            len <= out@.len() <= len + 1,
            out@.len() == len + 1 ==> idx == bit_len + 1 && nat_bit(seq_val(out@), bit_len as nat),
        decreases bit_len + 1 - idx,
    {
        let l = match BitSliceExt::get_bit_opt(left, idx) {
            Some(x) => x,
            None => false,
        };
        let r = match BitSliceExt::get_bit_opt(right, idx) {
            Some(x) => x,
            None => false,
        };
        let c: u8 = if carry {
            carry = false;
            1
        } else {
            0
        };
        let lv: u8 = if l { 1 } else { 0 };
        let rv: u8 = if r { 1 } else { 0 };
        let new = match c + lv + rv {
            0 => false,
            1 => true,
            2 => {
                carry = true;
                false
            },
            _ => {
                carry = true;
                true
            },
        };
        let ghost before = seq_val(out@);
        proof {
            B::lemma_width();
            lemma_add_bit(a, b, before, c as nat, idx as nat, if carry { 1nat } else { 0 },
                if new { 1nat } else { 0 });
            lemma_nat_bit_above(before, idx as nat, idx as nat);
            lemma_pow2_unfold(idx as nat + 1);
            assert((len + 1) * B::width() == bit_len + B::width()) by (nonlinear_arith)
                requires
                    bit_len == len * B::width(),
            ;
            lemma_limb_of_bit(idx as nat, len as nat + 1, B::width());
        }
        proof {
            if idx < bit_len {
                lemma_limb_of_bit(idx as nat, len as nat, B::width());
            } else {
                let w = B::width() as int;
                vstd::arithmetic::div_mod::lemma_div_multiples_vanish(len as int, w);
                assert((len as int * w) / w == len as int) by {
                    vstd::arithmetic::mul::lemma_mul_is_commutative(len as int, w);
                }
            }
        }
        let ghost pre = seq_val(out@);
        if new {
            out.set_bit_push(idx, new);
            proof {
                lemma_with_nat_bit(pre, idx as nat, true, bit_len as nat);
            }
        }
        idx += 1;
    }
    proof {
        let total = seq_val(out@);
        lemma_bits::<B>(len as nat, bit_len as nat);
        if out@.len() == len + 1 {
            lemma_pow2_pos(bit_len as nat);
            if total < pow2(bit_len as nat) {
                vstd::arithmetic::div_mod::lemma_basic_div(total as int, pow2(bit_len as nat) as int);
            }
        } else {
            lemma_val_bound(out@);
        }
        vstd::arithmetic::power2::lemma_pow2_strictly_increases(bit_len as nat, bit_len as nat + 1);
        lemma_small_mod(a, pow2(bit_len as nat + 1));
        lemma_small_mod(b, pow2(bit_len as nat + 1));
        lemma_pow2_unfold(bit_len as nat + 1);
    }
    out
}

/// One bit of a ripple-borrow difference.
proof fn lemma_sub_bit(a: nat, b: nat, out: nat, c: nat, idx: nat, nc: nat, new: nat)
    requires
        out + b % pow2(idx) == a % pow2(idx) + c * pow2(idx),
        c <= 1,
        new + c + (if nat_bit(b, idx) { 1nat } else { 0 }) == (if nat_bit(a, idx) { 1nat } else { 0 }) + 2 * nc,
    ensures
        out + new * pow2(idx) + b % pow2(idx + 1) == a % pow2(idx + 1) + nc * pow2(idx + 1),
{
    lemma_nat_bit_split(a, idx);
    lemma_nat_bit_split(b, idx);
    lemma_pow2_unfold(idx + 1);
    let p = pow2(idx);
    let la: nat = if nat_bit(a, idx) { 1nat } else { 0 };
    let lb: nat = if nat_bit(b, idx) { 1nat } else { 0 };
    assert(nc * (2 * p) == (2 * nc) * p) by (nonlinear_arith);
    assert((new + c + lb) * p == (la + 2 * nc) * p) by (nonlinear_arith)
        requires
            new + c + lb == la + 2 * nc,
    ;
    assert((new + c + lb) * p == new * p + c * p + lb * p) by (nonlinear_arith);
    assert((la + 2 * nc) * p == la * p + (2 * nc) * p) by (nonlinear_arith);
}

/// `x - y` for `x >= y`, bit by bit with borrow, into a vector as long as the longer input.
fn sub_bits_raw<B: BitLike>(x: &[B], y: &[B]) -> (out: Vec<B>)
    requires
        x@.len() * B::width() < usize::MAX,
        y@.len() * B::width() < usize::MAX,
        seq_val(x@) >= seq_val(y@),
    ensures
        seq_val(out@) == seq_val(x@) - seq_val(y@),
        out@.len() == if x@.len() >= y@.len() { x@.len() } else { y@.len() },
{
    let len: usize = if x.len() >= y.len() {
        x.len()
    } else {
        y.len()
    };
    let bit_len: usize = if x.len() >= y.len() {
        BitSliceExt::bit_len(x)
    } else {
        BitSliceExt::bit_len(y)
    };
    let mut out: Vec<B> = zero_vec(len);
    let ghost a = seq_val(x@);
    let ghost b = seq_val(y@);
    let mut carry = false;
    let mut idx: usize = 0;
    proof {
        B::lemma_width();
        lemma2_to64();
        lemma_bits::<B>(len as nat, bit_len as nat);
        assert(x@.len() * B::width() <= bit_len) by (nonlinear_arith)
            requires
                x@.len() <= len,
                bit_len == len * B::width(),
        ;
        assert(y@.len() * B::width() <= bit_len) by (nonlinear_arith)
            requires
                y@.len() <= len,
                bit_len == len * B::width(),
        ;
        lemma_val_below_bits(x@, bit_len as nat);
        lemma_val_below_bits(y@, bit_len as nat);
        vstd::arithmetic::div_mod::lemma_mod_bound(a as int, 1);
        vstd::arithmetic::div_mod::lemma_mod_bound(b as int, 1);
    }
    while idx < bit_len
        invariant
            idx <= bit_len,
            bit_len == len * B::width(),
            x@.len() <= len,
            y@.len() <= len,
            len == x@.len() || len == y@.len(),
            a == seq_val(x@),
            b == seq_val(y@),
            a >= b,
            a < pow2(bit_len as nat),
            b < pow2(bit_len as nat),
            seq_val(out@) + b % pow2(idx as nat) == a % pow2(idx as nat) + (if carry {
                pow2(idx as nat)
            } else {
                0
            }),
            seq_val(out@) < pow2(idx as nat),
            out@.len() == len,
        decreases bit_len - idx,
    {
        let l = match BitSliceExt::get_bit_opt(x, idx) {
            Some(v) => v,
            None => false,
        };
        let r = match BitSliceExt::get_bit_opt(y, idx) {
            Some(v) => v,
            None => false,
        };
        let c = if carry {
            carry = false;
            true
        } else {
            false
        };
        let new = match (l, r, c) {
            (true, false, false) => true,
            (true, true, false) | (true, false, true) | (false, false, false) => false,
            (false, true, false) | (false, false, true) | (true, true, true) => {
                carry = true;
                true
            },
            (false, true, true) => {
                carry = true;
                false
            },
        };
        let ghost before = seq_val(out@);
        proof {
            B::lemma_width();
            lemma_sub_bit(a, b, before, if c { 1nat } else { 0 }, idx as nat, if carry { 1nat } else { 0 },
                if new { 1nat } else { 0 });
            lemma_nat_bit_above(before, idx as nat, idx as nat);
            lemma_pow2_unfold(idx as nat + 1);
            lemma_limb_of_bit(idx as nat, len as nat, B::width());
        }
        out.set_bit(idx, new);
        idx += 1;
    }
    proof {
        lemma_small_mod(a, pow2(bit_len as nat));
        lemma_small_mod(b, pow2(bit_len as nat));
        if carry {
            assert(seq_val(out@) + b == a + pow2(bit_len as nat));
        }
    }
    out
}

/// Subtract two slices, implemented as a bitwise sub-and-borrow. Returns the magnitude of the
/// difference and whether `right` exceeded `left`.
pub fn sub_bits<B: BitLike>(left: &[B], right: &[B]) -> (r: (Vec<B>, bool))
    requires
        left@.len() * B::width() < usize::MAX,
        right@.len() * B::width() < usize::MAX,
    ensures
        r.1 == (seq_val(left@) < seq_val(right@)),
        seq_val(r.0@) == if r.1 {
            seq_val(right@) - seq_val(left@)
        } else {
            seq_val(left@) - seq_val(right@)
        },
        r.0@.len() == if left@.len() >= right@.len() { left@.len() } else { right@.len() },
{
    if less_values(left, right) {
        (sub_bits_raw(right, left), true)
    } else {
        (sub_bits_raw(left, right), false)
    }
}

/// The running product of shift-and-add multiplication stays below `weight(la + lb)`.
proof fn lemma_mul_bound<B: BitLike>(a: nat, la: nat, lb: nat, p: nat, m: nat)
    requires
        a < weight::<B>(la),
        p <= weight::<B>(lb),
        m < p,
    ensures
        a * p < weight::<B>(la + lb),
        a * m < weight::<B>(la + lb),
{
    crate::limbs::lemma_weight_adds::<B>(la, lb);
    let wa = weight::<B>(la);
    let wb = weight::<B>(lb);
    assert(a * p < wa * wb) by (nonlinear_arith)
        requires
            a < wa,
            p <= wb,
            m < p,
    ;
    assert(a * m <= a * p) by (nonlinear_arith)
        requires
            m < p,
    ;
}

/// Multiply two slices, implemented as a bitwise shift-and-add.
pub fn mul_bits<B: BitLike>(left: &[B], right: &[B]) -> (out: Vec<B>)
    requires
        (left@.len() + right@.len() + 2) * B::width() <= usize::MAX,
    ensures
        seq_val(out@) == seq_val(left@) * seq_val(right@),
        out@.len() <= 2 * (if left@.len() >= right@.len() { left@.len() } else { right@.len() }),
{
    let len: usize = if left.len() >= right.len() {
        left.len()
    } else {
        right.len()
    };
    proof {
        B::lemma_width();
        assert(right@.len() * B::width() <= usize::MAX) by (nonlinear_arith)
            requires
                (left@.len() + right@.len() + 2) * B::width() <= usize::MAX,
        ;
        assert(2 * len + 2 <= usize::MAX) by (nonlinear_arith)
            requires
                (left@.len() + right@.len() + 2) * B::width() <= usize::MAX,
                len == left@.len() || len == right@.len(),
                B::width() >= 8,
        ;
    }
    let mut out: Vec<B> = zero_vec(2 * len);
    if left.len() == 0 {
        proof {
            let b = seq_val(right@);
            assert(0 * b == 0) by (nonlinear_arith);
        }
        return out;
    }
    let right_bits = BitSliceExt::bit_len(right);
    proof {
        assert(left@.len() * B::width() + B::width() <= usize::MAX) by (nonlinear_arith)
            requires
                (left@.len() + right@.len() + 2) * B::width() <= usize::MAX,
        ;
        lemma2_to64();
    }
    let copied = shl_bits(left, 0);
    let mut new_self: Vec<B> = shrink_vec(copied);
    proof {
        lemma_val_bound(left@);
        let a0 = seq_val(left@);
        assert(a0 * 1 == a0) by (nonlinear_arith);
        crate::element::lemma_normalized_short(new_self@, left@.len());
    }
    let ghost a = seq_val(left@);
    let ghost b = seq_val(right@);
    let ghost la = left@.len();
    let ghost lb = right@.len();
    let mut idx: usize = 0;
    proof {
        lemma2_to64();
        lemma_val_bound(left@);
        lemma_val_bound(right@);
        lemma_bits::<B>(lb, right_bits as nat);
        vstd::arithmetic::div_mod::lemma_mod_bound(b as int, 1);
        let a1 = a;
        assert(a1 * 1 == a1) by (nonlinear_arith);
        assert(a * (b % pow2(0)) == 0) by (nonlinear_arith)
            requires
                b % pow2(0) == 0,
        ;
    }
    while idx < right_bits
        invariant
            idx <= right_bits,
            right_bits == lb * B::width(),
            la == left@.len(),
            lb == right@.len(),
            la >= 1,
            len == la || len == lb,
            la <= len,
            lb <= len,
            (la + lb + 2) * B::width() <= usize::MAX,
            a == seq_val(left@),
            b == seq_val(right@),
            a < weight::<B>(la),
            b < weight::<B>(lb),
            weight::<B>(lb) == pow2(right_bits as nat),
            seq_val(new_self@) == a * pow2(idx as nat),
            is_normalized(new_self@),
            new_self@.len() <= la + lb,
            seq_val(out@) == a * (b % pow2(idx as nat)),
            out@.len() <= 2 * len,
            2 * len + 2 <= usize::MAX,
        decreases right_bits - idx,
    {
        proof {
            B::lemma_width();
            lemma_limb_of_bit(idx as nat, lb, B::width());
        }
        let r = BitSliceExt::get_bit(right, idx);
        let ghost p = pow2(idx as nat);
        proof {
            lemma_pow2_pos(idx as nat);
            lemma_nat_bit_split(b, idx as nat);
            vstd::arithmetic::power2::lemma_pow2_strictly_increases(idx as nat, right_bits as nat);
            assert(la + lb + 2 <= usize::MAX) by (nonlinear_arith)
                requires
                    (la + lb + 2) * B::width() <= usize::MAX,
                    B::width() >= 8,
            ;
        }
        if r {
            out = add_values(out.as_slice(), new_self.as_slice());
            proof {
                let m = b % p;
                assert(a * m + a * p == a * (m + p)) by (nonlinear_arith);
                lemma_pow2_pos(idx as nat + 1);
                vstd::arithmetic::div_mod::lemma_mod_bound(b as int, pow2(idx as nat + 1) as int);
                lemma_pow2_unfold(idx as nat + 1);
                vstd::arithmetic::power2::lemma_pow2_strictly_increases(idx as nat, right_bits as nat);
                if idx + 1 < right_bits {
                    vstd::arithmetic::power2::lemma_pow2_strictly_increases(idx as nat + 1, right_bits as nat);
                }
                lemma_mul_bound::<B>(a, la, lb, pow2(right_bits as nat), b % pow2(idx as nat + 1));
                crate::element::lemma_normalized_short(out@, la + lb);
            }
        }
        proof {
            assert(new_self@.len() * B::width() + 1 + B::width() <= usize::MAX) by (nonlinear_arith)
                requires
                    new_self@.len() <= la + lb,
                    (la + lb + 2) * B::width() <= usize::MAX,
                    B::width() >= 8,
            ;
        }
        let shifted = shl_bits(new_self.as_slice(), 1);
        new_self = shrink_vec(shifted);
        proof {
            lemma2_to64();
            lemma_pow2_unfold(idx as nat + 1);
            assert(a * p * 2 == a * (2 * p)) by (nonlinear_arith);
            if idx + 1 < right_bits {
                vstd::arithmetic::power2::lemma_pow2_strictly_increases(idx as nat + 1, right_bits as nat);
                lemma_mul_bound::<B>(a, la, lb, pow2(right_bits as nat), pow2(idx as nat + 1));
                crate::element::lemma_normalized_short(new_self@, la + lb);
            } else {
                lemma_mul_bound::<B>(a, la, lb, pow2(right_bits as nat), 0);
                crate::element::lemma_normalized_short(new_self@, la + lb);
            }
        }
        idx += 1;
    }
    proof {
        lemma_small_mod(b, pow2(right_bits as nat));
    }
    out
}

/// Divide two slices, implemented as bitwise long division. Returns the quotient, as long as the
/// longer input, and the remainder. A zero divisor gives a quotient with every bit set and the
/// numerator as remainder.
pub fn div_bits<B: BitLike>(num: &[B], div: &[B]) -> (r: (Vec<B>, Vec<B>))
    requires
        num@.len() + 2 < usize::MAX,
        div@.len() + 2 < usize::MAX,
        (if num@.len() >= div@.len() { num@.len() } else { div@.len() }) * B::width() <= usize::MAX,
    ensures
        r.0@.len() == if num@.len() >= div@.len() { num@.len() } else { div@.len() },
        seq_val(div@) > 0 ==> seq_val(r.0@) == seq_val(num@) / seq_val(div@),
        seq_val(div@) > 0 ==> seq_val(r.1@) == seq_val(num@) % seq_val(div@),
        seq_val(div@) == 0 ==> seq_val(r.0@) == pow2(r.0@.len() * B::width()) - 1,
        seq_val(div@) == 0 ==> seq_val(r.1@) == seq_val(num@),
{
    div_rem_values(num, div)
}

/// Whole-value arithmetic on sequences of limbs, a bit at a time.
pub trait BitwiseOps: BitSliceExt {
    /// Shift a slice left by `right` bits, implemented as a series of bitwise copies
    fn shl(left: &Self, right: usize) -> (out: Vec<Self::Bit>)
        requires
            left.limbs().len() * Self::Bit::width() + right + Self::Bit::width() <= usize::MAX,
        ensures
            seq_val(out@) == seq_val(left.limbs()) * pow2(right as nat),
            out@.len() >= left.limbs().len(),
            out@.len() * Self::Bit::width() <= left.limbs().len() * Self::Bit::width() + right
                + Self::Bit::width(),
    {
        shl_bits(left.slice(), right)
    }

    /// Shift a slice right by `right` bits, implemented as a series of bitwise copies
    fn shr(left: &Self, right: usize) -> (out: Vec<Self::Bit>)
        requires
            left.limbs().len() * Self::Bit::width() <= usize::MAX,
        ensures
            seq_val(out@) == seq_val(left.limbs()) / pow2(right as nat),
            out@.len() == left.limbs().len(),
    {
        shr_bits(left.slice(), right)
    }

    /// Add two slices, implemented as a bitwise add-and-carry
    fn add<T: ?Sized + BitSliceExt<Bit = Self::Bit>>(left: &Self, right: &T) -> (out: Vec<Self::Bit>)
        requires
            left.limbs().len() * Self::Bit::width() < usize::MAX,
            right.limbs().len() * Self::Bit::width() < usize::MAX,
        ensures
            seq_val(out@) == seq_val(left.limbs()) + seq_val(right.limbs()),
            out@.len() == if seq_val(left.limbs()) + seq_val(right.limbs()) < weight::<Self::Bit>(
                if left.limbs().len() >= right.limbs().len() {
                    left.limbs().len()
                } else {
                    right.limbs().len()
                },
            ) {
                if left.limbs().len() >= right.limbs().len() {
                    left.limbs().len()
                } else {
                    right.limbs().len()
                }
            } else {
                (if left.limbs().len() >= right.limbs().len() {
                    left.limbs().len()
                } else {
                    right.limbs().len()
                }) + 1
            },
    {
        add_bits(left.slice(), right.slice())
    }

    /// Add `right` into `left` in place, bitwise with a carry, keeping the length of `left`: the
    /// sum modulo `weight(left.len())`.
    fn add_in_place<'a, T: ?Sized + BitSliceExt<Bit = Self::Bit>>(left: &'a mut Self, right: &T) -> (r: &'a mut Self)
        requires
            old(left).limbs().len() * Self::Bit::width() < usize::MAX,
            right.limbs().len() * Self::Bit::width() < usize::MAX,
        ensures
            r.limbs().len() == old(left).limbs().len(),
            seq_val(r.limbs()) == (seq_val(old(left).limbs()) + seq_val(right.limbs()))
                % weight::<Self::Bit>(old(left).limbs().len()),
            final(left).limbs() == final(r).limbs(),
    {
        let sum = add_bits(left.slice(), right.slice());
        let out = crate::slice_ops::truncate_limbs(sum.as_slice(), left.len());
        let mut i: usize = 0;
        while i < out.len()
            invariant
                left.limbs().len() == out@.len(),
                i <= out@.len(),
                forall|j: int| 0 <= j < i ==> left.limbs()[j] == out@[j],
            decreases out@.len() - i,
        {
            left.put(i, out[i]);
            i += 1;
        }
        proof {
            assert(left.limbs() =~= out@);
        }
        left
    }

    /// Subtract two slices, implemented as a bitwise sub-and-borrow. Returns the magnitude of the
    /// difference and whether `right` was the larger.
    fn sub<T: ?Sized + BitSliceExt<Bit = Self::Bit>>(left: &Self, right: &T) -> (r: (Vec<Self::Bit>, bool))
        requires
            left.limbs().len() * Self::Bit::width() < usize::MAX,
            right.limbs().len() * Self::Bit::width() < usize::MAX,
        ensures
            r.1 == (seq_val(left.limbs()) < seq_val(right.limbs())),
            seq_val(r.0@) == if r.1 {
                seq_val(right.limbs()) - seq_val(left.limbs())
            } else {
                seq_val(left.limbs()) - seq_val(right.limbs())
            },
            r.0@.len() == if left.limbs().len() >= right.limbs().len() {
                left.limbs().len()
            } else {
                right.limbs().len()
            },
    {
        sub_bits(left.slice(), right.slice())
    }

    /// Multiply two slices, implemented as a bitwise shift-and-add
    fn add_shift_mul<T: ?Sized + BitSliceExt<Bit = Self::Bit>>(left: &Self, right: &T) -> (out: Vec<Self::Bit>)
        requires
            (left.limbs().len() + right.limbs().len() + 2) * Self::Bit::width() <= usize::MAX,
        ensures
            seq_val(out@) == seq_val(left.limbs()) * seq_val(right.limbs()),
    {
        mul_bits(left.slice(), right.slice())
    }

    /// Divide two slices, implemented as bitwise long division. Returns the quotient, as long as
    /// the longer input, and the remainder; a zero divisor gives a quotient with every bit set and
    /// the numerator as remainder.
    fn div_long<T: ?Sized + BitSliceExt<Bit = Self::Bit>>(num: &Self, div: &T) -> (r: (Vec<Self::Bit>, Vec<Self::Bit>))
        requires
            num.limbs().len() + 2 < usize::MAX,
            div.limbs().len() + 2 < usize::MAX,
            (if num.limbs().len() >= div.limbs().len() { num.limbs().len() } else { div.limbs().len() })
                * Self::Bit::width() <= usize::MAX,
        ensures
            r.0@.len() == if num.limbs().len() >= div.limbs().len() {
                num.limbs().len()
            } else {
                div.limbs().len()
            },
            seq_val(div.limbs()) > 0 ==> seq_val(r.0@) == seq_val(num.limbs()) / seq_val(div.limbs()),
            seq_val(div.limbs()) > 0 ==> seq_val(r.1@) == seq_val(num.limbs()) % seq_val(div.limbs()),
            seq_val(div.limbs()) == 0 ==> seq_val(r.0@) == pow2(r.0@.len() * Self::Bit::width()) - 1,
            seq_val(div.limbs()) == 0 ==> seq_val(r.1@) == seq_val(num.limbs()),
    {
        div_bits(num.slice(), div.slice())
    }
}

impl<I: BitLike> BitwiseOps for [I] {}

impl<I: BitLike> BitwiseOps for Vec<I> {}

impl<I: BitLike, const N: usize> BitwiseOps for [I; N] {}

} // verus!
