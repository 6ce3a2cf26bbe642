//! The value of a little-endian sequence of limbs, and the arithmetic facts about it that the
//! multi-word algorithms rest on.
use vstd::prelude::*;
use vstd::arithmetic::power2::*;
use vstd::arithmetic::mul::*;
use vstd::arithmetic::div_mod::*;
use crate::limb::{BitLike, nat_bit};

verus! {

/// `2^(width * i)`: the weight of the limb at index `i`.
pub open spec fn weight<T: BitLike>(i: nat) -> nat {
    pow2(T::width() * i)
}

/// The number whose little-endian base-`2^width` digits are `s`.
pub open spec fn seq_val<T: BitLike>(s: Seq<T>) -> nat
    decreases s.len(),
{
    if s.len() == 0 {
        0
    } else {
        seq_val(s.drop_last()) + s.last().to_nat() * weight::<T>((s.len() - 1) as nat)
    }
}

/// Every limb of `s` is zero.
pub open spec fn all_zero<T: BitLike>(s: Seq<T>) -> bool {
    forall|i: int| 0 <= i < s.len() ==> (#[trigger] s[i]).to_nat() == 0
}

/// `s` has no zero limb at its top, except that a single zero limb stands for zero.
pub open spec fn is_normalized<T: BitLike>(s: Seq<T>) -> bool {
    s.len() >= 1 && (s.len() == 1 || s.last().to_nat() != 0)
}

pub proof fn lemma_weight_pos<T: BitLike>(i: nat)
    ensures
        weight::<T>(i) > 0,
{
    lemma_pow2_pos(T::width() * i);
}

pub proof fn lemma_weight_zero<T: BitLike>()
    ensures
        weight::<T>(0) == 1,
{
    assert(T::width() * 0 == 0) by (nonlinear_arith);
    lemma2_to64();
}

pub proof fn lemma_weight_succ<T: BitLike>(i: nat)
    ensures
        weight::<T>(i + 1) == weight::<T>(i) * pow2(T::width()),
{
    assert(T::width() * (i + 1) == T::width() * i + T::width()) by (nonlinear_arith);
    lemma_pow2_adds(T::width() * i, T::width());
}

pub proof fn lemma_weight_adds<T: BitLike>(i: nat, j: nat)
    ensures
        weight::<T>(i + j) == weight::<T>(i) * weight::<T>(j),
{
    assert(T::width() * (i + j) == T::width() * i + T::width() * j) by (nonlinear_arith);
    lemma_pow2_adds(T::width() * i, T::width() * j);
}

pub proof fn lemma_weight_mono<T: BitLike>(i: nat, j: nat)
    requires
        i <= j,
    ensures
        weight::<T>(i) <= weight::<T>(j),
{
    assert(T::width() * i <= T::width() * j) by (nonlinear_arith)
        requires
            i <= j,
    ;
    if T::width() * i < T::width() * j {
        lemma_pow2_strictly_increases(T::width() * i, T::width() * j);
    }
}

pub proof fn lemma_val_single<T: BitLike>(s: Seq<T>)
    requires
        s.len() == 1,
    ensures
        seq_val(s) == s[0].to_nat(),
{
    assert(s.drop_last() =~= Seq::<T>::empty());
    assert(seq_val(s.drop_last()) == 0);
    lemma_weight_zero::<T>();
    let x = s[0].to_nat();
    let w = weight::<T>(0);
    assert(x * w == x) by (nonlinear_arith)
        requires
            w == 1,
    ;
    assert(s.last() == s[0]);
}

pub proof fn lemma_val_push<T: BitLike>(s: Seq<T>, x: T)
    ensures
        seq_val(s.push(x)) == seq_val(s) + x.to_nat() * weight::<T>(s.len()),
{
    assert(s.push(x).drop_last() =~= s);
}

pub proof fn lemma_val_take<T: BitLike>(s: Seq<T>, i: int)
    requires
        0 <= i < s.len(),
    ensures
        seq_val(s.take(i + 1)) == seq_val(s.take(i)) + s[i].to_nat() * weight::<T>(i as nat),
{
    assert(s.take(i + 1) =~= s.take(i).push(s[i]));
    lemma_val_push(s.take(i), s[i]);
}

pub proof fn lemma_val_take_full<T: BitLike>(s: Seq<T>)
    ensures
        seq_val(s.take(s.len() as int)) == seq_val(s),
{
    assert(s.take(s.len() as int) =~= s);
}

pub proof fn lemma_val_bound<T: BitLike>(s: Seq<T>)
    ensures
        seq_val(s) < weight::<T>(s.len()),
    decreases s.len(),
{
    if s.len() == 0 {
        lemma_weight_zero::<T>();
    } else {
        let n = (s.len() - 1) as nat;
        lemma_val_bound(s.drop_last());
        T::lemma_limb(s.last());
        lemma_weight_succ::<T>(n);
        let w = weight::<T>(n);
        let b = pow2(T::width());
        let x = s.last().to_nat();
        assert(seq_val(s.drop_last()) + x * w < w * b) by (nonlinear_arith)
            requires
                seq_val(s.drop_last()) < w,
                x < b,
        ;
    }
}

pub proof fn lemma_val_concat<T: BitLike>(a: Seq<T>, b: Seq<T>)
    ensures
        seq_val(a + b) == seq_val(a) + seq_val(b) * weight::<T>(a.len()),
    decreases b.len(),
{
    if b.len() == 0 {
        assert(a + b =~= a);
    } else {
        let bl = b.drop_last();
        lemma_val_concat(a, bl);
        assert((a + b).drop_last() =~= a + bl);
        assert((a + b).last() == b.last());
        lemma_weight_adds::<T>(a.len(), bl.len());
        let wa = weight::<T>(a.len());
        let wb = weight::<T>(bl.len());
        let x = b.last().to_nat();
        assert((seq_val(bl) + x * wb) * wa == seq_val(bl) * wa + x * (wa * wb)) by (nonlinear_arith);
    }
}

pub proof fn lemma_val_zeros<T: BitLike>(s: Seq<T>)
    requires
        all_zero(s),
    ensures
        seq_val(s) == 0,
    decreases s.len(),
{
    if s.len() > 0 {
        lemma_val_zeros(s.drop_last());
    }
}

pub proof fn lemma_val_zero_implies<T: BitLike>(s: Seq<T>)
    requires
        seq_val(s) == 0,
    ensures
        all_zero(s),
    decreases s.len(),
{
    if s.len() > 0 {
        let n = (s.len() - 1) as nat;
        lemma_weight_pos::<T>(n);
        let w = weight::<T>(n);
        let x = s.last().to_nat();
        assert(x == 0) by (nonlinear_arith)
            requires
                x * w == 0,
                w > 0,
        ;
        lemma_val_zero_implies(s.drop_last());
        assert forall|i: int| 0 <= i < s.len() implies (#[trigger] s[i]).to_nat() == 0 by {
            if i < s.len() - 1 {
                assert(s.drop_last()[i] == s[i]);
            }
        }
    }
}

/// Appending zero limbs leaves the value unchanged.
pub proof fn lemma_val_extend_zeros<T: BitLike>(a: Seq<T>, z: Seq<T>)
    requires
        all_zero(z),
    ensures
        seq_val(a + z) == seq_val(a),
{
    lemma_val_concat(a, z);
    lemma_val_zeros(z);
}

/// Replacing one limb moves the value by the difference of the limbs, at that limb's weight.
pub proof fn lemma_val_update<T: BitLike>(s: Seq<T>, k: int, x: T)
    requires
        0 <= k < s.len(),
    ensures
        seq_val(s.update(k, x)) + s[k].to_nat() * weight::<T>(k as nat) == seq_val(s)
            + x.to_nat() * weight::<T>(k as nat),
{
    let lo = s.take(k);
    let hi = s.skip(k + 1);
    let t = s.update(k, x);
    assert(s =~= lo.push(s[k]) + hi);
    assert(t =~= lo.push(x) + hi);
    lemma_val_concat(lo.push(s[k]), hi);
    lemma_val_concat(lo.push(x), hi);
    lemma_val_push(lo, s[k]);
    lemma_val_push(lo, x);
}

/// Two sequences of equal length compare as their highest differing limb does.
pub proof fn lemma_val_lt_at<T: BitLike>(a: Seq<T>, b: Seq<T>, k: int)
    requires
        a.len() == b.len(),
        0 <= k < a.len(),
        forall|j: int| k < j < a.len() ==> (#[trigger] a[j]).to_nat() == b[j].to_nat(),
        a[k].to_nat() < b[k].to_nat(),
    ensures
        seq_val(a) < seq_val(b),
    decreases a.len(),
{
    let n = a.len() - 1;
    if k == n {
        lemma_val_bound(a.drop_last());
        let w = weight::<T>(n as nat);
        assert(seq_val(a.drop_last()) + a[n].to_nat() * w < seq_val(b.drop_last()) + b[n].to_nat()
            * w) by (nonlinear_arith)
            requires
                seq_val(a.drop_last()) < w,
                a[n].to_nat() < b[n].to_nat(),
        ;
    } else {
        assert forall|j: int| k < j < a.drop_last().len() implies (#[trigger] a.drop_last()[j]).to_nat()
            == b.drop_last()[j].to_nat() by {
            assert(a.drop_last()[j] == a[j]);
            assert(b.drop_last()[j] == b[j]);
        }
        lemma_val_lt_at(a.drop_last(), b.drop_last(), k);
    }
}

/// Sequences of equal length whose limbs agree have equal values.
pub proof fn lemma_val_eq<T: BitLike>(a: Seq<T>, b: Seq<T>)
    requires
        a.len() == b.len(),
        forall|j: int| 0 <= j < a.len() ==> (#[trigger] a[j]).to_nat() == b[j].to_nat(),
    ensures
        seq_val(a) == seq_val(b),
    decreases a.len(),
{
    if a.len() > 0 {
        assert forall|j: int| 0 <= j < a.drop_last().len() implies (#[trigger] a.drop_last()[j]).to_nat()
            == b.drop_last()[j].to_nat() by {
            assert(a.drop_last()[j] == a[j]);
            assert(b.drop_last()[j] == b[j]);
        }
        lemma_val_eq(a.drop_last(), b.drop_last());
    }
}

/// A sequence with a nonzero top limb is at least the weight of that limb.
pub proof fn lemma_val_top_nonzero<T: BitLike>(s: Seq<T>)
    requires
        s.len() >= 1,
        s.last().to_nat() != 0,
    ensures
        seq_val(s) >= weight::<T>((s.len() - 1) as nat),
{
    let w = weight::<T>((s.len() - 1) as nat);
    assert(s.last().to_nat() * w >= w) by (nonlinear_arith)
        requires
            s.last().to_nat() >= 1,
    ;
}

/// Bit `idx` of the sequence, read from the limb that holds it; bits past the end are clear.
pub open spec fn seq_bit<T: BitLike>(s: Seq<T>, idx: nat) -> bool {
    let k = idx / T::width();
    k < s.len() && nat_bit(s[k as int].to_nat(), idx % T::width())
}

pub proof fn lemma_split_at<T: BitLike>(s: Seq<T>, k: int)
    requires
        0 <= k < s.len(),
    ensures
        seq_val(s) == seq_val(s.take(k)) + weight::<T>(k as nat) * (s[k].to_nat() + seq_val(
            s.skip(k + 1),
        ) * pow2(T::width())),
        seq_val(s.take(k)) < weight::<T>(k as nat),
{
    let lo = s.take(k);
    let hi = s.skip(k + 1);
    assert(s =~= lo.push(s[k]) + hi);
    lemma_val_concat(lo.push(s[k]), hi);
    lemma_val_push(lo, s[k]);
    lemma_weight_succ::<T>(k as nat);
    lemma_val_bound(lo);
    let w = weight::<T>(k as nat);
    let b = pow2(T::width());
    let x = s[k].to_nat();
    let h = seq_val(hi);
    assert(seq_val(lo) + x * w + h * (w * b) == seq_val(lo) + w * (x + h * b)) by (nonlinear_arith);
}

/// Bit `idx` of the value of a sequence is bit `idx % width` of limb `idx / width`.
pub proof fn lemma_bit_of_val<T: BitLike>(s: Seq<T>, idx: nat)
    ensures
        nat_bit(seq_val(s), idx) == seq_bit(s, idx),
{
    let wd = T::width();
    T::lemma_width();
    let k = idx / wd;
    let r = idx % wd;
    lemma_fundamental_div_mod(idx as int, wd as int);
    assert(idx == wd * k + r);
    lemma_pow2_adds(wd * k, r);
    lemma_pow2_pos(r);
    lemma_weight_pos::<T>(k);
    if k < s.len() {
        lemma_split_at(s, k as int);
        let w = weight::<T>(k);
        let x = s[k as int].to_nat();
        let h = seq_val(s.skip(k as int + 1));
        let m = x + h * pow2(wd);
        let v = seq_val(s);
        lemma_div_multiples_vanish_fancy(m as int, seq_val(s.take(k as int)) as int, w as int);
        assert(v / w == m);
        lemma_div_denominator(v as int, w as int, pow2(r) as int);
        assert(v / pow2(idx) == m / pow2(r));
        lemma_pow2_adds(r, (wd - r) as nat);
        let c = pow2((wd - r - 1) as nat);
        lemma_pow2_unfold((wd - r) as nat);
        assert(pow2(wd) == pow2(r) * (2 * c));
        lemma_fundamental_div_mod(x as int, pow2(r) as int);
        let q = x / pow2(r);
        assert(m == pow2(r) * (h * 2 * c + q) + x % pow2(r)) by (nonlinear_arith)
            requires
                m == x + h * pow2(wd),
                pow2(wd) == pow2(r) * (2 * c),
                x == pow2(r) * q + x % pow2(r),
        ;
        lemma_mod_bound(x as int, pow2(r) as int);
        lemma_fundamental_div_mod_converse(m as int, pow2(r) as int, (h * 2 * c + q) as int, (x % pow2(
            r)) as int);
        assert(m / pow2(r) == 2 * (h * c) + q) by (nonlinear_arith)
            requires
                m / pow2(r) == h * 2 * c + q,
        ;
        lemma_mod_multiples_vanish((h * c) as int, q as int, 2);
    } else {
        lemma_val_bound(s);
        lemma_weight_mono::<T>(s.len(), k);
        assert(pow2(idx) >= weight::<T>(k)) by (nonlinear_arith)
            requires
                pow2(idx) == weight::<T>(k) * pow2(r),
                pow2(r) > 0,
                weight::<T>(k) > 0,
        ;
        lemma_basic_div(seq_val(s) as int, pow2(idx) as int);
    }
}

/// Setting limb `k` to `x` changes the value by the limb difference at weight `k`; a change of
/// a single bit `r` of that limb is a change of `2^(width * k + r)`.
pub proof fn lemma_val_set_bit<T: BitLike>(s: Seq<T>, k: int, r: nat, x: T)
    requires
        0 <= k < s.len(),
        r < T::width(),
        x.to_nat() == if nat_bit(s[k].to_nat(), r) {
            s[k].to_nat() - pow2(r)
        } else {
            s[k].to_nat() + pow2(r) as int
        },
    ensures
        seq_val(s.update(k, x)) == if seq_bit(s, T::width() * k as nat + r) {
            seq_val(s) - pow2(T::width() * k as nat + r)
        } else {
            seq_val(s) + pow2(T::width() * k as nat + r) as int
        },
{
    let wd = T::width();
    T::lemma_width();
    let idx = wd * k as nat + r;
    assert(idx == k * wd + r) by (nonlinear_arith)
        requires
            idx == wd * k as nat + r,
            k >= 0,
    ;
    lemma_fundamental_div_mod_converse(idx as int, wd as int, k, r as int);
    lemma_val_update(s, k, x);
    lemma_pow2_adds(wd * k as nat, r);
    let w = weight::<T>(k as nat);
    let p = pow2(r);
    let y = s[k].to_nat();
    if nat_bit(y, r) {
        assert((y - p) * w == y * w - p * w) by (nonlinear_arith);
    } else {
        assert((y + p) * w == y * w + p * w) by (nonlinear_arith);
    }
}

} // verus!
