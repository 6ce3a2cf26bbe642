//! Element-wise (limb at a time) algorithms on slices of limbs: comparison, addition with carry,
//! subtraction with borrow, and long multiplication.
use vstd::prelude::*;
use vstd::arithmetic::power2::{pow2, lemma_pow2_unfold, lemma_pow2_pos};
use crate::limb::BitLike;
use crate::bit_slice::BitSliceExt;
use core::cmp::Ordering;
use crate::limbs::{seq_val, weight, all_zero, is_normalized, lemma_val_push, lemma_val_bound, lemma_weight_succ, lemma_weight_mono, lemma_weight_adds, lemma_val_extend_zeros, lemma_val_take, lemma_val_take_full, lemma_val_lt_at, lemma_val_eq, lemma_val_zeros, lemma_val_top_nonzero, lemma_val_update, lemma_weight_zero};

verus! {

/// `s` followed by zero limbs up to length `n`.
pub open spec fn pad<B: BitLike>(s: Seq<B>, n: nat) -> Seq<B> {
    s + Seq::new((n - s.len()) as nat, |i: int| B::spec_zero())
}

/// Limb `i` of `s`, or zero past its end.
pub open spec fn digit<B: BitLike>(s: Seq<B>, i: int) -> nat {
    if 0 <= i < s.len() {
        s[i].to_nat()
    } else {
        0
    }
}

pub proof fn lemma_pad<B: BitLike>(s: Seq<B>, n: nat)
    requires
        s.len() <= n,
    ensures
        pad(s, n).len() == n,
        seq_val(pad(s, n)) == seq_val(s),
        forall|i: int| 0 <= i < n ==> (#[trigger] pad(s, n)[i]).to_nat() == digit(s, i),
{
    B::lemma_spec_zero();
    let z = Seq::new((n - s.len()) as nat, |i: int| B::spec_zero());
    assert(all_zero(z));
    lemma_val_extend_zeros(s, z);
}

/// A vector of `n` zero limbs.
pub fn zero_vec<B: BitLike>(n: usize) -> (r: Vec<B>)
    ensures
        r@.len() == n,
        all_zero(r@),
        seq_val(r@) == 0,
{
    let mut v: Vec<B> = Vec::new();
    let mut i: usize = 0;
    while i < n
        invariant
            i <= n,
            v@.len() == i,
            all_zero(v@),
        decreases n - i,
    {
        v.push(B::zero());
        i += 1;
    }
    proof {
        lemma_val_zeros(v@);
    }
    v
}

/// Remove zero limbs from the top, keeping at least one limb.
pub fn shrink_vec<B: BitLike>(val: Vec<B>) -> (r: Vec<B>)
    ensures
        seq_val(r@) == seq_val(val@),
        val@.len() >= 1 ==> is_normalized(r@),
        r@.len() <= val@.len(),
        r@ == val@.take(r@.len() as int),
{
    let mut val = val;
    let ghost orig = val@;
    while val.len() > 1 && val[val.len() - 1].limb_eq(B::zero())
        invariant
            seq_val(val@) == seq_val(orig),
            val@.len() <= orig.len(),
            val@ == orig.take(val@.len() as int),
            orig.len() >= 1 ==> val@.len() >= 1,
        decreases val@.len(),
    {
        let ghost before = val@;
        val.pop();
        proof {
            assert(before =~= val@.push(before.last()));
            lemma_val_push(val@, before.last());
        }
    }
    val
}

/// The part of `val` below its top zero limbs, keeping at least one limb.
pub fn shrink_slice<B: BitLike>(val: &[B]) -> (r: &[B])
    requires
        val@.len() >= 1,
    ensures
        seq_val(r@) == seq_val(val@),
        is_normalized(r@),
        r@ == val@.take(r@.len() as int),
        r@.len() <= val@.len(),
{
    let mut n = val.len();
    proof {
        lemma_val_take_full(val@);
    }
    while n > 1 && val[n - 1].limb_eq(B::zero())
        invariant
            1 <= n <= val@.len(),
            seq_val(val@.take(n as int)) == seq_val(val@),
        decreases n,
    {
        proof {
            lemma_val_take(val@, n - 1);
            assert(val@.take(n as int) =~= val@.take(n as int));
            assert(val@[n - 1].to_nat() == 0);
            let x = val@[n - 1].to_nat();
            let w = weight::<B>((n - 1) as nat);
            assert(x * w == 0) by (nonlinear_arith)
                requires
                    x == 0,
            ;
        }
        n -= 1;
    }
    let r = &val[0..n];
    proof {
        assert(r@ =~= val@.take(n as int));
    }
    r
}

/// Add `val` into `s` at element `idx`, carrying upward. Returns whether a carry ran off the top.
/// Does nothing when `idx` is past the end.
pub fn add_item<B: BitLike>(s: &mut Vec<B>, idx: usize, val: B) -> (carry: bool)
    ensures
        final(s)@.len() == old(s)@.len(),
        idx < old(s)@.len() ==> seq_val(final(s)@) + (if carry { weight::<B>(old(s)@.len()) } else {
            0
        }) == seq_val(old(s)@) + val.to_nat() * weight::<B>(idx as nat),
        idx >= old(s)@.len() ==> final(s)@ == old(s)@ && !carry,
{
    let mut i = idx;
    let mut v = val;
    let mut carry = false;
    let n = s.len();
    let ghost start = s@;
    if idx >= n {
        return false;
    }
    proof {
        lemma_val_bound(s@);
    }
    while i < n
        invariant
            idx <= i <= n,
            n == s@.len(),
            n == start.len(),
            idx < n,
            start == old(s)@,
            seq_val(s@) + v.to_nat() * weight::<B>(i as nat) == seq_val(start) + val.to_nat()
                * weight::<B>(idx as nat),
            i > idx ==> v.to_nat() == 1 && carry,
            i == idx ==> v == val,
        decreases n - i,
    {
        let cur = s[i];
        let (new, c) = cur.overflowing_add(v);
        let ghost before = s@;
        proof {
            lemma_val_update(s@, i as int, new);
            lemma_weight_succ::<B>(i as nat);
        }
        s[i] = new;
        proof {
            let w = weight::<B>(i as nat);
            let b = pow2(B::width());
            let cn: int = if c { 1 } else { 0 };
            assert(new.to_nat() + cn * b == cur.to_nat() + v.to_nat());
            assert(seq_val(s@) + cur.to_nat() * w == seq_val(before) + new.to_nat() * w);
            assert(seq_val(s@) + cn * (w * b) == seq_val(before) + v.to_nat() * w) by (nonlinear_arith)
                requires
                    new.to_nat() + cn * b == cur.to_nat() + v.to_nat(),
                    seq_val(s@) + cur.to_nat() * w == seq_val(before) + new.to_nat() * w,
            ;
            if !c {
                assert(cn * (w * b) == 0);
            } else {
                assert(cn * (w * b) == w * b);
                assert(1 * (w * b) == w * b);
            }
        }
        i += 1;
        if !c {
            return false;
        } else {
            v = B::one();
            carry = true;
        }
    }
    proof {
        assert(i == n);
    }
    carry
}

/// The order of two natural numbers.
pub open spec fn ordering_of(x: nat, y: nat) -> Ordering {
    if x < y {
        Ordering::Less
    } else if x == y {
        Ordering::Equal
    } else {
        Ordering::Greater
    }
}

/// Equal digits above `i` and a smaller digit at `i` make a smaller value.
proof fn lemma_digits_lt<B: BitLike>(a: Seq<B>, b: Seq<B>, n: usize, i: usize)
    requires
        a.len() <= n,
        b.len() <= n,
        i < n,
        forall|j: int| i < j < n ==> digit(a, j) == digit(b, j),
        digit(a, i as int) < digit(b, i as int),
    ensures
        seq_val(a) < seq_val(b),
{
    lemma_pad(a, n as nat);
    lemma_pad(b, n as nat);
    let pa = pad(a, n as nat);
    let pb = pad(b, n as nat);
    assert forall|j: int| i < j < pa.len() implies (#[trigger] pa[j]).to_nat() == pb[j].to_nat() by {
    }
    lemma_val_lt_at(pa, pb, i as int);
}

/// Equal digits everywhere make equal values.
proof fn lemma_digits_eq<B: BitLike>(a: Seq<B>, b: Seq<B>, n: usize)
    requires
        a.len() <= n,
        b.len() <= n,
        forall|j: int| 0 <= j < n ==> digit(a, j) == digit(b, j),
    ensures
        seq_val(a) == seq_val(b),
{
    lemma_pad(a, n as nat);
    lemma_pad(b, n as nat);
    let pa = pad(a, n as nat);
    let pb = pad(b, n as nat);
    assert forall|j: int| 0 <= j < pa.len() implies (#[trigger] pa[j]).to_nat() == pb[j].to_nat() by {
    }
    lemma_val_eq(pa, pb);
}

/// Limb `i` of `s`, or zero past its end.
fn digit_at<B: BitLike>(s: &[B], i: usize) -> (r: B)
    ensures
        r.to_nat() == digit(s@, i as int),
{
    if i < s.len() {
        s[i]
    } else {
        B::zero()
    }
}

/// Compare the values of two limb slices, which may differ in length.
pub fn cmp_values<B: BitLike>(a: &[B], b: &[B]) -> (r: Ordering)
    ensures
        r == ordering_of(seq_val(a@), seq_val(b@)),
{
    let n: usize = if a.len() >= b.len() {
        a.len()
    } else {
        b.len()
    };
    let mut i: usize = n;
    while i > 0
        invariant
            i <= n,
            a@.len() <= n,
            b@.len() <= n,
            forall|j: int| i <= j < n ==> digit(a@, j) == digit(b@, j),
        decreases i,
    {
        i -= 1;
        let x = digit_at(a, i);
        let y = digit_at(b, i);
        if x.limb_lt(y) {
            proof {
                lemma_digits_lt(a@, b@, n, i);
            }
            return Ordering::Less;
        } else if y.limb_lt(x) {
            proof {
                lemma_digits_lt(b@, a@, n, i);
            }
            return Ordering::Greater;
        }
    }
    proof {
        lemma_digits_eq(a@, b@, n);
    }
    Ordering::Equal
}

/// Do `a` and `b` hold the same value?
pub fn equal_values<B: BitLike>(a: &[B], b: &[B]) -> (r: bool)
    ensures
        r == (seq_val(a@) == seq_val(b@)),
{
    match cmp_values(a, b) {
        Ordering::Equal => true,
        _ => false,
    }
}

/// Is the value of `a` below the value of `b`?
pub fn less_values<B: BitLike>(a: &[B], b: &[B]) -> (r: bool)
    ensures
        r == (seq_val(a@) < seq_val(b@)),
{
    match cmp_values(a, b) {
        Ordering::Less => true,
        _ => false,
    }
}

/// One step of a running sum: appending limb `x` with weight `w` while the carry moves up.
proof fn lemma_carry_step(out: nat, x: nat, w: nat, b: nat, cin: int, cout: int, l: nat, r: nat,
    acc_l: nat, acc_r: nat)
    requires
        out + cin * w == acc_l + acc_r,
        x + cout * b == l + r + cin,
    ensures
        (out + x * w) + cout * (w * b) == (acc_l + l * w) + (acc_r + r * w),
{
    assert((x + cout * b) * w == (l + r + cin) * w);
    assert((out + x * w) + cout * (w * b) == (acc_l + l * w) + (acc_r + r * w)) by (nonlinear_arith)
        requires
            out + cin * w == acc_l + acc_r,
            (x + cout * b) * w == (l + r + cin) * w,
    ;
}

/// Add two slices, implemented as element-wise add and carry. The result has no zero limbs on top.
pub fn add_values<B: BitLike>(a: &[B], b: &[B]) -> (r: Vec<B>)
    requires
        a@.len() < usize::MAX,
        b@.len() < usize::MAX,
    ensures
        seq_val(r@) == seq_val(a@) + seq_val(b@),
        is_normalized(r@),
{
    let len: usize = if a.len() >= b.len() {
        a.len()
    } else {
        b.len()
    };
    let ghost pa = pad(a@, (len + 1) as nat);
    let ghost pb = pad(b@, (len + 1) as nat);
    proof {
        lemma_pad(a@, (len + 1) as nat);
        lemma_pad(b@, (len + 1) as nat);
        lemma_weight_zero::<B>();
        assert(pa.take(0) =~= Seq::<B>::empty());
        assert(pb.take(0) =~= Seq::<B>::empty());
    }
    let mut out: Vec<B> = Vec::new();
    let mut carry = false;
    let mut idx: usize = 0;
    while idx < len + 1
        invariant
            idx <= len + 1,
            len < usize::MAX,
            len == if a@.len() >= b@.len() { a@.len() } else { b@.len() },
            pa == pad(a@, (len + 1) as nat),
            pb == pad(b@, (len + 1) as nat),
            pa.len() == len + 1,
            pb.len() == len + 1,
            forall|i: int| 0 <= i < len + 1 ==> (#[trigger] pa[i]).to_nat() == digit(a@, i),
            forall|i: int| 0 <= i < len + 1 ==> (#[trigger] pb[i]).to_nat() == digit(b@, i),
            out@.len() == idx,
            seq_val(out@) + (if carry { weight::<B>(idx as nat) } else { 0 }) == seq_val(
                pa.take(idx as int),
            ) + seq_val(pb.take(idx as int)),
        decreases len + 1 - idx,
    {
        let l = digit_at(a, idx);
        let r = digit_at(b, idx);
        let extra = if carry {
            B::one()
        } else {
            B::zero()
        };
        let (res, c1) = l.overflowing_add(r);
        let (res2, c2) = res.overflowing_add(extra);
        proof {
            B::lemma_limb(l);
            B::lemma_limb(r);
            B::lemma_width();
            vstd::arithmetic::power2::lemma2_to64();
            vstd::arithmetic::power2::lemma_pow2_strictly_increases(1, B::width());
            assert(!(c1 && c2));
            let w = weight::<B>(idx as nat);
            let cin: int = if carry { 1 } else { 0 };
            let cout: int = if c1 || c2 { 1 } else { 0 };
            assert(cin * w == (if carry { w } else { 0 })) by (nonlinear_arith)
                requires cin == (if carry { 1int } else { 0 }),
            ;
            lemma_carry_step(seq_val(out@), res2.to_nat(), w, pow2(B::width()), cin, cout,
                l.to_nat(), r.to_nat(), seq_val(pa.take(idx as int)), seq_val(pb.take(idx as int)));
            lemma_val_push(out@, res2);
            lemma_val_take(pa, idx as int);
            lemma_val_take(pb, idx as int);
            lemma_weight_succ::<B>(idx as nat);
            assert(cout * (w * pow2(B::width())) == (if c1 || c2 { weight::<B>((idx + 1) as nat) } else { 0 })) by (nonlinear_arith)
                requires
                    cout == (if c1 || c2 { 1int } else { 0 }),
                    weight::<B>((idx + 1) as nat) == w * pow2(B::width()),
            ;
        }
        carry = c1 || c2;
        out.push(res2);
        idx += 1;
    }
    proof {
        lemma_val_take_full(pa);
        lemma_val_take_full(pb);
        lemma_val_bound(a@);
        lemma_val_bound(b@);
        lemma_weight_mono::<B>(a@.len(), len as nat);
        lemma_weight_mono::<B>(b@.len(), len as nat);
        lemma_weight_succ::<B>(len as nat);
        B::lemma_width();
        vstd::arithmetic::power2::lemma2_to64();
        vstd::arithmetic::power2::lemma_pow2_strictly_increases(1, B::width());
        let w = weight::<B>(len as nat);
        assert(w * pow2(B::width()) >= 2 * w) by (nonlinear_arith)
            requires
                pow2(B::width()) >= 2,
        ;
    }
    shrink_vec(out)
}

proof fn lemma_borrow_step(out: nat, x: nat, w: nat, b: nat, bin: int, bout: int, l: nat, r: nat,
    acc_l: nat, acc_r: nat)
    requires
        out - bin * w == acc_l - acc_r,
        x - bout * b == l - r - bin,
    ensures
        (out + x * w) - bout * (w * b) == (acc_l + l * w) - (acc_r + r * w),
{
    assert((x - bout * b) * w == (l - r - bin) * w);
    assert((out + x * w) - bout * (w * b) == (acc_l + l * w) - (acc_r + r * w)) by (nonlinear_arith)
        requires
            out - bin * w == acc_l - acc_r,
            (x - bout * b) * w == (l - r - bin) * w,
    ;
}

/// `x - y` for `x >= y`, element-wise with borrow. The result is as long as the longer input.
pub fn sub_raw<B: BitLike>(x: &[B], y: &[B]) -> (r: Vec<B>)
    requires
        seq_val(x@) >= seq_val(y@),
    ensures
        seq_val(r@) == seq_val(x@) - seq_val(y@),
        r@.len() == if x@.len() >= y@.len() { x@.len() } else { y@.len() },
{
    let len: usize = if x.len() >= y.len() {
        x.len()
    } else {
        y.len()
    };
    let ghost pa = pad(x@, len as nat);
    let ghost pb = pad(y@, len as nat);
    proof {
        lemma_pad(x@, len as nat);
        lemma_pad(y@, len as nat);
        lemma_weight_zero::<B>();
        assert(pa.take(0) =~= Seq::<B>::empty());
        assert(pb.take(0) =~= Seq::<B>::empty());
    }
    let mut out: Vec<B> = Vec::new();
    let mut borrow = false;
    let mut idx: usize = 0;
    while idx < len
        invariant
            idx <= len,
            len == if x@.len() >= y@.len() { x@.len() } else { y@.len() },
            pa == pad(x@, len as nat),
            pb == pad(y@, len as nat),
            pa.len() == len,
            pb.len() == len,
            forall|i: int| 0 <= i < len ==> (#[trigger] pa[i]).to_nat() == digit(x@, i),
            forall|i: int| 0 <= i < len ==> (#[trigger] pb[i]).to_nat() == digit(y@, i),
            out@.len() == idx,
            seq_val(out@) - (if borrow { weight::<B>(idx as nat) } else { 0 }) == seq_val(
                pa.take(idx as int),
            ) - seq_val(pb.take(idx as int)),
        decreases len - idx,
    {
        let l = digit_at(x, idx);
        let r = digit_at(y, idx);
        let extra = if borrow {
            B::one()
        } else {
            B::zero()
        };
        let (res, b1) = l.overflowing_sub(r);
        let (res2, b2) = res.overflowing_sub(extra);
        proof {
            B::lemma_limb(l);
            B::lemma_limb(r);
            B::lemma_width();
            vstd::arithmetic::power2::lemma2_to64();
            vstd::arithmetic::power2::lemma_pow2_strictly_increases(1, B::width());
            assert(!(b1 && b2));
            let w = weight::<B>(idx as nat);
            let bin: int = if borrow { 1 } else { 0 };
            let bout: int = if b1 || b2 { 1 } else { 0 };
            assert(bin * w == (if borrow { w } else { 0 })) by (nonlinear_arith)
                requires bin == (if borrow { 1int } else { 0 }),
            ;
            lemma_borrow_step(seq_val(out@), res2.to_nat(), w, pow2(B::width()), bin, bout,
                l.to_nat(), r.to_nat(), seq_val(pa.take(idx as int)), seq_val(pb.take(idx as int)));
            lemma_val_push(out@, res2);
            lemma_val_take(pa, idx as int);
            lemma_val_take(pb, idx as int);
            lemma_weight_succ::<B>(idx as nat);
            assert(bout * (w * pow2(B::width())) == (if b1 || b2 { weight::<B>((idx + 1) as nat) } else { 0 })) by (nonlinear_arith)
                requires
                    bout == (if b1 || b2 { 1int } else { 0 }),
                    weight::<B>((idx + 1) as nat) == w * pow2(B::width()),
            ;
        }
        borrow = b1 || b2;
        out.push(res2);
        idx += 1;
    }
    proof {
        lemma_val_take_full(pa);
        lemma_val_take_full(pb);
        lemma_val_bound(out@);
    }
    out
}

/// Subtract two slices, element-wise. Returns the magnitude of the difference, with no zero limbs
/// on top, and whether `b` exceeded `a`.
pub fn sub_values<B: BitLike>(a: &[B], b: &[B]) -> (r: (Vec<B>, bool))
    ensures
        r.1 == (seq_val(a@) < seq_val(b@)),
        seq_val(r.0@) == if r.1 {
            seq_val(b@) - seq_val(a@)
        } else {
            seq_val(a@) - seq_val(b@)
        },
        (a@.len() >= 1 || b@.len() >= 1) ==> is_normalized(r.0@),
{
    if less_values(a, b) {
        (shrink_vec(sub_raw(b, a)), true)
    } else {
        (shrink_vec(sub_raw(a, b)), false)
    }
}

/// Multiply two slices, implemented as long multiplication of elements. The result has no zero
/// limbs on top when either input is nonempty.
pub fn mul_values<B: BitLike>(a: &[B], b: &[B]) -> (r: Vec<B>)
    requires
        a@.len() + b@.len() <= usize::MAX,
    ensures
        seq_val(r@) == seq_val(a@) * seq_val(b@),
        a@.len() + b@.len() >= 1 ==> is_normalized(r@),
{
    let la = a.len();
    let lb = b.len();
    let mut out: Vec<B> = zero_vec(la + lb);
    let mut idx: usize = 0;
    proof {
        lemma_weight_zero::<B>();
        assert(a@.take(0) =~= Seq::<B>::empty());
        lemma_val_bound(b@);
        let pb = seq_val(b@);
        assert(0 * pb == 0) by (nonlinear_arith);
    }
    while idx < la
        invariant
            idx <= la,
            la == a@.len(),
            lb == b@.len(),
            la + lb <= usize::MAX,
            out@.len() == la + lb,
            seq_val(out@) == seq_val(a@.take(idx as int)) * seq_val(b@),
            seq_val(b@) < weight::<B>(lb as nat),
        decreases la - idx,
    {
        let l = a[idx];
        let mut carry = B::zero();
        let mut off: usize = 0;
        let ghost base_val = seq_val(out@);
        proof {
            lemma_weight_zero::<B>();
            assert(b@.take(0) =~= Seq::<B>::empty());
            lemma_val_take(a@, idx as int);
            lemma_val_bound(a@.take(idx as int + 1));
            lemma_weight_adds::<B>((idx + 1) as nat, lb as nat);
            lemma_weight_mono::<B>((idx + 1 + lb) as nat, (la + lb) as nat);
            let pa = seq_val(a@.take(idx as int));
            let pb = seq_val(b@);
            let w = weight::<B>(idx as nat);
            assert(pa * pb + l.to_nat() * w * 0 == pa * pb) by (nonlinear_arith);
            let x = seq_val(a@.take(idx as int + 1));
            let xx = weight::<B>((idx + 1) as nat);
            let yy = weight::<B>(lb as nat);
            assert(x * pb < xx * yy) by (nonlinear_arith)
                requires
                    x < xx,
                    pb < yy,
            ;
        }
        while off < lb
            invariant
                idx < la,
                la == a@.len(),
                lb == b@.len(),
                la + lb <= usize::MAX,
                off <= lb,
                l == a@[idx as int],
                out@.len() == la + lb,
                base_val == seq_val(a@.take(idx as int)) * seq_val(b@),
                seq_val(out@) + carry.to_nat() * weight::<B>((idx + off) as nat) == base_val
                    + l.to_nat() * weight::<B>(idx as nat) * seq_val(b@.take(off as int)),
                seq_val(a@.take(idx as int + 1)) * seq_val(b@) < weight::<B>((la + lb) as nat),
                seq_val(a@.take(idx as int + 1)) == seq_val(a@.take(idx as int)) + l.to_nat()
                    * weight::<B>(idx as nat),
                seq_val(b@) < weight::<B>(lb as nat),
            decreases lb - off,
        {
            let r = b[off];
            let (low, high) = B::widening_mul(l, r, carry);
            let ghost before = seq_val(out@);
            let ghost w_io = weight::<B>((idx + off) as nat);
            let ghost w_i = weight::<B>(idx as nat);
            let ghost w_o = weight::<B>(off as nat);
            let ghost bb = pow2(B::width());
            let ghost pbo = seq_val(b@.take(off as int));
            let ghost pbo1 = seq_val(b@.take(off as int + 1));
            proof {
                lemma_weight_adds::<B>(idx as nat, off as nat);
                lemma_weight_succ::<B>((idx + off) as nat);
                lemma_val_take(b@, off as int);
                // the new running total is bounded by the final product
                lemma_val_bound(b@.take(off as int + 1));
                assert(pbo1 <= seq_val(b@)) by {
                    lemma_val_prefix_le(b@, off as int + 1);
                }
                assert(base_val + l.to_nat() * w_i * pbo1 <= seq_val(a@.take(idx as int + 1)) * seq_val(b@))
                    by (nonlinear_arith)
                    requires
                        base_val == seq_val(a@.take(idx as int)) * seq_val(b@),
                        seq_val(a@.take(idx as int + 1)) == seq_val(a@.take(idx as int)) + l.to_nat() * w_i,
                        pbo1 <= seq_val(b@),
                ;
                let ll = l.to_nat();
                let rr = r.to_nat();
                let cc = carry.to_nat();
                let lo = low.to_nat();
                let hi = high.to_nat();
                assert((lo + hi * bb) * w_io == lo * w_io + hi * (w_io * bb)) by (nonlinear_arith);
                assert((ll * rr + cc) * w_io == ll * rr * w_io + cc * w_io) by (nonlinear_arith);
                assert(ll * rr * w_io == ll * w_i * (rr * w_o)) by (nonlinear_arith)
                    requires
                        w_io == w_i * w_o,
                ;
                assert(ll * w_i * pbo + ll * w_i * (rr * w_o) == ll * w_i * (pbo + rr * w_o)) by (nonlinear_arith);
                assert(before + lo * w_io + hi * (w_io * bb) == base_val + ll * w_i * pbo1);
                assert(hi * (w_io * bb) >= 0) by (nonlinear_arith);
                lemma_weight_mono::<B>((idx + off) as nat, (la + lb) as nat);
            }
            let c = add_item(&mut out, idx + off, low);
            proof {
                assert(!c);
            }
            carry = high;
            off += 1;
            proof {
                assert(weight::<B>((idx + off) as nat) == w_io * bb);
            }
        }
        proof {
            assert(b@.take(lb as int) =~= b@);
            let pa = seq_val(a@.take(idx as int));
            let pb = seq_val(b@);
            let w = weight::<B>(idx as nat);
            assert(pa * pb + l.to_nat() * w * pb == (pa + l.to_nat() * w) * pb) by (nonlinear_arith);
            assert(seq_val(out@) + carry.to_nat() * weight::<B>((idx + lb) as nat) < weight::<B>((la + lb) as nat));
        }
        if !carry.limb_eq(B::zero()) {
            proof {
                lemma_val_take_full(b@);
                assert(b@.take(lb as int) =~= b@);
                lemma_weight_mono::<B>((idx + lb) as nat, (la + lb) as nat);
                let w = weight::<B>((idx + lb) as nat);
                assert(carry.to_nat() * w >= 0) by (nonlinear_arith);
            }
            let c = add_item(&mut out, idx + lb, carry);
            proof {
                assert(!c);
            }
        } else {
            proof {
                let w = weight::<B>((idx + lb) as nat);
                assert(carry.to_nat() * w == 0) by (nonlinear_arith)
                    requires
                        carry.to_nat() == 0,
                ;
            }
        }
        proof {
            assert(b@.take(lb as int) =~= b@);
            let pa = seq_val(a@.take(idx as int));
            let pb = seq_val(b@);
            let w = weight::<B>(idx as nat);
            assert(pa * pb + l.to_nat() * w * pb == (pa + l.to_nat() * w) * pb) by (nonlinear_arith);
        }
        idx += 1;
    }
    proof {
        lemma_val_take_full(a@);
    }
    shrink_vec(out)
}

/// A prefix is worth no more than the whole.
pub proof fn lemma_val_prefix_le<B: BitLike>(s: Seq<B>, k: int)
    requires
        0 <= k <= s.len(),
    ensures
        seq_val(s.take(k)) <= seq_val(s),
{
    let lo = s.take(k);
    let hi = s.skip(k);
    assert(s =~= lo + hi);
    crate::limbs::lemma_val_concat(lo, hi);
    let w = weight::<B>(lo.len());
    assert(seq_val(hi) * w >= 0) by (nonlinear_arith);
}

/// A normalized sequence whose value is below `weight(n)`, `n >= 1`, has at most `n` limbs.
pub proof fn lemma_normalized_short<B: BitLike>(s: Seq<B>, n: nat)
    requires
        is_normalized(s),
        n >= 1,
        seq_val(s) < weight::<B>(n),
    ensures
        s.len() <= n,
{
    if s.len() > n {
        lemma_val_top_nonzero(s);
        lemma_weight_mono::<B>(n, (s.len() - 1) as nat);
    }
}

/// `weight(n)` is even for `n >= 1`, and `weight(n + 1) >= 2 * weight(n)`.
pub proof fn lemma_weight_even<B: BitLike>(n: nat)
    ensures
        n >= 1 ==> weight::<B>(n) % 2 == 0,
        weight::<B>(n + 1) >= 2 * weight::<B>(n),
{
    B::lemma_width();
    lemma_weight_succ::<B>(n);
    vstd::arithmetic::power2::lemma2_to64();
    vstd::arithmetic::power2::lemma_pow2_strictly_increases(1, B::width());
    let w = weight::<B>(n);
    assert(w * pow2(B::width()) >= 2 * w) by (nonlinear_arith)
        requires
            pow2(B::width()) >= 2,
    ;
    if n >= 1 {
        assert(B::width() * n >= 1) by (nonlinear_arith)
            requires
                B::width() >= 8,
                n >= 1,
        ;
        vstd::arithmetic::power2::lemma_pow2_unfold(B::width() * n);
        vstd::arithmetic::div_mod::lemma_mod_multiples_basic(
            pow2((B::width() * n - 1) as nat) as int,
            2,
        );
    }
}

/// `2 * v + bit`, for a normalized `v`.
fn double_plus<B: BitLike>(v: &Vec<B>, bit: bool) -> (r: Vec<B>)
    requires
        is_normalized(v@),
        v@.len() < usize::MAX,
    ensures
        seq_val(r@) == 2 * seq_val(v@) + (if bit { 1int } else { 0 }),
        is_normalized(r@),
{
    let mut d = add_values(v.as_slice(), v.as_slice());
    if bit {
        proof {
            lemma_val_bound(d@);
            lemma_weight_even::<B>(d@.len() as nat);
        }
        let one = B::one();
        let c = add_item(&mut d, 0, one);
        proof {
            lemma_weight_zero::<B>();
            assert(!c);
        }
        shrink_vec(d)
    } else {
        d
    }
}

/// Long division of the values, bit by bit. For a zero divisor the quotient has every bit set
/// and the remainder is the numerator.
pub fn div_rem_values<B: BitLike>(num: &[B], div: &[B]) -> (r: (Vec<B>, Vec<B>))
    requires
        num@.len() + 2 < usize::MAX,
        div@.len() + 2 < usize::MAX,
        (if num@.len() >= div@.len() { num@.len() } else { div@.len() }) * B::width() <= usize::MAX,
    ensures
        r.0@.len() == if num@.len() >= div@.len() { num@.len() } else { div@.len() },
        seq_val(div@) > 0 ==> seq_val(r.0@) == seq_val(num@) / seq_val(div@),
        seq_val(div@) > 0 ==> seq_val(r.1@) == seq_val(num@) % seq_val(div@),
        seq_val(div@) == 0 ==> seq_val(r.0@) == pow2(r.0@.len() * B::width()) - 1,
        seq_val(div@) == 0 ==> seq_val(r.1@) == seq_val(num@),
        is_normalized(r.1@),
{
    let len: usize = if num.len() >= div.len() {
        num.len()
    } else {
        div.len()
    };
    let bl: usize = len * B::bit_len();
    let mut quotient: Vec<B> = zero_vec(len);
    let mut rem: Vec<B> = zero_vec(1);
    let mut i: usize = bl;
    let ghost mut qh: nat = 0;
    proof {
        lemma_weight_zero::<B>();
        lemma_val_bound(num@);
        lemma_weight_mono::<B>(num@.len(), len as nat);
        lemma_val_bound(div@);
        lemma_weight_mono::<B>(div@.len(), len as nat);
        B::lemma_width();
        assert(bl == B::width() * len) by (nonlinear_arith)
            requires
                bl == len * B::width(),
        ;
        vstd::arithmetic::div_mod::lemma_basic_div(seq_val(num@) as int, pow2(bl as nat) as int);
        assert(0 * pow2(bl as nat) == 0) by (nonlinear_arith);
        let dv = seq_val(div@);
        assert(dv * 0 == 0) by (nonlinear_arith);
        vstd::arithmetic::power2::lemma2_to64();
    }
    while i > 0
        invariant
            i <= bl,
            bl == len * B::width(),
            len == if num@.len() >= div@.len() { num@.len() } else { div@.len() },
            len + 2 < usize::MAX,
            quotient@.len() == len,
            is_normalized(rem@),
            seq_val(rem@) < weight::<B>(len as nat),
            seq_val(num@) < weight::<B>(len as nat),
            seq_val(div@) < weight::<B>(len as nat),
            seq_val(quotient@) == qh * pow2(i as nat),
            seq_val(rem@) + seq_val(div@) * qh == seq_val(num@) / pow2(i as nat),
            seq_val(div@) > 0 ==> seq_val(rem@) < seq_val(div@),
            seq_val(div@) == 0 ==> qh == pow2((bl - i) as nat) - 1,
        decreases i,
    {
        i -= 1;
        let bit = match BitSliceExt::get_bit_opt(num, i) {
            Some(b) => b,
            None => false,
        };
        proof {
            B::lemma_width();
            lemma_normalized_short(rem@, len as nat);
        }
        let r2 = double_plus(&rem, bit);
        let ghost p = i as nat;
        let ghost bn: int = if bit { 1 } else { 0 };
        let ghost n = seq_val(num@);
        let ghost d = seq_val(div@);
        proof {
            crate::limb::lemma_nat_bit_split(n, p);
            lemma_pow2_unfold(p + 1);
            assert(seq_val(r2@) + d * (2 * qh) == n / pow2(p)) by (nonlinear_arith)
                requires
                    seq_val(r2@) == 2 * seq_val(rem@) + bn,
                    seq_val(rem@) + d * qh == n / pow2(p + 1),
                    n / pow2(p) == 2 * (n / pow2(p + 1)) + bn,
            ;
            assert(n / pow2(p) <= n) by {
                lemma_pow2_pos(p);
                vstd::arithmetic::power2::lemma2_to64();
                vstd::arithmetic::div_mod::lemma_div_is_ordered_by_denominator(n as int, 1, pow2(p) as int);
            }
            assert(d * (2 * qh) >= 0) by (nonlinear_arith);
            lemma_weight_even::<B>(len as nat);
        }
        if !less_values(r2.as_slice(), div) {
            let (r3, _) = sub_values(r2.as_slice(), div);
            proof {
                assert(i as nat / B::width() < len) by (nonlinear_arith)
                    requires
                        i < len * B::width(),
                        B::width() > 0,
                ;
                crate::limb::lemma_nat_bit_of_multiple(qh, p);
                assert(seq_val(quotient@) == qh * pow2(p + 1));
                assert(seq_val(r3@) + d * (2 * qh + 1) == n / pow2(p)) by (nonlinear_arith)
                    requires
                        seq_val(r3@) == seq_val(r2@) - d,
                        seq_val(r2@) + d * (2 * qh) == n / pow2(p),
                ;
                assert(qh * pow2(p + 1) + pow2(p) == (2 * qh + 1) * pow2(p)) by (nonlinear_arith)
                    requires
                        pow2(p + 1) == 2 * pow2(p),
                ;
                if d == 0 {
                    lemma_pow2_unfold((bl - p) as nat);
                    assert((bl - p) as nat == (bl - i) as nat + 1 || true);
                }
            }
            rem = r3;
            BitSliceExt::set_bit(&mut quotient, i, true);
            proof {
                qh = 2 * qh + 1;
            }
        } else {
            proof {
                assert(qh * pow2(p + 1) == (2 * qh) * pow2(p)) by (nonlinear_arith)
                    requires
                        pow2(p + 1) == 2 * pow2(p),
                ;
            }
            rem = r2;
            proof {
                qh = 2 * qh;
            }
        }
    }
    proof {
        vstd::arithmetic::power2::lemma2_to64();
        let n = seq_val(num@);
        let d = seq_val(div@);
        assert(qh * pow2(0) == qh) by (nonlinear_arith)
            requires
                pow2(0) == 1,
        ;
        assert(seq_val(quotient@) == qh);
        vstd::arithmetic::div_mod::lemma_div_basics(n as int);
        assert(n / pow2(0) == n);
        assert(d * qh == qh * d) by (nonlinear_arith);
        if d == 0 {
            assert(d * qh == 0) by (nonlinear_arith)
                requires
                    d == 0,
            ;
        }
        if d > 0 {
            vstd::arithmetic::div_mod::lemma_fundamental_div_mod_converse(n as int, d as int, qh as int, seq_val(rem@) as int);
        }
    }
    (quotient, rem)
}

} // verus!
