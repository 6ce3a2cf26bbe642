//! Properties that relate several operations of the library.
use vstd::prelude::*;
use vstd::arithmetic::power2::pow2;
use core::cmp::Ordering;
use crate::limb::{nat_bit, with_nat_bit, lemma_with_nat_bit};
use crate::decimal::{dec_string, digit_char};
use crate::radix::{str_value, first_non_digit, first_non_digit_from, digit_value, is_digit};
use crate::ibig::{quotient_toward_zero, remainder_signed, abs};
use crate::i::{wrap, half, lemma_half, lemma_signed_range, lemma_shift_multiple};
use crate::u::modulus;
use crate::intern::{add_slot, after_add, live_holds, is_live_in, stored_once, fresh_chunk};
use crate::order::{element_order, first_difference};
use crate::limb::BitLike;
use crate::limbs::{seq_val, weight, lemma_val_bound};
use crate::big_int::TaggedOffset;

verus! {

/// Every decimal digit character reads back as its digit.
proof fn lemma_digit_roundtrip(d: nat)
    requires
        d < 10,
    ensures
        digit_value(digit_char(d)) == Some(d),
{
}

/// The decimal text of a number is made of decimal digits, beyond position `i` as well.
proof fn lemma_dec_digits(n: nat, i: int)
    requires
        0 <= i,
    ensures
        first_non_digit_from(dec_string(n), 10, i) is None,
    decreases n, dec_string(n).len() - i,
{
    let s = dec_string(n);
    if i >= s.len() {
    } else {
        if n < 10 {
            lemma_digit_roundtrip(n);
            assert(s[0] == digit_char(n));
        } else {
            lemma_dec_digits(n / 10, i);
            lemma_digit_roundtrip(n % 10);
            let p = dec_string(n / 10);
            assert(s == p.push(digit_char(n % 10)));
            if i < p.len() {
                assert(s[i] == p[i]);
                lemma_dec_digits_at(n / 10, i);
            }
        }
        lemma_dec_digits(n, i + 1);
    }
}

/// Each character of the decimal text of `n` is a decimal digit.
proof fn lemma_dec_digits_at(n: nat, i: int)
    requires
        0 <= i < dec_string(n).len(),
    ensures
        is_digit(dec_string(n)[i], 10),
    decreases n,
{
    if n < 10 {
        lemma_digit_roundtrip(n);
    } else {
        let p = dec_string(n / 10);
        if i < p.len() {
            lemma_dec_digits_at(n / 10, i);
        } else {
            lemma_digit_roundtrip(n % 10);
        }
    }
}

/// Printing a natural number in decimal and parsing the text back in radix 10 gives the number
/// back, and the parse finds no character that is not a digit.
pub proof fn law_decimal_roundtrip(n: nat)
    ensures
        first_non_digit(dec_string(n), 10) is None,
        str_value(dec_string(n), 10) == n,
    decreases n,
{
    lemma_dec_digits_all(n, 0);
    if n < 10 {
        lemma_digit_roundtrip(n);
        let s = dec_string(n);
        assert(s.drop_last() =~= Seq::<char>::empty());
        assert(str_value(Seq::<char>::empty(), 10) == 0);
        assert(s.last() == digit_char(n));
        assert(str_value(s, 10) == str_value(s.drop_last(), 10) * 10 + n);
    } else {
        law_decimal_roundtrip(n / 10);
        lemma_digit_roundtrip(n % 10);
        let s = dec_string(n);
        assert(s.drop_last() =~= dec_string(n / 10));
        assert(s.last() == digit_char(n % 10));
        vstd::arithmetic::div_mod::lemma_fundamental_div_mod(n as int, 10);
        assert(str_value(s, 10) == str_value(dec_string(n / 10), 10) * 10 + n % 10);
    }
}

/// From position `i` on, the decimal text of `n` holds no character that is not a digit.
proof fn lemma_dec_digits_all(n: nat, i: int)
    requires
        0 <= i,
    ensures
        first_non_digit_from(dec_string(n), 10, i) is None,
    decreases dec_string(n).len() - i,
{
    if i < dec_string(n).len() {
        lemma_dec_digits_at(n, i);
        lemma_dec_digits_all(n, i + 1);
    }
}

/// The quotient `q` and remainder `r` that `UBig::div_rem` gives for `a` by a non-zero `b`
/// rebuild the dividend, with the remainder below the divisor.
pub proof fn law_div_rem(a: nat, b: nat, q: nat, r: nat)
    requires
        b > 0,
        q == a / b,
        r == a % b,
    ensures
        q * b + r == a,
        r < b,
{
    vstd::arithmetic::div_mod::lemma_fundamental_div_mod(a as int, b as int);
    vstd::arithmetic::div_mod::lemma_mod_bound(a as int, b as int);
    assert((a / b) * b == b * (a / b)) by (nonlinear_arith);
}

/// For a positive divisor, the quotient rounded toward zero and the remainder of the magnitudes,
/// negative with the dividend, rebuild the dividend.
pub proof fn law_signed_div_rem(a: int, b: int)
    requires
        b > 0,
    ensures
        quotient_toward_zero(a, b) * b + remainder_signed(a, b) == a,
{
    let m = abs(a);
    let d = abs(b);
    vstd::arithmetic::div_mod::lemma_fundamental_div_mod(m as int, d as int);
    let q = m / d;
    let r = m % d;
    assert(d == b);
    assert(d * q == q * d) by (nonlinear_arith);
    if a < 0 {
        assert((-(q as int)) * b == -(q * d)) by (nonlinear_arith)
            requires
                b == d,
        ;
    }
}

/// Shifting a `UBig` of value `v` left by `n` bits (`shift_left` gives `s`) and then right by
/// `n` bits (`shift_right` of `s` gives `t`) gives the value back.
pub proof fn law_shift_roundtrip(v: nat, n: nat, s: nat, t: nat)
    requires
        s == v * pow2(n),
        t == s / pow2(n),
    ensures
        t == v,
{
    vstd::arithmetic::power2::lemma_pow2_pos(n);
    vstd::arithmetic::div_mod::lemma_div_multiples_vanish(v as int, pow2(n) as int);
    assert(v * pow2(n) == pow2(n) * v) by (nonlinear_arith);
}

/// Adding `b` to a `UBig` of value `a` (giving `s`) and subtracting `b` from the sum (giving
/// `d`) gives the value back.
pub proof fn law_add_sub(a: nat, b: nat, s: nat, d: nat)
    requires
        s == a + b,
        d == s - b,
    ensures
        d == a,
{
}

/// In a fixed width, a wrapping sum followed by a wrapping difference of the same amount gives
/// back any value of that width.
pub proof fn law_wrap_add_sub(a: int, b: int, n: nat)
    requires
        n >= 1,
        -(half(n) as int) <= a < half(n),
    ensures
        wrap(wrap(a + b, n) - b, n) == a,
{
    lemma_half(n);
    let m = modulus(n) as int;
    let x = a + b;
    let u = x % m;
    vstd::arithmetic::div_mod::lemma_fundamental_div_mod(x, m);
    vstd::arithmetic::div_mod::lemma_mod_bound(x, m);
    lemma_signed_range(u as nat, n);
    let s = wrap(x, n);
    let k = crate::i::lemma_congruent(u as nat, s, n);
    let d = x / m;
    assert(s - b == a + (-d - k) * m) by (nonlinear_arith)
        requires
            x == m * d + u,
            u == s + k * m,
            x == a + b,
    ;
    lemma_shift_multiple(a, -d - k, m);
    let ua = if a < 0 { a + m } else { a };
    assert(0 <= ua < m);
    if a < 0 {
        lemma_shift_multiple(a, 1, m);
    }
    vstd::arithmetic::div_mod::lemma_small_mod(ua as nat, m as nat);
    assert(a % m == ua) by {
        if a < 0 {
            assert(a + 1 * m == ua);
        }
    }
}

/// Big-endian bytes read back as big-endian give the value back: when `be` is what
/// `U::to_be_bytes` gives for a value with bytes `b`, and `y` the bytes of what
/// `U::from_be_bytes` makes of `be`, then `y` is `b`.
pub proof fn law_reverse_twice(b: Seq<u8>, be: Seq<u8>, y: Seq<u8>)
    requires
        be == b.reverse(),
        y == be.reverse(),
    ensures
        y == b,
{
    assert(b.reverse().reverse() =~= b);
}

/// Setting a bit and reading it back gives the bit set; no other bit changes.
pub proof fn law_set_get_bit(v: nat, idx: nat, val: bool, other: nat)
    ensures
        nat_bit(with_nat_bit(v, idx, val), idx) == val,
        other != idx ==> nat_bit(with_nat_bit(v, idx, val), other) == nat_bit(v, other),
{
    lemma_with_nat_bit(v, idx, val, idx);
    lemma_with_nat_bit(v, idx, val, other);
}

/// After `add` stores `v`, the slot it returns is live and holds `v`.
pub proof fn law_intern_read_after_add<T>(s: Seq<(nat, Option<T>)>, v: T, r: nat)
    requires
        add_slot(s, v, r),
    ensures
        r < after_add(s, v, r).len(),
        after_add(s, v, r)[r as int].0 > 0,
        after_add(s, v, r)[r as int].1 == Some(v),
{
}

/// Adding the same value twice returns the same offset the second time.
pub proof fn law_intern_add_twice<T>(s: Seq<(nat, Option<T>)>, v: T, r1: nat, r2: nat)
    requires
        add_slot(s, v, r1),
        add_slot(after_add(s, v, r1), v, r2),
    ensures
        r2 == r1,
{
    let t = after_add(s, v, r1);
    assert(live_holds(t[r1 as int], v));
    assert(is_live_in(t, v));
    if r2 < r1 {
        assert(t[r2 as int] == s[r2 as int]);
        if !is_live_in(s, v) {
            assert(!live_holds(s[r2 as int], v));
        }
    }
    if r2 > r1 {
        assert(!live_holds(t[r1 as int], v));
    }
}

/// A value live in the store is held in one slot only: where no two live slots hold the same
/// value before `add`, none do after it.
pub proof fn law_intern_stored_once<T>(s: Seq<(nat, Option<T>)>, v: T, r: nat)
    requires
        stored_once(s),
        add_slot(s, v, r),
    ensures
        stored_once(after_add(s, v, r)),
{
    let t = after_add(s, v, r);
    assert forall|i: int, j: int|
        0 <= i < j < t.len() && (#[trigger] t[i]).0 > 0 && (#[trigger] t[j]).0 > 0 implies t[i].1 != t[j].1 by {
        if r < s.len() {
            if i != r && j != r {
                assert(t[i] == s[i] && t[j] == s[j]);
            } else if i == r {
                assert(t[j] == s[j]);
                if is_live_in(s, v) {
                    if s[j].1 == Some(v) {
                        assert(live_holds(s[r as int], v));
                        assert(live_holds(s[j], v));
                    }
                } else {
                    if s[j].1 == Some(v) {
                        assert(live_holds(s[j], v));
                    }
                }
            } else {
                assert(t[i] == s[i]);
                if is_live_in(s, v) {
                    if s[i].1 == Some(v) {
                        assert(live_holds(s[i], v));
                    }
                } else {
                    if s[i].1 == Some(v) {
                        assert(live_holds(s[i], v));
                    }
                }
            }
        } else {
            let f = fresh_chunk(v);
            if j >= s.len() {
                assert(t[j] == f[j - s.len()]);
                assert(j == s.len());
                if i >= s.len() {
                    assert(t[i] == f[i - s.len()]);
                } else {
                    assert(t[i] == s[i]);
                    if s[i].1 == Some(v) {
                        assert(live_holds(s[i], v));
                    }
                }
            } else {
                assert(t[i] == s[i] && t[j] == s[j]);
            }
        }
    }
}

/// The element order of two sequences is the reverse of the order the other way round.
pub proof fn law_element_order_antisymmetric<B: BitLike>(a: Seq<B>, b: Seq<B>)
    ensures
        element_order(a, b) == Ordering::Less <==> element_order(b, a) == Ordering::Greater,
        element_order(a, b) == Ordering::Equal <==> element_order(b, a) == Ordering::Equal,
{
    if a.len() == b.len() {
        lemma_first_difference_antisymmetric(a, b, 0);
    }
}

proof fn lemma_first_difference_antisymmetric<B: BitLike>(a: Seq<B>, b: Seq<B>, i: int)
    requires
        a.len() == b.len(),
    ensures
        first_difference(a, b, i) == Ordering::Less <==> first_difference(b, a, i) == Ordering::Greater,
        first_difference(a, b, i) == Ordering::Equal <==> first_difference(b, a, i) == Ordering::Equal,
    decreases a.len() - i,
{
    if i < 0 || i >= a.len() {
    } else if a[i].to_nat() == b[i].to_nat() {
        lemma_first_difference_antisymmetric(a, b, i + 1);
    }
}

/// Flipping the sign bit of a tag twice gives back the same tagged word: when `u` is what
/// `invert_neg` gives for `t` and `v` what it gives for `u`, then `v` is `t`.
pub proof fn law_invert_neg_twice(t: TaggedOffset, u: TaggedOffset, v: TaggedOffset)
    requires
        u.spec_offset() == t.spec_offset(),
        u.spec_tag_bits() == if t.spec_tag_bits() % 2 == 0 {
            t.spec_tag_bits() + 1
        } else {
            (t.spec_tag_bits() - 1) as nat
        },
        v.spec_offset() == u.spec_offset(),
        v.spec_tag_bits() == if u.spec_tag_bits() % 2 == 0 {
            u.spec_tag_bits() + 1
        } else {
            (u.spec_tag_bits() - 1) as nat
        },
    ensures
        v == t,
{
    TaggedOffset::lemma_determined(v, t);
}

/// Flipping the highest tag bit twice gives back the same tagged word: when `u` is what
/// `invert_tag` gives for `t` and `v` what it gives for `u`, then `v` is `t`.
pub proof fn law_invert_tag_twice<const T: usize>(t: crate::big_utils::TaggedOffset<T>, u: crate::big_utils::TaggedOffset<T>, v: crate::big_utils::TaggedOffset<T>)
    requires
        2 <= T <= 8,
        u.spec_inline() == t.spec_inline(),
        u.spec_offset() == t.spec_offset(),
        u.spec_tags() == if t.spec_tags() >= pow2((T - 2) as nat) {
            t.spec_tags() - pow2((T - 2) as nat)
        } else {
            t.spec_tags() + pow2((T - 2) as nat) as int
        },
        v.spec_inline() == u.spec_inline(),
        v.spec_offset() == u.spec_offset(),
        v.spec_tags() == if u.spec_tags() >= pow2((T - 2) as nat) {
            u.spec_tags() - pow2((T - 2) as nat)
        } else {
            u.spec_tags() + pow2((T - 2) as nat) as int
        },
    ensures
        v == t,
{
    let h = pow2((T - 2) as nat) as int;
    let p = pow2(T as nat) as int;
    vstd::arithmetic::power2::lemma_pow2_pos(T as nat);
    vstd::arithmetic::power2::lemma_pow2_unfold(T as nat);
    vstd::arithmetic::power2::lemma_pow2_unfold((T - 1) as nat);
    assert(p == 4 * h);
    vstd::arithmetic::div_mod::lemma_mod_bound(t.word() as int, p);
    vstd::arithmetic::div_mod::lemma_mod_bound(u.word() as int, p);
    assert(t.spec_tags() < 2 * h);
    assert(u.spec_tags() < 2 * h);
    crate::big_utils::TaggedOffset::<T>::lemma_determined(v, t);
}

/// The bytes of a fixed-size integer are the little-endian bytes of its value: byte `i` is the
/// value divided by `256^i`, modulo `256`. So `U::from_usize(v)` and `U::from_u16(v)`, whose
/// value is `v`, hold exactly the machine integer's little-endian bytes.
pub proof fn law_le_byte_digits(b: Seq<u8>, i: nat)
    requires
        i < b.len(),
    ensures
        b[i as int] as nat == (seq_val(b) / weight::<u8>(i)) % 256,
    decreases b.len(),
{
    let n = (b.len() - 1) as nat;
    let rest = b.drop_last();
    let x = seq_val(rest) as int;
    let l = b.last() as int;
    lemma_val_bound(rest);
    vstd::arithmetic::power2::lemma_pow2_pos(8 * i);
    let wi = weight::<u8>(i) as int;
    assert(seq_val(b) == seq_val(rest) + b.last().to_nat() * weight::<u8>(n));
    if i == n {
        vstd::arithmetic::mul::lemma_mul_is_commutative(l, wi);
        assert(seq_val(b) as int == wi * l + x);
        vstd::arithmetic::div_mod::lemma_div_multiples_vanish_fancy(l, x, wi);
        vstd::arithmetic::div_mod::lemma_small_mod(l as nat, 256);
    } else {
        law_le_byte_digits(rest, i);
        assert(rest[i as int] == b[i as int]);
        let k = (n - i - 1) as nat;
        vstd::arithmetic::power2::lemma_pow2_adds(8 * i, 8);
        vstd::arithmetic::power2::lemma_pow2_adds(8 * i + 8, 8 * k);
        vstd::arithmetic::power2::lemma2_to64();
        assert(8 * n == 8 * i + 8 + 8 * k);
        let kk = pow2(8 * k) as int;
        assert(weight::<u8>(n) as int == wi * 256 * kk);
        let j = l * 256 * kk;
        assert(seq_val(b) as int == x + j * wi) by (nonlinear_arith)
            requires
                seq_val(b) as int == x + l * (wi * 256 * kk),
                j == l * 256 * kk,
        ;
        vstd::arithmetic::div_mod::lemma_hoist_over_denominator(x, j, wi as nat);
        vstd::arithmetic::div_mod::lemma_div_pos_is_pos(x, wi);
        assert(x / wi + j == 256 * (l * kk) + x / wi) by (nonlinear_arith)
            requires
                j == l * 256 * kk,
        ;
        vstd::arithmetic::div_mod::lemma_mod_multiples_vanish(l * kk, x / wi, 256);
    }
}

/// Comparing element by element: a shorter sequence comes first; sequences of one length are
/// equal exactly when every limb is, and otherwise ordered by the first limb, from the low end,
/// where they differ.
pub proof fn law_element_order_first_difference<B: BitLike>(a: Seq<B>, b: Seq<B>)
    ensures
        a.len() < b.len() ==> element_order(a, b) == Ordering::Less,
        b.len() < a.len() ==> element_order(a, b) == Ordering::Greater,
        a.len() == b.len() ==> (element_order(a, b) == Ordering::Equal <==> forall|j: int|
            0 <= j < a.len() ==> (#[trigger] a[j]).to_nat() == b[j].to_nat()),
        a.len() == b.len() ==> (element_order(a, b) == Ordering::Less <==> exists|k: int|
            0 <= k < a.len() && (#[trigger] a[k]).to_nat() < b[k].to_nat() && forall|j: int|
                0 <= j < k ==> (#[trigger] a[j]).to_nat() == b[j].to_nat()),
        a.len() == b.len() ==> (element_order(a, b) == Ordering::Greater <==> exists|k: int|
            0 <= k < a.len() && (#[trigger] b[k]).to_nat() < a[k].to_nat() && forall|j: int|
                0 <= j < k ==> (#[trigger] a[j]).to_nat() == b[j].to_nat()),
{
    if a.len() == b.len() {
        lemma_first_difference_from(a, b, 0);
    }
}

/// What the first difference at or after `i` is, for sequences of one length.
proof fn lemma_first_difference_from<B: BitLike>(a: Seq<B>, b: Seq<B>, i: int)
    requires
        a.len() == b.len(),
        0 <= i <= a.len(),
    ensures
        first_difference(a, b, i) == Ordering::Equal <==> forall|j: int|
            i <= j < a.len() ==> (#[trigger] a[j]).to_nat() == b[j].to_nat(),
        first_difference(a, b, i) == Ordering::Less <==> exists|k: int|
            i <= k < a.len() && (#[trigger] a[k]).to_nat() < b[k].to_nat() && forall|j: int|
                i <= j < k ==> (#[trigger] a[j]).to_nat() == b[j].to_nat(),
        first_difference(a, b, i) == Ordering::Greater <==> exists|k: int|
            i <= k < a.len() && (#[trigger] b[k]).to_nat() < a[k].to_nat() && forall|j: int|
                i <= j < k ==> (#[trigger] a[j]).to_nat() == b[j].to_nat(),
    decreases a.len() - i,
{
    if i < a.len() {
        lemma_first_difference_from(a, b, i + 1);
        if a[i].to_nat() < b[i].to_nat() {
            assert forall|k: int| i <= k < a.len() && (#[trigger] b[k]).to_nat() < a[k].to_nat()
                implies !(forall|j: int| i <= j < k ==> (#[trigger] a[j]).to_nat() == b[j].to_nat()) by {
                if k > i {
                    assert(a[i].to_nat() != b[i].to_nat());
                }
            }
        } else if b[i].to_nat() < a[i].to_nat() {
            assert forall|k: int| i <= k < a.len() && (#[trigger] a[k]).to_nat() < b[k].to_nat()
                implies !(forall|j: int| i <= j < k ==> (#[trigger] a[j]).to_nat() == b[j].to_nat()) by {
                if k > i {
                    assert(a[i].to_nat() != b[i].to_nat());
                }
            }
        } else {
            assert(a[i].to_nat() == b[i].to_nat());
            if first_difference(a, b, i + 1) == Ordering::Less {
                let k = choose|k: int| i + 1 <= k < a.len() && (#[trigger] a[k]).to_nat() < b[k].to_nat()
                    && forall|j: int| i + 1 <= j < k ==> (#[trigger] a[j]).to_nat() == b[j].to_nat();
                assert(forall|j: int| i <= j < k ==> (#[trigger] a[j]).to_nat() == b[j].to_nat());
            }
            if first_difference(a, b, i + 1) == Ordering::Greater {
                let k = choose|k: int| i + 1 <= k < a.len() && (#[trigger] b[k]).to_nat() < a[k].to_nat()
                    && forall|j: int| i + 1 <= j < k ==> (#[trigger] a[j]).to_nat() == b[j].to_nat();
                assert(forall|j: int| i <= j < k ==> (#[trigger] a[j]).to_nat() == b[j].to_nat());
            }
            assert forall|k: int| i <= k < a.len() && (#[trigger] a[k]).to_nat() < b[k].to_nat()
                && (forall|j: int| i <= j < k ==> (#[trigger] a[j]).to_nat() == b[j].to_nat())
                implies first_difference(a, b, i + 1) == Ordering::Less by {
                assert(k != i);
                assert(forall|j: int| i + 1 <= j < k ==> (#[trigger] a[j]).to_nat() == b[j].to_nat());
            }
            assert forall|k: int| i <= k < a.len() && (#[trigger] b[k]).to_nat() < a[k].to_nat()
                && (forall|j: int| i <= j < k ==> (#[trigger] a[j]).to_nat() == b[j].to_nat())
                implies first_difference(a, b, i + 1) == Ordering::Greater by {
                assert(k != i);
                assert(forall|j: int| i + 1 <= j < k ==> (#[trigger] a[j]).to_nat() == b[j].to_nat());
            }
        }
    }
}

} // verus!
