//! Properties of the fixed-precision, rational and posit types that span their operations.
use vstd::prelude::*;
use vstd::arithmetic::power2::pow2;
use crate::ibig::abs;
use crate::machine_int::rem_toward_zero;
use crate::fixed::{floor_multiple, fixed_text, fixed_syms, sym_text, sym_char};
use crate::ibig::quotient_toward_zero;
use crate::radix::str_value;
use crate::decimal::digit_char;
use vstd::arithmetic::power::pow;
use crate::rat::{gcd, reduce_pair, cross_sum, lemma_gcd_divides};

verus! {

/// Reducing a fraction keeps its value: the reduced pair has a non-zero denominator and the same
/// cross products as the pair it came from.
pub proof fn law_reduce_preserves_value(n: int, d: int)
    requires
        d != 0,
    ensures
        reduce_pair(n, d).1 != 0,
        n * reduce_pair(n, d).1 == reduce_pair(n, d).0 * d,
{
    let r = reduce_pair(n, d);
    if n == 0 {
        assert(r == (0int, 1int));
        assert(n * r.1 == r.0 * d) by (nonlinear_arith)
            requires
                n == 0,
                r.0 == 0,
        ;
    } else {
        let g = gcd(abs(n), abs(d)) as int;
        lemma_gcd_divides(abs(n), abs(d));
        lemma_divides_signed(n, g);
        lemma_divides_signed(d, g);
        let a = n / g;
        let b = d / g;
        assert(n * b == a * d) by (nonlinear_arith)
            requires
                n == g * a,
                d == g * b,
        ;
        if b == 0 {
            assert(d == 0) by (nonlinear_arith)
                requires
                    d == g * b,
                    b == 0,
            ;
        }
    }
}

/// A positive divisor of the magnitude of `x` divides `x` exactly.
proof fn lemma_divides_signed(x: int, g: int)
    requires
        g > 0,
        abs(x) % (g as nat) == 0,
    ensures
        x == g * (x / g),
{
    let m = abs(x) as int;
    vstd::arithmetic::div_mod::lemma_fundamental_div_mod(m, g);
    let q = m / g;
    if x < 0 {
        assert(x == g * (-q)) by (nonlinear_arith)
            requires
                m == g * q + m % g,
                m % g == 0,
                x == -m,
        ;
        vstd::arithmetic::div_mod::lemma_div_multiples_vanish(-q, g);
    }
}

/// Adding rationals does not depend on the order of the operands.
pub proof fn law_rat_add_commutes(x: (int, int), y: (int, int))
    ensures
        reduce_pair(cross_sum(x, y).0, cross_sum(x, y).1) == reduce_pair(
            cross_sum(y, x).0,
            cross_sum(y, x).1,
        ),
{
    vstd::arithmetic::mul::lemma_mul_is_commutative(x.1, y.1);
    assert(cross_sum(x, y) == cross_sum(y, x));
}

/// The floor of a fixed-precision value is a whole number at most the value, less than one below
/// it.
pub proof fn law_fixed_floor_bounds(raw: int, n: nat)
    ensures
        floor_multiple(raw, n) <= raw < floor_multiple(raw, n) + pow2(n),
        floor_multiple(raw, n) % (pow2(n) as int) == 0,
{
    let p = pow2(n) as int;
    vstd::arithmetic::power2::lemma_pow2_pos(n);
    vstd::arithmetic::div_mod::lemma_fundamental_div_mod(raw, p);
    vstd::arithmetic::div_mod::lemma_mod_bound(raw, p);
    vstd::arithmetic::mul::lemma_mul_is_commutative(p, raw / p);
    vstd::arithmetic::div_mod::lemma_mod_multiples_basic(raw / p, p);
}

/// A whole number made from an integer is its own floor.
pub proof fn law_fixed_floor_of_whole(v: int, n: nat)
    ensures
        floor_multiple(v * pow2(n), n) == v * pow2(n),
{
    let p = pow2(n) as int;
    vstd::arithmetic::power2::lemma_pow2_pos(n);
    vstd::arithmetic::mul::lemma_mul_is_commutative(v, p);
    vstd::arithmetic::div_mod::lemma_div_multiples_vanish(v, p);
}

/// Dropping the fraction leaves a whole number.
pub proof fn law_fixed_trunc_is_whole(raw: int, n: nat)
    ensures
        (raw - rem_toward_zero(raw, pow2(n) as int)) % (pow2(n) as int) == 0,
{
    let p = pow2(n) as int;
    vstd::arithmetic::power2::lemma_pow2_pos(n);
    let m = abs(raw) as int;
    vstd::arithmetic::div_mod::lemma_fundamental_div_mod(m, p);
    let q = m / p;
    let t = raw - rem_toward_zero(raw, p);
    if raw >= 0 {
        assert(t == p * q);
        vstd::arithmetic::mul::lemma_mul_is_commutative(p, q);
        vstd::arithmetic::div_mod::lemma_mod_multiples_basic(q, p);
    } else {
        assert(t == -(p * q));
        assert(t == (-q) * p) by (nonlinear_arith)
            requires
                t == -(p * q),
        ;
        vstd::arithmetic::div_mod::lemma_mod_multiples_basic(-q, p);
    }
}

/// Negating a posit twice gives it back: the sign bit flips twice.
pub proof fn law_posit_neg_twice(b: u8)
    ensures
        (b ^ 1) ^ 1 == b,
{
    assert((b ^ 1) ^ 1 == b) by (bit_vector);
}

/// The characters of `c` other than the point, in order.
pub open spec fn drop_points(c: Seq<char>) -> Seq<char>
    decreases c.len(),
{
    if c.len() == 0 {
        c
    } else if c.last() == '.' {
        drop_points(c.drop_last())
    } else {
        drop_points(c.drop_last()).push(c.last())
    }
}

/// Text without its leading minus sign, if it has one.
pub open spec fn unsigned_part(t: Seq<char>) -> Seq<char> {
    if t.len() > 0 && t[0] == '-' {
        t.drop_first()
    } else {
        t
    }
}

/// The value of symbols held lowest first (digits, and `10` for a point that is skipped).
spec fn sym_value(s: Seq<u8>) -> nat
    decreases s.len(),
{
    if s.len() == 0 {
        0
    } else if s[0] == 10 {
        sym_value(s.drop_first())
    } else {
        s[0] as nat + 10 * sym_value(s.drop_first())
    }
}

/// The symbols written for `w` read back as `w`, and are digits or points.
proof fn lemma_fixed_syms_value(w: nat, n: nat, idx: nat)
    ensures
        sym_value(fixed_syms(w, n, idx)) == w,
        forall|i: int| 0 <= i < fixed_syms(w, n, idx).len() ==> #[trigger] fixed_syms(w, n, idx)[i] <= 10,
        idx > n ==> forall|i: int| 0 <= i < fixed_syms(w, n, idx).len() ==> #[trigger] fixed_syms(w, n, idx)[i] < 10,
    decreases w,
{
    let point: Seq<u8> = if idx == n { seq![10u8] } else { seq![] };
    if w > 0 {
        lemma_fixed_syms_value(w / 10, n, idx + 1);
        let rest = fixed_syms(w / 10, n, idx + 1);
        let d = (w % 10) as u8;
        let tail = seq![d] + rest;
        assert(tail.drop_first() =~= rest);
        assert(tail[0] == d);
        assert(d as nat == w % 10);
        assert(sym_value(tail) == w % 10 + 10 * (w / 10));
        if idx == n {
            assert((point + tail).drop_first() =~= tail);
            assert((point + tail)[0] == 10);
        } else {
            assert(point + tail =~= tail);
        }
        assert(fixed_syms(w, n, idx) == point + seq![d] + rest);
        assert(point + seq![d] + rest =~= point + tail);
        assert(sym_value(point + tail) == sym_value(tail));
        assert(w % 10 + 10 * (w / 10) == w);
    } else {
        if idx == n {
            assert(point.drop_first() =~= Seq::<u8>::empty());
            assert(point[0] == 10);
        }
        assert(fixed_syms(w, n, idx) == point);
        assert(sym_value(Seq::<u8>::empty()) == 0);
        if idx != n {
            assert(point =~= Seq::<u8>::empty());
        }
    }
}

/// Written symbols read back, point skipped, as their value; the text holds no minus sign, and
/// without points it is left as it is.
proof fn lemma_sym_text_value(s: Seq<u8>)
    requires
        forall|i: int| 0 <= i < s.len() ==> #[trigger] s[i] <= 10,
    ensures
        str_value(drop_points(sym_text(s)), 10) == sym_value(s),
        sym_text(s).len() == s.len(),
        forall|i: int| 0 <= i < sym_text(s).len() ==> #[trigger] sym_text(s)[i] != '-',
        (forall|i: int| 0 <= i < s.len() ==> #[trigger] s[i] < 10) ==> drop_points(sym_text(s)) == sym_text(s),
    decreases s.len(),
{
    if s.len() > 0 {
        let rest = s.drop_first();
        lemma_sym_text_value(rest);
        let t = sym_text(rest);
        let c = sym_char(s[0]);
        assert(sym_text(s) == t.push(c));
        assert(t.push(c).drop_last() =~= t);
        assert(t.push(c).last() == c);
        if s[0] != 10 {
            assert(c == digit_char(s[0] as nat));
            assert(c != '.');
            let p = drop_points(t);
            assert(drop_points(t.push(c)) == p.push(c));
            assert(p.push(c).drop_last() =~= p);
            assert(str_value(p.push(c), 10) == str_value(p, 10) * 10 + s[0] as nat);
        }
        assert forall|i: int| 0 <= i < sym_text(s).len() implies #[trigger] sym_text(s)[i] != '-' by {
            if i < t.len() {
                assert(sym_text(s)[i] == t[i]);
            }
        }
    }
}

/// Fixed-point text is the decimal number `raw * 10^n / 2^n` (rounded toward zero): it starts
/// with a minus sign exactly when that number is negative, and its digits, the point skipped,
/// read back as the number's magnitude, so no digit is left out.
pub proof fn law_fixed_text_digits(raw: int, n: nat)
    ensures
        ({
            let q = quotient_toward_zero(raw * pow(10, n), pow2(n) as int);
            let t = fixed_text(raw, n);
            &&& (t.len() > 0 && t[0] == '-') == (q < 0)
            &&& str_value(drop_points(unsigned_part(t)), 10) == abs(q)
        }),
{
    let q = quotient_toward_zero(raw * pow(10, n), pow2(n) as int);
    let syms = fixed_syms(abs(q), n, 0);
    let body = sym_text(syms);
    lemma_fixed_syms_value(abs(q), n, 0);
    lemma_sym_text_value(syms);
    let t = fixed_text(raw, n);
    if q < 0 {
        assert(t == seq!['-'] + body);
        assert(t.drop_first() =~= body);
    } else {
        assert(t == body);
        if t.len() > 0 {
            assert(t[0] != '-');
        }
    }
}

/// Past the point, the symbols written do not depend on the position reached.
proof fn lemma_fixed_syms_past_point(w: nat, n: nat, i: nat, j: nat)
    requires
        i > n,
        j > n,
    ensures
        fixed_syms(w, n, i) == fixed_syms(w, n, j),
    decreases w,
{
    if w > 0 {
        lemma_fixed_syms_past_point(w / 10, n, i + 1, j + 1);
        assert(fixed_syms(w, n, i) =~= fixed_syms(w, n, j));
    }
}

/// Writing `a` then `b`, lowest first, writes `b`'s text before `a`'s.
proof fn lemma_sym_text_concat(a: Seq<u8>, b: Seq<u8>)
    ensures
        sym_text(a + b) == sym_text(b) + sym_text(a),
    decreases a.len(),
{
    if a.len() == 0 {
        assert(a + b =~= b);
        assert(sym_text(b) + sym_text(a) =~= sym_text(b));
    } else {
        lemma_sym_text_concat(a.drop_first(), b);
        assert((a + b).drop_first() =~= a.drop_first() + b);
        assert((a + b)[0] == a[0]);
        assert(sym_text(a + b) =~= sym_text(b) + sym_text(a));
    }
}

/// A value with at least `n - idx` digits is written, from position `idx`, as `n - idx` low
/// digits, the point, and then the digits of the value divided by `10^(n - idx)`.
proof fn lemma_fixed_syms_split(w: nat, n: nat, idx: nat) -> (low: Seq<u8>)
    requires
        idx <= n,
        idx < n ==> w * 10 >= pow(10, (n - idx) as nat),
    ensures
        fixed_syms(w, n, idx) == low + seq![10u8] + fixed_syms(w / (pow(10, (n - idx) as nat) as nat), n, n + 1),
        low.len() == n - idx,
        forall|i: int| 0 <= i < low.len() ==> #[trigger] low[i] < 10,
    decreases n - idx,
{
    let k = (n - idx) as nat;
    vstd::arithmetic::power::lemma_pow_positive(10, k);
    if idx == n {
        vstd::arithmetic::power::lemma_pow0(10);
        vstd::arithmetic::div_mod::lemma_div_basics_2(w as int);
        assert(w / (pow(10, k) as nat) == w);
        if w > 0 {
            lemma_fixed_syms_past_point(w / 10, n, n + 1, n + 2);
            assert(fixed_syms(w, n, n + 1) =~= seq![(w % 10) as u8] + fixed_syms(w / 10, n, n + 2));
            assert(fixed_syms(w, n, n) =~= seq![10u8] + seq![(w % 10) as u8] + fixed_syms(w / 10, n, n + 1));
        }
        let low: Seq<u8> = seq![];
        assert(fixed_syms(w, n, idx) =~= low + seq![10u8] + fixed_syms(w / (pow(10, k) as nat), n, n + 1));
        low
    } else {
        let k1 = (k - 1) as nat;
        vstd::arithmetic::power::lemma_pow_adds(10, 1, k1);
        vstd::arithmetic::power::lemma_pow1(10);
        vstd::arithmetic::power::lemma_pow_positive(10, k1);
        let p1 = pow(10, k1);
        assert(pow(10, k) == 10 * p1);
        assert(w >= p1);
        if k1 >= 1 {
            let k2 = (k1 - 1) as nat;
            vstd::arithmetic::power::lemma_pow_adds(10, 1, k2);
            let p2 = pow(10, k2);
            assert(p1 == 10 * p2);
            assert(w / 10 >= p2) by {
                vstd::arithmetic::div_mod::lemma_div_is_ordered((10 * p2) as int, w as int, 10);
                vstd::arithmetic::div_mod::lemma_div_multiples_vanish(p2, 10);
            }
        }
        let rest = lemma_fixed_syms_split(w / 10, n, idx + 1);
        assert((n - (idx + 1)) as nat == k1);
        vstd::arithmetic::div_mod::lemma_div_denominator(w as int, 10, p1);
        assert((w / 10) / (p1 as nat) == w / (pow(10, k) as nat));
        let low = seq![(w % 10) as u8] + rest;
        assert(fixed_syms(w, n, idx) == seq![(w % 10) as u8] + fixed_syms(w / 10, n, idx + 1));
        assert(fixed_syms(w, n, idx) =~= low + seq![10u8] + fixed_syms(w / (pow(10, k) as nat), n, n + 1));
        assert forall|i: int| 0 <= i < low.len() implies #[trigger] low[i] < 10 by {
            if i > 0 {
                assert(low[i] == rest[i - 1]);
            }
        }
        low
    }
}

/// The magnitude of `raw * 10^n / 2^n` (rounded toward zero), divided by `10^n`, is the whole
/// part of the magnitude of `raw / 2^n`.
proof fn lemma_whole_part(raw: int, n: nat)
    ensures
        abs(quotient_toward_zero(raw * pow(10, n), pow2(n) as int)) / (pow(10, n) as nat)
            == abs(raw) / pow2(n),
        abs(quotient_toward_zero(raw * pow(10, n), pow2(n) as int))
            == (abs(raw) * pow(10, n)) as nat / pow2(n),
{
    let p = pow(10, n);
    let t = pow2(n) as int;
    vstd::arithmetic::power::lemma_pow_positive(10, n);
    vstd::arithmetic::power2::lemma_pow2_pos(n);
    let a = abs(raw) as int;
    assert(abs(raw * p) == a * p) by (nonlinear_arith)
        requires
            p > 0,
            a == abs(raw),
    ;
    let q = abs(quotient_toward_zero(raw * p, t));
    assert(q == (a * p) / t);
    vstd::arithmetic::div_mod::lemma_div_denominator(a * p, t, p);
    vstd::arithmetic::div_mod::lemma_fundamental_div_mod(a, t);
    vstd::arithmetic::div_mod::lemma_mod_bound(a, t);
    let k = a / t;
    let r = a % t;
    assert(a * p == k * (t * p) + r * p && 0 <= r * p < t * p) by (nonlinear_arith)
        requires
            a == t * k + r,
            0 <= r < t,
            p > 0,
    ;
    vstd::arithmetic::div_mod::lemma_fundamental_div_mod_converse(a * p, t * p, k, r * p);
}

/// Where the fixed-point text has at least `n` digits, the point comes exactly `n` digits from
/// the end, and the digits before it read back as the whole part of the magnitude,
/// `|raw| / 2^n`.
pub proof fn law_fixed_text_point(raw: int, n: nat)
    requires
        n > 0 ==> abs(quotient_toward_zero(raw * pow(10, n), pow2(n) as int)) * 10 >= pow(10, n),
    ensures
        exists|before: Seq<char>, after: Seq<char>|
            #![trigger before + seq!['.'] + after]
            unsigned_part(fixed_text(raw, n)) == before + seq!['.'] + after
            && after.len() == n
            && drop_points(before) == before
            && drop_points(after) == after
            && str_value(before, 10) == abs(raw) / pow2(n),
{
    let q = quotient_toward_zero(raw * pow(10, n), pow2(n) as int);
    let w = abs(q);
    lemma_whole_part(raw, n);
    let low = lemma_fixed_syms_split(w, n, 0);
    let high = fixed_syms(w / (pow(10, n) as nat), n, n + 1);
    lemma_fixed_syms_value(w / (pow(10, n) as nat), n, n + 1);
    lemma_sym_text_value(high);
    lemma_sym_text_value(low);
    lemma_sym_text_concat(low, seq![10u8]);
    lemma_sym_text_concat(low + seq![10u8], high);
    let before = sym_text(high);
    let after = sym_text(low);
    let e: Seq<u8> = seq![];
    assert(seq![10u8].drop_first() =~= e);
    assert(sym_text(e) == Seq::<char>::empty());
    assert(sym_text(seq![10u8]) =~= seq!['.']);
    let body = sym_text(fixed_syms(w, n, 0));
    assert(body =~= before + seq!['.'] + after);
    lemma_fixed_syms_value(w, n, 0);
    lemma_sym_text_value(fixed_syms(w, n, 0));
    let t = fixed_text(raw, n);
    if q < 0 {
        assert(t.drop_first() =~= body);
    } else {
        if t.len() > 0 {
            assert(t[0] == body[0]);
        }
    }
    assert(unsigned_part(t) == before + seq!['.'] + after);
}

} // verus!
