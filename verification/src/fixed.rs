//! Fixed-precision values: an integer whose low `N` bits are the fraction.
use vstd::prelude::*;
use vstd::arithmetic::power2::pow2;
use vstd::arithmetic::power::pow;
use crate::ibig::{quotient_toward_zero, abs};
use crate::machine_int::magnitude_wide;
use crate::machine_int::{MachineInt, fits, wrap_to, lemma_wrap_fits, lemma_wrap_double, double_wrapping, rem_toward_zero, div_wide, rem_wide, lemma_quotient_fits,
    lemma_remainder_fits, lemma_floor_from_magnitude};
use crate::decimal::digit_char;
use crate::traits::Bounded;
use vstd::string::StringExecFns;
use crate::ibig::order_of_ints;
use core::cmp::Ordering;

verus! {

/// The largest multiple of `2^n` at most `raw`.
pub open spec fn floor_multiple(raw: int, n: nat) -> int {
    (raw / (pow2(n) as int)) * (pow2(n) as int)
}

/// `2^n` as an `i128`.
fn pow2_wide(n: usize) -> (r: i128)
    requires
        pow2(n as nat) <= i128::MAX,
    ensures
        r == pow2(n as nat),
{
    let mut r: i128 = 1;
    let mut i: usize = 0;
    proof {
        vstd::arithmetic::power2::lemma2_to64();
    }
    while i < n
        invariant
            i <= n,
            r == pow2(i as nat),
            pow2(n as nat) <= i128::MAX,
        decreases n - i,
    {
        proof {
            vstd::arithmetic::power2::lemma_pow2_unfold((i + 1) as nat);
            if i + 1 < n {
                vstd::arithmetic::power2::lemma_pow2_strictly_increases((i + 1) as nat, n as nat);
            }
        }
        r = r * 2;
        i += 1;
    }
    r
}

/// `10^n` as an `i128`.
fn pow10_wide(n: usize) -> (r: i128)
    requires
        pow(10, n as nat) <= i128::MAX,
    ensures
        r == pow(10, n as nat),
{
    let mut r: i128 = 1;
    let mut i: usize = 0;
    proof {
        vstd::arithmetic::power::lemma_pow0(10);
    }
    while i < n
        invariant
            i <= n,
            r == pow(10, i as nat),
            pow(10, n as nat) <= i128::MAX,
        decreases n - i,
    {
        proof {
            vstd::arithmetic::power::lemma_pow_adds(10, i as nat, 1);
            vstd::arithmetic::power::lemma_pow1(10);
            vstd::arithmetic::power::lemma_pow_increases(10, (i + 1) as nat, n as nat);
            assert(r * 10 == pow(10, (i + 1) as nat));
            assert(pow(10, (i + 1) as nat) <= pow(10, n as nat));
            assert(r * 10 <= i128::MAX);
            vstd::arithmetic::power::lemma_pow_positive(10, i as nat);
        }
        r = r * 10;
        i += 1;
    }
    r
}

/// `v / 2^n`, rounded toward negative infinity.
fn floor_by_pow2(v: i128, n: usize) -> (r: i128)
    requires
        n < 127,
    ensures
        r == (v as int) / (pow2(n as nat) as int),
{
    proof {
        vstd::arithmetic::power2::lemma2_to64();
        vstd::arithmetic::power2::lemma2_to64_rest();
        vstd::arithmetic::power2::lemma_pow2_adds(64, 62);
        if n < 126 {
            vstd::arithmetic::power2::lemma_pow2_strictly_increases(n as nat, 126);
        }
        vstd::arithmetic::power2::lemma_pow2_pos(n as nat);
        lemma_floor_from_magnitude(v as int, pow2(n as nat) as int);
    }
    let p = pow2_wide(n);
    let q = div_wide(v, p);
    let m = rem_wide(v, p);
    proof {
        let pi = p as int;
        let vi = v as int;
        vstd::arithmetic::div_mod::lemma_fundamental_div_mod(vi, pi);
        vstd::arithmetic::div_mod::lemma_mod_bound(vi, pi);
        if vi < 0 {
            assert(vi / pi >= vi) by (nonlinear_arith)
                requires
                    vi < 0,
                    pi >= 1,
                    vi == pi * (vi / pi) + vi % pi,
                    0 <= vi % pi < pi,
            ;
        }
    }
    if m < 0 {
        q - 1
    } else {
        q
    }
}

/// Dividing a value of the backing type by a power of two, rounding down, stays in its range.
proof fn lemma_floor_by_pow2_fits<T: MachineInt>(v: int, n: nat)
    requires
        fits::<T>(v),
    ensures
        fits::<T>(v / (pow2(n) as int)),
{
    let p = pow2(n) as int;
    T::lemma_range();
    vstd::arithmetic::div_mod::lemma_div_basics_2(v);
    vstd::arithmetic::power2::lemma_pow2_pos(n);
    vstd::arithmetic::div_mod::lemma_fundamental_div_mod(v, p);
    vstd::arithmetic::div_mod::lemma_mod_bound(v, p);
    if v >= 0 {
        vstd::arithmetic::div_mod::lemma_div_pos_is_pos(v, p);
        vstd::arithmetic::div_mod::lemma_div_is_ordered_by_denominator(v, 1, p);
    } else {
        assert(v / p >= v && v / p < 0) by (nonlinear_arith)
            requires
                v < 0,
                p >= 1,
                v == p * (v / p) + v % p,
                0 <= v % p < p,
        ;
    }
}

/// A multiple of `2^n` rounded down from a value of the backing type stays in its range.
proof fn lemma_floor_multiple_fits<T: MachineInt>(raw: int, n: nat)
    requires
        n < T::width(),
        fits::<T>(raw),
    ensures
        fits::<T>(floor_multiple(raw, n)),
        floor_multiple(raw, n) <= raw,
        raw - floor_multiple(raw, n) < pow2(n),
{
    T::lemma_range();
    let p = pow2(n) as int;
    vstd::arithmetic::power2::lemma_pow2_pos(n);
    vstd::arithmetic::div_mod::lemma_fundamental_div_mod(raw, p);
    vstd::arithmetic::div_mod::lemma_mod_bound(raw, p);
    vstd::arithmetic::mul::lemma_mul_is_commutative(p, raw / p);
    if T::low() != 0 {
        let k = pow2((T::width() - 1 - n) as nat) as int;
        vstd::arithmetic::power2::lemma_pow2_adds((T::width() - 1 - n) as nat, n);
        assert(T::low() == -(k * p));
        assert(T::low() == p * (-k)) by (nonlinear_arith)
            requires
                T::low() == -(k * p),
        ;
        vstd::arithmetic::div_mod::lemma_div_multiples_vanish(-k, p);
        vstd::arithmetic::div_mod::lemma_div_is_ordered(T::low(), raw, p);
        assert((raw / p) * p >= (-k) * p) by (nonlinear_arith)
            requires
                raw / p >= -k,
                p > 0,
        ;
    } else {
        vstd::arithmetic::div_mod::lemma_div_pos_is_pos(raw, p);
        assert((raw / p) * p >= 0) by (nonlinear_arith)
            requires
                raw / p >= 0,
                p > 0,
        ;
    }
}

/// The bits written for a fixed-precision value, lowest digit first: each decimal digit of
/// `whole` (a digit code `10` stands for the point), with the point placed before the digit whose
/// index is `n`, and after the last digit when there are exactly `n` of them.
pub open spec fn fixed_syms(whole: nat, n: nat, idx: nat) -> Seq<u8>
    decreases whole,
{
    let point: Seq<u8> = if idx == n {
        seq![10u8]
    } else {
        seq![]
    };
    if whole == 0 {
        point
    } else {
        point + seq![(whole % 10) as u8] + fixed_syms(whole / 10, n, idx + 1)
    }
}

/// The character of one written symbol: a digit, or the point for code `10`.
pub open spec fn sym_char(d: u8) -> char {
    if d == 10 {
        '.'
    } else {
        digit_char(d as nat)
    }
}

/// Symbols held lowest first, written highest first.
pub open spec fn sym_text(d: Seq<u8>) -> Seq<char>
    decreases d.len(),
{
    if d.len() == 0 {
        seq![]
    } else {
        sym_text(d.drop_first()).push(sym_char(d[0]))
    }
}

/// The text a fixed-precision value with raw integer `raw` and `n` fraction bits is shown as:
/// the decimal digits of the magnitude of `raw * 10^n / 2^n`, with a point before the last `n`
/// of them, after a `-` when it is negative.
pub open spec fn fixed_text(raw: int, n: nat) -> Seq<char> {
    let q = quotient_toward_zero(raw * pow(10, n), pow2(n) as int);
    let body = sym_text(fixed_syms(abs(q), n, 0));
    if q < 0 {
        seq!['-'] + body
    } else {
        body
    }
}

/// The text of one symbol.
fn sym_str(d: u8) -> (r: &'static str)
    requires
        d <= 10,
    ensures
        r@ == seq![sym_char(d)],
{
    if d == 10 {
        proof {
            reveal_strlit(".");
        }
        "."
    } else {
        crate::decimal::digit_str(d)
    }
}

/// Write symbols held lowest first as text, highest first.
fn write_syms(syms: &Vec<u8>) -> (r: String)
    requires
        forall|i: int| 0 <= i < syms@.len() ==> syms@[i] <= 10,
    ensures
        r@ == sym_text(syms@),
{
    let mut out = String::new();
    let mut i: usize = syms.len();
    proof {
        assert(syms@.subrange(i as int, syms@.len() as int) =~= seq![]);
    }
    while i > 0
        invariant
            i <= syms@.len(),
            forall|j: int| 0 <= j < syms@.len() ==> syms@[j] <= 10,
            out@ == sym_text(syms@.subrange(i as int, syms@.len() as int)),
        decreases i,
    {
        i -= 1;
        let s = sym_str(syms[i]);
        out.append(s);
        proof {
            let sub = syms@.subrange(i as int, syms@.len() as int);
            assert(sub.drop_first() =~= syms@.subrange(i as int + 1, syms@.len() as int));
            assert(sub[0] == syms@[i as int]);
        }
    }
    proof {
        assert(syms@.subrange(0, syms@.len() as int) =~= syms@);
    }
    out
}

/// A fixed-precision value. Given a backing integer T, uses its first `N` bits as decimal
/// precision. If `T` is bounded, this value will also be bounded.
#[derive(Copy, Clone, Debug)]
pub struct Fixed<T, const N: usize>(T);

impl<T: MachineInt, const N: usize> Fixed<T, N> {
    /// The backing integer: the value times `2^N`.
    pub closed spec fn raw(self) -> int {
        self.0.int_of()
    }

    /// The value zero.
    pub fn new() -> (r: Self)
        ensures
            r.raw() == 0,
    {
        proof {
            T::lemma_range();
        }
        Fixed(T::from_wide(0))
    }

    /// The whole number `val`: its bits shifted above the fraction. Bits shifted past the top
    /// of the backing type are lost, so the raw integer is `val * 2^N` wrapped into its range.
    pub fn from_val(val: T) -> (r: Self)
        requires
            N < T::width(),
        ensures
            r.raw() == wrap_to::<T>(val.int_of() * pow2(N as nat)),
            fits::<T>(val.int_of() * pow2(N as nat)) ==> r.raw() == val.int_of() * pow2(N as nat),
    {
        proof {
            T::lemma_range();
            T::lemma_bounds(val);
            vstd::arithmetic::power2::lemma2_to64();
            lemma_wrap_fits::<T>(val.int_of());
        }
        let mut v = val;
        let mut i: usize = 0;
        while i < N
            invariant
                i <= N,
                v.int_of() == wrap_to::<T>(val.int_of() * pow2(i as nat)),
            decreases N - i,
        {
            proof {
                lemma_wrap_double::<T>(val.int_of() * pow2(i as nat));
                vstd::arithmetic::power2::lemma_pow2_unfold(i as nat + 1);
                assert(2 * (val.int_of() * pow2(i as nat)) == val.int_of() * pow2(i as nat + 1)) by (nonlinear_arith)
                    requires
                        pow2(i as nat + 1) == 2 * pow2(i as nat),
                ;
            }
            v = double_wrapping(v);
            i += 1;
        }
        proof {
            if fits::<T>(val.int_of() * pow2(N as nat)) {
                lemma_wrap_fits::<T>(val.int_of() * pow2(N as nat));
            }
        }
        Fixed(v)
    }

    /// The value whose raw backing integer is `val`.
    pub fn from_raw(val: T) -> (r: Self)
        ensures
            r.raw() == val.int_of(),
    {
        Fixed(val)
    }

    /// `2^N` fits the backing type, which bounds `N` below its width.
    pub proof fn lemma_one_fits()
        requires
            pow2(N as nat) <= T::high(),
        ensures
            N < T::width(),
            N < 127,
            pow2(N as nat) <= i128::MAX,
    {
        T::lemma_range();
        if N >= T::width() {
            if N > T::width() {
                vstd::arithmetic::power2::lemma_pow2_strictly_increases(T::width(), N as nat);
            }
        }
        if N >= 127 {
            vstd::arithmetic::power2::lemma2_to64();
            vstd::arithmetic::power2::lemma2_to64_rest();
            vstd::arithmetic::power2::lemma_pow2_adds(64, 63);
            if N > 127 {
                vstd::arithmetic::power2::lemma_pow2_strictly_increases(127, N as nat);
            }
        }
    }

    /// The additive identity, zero.
    pub fn zero() -> (r: Self)
        ensures
            r.raw() == 0,
    {
        Self::new()
    }

    /// The multiplicative identity: one, whose raw integer is `2^N`.
    pub fn one() -> (r: Self)
        requires
            pow2(N as nat) <= T::high(),
        ensures
            r.raw() == pow2(N as nat),
    {
        proof {
            Self::lemma_one_fits();
            T::lemma_range();
        }
        let p = pow2_wide(N);
        Fixed(T::from_wide(p))
    }

    /// Whether this is zero.
    pub fn is_zero(&self) -> (r: bool)
        ensures
            r == (self.raw() == 0),
    {
        self.0.to_wide() == 0
    }

    /// Whether this is one.
    pub fn is_one(&self) -> (r: bool)
        requires
            pow2(N as nat) <= T::high(),
        ensures
            r == (self.raw() == pow2(N as nat)),
    {
        let one = Self::one();
        self.0.to_wide() == one.0.to_wide()
    }

    /// Whether this value has no fraction bits set.
    fn is_whole(&self) -> (r: bool)
        requires
            pow2(N as nat) <= T::high(),
        ensures
            r == (self.raw() % (pow2(N as nat) as int) == 0),
    {
        proof {
            Self::lemma_one_fits();
            vstd::arithmetic::power2::lemma_pow2_pos(N as nat);
            lemma_floor_from_magnitude(self.raw(), pow2(N as nat) as int);
        }
        let p = pow2_wide(N);
        rem_wide(self.0.to_wide(), p) == 0
    }

    /// Get the largest integer less than or equal to this number.
    ///
    /// This respects signedness, and as such, negative will floor towards negative infinity.
    pub fn floor(self) -> (r: Self)
        requires
            N < T::width(),
            N < 127,
        ensures
            r.raw() == floor_multiple(self.raw(), N as nat),
    {
        proof {
            T::lemma_bounds(self.0);
            vstd::arithmetic::power2::lemma_pow2_pos(N as nat);
            vstd::arithmetic::power2::lemma2_to64();
            vstd::arithmetic::power2::lemma2_to64_rest();
            vstd::arithmetic::power2::lemma_pow2_adds(64, 62);
            if N < 126 {
                vstd::arithmetic::power2::lemma_pow2_strictly_increases(N as nat, 126);
            }
            lemma_floor_from_magnitude(self.raw(), pow2(N as nat) as int);
            lemma_floor_multiple_fits::<T>(self.raw(), N as nat);
            T::lemma_range();
        }
        let p = pow2_wide(N);
        let a = self.0.to_wide();
        let q = div_wide(a, p);
        let m = rem_wide(a, p);
        proof {
            let pi = p as int;
            let ai = a as int;
            vstd::arithmetic::div_mod::lemma_fundamental_div_mod(ai, pi);
            vstd::arithmetic::div_mod::lemma_mod_bound(ai, pi);
            if ai < 0 {
                assert(ai / pi >= ai) by (nonlinear_arith)
                    requires
                        ai < 0,
                        pi >= 1,
                        ai == pi * (ai / pi) + ai % pi,
                        0 <= ai % pi < pi,
                ;
            }
        }
        let fq = if m < 0 {
            q - 1
        } else {
            q
        };
        proof {
            assert(fq == self.raw() / (p as int));
        }
        Fixed(T::from_wide(fq * p))
    }

    /// Get the smallest integer greater than or equal to this number.
    pub fn ceil(self) -> (r: Self)
        requires
            pow2(N as nat) <= T::high(),
            self.raw() % (pow2(N as nat) as int) != 0 ==> fits::<T>(
                floor_multiple(self.raw(), N as nat) + pow2(N as nat),
            ),
        ensures
            r.raw() == if self.raw() % (pow2(N as nat) as int) == 0 {
                self.raw()
            } else {
                floor_multiple(self.raw(), N as nat) + pow2(N as nat)
            },
    {
        proof {
            Self::lemma_one_fits();
            T::lemma_range();
            vstd::arithmetic::power2::lemma_pow2_pos(N as nat);
            vstd::arithmetic::div_mod::lemma_fundamental_div_mod(self.raw(), pow2(N as nat) as int);
            vstd::arithmetic::mul::lemma_mul_is_commutative(
                pow2(N as nat) as int,
                self.raw() / (pow2(N as nat) as int),
            );
        }
        if self.is_whole() {
            self.floor()
        } else {
            let f = self.floor();
            let one = Self::one();
            Fixed(T::from_wide(f.0.to_wide() + one.0.to_wide()))
        }
    }

    /// The fraction: the remainder by one, with the sign of the value.
    pub fn fract(self) -> (r: Self)
        requires
            pow2(N as nat) <= T::high(),
        ensures
            r.raw() == rem_toward_zero(self.raw(), pow2(N as nat) as int),
    {
        proof {
            Self::lemma_one_fits();
            T::lemma_bounds(self.0);
            T::lemma_range();
            vstd::arithmetic::power2::lemma_pow2_pos(N as nat);
            lemma_floor_from_magnitude(self.raw(), pow2(N as nat) as int);
        }
        let one = Self::one();
        let m = rem_wide(self.0.to_wide(), one.0.to_wide());
        Fixed(T::from_wide(m))
    }

    /// The value with its fraction dropped, rounding toward zero.
    pub fn trunc(self) -> (r: Self)
        requires
            pow2(N as nat) <= T::high(),
        ensures
            r.raw() == self.raw() - rem_toward_zero(self.raw(), pow2(N as nat) as int),
    {
        proof {
            Self::lemma_one_fits();
            T::lemma_bounds(self.0);
            T::lemma_range();
            vstd::arithmetic::power2::lemma_pow2_pos(N as nat);
            lemma_floor_from_magnitude(self.raw(), pow2(N as nat) as int);
        }
        let f = self.fract();
        Fixed(T::from_wide(self.0.to_wide() - f.0.to_wide()))
    }

    /// Round to the nearest whole number; a value exactly halfway between two whole numbers
    /// rounds down.
    pub fn round(self) -> (r: Self)
        requires
            pow2(N as nat) <= T::high(),
            self.raw() - floor_multiple(self.raw(), N as nat) > pow2(N as nat) / 2 ==> fits::<T>(
                floor_multiple(self.raw(), N as nat) + pow2(N as nat),
            ),
        ensures
            r.raw() == floor_multiple(self.raw(), N as nat) + if self.raw() - floor_multiple(
                self.raw(),
                N as nat,
            ) > pow2(N as nat) / 2 {
                pow2(N as nat) as int
            } else {
                0int
            },
    {
        proof {
            Self::lemma_one_fits();
            T::lemma_bounds(self.0);
            T::lemma_range();
            lemma_floor_multiple_fits::<T>(self.raw(), N as nat);
        }
        let fl = self.floor();
        let one = Self::one();
        let f = self.0.to_wide() - fl.0.to_wide();
        let half = one.0.to_wide() / 2;
        if f > half {
            Fixed(T::from_wide(fl.0.to_wide() + one.0.to_wide()))
        } else {
            fl
        }
    }

    /// The value written in decimal, with a point before the last `N` digits of
    /// `raw * 10^N / 2^N`.
    pub fn debug_string(&self) -> (r: String)
        requires
            pow(10, N as nat) <= T::high(),
            pow2(N as nat) <= T::high(),
            fits::<T>(self.raw() * pow(10, N as nat)),
        ensures
            r@ == fixed_text(self.raw(), N as nat),
    {
        proof {
            Self::lemma_one_fits();
            T::lemma_range();
            vstd::arithmetic::power2::lemma_pow2_pos(N as nat);
        }
        let ten = pow10_wide(N);
        let two = pow2_wide(N);
        let q = div_wide(self.0.to_wide() * ten, two);
        let ghost w0: nat = abs(q as int);
        let mut whole: u128 = magnitude_wide(q);
        let mut syms: Vec<u8> = Vec::new();
        let ghost mut idx: nat = 0;
        let mut idx_small: usize = 0;
        while whole > 0
            invariant
                0 <= whole,
                N < 127,
                idx_small == if idx <= N + 1 { idx } else { (N + 1) as nat },
                syms@ + fixed_syms(whole as nat, N as nat, idx) == fixed_syms(w0, N as nat, 0),
                forall|i: int| 0 <= i < syms@.len() ==> syms@[i] <= 10,
            decreases whole,
        {
            let ghost old_syms = syms@;
            let ghost old_whole = whole as nat;
            if idx_small == N {
                syms.push(10);
            }
            let digit = (whole % 10) as u8;
            syms.push(digit);
            whole = whole / 10;
            proof {
                let point: Seq<u8> = if idx == N { seq![10u8] } else { seq![] };
                assert(fixed_syms(old_whole, N as nat, idx) == point + seq![(old_whole % 10) as u8]
                    + fixed_syms(old_whole / 10, N as nat, idx + 1));
                assert(syms@ =~= old_syms + point + seq![(old_whole % 10) as u8]);
                assert(syms@ + fixed_syms(whole as nat, N as nat, idx + 1) =~= old_syms + (point
                    + seq![(old_whole % 10) as u8] + fixed_syms(old_whole / 10, N as nat, idx + 1)));
                idx = idx + 1;
            }
            if idx_small <= N {
                idx_small += 1;
            }
        }
        if idx_small == N {
            syms.push(10);
        }
        proof {
            let point: Seq<u8> = if idx == N { seq![10u8] } else { seq![] };
            assert(fixed_syms(0, N as nat, idx) == point);
            assert(syms@ =~= fixed_syms(w0, N as nat, 0));
        }
        let body = write_syms(&syms);
        if q < 0 {
            let mut out = String::new();
            proof {
                reveal_strlit("-");
            }
            out.append("-");
            out.append(body.as_str());
            out
        } else {
            body
        }
    }
}

impl<T: MachineInt, const N: usize> core::ops::Add for Fixed<T, N> {
    type Output = Fixed<T, N>;

    fn add(self, rhs: Fixed<T, N>) -> (r: Fixed<T, N>)
        ensures
            r.raw() == self.raw() + rhs.raw(),
    {
        proof {
            T::lemma_range();
            T::lemma_bounds(self.0);
            T::lemma_bounds(rhs.0);
        }
        Fixed(T::from_wide(self.0.to_wide() + rhs.0.to_wide()))
    }
}

impl<T: MachineInt, const N: usize> vstd::std_specs::ops::AddSpecImpl for Fixed<T, N> {
    open spec fn obeys_add_spec() -> bool {
        false
    }

    open spec fn add_req(self, rhs: Fixed<T, N>) -> bool {
        fits::<T>(self.raw() + rhs.raw())
    }

    open spec fn add_spec(self, rhs: Fixed<T, N>) -> Fixed<T, N> {
        arbitrary()
    }
}

impl<T: MachineInt, const N: usize> core::ops::Sub for Fixed<T, N> {
    type Output = Fixed<T, N>;

    fn sub(self, rhs: Fixed<T, N>) -> (r: Fixed<T, N>)
        ensures
            r.raw() == self.raw() - rhs.raw(),
    {
        proof {
            T::lemma_range();
            T::lemma_bounds(self.0);
            T::lemma_bounds(rhs.0);
        }
        Fixed(T::from_wide(self.0.to_wide() - rhs.0.to_wide()))
    }
}

impl<T: MachineInt, const N: usize> vstd::std_specs::ops::SubSpecImpl for Fixed<T, N> {
    open spec fn obeys_sub_spec() -> bool {
        false
    }

    open spec fn sub_req(self, rhs: Fixed<T, N>) -> bool {
        fits::<T>(self.raw() - rhs.raw())
    }

    open spec fn sub_spec(self, rhs: Fixed<T, N>) -> Fixed<T, N> {
        arbitrary()
    }
}

impl<T: MachineInt, const N: usize> core::ops::Mul for Fixed<T, N> {
    type Output = Fixed<T, N>;

    fn mul(self, rhs: Fixed<T, N>) -> (r: Fixed<T, N>)
        ensures
            r.raw() == (self.raw() * rhs.raw()) / (pow2(N as nat) as int),
    {
        proof {
            T::lemma_range();
            T::lemma_bounds(self.0);
            T::lemma_bounds(rhs.0);
        }
        let prod = self.0.to_wide() * rhs.0.to_wide();
        let q = floor_by_pow2(prod, N);
        proof {
            lemma_floor_by_pow2_fits::<T>(prod as int, N as nat);
        }
        Fixed(T::from_wide(q))
    }
}

impl<T: MachineInt, const N: usize> vstd::std_specs::ops::MulSpecImpl for Fixed<T, N> {
    open spec fn obeys_mul_spec() -> bool {
        false
    }

    open spec fn mul_req(self, rhs: Fixed<T, N>) -> bool {
        &&& fits::<T>(self.raw() * rhs.raw())
        &&& N < T::width()
        &&& N < 127
    }

    open spec fn mul_spec(self, rhs: Fixed<T, N>) -> Fixed<T, N> {
        arbitrary()
    }
}

impl<T: MachineInt, const N: usize> core::ops::Div for Fixed<T, N> {
    type Output = Fixed<T, N>;

    fn div(self, rhs: Fixed<T, N>) -> (r: Fixed<T, N>)
        ensures
            r.raw() == quotient_toward_zero(self.raw() * pow2(N as nat), rhs.raw()),
    {
        proof {
            T::lemma_range();
            T::lemma_bounds(self.0);
            T::lemma_bounds(rhs.0);
            lemma_quotient_fits::<T>(self.raw() * pow2(N as nat), rhs.raw());
            vstd::arithmetic::power2::lemma2_to64();
            vstd::arithmetic::power2::lemma2_to64_rest();
            vstd::arithmetic::power2::lemma_pow2_adds(64, 62);
            if N < 126 {
                vstd::arithmetic::power2::lemma_pow2_strictly_increases(N as nat, 126);
            }
        }
        let p = pow2_wide(N);
        let scaled = self.0.to_wide() * p;
        Fixed(T::from_wide(div_wide(scaled, rhs.0.to_wide())))
    }
}

impl<T: MachineInt, const N: usize> vstd::std_specs::ops::DivSpecImpl for Fixed<T, N> {
    open spec fn obeys_div_spec() -> bool {
        false
    }

    open spec fn div_req(self, rhs: Fixed<T, N>) -> bool {
        &&& rhs.raw() != 0
        &&& N < 127
        &&& fits::<T>(self.raw() * pow2(N as nat))
        &&& !(self.raw() * pow2(N as nat) == T::low() && rhs.raw() == -1)
    }

    open spec fn div_spec(self, rhs: Fixed<T, N>) -> Fixed<T, N> {
        arbitrary()
    }
}

impl<T: MachineInt, const N: usize> core::ops::Rem for Fixed<T, N> {
    type Output = Fixed<T, N>;

    fn rem(self, rhs: Fixed<T, N>) -> (r: Fixed<T, N>)
        ensures
            r.raw() == rem_toward_zero(self.raw(), rhs.raw()),
    {
        proof {
            T::lemma_range();
            T::lemma_bounds(self.0);
            T::lemma_bounds(rhs.0);
            lemma_remainder_fits::<T>(self.raw(), rhs.raw());
        }
        Fixed(T::from_wide(rem_wide(self.0.to_wide(), rhs.0.to_wide())))
    }
}

impl<T: MachineInt, const N: usize> vstd::std_specs::ops::RemSpecImpl for Fixed<T, N> {
    open spec fn obeys_rem_spec() -> bool {
        false
    }

    open spec fn rem_req(self, rhs: Fixed<T, N>) -> bool {
        rhs.raw() != 0 && !(self.raw() == T::low() && rhs.raw() == -1)
    }

    open spec fn rem_spec(self, rhs: Fixed<T, N>) -> Fixed<T, N> {
        arbitrary()
    }
}

impl<T: MachineInt, const N: usize> core::ops::Neg for Fixed<T, N> {
    type Output = Fixed<T, N>;

    fn neg(self) -> (r: Fixed<T, N>)
        ensures
            r.raw() == -self.raw(),
    {
        proof {
            T::lemma_range();
            T::lemma_bounds(self.0);
        }
        Fixed(T::from_wide(0 - self.0.to_wide()))
    }
}

impl<T: MachineInt, const N: usize> vstd::std_specs::ops::NegSpecImpl for Fixed<T, N> {
    open spec fn obeys_neg_spec() -> bool {
        false
    }

    open spec fn neg_req(self) -> bool {
        fits::<T>(-self.raw())
    }

    open spec fn neg_spec(self) -> Fixed<T, N> {
        arbitrary()
    }
}

impl<T: MachineInt, const N: usize> Default for Fixed<T, N> {
    fn default() -> (r: Self)
        ensures
            r.raw() == 0,
    {
        Fixed::new()
    }
}

impl<T: MachineInt, const N: usize> Bounded for Fixed<T, N> {
    fn min_value() -> (r: Self)
        ensures
            r.raw() == T::low(),
    {
        proof {
            T::lemma_range();
        }
        Fixed(T::min_int())
    }

    fn max_value() -> (r: Self)
        ensures
            r.raw() == T::high(),
    {
        proof {
            T::lemma_range();
        }
        Fixed(T::max_int())
    }
}

impl<T: MachineInt, const N: usize> PartialEq for Fixed<T, N> {
    fn eq(&self, other: &Self) -> (r: bool) {
        self.0.to_wide() == other.0.to_wide()
    }
}

impl<T: MachineInt, const N: usize> vstd::std_specs::cmp::PartialEqSpecImpl for Fixed<T, N> {
    open spec fn obeys_eq_spec() -> bool {
        true
    }

    open spec fn eq_spec(&self, other: &Fixed<T, N>) -> bool {
        self.raw() == other.raw()
    }
}

impl<T: MachineInt, const N: usize> PartialOrd for Fixed<T, N> {
    fn partial_cmp(&self, other: &Self) -> (r: Option<Ordering>) {
        let a = self.0.to_wide();
        let b = other.0.to_wide();
        if a < b {
            Some(Ordering::Less)
        } else if a == b {
            Some(Ordering::Equal)
        } else {
            Some(Ordering::Greater)
        }
    }
}

impl<T: MachineInt, const N: usize> vstd::std_specs::cmp::PartialOrdSpecImpl for Fixed<T, N> {
    open spec fn obeys_partial_cmp_spec() -> bool {
        true
    }

    open spec fn partial_cmp_spec(&self, other: &Fixed<T, N>) -> Option<Ordering> {
        Some(order_of_ints(self.raw(), other.raw()))
    }
}

} // verus!
