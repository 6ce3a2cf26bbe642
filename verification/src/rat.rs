//! Rational values: a numerator over a non-zero denominator, both of one machine integer type.
use vstd::prelude::*;
use crate::ibig::{abs, quotient_toward_zero};
use crate::machine_int::{MachineInt, fits, rem_toward_zero, magnitude_wide, div_wide, rem_wide,
    lemma_quotient_fits, lemma_remainder_fits};
use crate::traits::Bounded;

verus! {

/// The greatest common divisor, by Euclid's algorithm; `gcd(a, 0) == a`.
pub open spec fn gcd(a: nat, b: nat) -> nat
    decreases b,
{
    if b == 0 {
        a
    } else {
        gcd(b, a % b)
    }
}

/// The greatest common divisor divides both arguments, and is positive and at most `a` when `a`
/// is positive.
pub proof fn lemma_gcd_divides(a: nat, b: nat)
    ensures
        gcd(a, b) > 0 ==> a % gcd(a, b) == 0 && b % gcd(a, b) == 0,
        a > 0 ==> 0 < gcd(a, b) <= a,
        b > 0 ==> 0 < gcd(a, b) <= b,
    decreases b,
{
    if b == 0 {
        if a > 0 {
            vstd::arithmetic::div_mod::lemma_mod_self_0(a as int);
            vstd::arithmetic::div_mod::lemma_small_mod(0, a);
        }
    } else {
        let r = a % b;
        lemma_gcd_divides(b, r);
        let g = gcd(b, r);
        vstd::arithmetic::div_mod::lemma_mod_bound(a as int, b as int);
        if g > 0 {
            vstd::arithmetic::div_mod::lemma_fundamental_div_mod(b as int, g as int);
            vstd::arithmetic::div_mod::lemma_fundamental_div_mod(r as int, g as int);
            vstd::arithmetic::div_mod::lemma_fundamental_div_mod(a as int, b as int);
            let x = b / g;
            let y = r / g;
            let q = a / b;
            assert(a == g * (x * q + y)) by (nonlinear_arith)
                requires
                    b == g * x,
                    r == g * y,
                    a == b * q + r,
            ;
            vstd::arithmetic::div_mod::lemma_mod_multiples_basic((x * q + y) as int, g as int);
            vstd::arithmetic::mul::lemma_mul_is_commutative(g as int, (x * q + y) as int);
        }
        if a > 0 && g > 0 {
            vstd::arithmetic::div_mod::lemma_fundamental_div_mod(a as int, g as int);
            assert(g <= a) by (nonlinear_arith)
                requires
                    a == g * (a / g) + a % g,
                    a % g == 0,
                    a > 0,
                    g > 0,
            ;
        }
    }
}

/// Euclid's algorithm on 128-bit words.
fn gcd_wide(a: u128, b: u128) -> (r: u128)
    ensures
        r == gcd(a as nat, b as nat),
{
    let mut x = a;
    let mut y = b;
    while y != 0
        invariant
            gcd(x as nat, y as nat) == gcd(a as nat, b as nat),
        decreases y,
    {
        let t = x % y;
        x = y;
        y = t;
    }
    x
}

/// `num / denom` reduced: zero as `0 / 1`, otherwise both divided by their greatest common
/// divisor.
pub fn reduce_parts<T: MachineInt>(num: T, denom: T) -> (r: (T, T))
    ensures
        (r.0.int_of(), r.1.int_of()) == reduce_pair(num.int_of(), denom.int_of()),
{
    proof {
        T::lemma_range();
        T::lemma_bounds(num);
        T::lemma_bounds(denom);
    }
    let n = num.to_wide();
    let d = denom.to_wide();
    if n == 0 {
        return (T::from_wide(0), T::from_wide(1));
    }
    let g = gcd_wide(magnitude_wide(n), magnitude_wide(d));
    let ghost an = abs(n as int);
    let ghost ad = abs(d as int);
    proof {
        lemma_gcd_divides(an, ad);
        lemma_exact_division(n as int, g as int);
        lemma_exact_division(d as int, g as int);
    }
    if g > 0x7fff_ffff_ffff_ffff_ffff_ffff_ffff_ffffu128 {
        proof {
            assert(an == 0x8000_0000_0000_0000_0000_0000_0000_0000int);
            if ad > 0 {
                assert(ad == 0x8000_0000_0000_0000_0000_0000_0000_0000int);
                assert(n == d);
            }
            assert(g as int == an);
            vstd::arithmetic::div_mod::lemma_fundamental_div_mod_converse(n as int, g as int, -1, 0);
            vstd::arithmetic::div_mod::lemma_div_basics_1(g as int);
        }
        let dd: i128 = if d == 0 {
            0
        } else {
            -1
        };
        return (T::from_wide(-1), T::from_wide(dd));
    }
    let gw = g as i128;
    let rn = div_wide(n, gw);
    let rd = div_wide(d, gw);
    (T::from_wide(rn), T::from_wide(rd))
}

/// The pair a rational is kept as after reducing `n / d`: zero as `0 / 1`; otherwise both
/// divided by their greatest common divisor.
pub open spec fn reduce_pair(n: int, d: int) -> (int, int) {
    if n == 0 {
        (0, 1)
    } else {
        let g = gcd(abs(n), abs(d)) as int;
        (n / g, d / g)
    }
}

/// The largest integer at most `n / d`.
pub open spec fn floor_div(n: int, d: int) -> int {
    if d > 0 {
        n / d
    } else {
        (-n) / (-d)
    }
}

/// The smallest integer at least `n / d`.
pub open spec fn ceil_div(n: int, d: int) -> int {
    -floor_div(-n, d)
}

/// Division toward zero rebuilds the dividend with a remainder smaller than the divisor that
/// carries the dividend's sign.
proof fn lemma_trunc_div(n: int, d: int)
    requires
        d != 0,
    ensures
        n == quotient_toward_zero(n, d) * d + rem_toward_zero(n, d),
        rem_toward_zero(n, d) > 0 ==> n > 0,
        rem_toward_zero(n, d) < 0 ==> n < 0,
        abs(rem_toward_zero(n, d)) < abs(d),
        quotient_toward_zero(-n, d) == -quotient_toward_zero(n, d),
        rem_toward_zero(-n, d) == -rem_toward_zero(n, d),
{
    let an = abs(n) as int;
    let ad = abs(d) as int;
    vstd::arithmetic::div_mod::lemma_fundamental_div_mod(an, ad);
    vstd::arithmetic::div_mod::lemma_mod_bound(an, ad);
    let q = an / ad;
    let m = an % ad;
    assert(abs(-n) == abs(n));
    vstd::arithmetic::div_mod::lemma_div_pos_is_pos(an, ad);
    if n >= 0 && d > 0 {
        assert(n == q * d + m) by (nonlinear_arith)
            requires
                an == ad * q + m,
                n == an,
                d == ad,
        ;
    } else if n >= 0 && d < 0 {
        assert(n == (-q) * d + m) by (nonlinear_arith)
            requires
                an == ad * q + m,
                n == an,
                d == -ad,
        ;
    } else if n < 0 && d > 0 {
        assert(n == (-q) * d + (-m)) by (nonlinear_arith)
            requires
                an == ad * q + m,
                n == -an,
                d == ad,
        ;
    } else {
        assert(n == q * d + (-m)) by (nonlinear_arith)
            requires
                an == ad * q + m,
                n == -an,
                d == -ad,
        ;
    }
}

/// The floor of `n / d` is the quotient toward zero, one less when the remainder and the
/// divisor differ in sign.
proof fn lemma_floor_div(n: int, d: int)
    requires
        d != 0,
    ensures
        floor_div(n, d) == quotient_toward_zero(n, d) - (if rem_toward_zero(n, d) != 0 && ((
        rem_toward_zero(n, d) < 0) != (d < 0)) {
            1int
        } else {
            0int
        }),
{
    lemma_trunc_div(n, d);
    let q = quotient_toward_zero(n, d);
    let m = rem_toward_zero(n, d);
    if d > 0 {
        if m >= 0 {
            vstd::arithmetic::div_mod::lemma_fundamental_div_mod_converse(n, d, q, m);
        } else {
            assert(n == (q - 1) * d + (m + d)) by (nonlinear_arith)
                requires
                    n == q * d + m,
            ;
            vstd::arithmetic::div_mod::lemma_fundamental_div_mod_converse(n, d, q - 1, m + d);
        }
    } else {
        if m <= 0 {
            assert(-n == q * (-d) + (-m)) by (nonlinear_arith)
                requires
                    n == q * d + m,
            ;
            vstd::arithmetic::div_mod::lemma_fundamental_div_mod_converse(-n, -d, q, -m);
        } else {
            assert(-n == (q - 1) * (-d) + (-d - m)) by (nonlinear_arith)
                requires
                    n == q * d + m,
            ;
            vstd::arithmetic::div_mod::lemma_fundamental_div_mod_converse(-n, -d, q - 1, -d - m);
        }
    }
}

/// The ceiling of `n / d` is the quotient toward zero, one more when the remainder and the
/// divisor agree in sign.
proof fn lemma_ceil_div(n: int, d: int)
    requires
        d != 0,
    ensures
        ceil_div(n, d) == quotient_toward_zero(n, d) + (if rem_toward_zero(n, d) != 0 && ((
        rem_toward_zero(n, d) < 0) == (d < 0)) {
            1int
        } else {
            0int
        }),
{
    lemma_trunc_div(n, d);
    lemma_floor_div(-n, d);
}

/// A whole number reduces to itself over one.
proof fn lemma_reduce_whole(x: int)
    ensures
        reduce_pair(x, 1) == (x, 1int),
{
    vstd::arithmetic::div_mod::lemma_fundamental_div_mod_converse(abs(x) as int, 1, abs(x) as int, 0);
    assert(gcd(abs(x), 1) == 1) by {
        reveal_with_fuel(gcd, 2);
    }
    vstd::arithmetic::div_mod::lemma_div_basics_2(x);
    vstd::arithmetic::div_mod::lemma_div_basics_2(1);
}

/// The remainders that reducing computes stay in range: neither is the smallest value by minus
/// one.
pub open spec fn reducible<T: MachineInt>(n: int, d: int) -> bool {
    &&& !(n == T::low() && d == -1)
    &&& !(d == T::low() && n == -1)
}

/// A real value represented as a whole fraction. With a bounded
/// backing type, this type can represent all whole values from the backing's maximum to minimum,
/// half step values from half maximum to half minimum, etc.
#[derive(Copy, Debug)]
pub struct Rat<T: MachineInt> {
    num: T,
    denom: T,
}

impl<T: MachineInt> View for Rat<T> {
    type V = (int, int);

    closed spec fn view(&self) -> (int, int) {
        (self.num.int_of(), self.denom.int_of())
    }
}

impl<T: MachineInt> Rat<T> {
    /// The denominator is never zero.
    #[verifier::type_invariant]
    spec fn denom_nonzero(self) -> bool {
        self.denom.int_of() != 0
    }

    /// Both parts lie in the backing type's range, and the denominator is not zero.
    proof fn lemma_parts(self)
        requires
            self.denom_nonzero(),
        ensures
            fits::<T>(self@.0),
            fits::<T>(self@.1),
            self@.1 != 0,
    {
        T::lemma_bounds(self.num);
        T::lemma_bounds(self.denom);
    }

    /// Reduce `num / denom`, which is not over zero.
    fn reduce(num: T, denom: T) -> (r: Rat<T>)
        requires
            denom.int_of() != 0,
            reducible::<T>(num.int_of(), denom.int_of()),
        ensures
            r@ == reduce_pair(num.int_of(), denom.int_of()),
    {
        let (n, d) = reduce_parts(num, denom);
        proof {
            if num.int_of() != 0 {
                let g = gcd(abs(num.int_of()), abs(denom.int_of()));
                lemma_gcd_divides(abs(num.int_of()), abs(denom.int_of()));
                lemma_exact_division(denom.int_of(), g as int);
            }
        }
        Rat { num: n, denom: d }
    }

    /// Create a new rational from a numerator and denominator, with both values simplified.
    pub fn new(numerator: T, denominator: T) -> (r: Option<Rat<T>>)
        requires
            denominator.int_of() != 0 ==> reducible::<T>(numerator.int_of(), denominator.int_of()),
        ensures
            r is None <==> denominator.int_of() == 0,
            r matches Some(v) ==> v@ == reduce_pair(numerator.int_of(), denominator.int_of()),
    {
        if denominator.to_wide() == 0 {
            None
        } else {
            Some(Self::reduce(numerator, denominator))
        }
    }

    pub fn numerator(&self) -> (r: &T)
        ensures
            r.int_of() == self@.0,
    {
        &self.num
    }

    pub fn denominator(&self) -> (r: &T)
        ensures
            r.int_of() == self@.1,
    {
        &self.denom
    }

    /// Convert this value into a numerator/denominator pair
    pub fn into_pair(self) -> (r: (T, T))
        ensures
            (r.0.int_of(), r.1.int_of()) == self@,
    {
        (self.num, self.denom)
    }

    /// Zero, as `0 / 1`.
    pub fn zero() -> (r: Rat<T>)
        ensures
            r@ == (0int, 1int),
    {
        proof {
            T::lemma_range();
        }
        Rat { num: T::from_wide(0), denom: T::from_wide(1) }
    }

    /// One, as `1 / 1`.
    pub fn one() -> (r: Rat<T>)
        ensures
            r@ == (1int, 1int),
    {
        proof {
            T::lemma_range();
        }
        Rat { num: T::from_wide(1), denom: T::from_wide(1) }
    }

    /// Whether the numerator is zero.
    pub fn is_zero(&self) -> (r: bool)
        ensures
            r == (self@.0 == 0),
    {
        self.num.to_wide() == 0
    }

    /// Whether this is kept as `1 / 1`.
    pub fn is_one(&self) -> (r: bool)
        ensures
            r == (self@ == (1int, 1int)),
    {
        self.num.to_wide() == 1 && self.denom.to_wide() == 1
    }

    /// Whether the numerator is greater than zero.
    pub fn is_positive(&self) -> (r: bool)
        ensures
            r == (self@.0 > 0),
    {
        self.num.to_wide() > 0
    }

    /// Whether the numerator is less than zero.
    pub fn is_negative(&self) -> (r: bool)
        ensures
            r == (self@.0 < 0),
    {
        self.num.to_wide() < 0
    }

    /// The numerator made non-negative; the denominator is kept.
    pub fn abs(self) -> (r: Rat<T>)
        requires
            fits::<T>(abs(self@.0) as int),
        ensures
            r@ == (abs(self@.0) as int, self@.1),
    {
        proof {
            use_type_invariant(&self);
            T::lemma_range();
        }
        let n = self.num.to_wide();
        if n < 0 {
            Rat { num: T::from_wide(0 - n), denom: self.denom }
        } else {
            self
        }
    }

    /// Get the largest whole number less than or equal to this value.
    pub fn floor(self) -> (r: Rat<T>)
        requires
            fits::<T>(floor_div(self@.0, self@.1)),
        ensures
            r@ == (floor_div(self@.0, self@.1), 1int),
    {
        proof {
            use_type_invariant(&self);
            T::lemma_range();
            self.lemma_parts();
            lemma_floor_div(self@.0, self@.1);
            lemma_reduce_whole(floor_div(self@.0, self@.1));
        }
        let n = self.num.to_wide();
        let d = self.denom.to_wide();
        let m = rem_wide(n, d);
        let q = if m != 0 && ((m < 0) != (d < 0)) {
            if d == -1 {
                proof {
                    assert(false);
                }
                0
            } else {
                div_wide(n, d) - 1
            }
        } else if n == i128::MIN && d == -1 {
            proof {
                vstd::arithmetic::div_mod::lemma_div_basics_2(-(n as int));
                vstd::arithmetic::div_mod::lemma_div_basics_2(n as int);
                assert(false);
            }
            0
        } else {
            div_wide(n, d)
        };
        Self::reduce(T::from_wide(q), T::from_wide(1))
    }

    /// Get the smallest whole number greater than or equal to this value.
    pub fn ceil(self) -> (r: Rat<T>)
        requires
            fits::<T>(ceil_div(self@.0, self@.1)),
        ensures
            r@ == (ceil_div(self@.0, self@.1), 1int),
    {
        proof {
            use_type_invariant(&self);
            T::lemma_range();
            self.lemma_parts();
            lemma_ceil_div(self@.0, self@.1);
            lemma_reduce_whole(ceil_div(self@.0, self@.1));
        }
        let n = self.num.to_wide();
        let d = self.denom.to_wide();
        let m = rem_wide(n, d);
        let q = if m != 0 && ((m < 0) == (d < 0)) {
            if d == -1 {
                proof {
                    assert(false);
                }
                0
            } else {
                div_wide(n, d) + 1
            }
        } else if n == i128::MIN && d == -1 {
            proof {
                vstd::arithmetic::div_mod::lemma_div_basics_2(-(n as int));
                vstd::arithmetic::div_mod::lemma_div_basics_2(n as int);
                assert(false);
            }
            0
        } else {
            div_wide(n, d)
        };
        Self::reduce(T::from_wide(q), T::from_wide(1))
    }

    /// Rounding: the quotient toward zero, plus one when the remainder exceeds half the
    /// denominator.
    pub fn round(self) -> (r: Rat<T>)
        requires
            !(self@.0 == T::low() && self@.1 == -1),
            fits::<T>(
                quotient_toward_zero(self@.0, self@.1) + (if rem_toward_zero(self@.0, self@.1)
                    > quotient_toward_zero(self@.1, 2) {
                    1int
                } else {
                    0int
                }),
            ),
        ensures
            r@ == reduce_pair(
                quotient_toward_zero(self@.0, self@.1) + (if rem_toward_zero(self@.0, self@.1)
                    > quotient_toward_zero(self@.1, 2) {
                    1int
                } else {
                    0int
                }),
                1,
            ),
    {
        proof {
            use_type_invariant(&self);
            T::lemma_range();
            self.lemma_parts();
            lemma_quotient_fits::<T>(self@.0, self@.1);
        }
        let n = self.num.to_wide();
        let d = self.denom.to_wide();
        let two: i128 = 2;
        let diff = rem_wide(n, d);
        let add: i128 = if diff > div_wide(d, two) {
            1
        } else {
            0
        };
        let div = div_wide(n, d);
        Self::reduce(T::from_wide(div + add), T::from_wide(1))
    }
}

/// Dividing by a divisor of the magnitude is exact, and the quotient is no larger in magnitude.
proof fn lemma_exact_division(n: int, g: int)
    requires
        g > 0,
        abs(n) % (g as nat) == 0,
    ensures
        quotient_toward_zero(n, g) == n / g,
        n == g * (n / g),
        abs(n / g) <= abs(n),
        n >= 0 ==> n / g >= 0,
        n < 0 ==> n / g < 0,
        n != 0 ==> n / g != 0,
{
    let m = abs(n) as int;
    vstd::arithmetic::div_mod::lemma_fundamental_div_mod(m, g);
    let q = m / g;
    vstd::arithmetic::div_mod::lemma_div_pos_is_pos(m, g);
    vstd::arithmetic::div_mod::lemma_div_is_ordered_by_denominator(m, 1, g);
    if n >= 0 {
        if n != 0 && q == 0 {
            assert(m == 0) by (nonlinear_arith)
                requires
                    m == g * q + m % g,
                    m % g == 0,
                    q == 0,
            ;
        }
    } else {
        assert(n == g * (-q)) by (nonlinear_arith)
            requires
                m == g * q,
                n == -m,
        ;
        vstd::arithmetic::div_mod::lemma_div_multiples_vanish(-q, g);
        if q == 0 {
            assert(m == 0) by (nonlinear_arith)
                requires
                    m == g * q,
                    q == 0,
            ;
        }
    }
}

/// The numerator less its remainder is divisible by the denominator, and dividing it gives the
/// quotient toward zero.
proof fn lemma_subtract_remainder(n: int, d: int)
    requires
        d != 0,
    ensures
        quotient_toward_zero(n - rem_toward_zero(n, d), d) == quotient_toward_zero(n, d),
        n >= 0 ==> 0 <= n - rem_toward_zero(n, d) <= n,
        n < 0 ==> n <= n - rem_toward_zero(n, d) <= 0,
{
    let an = abs(n) as int;
    let ad = abs(d) as int;
    vstd::arithmetic::div_mod::lemma_fundamental_div_mod(an, ad);
    vstd::arithmetic::div_mod::lemma_mod_bound(an, ad);
    let q = an / ad;
    let r = an % ad;
    let m = an - r;
    assert(m == ad * q);
    vstd::arithmetic::div_mod::lemma_div_multiples_vanish(q, ad);
    vstd::arithmetic::div_mod::lemma_mod_multiples_basic(q, ad);
    vstd::arithmetic::mul::lemma_mul_is_commutative(ad, q);
}

impl<T: MachineInt> Clone for Rat<T> {
    fn clone(&self) -> (r: Self)
        ensures
            r == *self,
    {
        *self
    }
}

impl<T: MachineInt> Default for Rat<T> {
    fn default() -> (r: Self)
        ensures
            r@ == (0int, 1int),
    {
        Rat::zero()
    }
}

impl<T: MachineInt> PartialEq for Rat<T> {
    fn eq(&self, other: &Self) -> (r: bool) {
        self.num.to_wide() == other.num.to_wide() && self.denom.to_wide() == other.denom.to_wide()
    }
}

impl<T: MachineInt> vstd::std_specs::cmp::PartialEqSpecImpl for Rat<T> {
    open spec fn obeys_eq_spec() -> bool {
        true
    }

    open spec fn eq_spec(&self, other: &Rat<T>) -> bool {
        self@ == other@
    }
}

impl<T: MachineInt> Eq for Rat<T> {

}

/// The cross sum `a/b + c/d` before reducing: `(a d + c b) / (b d)`.
pub open spec fn cross_sum(x: (int, int), y: (int, int)) -> (int, int) {
    (x.0 * y.1 + y.0 * x.1, x.1 * y.1)
}

/// The cross difference `a/b - c/d` before reducing: `(a d - c b) / (b d)`.
pub open spec fn cross_difference(x: (int, int), y: (int, int)) -> (int, int) {
    (x.0 * y.1 - y.0 * x.1, x.1 * y.1)
}

/// Every product and sum of the cross sum stays in range, and so does its reduction.
pub open spec fn cross_fits<T: MachineInt>(x: (int, int), y: (int, int), p: (int, int)) -> bool {
    &&& fits::<T>(x.0 * y.1)
    &&& fits::<T>(y.0 * x.1)
    &&& fits::<T>(p.0)
    &&& fits::<T>(p.1)
    &&& reducible::<T>(p.0, p.1)
}

impl<T: MachineInt> core::ops::Add for Rat<T> {
    type Output = Rat<T>;

    fn add(self, rhs: Self) -> (r: Rat<T>)
        ensures
            r@ == reduce_pair(cross_sum(self@, rhs@).0, cross_sum(self@, rhs@).1),
    {
        proof {
            use_type_invariant(&self);
            use_type_invariant(&rhs);
            T::lemma_range();
            self.lemma_parts();
            rhs.lemma_parts();
            assert(self@.1 * rhs@.1 != 0) by (nonlinear_arith)
                requires
                    self@.1 != 0,
                    rhs@.1 != 0,
            ;
        }
        let a = self.num.to_wide();
        let b = self.denom.to_wide();
        let c = rhs.num.to_wide();
        let d = rhs.denom.to_wide();
        Self::reduce(T::from_wide(a * d + c * b), T::from_wide(b * d))
    }
}

impl<T: MachineInt> vstd::std_specs::ops::AddSpecImpl for Rat<T> {
    open spec fn obeys_add_spec() -> bool {
        false
    }

    open spec fn add_req(self, rhs: Rat<T>) -> bool {
        cross_fits::<T>(self@, rhs@, cross_sum(self@, rhs@))
    }

    open spec fn add_spec(self, rhs: Rat<T>) -> Rat<T> {
        arbitrary()
    }
}

impl<T: MachineInt> core::ops::Sub for Rat<T> {
    type Output = Rat<T>;

    fn sub(self, rhs: Self) -> (r: Rat<T>)
        ensures
            r@ == reduce_pair(cross_difference(self@, rhs@).0, cross_difference(self@, rhs@).1),
    {
        proof {
            use_type_invariant(&self);
            use_type_invariant(&rhs);
            T::lemma_range();
            self.lemma_parts();
            rhs.lemma_parts();
            assert(self@.1 * rhs@.1 != 0) by (nonlinear_arith)
                requires
                    self@.1 != 0,
                    rhs@.1 != 0,
            ;
        }
        let a = self.num.to_wide();
        let b = self.denom.to_wide();
        let c = rhs.num.to_wide();
        let d = rhs.denom.to_wide();
        Self::reduce(T::from_wide(a * d - c * b), T::from_wide(b * d))
    }
}

impl<T: MachineInt> vstd::std_specs::ops::SubSpecImpl for Rat<T> {
    open spec fn obeys_sub_spec() -> bool {
        false
    }

    open spec fn sub_req(self, rhs: Rat<T>) -> bool {
        cross_fits::<T>(self@, rhs@, cross_difference(self@, rhs@))
    }

    open spec fn sub_spec(self, rhs: Rat<T>) -> Rat<T> {
        arbitrary()
    }
}

impl<T: MachineInt> core::ops::Mul for Rat<T> {
    type Output = Rat<T>;

    fn mul(self, rhs: Self) -> (r: Rat<T>)
        ensures
            r@ == reduce_pair(self@.0 * rhs@.0, self@.1 * rhs@.1),
    {
        proof {
            use_type_invariant(&self);
            use_type_invariant(&rhs);
            T::lemma_range();
            self.lemma_parts();
            rhs.lemma_parts();
            assert(self@.1 * rhs@.1 != 0) by (nonlinear_arith)
                requires
                    self@.1 != 0,
                    rhs@.1 != 0,
            ;
        }
        let a = self.num.to_wide();
        let b = self.denom.to_wide();
        let c = rhs.num.to_wide();
        let d = rhs.denom.to_wide();
        Self::reduce(T::from_wide(a * c), T::from_wide(b * d))
    }
}

impl<T: MachineInt> vstd::std_specs::ops::MulSpecImpl for Rat<T> {
    open spec fn obeys_mul_spec() -> bool {
        false
    }

    open spec fn mul_req(self, rhs: Rat<T>) -> bool {
        &&& fits::<T>(self@.0 * rhs@.0)
        &&& fits::<T>(self@.1 * rhs@.1)
        &&& reducible::<T>(self@.0 * rhs@.0, self@.1 * rhs@.1)
    }

    open spec fn mul_spec(self, rhs: Rat<T>) -> Rat<T> {
        arbitrary()
    }
}

impl<T: MachineInt> core::ops::Div for Rat<T> {
    type Output = Rat<T>;

    fn div(self, rhs: Self) -> (r: Rat<T>)
        ensures
            r@ == reduce_pair(self@.0 * rhs@.1, self@.1 * rhs@.0),
    {
        proof {
            use_type_invariant(&self);
            use_type_invariant(&rhs);
            T::lemma_range();
            self.lemma_parts();
            rhs.lemma_parts();
            assert(self@.1 * rhs@.0 != 0) by (nonlinear_arith)
                requires
                    self@.1 != 0,
                    rhs@.0 != 0,
            ;
        }
        let a = self.num.to_wide();
        let b = self.denom.to_wide();
        let c = rhs.num.to_wide();
        let d = rhs.denom.to_wide();
        Self::reduce(T::from_wide(a * d), T::from_wide(b * c))
    }
}

impl<T: MachineInt> vstd::std_specs::ops::DivSpecImpl for Rat<T> {
    open spec fn obeys_div_spec() -> bool {
        false
    }

    open spec fn div_req(self, rhs: Rat<T>) -> bool {
        &&& rhs@.0 != 0
        &&& fits::<T>(self@.0 * rhs@.1)
        &&& fits::<T>(self@.1 * rhs@.0)
        &&& reducible::<T>(self@.0 * rhs@.1, self@.1 * rhs@.0)
    }

    open spec fn div_spec(self, rhs: Rat<T>) -> Rat<T> {
        arbitrary()
    }
}

impl<T: MachineInt> core::ops::Neg for Rat<T> {
    type Output = Rat<T>;

    fn neg(self) -> (r: Rat<T>)
        ensures
            r@ == (-self@.0, self@.1),
    {
        proof {
            use_type_invariant(&self);
            T::lemma_range();
            self.lemma_parts();
        }
        Rat { num: T::from_wide(0 - self.num.to_wide()), denom: self.denom }
    }
}

impl<T: MachineInt> vstd::std_specs::ops::NegSpecImpl for Rat<T> {
    open spec fn obeys_neg_spec() -> bool {
        false
    }

    open spec fn neg_req(self) -> bool {
        fits::<T>(-self@.0)
    }

    open spec fn neg_spec(self) -> Rat<T> {
        arbitrary()
    }
}

impl<T: MachineInt> Bounded for Rat<T> {
    fn min_value() -> (r: Self)
        ensures
            r@ == (T::low(), 1int),
    {
        proof {
            T::lemma_range();
        }
        Rat { num: T::min_int(), denom: T::from_wide(1) }
    }

    fn max_value() -> (r: Self)
        ensures
            r@ == (T::high(), 1int),
    {
        proof {
            T::lemma_range();
        }
        Rat { num: T::max_int(), denom: T::from_wide(1) }
    }
}

} // verus!
