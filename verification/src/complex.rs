//! Complex numbers over a machine integer type, with the operations of the type.
use vstd::prelude::*;
use crate::ibig::quotient_toward_zero;
use crate::machine_int::{MachineInt, fits, div_wide, lemma_quotient_fits};

verus! {

/// A complex number: a real part and an imaginary part.
#[derive(Debug)]
pub struct Complex<T> {
    re: T,
    im: T,
}

impl<T: MachineInt> View for Complex<T> {
    type V = (int, int);

    closed spec fn view(&self) -> (int, int) {
        (self.re.int_of(), self.im.int_of())
    }
}

impl<T: MachineInt> Complex<T> {
    pub fn from_vals(re: T, im: T) -> (r: Complex<T>)
        ensures
            r@ == (re.int_of(), im.int_of()),
    {
        Complex { re, im }
    }

    pub fn new() -> (r: Complex<T>)
        ensures
            r@ == (0int, 0int),
    {
        proof {
            T::lemma_range();
        }
        Complex { re: T::from_wide(0), im: T::from_wide(0) }
    }

    pub fn from_real(re: T) -> (r: Complex<T>)
        ensures
            r@ == (re.int_of(), 0int),
    {
        proof {
            T::lemma_range();
        }
        Complex { re, im: T::from_wide(0) }
    }

    pub fn from_imag(im: T) -> (r: Complex<T>)
        ensures
            r@ == (0int, im.int_of()),
    {
        proof {
            T::lemma_range();
        }
        Complex { re: T::from_wide(0), im }
    }

    /// The squared magnitude: the sum of the squares of both parts.
    pub fn abs_squared(&self) -> (r: T)
        requires
            fits::<T>(self@.0 * self@.0),
            fits::<T>(self@.1 * self@.1),
            fits::<T>(self@.0 * self@.0 + self@.1 * self@.1),
        ensures
            r.int_of() == self@.0 * self@.0 + self@.1 * self@.1,
    {
        proof {
            T::lemma_range();
            T::lemma_bounds(self.re);
            T::lemma_bounds(self.im);
        }
        let a = self.re.to_wide();
        let b = self.im.to_wide();
        T::from_wide(a * a + b * b)
    }
}

impl<T: MachineInt> Default for Complex<T> {
    fn default() -> (r: Self)
        ensures
            r@ == (0int, 0int),
    {
        Self::new()
    }
}

/// A sum of squares is not negative.
proof fn lemma_divisor_square_sum(c: int, d: int)
    ensures
        c * c + d * d >= 0,
        c != 0 ==> c * c > 0,
{
    assert(c * c >= 0) by (nonlinear_arith);
    assert(c != 0 ==> c * c > 0) by (nonlinear_arith);
    assert(d * d >= 0) by (nonlinear_arith);
}

impl<T: MachineInt> core::ops::Add for Complex<T> {
    type Output = Complex<T>;

    fn add(self, rhs: Complex<T>) -> (r: Complex<T>)
        ensures
            r@ == (self@.0 + rhs@.0, self@.1 + rhs@.1),
    {
        proof {
            T::lemma_range();
            T::lemma_bounds(self.re);
            T::lemma_bounds(self.im);
            T::lemma_bounds(rhs.re);
            T::lemma_bounds(rhs.im);
        }
        let a = self.re.to_wide();
        let b = self.im.to_wide();
        let c = rhs.re.to_wide();
        let d = rhs.im.to_wide();
        Complex { re: T::from_wide(a + c), im: T::from_wide(b + d) }
    }
}

impl<T: MachineInt> vstd::std_specs::ops::AddSpecImpl for Complex<T> {
    open spec fn obeys_add_spec() -> bool {
        false
    }

    open spec fn add_req(self, rhs: Complex<T>) -> bool {
        fits::<T>(self@.0 + rhs@.0) && fits::<T>(self@.1 + rhs@.1)
    }

    open spec fn add_spec(self, rhs: Complex<T>) -> Complex<T> {
        arbitrary()
    }
}

impl<T: MachineInt> core::ops::Add<T> for Complex<T> {
    type Output = Complex<T>;

    fn add(self, rhs: T) -> (r: Complex<T>)
        ensures
            r@ == (self@.0 + rhs.int_of(), self@.1),
    {
        proof {
            T::lemma_range();
            T::lemma_bounds(self.re);
            T::lemma_bounds(self.im);
            T::lemma_bounds(rhs);
        }
        let a = self.re.to_wide();
        let b = self.im.to_wide();
        let c = rhs.to_wide();
        Complex { re: T::from_wide(a + c), im: T::from_wide(b) }
    }
}

impl<T: MachineInt> vstd::std_specs::ops::AddSpecImpl<T> for Complex<T> {
    open spec fn obeys_add_spec() -> bool {
        false
    }

    open spec fn add_req(self, rhs: T) -> bool {
        fits::<T>(self@.0 + rhs.int_of())
    }

    open spec fn add_spec(self, rhs: T) -> Complex<T> {
        arbitrary()
    }
}

impl<T: MachineInt> core::ops::Sub for Complex<T> {
    type Output = Complex<T>;

    fn sub(self, rhs: Complex<T>) -> (r: Complex<T>)
        ensures
            r@ == (self@.0 - rhs@.0, self@.1 - rhs@.1),
    {
        proof {
            T::lemma_range();
            T::lemma_bounds(self.re);
            T::lemma_bounds(self.im);
            T::lemma_bounds(rhs.re);
            T::lemma_bounds(rhs.im);
        }
        let a = self.re.to_wide();
        let b = self.im.to_wide();
        let c = rhs.re.to_wide();
        let d = rhs.im.to_wide();
        Complex { re: T::from_wide(a - c), im: T::from_wide(b - d) }
    }
}

impl<T: MachineInt> vstd::std_specs::ops::SubSpecImpl for Complex<T> {
    open spec fn obeys_sub_spec() -> bool {
        false
    }

    open spec fn sub_req(self, rhs: Complex<T>) -> bool {
        fits::<T>(self@.0 - rhs@.0) && fits::<T>(self@.1 - rhs@.1)
    }

    open spec fn sub_spec(self, rhs: Complex<T>) -> Complex<T> {
        arbitrary()
    }
}

impl<T: MachineInt> core::ops::Sub<T> for Complex<T> {
    type Output = Complex<T>;

    fn sub(self, rhs: T) -> (r: Complex<T>)
        ensures
            r@ == (self@.0 - rhs.int_of(), self@.1),
    {
        proof {
            T::lemma_range();
            T::lemma_bounds(self.re);
            T::lemma_bounds(self.im);
            T::lemma_bounds(rhs);
        }
        let a = self.re.to_wide();
        let b = self.im.to_wide();
        let c = rhs.to_wide();
        Complex { re: T::from_wide(a - c), im: T::from_wide(b) }
    }
}

impl<T: MachineInt> vstd::std_specs::ops::SubSpecImpl<T> for Complex<T> {
    open spec fn obeys_sub_spec() -> bool {
        false
    }

    open spec fn sub_req(self, rhs: T) -> bool {
        fits::<T>(self@.0 - rhs.int_of())
    }

    open spec fn sub_spec(self, rhs: T) -> Complex<T> {
        arbitrary()
    }
}

impl<T: MachineInt> core::ops::Mul for Complex<T> {
    type Output = Complex<T>;

    fn mul(self, rhs: Complex<T>) -> (r: Complex<T>)
        ensures
            r@ == (self@.0 * rhs@.0 - self@.1 * rhs@.1, self@.0 * rhs@.1 + rhs@.0 * self@.1),
    {
        proof {
            T::lemma_range();
            T::lemma_bounds(self.re);
            T::lemma_bounds(self.im);
            T::lemma_bounds(rhs.re);
            T::lemma_bounds(rhs.im);
        }
        let a = self.re.to_wide();
        let b = self.im.to_wide();
        let c = rhs.re.to_wide();
        let d = rhs.im.to_wide();
        Complex { re: T::from_wide(a * c - b * d), im: T::from_wide(a * d + c * b) }
    }
}

impl<T: MachineInt> vstd::std_specs::ops::MulSpecImpl for Complex<T> {
    open spec fn obeys_mul_spec() -> bool {
        false
    }

    open spec fn mul_req(self, rhs: Complex<T>) -> bool {
        &&& fits::<T>(self@.0 * rhs@.0)
        &&& fits::<T>(self@.1 * rhs@.1)
        &&& fits::<T>(self@.0 * rhs@.0 - self@.1 * rhs@.1)
        &&& fits::<T>(self@.0 * rhs@.1)
        &&& fits::<T>(rhs@.0 * self@.1)
        &&& fits::<T>(self@.0 * rhs@.1 + rhs@.0 * self@.1)
    }

    open spec fn mul_spec(self, rhs: Complex<T>) -> Complex<T> {
        arbitrary()
    }
}

impl<T: MachineInt> core::ops::Mul<T> for Complex<T> {
    type Output = Complex<T>;

    fn mul(self, rhs: T) -> (r: Complex<T>)
        ensures
            r@ == (self@.0 * rhs.int_of(), self@.1 * rhs.int_of()),
    {
        proof {
            T::lemma_range();
            T::lemma_bounds(self.re);
            T::lemma_bounds(self.im);
            T::lemma_bounds(rhs);
        }
        let a = self.re.to_wide();
        let b = self.im.to_wide();
        let c = rhs.to_wide();
        Complex { re: T::from_wide(a * c), im: T::from_wide(b * c) }
    }
}

impl<T: MachineInt> vstd::std_specs::ops::MulSpecImpl<T> for Complex<T> {
    open spec fn obeys_mul_spec() -> bool {
        false
    }

    open spec fn mul_req(self, rhs: T) -> bool {
        fits::<T>(self@.0 * rhs.int_of()) && fits::<T>(self@.1 * rhs.int_of())
    }

    open spec fn mul_spec(self, rhs: T) -> Complex<T> {
        arbitrary()
    }
}

impl<T: MachineInt> core::ops::Div for Complex<T> {
    type Output = Complex<T>;

    fn div(self, rhs: Complex<T>) -> (r: Complex<T>)
        ensures
            r@ == (quotient_toward_zero(self@.0 * rhs@.0 + self@.1 * rhs@.1, rhs@.0 * rhs@.0 + rhs@.1 * rhs@.1), quotient_toward_zero(self@.1 * rhs@.0 - self@.0 * rhs@.1, rhs@.0 * rhs@.0 + rhs@.1 * rhs@.1)),
    {
        proof {
            T::lemma_range();
            T::lemma_bounds(self.re);
            T::lemma_bounds(self.im);
            T::lemma_bounds(rhs.re);
            T::lemma_bounds(rhs.im);
        }
        let a = self.re.to_wide();
        let b = self.im.to_wide();
        let c = rhs.re.to_wide();
        let d = rhs.im.to_wide();
        let divisor = c * c + d * d;
        proof {
            lemma_divisor_square_sum(c as int, d as int);
            lemma_quotient_fits::<T>(a * c + b * d, divisor as int);
            lemma_quotient_fits::<T>(b * c - a * d, divisor as int);
        }
        Complex { re: T::from_wide(div_wide(a * c + b * d, divisor)), im: T::from_wide(div_wide(b * c - a * d, divisor)) }
    }
}

impl<T: MachineInt> vstd::std_specs::ops::DivSpecImpl for Complex<T> {
    open spec fn obeys_div_spec() -> bool {
        false
    }

    open spec fn div_req(self, rhs: Complex<T>) -> bool {
        &&& fits::<T>(rhs@.0 * rhs@.0)
        &&& fits::<T>(rhs@.1 * rhs@.1)
        &&& fits::<T>(rhs@.0 * rhs@.0 + rhs@.1 * rhs@.1)
        &&& rhs@.0 * rhs@.0 + rhs@.1 * rhs@.1 != 0
        &&& fits::<T>(self@.0 * rhs@.0)
        &&& fits::<T>(self@.1 * rhs@.1)
        &&& fits::<T>(self@.0 * rhs@.0 + self@.1 * rhs@.1)
        &&& fits::<T>(self@.1 * rhs@.0)
        &&& fits::<T>(self@.0 * rhs@.1)
        &&& fits::<T>(self@.1 * rhs@.0 - self@.0 * rhs@.1)
    }

    open spec fn div_spec(self, rhs: Complex<T>) -> Complex<T> {
        arbitrary()
    }
}

impl<T: MachineInt> core::ops::Div<T> for Complex<T> {
    type Output = Complex<T>;

    fn div(self, rhs: T) -> (r: Complex<T>)
        ensures
            r@ == (quotient_toward_zero(self@.0 * rhs.int_of(), rhs.int_of() * rhs.int_of()), quotient_toward_zero(self@.1 * rhs.int_of(), rhs.int_of() * rhs.int_of())),
    {
        proof {
            T::lemma_range();
            T::lemma_bounds(self.re);
            T::lemma_bounds(self.im);
            T::lemma_bounds(rhs);
        }
        let a = self.re.to_wide();
        let b = self.im.to_wide();
        let c = rhs.to_wide();
        let divisor = c * c;
        proof {
            lemma_divisor_square_sum(c as int, 0);
            lemma_quotient_fits::<T>(a * c, divisor as int);
            lemma_quotient_fits::<T>(b * c, divisor as int);
        }
        Complex { re: T::from_wide(div_wide(a * c, divisor)), im: T::from_wide(div_wide(b * c, divisor)) }
    }
}

impl<T: MachineInt> vstd::std_specs::ops::DivSpecImpl<T> for Complex<T> {
    open spec fn obeys_div_spec() -> bool {
        false
    }

    open spec fn div_req(self, rhs: T) -> bool {
        &&& rhs.int_of() != 0
        &&& fits::<T>(rhs.int_of() * rhs.int_of())
        &&& fits::<T>(self@.0 * rhs.int_of())
        &&& fits::<T>(self@.1 * rhs.int_of())
    }

    open spec fn div_spec(self, rhs: T) -> Complex<T> {
        arbitrary()
    }
}

} // verus!
