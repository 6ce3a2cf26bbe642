//! Traits shared by the number types: conversions, classification and operations.
use vstd::prelude::*;

verus! {

/// Parse a value from text in a given radix.
pub trait FromStrRadix: Sized {
    type Error;

    fn from_str_radix(str: &str, radix: u32) -> Result<Self, Self::Error>;
}

/// Convert from another type where the value fits.
pub trait FromChecked<T>: Sized {
    fn from_checked(val: T) -> Option<Self>;
}

/// Convert from another type, clamping to the nearest value that fits.
pub trait FromSaturating<T>: Sized {
    fn saturate(val: T) -> Self;
}

/// Convert from another type, keeping the low bits.
pub trait FromTruncating<T>: Sized {
    fn truncate(val: T) -> Self;
}

/// Convert from another type, to the nearest value that can be held.
pub trait FromApproximating<T>: Sized {
    fn approx(val: T) -> Self;
}

/// All of the checked, saturating and truncating conversions.
pub trait FromAll<T>: FromChecked<T> + FromSaturating<T> + FromTruncating<T> {}

/// Conversions from each of the primitive integers up to 64 bits.
pub trait FromPrim:
    FromAll<u8> + FromAll<u16> + FromAll<u32> + FromAll<u64> + FromAll<i8> + FromAll<i16> + FromAll<
        i32,
    > + FromAll<i64> {

}

/// Trait for generic number-like types: comparable values with the common operations.
pub trait Numeric: PartialEq + PartialOrd + Clone {

}

/// Trait for types that are unsigned. These types can only represent non-negative values
pub trait Unsigned {

}

/// Trait for types that are signed. These types can represent both positive and negative values
pub trait Signed: Sized {
    /// Get the absolute value of this number.
    fn abs(self) -> Self;

    /// Whether this value is positive (`>= 0`)
    fn is_positive(&self) -> bool;

    /// Whether this value is negative (`< 0`)
    fn is_negative(&self) -> bool;
}

/// Trait for types that are 'integer like': whole numbers with bitwise and shift operations.
pub trait Integral: Numeric {

}

/// Trait for types that are 'real-number like'.
pub trait Real: Numeric + Sized {
    fn floor(self) -> Self;

    fn ceil(self) -> Self;

    fn round(self) -> Self;

    fn trunc(self) -> Self;

    fn fract(self) -> Self;

    fn log(self, base: Self) -> Self;

    fn root(self, base: Self) -> Self;

    fn sqrt(self) -> Self;

    fn cbrt(self) -> Self;
}

/// The kind of a floating point value.
pub enum FloatClass {
    Nan,
    Infinite,
    Zero,
    Subnormal,
    Normal,
}

/// Trait for real types in the float format, with `NaN` and infinite values.
pub trait Float: Real {
    fn nan() -> Self;

    fn inf() -> Self;

    fn neg_inf() -> Self;

    fn epsilon() -> Self;

    fn is_nan(&self) -> bool;

    fn is_inf(&self) -> bool;

    fn is_normal(&self) -> bool;

    fn classify(&self) -> FloatClass;
}

/// Trait for types that represent only a finite range of numbers.
pub trait Bounded: Sized {
    /// The minimum representable value for this type
    fn min_value() -> Self;

    /// The maximum representable value for this type
    fn max_value() -> Self;
}

/// Bounded signed types, with the values closest to zero on either side.
pub trait BoundedSigned: Bounded + Signed {
    /// The minimum value representable by this type that is greater than 0
    fn min_positive() -> Self;

    /// The maximum value representable by this type that is less than 0
    fn max_negative() -> Self;
}

/// Bounded types with bit counting.
pub trait BoundedBit: Bounded {
    fn leading_zeros(self) -> Self;

    fn trailing_zeros(self) -> Self;
}

/// Raise to a power.
pub trait Pow<Rhs = Self> {
    type Output;

    fn pow(self, rhs: Rhs) -> Self::Output;
}

/// Addition that reports overflow.
pub trait OverflowingAdd<Rhs = Self> {
    type Output;

    fn overflowing_add(self, rhs: Rhs) -> (Self::Output, bool);
}

/// Subtraction that reports overflow.
pub trait OverflowingSub<Rhs = Self> {
    type Output;

    fn overflowing_sub(self, rhs: Rhs) -> (Self::Output, bool);
}

/// Multiplication that reports overflow.
pub trait OverflowingMul<Rhs = Self> {
    type Output;

    fn overflowing_mul(self, rhs: Rhs) -> (Self::Output, bool);
}

/// All of the overflowing operations.
pub trait OverflowingOps<Rhs = Self, Out = Self>:
    OverflowingAdd<Rhs, Output = Out> + OverflowingSub<Rhs, Output = Out> + OverflowingMul<
        Rhs,
        Output = Out,
    > {

}

/// Turn a borrowed or owned value into an owned one.
pub trait IntoOwned<T> {
    fn into_owned(self) -> T;
}

impl<T> IntoOwned<T> for T {
    fn into_owned(self) -> (r: T)
        ensures
            r == self,
    {
        self
    }
}

impl<'a, T: Copy> IntoOwned<Vec<T>> for &'a [T] {
    fn into_owned(self) -> (r: Vec<T>)
        ensures
            owned_copy(r, self),
    {
        copy_slice(self)
    }
}

/// Whether `v` holds the items of `s`, in order.
pub open spec fn owned_copy<T>(v: Vec<T>, s: &[T]) -> bool {
    v@ == s@
}

/// An owned copy of the items of a slice.
pub fn copy_slice<T: Copy>(s: &[T]) -> (r: Vec<T>)
    ensures
        r@ == s@,
{
    let mut out: Vec<T> = Vec::new();
    let mut i: usize = 0;
    while i < s.len()
        invariant
            i <= s@.len(),
            out@ == s@.take(i as int),
        decreases s@.len() - i,
    {
        out.push(s[i]);
        i += 1;
        proof {
            assert(out@ =~= s@.take(i as int));
        }
    }
    proof {
        assert(s@.take(s@.len() as int) =~= s@);
    }
    out
}

} // verus!
