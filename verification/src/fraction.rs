//! A value held as a numerator and a denominator of one machine integer type.
use vstd::prelude::*;
use crate::machine_int::{MachineInt, fits};
use crate::traits::Bounded;
use crate::rat::{reduce_pair, reduce_parts};

verus! {

/// A real value represented as a whole fraction. With a bounded
/// backing type, this type can represent all whole values from the backing's maximum to minimum,
/// half step values from half maximum to half minimum, etc.
#[derive(Copy, Clone, Debug)]
pub struct Decimal<T>(T, T);

impl<T: MachineInt> View for Decimal<T> {
    type V = (int, int);

    closed spec fn view(&self) -> (int, int) {
        (self.0.int_of(), self.1.int_of())
    }
}

impl<T: MachineInt> Decimal<T> {
    /// Create a new decimal with the default value - zero
    pub fn new() -> (r: Decimal<T>)
        ensures
            r@ == (0int, 1int),
    {
        proof {
            T::lemma_range();
        }
        Decimal(T::from_wide(0), T::from_wide(1))
    }

    /// Create a new decimal from a numerator and denominator, reduced: zero as `0 / 1`,
    /// otherwise both divided by their greatest common divisor.
    pub fn from_num_denom(numerator: T, denominator: T) -> (r: Decimal<T>)
        ensures
            r@ == reduce_pair(numerator.int_of(), denominator.int_of()),
    {
        let (n, d) = reduce_parts(numerator, denominator);
        Decimal(n, d)
    }

    /// Convert this value into a numerator/denominator pair
    pub fn into_num_denom(self) -> (r: (T, T))
        ensures
            (r.0.int_of(), r.1.int_of()) == self@,
    {
        (self.0, self.1)
    }

    /// Zero, as `0 / 1`.
    pub fn zero() -> (r: Decimal<T>)
        ensures
            r@ == (0int, 1int),
    {
        Decimal::new()
    }

    /// One, as `1 / 1`.
    pub fn one() -> (r: Decimal<T>)
        ensures
            r@ == (1int, 1int),
    {
        proof {
            T::lemma_range();
        }
        Decimal(T::from_wide(1), T::from_wide(1))
    }

    /// Whether this is kept as `0 / 1`.
    pub fn is_zero(&self) -> (r: bool)
        ensures
            r == (self@ == (0int, 1int)),
    {
        self.0.to_wide() == 0 && self.1.to_wide() == 1
    }

    /// Whether this is kept as `1 / 1`.
    pub fn is_one(&self) -> (r: bool)
        ensures
            r == (self@ == (1int, 1int)),
    {
        self.0.to_wide() == 1 && self.1.to_wide() == 1
    }
}

impl<T: MachineInt> Default for Decimal<T> {
    fn default() -> (r: Self)
        ensures
            r@ == (0int, 1int),
    {
        Self::new()
    }
}

impl<T: MachineInt> PartialEq for Decimal<T> {
    fn eq(&self, other: &Self) -> (r: bool) {
        self.0.to_wide() == other.0.to_wide() && self.1.to_wide() == other.1.to_wide()
    }
}

impl<T: MachineInt> vstd::std_specs::cmp::PartialEqSpecImpl for Decimal<T> {
    open spec fn obeys_eq_spec() -> bool {
        true
    }

    open spec fn eq_spec(&self, other: &Decimal<T>) -> bool {
        self@ == other@
    }
}

impl<T: MachineInt> Eq for Decimal<T> {

}

impl<T: MachineInt> core::ops::Neg for Decimal<T> {
    type Output = Decimal<T>;

    fn neg(self) -> (r: Decimal<T>)
        ensures
            r@ == (-self@.0, self@.1),
    {
        proof {
            T::lemma_range();
            T::lemma_bounds(self.0);
        }
        Decimal(T::from_wide(0 - self.0.to_wide()), self.1)
    }
}

impl<T: MachineInt> vstd::std_specs::ops::NegSpecImpl for Decimal<T> {
    open spec fn obeys_neg_spec() -> bool {
        false
    }

    open spec fn neg_req(self) -> bool {
        fits::<T>(-self@.0)
    }

    open spec fn neg_spec(self) -> Decimal<T> {
        arbitrary()
    }
}

impl<T: MachineInt> Bounded for Decimal<T> {
    fn min_value() -> (r: Self)
        ensures
            r@ == (T::low(), 1int),
    {
        proof {
            T::lemma_range();
        }
        Decimal(T::min_int(), T::from_wide(1))
    }

    fn max_value() -> (r: Self)
        ensures
            r@ == (T::high(), 1int),
    {
        proof {
            T::lemma_range();
        }
        Decimal(T::max_int(), T::from_wide(1))
    }
}

} // verus!
