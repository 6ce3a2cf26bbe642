use numeric::big_int::BigInt;
use numeric::i::I;
use numeric::u::U;
use std::fmt;
use std::ops::Add;

trait TestInt: fmt::Debug + Clone + PartialEq + Add<Output = Self> {
    fn zero() -> Self;
    fn one() -> Self;
    fn truncate(v: i32) -> Self;
}

impl<const N: usize> TestInt for U<N> {
    fn zero() -> Self {
        U::zero()
    }

    fn one() -> Self {
        U::one()
    }

    fn truncate(v: i32) -> Self {
        U::from_u128_wrapping(v as u128)
    }
}

impl<const N: usize> TestInt for I<N> {
    fn zero() -> Self {
        I::zero()
    }

    fn one() -> Self {
        I::one()
    }

    fn truncate(v: i32) -> Self {
        I::from_i128_checked(v as i128).unwrap()
    }
}

impl TestInt for BigInt {
    fn zero() -> Self {
        BigInt::zero()
    }

    fn one() -> Self {
        BigInt::one()
    }

    fn truncate(v: i32) -> Self {
        BigInt::from(v)
    }
}

fn test_int<T: TestInt>() {
    test_add::<T>();
}

fn test_int_signed<T: TestInt>() {
    test_int::<T>();
    test_add_signed::<T>();
}

fn test_add<T: TestInt>() {
    let zero = T::zero();
    let one = T::one();
    let two = T::truncate(2);

    assert_eq!(zero.clone() + zero.clone(), zero);
    assert_eq!(zero.clone() + one.clone(), one);
    assert_eq!(one.clone() + zero.clone(), one);
    assert_eq!(one.clone() + one.clone(), two);
}

fn test_add_signed<T: TestInt>() {
    let zero = T::zero();
    let one = T::one();
    let neg_one = T::truncate(-1);
    let neg_two = T::truncate(-2);

    assert_eq!(zero.clone() + neg_one.clone(), neg_one);
    assert_eq!(neg_one.clone() + zero.clone(), neg_one);
    assert_eq!(one.clone() + neg_one.clone(), zero);
    assert_eq!(neg_one.clone() + one.clone(), zero);
    assert_eq!(neg_one.clone() + neg_one.clone(), neg_two);
}

#[test]
fn test_big_int() {
    test_int_signed::<BigInt>();
}

#[test]
fn test_u() {
    test_int::<U<1>>();
    test_int::<U<2>>();
    test_int::<U<3>>();
    test_int::<U<4>>();
    test_int::<U<5>>();
    test_int::<U<6>>();
    test_int::<U<7>>();
    test_int::<U<8>>();
}

#[test]
fn test_i() {
    test_int_signed::<I<1>>();
    test_int_signed::<I<2>>();
    test_int_signed::<I<3>>();
    test_int_signed::<I<4>>();
    test_int_signed::<I<5>>();
    test_int_signed::<I<6>>();
    test_int_signed::<I<7>>();
    test_int_signed::<I<8>>();
}
