use numeric::i::I;
use numeric::traits::FromChecked;

#[test]
fn test_display() {
    let one: I<1> = I::one();
    assert_eq!(one.to_string(), "1");
    let neg_one: I<1> = -I::one();
    assert_eq!(neg_one.to_string(), "-1");
    let max: I<1> = I::max_value();
    assert_eq!(max.to_string(), "127");
    let min: I<1> = I::min_value();
    assert_eq!(min.to_string(), "-128");

    let big: I<5> = I::from_checked(i32::MAX).unwrap();
    assert_eq!(big.to_string(), "2147483647");
    let small: I<5> = I::from_checked(i32::MIN).unwrap();
    assert_eq!(small.to_string(), "-2147483648");
}

#[test]
fn i_test_one() {
    let one: I<1> = I::one();
    assert_eq!(one, I([1]));
    let one: I<2> = I::one();
    assert_eq!(one, I([1, 0]));
    let one: I<4> = I::one();
    assert_eq!(one, I([1, 0, 0, 0]));
    assert!(one.is_one());
}

#[test]
fn i_test_cmp() {
    let one: I<3> = I::one();
    let two = I([2, 0, 0]);
    assert_eq!(one, one);
    assert_ne!(one, two);
    assert_eq!(two, two);
}

#[test]
fn test_ord() {
    let zero: I<3> = I::zero();
    let one = I::one();
    let neg_one = -I::one();
    let two = one + one;
    let neg_two = -two;

    assert!(neg_one > neg_two);
    assert!(neg_one < zero);
    assert!(neg_one < one);
    assert!(neg_one < two);

    assert!(zero > neg_two);
    assert!(zero > neg_one);
    assert!(zero < one);
    assert!(zero < two);

    assert!(one > neg_two);
    assert!(one > neg_one);
    assert!(one > zero);
    assert!(one < two);
}

#[test]
fn i_test_abs() {
    let one: I<3> = I::one();
    let neg_one: I<3> = -I::one();
    let big: I<3> = I::max_value();
    let small = I::min_value() + one;

    assert_eq!(neg_one.abs(), one);
    assert_eq!(small.abs(), big);
}

#[test]
fn test_neg() {
    let zero: I<3> = I::zero();
    let one: I<3> = I::one();
    let neg_one = I::max_negative();

    assert_eq!(-one, neg_one);
    assert_eq!(-neg_one, one);
    assert_eq!(-zero, zero);
}

#[test]
fn i_test_add() {
    let one: I<3> = I::one();
    let zero = I::zero();
    let neg_one = -I::one();
    assert_eq!(one + one, I([2, 0, 0]));
    assert_eq!(one + zero, one);
    assert_eq!(zero + zero, zero);
    assert_eq!(neg_one + one, zero);
    assert_eq!(neg_one + zero, neg_one);
    assert_eq!(neg_one + neg_one, I([0xFE, 0xFF, 0xFF]));
}

#[test]
fn i_test_sub() {
    let one: I<3> = I::one();
    let zero = I::zero();
    assert_eq!(one + one, I([2, 0, 0]));
    assert_eq!(one + zero, one);
    assert_eq!(zero + zero, zero);
}

#[test]
fn i_test_mul() {
    let one: I<3> = I::one();
    let zero = I::zero();
    let neg_one = -I::one();
    let two = one + one;

    assert_eq!(zero * zero, zero);
    assert_eq!(one * one, one);
    assert_eq!(one * two, I([2, 0, 0]));
    assert_eq!(one * zero, zero);
    assert_eq!(neg_one * one, neg_one);
    assert_eq!(neg_one * zero, zero);
    assert_eq!(neg_one * two, I([0xFE, 0xFF, 0xFF]));
}

#[test]
fn i_test_div() {
    let one: I<3> = I::one();
    let zero = I::zero();
    let neg_one = -I::one();
    let two = one + one;
    let max = I::max_value();
    let min = I::min_value();

    assert_eq!(zero / one, zero);
    assert_eq!(one / one, one);
    assert_eq!(one / two, zero);
    assert_eq!(two / one, two);
    assert_eq!(two / two, one);
    assert_eq!(neg_one / one, -one);
    assert_eq!(one / neg_one, -one);
    assert_eq!(neg_one / neg_one, one);
    assert_eq!(max / one, max);
    assert_eq!(max / max, one);
    assert_eq!(max / neg_one, min + one);
}

#[test]
fn test_from_checked() {
    assert_eq!(I::<1>::from_checked(0u8), Some(I::zero()));
    assert_eq!(I::<1>::from_checked(127u8), Some(I::max_value()));
    assert_eq!(I::<1>::from_checked(128u8), None);
    assert_eq!(I::<1>::from_checked(255u8), None);
    assert_eq!(I::<1>::from_checked(-128i8), Some(I::min_value()));
    assert_eq!(I::<1>::from_checked(127i8), Some(I::max_value()));

    assert_eq!(I::<1>::from_checked(0u16), Some(I::zero()));
    assert_eq!(I::<1>::from_checked(127u16), Some(I::max_value()));
    assert_eq!(I::<1>::from_checked(128u16), None);
    assert_eq!(I::<1>::from_checked(255u16), None);
    assert_eq!(I::<1>::from_checked(u16::MAX), None);
    assert_eq!(I::<1>::from_checked(-128i16), Some(I::min_value()));
    assert_eq!(I::<1>::from_checked(-129i16), None);
    assert_eq!(I::<1>::from_checked(127i16), Some(I::max_value()));
    assert_eq!(I::<1>::from_checked(128i16), None);

    assert_eq!(I::<2>::from_checked(0u8), Some(I::zero()));
    assert_eq!(I::<2>::from_checked(255u8), Some(I([0xFF, 0x0])));
    assert_eq!(I::<2>::from_checked(i8::MIN), Some(I([0x80, 0xFF])));
    assert_eq!(I::<2>::from_checked(i8::MAX), Some(I([0x7F, 0x00])));
}

#[test]
fn i_wrapping_and_remainder() {
    let min: I<1> = I::min_value();
    assert_eq!(-min, min);
    assert_eq!(min.abs(), min);
    let seven: I<2> = I::from_checked(7i8).unwrap();
    let neg_two: I<2> = I::from_checked(-2i8).unwrap();
    assert_eq!(seven % neg_two, I::from_checked(-1i8).unwrap());
    assert_eq!(seven / neg_two, I::from_checked(-3i8).unwrap());
    let max: I<1> = I::max_value();
    assert_eq!(max + I::one(), min);
    assert_eq!(I::<1>::from_be_bytes([0x80]).to_be_bytes(), [0x80]);
}

#[test]
#[should_panic]
fn test_div_invalid() {
    let _ = I::<1>::min_value() / -I::one();
}
