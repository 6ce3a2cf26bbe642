use numeric::fixed::Fixed;

#[test]
fn test_debug() {
    assert_eq!(&Fixed::<_, 1>::from_raw(0b01).debug_string(), ".5");
    assert_eq!(&Fixed::<_, 1>::from_raw(0b10).debug_string(), "1.0");
    assert_eq!(&Fixed::<_, 1>::from_raw(0b11).debug_string(), "1.5");
}

#[test]
fn fixed_floor() {
    assert_eq!(Fixed::<_, 1>::from_val(2).floor(), Fixed::from_val(2));
    assert_eq!(Fixed::<_, 1>::from_raw(0b11).floor(), Fixed::from_val(1));
    assert_eq!(Fixed::<_, 1>::from_raw(-0b11).floor(), Fixed::from_val(-2));
    assert_eq!(Fixed::<_, 2>::from_raw(-0b110).floor(), Fixed::from_val(-2));
}

#[test]
fn fixed_ceil() {
    assert_eq!(Fixed::<_, 1>::from_val(2).ceil(), Fixed::from_val(2));
    assert_eq!(Fixed::<_, 1>::from_raw(0b11).ceil(), Fixed::from_val(2));
    assert_eq!(Fixed::<_, 1>::from_raw(-0b11).ceil(), Fixed::from_val(-1));
    assert_eq!(Fixed::<_, 2>::from_raw(-0b110).ceil(), Fixed::from_val(-1));
}

#[test]
fn fixed_trunc() {
    assert_eq!(Fixed::<_, 1>::from_val(2).trunc(), Fixed::from_val(2));
    assert_eq!(Fixed::<_, 1>::from_raw(0b11).trunc(), Fixed::from_val(1));
    assert_eq!(Fixed::<_, 1>::from_raw(-0b11).trunc(), Fixed::from_val(-1));
    assert_eq!(Fixed::<_, 2>::from_raw(-0b110).trunc(), Fixed::from_val(-1));
}

#[test]
fn fixed_fract() {
    assert_eq!(Fixed::<_, 1>::from_val(2).fract(), Fixed::from_val(0));
    assert_eq!(Fixed::<_, 1>::from_raw(0b11).fract(), Fixed::from_raw(0b01));
    assert_eq!(Fixed::<_, 1>::from_raw(-0b11).fract(), Fixed::from_raw(-0b01));
    assert_eq!(Fixed::<_, 2>::from_raw(-0b110).fract(), Fixed::from_raw(-0b010));
}

#[test]
fn fixed_round_to_nearest() {
    assert_eq!(Fixed::<i32, 2>::from_raw(0b101).round(), Fixed::from_val(1));
    assert_eq!(Fixed::<i32, 2>::from_raw(0b100).round(), Fixed::from_val(1));
    assert_eq!(Fixed::<i32, 2>::from_raw(0b110).round(), Fixed::from_val(1));
    assert_eq!(Fixed::<i32, 2>::from_raw(0b111).round(), Fixed::from_val(2));
    assert_eq!(Fixed::<i32, 2>::from_raw(-0b101).round(), Fixed::from_val(-1));
    assert_eq!(Fixed::<i32, 2>::from_raw(-0b110).round(), Fixed::from_val(-2));
    assert_eq!(Fixed::<i32, 2>::from_raw(-0b111).round(), Fixed::from_val(-2));
}

#[test]
fn fixed_arithmetic_keeps_the_scale() {
    let a = Fixed::<i64, 4>::from_raw(40);
    let b = Fixed::<i64, 4>::from_raw(-6);
    assert_eq!(a + b, Fixed::from_raw(34));
    assert_eq!(a - b, Fixed::from_raw(46));
    assert_eq!(a * b, Fixed::from_raw(-15));
    assert_eq!(a / b, Fixed::from_raw(-106));
    assert_eq!(a % b, Fixed::from_raw(4));
    assert_eq!(-b, Fixed::from_raw(6));
    assert!(b < a);
    assert!(Fixed::<u8, 3>::one() == Fixed::from_raw(8));
    assert_eq!(Fixed::<i16, 2>::from_raw(13).debug_string(), "3.25");
}

#[test]
fn fixed_mul_div_of_whole_numbers() {
    let a = Fixed::<i32, 1>::from_val(2);
    let b = Fixed::<i32, 1>::from_val(3);
    assert_eq!(a * b, Fixed::from_val(6));
    assert_eq!(Fixed::<i32, 1>::from_val(6) / b, a);
    assert_eq!(Fixed::<i32, 1>::from_val(3) / a, Fixed::from_raw(0b11));
}

#[test]
fn fixed_from_val_wraps_lost_bits() {
    assert!(Fixed::<i8, 4>::from_val(9) == Fixed::from_raw(-112));
    assert!(Fixed::<u8, 4>::from_val(17) == Fixed::from_raw(16));
    assert!(Fixed::<i8, 4>::from_val(-8) == Fixed::from_raw(-128));
    assert!(Fixed::<i128, 4>::from_val(i128::MAX) == Fixed::from_raw(-16));
}

#[test]
fn fixed_debug_string_of_negative_values() {
    assert_eq!(Fixed::<i16, 2>::from_raw(-13).debug_string(), "-3.25");
    assert_eq!(Fixed::<i32, 1>::from_raw(-0b11).debug_string(), "-1.5");
    assert_eq!(Fixed::<i32, 1>::from_raw(0b11).debug_string(), "1.5");
}
