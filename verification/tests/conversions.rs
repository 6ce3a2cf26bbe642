use numeric::big_int::BigInt;
use numeric::big_utils::Side;
use numeric::ibig::IBig;
use numeric::ubig::UBig;

#[test]
fn ubig_to_unsigned() {
    let v = UBig::from(300u32);
    assert_eq!(v.checked_to_unsigned::<u8>(), None);
    assert_eq!(v.checked_to_unsigned::<u16>(), Some(300));
    assert!(matches!(v.to_unsigned::<u8>(), Err(e) if e.0 == Side::Above));
    assert_eq!(v.saturate_to_unsigned::<u8>(), 255);
    let big = UBig::from(u128::MAX);
    assert_eq!(big.checked_to_unsigned::<u128>(), Some(u128::MAX));
    assert_eq!(big.checked_to_unsigned::<u64>(), None);
}

#[test]
fn ibig_to_unsigned() {
    let neg = IBig::from(-5i32);
    assert!(matches!(neg.to_unsigned::<u32>(), Err(e) if e.0 == Side::Below));
    assert_eq!(neg.saturate_to_unsigned::<u32>(), 0);
    assert_eq!(neg.truncate_to_unsigned::<u32>(), 5);
    let pos = IBig::from(70000i32);
    assert_eq!(pos.checked_to_unsigned::<u32>(), Some(70000));
    assert_eq!(pos.saturate_to_unsigned::<u16>(), u16::MAX);
}

#[test]
fn big_int_to_unsigned() {
    let v = BigInt::from(-1i64);
    assert!(matches!(v.to_unsigned::<usize>(), Err(e) if e.0 == Side::Below));
    let w = BigInt::from(u64::MAX);
    assert_eq!(w.checked_to_unsigned::<u64>(), Some(u64::MAX));
    assert!(matches!(w.to_unsigned::<u32>(), Err(e) if e.0 == Side::Above));
    assert_eq!(w.truncate_to_unsigned::<u32>(), u32::MAX);
}

#[test]
fn big_int_to_i64() {
    assert_eq!(BigInt::from(i64::MIN).checked_to_i64(), Some(i64::MIN));
    assert_eq!(BigInt::from(i64::MAX).checked_to_i64(), Some(i64::MAX));
    assert_eq!(BigInt::from(-5i32).checked_to_i64(), Some(-5));
    assert_eq!(BigInt::from(u64::MAX).checked_to_i64(), None);
    assert_eq!(IBig::from(-(1i128 << 63) - 1).checked_to_i64(), None);
}

#[test]
fn big_to_signed() {
    assert!(matches!(IBig::from(-1i32).to_signed::<u8>(), Err(e) if e.0 == Side::Below));
    assert!(matches!(IBig::from(256i32).to_signed::<u8>(), Err(e) if e.0 == Side::Above));
    assert!(matches!(UBig::from(200u8).to_signed::<i8>(), Err(e) if e.0 == Side::Above));
    assert_eq!(UBig::from(100u8).to_signed::<i8>().ok(), Some(100i8));
    assert_eq!(IBig::from(-128i32).to_signed::<i8>().ok(), Some(-128i8));
    assert!(matches!(IBig::from(-129i32).to_signed::<i8>(), Err(e) if e.0 == Side::Below));
    assert_eq!(IBig::from(i128::MIN).to_signed::<i128>().ok(), Some(i128::MIN));
    assert_eq!(IBig::from(-7i32).to_signed::<i64>().ok(), Some(-7i64));
    assert_eq!(BigInt::from(-300i64).to_signed::<i16>().ok(), Some(-300i16));
    assert!(matches!(BigInt::from(u64::MAX).to_signed::<i64>(), Err(e) if e.0 == Side::Above));
}

#[test]
fn big_to_string_radix() {
    assert_eq!(IBig::from(-255i32).to_string_radix(16, false), "-ff");
    assert_eq!(IBig::from(-255i32).to_string_radix(16, true), "-FF");
    assert_eq!(UBig::from(5u8).to_string_radix(2, false), "101");
    assert_eq!(UBig::from(0u8).to_string_radix(16, false), "0");
    assert_eq!(BigInt::from(35i64).to_string_radix(36, false), "z");
    assert_eq!(BigInt::from(u64::MAX).to_string_radix(16, true), "FFFFFFFFFFFFFFFF");
}

#[test]
fn big_from_str_radix_empty_with_large_radix() {
    assert!(IBig::from_str_radix("", 40).unwrap().is_zero());
    assert!(BigInt::from_str_radix("", 40).unwrap().is_zero());
}
