use numeric::ibig::IBig;

#[test]
fn ibig_test_new() {
    let b0 = IBig::new_slice(&[0usize] as &[_], false);
    assert!(b0.is_inline());
    let b1 = IBig::new_slice(&[usize::MAX >> 2] as &[_], false);
    assert!(b1.is_inline());
    let b2 = IBig::new_slice(&[(usize::MAX >> 2) + 1] as &[_], false);
    assert!(b2.is_interned());
    let b3 = IBig::new_slice(&[0usize, 1] as &[_], false);
    assert!(b3.is_interned());
}

#[test]
fn test_zero() {
    assert!(IBig::zero().is_inline());
    assert!(IBig::zero().with_slice(|s| s == [0]));
    assert!(IBig::zero().is_zero());
    assert!(!IBig::one().is_zero());
}

#[test]
fn ibig_test_one() {
    assert!(IBig::one().is_inline());
    assert!(IBig::one().with_slice(|s| s == [1]));
    assert!(IBig::one().is_one());
    assert!(!IBig::one().is_zero());
}

#[test]
fn ibig_test_no_neg_zero() {
    assert_eq!(IBig::new_slice(&[0usize] as &[_], true), IBig::from(0));
}

#[test]
fn ibig_test_print() {
    assert_eq!(IBig::from(1).to_string(), "1");
    assert_eq!(IBig::from(10).to_string(), "10");
    assert_eq!(IBig::from(111).to_string(), "111");
    assert_eq!(
        IBig::from(18_446_744_073_709_551_616u128).to_string(),
        "18446744073709551616"
    );
}

#[test]
fn ibig_test_from_str() {
    assert_eq!(IBig::from_str_radix("123", 10).unwrap(), IBig::from(123));
    assert_eq!(IBig::from_str_radix("FF", 16).unwrap(), IBig::from(255));
}

#[test]
fn ibig_test_add() {
    assert_eq!(IBig::from(1) + IBig::from(1), IBig::from(2));
    assert_eq!(IBig::from(-10) + IBig::from(5), IBig::from(-5));
    assert_eq!(IBig::from(-10) + IBig::from(15), IBig::from(5));
    assert_eq!(IBig::from(5) + IBig::from(-10), IBig::from(-5));
    assert_eq!(IBig::from(15) + IBig::from(-10), IBig::from(5));
    assert_eq!(IBig::from(-1) + IBig::from(-1), IBig::from(-2));

    assert_eq!(IBig::from(-1) + IBig::from(1), IBig::from(0));
    assert_eq!(IBig::from(1) + IBig::from(-1), IBig::from(0));

    assert_eq!(
        IBig::from(usize::MAX) + IBig::from(usize::MAX),
        IBig::from((usize::MAX as u128) * 2)
    )
}

#[test]
fn ibig_test_sub() {
    assert_eq!(IBig::from(1) - IBig::from(1), IBig::from(0));
    assert_eq!(IBig::from(2) - IBig::from(1), IBig::from(1));

    assert_eq!(IBig::from(-1) - IBig::from(1), IBig::from(-2));
    assert_eq!(IBig::from(-1) - IBig::from(-1), IBig::from(0));
}

#[test]
fn ibig_test_mul() {
    assert_eq!(IBig::from(0) * IBig::from(1), IBig::from(0));
    assert_eq!(IBig::from(1) * IBig::from(1), IBig::from(1));
    assert_eq!(IBig::from(2) * IBig::from(1), IBig::from(2));
    assert_eq!(IBig::from(2) * IBig::from(2), IBig::from(4));

    assert_eq!(IBig::from(-1) * IBig::from(1), IBig::from(-1));
    assert_eq!(IBig::from(1) * IBig::from(-1), IBig::from(-1));
    assert_eq!(IBig::from(-1) * IBig::from(-1), IBig::from(1));
}

#[test]
fn ibig_test_div() {
    assert_eq!(IBig::from(2) / IBig::from(2), IBig::from(1));
    assert_eq!(IBig::from(-2) / IBig::from(2), IBig::from(-1));
    assert_eq!(IBig::from(2) / IBig::from(-2), IBig::from(-1));
    assert_eq!(IBig::from(-2) / IBig::from(-2), IBig::from(1));
    assert_eq!(IBig::from(1) / IBig::from(3), IBig::from(0));
    assert_eq!(
        IBig::new_slice(&[0usize, 0, 1] as &[_], false)
            / IBig::new_slice(&[2usize] as &[_], false),
        IBig::new_slice(&[0usize, (usize::MAX / 2) + 1] as &[_], false),
    );
}

#[test]
fn ibig_test_rem() {
    assert_eq!(IBig::from(1) % IBig::from(2), IBig::from(1));
    assert_eq!(IBig::from(2) % IBig::from(2), IBig::from(0));
    assert_eq!(IBig::from(3) % IBig::from(2), IBig::from(1));
    assert_eq!(IBig::from(4) % IBig::from(2), IBig::from(0));
    assert_eq!(IBig::from(usize::MAX) % IBig::from(10), IBig::from(5));
}

#[test]
fn ibig_test_shl() {
    assert_eq!(IBig::from(1) << IBig::from(1), IBig::from(2));
    assert_eq!(IBig::from(2) << IBig::from(1), IBig::from(4));
    assert_eq!(IBig::from(3) << IBig::from(1), IBig::from(6));

    assert_eq!(
        IBig::from(usize::MAX) << IBig::from(1),
        IBig::from((usize::MAX as u128) * 2)
    );
}

#[test]
fn ibig_test_shr() {
    assert_eq!(IBig::from(2) >> IBig::from(1), IBig::from(1));
    assert_eq!(IBig::from(6) >> IBig::from(1), IBig::from(3));

    assert_eq!(
        IBig::from((usize::MAX as u128) * 2) >> 1,
        IBig::from(usize::MAX)
    );
}

#[test]
fn ibig_test_pow() {
    assert_eq!(IBig::from(1).pow(IBig::from(2)), IBig::from(1));
    assert_eq!(IBig::from(2).pow(IBig::from(2)), IBig::from(4));
}

#[test]
fn test_neg_pos() {
    let neg_one = -IBig::one();
    assert!(neg_one.is_inline());
    assert!(neg_one.is_negative());
    assert!(neg_one.with_slice(|s| s == [1]));

    let neg = IBig::from(-0x0102_0304);
    assert!(neg.is_negative());
    let pos = -neg.clone();
    assert!(pos.is_positive());
}

#[test]
fn ibig_test_abs() {
    let neg = IBig::from(-0x0102_0304);
    let pos = -neg.clone();

    assert_eq!(neg.abs(), pos);
    assert_eq!(pos.clone().abs(), pos);
}

#[test]
fn ibig_test_eq() {
    let a = IBig::from(0);
    let b = IBig::from(1);

    let c = IBig::from(4) % IBig::from(2);

    assert_ne!(a, b);
    assert_eq!(a, c);

    assert_eq!(a, 0i32);
    assert_eq!(b, 1i32);

    assert_ne!(a, 1i32);
    assert_ne!(b, 0i32);

    let big_a = IBig::from(usize::MAX);
    let big_b = IBig::from(usize::MAX - 1);
    let big_c = &big_b + &big_a - &big_b;

    assert_ne!(big_a, big_b);
    assert_eq!(big_a, big_c);

    assert_eq!(big_a, usize::MAX);
    assert_eq!(big_b, usize::MAX - 1);

    assert_ne!(big_a, usize::MAX - 1);
    assert_ne!(big_b, usize::MAX);
}

#[test]
fn ibig_test_cmp() {
    let a = IBig::from(0);
    let b = IBig::from(1);
    let c = IBig::from(-1);

    assert!(a < b);
    assert!(a > c);

    assert!(b > c);
    assert!(c < b);

    assert!(a < 1);
    assert!(a > -1);

    assert!(b > 0);

    assert!(c < 0);
}

#[test]
fn ibig_signed_division_and_text() {
    assert_eq!(IBig::from(-7) / IBig::from(2), IBig::from(-3));
    assert_eq!(IBig::from(-7) % IBig::from(2), IBig::from(-1));
    assert_eq!(IBig::from(7) % IBig::from(-2), IBig::from(-1));
    assert_eq!(IBig::from(-7) % IBig::from(-2), IBig::from(1));
    assert_eq!(IBig::from(-1234).to_string(), "-1234");
    assert_eq!(IBig::from(-2).pow(IBig::from(3)), IBig::from(-8));
    assert_eq!(IBig::from(5).pow(IBig::from(-1)), IBig::from(5));
    assert!(IBig::from_str_radix("12z", 10).is_err());
    assert!(IBig::from_str_radix("12", 40).is_err());
    assert_eq!(IBig::from_str_radix("", 40).unwrap(), IBig::from(0));
    assert_eq!(IBig::from(-3) >> IBig::from(1), IBig::from(-1));
}
