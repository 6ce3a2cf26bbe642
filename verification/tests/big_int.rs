use numeric::big_int::{BigInt, FromStrError, Tag, TaggedOffset};

#[test]
fn big_int_test_new() {
    let b0 = BigInt::new_slice(&[0usize] as &[_], false);
    assert!(b0.is_inline());
    let b1 = BigInt::new_slice(&[usize::MAX >> 2] as &[_], false);
    assert!(b1.is_inline());
    let b2 = BigInt::new_slice(&[(usize::MAX >> 2) + 1] as &[_], false);
    assert!(b2.is_interned());
    let b3 = BigInt::new_slice(&[0usize, 1] as &[_], false);
    assert!(b3.is_interned());
}

#[test]
fn big_int_test_no_neg_zero() {
    assert_eq!(BigInt::new_slice(&[0usize] as &[_], true), BigInt::from(0));
}

#[test]
fn big_int_test_print() {
    assert_eq!(BigInt::from(1).to_string(), "1");
    assert_eq!(BigInt::from(10).to_string(), "10");
    assert_eq!(BigInt::from(111).to_string(), "111");
    assert_eq!(BigInt::from(18446744073709551616u128).to_string(), "18446744073709551616");
}

#[test]
fn big_int_test_from_str() {
    assert_eq!(BigInt::from_str_radix("123", 10).unwrap(), BigInt::from(123));
    assert_eq!(BigInt::from_str_radix("FF", 16).unwrap(), BigInt::from(255));
}

#[test]
fn big_int_test_add() {
    assert_eq!(BigInt::from(1) + BigInt::from(1), BigInt::from(2));
    assert_eq!(BigInt::from(-10) + BigInt::from(5), BigInt::from(-5));
    assert_eq!(BigInt::from(-10) + BigInt::from(15), BigInt::from(5));
    assert_eq!(BigInt::from(5) + BigInt::from(-10), BigInt::from(-5));
    assert_eq!(BigInt::from(15) + BigInt::from(-10), BigInt::from(5));
    assert_eq!(BigInt::from(-1) + BigInt::from(-1), BigInt::from(-2));

    assert_eq!(BigInt::from(-1) + BigInt::from(1), BigInt::from(0));
    assert_eq!(BigInt::from(1) + BigInt::from(-1), BigInt::from(0));

    assert_eq!(BigInt::from(usize::MAX) + BigInt::from(usize::MAX), BigInt::from((usize::MAX as u128) * 2))
}

#[test]
fn big_int_test_sub() {
    assert_eq!(BigInt::from(1) - BigInt::from(1), BigInt::from(0));
    assert_eq!(BigInt::from(2) - BigInt::from(1), BigInt::from(1));

    assert_eq!(BigInt::from(-1) - BigInt::from(1), BigInt::from(-2));
    assert_eq!(BigInt::from(-1) - BigInt::from(-1), BigInt::from(0));
}

#[test]
fn big_int_test_mul() {
    assert_eq!(BigInt::from(0) * BigInt::from(1), BigInt::from(0));
    assert_eq!(BigInt::from(1) * BigInt::from(1), BigInt::from(1));
    assert_eq!(BigInt::from(2) * BigInt::from(1), BigInt::from(2));
    assert_eq!(BigInt::from(2) * BigInt::from(2), BigInt::from(4));

    assert_eq!(BigInt::from(-1) * BigInt::from(1), BigInt::from(-1));
    assert_eq!(BigInt::from(1) * BigInt::from(-1), BigInt::from(-1));
    assert_eq!(BigInt::from(-1) * BigInt::from(-1), BigInt::from(1));
}

#[test]
fn big_int_test_div() {
    assert_eq!(BigInt::from(2) / BigInt::from(2), BigInt::from(1));
    assert_eq!(BigInt::from(-2) / BigInt::from(2), BigInt::from(-1));
    assert_eq!(BigInt::from(2) / BigInt::from(-2), BigInt::from(-1));
    assert_eq!(BigInt::from(-2) / BigInt::from(-2), BigInt::from(1));
    assert_eq!(BigInt::from(1) / BigInt::from(3), BigInt::from(0));
    assert_eq!(
        BigInt::new_slice(&[0usize, 0, 1] as &[_], false) / BigInt::new_slice(&[2usize] as &[_], false),
        BigInt::new_slice(&[0usize, (usize::MAX / 2) + 1] as &[_], false),
    );
}

#[test]
fn big_int_test_rem() {
    assert_eq!(BigInt::from(1) % BigInt::from(2), BigInt::from(1));
    assert_eq!(BigInt::from(2) % BigInt::from(2), BigInt::from(0));
    assert_eq!(BigInt::from(3) % BigInt::from(2), BigInt::from(1));
    assert_eq!(BigInt::from(4) % BigInt::from(2), BigInt::from(0));
    assert_eq!(BigInt::from(usize::MAX) % BigInt::from(10), BigInt::from(5));
}

#[test]
fn big_int_test_shl() {
    assert_eq!(BigInt::from(1) << BigInt::from(1), BigInt::from(2));
    assert_eq!(BigInt::from(2) << BigInt::from(1), BigInt::from(4));
    assert_eq!(BigInt::from(3) << BigInt::from(1), BigInt::from(6));

    assert_eq!(BigInt::from(usize::MAX) << BigInt::from(1), BigInt::from((usize::MAX as u128) * 2));
}

#[test]
fn big_int_test_pow() {
    assert_eq!(BigInt::from(1).pow(BigInt::from(2)), BigInt::from(1));
    assert_eq!(BigInt::from(2).pow(BigInt::from(2)), BigInt::from(4));
}

#[test]
fn big_int_test_eq() {
    let a = BigInt::from(0);
    let b = BigInt::from(1);

    let c = BigInt::from(4) % BigInt::from(2);

    assert_ne!(a, b);
    assert_eq!(a, c);

    assert_eq!(a, 0i32);
    assert_eq!(b, 1i32);

    assert_ne!(a, 1i32);
    assert_ne!(b, 0i32);
}

#[test]
fn big_int_test_cmp() {
    let a = BigInt::from(0);
    let b = BigInt::from(1);
    let c = BigInt::from(-1);

    assert!(a < b);
    assert!(a > c);

    assert!(b > c);
    assert!(c < b);

    assert!(a < 1);
    assert!(a > -1);

    assert!(b > 0);

    assert!(c < 0);
}

#[test]
fn big_int_tagged_offset() {
    let t = TaggedOffset::new(5, Tag::Inline);
    assert_eq!(t.offset(), 5);
    assert_eq!(t.tag(), Tag::Inline);
    assert_eq!(t.invert_neg().tag(), Tag::InlineNeg);
    assert_eq!(t.invert_neg().invert_neg(), t);
    assert_eq!(t.get(), (5, Tag::Inline));
    assert!(Tag::InlineNeg.inline() && Tag::InlineNeg.negative());
    assert!(!Tag::Interned.inline() && !Tag::Interned.negative());
    assert_eq!(Tag::from_usize_truncate(7), Tag::InlineNeg);
}

#[test]
fn big_int_parse_errors() {
    assert!(matches!(BigInt::from_str_radix("1x", 10), Err(FromStrError::InvalidChar('x'))));
    assert!(matches!(BigInt::from_str_radix("1", 37), Err(FromStrError::InvalidRadix(37))));
    assert_eq!(BigInt::from(-5).abs(), BigInt::from(5));
    assert_eq!(BigInt::from(-12).to_string(), "-12");
}

#[test]
fn invert_neg_twice_gives_back_the_word() {
    let t = TaggedOffset::new(12345, Tag::Inline);
    let u = t.invert_neg();
    assert_eq!(u.get().0, 12345);
    assert!(u.get().1 == Tag::InlineNeg);
    let v = u.invert_neg();
    assert_eq!(v.get().0, 12345);
    assert!(v.get().1 == Tag::Inline);
    assert!(v == t);
}
