use numeric::ubig::UBig;

#[test]
fn ubig_test_new() {
    let b0 = UBig::new_slice(&[0usize] as &[_]);
    assert!(b0.is_inline());
    let b1 = UBig::new_slice(&[usize::MAX >> 2] as &[_]);
    assert!(b1.is_inline());
    let b2 = UBig::new_slice(&[(usize::MAX >> 2) + 1] as &[_]);
    assert!(b2.is_interned());
    let b3 = UBig::new_slice(&[0usize, 1] as &[_]);
    assert!(b3.is_interned());
}

#[test]
fn ubig_test_print() {
    assert_eq!(UBig::from(1u32).to_string(), "1");
    assert_eq!(UBig::from(10u32).to_string(), "10");
    assert_eq!(UBig::from(111u32).to_string(), "111");
    assert_eq!(
        UBig::from(18_446_744_073_709_551_616u128).to_string(),
        "18446744073709551616"
    );
}

#[test]
fn ubig_test_add() {
    assert_eq!(UBig::from(1u32) + UBig::from(1u32), UBig::from(2u32));
    assert_eq!(
        UBig::from(usize::MAX) + UBig::from(usize::MAX),
        UBig::from((usize::MAX as u128) * 2)
    )
}

#[test]
fn ubig_test_sub() {
    assert_eq!(UBig::from(1u32) - UBig::from(1u32), UBig::from(0u32));
    assert_eq!(UBig::from(2u32) - UBig::from(1u32), UBig::from(1u32));
}

#[test]
fn ubig_test_mul() {
    assert_eq!(UBig::from(0u32) * UBig::from(1u32), UBig::from(0u32));
    assert_eq!(UBig::from(1u32) * UBig::from(1u32), UBig::from(1u32));
    assert_eq!(UBig::from(2u32) * UBig::from(1u32), UBig::from(2u32));
    assert_eq!(UBig::from(2u32) * UBig::from(2u32), UBig::from(4u32));
}

#[test]
fn ubig_test_div() {
    assert_eq!(UBig::from(2u32) / UBig::from(2u32), UBig::from(1u32));
    assert_eq!(UBig::from(1u32) / UBig::from(3u32), UBig::from(0u32));
    assert_eq!(
        UBig::new_slice(&[0usize, 0, 1] as &[_]) / UBig::new_slice(&[2usize] as &[_]),
        UBig::new_slice(&[0usize, (usize::MAX / 2) + 1] as &[_]),
    );
}

#[test]
fn ubig_test_rem() {
    assert_eq!(UBig::from(1u32) % UBig::from(2u32), UBig::from(1u32));
    assert_eq!(UBig::from(2u32) % UBig::from(2u32), UBig::from(0u32));
    assert_eq!(UBig::from(3u32) % UBig::from(2u32), UBig::from(1u32));
    assert_eq!(UBig::from(4u32) % UBig::from(2u32), UBig::from(0u32));
    assert_eq!(UBig::from(usize::MAX) % UBig::from(10u32), UBig::from(5u32));
}

#[test]
fn ubig_test_shl() {
    assert_eq!(UBig::from(1u32) << UBig::from(1u32), UBig::from(2u32));
    assert_eq!(UBig::from(2u32) << UBig::from(1u32), UBig::from(4u32));
    assert_eq!(UBig::from(3u32) << UBig::from(1u32), UBig::from(6u32));

    assert_eq!(
        UBig::from(usize::MAX) << UBig::from(1u32),
        UBig::from((usize::MAX as u128) * 2)
    );
}

#[test]
fn ubig_test_shr() {
    assert_eq!(UBig::from(2u32) >> UBig::from(1u32), UBig::from(1u32));
    assert_eq!(UBig::from(6u32) >> UBig::from(1u32), UBig::from(3u32));

    assert_eq!(
        UBig::from((usize::MAX as u128) * 2) >> 1u32,
        UBig::from(usize::MAX)
    );
}

#[test]
fn ubig_test_pow() {
    assert_eq!(UBig::from(1u32).pow(UBig::from(2u32)), UBig::from(1u32));
    assert_eq!(UBig::from(2u32).pow(UBig::from(2u32)), UBig::from(4u32));
}

#[test]
fn ubig_test_eq() {
    let a = UBig::from(0u32);
    let b = UBig::from(1u32);

    let c = UBig::from(4u32) % UBig::from(2u32);

    assert_ne!(a, b);
    assert_eq!(a, c);

    assert_eq!(a, 0i32);
    assert_eq!(b, 1i32);

    assert_ne!(a, 1i32);
    assert_ne!(b, 0i32);
}

#[test]
fn ubig_test_cmp() {
    let a = UBig::from(1u32);
    let b = UBig::from(2u32);
    let c = UBig::from(0u32);

    assert!(a < b);
    assert!(a > c);

    assert!(b > c);
    assert!(c < b);

    assert!(c < 1);
    assert!(a > -1);

    assert!(b > 0);
}

#[test]
fn ubig_multi_limb_order_and_text() {
    let small = UBig::new_slice(&[usize::MAX, 1] as &[_]);
    let big = UBig::new_slice(&[0usize, 2] as &[_]);
    assert!(small < big);
    assert_eq!(UBig::from(1u128 << 100).to_string(), "1267650600228229401496703205376");
    assert_eq!(UBig::from(0u32).to_string(), "0");
    assert_eq!(UBig::from(7u32) / UBig::from(0u32) , UBig::from(usize::MAX));
    assert_eq!(UBig::from(7u32) % UBig::from(0u32), UBig::from(7u32));
}

#[test]
fn ubig_div_rem_reconstructs() {
    let a = UBig::from(123_456_789_012_345_678_901_234_567u128);
    let b = UBig::from(987_654_321u64);
    let q = a.clone() / b.clone();
    let r = a.clone() % b.clone();
    assert_eq!(q * b + r, a);
}
