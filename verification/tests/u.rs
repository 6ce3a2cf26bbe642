use numeric::u::U;

#[test]
fn u_test_one() {
    let one: U<1> = U::one();
    assert_eq!(one, U([1]));
    let one = U::one();
    assert_eq!(one, U([1, 0]));
    let one: U<4> = U::one();
    assert_eq!(one, U([1, 0, 0, 0]));
    assert!(one.is_one());
}

#[test]
fn u_test_cmp() {
    let one: U<3> = U::one();
    let two = U([2, 0, 0]);
    assert_eq!(one, one);
    assert_ne!(one, two);
    assert_eq!(two, two);
}

#[test]
fn u_test_add() {
    let one: U<3> = U::one();
    assert_eq!(one + one, U([2, 0, 0]));
}

#[test]
fn u_test_div() {
    let two = U([2, 0, 0]);
    let four = U([4, 0, 0]);
    let ten = U([10, 0, 0]);
    assert_eq!(four / two, U([2, 0, 0]));
    assert_eq!(ten / two, U([5, 0, 0]));
}

#[test]
fn u_conversions_and_limits() {
    assert_eq!(U::<2>::from_u16(0x1234).to_le_bytes(), [0x34, 0x12]);
    assert_eq!(U::<2>::from_u16(0x1234).to_be_bytes(), [0x12, 0x34]);
    assert_eq!(U::<2>::from_be_bytes([0x12, 0x34]).as_u16(), 0x1234);
    assert_eq!(U::<4>::from_u32(u32::MAX).as_u32(), u32::MAX);
    assert_eq!(U::<8>::from_u64(7).as_u64(), 7);
    assert_eq!(U::<16>::from_u128(u128::MAX).as_u128(), u128::MAX);
    assert_eq!(U::<1>::from_u8(200).as_u8(), 200);
    assert_eq!(U::<8>::from_usize(99).as_usize(), 99);
    let max: U<2> = U::max_value();
    assert_eq!(max.as_u16(), u16::MAX);
    assert_eq!(U::<2>::from_u16(65535).checked_add(U::one()), None);
    assert_eq!(U::<2>::from_u16(65535).saturating_add(U::one()), max);
    assert_eq!(U::<2>::from_u16(3).saturating_sub(U::from_u16(5)), U::zero());
    assert_eq!(U::<2>::from_u16(300).checked_mul(U::from_u16(300)), None);
    assert_eq!(U::<2>::from_u16(3).pow(U::from_u16(4)), U::from_u16(81));
    assert_eq!(U::<2>::from_u16(3) << 2usize, U::from_u16(12));
    assert_eq!(U::<2>::from_u16(0x1234).to_string(), "4660");
    assert!(U::<2>::from_u16(0x0102) < U::from_u16(0x0201));
}
