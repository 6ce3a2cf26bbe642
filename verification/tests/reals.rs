use numeric::complex::Complex;
use numeric::f::F;
use numeric::fraction::Decimal;
use numeric::p::{Quire, P};
use numeric::traits::Bounded;
use numeric::u::U;

#[test]
fn f_byte_orders() {
    let f = F::<4>::from_le_bytes([1, 2, 3, 4]);
    assert_eq!(f.to_be_bytes(), [4, 3, 2, 1]);
    let f = F::<4>::from_le_bytes([1, 2, 3, 4]);
    assert_eq!(f.to_ne_bytes(), [1, 2, 3, 4]);
    let g = F::<4>::from_be_bytes([1, 2, 3, 4]);
    assert_eq!(g.to_le_bytes(), [4, 3, 2, 1]);
    let h = F::<4>::from_ne_bytes([9, 8, 7, 6]);
    assert_eq!(h.to_le_bytes(), [9, 8, 7, 6]);
}

#[test]
fn f_bits_round_trip() {
    let bits = U::<2>::from_le_bytes([0x34, 0x12]);
    let f = F::<2>::from_bits(bits);
    assert_eq!(f.to_bits(), bits);
    let f = F::<2>::from_bits(bits);
    assert_eq!(f.to_be_bytes(), [0x12, 0x34]);
}

#[test]
fn p_new_sign_and_nar() {
    let zero = P::<4>::new();
    assert_eq!(zero.0, [0, 0, 0, 0]);
    assert!(!zero.is_negative());
    assert!(!zero.is_nar());
    let nar = P::<4>::nar();
    assert!(nar.is_nar());
    assert!(nar.is_negative());
    assert!(!P::<2>([1, 1]).is_nar());
    let neg = -P::<2>([6, 1]);
    assert_eq!(neg.0, [7, 1]);
    assert!(neg.is_negative());
    let q = Quire::<1>([0]);
    assert_eq!(q.0, [0]);
}

#[test]
fn decimal_parts() {
    let d = Decimal::<i32>::new();
    assert_eq!(d.into_num_denom(), (0, 1));
    assert!(d.is_zero());
    assert!(Decimal::<i64>::one().is_one());
    assert_eq!((-Decimal::<i16>::one()).into_num_denom(), (-1, 1));
    assert_eq!(Decimal::<u8>::max_value().into_num_denom(), (255, 1));
    assert_eq!(Decimal::<i8>::min_value().into_num_denom(), (-128, 1));
    assert!(Decimal::<i32>::default() == Decimal::zero());
}

#[test]
fn complex_arithmetic() {
    let a = Complex::from_vals(3i32, 4);
    let b = Complex::from_vals(1i32, -2);
    let s = a + b;
    assert_eq!(s.abs_squared(), 4 * 4 + 2 * 2);
    let p = Complex::from_vals(3i32, 4) * Complex::from_vals(1, -2);
    // (3 + 4i)(1 - 2i) = 3 - 6i + 4i + 8 = 11 - 2i
    assert_eq!(p.abs_squared(), 11 * 11 + 2 * 2);
    let q = Complex::from_vals(11i32, -2) / Complex::from_vals(1, -2);
    assert_eq!(q.abs_squared(), 25);
    assert_eq!(Complex::from_real(5i64).abs_squared(), 25);
    assert_eq!(Complex::from_imag(-3i64).abs_squared(), 9);
    assert_eq!(Complex::<i16>::new().abs_squared(), 0);
    assert_eq!((Complex::from_vals(1i32, 1) + 2).abs_squared(), 10);
    assert_eq!((Complex::from_vals(1i32, 1) - 2).abs_squared(), 2);
    assert_eq!((Complex::from_vals(1i32, 1) * 3).abs_squared(), 18);
    assert_eq!((Complex::from_vals(4i32, 8) / 2).abs_squared(), 4 + 16);
}

#[test]
fn posit_equality_is_bytewise() {
    assert!(P::<2>([1, 0]) == P::<2>::nar());
    assert!(P::<2>([1, 2]) != P::<2>([1, 0]));
    assert!(-(-P::<1>([0x42])) == P::<1>([0x42]));
}

#[test]
fn u_bytes_are_little_endian_bytes() {
    let v: usize = 0x0102_0304;
    assert_eq!(U::<8>::from_usize(v).to_le_bytes(), (v as u64).to_le_bytes());
    assert_eq!(U::<2>::from_u16(0xBEEF).to_le_bytes(), 0xBEEFu16.to_le_bytes());
}

#[test]
fn decimal_from_num_denom_reduces() {
    assert_eq!(Decimal::from_num_denom(6i32, 4).into_num_denom(), (3, 2));
    assert_eq!(Decimal::from_num_denom(0i32, 7).into_num_denom(), (0, 1));
    assert_eq!(Decimal::from_num_denom(-9i64, 3).into_num_denom(), (-3, 1));
    assert_eq!(Decimal::from_num_denom(5i32, 0).into_num_denom(), (1, 0));
}
