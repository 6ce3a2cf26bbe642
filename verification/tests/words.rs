use numeric::slice_ops::BitSlice;
use numeric::bit_iter::BitIter;
use numeric::bit_slice::BitSliceExt;
use numeric::codegen::{foo, map_neg, zip_add, zip_many, zip_mul};
use numeric::i::I;
use numeric::u::U;
use numeric::widening::WideningMul;

#[test]
fn widening_mul_small_words() {
    assert_eq!(u8::widening_mul(255, 255, 255), (0, 255));
    assert_eq!(u16::widening_mul(0x1234, 0x10, 5), (0x2345, 0x1));
    assert_eq!(u32::widening_mul(u32::MAX, 2, 1), (u32::MAX, 1));
    assert_eq!(u64::widening_mul(1 << 63, 4, 0), (0, 2));
}

#[test]
fn widening_mul_full_words() {
    assert_eq!(u128::widening_mul(u128::MAX, u128::MAX, u128::MAX), (0, u128::MAX));
    assert_eq!(u128::widening_mul(1 << 100, 1 << 100, 7), (7, 1 << 72));
    assert_eq!(usize::widening_mul(usize::MAX, 3, 0), (usize::MAX - 2, 2));
}

#[test]
fn bit_iter_walks_low_bits_first() {
    let data: [u8; 2] = [0b0000_0101, 0b1000_0000];
    let mut it = BitIter::new(&data);
    assert_eq!(it.len(), 16);
    assert_eq!(it.next(), Some(true));
    assert_eq!(it.next(), Some(false));
    assert_eq!(it.next(), Some(true));
    assert_eq!(it.len(), 13);
    let mut rest = Vec::new();
    while let Some(b) = it.next() {
        rest.push(b);
    }
    assert_eq!(rest.len(), 13);
    assert_eq!(rest[12], true);
    assert_eq!(it.next(), None);
    let from_slice = data.as_slice().iter_bits();
    assert_eq!(from_slice.len(), 16);
}

#[test]
fn codegen_arrays() {
    assert_eq!(zip_add([1, 2, 3], [4, 5, 6]), [5, 7, 9]);
    assert_eq!(zip_mul([1, 2, 3], [4, 5, 6]), [4, 10, 18]);
    assert_eq!(map_neg([1, -2, 0]), [-1, 2, 0]);
    assert_eq!(zip_many([1, 2], [3, 4], [5, 6], [7, 8]), [105, 384]);
    foo();
}

#[test]
fn u_bitwise_ops() {
    let a = U::<2>([0b1100, 0xF0]);
    let b = U::<2>([0b1010, 0x0F]);
    assert_eq!((a & b).0, [0b1000, 0x00]);
    assert_eq!((a | b).0, [0b1110, 0xFF]);
    assert_eq!((a ^ b).0, [0b0110, 0xFF]);
    assert_eq!((!a).0, [0xF3, 0x0F]);
    assert_eq!((U::<2>([1, 0]) << U::<2>([9, 0])).0, [0, 2]);
    assert_eq!((U::<2>([0, 2]) >> U::<2>([9, 0])).0, [1, 0]);
}

#[test]
fn i_bitwise_ops() {
    let a = I::<1>([0b1100]);
    let b = I::<1>([0b1010]);
    assert_eq!((a & b).0, [0b1000]);
    assert_eq!((a | b).0, [0b1110]);
    assert_eq!((a ^ b).0, [0b0110]);
    assert_eq!((!I::<1>([5])).0, [0xFA]);
    assert_eq!((I::<2>([1, 0]) << 15usize).0, [0, 0x80]);
    assert_eq!((I::<2>([0, 0x80]) >> 15usize).0, [1, 0]);
    assert_eq!((I::<1>([3]) << I::<1>([2])).0, [12]);
    assert_eq!((I::<1>([12]) >> I::<1>([2])).0, [3]);
}

#[test]
fn slice_ops_keep_left_length() {
    let a = BitSlice::new(vec![0xFFu8, 0x00]);
    let b = BitSlice::new(vec![0x02u8]);
    let (d, borrow) = BitSlice::sub_bitwise(b, BitSlice::new(vec![0x03u8, 0x00]));
    assert!(borrow);
    assert_eq!(d.into_inner(), vec![0x01, 0x00]);
    let s = BitSlice::add_element_wrapping(BitSlice::new(vec![0xFFu8, 0x00]), BitSlice::new(vec![0x02u8]));
    assert_eq!(s.into_inner(), vec![0x01, 0x01]);
    let c = BitSlice::add_element_checked(a, BitSlice::new(vec![0x01u8])).unwrap();
    assert_eq!(c.into_inner(), vec![0x00, 0x01]);
    let m = BitSlice::mul_long_element_checked(BitSlice::new(vec![0x10u8, 0x00]), BitSlice::new(vec![0x10u8])).unwrap();
    assert_eq!(m.into_inner(), vec![0x00, 0x01]);
    let w = BitSlice::mul_long_element_wrapping(BitSlice::new(vec![0x10u8]), BitSlice::new(vec![0x10u8]));
    assert_eq!(w.into_inner(), vec![0x00]);
    let p = BitSlice::add_in_place_bitwise(BitSlice::new(vec![0xFFu8]), &BitSlice::new(vec![0x01u8]));
    assert_eq!(p.into_inner(), vec![0x00]);
}

#[test]
fn div_long_element_family() {
    let (q, r) = BitSlice::div_long_element(BitSlice::new(vec![0x07u8, 0x01]), BitSlice::new(vec![0x10u8]));
    assert_eq!(q.into_inner(), vec![0x10, 0x00]);
    assert_eq!(r.into_inner(), vec![0x07]);
    let (q, over) = BitSlice::div_long_element_overflowing(BitSlice::new(vec![0x64u8]), BitSlice::new(vec![0x07u8]));
    assert!(!over);
    assert_eq!(q.into_inner(), vec![14]);
    let (q, over) = BitSlice::div_long_element_overflowing(BitSlice::new(vec![0x64u8, 0x00]), BitSlice::new(vec![0x00u8]));
    assert!(over);
    assert_eq!(q.into_inner(), vec![0xFF, 0xFF]);
    assert!(BitSlice::div_long_element_checked(BitSlice::new(vec![0x64u8]), BitSlice::new(vec![0u8])).is_none());
    assert_eq!(
        BitSlice::div_long_element_checked(BitSlice::new(vec![0x64u8]), BitSlice::new(vec![0x0Au8])).unwrap().into_inner(),
        vec![10]
    );
    assert_eq!(
        BitSlice::div_long_element_wrapping(BitSlice::new(vec![0x00u8, 0x01]), BitSlice::new(vec![0x02u8])).into_inner(),
        vec![0x80, 0x00]
    );
}
