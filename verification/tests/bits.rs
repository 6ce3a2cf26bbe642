use numeric::bit_slice::BitSliceExt;
use numeric::bitwise::BitwiseOps;
use numeric::order::ElementCmp;
use numeric::utils::{IntSlice, int_to_arr, arr_to_int};
use std::cmp::Ordering;

#[test]
fn test_idx() {
    for i in 0..8 {
        for j in 0..8 {
            assert_eq!(<[u8]>::idx_bit(i * 8 + j), (i, j));
        }
    }
}

#[test]
fn test_get_bit() {
    let slice = &[0b1010101010101010u16, 0b1010101010101010];
    for idx in 0..32 {
        let b = slice.get_bit(idx);
        assert_eq!(b, (idx % 2) != 0);
    }
}

#[test]
fn test_set_bit() {
    let mut data = [0b1010101010101010u16, 0b1010101010101010];
    let slice = &mut data;
    slice.set_bit(0, true);
    slice.set_bit(31, false);
    assert_eq!(slice, &[0b1010101010101011, 0b0010101010101010])
}

#[test]
fn bit_slice_test_div() {
    let slice1: &[u8] = &[0b10];
    let slice2: &[u8] = &[0b01];

    assert_eq!(BitwiseOps::div_long(slice1, slice2).0, &[0b10]);

    let slice3: &[u8] = &[0b10];
    let slice4: &[u8] = &[0b10];

    assert_eq!(BitwiseOps::div_long(slice3, slice4).0, &[0b01]);

    let slice5: &[u8] = &[0b00000000, 0b1];
    let slice6: &[u8] = &[0b00000010];

    assert_eq!(BitwiseOps::div_long(slice5, slice6).0, &[0b10000000, 0b0]);

    let slice7: &[u8] = &[0b0, 0b0, 0b0, 0b1];
    let slice8: &[u8] = &[0b10];

    assert_eq!(BitwiseOps::div_long(slice7, slice8).0, &[0b0, 0b0, 0b10000000, 0b0]);
}

#[test]
fn test_diff_len() {
    assert_eq!(ElementCmp::cmp(&[0u32], &[0, 1]), Ordering::Less);
    assert_eq!(ElementCmp::cmp(&[0u32, 1], &[0]), Ordering::Greater);
}

#[test]
fn cmp_test_eq() {
    assert_eq!(ElementCmp::cmp(&[0u32], &[0]), Ordering::Equal);
    assert_eq!(ElementCmp::cmp(&[1u32, 2, 3, 4], &[1, 2, 3, 4]), Ordering::Equal);
}

#[test]
fn test_same_len() {
    assert_eq!(ElementCmp::cmp(&[1u32], &[2]), Ordering::Less);
    assert_eq!(ElementCmp::cmp(&[0u32, 2], &[0, 1]), Ordering::Greater);
}

#[test]
fn utils_test_shrink_slice() {
    assert_eq!(IntSlice::shrink(&[0u32] as &[_]), &[0u32]);
    assert_eq!(IntSlice::shrink(&[0u32, 0] as &[_]), &[0u32]);
    assert_eq!(IntSlice::shrink(&[0u32, 0, 0] as &[_]), &[0u32]);
    assert_eq!(IntSlice::shrink(&[0u32, 1] as &[_]), &[0u32, 1]);
    assert_eq!(IntSlice::shrink(&[0u32, 1, 1] as &[_]), &[0u32, 1, 1]);

    assert_eq!(IntSlice::shrink(&[1u32] as &[_]), &[1u32]);
    assert_eq!(IntSlice::shrink(&[1u32, 1] as &[_]), &[1u32, 1]);
    assert_eq!(IntSlice::shrink(&[1u32, 1, 1] as &[_]), &[1u32, 1, 1]);
    assert_eq!(IntSlice::shrink(&[1u32, 0] as &[_]), &[1u32]);
    assert_eq!(IntSlice::shrink(&[1u32, 0, 0] as &[_]), &[1u32]);

    assert_eq!(IntSlice::shrink(&[1u32, 0, 1] as &[_]), &[1u32, 0, 1]);
}

#[test]
fn utils_test_int_arr() {
    assert_eq!(&int_to_arr::<u16, usize, 1>(0), &[0]);
    assert_eq!(&int_to_arr::<u16, usize, 1>(1), &[1]);
    assert_eq!(&int_to_arr::<u16, usize, 1>(u16::MAX), &[u16::MAX as usize]);

    assert_eq!(&int_to_arr::<u128, usize, 2>(0), &[0; 2]);
    assert_eq!(&int_to_arr::<u128, usize, 2>(1), &[1, 0]);
    assert_eq!(&int_to_arr::<u128, usize, 2>(usize::MAX as u128 + 1), &[0, 1]);
    assert_eq!(&int_to_arr::<u128, usize, 2>(u128::MAX), &[usize::MAX, usize::MAX]);

    assert_eq!(
        &int_to_arr::<u128, u8, 16>(0x0102030405060708090A0B0C0D0E0F00),
        &[0, 15, 14, 13, 12, 11, 10, 9, 8, 7, 6, 5, 4, 3, 2, 1],
    );
}

#[test]
fn utils_test_arr_int() {
    assert_eq!(arr_to_int::<usize, u8>(&[0]), Some(0));
    assert_eq!(arr_to_int::<usize, u8>(&[1]), Some(1));
    assert_eq!(arr_to_int::<usize, u8>(&[usize::MAX]), None);

    assert_eq!(arr_to_int::<usize, u128>(&[0]), Some(0));
    assert_eq!(arr_to_int::<usize, u128>(&[1]), Some(1));
    assert_eq!(arr_to_int::<usize, u128>(&[usize::MAX]), Some(usize::MAX as u128));

    assert_eq!(arr_to_int::<u8, usize>(&[0, 1, 2, 3]), Some(0x03020100));
    assert_eq!(arr_to_int::<u8, usize>(&[u8::MAX]), Some(255));
}

#[test]
fn bitwise_ops_values() {
    let a: &[u8] = &[0xFF, 0x01];
    let b: &[u8] = &[0x01];
    assert_eq!(BitwiseOps::add(a, b), vec![0x00, 0x02]);
    assert_eq!(BitwiseOps::sub(b, a), (vec![0xFE, 0x01], true));
    assert_eq!(BitwiseOps::sub(a, b), (vec![0xFE, 0x01], false));
    assert_eq!(BitwiseOps::shl(b, 9), vec![0x00, 0x02]);
    assert_eq!(BitwiseOps::shr(a, 4), vec![0x1F, 0x00]);
    assert_eq!(BitwiseOps::add_shift_mul(a, &[0x02u8] as &[u8]), vec![0xFE, 0x03]);
    assert_eq!(BitwiseOps::div_long(a, &[0u8] as &[u8]).1, vec![0xFF, 0x01]);
    assert_eq!(ElementCmp::cmp(&[2u8, 1], &[1, 2]), Ordering::Greater);
}

#[test]
fn sub_keeps_the_longer_length() {
    let left: &[u8] = &[0u8][..];
    let right: &[u8] = &[2u8][..];
    assert_eq!(BitwiseOps::sub(left, right), (vec![2u8], true));
    let long: &[u8] = &[5u8, 0][..];
    assert_eq!(BitwiseOps::sub(long, right), (vec![3u8, 0], false));
}

#[test]
fn add_in_place_wraps_in_left() {
    let mut left = vec![0xFFu8, 0x00];
    let right: &[u8] = &[0x01u8][..];
    BitwiseOps::add_in_place(&mut left, right);
    assert_eq!(left, vec![0x00, 0x01]);
    let mut small = [0xFFu8];
    let one: &[u8] = &[0x01u8, 0x01][..];
    BitwiseOps::add_in_place(&mut small[..], one);
    assert_eq!(small, [0x00]);
}

#[test]
fn add_in_place_returns_the_updated_slice() {
    let mut left = vec![0x01u8, 0x00];
    let right: &[u8] = &[0x02u8][..];
    let r = BitwiseOps::add_in_place(&mut left, right);
    assert_eq!(*r, vec![0x03, 0x00]);
    r.push(0x09);
    assert_eq!(left, vec![0x03, 0x00, 0x09]);
}
