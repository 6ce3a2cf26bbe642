use core::str::FromStr;
use numeric::static_iter::zip_all::zip_all;
use numeric::static_iter::{IntoStaticIter, StaticIterExt, StaticRangeTo};

#[test]
fn test_zip_add() {
    let res: [i32; 4] = [1, 2, 3, 4]
        .into_static_iter()
        .zip([5, 6, 7, 8].into_static_iter())
        .map(|(l, r)| l + r)
        .collect();

    assert_eq!(res, [6, 8, 10, 12]);
}

#[test]
fn test_option_collect() {
    let res: [u32; 4] = [1u32, 2, 3, 4]
        .into_static_iter()
        .map(|l| l.checked_add(1))
        .collect::<Option<_>>()
        .unwrap();
    assert_eq!(res, [2, 3, 4, 5]);

    let res: Option<[u32; 4]> = [u32::MAX - 1, u32::MAX, 0, 1]
        .into_static_iter()
        .map(|l| l.checked_add(1))
        .collect::<Option<_>>();
    assert!(res.is_none());
}

#[test]
fn test_option_option_collect() {
    let res: [u32; 4] = [1u32, 2, 3, 4]
        .into_static_iter()
        .map(|l| Some(l.checked_add(1)))
        .collect::<Option<Option<_>>>()
        .unwrap()
        .unwrap();
    assert_eq!(res, [2, 3, 4, 5]);

    let res: Option<[u32; 4]> = [u32::MAX - 1, u32::MAX, 0, 1]
        .into_static_iter()
        .map(|l| Some(l.checked_add(1)))
        .collect::<Option<_>>()
        .unwrap();
    assert!(res.is_none());

    let res: Option<[u32; 4]> = [u32::MAX - 1, u32::MAX, 0, 1]
        .into_static_iter()
        .map(|_| None)
        .collect::<Option<_>>();
    assert!(res.is_none());
}

#[test]
fn test_result_collect() {
    let res: [u32; 4] = ["1", "2", "3", "4"]
        .into_static_iter()
        .map(u32::from_str)
        .collect::<Result<_, _>>()
        .unwrap();
    assert_eq!(res, [1, 2, 3, 4]);

    let res: Result<[u32; 4], _> = ["1", "2", "-3", "4"]
        .into_static_iter()
        .map(u32::from_str)
        .collect();
    assert!(res.is_err());
}

#[test]
fn test_enumerate() {
    let res = [5, 9, 1, 4]
        .into_static_iter()
        .enumerate()
        .fold(0, |acc, (idx, _)| {
            assert_eq!(idx, acc);
            acc + 1
        });
    assert_eq!(res, 4);
}

#[test]
fn test_any() {
    let res = [1, 3, 5, 7].into_static_iter().any(|v| v % 2 == 0);
    assert!(!res);

    let res = [1, 3, 4, 7].into_static_iter().any(|v| v % 2 == 0);
    assert!(res);
}

#[test]
fn test_all() {
    let res = [1, 3, 5, 7].into_static_iter().all(|v| v % 2 == 1);
    assert!(res);

    let res = [1, 3, 4, 7].into_static_iter().all(|v| v % 2 == 1);
    assert!(!res);
}

#[test]
fn array_test_into_iter() {
    let iter = [1, 2, 3, 4].into_static_iter();
    assert_eq!(iter.fold(0, |acc, val| acc + val), 10);
}

#[test]
fn array_test_ref_iter() {
    let iter = (&[1, 2, 3, 4]).into_static_iter();
    assert_eq!(iter.fold(0, |acc, val| acc + *val), 10);
}

#[test]
fn array_test_collect() {
    let arr = [1, 2, 3, 4].into_static_iter().collect::<[_; 4]>();

    assert_eq!(arr, [1, 2, 3, 4])
}

#[test]
fn tuple_test_into_iter() {
    let iter = (1, 2, 3, 4).into_static_iter();
    assert_eq!(iter.fold(0, |acc, val| acc + val), 10);
}

#[test]
fn tuple_test_ref_iter() {
    let iter = (&(1, 2, 3, 4)).into_static_iter();
    assert_eq!(iter.fold(0, |acc, val| acc + *val), 10);
}

#[test]
fn tuple_test_collect() {
    let tuple = (1, 2, 3, 4).into_static_iter().collect::<(_, _, _, _)>();

    assert_eq!(tuple, (1, 2, 3, 4))
}

#[test]
fn test_zip_arrays() {
    assert_eq!(
        zip_all([[1, 2], [3, 4], [5, 6], [7, 8]]).collect::<[_; 2]>(),
        [[1, 3, 5, 7], [2, 4, 6, 8]]
    );

    assert_eq!(
        zip_all(([1u8, 2u8], [true, false], ["a", "b"])).collect::<[_; 2]>(),
        [(1, true, "a"), (2, false, "b")],
    )
}

#[test]
fn static_iter_rev_take_and_range() {
    let rev: [i32; 3] = [1, 2, 3].into_static_iter().rev().collect();
    assert_eq!(rev, [3, 2, 1]);
    let first: [i32; 2] = [1, 2, 3].into_static_iter().take::<2>().collect();
    assert_eq!(first, [1, 2]);
    let idx: [usize; 3] = StaticRangeTo::<3>.into_static_iter().collect();
    assert_eq!(idx, [0, 1, 2]);
    let pairs: (u8, u8) = [7u8, 9].into_static_iter().collect();
    assert_eq!(pairs, (7, 9));
}

#[test]
fn test_copied_refs() {
    let arr = [3u32, 1, 4, 1];
    let res: [u32; 4] = (&arr).into_static_iter().copied().rev().collect();
    assert_eq!(res, [1, 4, 1, 3]);
}

#[test]
fn test_cloned_refs() {
    let tup = (2i64, 7, 1);
    let sum = (&tup).into_static_iter().cloned().fold(0, |acc, v| acc + v);
    assert_eq!(sum, 10);
}
