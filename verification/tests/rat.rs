use numeric::rat::Rat;

#[test]
fn rat_test_add() {
    let a = Rat::new(1, 2).unwrap();
    let b = Rat::new(3, 4).unwrap();
    assert_eq!(a + b, Rat::new(5, 4).unwrap());
}

#[test]
fn test_round() {
    let a = Rat::new(3, 7).unwrap();
    let b = Rat::new(4, 7).unwrap();
    let c = Rat::new(10, 7).unwrap();
    let d = Rat::new(11, 7).unwrap();
    assert_eq!(a.round(), Rat::zero());
    assert_eq!(b.round(), Rat::one());
    assert_eq!(c.round(), Rat::one());
    assert_eq!(d.round(), Rat::one() + Rat::one());
}

#[test]
fn rat_new_reduces_by_gcd() {
    assert_eq!(Rat::new(6, 4).unwrap().into_pair(), (3, 2));
    assert_eq!(Rat::new(4, 2).unwrap().into_pair(), (2, 1));
    assert_eq!(Rat::new(2, 4).unwrap().into_pair(), (1, 2));
    assert_eq!(Rat::new(i32::MIN, i32::MIN).unwrap().into_pair(), (-1, -1));
    assert_eq!(Rat::new(0, 5).unwrap().into_pair(), (0, 1));
    assert_eq!(Rat::new(-6, 4).unwrap().into_pair(), (-3, 2));
    assert!(Rat::new(3i64, 0).is_none());
}

#[test]
fn rat_arithmetic() {
    let a = Rat::new(1i32, 3).unwrap();
    let b = Rat::new(1i32, 6).unwrap();
    assert_eq!((a - b).into_pair(), (1, 6));
    assert_eq!((a * b).into_pair(), (1, 18));
    assert_eq!((a / b).into_pair(), (2, 1));
    assert_eq!((-a).into_pair(), (-1, 3));
    assert_eq!(*a.numerator(), 1);
    assert_eq!(*a.denominator(), 3);
}

#[test]
fn rat_floor_and_ceil() {
    let x = Rat::new(7i32, 2).unwrap();
    assert_eq!(x.floor().into_pair(), (3, 1));
    assert_eq!(x.ceil().into_pair(), (4, 1));
    let y = Rat::new(-7i32, 2).unwrap();
    assert_eq!(y.floor().into_pair(), (-4, 1));
    assert_eq!(y.ceil().into_pair(), (-3, 1));
    let z = Rat::new(7i32, -2).unwrap();
    assert_eq!(z.floor().into_pair(), (-4, 1));
    assert_eq!(z.ceil().into_pair(), (-3, 1));
    assert_eq!(Rat::new(4i32, 2).unwrap().ceil().into_pair(), (2, 1));
    assert_eq!(Rat::new(4i32, 2).unwrap().floor().into_pair(), (2, 1));
}
