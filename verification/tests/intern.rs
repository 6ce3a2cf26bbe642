use numeric::intern::Interner;

#[test]
fn intern_test_add() {
    let mut interner = Interner::new();

    let pos1 = interner.add(0);
    let pos2 = interner.add(0);
    let pos3 = interner.add(1);
    let pos4 = interner.add(1);

    assert_eq!(pos1, pos2);
    assert_eq!(pos3, pos4);
    assert_ne!(pos1, pos3);
}

#[test]
fn test_dead_live() {
    let mut interner = Interner::new();

    // Create value
    let pos1 = interner.add(0);
    assert_eq!(interner.refcount(pos1), 1);
    // Kill the location
    interner.decr(pos1);
    assert_eq!(interner.refcount(pos1), 0);
    // Revive it
    let pos2 = interner.add(0);

    assert_eq!(pos1, pos2);
    assert_eq!(interner.refcount(pos2), 1);
}

#[test]
fn test_no_dead() {
    let mut interner = Interner::new();

    let pos1 = interner.add(-1);
    interner.decr(pos1);
    assert!(matches!(interner.try_get(pos1), None));
}

#[test]
fn intern_read_back_and_chunks() {
    let mut interner = Interner::new();
    let a = interner.add(5i64);
    assert_eq!(*interner.get(a), 5);
    interner.incr(a);
    assert_eq!(interner.refcount(a), 2);
    interner.decr(a);
    interner.decr(a);
    interner.decr(a);
    assert_eq!(interner.refcount(a), 0);
    let b = interner.add(9);
    assert_eq!(a, b);
    assert_eq!(*interner.get(b), 9);
    let c = interner.add(10);
    assert_eq!(c, 1);
}

#[test]
fn intern_live_value_is_not_stored_twice() {
    let mut interner = Interner::new();
    let a = interner.add(0);
    let b = interner.add(1);
    interner.decr(a);
    assert_eq!(interner.add(1), b);
    assert_eq!(interner.refcount(b), 2);
    assert_eq!(interner.refcount(a), 0);
    assert_eq!(interner.add(2), a);
}
