use parking_lot::RwLock;
use std::sync::Arc;
use tspawn::A;

#[test]
fn test_basic_operations() {
    let data = A::new(42);

    assert_eq!(data.get(), 42);

    data.set(100);
    assert_eq!(data.get(), 100);

    data.update(|x| *x += 1);
    assert_eq!(data.get(), 101);

    assert_eq!(data.geto(), Some(101));
}

#[test]
fn test_cloning() {
    let original = A::new(vec![1, 2, 3]);
    let cloned = original.clone();

    assert_eq!(original.get(), vec![1, 2, 3]);
    assert_eq!(cloned.get(), vec![1, 2, 3]);

    original.update(|v| v.push(4));

    assert_eq!(cloned.get(), vec![1, 2, 3, 4]);
}

#[test]
fn test_guards() {
    let data = A::new(String::from("Hello"));

    {
        let guard = data.read();
        assert_eq!(guard.value(), "Hello");
    }

    {
        let mut guard = data.write();
        guard.apply(|s| s.push_str(", World!"));
    }

    assert_eq!(data.get(), "Hello, World!");
}

#[test]
fn test_from_and_into_inner() {
    let arc_lock = Arc::new(RwLock::new(42));
    let data = A::from_inner(arc_lock);
    assert_eq!(data.get(), 42);

    let arc_lock = data.into_inner();
    assert_eq!(*arc_lock.read(), 42);
}

#[test]
fn test_duplicate_transparency() {
    let c = A::new(5);
    let d = c.clone();
    assert_eq!(d.get(), c.get());

    c.set(9);
    assert_eq!(d.get(), 9);

    d.set(11);
    assert_eq!(c.get(), 11);
}

#[test]
fn test_snapshot_follows_last_write() {
    let c = A::new(0);
    c.set(3);
    c.update(|x| *x *= 7);
    assert_eq!(c.get(), 21);
    c.set(2);
    assert_eq!(c.get(), 2);
    assert_eq!(c.geto(), Some(2));
}

#[test]
fn test_write_guard_set() {
    let data = A::new(1);
    {
        let mut g = data.write();
        assert_eq!(*g.value(), 1);
        g.set(2);
        assert_eq!(*g.value(), 2);
    }
    assert_eq!(data.get(), 2);
}
