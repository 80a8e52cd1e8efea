use yahmc::component::Component;
use yahmc::join::JoinIterator;
use yahmc::storage::MaskedStorage;
use yahmc::storage::VecStorage;

struct MyComponent(i32);

impl Component for MyComponent {
    type Storage = VecStorage<Self>;
}

struct AnotherComponent(i32);

impl Component for AnotherComponent {
    type Storage = VecStorage<Self>;
}

#[test]
fn join_pair_intersection() {
    let mut a: MaskedStorage<MyComponent> = MaskedStorage::new();
    a.insert(1, MyComponent(10));
    a.insert(3, MyComponent(30));
    a.insert(5, MyComponent(50));

    let mut b: MaskedStorage<AnotherComponent> = MaskedStorage::new();
    b.insert(3, AnotherComponent(300));
    b.insert(5, AnotherComponent(500));
    b.insert(7, AnotherComponent(700));

    let mut iterator = JoinIterator::new((&a, &b));

    let first = iterator.next().unwrap();
    assert_eq!(first.0.0, 30);
    assert_eq!(first.1.0, 300);

    let second = iterator.next().unwrap();
    assert_eq!(second.0.0, 50);
    assert_eq!(second.1.0, 500);

    assert!(iterator.next().is_none());
}

#[test]
fn join_single_column() {
    let mut a: MaskedStorage<MyComponent> = MaskedStorage::new();
    a.insert(2, MyComponent(20));
    a.insert(4, MyComponent(40));

    let mut iterator = JoinIterator::new(&a);
    assert_eq!(iterator.next().unwrap().0, 20);
    assert_eq!(iterator.next().unwrap().0, 40);
    assert!(iterator.next().is_none());
}

#[test]
fn join_empty_convention() {
    let mut iterator = JoinIterator::new(());
    assert!(iterator.next().is_none());
}

#[test]
fn join_empty_intersection() {
    let mut a: MaskedStorage<MyComponent> = MaskedStorage::new();
    a.insert(1, MyComponent(10));

    let mut b: MaskedStorage<AnotherComponent> = MaskedStorage::new();
    b.insert(2, AnotherComponent(20));

    let mut iterator = JoinIterator::new((&a, &b));
    assert!(iterator.next().is_none());
}
