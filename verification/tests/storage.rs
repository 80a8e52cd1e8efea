use yahmc::component::Component;
use yahmc::storage::MaskedStorage;
use yahmc::storage::RawStorage;
use yahmc::storage::VecStorage;

struct MyComponent;

impl Component for MyComponent {
    type Storage = VecStorage<Self>;
}

struct MyOtherComponent(i32);

impl Component for MyOtherComponent {
    type Storage = VecStorage<Self>;
}

#[test]
fn vec_storage_insert() {
    let mut storage: VecStorage<MyComponent> = VecStorage::new();
    let component = MyComponent;
    storage.insert(0, component);
    assert!(storage.contains(0));
}

#[test]
fn vec_storage_remove() {
    let mut storage: VecStorage<MyComponent> = VecStorage::new();
    let component = MyComponent;
    storage.insert(0, component);
    storage.remove(0);
    assert!(!storage.contains(0));
}

#[test]
fn vec_storage_get() {
    let mut storage: VecStorage<MyComponent> = VecStorage::new();
    let component = MyComponent;
    storage.insert(0, component);
    // should not panic
    storage.get(0);
}

#[test]
fn vec_storage_get_mut() {
    let mut storage: VecStorage<MyOtherComponent> = VecStorage::new();
    let component = MyOtherComponent(0);
    storage.insert(0, component);
    {
        let mutable_component = storage.get_mut(0);
        mutable_component.0 = 100;
    }
    let updated_component = storage.get(0);
    assert_eq!(updated_component.0, 100);
}

#[test]
fn get_existing() {
    let entity = 1;
    let mut storage: VecStorage<MyOtherComponent> = VecStorage::new();

    storage.insert(entity, MyOtherComponent(1));

    let component = storage.get(entity);
    assert_eq!(1, component.0);
}

#[test]
fn masked_storage_insert_get_remove() {
    let mut storage: MaskedStorage<MyOtherComponent> = MaskedStorage::new();

    storage.insert(3, MyOtherComponent(7));
    assert!(storage.contains(3));
    assert_eq!(storage.get(3).unwrap().0, 7);

    storage.insert(3, MyOtherComponent(9));
    assert!(storage.contains(3));
    assert_eq!(storage.get(3).unwrap().0, 9);

    let taken = storage.remove(3);
    assert_eq!(taken.unwrap().0, 9);
    assert!(!storage.contains(3));
    assert!(storage.get(3).is_none());
    assert!(storage.remove(3).is_none());
}

#[test]
fn masked_storage_get_mut() {
    let mut storage: MaskedStorage<MyOtherComponent> = MaskedStorage::new();
    storage.insert(2, MyOtherComponent(5));
    {
        let slot = storage.get_mut(2);
        slot.0 = 6;
    }
    assert_eq!(storage.get(2).unwrap().0, 6);
    assert!(storage.contains(2));
}

#[test]
fn masked_storage_absent() {
    let storage: MaskedStorage<MyOtherComponent> = MaskedStorage::new();
    assert!(!storage.contains(0));
    assert!(storage.get(0).is_none());
}
