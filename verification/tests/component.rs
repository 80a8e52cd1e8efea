use yahmc::component::ComponentManager;

#[test]
fn registered() {
    let mut manager = ComponentManager::new();
    let id = manager.register(1);
    assert_eq!(id, manager.id(1));
}

#[test]
fn unique() {
    let mut manager = ComponentManager::new();
    assert_ne!(manager.register(1), manager.register(2));
}

#[test]
fn ids_start_at_one() {
    let mut manager = ComponentManager::new();
    assert_eq!(1, manager.register(10));
    assert_eq!(2, manager.register(20));
    assert_eq!(1, manager.id(10));
    assert_eq!(2, manager.id(20));
    assert!(manager.is_registered(10));
    assert!(!manager.is_registered(30));
}
