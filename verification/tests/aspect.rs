use yahmc::aspect::Matcher;
use yahmc::bits::BitSet;
use yahmc::component::ComponentManager;

#[test]
fn req() {
    let mut manager = ComponentManager::new();
    manager.register(1);
    manager.register(2);

    let a1 = Matcher::new(&vec![manager.id(1)], &Vec::new());
    let a2 = Matcher::new(&Vec::new(), &vec![manager.id(2)]);
    let mut expected = BitSet::new();
    expected.union_with(&a1.required());
    expected.union_with(&a2.required());

    let combined = a1.union(&a2);
    assert!(expected.eq_set(&combined.required()));
    assert!(!expected.eq_set(&combined.excluded()));
}

#[test]
fn not() {
    let mut manager = ComponentManager::new();
    manager.register(1);
    manager.register(2);

    let a1 = Matcher::new(&vec![manager.id(1)], &Vec::new());
    let a2 = Matcher::new(&Vec::new(), &vec![manager.id(2)]);
    let mut expected = BitSet::new();
    expected.union_with(&a1.excluded());
    expected.union_with(&a2.excluded());

    let combined = a1.union(&a2);
    assert!(expected.eq_set(&combined.excluded()));
    assert!(!expected.eq_set(&combined.required()));
}

#[test]
fn check() {
    let mut manager = ComponentManager::new();
    manager.register(1);
    manager.register(2);

    let mut bits = BitSet::new();
    bits.insert(manager.id(1));
    let matcher = Matcher::new(&vec![manager.id(1)], &vec![manager.id(2)]);
    assert!(matcher.check(&bits));
}

#[test]
fn check_has_excluded() {
    let mut manager = ComponentManager::new();
    manager.register(1);
    manager.register(2);

    let mut bits = BitSet::new();
    bits.insert(manager.id(1));
    bits.insert(manager.id(2));
    let matcher = Matcher::new(&vec![manager.id(1)], &vec![manager.id(2)]);
    assert!(!matcher.check(&bits));
}

#[test]
fn check_no_required() {
    let mut manager = ComponentManager::new();
    manager.register(1);
    manager.register(2);

    let bits = BitSet::new();
    let matcher = Matcher::new(&vec![manager.id(1)], &vec![manager.id(2)]);
    assert!(!matcher.check(&bits));
}
