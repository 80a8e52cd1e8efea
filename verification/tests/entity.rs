use yahmc::aspect::Matcher;
use yahmc::bits::BitSet;
use yahmc::component::ComponentManager;
use yahmc::entity::AspectIndex;
use yahmc::entity::EntityManager;
use yahmc::entity::EntityStates;
use yahmc::entity::EntityStorage;

#[test]
fn create_entity() {
    let mut entity_storage = EntityStorage::new();
    let entity = entity_storage.create();
    assert!(entity_storage.is_alive(entity));
}

#[test]
fn destroy_entity() {
    let mut entity_storage = EntityStorage::new();
    let entity = entity_storage.create();
    entity_storage.destroy(entity);
    assert!(!entity_storage.is_alive(entity));
}

#[test]
fn re_use_dead_entity() {
    let mut entity_storage = EntityStorage::new();
    let entity = entity_storage.create();
    entity_storage.destroy(entity);

    let new_entity = entity_storage.create();
    assert_eq!(entity, new_entity);
}

#[test]
fn unique_ids() {
    let mut entity_storage = EntityStorage::new();
    let entity1 = entity_storage.create();
    let entity2 = entity_storage.create();
    assert_ne!(entity1, entity2);
}

#[test]
fn entity_storage_create_unique() {
    let mut storage = EntityStorage::new();
    assert_ne!(storage.create(), storage.create());
}

#[test]
fn entity_storage_alive() {
    let mut storage = EntityStorage::new();
    let entity = storage.create();
    assert!(storage.is_alive(entity));
}

#[test]
fn entity_storage_reuse_entity() {
    let mut storage = EntityStorage::new();
    let entity = storage.create();
    storage.destroy(entity);
    let new_entity = storage.create();
    assert_eq!(entity, new_entity);
}

#[test]
fn entity_storage_destroy() {
    let mut storage = EntityStorage::new();
    let entity = storage.create();
    storage.destroy(entity);
    assert!(!storage.is_alive(entity));
}

#[test]
fn entity_states_get_not_existing() {
    let mut states = EntityStates::new();
    assert_eq!(0, states.get(0, false).len());
}

#[test]
fn entity_states_get_existing() {
    let mut states = EntityStates::new();
    states.get(0, false).insert(1);
    assert!(states.get(0, false).contains(1));
}

#[test]
fn entity_states_get_existing_init() {
    let mut states = EntityStates::new();
    states.get(0, false).insert(1);
    assert!(!states.get(0, true).contains(1));
}

#[test]
fn aspect_index_initially_empty() {
    let mut component_manager = ComponentManager::new();
    let my_id = component_manager.register(1);
    let another_id = component_manager.register(2);

    let mut index = AspectIndex::new();

    let my_aspect = Matcher::new(&vec![my_id, another_id], &Vec::new());

    index.register(&my_aspect);
    assert!(index.entities(&my_aspect).is_empty());
}

#[test]
fn aspect_index_insert() {
    let mut component_manager = ComponentManager::new();
    let my_id = component_manager.register(1);
    let another_id = component_manager.register(2);

    let mut index = AspectIndex::new();
    let my_aspect = Matcher::new(&vec![my_id, another_id], &Vec::new());
    index.register(&my_aspect);

    let entity = 1;
    let mut bits = BitSet::new();
    bits.insert(component_manager.id(1));
    bits.insert(component_manager.id(2));

    index.update(entity, &bits);

    assert!(index.entities(&my_aspect).contains(&entity));
}

#[test]
fn aspect_index_removal() {
    let mut component_manager = ComponentManager::new();
    let my_id = component_manager.register(1);
    let another_id = component_manager.register(2);

    let mut index = AspectIndex::new();
    let my_aspect = Matcher::new(&vec![my_id, another_id], &Vec::new());
    index.register(&my_aspect);

    let entity = 1;
    let mut bits = BitSet::new();
    // first pass
    bits.insert(component_manager.id(1));
    bits.insert(component_manager.id(2));
    index.update(entity, &bits);

    // sometime later
    bits.remove(component_manager.id(2));
    index.update(entity, &bits);

    assert!(!index.entities(&my_aspect).contains(&entity));
}

#[test]
fn aspect_index_explicit_removal() {
    let mut component_manager = ComponentManager::new();
    let my_id = component_manager.register(1);
    let another_id = component_manager.register(2);

    let mut index = AspectIndex::new();
    let my_aspect = Matcher::new(&vec![my_id, another_id], &Vec::new());
    index.register(&my_aspect);

    let entity = 1;
    let mut bits = BitSet::new();
    // first pass
    bits.insert(component_manager.id(1));
    bits.insert(component_manager.id(2));
    index.update(entity, &bits);

    // sometime later
    index.remove(entity);

    assert!(!index.entities(&my_aspect).contains(&entity));
}

#[test]
fn aspect_index_register_twice_is_silent() {
    let mut index = AspectIndex::new();
    let matcher = Matcher::new(&vec![1], &Vec::new());
    index.register(&matcher);
    index.register(&matcher);
    assert!(index.entities(&matcher).is_empty());
}

#[test]
fn entity_manager_existing() {
    let mut entity_manager = EntityManager::new();
    let entity = entity_manager.create().entity;

    assert_eq!(entity, entity_manager.editor(entity).entity);
}
