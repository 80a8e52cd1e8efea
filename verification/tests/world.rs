use yahmc::aspect::Matcher;
use yahmc::convention::Convention;
use yahmc::resource::DiskResourceManager;
use yahmc::resource::ResourceError;
use yahmc::resource::ResourceManager;
use yahmc::entity::Entity;
use yahmc::entity::EntityManager;
use yahmc::runner::Builder;
use yahmc::system::System;
use yahmc::WorldBuilder;

struct MySystem;

impl System for MySystem {
    fn matcher_spec(&self) -> Matcher {
        self.matcher()
    }

    fn matcher(&self) -> Matcher {
        Matcher::new(&vec![1], &Vec::new())
    }

    fn process(&mut self, _context: &mut EntityManager, _duration: u64, _entities: Vec<Entity>) {
        // nada
    }
}

#[test]
fn registered_component() {
    let mut world_builder: WorldBuilder<MySystem> = WorldBuilder::new();
    world_builder.register_component(10);
    world_builder.entity_manager.register(&MySystem.matcher());
    world_builder.register_system(MySystem);
    let mut world = world_builder.build();
    assert!(world.dispatcher.dispatch(&mut world.entity_manager, 0).is_ok());
}

#[test]
fn join_registered_component() {
    let mut world_builder: WorldBuilder<MySystem> = WorldBuilder::new();
    let id = world_builder.register_component(10);
    world_builder.entity_manager.register(&MySystem.matcher());
    world_builder.register_system(MySystem);
    let mut world = world_builder.build();
    let entity = world.entity_manager.create().entity;
    world.entity_manager.add(entity, id);
    assert!(world.dispatcher.dispatch(&mut world.entity_manager, 0).is_ok());
}

#[test]
fn matcher_required_excluded_tracking() {
    let mut entity_manager = EntityManager::new();
    let a = entity_manager.component_manager.register(10);
    let b = entity_manager.component_manager.register(11);
    let matcher = Matcher::new(&vec![a], &vec![b]);
    entity_manager.register(&matcher);

    let e0 = entity_manager.create().entity;
    let e1 = entity_manager.create().entity;
    let e2 = entity_manager.create().entity;
    let e3 = entity_manager.create().entity;
    assert_eq!((e0, e1, e2, e3), (0, 1, 2, 3));

    entity_manager.add(e1, a);
    entity_manager.add(e2, a);
    entity_manager.add(e3, a);
    entity_manager.add(e2, b);
    entity_manager.add(e3, b);

    assert_eq!(entity_manager.entities(&matcher), vec![e1]);

    entity_manager.add(e1, b);
    assert!(entity_manager.entities(&matcher).is_empty());

    entity_manager.remove(e1, a);
    assert!(entity_manager.entities(&matcher).is_empty());
}

#[test]
fn destroyed_entity_leaves_every_aspect() {
    let mut entity_manager = EntityManager::new();
    let a = entity_manager.component_manager.register(10);
    let matcher = Matcher::new(&vec![a], &Vec::new());
    entity_manager.register(&matcher);

    let entity = entity_manager.create().entity;
    entity_manager.add(entity, a);
    assert_eq!(entity_manager.entities(&matcher), vec![entity]);

    entity_manager.destroy(entity);
    assert!(!entity_manager.is_alive(entity));
    assert!(entity_manager.entities(&matcher).is_empty());
}

#[test]
fn commit_is_idempotent() {
    let mut entity_manager = EntityManager::new();
    let a = entity_manager.component_manager.register(10);
    let matcher = Matcher::new(&vec![a], &Vec::new());
    entity_manager.register(&matcher);

    let entity = entity_manager.create().entity;
    entity_manager.add(entity, a);
    entity_manager.commit(entity);
    entity_manager.commit(entity);
    assert_eq!(entity_manager.entities(&matcher), vec![entity]);
}

#[test]
fn convention_layout() {
    let convention = Convention::create(String::from("root"));
    assert_eq!(convention.root_dir, "root");
    assert_eq!(convention.components_dir, "root/components");
    assert_eq!(convention.processors_dir, "root/processors");
    assert_eq!(convention.scripts_dir, "root/scripts");
}

#[test]
fn builder_keeps_root() {
    let runner = Builder::create(String::from("somewhere")).build();
    assert_eq!(runner.settings.root, "somewhere");
    let convention = runner.convention();
    assert_eq!(convention.scripts_dir, "somewhere/scripts");
}

#[test]
fn disk_resource_lookup_reports_not_found() {
    let manager = DiskResourceManager { root: String::from("root") };
    match manager.get_resource("missing.lua") {
        Err(ResourceError::ResourceNotFound(path)) => assert_eq!(path, ""),
        _ => panic!("expected a not-found error"),
    }
}
