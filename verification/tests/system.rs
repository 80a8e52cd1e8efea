use yahmc::aspect::Matcher;
use yahmc::entity::Entity;
use yahmc::entity::EntityManager;
use yahmc::system::DispatchError;
use yahmc::system::System;
use yahmc::system::SystemDispatcher;

struct MySystem;

impl System for MySystem {
    fn matcher_spec(&self) -> Matcher {
        self.matcher()
    }

    fn matcher(&self) -> Matcher {
        Matcher::new(&vec![1], &vec![2])
    }

    fn process(&mut self, context: &mut EntityManager, _duration: u64, entities: Vec<Entity>) {
        assert!(!entities.is_empty());
        for entity in entities {
            let editor = context.editor(entity);
            assert!(context.contains(editor.entity, 1));
            assert!(!context.contains(editor.entity, 2));
        }
    }
}

enum OrderedSystem {
    First,
    Second,
}

impl System for OrderedSystem {
    fn matcher_spec(&self) -> Matcher {
        self.matcher()
    }

    fn matcher(&self) -> Matcher {
        Matcher::new(&Vec::new(), &Vec::new())
    }

    fn process(&mut self, context: &mut EntityManager, _duration: u64, _entities: Vec<Entity>) {
        match self {
            OrderedSystem::First => {
                assert!(!context.is_alive(0));
                context.create();
            },
            OrderedSystem::Second => {
                assert!(context.is_alive(0));
                assert!(!context.is_alive(1));
                context.create();
            },
        }
    }
}

struct PanickingSystem;

impl System for PanickingSystem {
    fn matcher_spec(&self) -> Matcher {
        self.matcher()
    }

    fn matcher(&self) -> Matcher {
        Matcher::new(&vec![1, 2], &Vec::new())
    }

    fn process(&mut self, _context: &mut EntityManager, _duration: u64, _entities: Vec<Entity>) {
        panic!("For testing!");
    }
}

#[test]
fn get_aspect() {
    let mut entity_manager = EntityManager::new();
    entity_manager.component_manager.register(10);
    entity_manager.component_manager.register(20);

    // all good as long as this runs
    let matcher = MySystem.matcher();
    let (_req, _not) = (matcher.required(), matcher.excluded());
}

#[test]
#[should_panic]
fn dispatch() {
    let mut entity_manager = EntityManager::new();
    entity_manager.component_manager.register(10);
    entity_manager.component_manager.register(20);
    entity_manager.register(&PanickingSystem.matcher());

    let mut dispatcher = SystemDispatcher::new();
    dispatcher.register(PanickingSystem);

    dispatcher.dispatch(&mut entity_manager, 100).unwrap();
}

#[test]
fn dispatch_runs_in_registration_order() {
    let mut entity_manager = EntityManager::new();
    entity_manager.register(&Matcher::new(&Vec::new(), &Vec::new()));

    let mut dispatcher = SystemDispatcher::new();
    dispatcher.register(OrderedSystem::First);
    dispatcher.register(OrderedSystem::Second);

    assert!(dispatcher.dispatch(&mut entity_manager, 16).is_ok());
    assert!(entity_manager.is_alive(0));
    assert!(entity_manager.is_alive(1));
}

#[test]
fn dispatch_unregistered_aspect_fails() {
    let mut entity_manager = EntityManager::new();

    let mut dispatcher = SystemDispatcher::new();
    dispatcher.register(OrderedSystem::First);

    assert_eq!(
        dispatcher.dispatch(&mut entity_manager, 16),
        Err(DispatchError::AspectNotRegistered)
    );
}
