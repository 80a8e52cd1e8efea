//! An in-process entity-component store: entity identity and lifecycle,
//! component-type registration, per-type masked column storage, a
//! dynamically borrow-checked resource container, a multi-column join
//! iterator, an incrementally maintained aspect index, and a sequential
//! system dispatcher, with the engine's setup surface around them.

use vstd::prelude::*;

pub mod aspect;
pub mod bits;
pub mod component;
pub mod convention;
pub mod entity;
pub mod join;
pub mod resource;
pub mod resources;
pub mod runner;
pub mod storage;
pub mod system;

use crate::component::ComponentId;
use crate::component::TypeToken;
use crate::entity::EntityManager;
use crate::system::System;
use crate::system::SystemDispatcher;

verus! {

/// A built world: its entity layer and its ordered systems.
pub struct World<S: System> {
    pub entity_manager: EntityManager,
    pub dispatcher: SystemDispatcher<S>,
}

impl<S: System> World<S> {
    fn new(entity_manager: EntityManager, dispatcher: SystemDispatcher<S>) -> (r: Self)
        ensures
            r.entity_manager == entity_manager,
            r.dispatcher == dispatcher,
    {
        World { entity_manager, dispatcher }
    }
}

/// Collects component registrations and systems, then builds the world.
pub struct WorldBuilder<S: System> {
    pub entity_manager: EntityManager,
    pub dispatcher: SystemDispatcher<S>,
}

impl<S: System> WorldBuilder<S> {
    pub fn new() -> (r: Self)
        ensures
            r.entity_manager.inv(),
            r.entity_manager.alive() == Set::<usize>::empty(),
            r.entity_manager.can_create(),
            r.entity_manager.registry().wf(),
            r.entity_manager.registry().count() == 0,
            forall|t: TypeToken| !r.entity_manager.registry().registered(t),
            r.dispatcher.system_count() == 0,
    {
        WorldBuilder { entity_manager: EntityManager::new(), dispatcher: SystemDispatcher::new() }
    }

    /// Registers a component type by its token, assigning its id.
    /// Registering a token twice is a caller error, excluded here.
    pub fn register_component(&mut self, token: TypeToken) -> (r: ComponentId)
        requires
            old(self).entity_manager.registry().wf(),
            !old(self).entity_manager.registry().registered(token),
            old(self).entity_manager.registry().count() < usize::MAX,
        ensures
            final(self).entity_manager.registry().wf(),
            r == old(self).entity_manager.registry().count() + 1,
            final(self).entity_manager.registry().registered(token),
            final(self).entity_manager.registry().id_of(token) == r,
    {
        self.entity_manager.register_component(token)
    }

    /// Appends a system: it stands last and will run after all
    /// previously registered.
    pub fn register_system(&mut self, system: S)
        ensures
            final(self).dispatcher.systems_seq() == old(self).dispatcher.systems_seq().push(
                system,
            ),
    {
        self.dispatcher.register(system)
    }

    pub fn build(self) -> (r: World<S>)
        ensures
            r.entity_manager == self.entity_manager,
            r.dispatcher == self.dispatcher,
    {
        World::new(self.entity_manager, self.dispatcher)
    }
}

} // verus!
