//! Sequential system execution: registered systems run strictly in
//! registration order, each handed the current entities of its declared
//! matcher. A failure inside one system propagates to the dispatch
//! caller; no per-system isolation is attempted.

use vstd::prelude::*;

use crate::aspect::Matcher;
use crate::entity::Entity;
use crate::entity::EntityEditor;
use crate::entity::EntityManager;

verus! {

/// Entity operations a system may perform while processing.
pub trait Context {
    /// The world's consistency invariant, as the context carries it.
    spec fn ctx_inv(&self) -> bool;

    /// The entities currently alive.
    spec fn ctx_alive(&self) -> Set<usize>;

    /// Whether a fresh entity can still be allocated.
    spec fn ctx_can_create(&self) -> bool;

    fn create(&mut self) -> (r: EntityEditor)
        requires
            old(self).ctx_inv(),
            old(self).ctx_can_create(),
        ensures
            final(self).ctx_inv(),
            !old(self).ctx_alive().contains(r.entity),
            final(self).ctx_alive() == old(self).ctx_alive().insert(r.entity),
    ;

    fn editor(&self, entity: Entity) -> (r: EntityEditor)
        requires
            self.ctx_alive().contains(entity),
        ensures
            r.entity == entity,
    ;

    fn is_alive(&self, entity: Entity) -> (r: bool)
        ensures
            r == self.ctx_alive().contains(entity),
    ;
}

impl Context for EntityManager {
    open spec fn ctx_inv(&self) -> bool {
        self.inv()
    }

    open spec fn ctx_alive(&self) -> Set<usize> {
        self.alive()
    }

    open spec fn ctx_can_create(&self) -> bool {
        self.can_create()
    }

    fn create(&mut self) -> (r: EntityEditor) {
        EntityManager::create(self)
    }

    fn editor(&self, entity: Entity) -> (r: EntityEditor) {
        EntityManager::editor(self, entity)
    }

    fn is_alive(&self, entity: Entity) -> (r: bool) {
        EntityManager::is_alive(self, entity)
    }
}

/// One unit of simulation logic: declares the matcher whose entities it
/// wants, and processes the current matching set each tick. An
/// implementation must leave the world consistent when it returns.
pub trait System: Sized {
    /// The key of the matcher the system declares, as a value the
    /// dispatcher's contract can speak of.
    spec fn matcher_spec(&self) -> Matcher;

    /// The matcher whose entities the system processes.
    fn matcher(&self) -> (r: Matcher)
        ensures
            r.same_key(self.matcher_spec()),
    ;

    /// One tick over the current matching entities; `duration` is the
    /// elapsed time in milliseconds.
    fn process(&mut self, context: &mut EntityManager, duration: u64, entities: Vec<Entity>)
        requires
            old(context).inv(),
        ensures
            final(context).inv(),
    ;
}

/// Why a dispatch stopped early.
#[derive(Clone, Copy, PartialEq, Eq, Structural, Debug)]
pub enum DispatchError {
    /// A system's matcher was never registered with the aspect index;
    /// such missing wiring surfaces loudly instead of yielding nothing.
    AspectNotRegistered,
}

/// Holds the registered systems in registration order and runs them.
pub struct SystemDispatcher<S: System> {
    systems: Vec<S>,
}

impl<S: System> SystemDispatcher<S> {
    /// The registered systems, in registration order.
    pub closed spec fn systems_seq(self) -> Seq<S> {
        self.systems@
    }

    /// How many systems are registered.
    pub open spec fn system_count(self) -> nat {
        self.systems_seq().len()
    }

    pub fn new() -> (r: Self)
        ensures
            r.systems_seq() == Seq::<S>::empty(),
    {
        SystemDispatcher { systems: Vec::new() }
    }

    /// Appends a system: it stands last and will run after all
    /// previously registered.
    pub fn register(&mut self, system: S)
        ensures
            final(self).systems_seq() == old(self).systems_seq().push(system),
    {
        self.systems.push(system)
    }

    /// Runs every system once, strictly in registration order. Each is
    /// handed the entities its matcher currently selects, re-read from
    /// the index after the previous system finished. Stops with an error
    /// at the first system whose matcher is not registered: an empty
    /// dispatcher always succeeds, an error names missing wiring, and a
    /// first system without its matcher registered never runs.
    pub fn dispatch(&mut self, context: &mut EntityManager, duration: u64) -> (r: Result<
        (),
        DispatchError,
    >)
        requires
            old(context).inv(),
        ensures
            final(self).system_count() == old(self).system_count(),
            final(context).inv(),
            old(self).system_count() == 0 ==> r is Ok,
            r is Err ==> old(self).system_count() > 0 && (exists|k: int|
                0 <= k < old(self).systems_seq().len() && !final(context).aspect_registered(
                    (#[trigger] old(self).systems_seq()[k]).matcher_spec(),
                )),
            old(self).system_count() > 0 && !old(context).aspect_registered(
                old(self).systems_seq()[0].matcher_spec(),
            ) ==> r is Err,
    {
        let n = self.systems.len();
        let mut k: usize = 0;
        while k < n
            invariant
                n == self.systems@.len(),
                self.systems@.len() == old(self).systems@.len(),
                k <= n,
                context.inv(),
                forall|j: int| k <= j < n ==> self.systems@[j] == old(self).systems@[j],
                k == 0 ==> *context == *old(context),
                k > 0 ==> old(context).aspect_registered(
                    old(self).systems@[0].matcher_spec(),
                ),
            decreases n - k,
        {
            let matcher = self.systems[k].matcher();
            match context.try_entities(&matcher) {
                Some(entities) => {
                    proof {
                        context.lemma_aspect_registered_same_key(
                            matcher,
                            old(self).systems@[k as int].matcher_spec(),
                        );
                    }
                    let system = &mut self.systems[k];
                    system.process(context, duration, entities);
                },
                None => {
                    proof {
                        context.lemma_aspect_registered_same_key(
                            matcher,
                            old(self).systems@[k as int].matcher_spec(),
                        );
                    }
                    return Err(DispatchError::AspectNotRegistered);
                },
            }
            k = k + 1;
        }
        Ok(())
    }
}

} // verus!
