//! Actors and tasks, and the handles to them.

use vstd::prelude::*;

use crate::ids::{Id, IdOf, IdSource};

verus! {

/// A long-living entity that handles messages one at a time.
pub trait Actor: Sized + Send + 'static {
    /// The key by which an actor sorts its children into termination groups.
    type GroupBy: Clone + Send + Eq + std::hash::Hash + 'static;

    /// The name that the `Id` of the actor shows.
    fn name(&self) -> String;
}

/// An activity that runs once and produces a value.
pub trait LiteTask: Sized + Send + 'static {
    /// What the task produces.
    type Output: Send + 'static;

    /// The name that the `Id` of the task shows.
    fn name(&self) -> String;
}

/// Why a task ended without a value.
pub struct TaskError {
    pub reason: String,
}

/// A handle by which messages reach an actor.
pub struct Address<A> {
    id: IdOf<A>,
}

impl<A> Address<A> {
    /// The id of the actor that the handle reaches.
    pub closed spec fn spec_id(self) -> IdOf<A> {
        self.id
    }

    /// Makes a handle to the actor with the given id.
    pub fn new(id: IdOf<A>) -> (address: Self)
        ensures
            address.spec_id() == id,
    {
        Address { id }
    }

    /// The id of the actor that the handle reaches.
    pub fn id(&self) -> (id: &IdOf<A>)
        ensures
            *id == self.spec_id(),
    {
        &self.id
    }
}

impl<A> Clone for Address<A> {
    fn clone(&self) -> (copy: Self)
        ensures
            copy == *self,
    {
        Address { id: self.id.clone() }
    }
}

/// A handle by which a task is asked to stop.
pub struct TaskAddress<T> {
    id: IdOf<T>,
}

impl<T> TaskAddress<T> {
    /// The id of the task that the handle stops.
    pub closed spec fn spec_id(self) -> IdOf<T> {
        self.id
    }

    /// Makes a handle to the task with the given id.
    pub fn new(id: IdOf<T>) -> (address: Self)
        ensures
            address.spec_id() == id,
    {
        TaskAddress { id }
    }

    /// The id of the task that the handle stops.
    pub fn id(&self) -> (id: &IdOf<T>)
        ensures
            *id == self.spec_id(),
    {
        &self.id
    }
}

/// The root of all actors.
pub struct System {}

/// An actor that is ready to run.
pub struct Launch<A, S> {
    pub actor: A,
    /// The handle by which messages will reach the actor.
    pub address: Address<A>,
    /// Who gets told when the actor finishes.
    pub supervisor: Option<Address<S>>,
}

/// Prepares a standalone actor, which has no supervisor, under a new id.
///
/// The ids of the children of one actor have to come from one source.
pub fn spawn<A: Actor>(ids: &mut IdSource, actor: A) -> (launch: Launch<A, System>)
    requires
        old(ids).issued() < u64::MAX,
    ensures
        launch.actor == actor,
        launch.supervisor is None,
        launch.address.spec_id().id().is_made_by(*old(ids)),
        final(ids).mark() == old(ids).mark(),
        final(ids).issued() == old(ids).issued() + 1,
        exists|name: String| #[trigger]
            call_ensures(A::name, (&actor,), name) && name@
                == launch.address.spec_id().id().name(),
{
    let id = Id::of_actor(ids, &actor);
    Launch { actor, address: Address::new(IdOf::new(id)), supervisor: None }
}

} // verus!
