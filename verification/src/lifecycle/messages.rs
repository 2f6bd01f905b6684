//! The messages of the lifecycle of an actor.

use std::marker::PhantomData;

use vstd::prelude::*;

use crate::handlers::InstantAction;
use crate::ids::IdOf;
use crate::runtime::{Actor, LiteTask, TaskError};

verus! {

/// Sent by a supervisor to a child actor that it has spawned.
pub struct Awake<T: Actor> {
    pub _origin: PhantomData<T>,
}

impl<T: Actor> Awake<T> {
    /// The one message of this type.
    pub open spec fn message() -> Self {
        Awake { _origin: PhantomData }
    }

    /// Makes the message.
    pub fn new() -> (message: Self)
        ensures
            message == Self::message(),
    {
        Awake { _origin: PhantomData }
    }
}

impl<T: Actor> InstantAction for Awake<T> {

}

/// Asks an actor to interrupt its activity.
pub struct Interrupt<T: Actor> {
    pub _origin: PhantomData<T>,
}

impl<T: Actor> Interrupt<T> {
    /// The one message of this type.
    pub open spec fn message() -> Self {
        Interrupt { _origin: PhantomData }
    }

    /// Makes the message.
    pub fn new() -> (message: Self)
        ensures
            message == Self::message(),
    {
        Interrupt { _origin: PhantomData }
    }
}

// An actor has to react to an interruption as fast as possible, even when its
// other queues are full.
impl<T: Actor> InstantAction for Interrupt<T> {

}

/// Tells that the activity of an actor is completed.
pub struct Done<T: Actor> {
    pub id: IdOf<T>,
}

impl<T: Actor> Done<T> {
    /// Makes the message for the actor with the given id.
    pub fn new(id: IdOf<T>) -> (message: Self)
        ensures
            message == (Done { id }),
    {
        Done { id }
    }
}

// A full queue of limited size would block the notifying thread.
impl<T: Actor> InstantAction for Done<T> {

}

/// Tells that a task has ended, and with what.
pub struct TaskDone<T: LiteTask> {
    pub id: IdOf<T>,
    pub result: Result<T::Output, TaskError>,
}

impl<T: LiteTask> TaskDone<T> {
    /// Makes the message for the task with the given id.
    pub fn new(id: IdOf<T>, result: Result<T::Output, TaskError>) -> (message: Self)
        ensures
            message == (TaskDone { id, result }),
    {
        TaskDone { id, result }
    }
}

// A full queue of limited size would block the notifying thread.
impl<T: LiteTask> InstantAction for TaskDone<T> {

}

} // verus!
