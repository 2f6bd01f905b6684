//! How a child learns of an event.

use std::marker::PhantomData;

use vstd::prelude::*;

use crate::handlers::{InstantAction, Operation};
use crate::ids::Id;
use crate::runtime::{Actor, Address, LiteTask, TaskAddress};

verus! {

/// What is to be sent so that a child learns of an event.
pub enum Delivery<P> {
    /// Nothing is to be sent.
    Nothing,
    /// A message for the high-priority queue of an actor.
    Message { to: Id, operation: Operation, message: P },
    /// The stop signal of a task.
    Stop { task: Id },
}

/// How a child learns of an event.
pub enum NotifierKind {
    /// It does not.
    Ignore,
    /// An actor gets the event as a message.
    Once { to: Id, operation: Operation },
    /// A task gets the stop signal, whatever the event is.
    Stop { task: Id },
}

/// Turns events of type `P` into what is to be sent to one child.
pub struct LifecycleNotifier<P> {
    pub kind: NotifierKind,
    pub _parameter: PhantomData<P>,
}

impl<P> LifecycleNotifier<P> {
    /// The notifier of the given kind.
    pub open spec fn of_kind(kind: NotifierKind) -> Self {
        LifecycleNotifier { kind, _parameter: PhantomData }
    }

    /// What is sent for an event.
    pub open spec fn delivery(self, parameter: P) -> Delivery<P> {
        match self.kind {
            NotifierKind::Ignore => Delivery::Nothing,
            NotifierKind::Once { to, operation } => Delivery::Message {
                to,
                operation,
                message: parameter,
            },
            NotifierKind::Stop { task } => Delivery::Stop { task },
        }
    }

    /// The child that learns of events, if any does.
    pub open spec fn target(self) -> Option<Id> {
        match self.kind {
            NotifierKind::Ignore => None,
            NotifierKind::Once { to, .. } => Some(to),
            NotifierKind::Stop { task } => Some(task),
        }
    }

    /// Makes a notifier that sends nothing.
    pub fn ignore() -> (notifier: Self)
        ensures
            notifier == Self::of_kind(NotifierKind::Ignore),
            notifier.kind is Ignore,
    {
        LifecycleNotifier { kind: NotifierKind::Ignore, _parameter: PhantomData }
    }

    /// Makes a notifier that sends every event to an actor, through its
    /// high-priority queue and with the given operation.
    pub fn once<A: Actor>(address: Address<A>, operation: Operation) -> (notifier: Self) where
        P: InstantAction,

        ensures
            notifier == Self::of_kind(
                NotifierKind::Once { to: address.spec_id().id(), operation },
            ),
            notifier.kind == (NotifierKind::Once { to: address.spec_id().id(), operation }),
    {
        LifecycleNotifier {
            kind: NotifierKind::Once { to: address.id().as_ref().clone(), operation },
            _parameter: PhantomData,
        }
    }

    /// Makes a notifier that stops a task on every event.
    pub fn stop<T: LiteTask>(stopper: TaskAddress<T>) -> (notifier: Self)
        ensures
            notifier == Self::of_kind(NotifierKind::Stop { task: stopper.spec_id().id() }),
            notifier.kind == (NotifierKind::Stop { task: stopper.spec_id().id() }),
    {
        LifecycleNotifier {
            kind: NotifierKind::Stop { task: stopper.id().as_ref().clone() },
            _parameter: PhantomData,
        }
    }

    /// Tells if the child with this id learns of events.
    pub(crate) fn is_for(&self, id: &Id) -> (same: bool)
        ensures
            same == (self.target() matches Some(target) && target.is_same(*id)),
    {
        match &self.kind {
            NotifierKind::Ignore => false,
            NotifierKind::Once { to, .. } => *to == *id,
            NotifierKind::Stop { task } => *task == *id,
        }
    }

    /// Gives what is to be sent for an event.
    pub fn notify(&self, parameter: P) -> (delivery: Delivery<P>)
        ensures
            delivery == self.delivery(parameter),
            match self.kind {
                NotifierKind::Ignore => delivery is Nothing,
                NotifierKind::Once { to, operation } => delivery == (Delivery::Message {
                    to,
                    operation,
                    message: parameter,
                }),
                NotifierKind::Stop { task } => delivery == (Delivery::<P>::Stop { task }),
            },
    {
        match &self.kind {
            NotifierKind::Ignore => Delivery::Nothing,
            NotifierKind::Once { to, operation } => Delivery::Message {
                to: to.clone(),
                operation: operation.clone(),
                message: parameter,
            },
            NotifierKind::Stop { task } => Delivery::Stop { task: task.clone() },
        }
    }
}

} // verus!
