//! Messages, and the envelopes in which they travel to an actor.

use futures::channel::oneshot;
use vstd::prelude::*;

use crate::ids::Id;

verus! {

/// A message that can be sent to an actor.
pub trait Action: Send + 'static {
    /// Tells that the message has to be sent with high priority.
    fn is_high_priority(&self) -> (high: bool)
        default_ensures
            !high,
    {
        false
    }
}

/// A message that always travels through the high-priority queue.
pub trait InstantAction: Send + 'static {

}

/// What the runtime does besides handing a high-priority message over.
pub enum Operation {
    /// A child with this id has finished.
    Done { id: Id },
    /// Nothing besides handing the message over.
    Forward,
}

impl Clone for Operation {
    fn clone(&self) -> (copy: Self)
        ensures
            copy == *self,
    {
        match self {
            Operation::Done { id } => Operation::Done { id: id.clone() },
            Operation::Forward => Operation::Forward,
        }
    }
}

/// A message on its way to an actor, which is handled once.
pub struct ActionHandlerImpl<I> {
    input: Option<I>,
}

impl<I> ActionHandlerImpl<I> {
    /// The message, as long as it was not handled.
    pub closed spec fn pending(self) -> Option<I> {
        self.input
    }

    /// Gives the message out to be handled.
    fn handle(&mut self) -> (input: I)
        requires
            old(self).pending() is Some,
        ensures
            input == old(self).pending()->0,
            final(self).pending() is None,
    {
        self.input.take().unwrap()
    }
}

/// A message in the queue of an actor.
pub struct Envelope<I> {
    handler: ActionHandlerImpl<I>,
}

impl<I> Envelope<I> {
    /// The message, as long as it was not handled.
    pub closed spec fn pending(self) -> Option<I> {
        self.handler.pending()
    }

    /// Tells if the message was not handled yet.
    pub fn is_pending(&self) -> (pending: bool)
        ensures
            pending == (self.pending() is Some),
    {
        self.handler.input.is_some()
    }

    /// Gives the message out to be handled. There is no second time.
    pub fn handle(&mut self) -> (input: I)
        requires
            old(self).pending() is Some,
        ensures
            input == old(self).pending()->0,
            final(self).pending() is None,
    {
        self.handler.handle()
    }
}

impl<I: Action> Envelope<I> {
    /// Puts a message into an envelope.
    pub fn action(input: I) -> (envelope: Self)
        ensures
            envelope.pending() == Some(input),
    {
        Envelope { handler: ActionHandlerImpl { input: Some(input) } }
    }
}

/// A message in the high-priority queue of an actor.
pub struct HpEnvelope<I> {
    pub operation: Operation,
    pub envelope: Envelope<I>,
}

/// A request that is answered with an `OUT`, or with the text of an error.
#[verifier::reject_recursive_types(OUT)]
pub struct Interaction<IN, OUT> {
    pub request: IN,
    pub responder: oneshot::Sender<Result<OUT, String>>,
}

impl<IN: Send + 'static, OUT: Send + 'static> Action for Interaction<IN, OUT> {

}

/// A request that is answered when the actor has finished.
pub struct Joiner {
    pub responder: oneshot::Sender<Result<(), String>>,
}

impl Action for Joiner {

}

} // verus!
