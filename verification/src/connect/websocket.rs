//! Websocket connections that a server has accepted.

use futures::channel::mpsc;
use vstd::prelude::*;

use crate::channels::{after_sending, are_halves, hand_over, is_handed_over};
use crate::connect::protocol::{Protocol, TermReason};
use crate::runtime::{Actor, Address, LiteTask};

verus! {

/// What a worker needs to serve a websocket connection of type `W`.
#[verifier::reject_recursive_types(P)]
struct WsInfo<P: Protocol, W> {
    addr: String,
    connection: W,
    rx: mpsc::UnboundedReceiver<P::ToClient>,
}

/// Wraps a websocket connection of type `W`, and gives out the worker that
/// serves it.
#[verifier::reject_recursive_types(P)]
pub struct WsHandler<P: Protocol, W> {
    addr: String,
    info: Option<WsInfo<P, W>>,
    tx: mpsc::UnboundedSender<P::ToClient>,
    sent: Ghost<Seq<P::ToClient>>,
}

impl<P: Protocol, W> WsHandler<P, W> {
    /// The address of the other side.
    pub closed spec fn peer(self) -> Seq<char> {
        self.addr@
    }

    /// The connection, as long as no worker has it.
    pub closed spec fn connection(self) -> Option<W> {
        match self.info {
            Some(info) => Some(info.connection),
            None => None,
        }
    }

    /// The sending half of the queue of outgoing messages.
    pub closed spec fn outgoing(self) -> mpsc::UnboundedSender<P::ToClient> {
        self.tx
    }

    /// What the handler has put into the queue, in this order.
    pub closed spec fn sent(self) -> Seq<P::ToClient> {
        self.sent@
    }

    /// The handler and the worker that it gives out agree on the other side,
    /// and hold the two halves of one queue.
    pub closed spec fn wf(self) -> bool {
        self.info matches Some(info) ==> info.addr@ == self.addr@ && are_halves(self.tx, info.rx)
    }

    /// Wraps a connection to the other side with the given address.
    pub fn new(addr: String, websocket: W) -> (handler: Self)
        ensures
            handler.wf(),
            handler.peer() == addr@,
            handler.connection() == Some(websocket),
            handler.sent() == Seq::<P::ToClient>::empty(),
    {
        let (tx, rx) = mpsc::unbounded();
        let info = WsInfo { addr: addr.clone(), connection: websocket, rx };
        WsHandler { addr, info: Some(info), tx, sent: Ghost(Seq::empty()) }
    }

    /// The address of the other side.
    pub fn addr(&self) -> (addr: String)
        ensures
            addr@ == self.peer(),
    {
        self.addr.clone()
    }

    /// Tells if the worker was given out.
    pub fn is_started(&self) -> (started: bool)
        ensures
            started == (self.connection() is None),
    {
        self.info.is_none()
    }

    /// Gives out the worker of the connection, which reports to an actor.
    pub fn worker<A>(&mut self, address: Address<A>) -> (worker: WsProcessor<P, W, A>)
        requires
            old(self).wf(),
            old(self).connection() is Some,
        ensures
            final(self).wf(),
            final(self).peer() == old(self).peer(),
            final(self).outgoing() == old(self).outgoing(),
            final(self).sent() == old(self).sent(),
            final(self).connection() is None,
            worker.peer() == old(self).peer(),
            worker.connection() == old(self).connection()->0,
            worker.address() == address,
            are_halves(old(self).outgoing(), worker.outgoing()),
    {
        let info = self.info.take().unwrap();
        WsProcessor { info, address }
    }

    /// Queues a message for the other side. Gives the message back if the
    /// worker is gone.
    pub fn send(&mut self, msg: P::ToClient) -> (refused: Option<P::ToClient>)
        ensures
            old(self).wf() ==> final(self).wf(),
            final(self).peer() == old(self).peer(),
            final(self).connection() == old(self).connection(),
            final(self).outgoing() == old(self).outgoing(),
            is_handed_over(old(self).outgoing(), msg, refused),
            final(self).sent() == after_sending(old(self).sent(), msg, refused),
    {
        let refused = hand_over(&self.tx, msg);
        self.sent = Ghost(after_sending(self.sent@, msg, refused));
        refused
    }
}

/// The worker that serves a websocket connection.
#[verifier::reject_recursive_types(P)]
pub struct WsProcessor<P: Protocol, W, A> {
    info: WsInfo<P, W>,
    address: Address<A>,
}

impl<P: Protocol, W, A> WsProcessor<P, W, A> {
    /// The address of the other side.
    pub closed spec fn peer(self) -> Seq<char> {
        self.info.addr@
    }

    /// The connection to serve.
    pub closed spec fn connection(self) -> W {
        self.info.connection
    }

    /// The receiving half of the queue of outgoing messages.
    pub closed spec fn outgoing(self) -> mpsc::UnboundedReceiver<P::ToClient> {
        self.info.rx
    }

    /// The actor that gets the incoming messages.
    pub closed spec fn address(self) -> Address<A> {
        self.address
    }

    /// Takes the worker apart: the connection, the queue of outgoing messages,
    /// and the actor that gets the incoming ones.
    pub fn into_parts(self) -> (parts: (W, mpsc::UnboundedReceiver<P::ToClient>, Address<A>))
        ensures
            parts == (self.connection(), self.outgoing(), self.address()),
    {
        (self.info.connection, self.info.rx, self.address)
    }
}

impl<P: Protocol, W: Send + 'static, A: Actor> LiteTask for WsProcessor<P, W, A> {
    type Output = TermReason;

    fn name(&self) -> (name: String)
        ensures
            name@ == "WsProcessor("@ + self.peer() + ")"@,
    {
        "WsProcessor(".to_owned().concat(self.info.addr.as_str()).concat(")")
    }
}

} // verus!
