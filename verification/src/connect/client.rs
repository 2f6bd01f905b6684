//! A client that keeps itself connected to a server.

use std::marker::PhantomData;

use futures::channel::mpsc;
use vstd::prelude::*;

use crate::channels::{after_sending, are_halves, hand_over, is_handed_over};
use crate::connect::protocol::{LiteStatus, Protocol, ProtocolData, TermReason};
use crate::handlers::Action;
use crate::runtime::{Actor, Address, LiteTask};

verus! {

/// Queues messages for the server.
#[verifier::reject_recursive_types(T)]
pub struct WsSender<T: ProtocolData> {
    tx: mpsc::UnboundedSender<T>,
    sent: Ghost<Seq<T>>,
}

impl<T: ProtocolData> WsSender<T> {
    /// The sending half of the queue of outgoing messages.
    pub closed spec fn outgoing(self) -> mpsc::UnboundedSender<T> {
        self.tx
    }

    /// What the sender has put into the queue, in this order.
    pub closed spec fn sent(self) -> Seq<T> {
        self.sent@
    }

    /// Makes a sender from the sending half of a queue.
    pub fn new(tx: mpsc::UnboundedSender<T>) -> (sender: Self)
        ensures
            sender.outgoing() == tx,
            sender.sent() == Seq::<T>::empty(),
    {
        WsSender { tx, sent: Ghost(Seq::empty()) }
    }

    /// Queues a message for the server. Gives the message back if the
    /// connection is gone.
    pub fn send(&mut self, msg: T) -> (refused: Option<T>)
        ensures
            final(self).outgoing() == old(self).outgoing(),
            is_handed_over(old(self).outgoing(), msg, refused),
            final(self).sent() == after_sending(old(self).sent(), msg, refused),
    {
        let refused = hand_over(&self.tx, msg);
        self.sent = Ghost(after_sending(self.sent@, msg, refused));
        refused
    }
}

/// What a client tells its actor.
#[verifier::reject_recursive_types(P)]
pub enum WsClientStatus<P: Protocol> {
    /// The connection stands, and takes messages through the sender.
    Connected { sender: WsSender<P::ToServer> },
    /// The connection was lost, or could not be made.
    Failed(String),
}

impl<P: Protocol> Action for WsClientStatus<P> {
    fn is_high_priority(&self) -> (high: bool)
        ensures
            high,
    {
        true
    }
}

/// A client of a server at `url`, which reports to an actor.
///
/// After a failure it waits until `repeat_interval` nanoseconds have passed
/// since its last attempt to connect, and connects again. Without an interval
/// it gives up.
pub struct WsClient<P, A> {
    url: String,
    repeat_interval: Option<u128>,
    address: Address<A>,
    _protocol: PhantomData<P>,
}

impl<P: Protocol, A> WsClient<P, A> {
    /// Where the server is.
    pub closed spec fn url(self) -> Seq<char> {
        self.url@
    }

    /// The least time between two attempts to connect, in nanoseconds.
    pub closed spec fn repeat_interval(self) -> Option<u128> {
        self.repeat_interval
    }

    /// The actor that the client reports to.
    pub closed spec fn address(self) -> Address<A> {
        self.address
    }

    /// Makes a client.
    pub fn new(url: String, repeat_interval: Option<u128>, address: Address<A>) -> (client: Self)
        ensures
            client.url() == url@,
            client.repeat_interval() == repeat_interval,
            client.address() == address,
    {
        WsClient { url, repeat_interval, address, _protocol: PhantomData }
    }

    /// Starts the routine of the client. It first wants to know its status.
    pub fn connection_routine(&self) -> (routine: ConnectionRoutine)
        ensures
            routine.wf(),
            routine.url() == self.url(),
            routine.interval() == self.repeat_interval(),
            routine.phase() == ClientPhase::Checking,
    {
        ConnectionRoutine {
            url: self.url.clone(),
            interval: self.repeat_interval,
            phase: ClientPhase::Checking,
        }
    }

    /// The actor that the client reports to.
    pub fn owner(&self) -> (owner: &Address<A>)
        ensures
            *owner == self.address(),
    {
        &self.address
    }

    /// Makes what the actor is told of a new connection, with the queue of the
    /// messages that it will send to the server.
    pub fn announcement() -> (announced: (
        WsClientStatus<P>,
        mpsc::UnboundedReceiver<P::ToServer>,
    ))
        ensures
            announced.0 matches WsClientStatus::Connected { sender } && {
                &&& are_halves(sender.outgoing(), announced.1)
                &&& sender.sent() == Seq::<P::ToServer>::empty()
            },
    {
        let (tx, rx) = mpsc::unbounded();
        (WsClientStatus::Connected { sender: WsSender::new(tx) }, rx)
    }
}

impl<P: Protocol, A: Actor> LiteTask for WsClient<P, A> {
    type Output = ();

    fn name(&self) -> (name: String)
        ensures
            name@ == "WsClient("@ + self.url() + ")"@,
    {
        "WsClient(".to_owned().concat(self.url.as_str()).concat(")")
    }
}

/// What the routine of a client waits for.
#[derive(Clone, Copy, PartialEq, Eq, Structural, Debug)]
pub enum ClientPhase {
    /// For its own status.
    Checking,
    /// For the end of an attempt to connect.
    Connecting,
    /// For its actor, which was told of the connection.
    Announcing,
    /// For the end of the talk with the server.
    Talking,
    /// For its actor, which was told of a failure.
    Reporting,
    /// For the time since the last attempt to connect ended.
    Measuring,
    /// For the time of the next attempt.
    Waiting,
    /// For nothing: it is over.
    Over,
}

/// What happens to the routine of a client; `S` is the type of texts.
pub enum ClientEvent<S> {
    /// The status of the routine.
    Status(LiteStatus),
    /// An attempt to connect has ended, well or with an error.
    Connected(Result<(), S>),
    /// The actor has taken what it was told, or could not be told.
    Told(Result<(), S>),
    /// The talk with the server has ended, or has failed.
    TalkOver(Result<TermReason, S>),
    /// The time since the last attempt to connect ended, in nanoseconds.
    Elapsed(u128),
    /// The wait is over.
    Timeout,
    /// The status has changed during the wait, or nobody can change it any
    /// more.
    StatusChanged(Option<LiteStatus>),
}

/// What the routine of a client wants to be done; `S` is the type of texts.
pub enum ClientAction<S> {
    /// Look the status up.
    CheckStatus,
    /// Connect to the server at this url.
    Connect(S),
    /// Tell the actor of the connection, with a new sender for it.
    Announce,
    /// Talk with the server until the connection or the routine ends.
    Talk,
    /// Tell the actor of a failure.
    Report(S),
    /// Measure the time since the last attempt to connect ended.
    Measure,
    /// Wait for some nanoseconds, or for a change of the status.
    Wait(u128),
    /// Go on with the wait.
    KeepWaiting,
    /// End the routine with this result.
    Finish(Result<(), S>),
}

/// A result with the text of its error taken by its view.
pub open spec fn result_view<T>(result: Result<T, String>) -> Result<T, Seq<char>> {
    match result {
        Ok(value) => Ok(value),
        Err(error) => Err(error@),
    }
}

impl View for ClientEvent<String> {
    type V = ClientEvent<Seq<char>>;

    open spec fn view(&self) -> ClientEvent<Seq<char>> {
        match *self {
            ClientEvent::Status(status) => ClientEvent::Status(status),
            ClientEvent::Connected(result) => ClientEvent::Connected(result_view(result)),
            ClientEvent::Told(result) => ClientEvent::Told(result_view(result)),
            ClientEvent::TalkOver(result) => ClientEvent::TalkOver(result_view(result)),
            ClientEvent::Elapsed(elapsed) => ClientEvent::Elapsed(elapsed),
            ClientEvent::Timeout => ClientEvent::Timeout,
            ClientEvent::StatusChanged(status) => ClientEvent::StatusChanged(status),
        }
    }
}

impl View for ClientAction<String> {
    type V = ClientAction<Seq<char>>;

    open spec fn view(&self) -> ClientAction<Seq<char>> {
        match *self {
            ClientAction::CheckStatus => ClientAction::CheckStatus,
            ClientAction::Connect(url) => ClientAction::Connect(url@),
            ClientAction::Announce => ClientAction::Announce,
            ClientAction::Talk => ClientAction::Talk,
            ClientAction::Report(error) => ClientAction::Report(error@),
            ClientAction::Measure => ClientAction::Measure,
            ClientAction::Wait(pause) => ClientAction::Wait(pause),
            ClientAction::KeepWaiting => ClientAction::KeepWaiting,
            ClientAction::Finish(result) => ClientAction::Finish(result_view(result)),
        }
    }
}

/// The phase waits for events of this kind.
pub open spec fn is_expected<S>(phase: ClientPhase, event: ClientEvent<S>) -> bool {
    match event {
        ClientEvent::Status(_) => phase is Checking,
        ClientEvent::Connected(_) => phase is Connecting,
        ClientEvent::Told(_) => phase is Announcing || phase is Reporting,
        ClientEvent::TalkOver(_) => phase is Talking,
        ClientEvent::Elapsed(_) => phase is Measuring,
        ClientEvent::Timeout => phase is Waiting,
        ClientEvent::StatusChanged(_) => phase is Waiting,
    }
}

/// What follows a failure: a report, if the client connects again.
pub open spec fn after_failure(interval: Option<u128>, error: Seq<char>) -> (
    ClientPhase,
    ClientAction<Seq<char>>,
) {
    if interval is Some {
        (ClientPhase::Reporting, ClientAction::Report(error))
    } else {
        (ClientPhase::Over, ClientAction::Finish(Err(error)))
    }
}

/// What follows an event in the phase that waits for it.
pub open spec fn client_step(
    url: Seq<char>,
    interval: Option<u128>,
    phase: ClientPhase,
    event: ClientEvent<Seq<char>>,
) -> (ClientPhase, ClientAction<Seq<char>>) {
    match event {
        ClientEvent::Status(LiteStatus::Alive) => (
            ClientPhase::Connecting,
            ClientAction::Connect(url),
        ),
        ClientEvent::Status(LiteStatus::Stop) => (ClientPhase::Over, ClientAction::Finish(Ok(()))),
        ClientEvent::Connected(Ok(_)) => (ClientPhase::Announcing, ClientAction::Announce),
        ClientEvent::Connected(Err(error)) => after_failure(interval, error),
        ClientEvent::Told(Ok(_)) => if phase is Announcing {
            (ClientPhase::Talking, ClientAction::Talk)
        } else {
            (ClientPhase::Measuring, ClientAction::Measure)
        },
        ClientEvent::Told(Err(error)) => (ClientPhase::Over, ClientAction::Finish(Err(error))),
        ClientEvent::TalkOver(Ok(TermReason::Interrupted)) => (
            ClientPhase::Over,
            ClientAction::Finish(Ok(())),
        ),
        ClientEvent::TalkOver(Ok(TermReason::Closed)) => after_failure(
            interval,
            "Server closed a connection"@,
        ),
        ClientEvent::TalkOver(Err(error)) => after_failure(interval, error),
        ClientEvent::Elapsed(elapsed) => if elapsed < interval->0 {
            (ClientPhase::Waiting, ClientAction::Wait((interval->0 - elapsed) as u128))
        } else {
            (ClientPhase::Checking, ClientAction::CheckStatus)
        },
        ClientEvent::Timeout => (ClientPhase::Checking, ClientAction::CheckStatus),
        ClientEvent::StatusChanged(Some(LiteStatus::Alive)) => (
            ClientPhase::Waiting,
            ClientAction::KeepWaiting,
        ),
        ClientEvent::StatusChanged(_) => (ClientPhase::Over, ClientAction::Finish(Ok(()))),
    }
}

/// The decisions of a client between its connections.
pub struct ConnectionRoutine {
    url: String,
    interval: Option<u128>,
    phase: ClientPhase,
}

impl ConnectionRoutine {
    /// Where the server is.
    pub closed spec fn url(self) -> Seq<char> {
        self.url@
    }

    /// The least time between two attempts to connect, in nanoseconds.
    pub closed spec fn interval(self) -> Option<u128> {
        self.interval
    }

    /// What the routine waits for.
    pub closed spec fn phase(self) -> ClientPhase {
        self.phase
    }

    /// A routine that tells failures to its actor connects again after them.
    pub open spec fn wf(self) -> bool {
        self.phase() is Reporting || self.phase() is Measuring || self.phase() is Waiting
            ==> self.interval() is Some
    }

    /// Tells if the routine waits for events of this kind.
    pub fn expects(&self, event: &ClientEvent<String>) -> (expected: bool)
        ensures
            expected == is_expected(self.phase(), *event),
    {
        match event {
            ClientEvent::Status(_) => matches!(self.phase, ClientPhase::Checking),
            ClientEvent::Connected(_) => matches!(self.phase, ClientPhase::Connecting),
            ClientEvent::Told(_) => matches!(
                self.phase,
                ClientPhase::Announcing | ClientPhase::Reporting
            ),
            ClientEvent::TalkOver(_) => matches!(self.phase, ClientPhase::Talking),
            ClientEvent::Elapsed(_) => matches!(self.phase, ClientPhase::Measuring),
            ClientEvent::Timeout => matches!(self.phase, ClientPhase::Waiting),
            ClientEvent::StatusChanged(_) => matches!(self.phase, ClientPhase::Waiting),
        }
    }

    /// Goes on after an event: gives what is to be done next.
    pub fn step(&mut self, event: ClientEvent<String>) -> (action: ClientAction<String>)
        requires
            old(self).wf(),
            is_expected(old(self).phase(), event),
        ensures
            final(self).wf(),
            final(self).url() == old(self).url(),
            final(self).interval() == old(self).interval(),
            (final(self).phase(), action@) == client_step(
                old(self).url(),
                old(self).interval(),
                old(self).phase(),
                event@,
            ),
    {
        match event {
            ClientEvent::Status(LiteStatus::Alive) => {
                self.phase = ClientPhase::Connecting;
                ClientAction::Connect(self.url.clone())
            },
            ClientEvent::Status(LiteStatus::Stop) => self.finish(Ok(())),
            ClientEvent::Connected(Ok(_)) => {
                self.phase = ClientPhase::Announcing;
                ClientAction::Announce
            },
            ClientEvent::Connected(Err(error)) => self.fail(error),
            ClientEvent::Told(Ok(_)) => {
                if matches!(self.phase, ClientPhase::Announcing) {
                    self.phase = ClientPhase::Talking;
                    ClientAction::Talk
                } else {
                    self.phase = ClientPhase::Measuring;
                    ClientAction::Measure
                }
            },
            ClientEvent::Told(Err(error)) => self.finish(Err(error)),
            ClientEvent::TalkOver(Ok(reason)) => {
                if reason.is_interrupted() {
                    self.finish(Ok(()))
                } else {
                    self.fail("Server closed a connection".to_owned())
                }
            },
            ClientEvent::TalkOver(Err(error)) => self.fail(error),
            ClientEvent::Elapsed(elapsed) => {
                let interval: u128 = self.interval.unwrap();
                if elapsed < interval {
                    self.phase = ClientPhase::Waiting;
                    ClientAction::Wait(interval - elapsed)
                } else {
                    self.phase = ClientPhase::Checking;
                    ClientAction::CheckStatus
                }
            },
            ClientEvent::Timeout => {
                self.phase = ClientPhase::Checking;
                ClientAction::CheckStatus
            },
            ClientEvent::StatusChanged(Some(LiteStatus::Alive)) => ClientAction::KeepWaiting,
            ClientEvent::StatusChanged(Some(LiteStatus::Stop)) => self.finish(Ok(())),
            ClientEvent::StatusChanged(None) => self.finish(Ok(())),
        }
    }

    /// Ends the routine.
    fn finish(&mut self, result: Result<(), String>) -> (action: ClientAction<String>)
        ensures
            final(self).url() == old(self).url(),
            final(self).interval() == old(self).interval(),
            final(self).phase() == ClientPhase::Over,
            action == ClientAction::Finish(result),
    {
        self.phase = ClientPhase::Over;
        ClientAction::Finish(result)
    }

    /// Goes on after a failure.
    fn fail(&mut self, error: String) -> (action: ClientAction<String>)
        ensures
            final(self).url() == old(self).url(),
            final(self).interval() == old(self).interval(),
            (final(self).phase(), action@) == after_failure(old(self).interval(), error@),
    {
        if self.interval.is_some() {
            self.phase = ClientPhase::Reporting;
            ClientAction::Report(error)
        } else {
            self.finish(Err(error))
        }
    }
}

} // verus!
