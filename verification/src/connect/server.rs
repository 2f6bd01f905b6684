//! A server that hands requests to routes.

use vstd::prelude::*;

use crate::connect::request::{
    Request, ResponseHead, ResponseView, INTERNAL_SERVER_ERROR, NOT_FOUND,
};
use crate::connect::routes::{is_dispatched, Route, RouteResult, RoutingTable};
use crate::runtime::TaskError;

verus! {

/// The response to a request: that of a route, or one without a body.
pub enum Answer<T> {
    Response(T),
    Empty(ResponseHead),
}

/// Makes the response to a request, given what the route that took it has come
/// to, or that there is none.
pub fn answer<T>(routed: Option<Result<T, String>>) -> (answer: Answer<T>)
    ensures
        match routed {
            Some(Ok(response)) => answer == Answer::Response(response),
            Some(Err(_)) => answer matches Answer::Empty(head) && head@ == (ResponseView {
                status: INTERNAL_SERVER_ERROR,
                headers: Seq::empty(),
            }),
            None => answer matches Answer::Empty(head) && head@ == (ResponseView {
                status: NOT_FOUND,
                headers: Seq::empty(),
            }),
        },
{
    match routed {
        Some(Ok(response)) => Answer::Response(response),
        Some(Err(_)) => Answer::Empty(ResponseHead::of_status(INTERNAL_SERVER_ERROR)),
        None => Answer::Empty(ResponseHead::of_status(NOT_FOUND)),
    }
}

/// How long a server waits before it listens again after a failure, in seconds.
pub const RESTART_DELAY: u64 = 3;

/// What happens to a server.
pub enum ServerEvent<R> {
    /// It was started.
    Started,
    /// It was asked to stop.
    Interrupted,
    /// Its listener has ended; `terminating` tells if the server is stopping.
    ListenerEnded { result: Result<(), TaskError>, terminating: bool },
    /// It is time to listen again.
    RestartListener,
    /// It gets one more route.
    AddRoute(R),
}

/// What a server wants to be done; `S` is the type of texts.
pub enum ServerAction<S> {
    /// Listen at this address.
    Listen(S),
    /// Stop.
    Shutdown,
    /// Remind the server in some seconds to listen again.
    ScheduleRestart(u64),
    /// Nothing.
    Nothing,
}

impl View for ServerAction<String> {
    type V = ServerAction<Seq<char>>;

    open spec fn view(&self) -> ServerAction<Seq<char>> {
        match *self {
            ServerAction::Listen(addr) => ServerAction::Listen(addr@),
            ServerAction::Shutdown => ServerAction::Shutdown,
            ServerAction::ScheduleRestart(delay) => ServerAction::ScheduleRestart(delay),
            ServerAction::Nothing => ServerAction::Nothing,
        }
    }
}

/// What a server at this address wants to be done after an event.
pub open spec fn server_action<R>(
    addr: Seq<char>,
    insistent: bool,
    event: ServerEvent<R>,
) -> ServerAction<Seq<char>> {
    match event {
        ServerEvent::Started | ServerEvent::RestartListener => ServerAction::Listen(addr),
        ServerEvent::Interrupted => ServerAction::Shutdown,
        ServerEvent::ListenerEnded { result, terminating } => if result is Err && !terminating
            && insistent {
            ServerAction::ScheduleRestart(RESTART_DELAY)
        } else {
            ServerAction::Nothing
        },
        ServerEvent::AddRoute(_) => ServerAction::Nothing,
    }
}

/// A server that hands requests to routes.
pub struct HttpServer<R> {
    addr: String,
    routing_table: RoutingTable<R>,
    insistent: bool,
}

impl<R> HttpServer<R> {
    /// Where the server listens.
    pub closed spec fn addr(self) -> Seq<char> {
        self.addr@
    }

    /// The routes, in the order in which they were added.
    pub closed spec fn routes(self) -> Seq<R> {
        self.routing_table.routes()
    }

    /// The server listens again after a failure.
    pub closed spec fn is_insistent(self) -> bool {
        self.insistent
    }

    /// The routing table is in order.
    pub closed spec fn wf(self) -> bool {
        self.routing_table.wf()
    }

    /// Makes a server without routes.
    pub fn new(addr: String) -> (server: Self)
        ensures
            server.wf(),
            server.addr() == addr@,
            server.routes() == Seq::<R>::empty(),
            server.is_insistent(),
    {
        HttpServer { addr, routing_table: RoutingTable::new(), insistent: true }
    }

    /// Tells if one more route can be added.
    pub fn has_room(&self) -> (room: bool)
        ensures
            room == (self.routes().len() < usize::MAX / 64),
    {
        self.routing_table.has_room()
    }

    /// Gives what is to be done to listen.
    fn start_http_listener(&self) -> (action: ServerAction<String>)
        ensures
            action@ == ServerAction::Listen(self.addr()),
    {
        ServerAction::Listen(self.addr.clone())
    }

    /// Goes on after an event: gives what is to be done next.
    pub fn handle(&mut self, event: ServerEvent<R>) -> (action: ServerAction<String>)
        requires
            old(self).wf(),
            event is AddRoute ==> old(self).routes().len() < usize::MAX / 64,
        ensures
            final(self).wf(),
            final(self).addr() == old(self).addr(),
            final(self).is_insistent() == old(self).is_insistent(),
            final(self).routes() == match event {
                ServerEvent::AddRoute(route) => old(self).routes().push(route),
                _ => old(self).routes(),
            },
            action@ == server_action(old(self).addr(), old(self).is_insistent(), event),
    {
        match event {
            ServerEvent::Started => self.start_http_listener(),
            ServerEvent::Interrupted => ServerAction::Shutdown,
            ServerEvent::ListenerEnded { result, terminating } => {
                if !terminating && result.is_err() && self.insistent {
                    ServerAction::ScheduleRestart(RESTART_DELAY)
                } else {
                    ServerAction::Nothing
                }
            },
            ServerEvent::RestartListener => self.start_http_listener(),
            ServerEvent::AddRoute(route) => {
                self.routing_table.insert(route);
                ServerAction::Nothing
            },
        }
    }

    /// Hands a request to the first route that takes it.
    pub fn call<B>(&self, addr: &String, request: Request<B>) -> (result: RouteResult<
        R::Reply,
        B,
    >) where R: Route<B>
        requires
            self.wf(),
        ensures
            is_dispatched(self.routes(), *addr, request, result),
    {
        self.routing_table.dispatch(addr, request)
    }
}

} // verus!
