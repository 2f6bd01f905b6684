//! Routes whose requests open websockets.

use std::marker::PhantomData;

use vstd::prelude::*;

use crate::connect::handshake::{answer_to_keys, handshake, handshake_headers};
use crate::connect::request::{Request, ResponseHead, ResponseView, SWITCHING_PROTOCOLS};
use crate::connect::routes::{Route, RouteResult};
use crate::connect::websocket::WsHandler;
use crate::connect::ws_extract::WsFromRequest;
use crate::handlers::Action;
use crate::runtime::{Actor, Address};

verus! {

/// Hands a new websocket of type `W` to an actor.
#[verifier::reject_recursive_types(T)]
pub struct WsReq<T: WsFromRequest, W> {
    /// The value that the request of the websocket holds.
    pub request: T::Output,
    /// The websocket.
    pub stream: WsHandler<T::Protocol, W>,
}

impl<T: WsFromRequest, W: Send + 'static> Action for WsReq<T, W> {

}

/// A request that becomes a websocket once it was answered.
pub struct Upgrade<E: WsFromRequest, A, B> {
    /// The response to the request.
    pub response: ResponseHead,
    /// The actor that gets the websocket.
    pub address: Address<A>,
    /// The value that the request holds.
    pub value: E::Output,
    /// The address of the other side.
    pub addr: String,
    /// The request.
    pub request: Request<B>,
}

/// The route of requests that hold an `E` and that open a websocket for an
/// actor.
pub struct WsRoute<E, A> {
    extracted: PhantomData<E>,
    address: Address<A>,
}

impl<E, A> WsRoute<E, A> {
    /// The actor that gets the websockets.
    pub closed spec fn address(self) -> Address<A> {
        self.address
    }

    /// Makes a route to an actor.
    pub fn new(address: Address<A>) -> (route: Self)
        ensures
            route.address() == address,
    {
        WsRoute { extracted: PhantomData, address }
    }
}

impl<E: WsFromRequest, A> WsRoute<E, A> {
    /// The upgrade goes with the request: it is accepted for the actor of the
    /// route, whatever else the request holds.
    pub open spec fn is_upgrade_of<B>(
        self,
        upgrade: Upgrade<E, A, B>,
        addr: Seq<char>,
        request: Request<B>,
    ) -> bool {
        &&& upgrade.response@ == (ResponseView {
            status: SWITCHING_PROTOCOLS,
            headers: handshake_headers(answer_to_keys(request.head.websocket_keys@)),
        })
        &&& upgrade.address == self.address()
        &&& upgrade.addr@ == addr
        &&& upgrade.request == request
    }

    /// Takes a request, given what it holds for the route.
    pub fn route_extracted<B>(
        &self,
        extracted: Option<E::Output>,
        addr: &String,
        request: Request<B>,
    ) -> (result: RouteResult<Upgrade<E, A, B>, B>)
        ensures
            match extracted {
                Some(value) => {
                    &&& result is Ok
                    &&& result->Ok_0.value == value
                    &&& self.is_upgrade_of(result->Ok_0, addr@, request)
                },
                None => result == RouteResult::<Upgrade<E, A, B>, B>::Err(request),
            },
    {
        match extracted {
            Some(value) => {
                let response = handshake(&request.head.websocket_keys);
                let address = self.address.clone();
                Ok(Upgrade { response, address, value, addr: addr.clone(), request })
            },
            None => Err(request),
        }
    }
}

impl<E: WsFromRequest, A: Actor + Sync, B> Route<B> for WsRoute<E, A> {
    type Reply = Upgrade<E, A, B>;

    fn try_route(&self, addr: &String, request: Request<B>) -> (result: RouteResult<
        Upgrade<E, A, B>,
        B,
    >)
        ensures
            match result {
                Ok(upgrade) => {
                    &&& self.is_upgrade_of(upgrade, addr@, request)
                    &&& call_ensures(E::from_request, (&request.head,), Some(upgrade.value))
                },
                Err(back) => {
                    &&& back == request
                    &&& call_ensures(E::from_request, (&request.head,), None)
                },
            },
    {
        let extracted = E::from_request(&request.head);
        self.route_extracted(extracted, addr, request)
    }
}

/// Makes the message that hands a new websocket to an actor.
pub fn websocket_message<E: WsFromRequest, W>(value: E::Output, addr: String, websocket: W) -> (
message: WsReq<E, W>)
    ensures
        message.request == value,
        message.stream.wf(),
        message.stream.peer() == addr@,
        message.stream.connection() == Some(websocket),
        message.stream.sent().len() == 0,
{
    WsReq { request: value, stream: WsHandler::new(addr, websocket) }
}

} // verus!
