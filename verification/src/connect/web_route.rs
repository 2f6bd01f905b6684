//! Routes whose requests an actor answers.

use std::marker::PhantomData;

use vstd::prelude::*;

use crate::connect::extract::FromRequest;
use crate::connect::request::Request;
use crate::connect::routes::{Route, RouteResult};
use crate::runtime::{Actor, Address};

verus! {

/// Asks an actor for the response to a request.
pub struct Req<T: FromRequest> {
    /// The value that the request holds.
    pub request: T::Output,
}

/// A message to an actor, whose reply is the response to a request.
pub struct Interact<E: FromRequest, A> {
    pub address: Address<A>,
    pub message: Req<E>,
}

/// The route of requests that hold an `E` and that an actor answers.
pub struct WebRoute<E, A> {
    extracted: PhantomData<E>,
    address: Address<A>,
}

impl<E, A> WebRoute<E, A> {
    /// The actor that answers.
    pub closed spec fn address(self) -> Address<A> {
        self.address
    }

    /// Makes a route to an actor.
    pub fn new(address: Address<A>) -> (route: Self)
        ensures
            route.address() == address,
    {
        WebRoute { extracted: PhantomData, address }
    }
}

impl<E: FromRequest, A> WebRoute<E, A> {
    /// Takes a request, given what it holds for the route.
    pub fn route_extracted<B>(&self, extracted: Option<E::Output>, request: Request<B>) -> (result:
        RouteResult<Interact<E, A>, B>)
        ensures
            result == match extracted {
                Some(value) => Ok(
                    Interact { address: self.address(), message: Req::<E> { request: value } },
                ),
                None => Err(request),
            },
    {
        match extracted {
            Some(value) => {
                let address = self.address.clone();
                Ok(Interact { address, message: Req { request: value } })
            },
            None => Err(request),
        }
    }
}

impl<E: FromRequest, A: Actor + Sync, B> Route<B> for WebRoute<E, A> {
    type Reply = Interact<E, A>;

    fn try_route(&self, _addr: &String, request: Request<B>) -> (result: RouteResult<
        Interact<E, A>,
        B,
    >)
        ensures
            match result {
                Ok(reply) => {
                    &&& reply.address == self.address()
                    &&& call_ensures(
                        E::from_request,
                        (&request.head,),
                        Some(reply.message.request),
                    )
                },
                Err(back) => {
                    &&& back == request
                    &&& call_ensures(E::from_request, (&request.head,), None)
                },
            },
    {
        let extracted = E::from_request(&request.head);
        self.route_extracted(extracted, request)
    }
}

} // verus!
