//! The routes of a server.

use slab::Slab;
use vstd::prelude::*;

use crate::connect::request::Request;
use crate::connect::slots::{
    has_no_gaps, insert_item, lemma_numbers_in_key_order, list_items, new_slots, slot_items,
};

verus! {

/// What a route makes of a request: what it will do about it, or the request
/// itself, if it is for another route.
pub type RouteResult<F, B> = Result<F, Request<B>>;

/// One way to handle requests that carry a `B`.
pub trait Route<B>: Send + Sync + 'static {
    /// What the route will do about a request.
    type Reply;

    /// Takes a request of the given peer, or gives it back.
    fn try_route(&self, addr: &String, request: Request<B>) -> RouteResult<Self::Reply, B>;
}

/// The routes of a server, in the order in which they were added.
pub struct RoutingTable<R> {
    slots: Slab<usize>,
    routes: Vec<R>,
}

/// The first routes, up to a place, gave a request back one after the other;
/// `requests` is the request as each of them got it.
pub open spec fn is_passed_on<B, R: Route<B>>(
    routes: Seq<R>,
    addr: String,
    requests: Seq<Request<B>>,
    place: int,
) -> bool {
    &&& 0 <= place <= routes.len()
    &&& requests.len() == place + 1
    &&& forall|i: int|
        #![trigger routes[i]]
        #![trigger requests[i]]
        0 <= i < place ==> call_ensures(
            R::try_route,
            (&routes[i], &addr, requests[i]),
            Err(requests[i + 1]),
        )
}

/// The routes were tried in their order, and the first that took the request
/// made the result; if none did, the result is the request as it came back.
pub open spec fn is_dispatched<B, R: Route<B>>(
    routes: Seq<R>,
    addr: String,
    request: Request<B>,
    result: RouteResult<R::Reply, B>,
) -> bool {
    exists|requests: Seq<Request<B>>, place: int|
        {
            &&& #[trigger] is_passed_on(routes, addr, requests, place)
            &&& requests[0] == request
            &&& match result {
                Ok(reply) => place < routes.len() && call_ensures(
                    R::try_route,
                    (&routes[place], &addr, requests[place]),
                    Ok(reply),
                ),
                Err(rest) => place == routes.len() && rest == requests[place],
            }
        }
}

impl<R> RoutingTable<R> {
    /// The routes, in the order in which they were added.
    pub closed spec fn routes(self) -> Seq<R> {
        self.routes@
    }

    /// The slot of each route holds its place.
    pub closed spec fn wf(self) -> bool {
        let items = slot_items(self.slots);
        &&& has_no_gaps(self.slots)
        &&& forall|key: int| #[trigger] items.contains_key(key) <==> 0 <= key < self.routes@.len()
        &&& forall|key: int| 0 <= key < self.routes@.len() ==> #[trigger] items[key] == key
    }

    /// Makes a table without routes.
    pub fn new() -> (table: Self)
        ensures
            table.wf(),
            table.routes() == Seq::<R>::empty(),
    {
        RoutingTable { slots: new_slots(), routes: Vec::new() }
    }

    /// Tells if one more route can be added.
    pub fn has_room(&self) -> (room: bool)
        ensures
            room == (self.routes().len() < usize::MAX / 64),
    {
        self.routes.len() < usize::MAX / 64
    }

    /// Adds a route behind all others.
    pub fn insert(&mut self, route: R)
        requires
            old(self).wf(),
            old(self).routes().len() < usize::MAX / 64,
        ensures
            final(self).wf(),
            final(self).routes() == old(self).routes().push(route),
    {
        let place: usize = self.routes.len();
        proof {
            let dom = slot_items(self.slots).dom();
            vstd::set_lib::lemma_int_range(0, place as int);
            assert(dom =~= vstd::set_lib::set_int_range(0, place as int));
        }
        insert_item(&mut self.slots, place);
        self.routes.push(route);
    }

    /// Hands a request to the first route that takes it.
    pub fn dispatch<B>(&self, addr: &String, request: Request<B>) -> (result: RouteResult<
        R::Reply,
        B,
    >) where R: Route<B>
        requires
            self.wf(),
        ensures
            is_dispatched(self.routes(), *addr, request, result),
    {
        let order = list_items(&self.slots);
        proof {
            lemma_numbers_in_key_order(
                slot_items(self.slots),
                order@,
                self.routes@.len() as int,
            );
        }
        let ghost mut requests: Seq<Request<B>> = seq![request];
        let mut opt_req: Request<B> = request;
        for i in 0..order.len()
            invariant
                self.wf(),
                order@.len() == self.routes@.len(),
                forall|k: int| 0 <= k < order@.len() ==> #[trigger] order@[k] == k,
                is_passed_on(self.routes@, *addr, requests, i as int),
                requests[0] == request,
                requests[i as int] == opt_req,
        {
            let res = self.routes[order[i]].try_route(addr, opt_req);
            match res {
                Ok(reply) => {
                    return Ok(reply);
                },
                Err(back) => {
                    proof {
                        requests = requests.push(back);
                    }
                    opt_req = back;
                },
            }
        }
        Err(opt_req)
    }
}

} // verus!
