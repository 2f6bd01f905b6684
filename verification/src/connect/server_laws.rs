//! What holds of a server and its routes as a whole.

use vstd::prelude::*;

use crate::connect::extract::FromRequest;
use crate::connect::handshake::{
    answer_to_keys, law_every_key_is_answered, law_handshake_names_the_upgrade, websocket_accept,
};
use crate::connect::request::{law_view_shows_the_response, Request};
use crate::connect::routes::{is_dispatched, is_passed_on, Route, RouteResult};
use crate::connect::server::{
    answer, server_action, Answer, ServerAction, ServerEvent, RESTART_DELAY,
};
use crate::connect::web_route::{Interact, WebRoute};
use crate::connect::ws_extract::WsFromRequest;
use crate::connect::ws_route::{Upgrade, WsRoute};
use crate::runtime::{Actor, TaskError};

verus! {

/// A request that the route does not take comes back as it was.
pub open spec fn gives_back_unchanged<B, R: Route<B>>(route: R, addr: String) -> bool {
    forall|request: Request<B>, back: Request<B>| #[trigger]
        call_ensures(R::try_route, (&route, &addr, request), Err(back)) ==> back == request
}

/// The route may give the request back as it is.
pub open spec fn declines<B, R: Route<B>>(route: R, addr: String, request: Request<B>) -> bool {
    call_ensures(R::try_route, (&route, &addr, request), Err(request))
}

/// The route may take the request with this reply.
pub open spec fn takes<B, R: Route<B>>(
    route: R,
    addr: String,
    request: Request<B>,
    reply: R::Reply,
) -> bool {
    call_ensures(R::try_route, (&route, &addr, request), Ok(reply))
}

/// A web route gives a request that it does not take back as it was.
pub proof fn law_web_route_gives_back<E: FromRequest, A: Actor + Sync, B>(
    route: WebRoute<E, A>,
    addr: String,
)
    ensures
        gives_back_unchanged::<B, WebRoute<E, A>>(route, addr),
{
}

/// A websocket route gives a request that it does not take back as it was.
pub proof fn law_ws_route_gives_back<E: WsFromRequest, A: Actor + Sync, B>(
    route: WsRoute<E, A>,
    addr: String,
)
    ensures
        gives_back_unchanged::<B, WsRoute<E, A>>(route, addr),
{
}

/// The first route that takes a request gets it as it came, and all routes
/// before it have declined it. A request that comes back was declined by all,
/// and is as it came.
pub proof fn law_first_taker_wins<B, R: Route<B>>(
    routes: Seq<R>,
    addr: String,
    request: Request<B>,
    result: RouteResult<R::Reply, B>,
)
    requires
        is_dispatched(routes, addr, request, result),
        forall|i: int| 0 <= i < routes.len() ==> gives_back_unchanged(#[trigger] routes[i], addr),
    ensures
        match result {
            Ok(reply) => exists|place: int|
                {
                    &&& 0 <= place < routes.len()
                    &&& takes(#[trigger] routes[place], addr, request, reply)
                    &&& forall|i: int|
                        0 <= i < place ==> declines(#[trigger] routes[i], addr, request)
                },
            Err(back) => {
                &&& back == request
                &&& forall|i: int|
                    0 <= i < routes.len() ==> declines(#[trigger] routes[i], addr, request)
            },
        },
{
    let (requests, place) = choose|requests: Seq<Request<B>>, place: int|
        {
            &&& #[trigger] is_passed_on(routes, addr, requests, place)
            &&& requests[0] == request
            &&& match result {
                Ok(reply) => place < routes.len() && call_ensures(
                    R::try_route,
                    (&routes[place], &addr, requests[place]),
                    Ok(reply),
                ),
                Err(rest) => place == routes.len() && rest == requests[place],
            }
        };
    lemma_unchanged_on_the_way(routes, addr, requests, place, place);
    assert forall|i: int| 0 <= i < place implies declines(#[trigger] routes[i], addr, request) by {
        lemma_unchanged_on_the_way(routes, addr, requests, place, i);
        lemma_unchanged_on_the_way(routes, addr, requests, place, i + 1);
        assert(call_ensures(
            R::try_route,
            (&routes[i], &addr, requests[i]),
            Err(requests[i + 1]),
        ));
    }
    if let Ok(reply) = result {
        assert(takes(routes[place], addr, request, reply));
    }
}

/// Routes that give requests back as they were pass them on as they were.
proof fn lemma_unchanged_on_the_way<B, R: Route<B>>(
    routes: Seq<R>,
    addr: String,
    requests: Seq<Request<B>>,
    place: int,
    i: int,
)
    requires
        is_passed_on(routes, addr, requests, place),
        0 <= i <= place,
        forall|j: int| 0 <= j < routes.len() ==> gives_back_unchanged(#[trigger] routes[j], addr),
    ensures
        requests[i] == requests[0],
    decreases i,
{
    if i > 0 {
        lemma_unchanged_on_the_way(routes, addr, requests, place, i - 1);
        assert(gives_back_unchanged(routes[i - 1], addr));
        assert(call_ensures(
            R::try_route,
            (&routes[i - 1], &addr, requests[i - 1]),
            Err(requests[i]),
        ));
    }
}

/// A route that is added behind the others takes no request from them.
pub proof fn law_added_routes_come_last<B, R: Route<B>>(
    routes: Seq<R>,
    addr: String,
    request: Request<B>,
    reply: R::Reply,
    added: R,
)
    requires
        is_dispatched(routes, addr, request, Ok(reply)),
    ensures
        is_dispatched(routes.push(added), addr, request, Ok(reply)),
{
    let (requests, place) = choose|requests: Seq<Request<B>>, place: int|
        {
            &&& #[trigger] is_passed_on(routes, addr, requests, place)
            &&& requests[0] == request
            &&& place < routes.len()
            &&& call_ensures(R::try_route, (&routes[place], &addr, requests[place]), Ok(reply))
        };
    let more = routes.push(added);
    assert forall|i: int| 0 <= i < place implies call_ensures(
        R::try_route,
        (&#[trigger] more[i], &addr, requests[i]),
        Err(requests[i + 1]),
    ) by {
        assert(more[i] == routes[i]);
    }
    assert(more[place] == routes[place]);
    assert(is_passed_on(more, addr, requests, place));
}

/// An insistent server whose listener fails while the server is not stopping
/// listens at the same address again, after the delay.
pub proof fn law_failed_listener_comes_back<R>(addr: Seq<char>, error: TaskError)
    ensures
        server_action(
            addr,
            true,
            ServerEvent::<R>::ListenerEnded { result: Err(error), terminating: false },
        ) == ServerAction::<Seq<char>>::ScheduleRestart(RESTART_DELAY),
        server_action(addr, true, ServerEvent::<R>::RestartListener) == server_action(
            addr,
            true,
            ServerEvent::<R>::Started,
        ),
{
}

/// A listener that ends well, or while the server is stopping, stays ended.
pub proof fn law_ended_listener_stays_ended<R>(
    addr: Seq<char>,
    insistent: bool,
    result: Result<(), TaskError>,
    terminating: bool,
)
    requires
        result is Ok || terminating,
    ensures
        server_action(addr, insistent, ServerEvent::<R>::ListenerEnded { result, terminating })
            == ServerAction::<Seq<char>>::Nothing,
{
}

/// A route that takes every request is always found: the request does not come
/// back past it.
pub proof fn law_willing_route_is_found<B, R: Route<B>>(
    routes: Seq<R>,
    addr: String,
    request: Request<B>,
    result: RouteResult<R::Reply, B>,
    place: int,
)
    requires
        is_dispatched(routes, addr, request, result),
        0 <= place < routes.len(),
        forall|given: Request<B>, back: Request<B>|
            !#[trigger] call_ensures(
                R::try_route,
                (&routes[place], &addr, given),
                Err(back),
            ),
    ensures
        result is Ok,
{
    let (requests, last) = choose|requests: Seq<Request<B>>, last: int|
        {
            &&& #[trigger] is_passed_on(routes, addr, requests, last)
            &&& requests[0] == request
            &&& match result {
                Ok(reply) => last < routes.len() && call_ensures(
                    R::try_route,
                    (&routes[last], &addr, requests[last]),
                    Ok(reply),
                ),
                Err(rest) => last == routes.len() && rest == requests[last],
            }
        };
    if result is Err {
        assert(call_ensures(
            R::try_route,
            (&routes[place], &addr, requests[place]),
            Err(requests[place + 1]),
        ));
    }
}

/// Without routes a request comes back as it is.
pub proof fn law_no_routes_take_nothing<B, R: Route<B>>(
    addr: String,
    request: Request<B>,
    result: RouteResult<R::Reply, B>,
)
    requires
        is_dispatched(Seq::<R>::empty(), addr, request, result),
    ensures
        result == RouteResult::<R::Reply, B>::Err(request),
{
}

/// A server listens at its own address when it starts and when it is time to
/// restart, and stops when it is asked to. A new route asks for nothing.
pub proof fn law_server_listens_at_its_address<R>(addr: Seq<char>, insistent: bool, route: R)
    ensures
        server_action(addr, insistent, ServerEvent::<R>::Started) == ServerAction::Listen(addr),
        server_action(addr, insistent, ServerEvent::<R>::RestartListener) == ServerAction::Listen(
            addr,
        ),
        server_action(addr, insistent, ServerEvent::<R>::Interrupted) is Shutdown,
        server_action(addr, insistent, ServerEvent::AddRoute(route)) is Nothing,
{
}

/// A restart is scheduled exactly when the listener of an insistent server has
/// failed while the server is not stopping, and always after three seconds.
pub proof fn law_only_failures_are_retried<R>(
    addr: Seq<char>,
    insistent: bool,
    event: ServerEvent<R>,
)
    ensures
        server_action(addr, insistent, event) is ScheduleRestart <==> insistent && (
        event matches ServerEvent::ListenerEnded { result, terminating } && result is Err
            && !terminating),
        server_action(addr, insistent, event) matches ServerAction::ScheduleRestart(delay)
            ==> delay == 3,
{
}

/// An accepted websocket goes to the actor of the route with the request as it
/// came, and its response answers every key that can stand in a header.
pub proof fn law_upgrade_answers_the_request<E: WsFromRequest, A, B>(
    route: WsRoute<E, A>,
    upgrade: Upgrade<E, A, B>,
    addr: Seq<char>,
    request: Request<B>,
)
    requires
        route.is_upgrade_of(upgrade, addr, request),
    ensures
        upgrade.response@.status == 101,
        upgrade.response@.headers[0] == ("connection"@, "upgrade"@),
        upgrade.response@.headers[1] == ("upgrade"@, "websocket"@),
        ({
            let keys = request.head.websocket_keys@;
            keys.len() > 0 && (forall|i: int|
                0 <= i < keys[0]@.len() ==> (#[trigger] keys[0]@[i] == 9 || keys[0]@[i] >= 32
                    && keys[0]@[i] != 127)) ==> upgrade.response@.headers.contains(
                ("sec-websocket-accept"@, websocket_accept(keys[0]@)),
            )
        }),
        upgrade.address == route.address(),
        upgrade.addr@ == addr,
        upgrade.request == request,
{
    law_every_key_is_answered(request.head.websocket_keys@);
    law_handshake_names_the_upgrade(answer_to_keys(request.head.websocket_keys@));
}

/// The view of what a server wants keeps its kind and what it holds.
pub proof fn law_view_keeps_what_is_wanted(action: ServerAction<String>)
    ensures
        match action {
            ServerAction::Listen(addr) => action@ == ServerAction::Listen(addr@),
            ServerAction::Shutdown => action@ is Shutdown,
            ServerAction::ScheduleRestart(delay) => action@ == ServerAction::<
                Seq<char>,
            >::ScheduleRestart(delay),
            ServerAction::Nothing => action@ is Nothing,
        },
{
}

/// The first route gets the request as it came. If it takes it, that is the
/// result; if it gives it back, the routes after it decide, and get the request
/// as the first has given it back.
pub proof fn law_routes_are_tried_one_after_the_other<B, R: Route<B>>(
    routes: Seq<R>,
    addr: String,
    request: Request<B>,
    result: RouteResult<R::Reply, B>,
)
    requires
        is_dispatched(routes, addr, request, result),
        routes.len() > 0,
    ensures
        ({
            ||| result matches Ok(reply) && call_ensures(
                R::try_route,
                (&routes[0], &addr, request),
                Ok(reply),
            )
            ||| exists|back: Request<B>|
                {
                    &&& #[trigger] call_ensures(
                        R::try_route,
                        (&routes[0], &addr, request),
                        Err(back),
                    )
                    &&& is_dispatched(routes.skip(1), addr, back, result)
                }
        }),
{
    let (requests, place) = choose|requests: Seq<Request<B>>, place: int|
        {
            &&& #[trigger] is_passed_on(routes, addr, requests, place)
            &&& requests[0] == request
            &&& match result {
                Ok(reply) => place < routes.len() && call_ensures(
                    R::try_route,
                    (&routes[place], &addr, requests[place]),
                    Ok(reply),
                ),
                Err(rest) => place == routes.len() && rest == requests[place],
            }
        };
    if place > 0 {
        let others = routes.skip(1);
        let later = requests.skip(1);
        assert(call_ensures(R::try_route, (&routes[0], &addr, requests[0]), Err(requests[1])));
        assert forall|i: int| 0 <= i < place - 1 implies call_ensures(
            R::try_route,
            (&#[trigger] others[i], &addr, later[i]),
            Err(later[i + 1]),
        ) by {
            assert(others[i] == routes[i + 1]);
            assert(later[i] == requests[i + 1] && later[i + 1] == requests[i + 2]);
            assert(call_ensures(
                R::try_route,
                (&routes[i + 1], &addr, requests[i + 1]),
                Err(requests[i + 2]),
            ));
        }
        assert(is_passed_on(others, addr, later, place - 1));
        assert(later[0] == requests[1]);
        assert(later[place - 1] == requests[place]);
        if result is Ok {
            assert(others[place - 1] == routes[place]);
        }
        assert(is_dispatched(others, addr, requests[1], result));
    }
}

/// A route's response is passed on as it is; a failed route is answered with an
/// internal error, and a request without a route with not found, both without
/// headers.
pub proof fn law_every_request_is_answered<T>(
    routed: Option<Result<T, String>>,
    answered: Answer<T>,
)
    requires
        call_ensures(answer::<T>, (routed,), answered),
    ensures
        routed matches Some(Ok(response)) ==> answered == Answer::Response(response),
        routed matches Some(Err(_)) ==> (answered matches Answer::Empty(head) && head.status == 500
            && head.headers@.len() == 0),
        routed is None ==> (answered matches Answer::Empty(head) && head.status == 404
            && head.headers@.len() == 0),
{
    if let Answer::Empty(head) = answered {
        law_view_shows_the_response(head);
    }
}

/// A web route takes exactly the requests in which its value is found, and asks
/// its actor with that value.
pub proof fn law_web_route_asks_with_the_value<E: FromRequest, A, B>(
    route: &WebRoute<E, A>,
    extracted: Option<E::Output>,
    request: Request<B>,
    result: RouteResult<Interact<E, A>, B>,
)
    requires
        call_ensures(WebRoute::<E, A>::route_extracted::<B>, (route, extracted, request), result),
    ensures
        match extracted {
            Some(value) => {
                &&& result matches Ok(interact)
                &&& interact.address == route.address()
                &&& interact.message.request == value
            },
            None => result matches Err(back) && back == request,
        },
{
}

/// A websocket route takes exactly the requests in which its value is found, and
/// answers their keys.
pub proof fn law_ws_route_accepts_with_the_value<E: WsFromRequest, A, B>(
    route: &WsRoute<E, A>,
    extracted: Option<E::Output>,
    addr: &String,
    request: Request<B>,
    result: RouteResult<Upgrade<E, A, B>, B>,
)
    requires
        call_ensures(
            WsRoute::<E, A>::route_extracted::<B>,
            (route, extracted, addr, request),
            result,
        ),
    ensures
        match extracted {
            Some(value) => {
                &&& result matches Ok(upgrade)
                &&& upgrade.value == value
                &&& upgrade.address == route.address()
                &&& upgrade.addr@ == addr@
                &&& upgrade.request == request
                &&& upgrade.response.status == 101
                &&& ({
                    let keys = request.head.websocket_keys@;
                    keys.len() > 0 && (forall|i: int|
                        0 <= i < keys[0]@.len() ==> (#[trigger] keys[0]@[i] == 9 || keys[0]@[i]
                            >= 32 && keys[0]@[i] != 127)) ==> upgrade.response@.headers.contains(
                        ("sec-websocket-accept"@, websocket_accept(keys[0]@)),
                    )
                })
            },
            None => result matches Err(back) && back == request,
        },
{
    if let Ok(upgrade) = result {
        law_view_shows_the_response(upgrade.response);
        if extracted is Some {
            law_upgrade_answers_the_request(*route, upgrade, addr@, request);
        }
    }
}

} // verus!
