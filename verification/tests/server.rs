use headers::{Connection, Header, HeaderMap, HeaderMapExt, HeaderValue, Upgrade};
use headers::{SecWebsocketAccept, SecWebsocketKey};
use meio::connect::extract::{DirectPath, FromQuery};
use meio::connect::handshake::{handshake, switching_protocols};
use meio::connect::protocol::{Protocol, ProtocolData};
use meio::connect::request::{Request, RequestHead, ResponseHead};
use meio::connect::routes::{Route, RouteResult, RoutingTable};
use meio::connect::server::{answer, Answer, HttpServer, ServerAction, ServerEvent, RESTART_DELAY};
use meio::connect::web_route::WebRoute;
use meio::connect::ws_route::{websocket_message, WsReq, WsRoute};
use meio::{Action, Actor, Address, Id, IdOf, IdSource, TaskError};

struct Owner;

impl Actor for Owner {
    type GroupBy = ();

    fn name(&self) -> String {
        "owner".to_string()
    }
}

struct Text;

impl ProtocolData for Text {}

struct Chat;

impl Protocol for Chat {
    type ToServer = Text;
    type ToClient = Text;
    type Codec = ();
}

#[derive(Debug, PartialEq)]
struct Greeting(String);

impl DirectPath for Greeting {
    type Parameter = Chat;

    fn paths() -> &'static [&'static str] {
        &["/hello"]
    }
}

impl FromQuery for Greeting {
    fn from_query(query: &str) -> Option<Greeting> {
        if query == "bad" {
            None
        } else {
            Some(Greeting(query.to_string()))
        }
    }
}

/// Takes the requests whose body is at most `limit`, and adds to the others.
struct Limited {
    number: u32,
    limit: u32,
    toll: u32,
}

impl Route<u32> for Limited {
    type Reply = (u32, u32);

    fn try_route(&self, _addr: &String, mut request: Request<u32>) -> RouteResult<(u32, u32), u32> {
        if request.body <= self.limit {
            Ok((self.number, request.body))
        } else {
            request.body += self.toll;
            Err(request)
        }
    }
}

fn owner() -> (Id, Address<Owner>) {
    let mut ids = IdSource::new();
    let id = Id::of_actor(&mut ids, &Owner);
    (id.clone(), Address::new(IdOf::new(id)))
}

fn request<B>(path: &str, query: Option<&str>, keys: &[&[u8]], body: B) -> Request<B> {
    Request {
        head: RequestHead {
            path: path.to_string(),
            query: query.map(String::from),
            websocket_keys: keys.iter().map(|key| key.to_vec()).collect(),
        },
        body,
    }
}

fn header<'a>(response: &'a ResponseHead, name: &str) -> Option<&'a str> {
    response.headers.iter().find(|header| header.0 == name).map(|header| header.1.as_str())
}

fn failed() -> Result<(), TaskError> {
    Err(TaskError { reason: "address in use".to_string() })
}

#[test]
fn handshake_signs_the_key() {
    let response = handshake(&vec![b"dGhlIHNhbXBsZSBub25jZQ==".to_vec()]);
    assert_eq!(response.status, 101);
    assert_eq!(response.headers.len(), 3);
    assert_eq!(header(&response, "sec-websocket-accept"), Some("s3pPLMBiTxaQ9kYGzzhZRbK+xOo="));
}

#[test]
fn handshake_has_the_headers_of_the_headers_crate() {
    let key = HeaderValue::from_static("x3JJHMbDL1EzLkh9GBhXDw==");
    let mut expected = HeaderMap::new();
    expected.typed_insert(Connection::upgrade());
    expected.typed_insert(Upgrade::websocket());
    let decoded = SecWebsocketKey::decode(&mut std::iter::once(&key)).unwrap();
    expected.typed_insert(SecWebsocketAccept::from(decoded));
    let response = handshake(&vec![key.as_bytes().to_vec()]);
    assert_eq!(response.headers.len(), expected.len());
    for (name, value) in expected.iter() {
        assert_eq!(header(&response, name.as_str()), Some(value.to_str().unwrap()));
    }
}

#[test]
fn handshake_looks_at_the_first_key() {
    let both = handshake(&vec![b"dGhlIHNhbXBsZSBub25jZQ==".to_vec(), b"other".to_vec()]);
    assert_eq!(header(&both, "sec-websocket-accept"), Some("s3pPLMBiTxaQ9kYGzzhZRbK+xOo="));
}

#[test]
fn handshake_works_without_a_key() {
    let none = handshake(&Vec::new());
    assert_eq!(none.status, 101);
    assert_eq!(
        none.headers,
        vec![
            ("connection".to_string(), "upgrade".to_string()),
            ("upgrade".to_string(), "websocket".to_string()),
        ]
    );
    let unfit = handshake(&vec![vec![b'a', b'\n']]);
    assert_eq!(unfit.headers, none.headers);
    let tab = handshake(&vec![vec![b'a', b'\t', 200]]);
    assert_eq!(tab.headers.len(), 3);
}

#[test]
fn response_holds_the_given_signature() {
    let response = switching_protocols(Some("signature".to_string()));
    assert_eq!(response.status, 101);
    assert_eq!(header(&response, "connection"), Some("upgrade"));
    assert_eq!(header(&response, "upgrade"), Some("websocket"));
    assert_eq!(header(&response, "sec-websocket-accept"), Some("signature"));
    assert_eq!(switching_protocols(None).headers.len(), 2);
}

#[test]
fn web_route_asks_its_actor() {
    let (id, address) = owner();
    let route: WebRoute<Greeting, Owner> = WebRoute::new(address);
    let peer = "10.0.0.1:5000".to_string();
    match route.try_route(&peer, request("/hello", Some("name=bob"), &[], 5u8)) {
        Ok(interact) => {
            assert!(*interact.address.id().as_ref() == id);
            assert_eq!(interact.message.request, Greeting("name=bob".to_string()));
        }
        Err(_) => panic!("the route has to take the request"),
    }
}

#[test]
fn web_route_gives_other_requests_back() {
    let (_, address) = owner();
    let route: WebRoute<Greeting, Owner> = WebRoute::new(address);
    let peer = "10.0.0.1:5000".to_string();
    match route.try_route(&peer, request("/bye", Some("q"), &[], 5u8)) {
        Ok(_) => panic!("the path does not fit"),
        Err(back) => {
            assert_eq!(back.head.path, "/bye");
            assert_eq!(back.head.query, Some("q".to_string()));
            assert_eq!(back.body, 5);
        }
    }
    assert!(route.try_route(&peer, request("/hello", Some("bad"), &[], 6u8)).is_err());
    assert!(route.route_extracted(None, request("/hello", None, &[], 7u8)).is_err());
}

#[test]
fn ws_route_accepts_a_websocket() {
    let (id, address) = owner();
    let route: WsRoute<Greeting, Owner> = WsRoute::new(address);
    let peer = "10.0.0.1:5000".to_string();
    let key: &[u8] = b"dGhlIHNhbXBsZSBub25jZQ==";
    match route.try_route(&peer, request("/hello", None, &[key], "body")) {
        Ok(upgrade) => {
            assert!(*upgrade.address.id().as_ref() == id);
            assert_eq!(upgrade.addr, peer);
            assert_eq!(upgrade.value, Greeting(String::new()));
            assert_eq!(upgrade.request.body, "body");
            assert_eq!(upgrade.response.status, 101);
            assert_eq!(
                header(&upgrade.response, "sec-websocket-accept"),
                Some("s3pPLMBiTxaQ9kYGzzhZRbK+xOo=")
            );
            let message: WsReq<Greeting, u64> = websocket_message(upgrade.value, upgrade.addr, 9);
            assert!(!message.is_high_priority());
            assert_eq!(message.request, Greeting(String::new()));
            assert_eq!(message.stream.addr(), peer);
            assert!(!message.stream.is_started());
        }
        Err(_) => panic!("the route has to take the request"),
    }
}

#[test]
fn ws_route_gives_other_requests_back() {
    let (_, address) = owner();
    let route: WsRoute<Greeting, Owner> = WsRoute::new(address);
    let peer = "10.0.0.1:5000".to_string();
    match route.try_route(&peer, request("/", None, &[b"key"], 1u8)) {
        Ok(_) => panic!("the path does not fit"),
        Err(back) => {
            assert_eq!(back.head.path, "/");
            assert_eq!(back.head.websocket_keys, vec![b"key".to_vec()]);
        }
    }
}

#[test]
fn first_route_that_takes_a_request_gets_it() {
    let mut table: RoutingTable<Limited> = RoutingTable::new();
    let peer = "peer".to_string();
    for (number, limit) in vec![(1, 10), (2, 100), (3, 50), (4, 1000)] {
        assert!(table.has_room());
        table.insert(Limited { number, limit, toll: 0 });
    }
    assert_eq!(table.dispatch(&peer, request("/", None, &[], 5)).ok(), Some((1, 5)));
    assert_eq!(table.dispatch(&peer, request("/", None, &[], 40)).ok(), Some((2, 40)));
    assert_eq!(table.dispatch(&peer, request("/", None, &[], 500)).ok(), Some((4, 500)));
    assert_eq!(table.dispatch(&peer, request("/", None, &[], 5000)).err().unwrap().body, 5000);
}

#[test]
fn routes_see_the_request_as_it_comes_back() {
    let mut table: RoutingTable<Limited> = RoutingTable::new();
    let peer = "peer".to_string();
    table.insert(Limited { number: 1, limit: 0, toll: 1 });
    table.insert(Limited { number: 2, limit: 0, toll: 20 });
    table.insert(Limited { number: 3, limit: 30, toll: 0 });
    assert_eq!(table.dispatch(&peer, request("/", None, &[], 4)).ok(), Some((3, 25)));
    assert_eq!(table.dispatch(&peer, request("/", None, &[], 40)).err().unwrap().body, 61);
}

#[test]
fn added_route_takes_nothing_from_the_others() {
    let mut server: HttpServer<Limited> = HttpServer::new("0.0.0.0:80".to_string());
    let peer = "peer".to_string();
    assert!(server.call(&peer, request("/", None, &[], 1)).is_err());
    assert!(server.has_room());
    server.handle(ServerEvent::AddRoute(Limited { number: 1, limit: 9, toll: 0 }));
    server.handle(ServerEvent::AddRoute(Limited { number: 2, limit: 99, toll: 0 }));
    assert_eq!(server.call(&peer, request("/", None, &[], 9)).ok(), Some((1, 9)));
    assert_eq!(server.call(&peer, request("/", None, &[], 10)).ok(), Some((2, 10)));
}

#[test]
fn server_listens_when_it_starts_and_restarts() {
    let mut server: HttpServer<Limited> = HttpServer::new("0.0.0.0:80".to_string());
    assert!(
        matches!(server.handle(ServerEvent::Started), ServerAction::Listen(addr) if addr == "0.0.0.0:80")
    );
    assert!(
        matches!(server.handle(ServerEvent::RestartListener), ServerAction::Listen(addr) if addr == "0.0.0.0:80")
    );
    assert!(matches!(server.handle(ServerEvent::Interrupted), ServerAction::Shutdown));
}

#[test]
fn failed_listener_is_restarted() {
    let mut server: HttpServer<Limited> = HttpServer::new("0.0.0.0:80".to_string());
    let event = ServerEvent::ListenerEnded { result: failed(), terminating: false };
    assert!(matches!(server.handle(event), ServerAction::ScheduleRestart(3)));
    assert_eq!(RESTART_DELAY, 3);
}

#[test]
fn ended_listener_is_not_restarted() {
    let mut server: HttpServer<Limited> = HttpServer::new("0.0.0.0:80".to_string());
    let stopping = ServerEvent::ListenerEnded { result: failed(), terminating: true };
    assert!(matches!(server.handle(stopping), ServerAction::Nothing));
    let well = ServerEvent::ListenerEnded { result: Ok(()), terminating: false };
    assert!(matches!(server.handle(well), ServerAction::Nothing));
}

#[test]
fn answers_tell_missing_routes_from_failures() {
    assert!(matches!(answer(Some(Ok(7))), Answer::Response(7)));
    match answer::<u8>(Some(Err("failed".to_string()))) {
        Answer::Empty(head) => {
            assert_eq!(head.status, 500);
            assert!(head.headers.is_empty());
        }
        Answer::Response(_) => panic!("a failure has no response"),
    }
    match answer::<u8>(None) {
        Answer::Empty(head) => {
            assert_eq!(head.status, 404);
            assert!(head.headers.is_empty());
        }
        Answer::Response(_) => panic!("no route, no response"),
    }
}
