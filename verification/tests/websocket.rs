use meio::connect::protocol::{Protocol, ProtocolData};
use meio::connect::websocket::WsHandler;
use meio::{Actor, Address, Id, IdOf, IdSource, LiteTask};

struct Text(&'static str);

impl ProtocolData for Text {}

struct Chat;

impl Protocol for Chat {
    type ToServer = Text;
    type ToClient = Text;
    type Codec = ();
}

struct Owner;

impl Actor for Owner {
    type GroupBy = ();

    fn name(&self) -> String {
        "owner".to_string()
    }
}

fn owner() -> (Id, Address<Owner>) {
    let mut ids = IdSource::new();
    let id = Id::of_actor(&mut ids, &Owner);
    (id.clone(), Address::new(IdOf::new(id)))
}

#[test]
fn worker_gets_the_connection_and_the_messages() {
    let mut handler: WsHandler<Chat, u32> = WsHandler::new("127.0.0.1:8080".to_string(), 77);
    assert_eq!(handler.addr(), "127.0.0.1:8080");
    assert!(!handler.is_started());
    assert!(handler.send(Text("before")).is_none());
    let (id, address) = owner();
    let worker = handler.worker(address);
    assert!(handler.is_started());
    assert_eq!(worker.name(), "WsProcessor(127.0.0.1:8080)");
    assert!(handler.send(Text("after")).is_none());
    let (connection, mut rx, address) = worker.into_parts();
    assert_eq!(connection, 77);
    assert!(*address.id().as_ref() == id);
    assert_eq!(rx.try_recv().ok().unwrap().0, "before");
    assert_eq!(rx.try_recv().ok().unwrap().0, "after");
    assert!(rx.try_recv().is_err());
}

#[test]
fn message_comes_back_when_the_worker_is_gone() {
    let mut handler: WsHandler<Chat, ()> = WsHandler::new("peer".to_string(), ());
    let (_, address) = owner();
    drop(handler.worker(address));
    assert_eq!(handler.send(Text("lost")).unwrap().0, "lost");
    assert_eq!(handler.addr(), "peer");
}

#[test]
fn messages_are_queued_in_order() {
    let mut handler: WsHandler<Chat, ()> = WsHandler::new("peer".to_string(), ());
    for text in vec!["m1", "m2", "m2"] {
        assert!(handler.send(Text(text)).is_none());
    }
    let (_, address) = owner();
    let (_, mut rx, _) = handler.worker(address).into_parts();
    assert!(handler.send(Text("m3")).is_none());
    for text in vec!["m1", "m2", "m2", "m3"] {
        assert_eq!(rx.try_recv().ok().unwrap().0, text);
    }
    assert!(rx.try_recv().is_err());
    drop(rx);
    assert_eq!(handler.send(Text("m4")).unwrap().0, "m4");
}
