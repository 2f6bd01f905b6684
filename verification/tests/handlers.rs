use futures::channel::oneshot;
use meio::connect::client::{WsClientStatus, WsSender};
use meio::connect::protocol::{Protocol, ProtocolData};
use meio::handlers::HpEnvelope;
use meio::{Action, Actor, Envelope, Id, IdSource, Interaction, Joiner, Operation};

struct Ping(u8);

impl Action for Ping {}

struct Urgent;

impl Action for Urgent {
    fn is_high_priority(&self) -> bool {
        true
    }
}

struct Text(String);

impl ProtocolData for Text {}

struct Chat;

impl Protocol for Chat {
    type ToServer = Text;
    type ToClient = Text;
    type Codec = ();
}

struct Worker;

impl Actor for Worker {
    type GroupBy = u64;

    fn name(&self) -> String {
        "worker".to_string()
    }
}

#[test]
fn envelope_is_handled_once() {
    let mut envelope = Envelope::action(Ping(7));
    assert!(envelope.is_pending());
    assert_eq!(envelope.handle().0, 7);
    assert!(!envelope.is_pending());
}

#[test]
fn actions_have_low_priority_by_default() {
    assert!(!Ping(0).is_high_priority());
    assert!(Urgent.is_high_priority());
}

#[test]
fn statuses_of_a_client_have_high_priority() {
    let failed: WsClientStatus<Chat> = WsClientStatus::Failed("gone".to_string());
    assert!(failed.is_high_priority());
    let (tx, _rx) = futures::channel::mpsc::unbounded::<Text>();
    let connected: WsClientStatus<Chat> = WsClientStatus::Connected { sender: WsSender::new(tx) };
    assert!(connected.is_high_priority());
}

#[test]
fn interaction_carries_the_way_back() {
    let (responder, mut response) = oneshot::channel();
    let interaction = Interaction::<u8, u8> { request: 20, responder };
    assert!(!interaction.is_high_priority());
    let mut envelope = Envelope::action(interaction);
    let taken = envelope.handle();
    assert!(taken.responder.send(Ok(taken.request + 1)).is_ok());
    assert_eq!(response.try_recv().unwrap(), Some(Ok(21)));
}

#[test]
fn joiner_carries_the_way_back() {
    let (responder, mut response) = oneshot::channel();
    let joiner = Joiner { responder };
    assert!(!joiner.is_high_priority());
    assert!(joiner.responder.send(Err("lost".to_string())).is_ok());
    assert_eq!(response.try_recv().unwrap(), Some(Err("lost".to_string())));
}

#[test]
fn operations_clone_with_their_ids() {
    let mut ids = IdSource::new();
    let id = Id::of_actor(&mut ids, &Worker);
    let operation = Operation::Done { id: id.clone() };
    let mut hp = HpEnvelope { operation: operation.clone(), envelope: Envelope::action(Ping(3)) };
    assert!(matches!(hp.operation, Operation::Done { id: copy } if copy == id));
    assert_eq!(hp.envelope.handle().0, 3);
    assert!(matches!(Operation::Forward.clone(), Operation::Forward));
}

#[test]
fn refused_messages_come_back_from_the_sender() {
    let (tx, mut rx) = futures::channel::mpsc::unbounded::<Text>();
    let mut sender = WsSender::new(tx);
    assert!(sender.send(Text("one".to_string())).is_none());
    assert!(sender.send(Text("two".to_string())).is_none());
    assert_eq!(rx.try_recv().ok().unwrap().0, "one");
    assert_eq!(rx.try_recv().ok().unwrap().0, "two");
    drop(rx);
    assert_eq!(sender.send(Text("three".to_string())).unwrap().0, "three");
}
