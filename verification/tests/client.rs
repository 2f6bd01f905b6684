use meio::connect::client::{
    ClientAction, ClientEvent, ConnectionRoutine, WsClient, WsClientStatus,
};
use meio::connect::protocol::{LiteStatus, Protocol, ProtocolData, TermReason};
use meio::{Actor, Address, Id, IdOf, IdSource, LiteTask};

struct Text;

impl ProtocolData for Text {}

struct Chat;

impl Protocol for Chat {
    type ToServer = Text;
    type ToClient = Text;
    type Codec = ();
}

struct Owner;

impl Actor for Owner {
    type GroupBy = ();

    fn name(&self) -> String {
        "owner".to_string()
    }
}

fn client(interval: Option<u128>) -> WsClient<Chat, Owner> {
    let mut ids = IdSource::new();
    let id = Id::of_actor(&mut ids, &Owner);
    WsClient::new("ws://localhost:9002/".to_string(), interval, Address::new(IdOf::new(id)))
}

fn routine(interval: Option<u128>) -> ConnectionRoutine {
    client(interval).connection_routine()
}

fn step(routine: &mut ConnectionRoutine, event: ClientEvent<String>) -> ClientAction<String> {
    assert!(routine.expects(&event));
    routine.step(event)
}

fn connect(routine: &mut ConnectionRoutine) {
    let action = step(routine, ClientEvent::Status(LiteStatus::Alive));
    assert!(matches!(action, ClientAction::Connect(url) if url == "ws://localhost:9002/"));
}

fn talk(routine: &mut ConnectionRoutine) {
    connect(routine);
    let action = step(routine, ClientEvent::Connected(Ok(())));
    assert!(matches!(action, ClientAction::Announce));
    let action = step(routine, ClientEvent::Told(Ok(())));
    assert!(matches!(action, ClientAction::Talk));
}

fn measure(routine: &mut ConnectionRoutine) {
    connect(routine);
    let action = step(routine, ClientEvent::Connected(Err("refused".to_string())));
    assert!(matches!(action, ClientAction::Report(text) if text == "refused"));
    let action = step(routine, ClientEvent::Told(Ok(())));
    assert!(matches!(action, ClientAction::Measure));
}

fn is_over(routine: &ConnectionRoutine) -> bool {
    !routine.expects(&ClientEvent::Status(LiteStatus::Alive))
        && !routine.expects(&ClientEvent::Connected(Ok(())))
        && !routine.expects(&ClientEvent::Told(Ok(())))
        && !routine.expects(&ClientEvent::TalkOver(Ok(TermReason::Closed)))
        && !routine.expects(&ClientEvent::Elapsed(0))
        && !routine.expects(&ClientEvent::Timeout)
        && !routine.expects(&ClientEvent::StatusChanged(None))
}

#[test]
fn client_knows_its_owner() {
    assert_eq!(client(None).owner().id().as_ref().to_string(), "owner");
}

#[test]
fn client_is_named_after_its_url() {
    assert_eq!(client(None).name(), "WsClient(ws://localhost:9002/)");
}

#[test]
fn stopped_client_does_not_connect() {
    let mut routine = routine(Some(10));
    let action = step(&mut routine, ClientEvent::Status(LiteStatus::Stop));
    assert!(matches!(action, ClientAction::Finish(Ok(()))));
    assert!(is_over(&routine));
}

#[test]
fn interrupted_talk_ends_the_routine_well() {
    let mut routine = routine(Some(10));
    talk(&mut routine);
    let action = step(&mut routine, ClientEvent::TalkOver(Ok(TermReason::Interrupted)));
    assert!(matches!(action, ClientAction::Finish(Ok(()))));
    assert!(is_over(&routine));
}

#[test]
fn closed_connection_is_reported() {
    let mut routine = routine(Some(10));
    talk(&mut routine);
    let action = step(&mut routine, ClientEvent::TalkOver(Ok(TermReason::Closed)));
    assert!(matches!(action, ClientAction::Report(text) if text == "Server closed a connection"));
}

#[test]
fn failed_talk_is_reported() {
    let mut routine = routine(Some(10));
    talk(&mut routine);
    let action = step(&mut routine, ClientEvent::TalkOver(Err("broken pipe".to_string())));
    assert!(matches!(action, ClientAction::Report(text) if text == "broken pipe"));
}

#[test]
fn failure_without_interval_ends_the_routine() {
    let mut refused = routine(None);
    connect(&mut refused);
    let action = step(&mut refused, ClientEvent::Connected(Err("refused".to_string())));
    assert!(matches!(action, ClientAction::Finish(Err(text)) if text == "refused"));
    assert!(is_over(&refused));
    let mut closed = routine(None);
    talk(&mut closed);
    let action = step(&mut closed, ClientEvent::TalkOver(Ok(TermReason::Closed)));
    assert!(
        matches!(action, ClientAction::Finish(Err(text)) if text == "Server closed a connection")
    );
}

#[test]
fn unreachable_actor_ends_the_routine() {
    let mut announcing = routine(Some(10));
    connect(&mut announcing);
    step(&mut announcing, ClientEvent::Connected(Ok(())));
    let action = step(&mut announcing, ClientEvent::Told(Err("no actor".to_string())));
    assert!(matches!(action, ClientAction::Finish(Err(text)) if text == "no actor"));
    let mut reporting = routine(Some(10));
    connect(&mut reporting);
    step(&mut reporting, ClientEvent::Connected(Err("refused".to_string())));
    let action = step(&mut reporting, ClientEvent::Told(Err("no actor".to_string())));
    assert!(matches!(action, ClientAction::Finish(Err(text)) if text == "no actor"));
    assert!(is_over(&reporting));
}

#[test]
fn wait_fills_the_interval_up() {
    let mut routine = routine(Some(1_000_000_000));
    measure(&mut routine);
    let action = step(&mut routine, ClientEvent::Elapsed(400_000_000));
    assert!(matches!(action, ClientAction::Wait(600_000_000)));
    let action = step(&mut routine, ClientEvent::StatusChanged(Some(LiteStatus::Alive)));
    assert!(matches!(action, ClientAction::KeepWaiting));
    let action = step(&mut routine, ClientEvent::Timeout);
    assert!(matches!(action, ClientAction::CheckStatus));
    connect(&mut routine);
}

#[test]
fn elapsed_interval_needs_no_wait() {
    let mut exact = routine(Some(50));
    measure(&mut exact);
    assert!(matches!(step(&mut exact, ClientEvent::Elapsed(50)), ClientAction::CheckStatus));
    let mut shorter = routine(Some(50));
    measure(&mut shorter);
    assert!(matches!(step(&mut shorter, ClientEvent::Elapsed(49)), ClientAction::Wait(1)));
    let mut longer = routine(Some(50));
    measure(&mut longer);
    assert!(matches!(step(&mut longer, ClientEvent::Elapsed(u128::MAX)), ClientAction::CheckStatus));
}

#[test]
fn stop_during_the_wait_ends_the_routine_well() {
    for status in vec![Some(LiteStatus::Stop), None] {
        let mut routine = routine(Some(50));
        measure(&mut routine);
        step(&mut routine, ClientEvent::Elapsed(0));
        let action = step(&mut routine, ClientEvent::StatusChanged(status));
        assert!(matches!(action, ClientAction::Finish(Ok(()))));
        assert!(is_over(&routine));
    }
}

#[test]
fn every_attempt_after_the_first_follows_a_report() {
    let mut routine = routine(Some(5));
    for _ in 0..3 {
        measure(&mut routine);
        assert!(matches!(step(&mut routine, ClientEvent::Elapsed(5)), ClientAction::CheckStatus));
    }
}

#[test]
fn reasons_tell_interruptions_apart() {
    assert!(TermReason::Interrupted.is_interrupted());
    assert!(!TermReason::Closed.is_interrupted());
}

#[test]
fn announced_sender_fills_the_queue() {
    let (status, mut rx) = WsClient::<Chat, Owner>::announcement();
    match status {
        WsClientStatus::Connected { mut sender } => {
            assert!(rx.try_recv().is_err());
            assert!(sender.send(Text).is_none());
            assert!(rx.try_recv().is_ok());
            drop(rx);
            assert!(sender.send(Text).is_some());
        }
        WsClientStatus::Failed(_) => panic!("the connection stands"),
    }
}
