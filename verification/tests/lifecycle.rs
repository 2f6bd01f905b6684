use meio::lifecycle::{
    Awake, Delivery, Done, Interrupt, LifecycleNotifier, LifetimeTracker, NotifierKind, Stage,
    TaskDone,
};
use meio::{
    Actor, Address, Id, IdOf, IdSource, LiteTask, Operation, TaskAddress, TaskError,
};

struct Boss;

impl Actor for Boss {
    type GroupBy = u64;

    fn name(&self) -> String {
        "boss".to_string()
    }
}

struct Child {
    name: &'static str,
}

impl Actor for Child {
    type GroupBy = ();

    fn name(&self) -> String {
        self.name.to_string()
    }
}

struct Job;

impl LiteTask for Job {
    type Output = u8;

    fn name(&self) -> String {
        "job".to_string()
    }
}

fn child(ids: &mut IdSource, name: &'static str) -> (Id, Address<Child>) {
    let id = Id::of_actor(ids, &Child { name });
    (id.clone(), Address::new(IdOf::new(id)))
}

fn job(ids: &mut IdSource) -> (Id, TaskAddress<Job>) {
    let id = Id::of_actor(ids, &Child { name: "job" });
    (id.clone(), TaskAddress::new(IdOf::new(id)))
}

fn interrupted(deliveries: &[Delivery<Interrupt<Boss>>]) -> Vec<Id> {
    deliveries
        .iter()
        .map(|delivery| match delivery {
            Delivery::Message { to, operation, .. } => {
                assert!(matches!(operation, Operation::Forward));
                to.clone()
            }
            Delivery::Stop { task } => task.clone(),
            Delivery::Nothing => panic!("a child has to be told"),
        })
        .collect()
}

#[test]
fn new_tracker_is_finished_but_not_terminating() {
    let tracker: LifetimeTracker<Boss> = LifetimeTracker::new();
    assert!(!tracker.is_terminating());
    assert!(tracker.is_finished());
}

#[test]
fn fresh_stage_is_not_finished() {
    assert!(!Stage::default().is_finished());
}

#[test]
fn termination_without_children_finishes_at_once() {
    let mut tracker: LifetimeTracker<Boss> = LifetimeTracker::new();
    assert!(tracker.start_termination().is_empty());
    assert!(tracker.is_terminating());
    assert!(tracker.is_finished());
}

#[test]
fn child_that_leaves_early_leaves_an_unfinished_stage() {
    let mut ids = IdSource::new();
    let mut tracker: LifetimeTracker<Boss> = LifetimeTracker::new();
    let (id, address) = child(&mut ids, "early");
    assert!(tracker.insert(address, 1).is_none());
    assert!(!tracker.is_finished());
    assert!(tracker.remove(&id).is_empty());
    assert!(!tracker.is_terminating());
    assert!(!tracker.is_finished());
    assert!(tracker.start_termination().is_empty());
    assert!(tracker.is_finished());
}

#[test]
fn groups_are_terminated_by_priority() {
    let mut ids = IdSource::new();
    let mut tracker: LifetimeTracker<Boss> = LifetimeTracker::new();
    let (low, low_address) = child(&mut ids, "low");
    let (high, high_address) = child(&mut ids, "high");
    let (mid, mid_address) = child(&mut ids, "mid");
    assert!(tracker.insert(low_address, 30).is_none());
    assert!(tracker.insert(high_address, 10).is_none());
    assert!(tracker.insert(mid_address, 20).is_none());
    tracker.prioritize_termination_by(vec![10, 20]);
    let first = tracker.start_termination();
    assert!(interrupted(&first) == vec![high.clone()]);
    assert!(!tracker.is_finished());
    let second = tracker.remove(&high);
    assert!(interrupted(&second) == vec![mid.clone()]);
    let third = tracker.remove(&mid);
    assert!(interrupted(&third) == vec![low.clone()]);
    assert!(!tracker.is_finished());
    assert!(tracker.remove(&low).is_empty());
    assert!(tracker.is_finished());
}

#[test]
fn one_group_is_asked_at_a_time() {
    let mut ids = IdSource::new();
    let mut tracker: LifetimeTracker<Boss> = LifetimeTracker::new();
    let (one, one_address) = child(&mut ids, "one");
    let (two, two_address) = child(&mut ids, "two");
    tracker.insert(one_address, 1);
    tracker.insert(two_address, 2);
    let first = interrupted(&tracker.start_termination());
    assert_eq!(first.len(), 1);
    let second = interrupted(&tracker.remove(&first[0]));
    assert_eq!(second.len(), 1);
    assert!(first[0] != second[0]);
    assert!(first[0] == one || first[0] == two);
    assert!(second[0] == one || second[0] == two);
}

#[test]
fn children_of_a_group_are_interrupted_once() {
    let mut ids = IdSource::new();
    let mut tracker: LifetimeTracker<Boss> = LifetimeTracker::new();
    let (actor, address) = child(&mut ids, "actor");
    let (task, stopper) = job(&mut ids);
    tracker.insert(address, 1);
    tracker.insert_task(stopper, 1);
    let told = interrupted(&tracker.start_termination());
    assert_eq!(told.len(), 2);
    assert!(told.contains(&actor) && told.contains(&task));
    assert!(tracker.start_termination().is_empty());
    assert!(tracker.remove(&actor).is_empty());
    assert!(!tracker.is_finished());
    assert!(tracker.remove(&task).is_empty());
    assert!(tracker.is_finished());
}

#[test]
fn late_children_are_interrupted_at_once() {
    let mut ids = IdSource::new();
    let mut tracker: LifetimeTracker<Boss> = LifetimeTracker::new();
    let (_, address) = child(&mut ids, "first");
    tracker.insert(address, 1);
    tracker.start_termination();
    let (late, late_address) = child(&mut ids, "late");
    let told = tracker.insert(late_address, 1);
    assert!(matches!(
        told,
        Some(Delivery::Message { to, operation: Operation::Forward, .. }) if to == late
    ));
    let (task, stopper) = job(&mut ids);
    let stopped = tracker.insert_task(stopper, 1);
    assert!(matches!(stopped, Some(Delivery::Stop { task: id }) if id == task));
}

#[test]
fn late_group_waits_for_its_turn() {
    let mut ids = IdSource::new();
    let mut tracker: LifetimeTracker<Boss> = LifetimeTracker::new();
    let (first, address) = child(&mut ids, "first");
    tracker.insert(address, 1);
    tracker.start_termination();
    let (late, late_address) = child(&mut ids, "late");
    assert!(tracker.insert(late_address, 2).is_none());
    let told = interrupted(&tracker.remove(&first));
    assert!(told == vec![late]);
}

#[test]
fn unknown_child_is_ignored() {
    let mut ids = IdSource::new();
    let mut tracker: LifetimeTracker<Boss> = LifetimeTracker::new();
    let (known, address) = child(&mut ids, "known");
    let (unknown, _) = child(&mut ids, "unknown");
    tracker.insert(address, 1);
    assert!(tracker.remove(&unknown).is_empty());
    assert!(interrupted(&tracker.start_termination()) == vec![known]);
    assert!(tracker.remove(&unknown).is_empty());
    assert!(!tracker.is_finished());
}

#[test]
fn removing_a_child_leaves_the_others() {
    let mut ids = IdSource::new();
    let mut tracker: LifetimeTracker<Boss> = LifetimeTracker::new();
    let (gone, gone_address) = child(&mut ids, "gone");
    let (kept, kept_address) = child(&mut ids, "kept");
    tracker.insert(gone_address, 1);
    tracker.insert(kept_address, 1);
    assert!(tracker.remove(&gone).is_empty());
    assert!(interrupted(&tracker.start_termination()) == vec![kept]);
}

#[test]
fn prioritized_groups_without_children_are_passed_over() {
    let mut ids = IdSource::new();
    let mut tracker: LifetimeTracker<Boss> = LifetimeTracker::new();
    let (id, address) = child(&mut ids, "only");
    tracker.insert(address, 5);
    tracker.prioritize_termination_by(vec![1, 2, 1]);
    assert!(interrupted(&tracker.start_termination()) == vec![id]);
}

#[test]
fn child_that_moves_blocks_its_first_group() {
    let mut ids = IdSource::new();
    let mut tracker: LifetimeTracker<Boss> = LifetimeTracker::new();
    let (id, address) = child(&mut ids, "mover");
    tracker.insert(address.clone(), 1);
    tracker.insert(address, 2);
    tracker.prioritize_termination_by(vec![1]);
    assert!(interrupted(&tracker.start_termination()) == vec![id.clone()]);
    assert!(tracker.remove(&id).is_empty());
    assert!(!tracker.is_finished());
}

#[test]
fn notifiers_turn_events_into_deliveries() {
    let mut ids = IdSource::new();
    let (actor, address) = child(&mut ids, "actor");
    let (task, stopper) = job(&mut ids);
    let ignore: LifecycleNotifier<Interrupt<Boss>> = LifecycleNotifier::ignore();
    assert!(matches!(ignore.notify(Interrupt::new()), Delivery::Nothing));
    let done = Operation::Done { id: actor.clone() };
    let once: LifecycleNotifier<Interrupt<Boss>> = LifecycleNotifier::once(address, done);
    assert!(matches!(once.kind, NotifierKind::Once { .. }));
    match once.notify(Interrupt::new()) {
        Delivery::Message { to, operation: Operation::Done { id }, .. } => {
            assert!(to == actor);
            assert!(id == actor);
        }
        _ => panic!("a message was expected"),
    }
    let stop: LifecycleNotifier<Interrupt<Boss>> = LifecycleNotifier::stop(stopper);
    assert!(matches!(stop.notify(Interrupt::new()), Delivery::Stop { task: id } if id == task));
}

#[test]
fn messages_hold_what_they_are_made_of() {
    let mut ids = IdSource::new();
    let id = Id::of_actor(&mut ids, &Boss);
    let _awake: Awake<Boss> = Awake::new();
    let done: Done<Boss> = Done::new(IdOf::new(id.clone()));
    assert!(*done.id.as_ref() == id);
    let well: TaskDone<Job> = TaskDone::new(IdOf::new(id.clone()), Ok(5));
    assert!(matches!(well.result, Ok(5)));
    let badly: TaskDone<Job> =
        TaskDone::new(IdOf::new(id), Err(TaskError { reason: "stopped".to_string() }));
    assert!(matches!(badly.result, Err(error) if error.reason == "stopped"));
}

#[test]
fn ids_of_another_source_are_told_apart() {
    let mut tracker: LifetimeTracker<Boss> = LifetimeTracker::new();
    let (own, address) = child(&mut IdSource::new(), "own");
    let (foreign, _) = child(&mut IdSource::new(), "foreign");
    assert!(tracker.has_place_for(&own));
    assert!(tracker.has_place_for(&foreign));
    tracker.insert(address, 1);
    assert!(tracker.has_place_for(&own));
    assert!(!tracker.has_place_for(&foreign));
    assert!(tracker.remove(&foreign).is_empty());
    assert!(interrupted(&tracker.start_termination()) == vec![own]);
}

#[test]
fn child_that_comes_back_is_interrupted_anew() {
    let mut ids = IdSource::new();
    let mut tracker: LifetimeTracker<Boss> = LifetimeTracker::new();
    let (id, address) = child(&mut ids, "again");
    let (other, other_address) = child(&mut ids, "other");
    tracker.insert(address.clone(), 1);
    tracker.insert(other_address, 1);
    assert_eq!(interrupted(&tracker.start_termination()).len(), 2);
    assert!(tracker.remove(&id).is_empty());
    assert!(tracker.remove(&id).is_empty());
    assert!(tracker.start_termination().is_empty());
    assert!(tracker.insert(address, 1).is_some());
    assert!(tracker.is_terminating());
    assert!(!tracker.is_finished());
    assert!(tracker.remove(&other).is_empty());
    assert!(tracker.remove(&id).is_empty());
    assert!(tracker.is_finished());
}
