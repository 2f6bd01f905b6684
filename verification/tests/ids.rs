use meio::runtime::Launch;
use meio::{spawn, Actor, Address, Id, IdOf, IdSource, System, TaskAddress};

struct Named {
    name: &'static str,
}

impl Actor for Named {
    type GroupBy = u64;

    fn name(&self) -> String {
        self.name.to_string()
    }
}

#[test]
fn id_shows_the_name_of_the_actor() {
    let mut ids = IdSource::new();
    let id = Id::of_actor(&mut ids, &Named { name: "worker" });
    assert_eq!(id.to_string(), "worker");
    assert_eq!(id.as_ref(), "worker");
}

#[test]
fn ids_of_equal_names_differ() {
    let mut ids = IdSource::new();
    let one = Id::of_actor(&mut ids, &Named { name: "twin" });
    let two = Id::of_actor(&mut ids, &Named { name: "twin" });
    assert!(one != two);
    assert!(one == one.clone());
    assert_eq!(one.to_string(), two.to_string());
}

#[test]
fn typed_id_keeps_the_id() {
    let mut ids = IdSource::new();
    let id = Id::of_actor(&mut ids, &Named { name: "typed" });
    let typed: IdOf<Named> = IdOf::new(id.clone());
    assert!(*typed.as_ref() == id);
    assert!(typed == typed.clone());
    assert!(typed.clone().into() == id);
    let other: IdOf<Named> = IdOf::new(Id::of_actor(&mut ids, &Named { name: "typed" }));
    assert!(typed != other);
}

#[test]
fn addresses_lead_to_their_ids() {
    let mut ids = IdSource::new();
    let id = Id::of_actor(&mut ids, &Named { name: "target" });
    let address: Address<Named> = Address::new(IdOf::new(id.clone()));
    assert!(*address.clone().id().as_ref() == id);
    let task: TaskAddress<Named> = TaskAddress::new(IdOf::new(id.clone()));
    assert!(*task.id().as_ref() == id);
}

#[test]
fn spawned_actor_has_no_supervisor() {
    let mut ids = IdSource::new();
    assert!(ids.has_next());
    let first: Launch<Named, System> = spawn(&mut ids, Named { name: "first" });
    let second: Launch<Named, System> = spawn(&mut ids, Named { name: "second" });
    assert!(first.supervisor.is_none());
    assert_eq!(first.actor.name, "first");
    assert_eq!(first.address.id().as_ref().to_string(), "first");
    assert!(first.address.id() != second.address.id());
}

#[test]
fn ids_of_two_sources_differ_under_one_name() {
    let one = Id::of_actor(&mut IdSource::new(), &Named { name: "twin" });
    let two = Id::of_actor(&mut IdSource::new(), &Named { name: "twin" });
    assert!(one != two);
    let typed_one: IdOf<Named> = IdOf::new(one);
    let typed_two: IdOf<Named> = IdOf::new(two);
    assert!(typed_one != typed_two);
    assert!(typed_one == typed_one.clone());
}

fn digest<T: std::hash::Hash>(value: &T) -> u64 {
    let mut hasher = std::collections::hash_map::DefaultHasher::new();
    value.hash(&mut hasher);
    std::hash::Hasher::finish(&hasher)
}

#[test]
fn ids_hash_as_their_names() {
    let mut ids = IdSource::new();
    let one = Id::of_actor(&mut ids, &Named { name: "twin" });
    let two = Id::of_actor(&mut ids, &Named { name: "twin" });
    let other = Id::of_actor(&mut ids, &Named { name: "other" });
    assert_eq!(digest(&one), digest(&one.clone()));
    assert_eq!(digest(&one), digest(&two));
    assert_eq!(digest(&one), digest(&"twin".to_string()));
    assert_ne!(digest(&one), digest(&other));
    let typed: IdOf<Named> = IdOf::new(one.clone());
    assert_eq!(digest(&typed), digest(&one));
}

#[test]
fn equality_of_ids_is_an_equivalence() {
    let mut ids = IdSource::new();
    let a = Id::of_actor(&mut ids, &Named { name: "a" });
    let b = a.clone();
    let c = b.clone();
    assert!(a == a && a == b && b == a && b == c && a == c);
    assert_eq!(a.as_ref(), c.as_ref());
    let mut set = std::collections::HashSet::new();
    assert!(set.insert(a));
    assert!(!set.insert(c));
    assert!(set.insert(Id::of_actor(&mut ids, &Named { name: "a" })));
}
