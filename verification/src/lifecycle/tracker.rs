//! The children of an actor, and the order in which they terminate.

use std::collections::{HashMap, HashSet};

use vstd::prelude::*;
use vstd::std_specs::hash::{obeys_key_model, spec_hash_keys_iter, spec_keys_iter, spec_values_iter};
use vstd::std_specs::iter::IteratorSpec;

use crate::handlers::Operation;
use crate::ids::Id;
use crate::lifecycle::history::TrackerCall;
use crate::lifecycle::messages::Interrupt;
use crate::lifecycle::notifier::{Delivery, LifecycleNotifier, NotifierKind};
use crate::runtime::{Actor, Address, LiteTask, TaskAddress};

verus! {

/// What a [`Stage`] holds.
#[verifier::ext_equal]
pub struct StageView {
    /// The children of the group were asked to finish.
    pub terminating: bool,
    /// The serial numbers of the children that are alive.
    pub ids: Set<u64>,
}

impl StageView {
    /// The stage of a group without children.
    pub open spec fn empty() -> Self {
        StageView { terminating: false, ids: Set::empty() }
    }

    /// The group was asked to finish, and all of it has.
    pub open spec fn is_finished(self) -> bool {
        self.terminating && self.ids.is_empty()
    }
}

/// The children of one termination group.
pub struct Stage {
    terminating: bool,
    ids: HashSet<u64>,
}

impl View for Stage {
    type V = StageView;

    closed spec fn view(&self) -> StageView {
        StageView { terminating: self.terminating, ids: self.ids@ }
    }
}

impl Default for Stage {
    fn default() -> (stage: Self)
        ensures
            stage@ == StageView::empty(),
    {
        Stage { terminating: false, ids: HashSet::new() }
    }
}

impl Stage {
    /// Tells if the group was asked to finish, and all of it has.
    pub fn is_finished(&self) -> (finished: bool)
        ensures
            finished == self@.is_finished(),
    {
        self.terminating && self.ids.is_empty()
    }
}

/// One child: its group, and how it learns that it has to finish.
pub struct Record<A: Actor> {
    pub group: A::GroupBy,
    pub notifier: LifecycleNotifier<Interrupt<A>>,
}

/// What a [`LifetimeTracker`] holds.
#[verifier::ext_equal]
pub struct TrackerView<A: Actor> {
    pub terminating: bool,
    pub prioritized: Seq<A::GroupBy>,
    pub stages: Map<A::GroupBy, StageView>,
    pub records: Map<u64, Record<A>>,
}

/// What is sent to interrupt children one after the other.
pub open spec fn interruptions_of<A: Actor>(
    records: Map<u64, Record<A>>,
    order: Seq<u64>,
) -> Seq<Delivery<Interrupt<A>>> {
    Seq::new(
        order.len(),
        |i: int| records[order[i]].notifier.delivery(Interrupt::message()),
    )
}

impl<A: Actor> TrackerView<A> {
    /// The stage of a group; an empty one where the group has none yet.
    pub open spec fn stage_of(self, group: A::GroupBy) -> StageView {
        if self.stages.contains_key(group) {
            self.stages[group]
        } else {
            StageView::empty()
        }
    }

    /// Every child stands in the stage of its own group, and is the one that
    /// its notifier reaches.
    pub open spec fn is_consistent(self) -> bool {
        forall|key: u64| #[trigger]
            self.records.contains_key(key) ==> {
                let record = self.records[key];
                &&& self.stages.contains_key(record.group)
                &&& self.stages[record.group].ids.contains(key)
                &&& record.notifier.target() is Some
                &&& record.notifier.target()->0.serial() == key
            }
    }

    /// This very id is that of a child.
    pub open spec fn is_child(self, id: Id) -> bool {
        &&& self.records.contains_key(id.serial())
        &&& self.records[id.serial()].notifier.target() matches Some(target) && target.is_same(id)
    }

    /// No child has the number of the id under another id.
    pub open spec fn has_place_for(self, id: Id) -> bool {
        self.records.contains_key(id.serial()) ==> self.is_child(id)
    }

    /// All groups were asked to finish, and all of their children have.
    pub open spec fn is_finished(self) -> bool {
        forall|group: A::GroupBy| #[trigger]
            self.stages.contains_key(group) ==> self.stages[group].is_finished()
    }

    /// The tracker with one more child.
    pub open spec fn with_child(
        self,
        key: u64,
        group: A::GroupBy,
        notifier: LifecycleNotifier<Interrupt<A>>,
    ) -> Self {
        let stage = self.stage_of(group);
        TrackerView {
            stages: self.stages.insert(group, StageView { ids: stage.ids.insert(key), ..stage }),
            records: self.records.insert(key, Record { group, notifier }),
            ..self
        }
    }

    /// The tracker without a child.
    pub open spec fn without_child(self, key: u64) -> Self {
        if self.records.contains_key(key) {
            let group = self.records[key].group;
            let stage = self.stage_of(group);
            TrackerView {
                stages: if self.stages.contains_key(group) {
                    self.stages.insert(group, StageView { ids: stage.ids.remove(key), ..stage })
                } else {
                    self.stages
                },
                records: self.records.remove(key),
                ..self
            }
        } else {
            self
        }
    }

    /// The tracker after the child with this very id was forgotten, if there is
    /// one.
    pub open spec fn without(self, id: Id) -> Self {
        if self.is_child(id) {
            self.without_child(id.serial())
        } else {
            self
        }
    }

    /// An order in which the groups may be terminated: the prioritized ones
    /// first, as they were given, then every other group once.
    pub open spec fn is_stage_sequence(self, sequence: Seq<A::GroupBy>) -> bool {
        let split = self.prioritized.len() as int;
        &&& split <= sequence.len()
        &&& sequence.take(split) == self.prioritized
        &&& sequence.skip(split).no_duplicates()
        &&& sequence.skip(split).to_set() == self.stages.dom().difference(
            self.prioritized.to_set(),
        )
    }

    /// No group that stands before the given place has a child.
    pub open spec fn is_clear_before(self, sequence: Seq<A::GroupBy>, place: int) -> bool {
        forall|i: int|
            0 <= i < place && self.stages.contains_key(#[trigger] sequence[i])
                ==> self.stages[sequence[i]].ids.is_empty()
    }

    /// It is the turn of the group: no group before it has a child.
    pub open spec fn is_due(self, sequence: Seq<A::GroupBy>, group: A::GroupBy) -> bool {
        exists|place: int|
            0 <= place < sequence.len() && #[trigger] sequence[place] == group
                && self.is_clear_before(sequence, place)
    }

    /// The tracker after the groups before the given place were asked to
    /// finish.
    spec fn asked(self, sequence: Seq<A::GroupBy>, place: int) -> Self {
        TrackerView {
            terminating: true,
            stages: Map::new(
                |group: A::GroupBy| self.stages.contains_key(group),
                |group: A::GroupBy|
                    StageView {
                        terminating: self.stages[group].terminating || sequence.take(
                            place,
                        ).contains(group),
                        ids: self.stages[group].ids,
                    },
            ),
            ..self
        }
    }

    /// The tracker after all groups whose turn it is were asked to finish.
    pub open spec fn terminated(self, sequence: Seq<A::GroupBy>) -> Self {
        TrackerView {
            terminating: true,
            stages: Map::new(
                |group: A::GroupBy| self.stages.contains_key(group),
                |group: A::GroupBy|
                    StageView {
                        terminating: self.stages[group].terminating || self.is_due(sequence, group),
                        ids: self.stages[group].ids,
                    },
            ),
            ..self
        }
    }

    /// The child is asked to finish: it stands in a group whose turn it is and
    /// that was not asked before.
    pub open spec fn is_interrupted(self, sequence: Seq<A::GroupBy>, key: u64) -> bool {
        &&& self.records.contains_key(key)
        &&& exists|group: A::GroupBy| #[trigger]
            self.stages.contains_key(group) && self.is_due(sequence, group)
                && !self.stages[group].terminating && self.stages[group].ids.contains(key)
    }

    /// What is sent to interrupt one child.
    pub open spec fn interruption_of(self, key: u64) -> Delivery<Interrupt<A>> {
        self.records[key].notifier.delivery(Interrupt::message())
    }

    /// The deliveries interrupt the given children, each once.
    pub open spec fn interrupts(
        self,
        keys: Set<u64>,
        deliveries: Seq<Delivery<Interrupt<A>>>,
    ) -> bool {
        exists|order: Seq<u64>|
            {
                &&& order.no_duplicates()
                &&& order.to_set() == keys
                &&& deliveries == #[trigger] interruptions_of(self.records, order)
            }
    }

    /// One step of the termination, with the groups taken in some allowed
    /// order.
    pub open spec fn terminates_to(
        self,
        next: Self,
        deliveries: Seq<Delivery<Interrupt<A>>>,
    ) -> bool {
        exists|sequence: Seq<A::GroupBy>|
            {
                &&& #[trigger] self.is_stage_sequence(sequence)
                &&& next == self.terminated(sequence)
                &&& self.interrupts(
                    Set::new(|key: u64| self.is_interrupted(sequence, key)),
                    deliveries,
                )
            }
    }
}

impl<A: Actor> TrackerView<A> {
    /// What asking one more group changes.
    proof fn lemma_asked_next(self, sequence: Seq<A::GroupBy>, place: int)
        requires
            0 <= place < sequence.len(),
        ensures
            ({
                let group = sequence[place];
                let held = self.asked(sequence, place).stages;
                self.asked(sequence, place + 1).stages == if held.contains_key(group) {
                    held.insert(group, StageView { terminating: true, ids: held[group].ids })
                } else {
                    held
                }
            }),
    {
        let held = self.asked(sequence, place).stages;
        let next = self.asked(sequence, place + 1).stages;
        let prefix = sequence.take(place);
        assert(sequence.take(place + 1) == prefix.push(sequence[place]));
        assert forall|group: A::GroupBy|
            sequence.take(place + 1).contains(group) == (prefix.contains(group) || group
                == sequence[place]) by {
            lemma_push_contains(prefix, sequence[place], group);
        }
        if held.contains_key(sequence[place]) {
            assert(next =~= held.insert(
                sequence[place],
                StageView { terminating: true, ids: held[sequence[place]].ids },
            ));
        } else {
            assert(next =~= held);
        }
    }

    /// If no group has a child, it is the turn of all of them, and nobody is
    /// interrupted.
    proof fn lemma_all_clear(self, sequence: Seq<A::GroupBy>)
        requires
            self.is_stage_sequence(sequence),
            self.is_clear_before(sequence, sequence.len() as int),
        ensures
            self.asked(sequence, sequence.len() as int) == self.terminated(sequence),
            forall|key: u64| !self.is_interrupted(sequence, key),
    {
        let asked = self.asked(sequence, sequence.len() as int);
        assert(sequence.take(sequence.len() as int) == sequence);
        assert forall|group: A::GroupBy| sequence.contains(group) == self.is_due(
            sequence,
            group,
        ) by {
            if sequence.contains(group) {
                let place = choose|place: int|
                    0 <= place < sequence.len() && sequence[place] == group;
                assert(self.is_clear_before(sequence, place));
            }
        }
        assert(asked.stages =~= self.terminated(sequence).stages);
    }

    /// Without deliveries nobody is interrupted.
    proof fn lemma_interrupts_nobody(self, keys: Set<u64>)
        requires
            forall|key: u64| !keys.contains(key),
        ensures
            self.interrupts(keys, Seq::empty()),
    {
        let order: Seq<u64> = Seq::empty();
        assert(order.to_set() =~= keys);
        assert(interruptions_of(self.records, order) =~= Seq::empty());
    }

    /// If a group has a child and no group before it has any, its turn and
    /// that of the groups before it has come, and only its children may be
    /// interrupted.
    proof fn lemma_blocked_at(self, sequence: Seq<A::GroupBy>, place: int)
        requires
            0 <= place < sequence.len(),
            self.is_clear_before(sequence, place),
            self.stages.contains_key(sequence[place]),
            !self.stages[sequence[place]].ids.is_empty(),
        ensures
            self.asked(sequence, place + 1) == self.terminated(sequence),
            forall|key: u64|
                self.is_interrupted(sequence, key) <==> {
                    &&& self.records.contains_key(key)
                    &&& !self.stages[sequence[place]].terminating
                    &&& self.stages[sequence[place]].ids.contains(key)
                },
    {
        let asked = self.asked(sequence, place + 1);
        let prefix = sequence.take(place + 1);
        assert forall|group: A::GroupBy| prefix.contains(group) == self.is_due(
            sequence,
            group,
        ) by {
            if prefix.contains(group) {
                let i = choose|i: int| 0 <= i < prefix.len() && prefix[i] == group;
                assert(sequence[i] == group);
                assert(self.is_clear_before(sequence, i));
            }
            if self.is_due(sequence, group) {
                let i = choose|i: int|
                    0 <= i < sequence.len() && #[trigger] sequence[i] == group
                        && self.is_clear_before(sequence, i);
                assert(i <= place);
                assert(prefix[i] == group);
            }
        }
        assert(asked.stages =~= self.terminated(sequence).stages);
        assert(prefix[place] == sequence[place]);
        assert forall|group: A::GroupBy|
            prefix.contains(group) && self.stages.contains_key(group)
                && !self.stages[group].ids.is_empty() implies group == sequence[place] by {
            let i = choose|i: int| 0 <= i < prefix.len() && prefix[i] == group;
            assert(sequence[i] == group);
        }
    }
}

/// Keeps the children of an actor, and terminates them group by group.
pub struct LifetimeTracker<A: Actor> {
    terminating: bool,
    prioritized: Vec<A::GroupBy>,
    stages: HashMap<A::GroupBy, Stage>,
    records: HashMap<u64, Record<A>>,
}

impl<A: Actor> View for LifetimeTracker<A> {
    type V = TrackerView<A>;

    closed spec fn view(&self) -> TrackerView<A> {
        TrackerView {
            terminating: self.terminating,
            prioritized: self.prioritized@,
            stages: self.stages@.map_values(|stage: Stage| stage@),
            records: self.records@,
        }
    }
}

/// The type can key a hash map: equal values hash alike, and a clone is equal
/// to what it was cloned from.
pub open spec fn is_group_key<G: Clone>() -> bool {
    &&& obeys_key_model::<G>()
    &&& forall|group: G, copy: G| #[trigger] cloned::<G>(group, copy) ==> copy == group
}

/// What a sequence holds after one more element.
proof fn lemma_push_contains<T>(s: Seq<T>, last: T, x: T)
    ensures
        s.push(last).contains(x) == (s.contains(x) || x == last),
{
    if s.contains(x) {
        let i = choose|i: int| 0 <= i < s.len() && s[i] == x;
        assert(s.push(last)[i] == x);
    }
    assert(s.push(last)[s.len() as int] == last);
    if s.push(last).contains(x) && x != last {
        let i = choose|i: int| 0 <= i <= s.len() && s.push(last)[i] == x;
        assert(s[i] == x);
    }
}

/// What the first elements of a sequence without duplicates hold, after one
/// element more.
proof fn lemma_take_next<T>(all: Seq<&T>, seen: int)
    requires
        0 <= seen < all.len(),
        all.no_duplicates(),
    ensures
        !all.take(seen).contains(all[seen]),
        forall|x: T| #[trigger]
            all.take(seen + 1).contains(&x) <==> all.take(seen).contains(&x) || x == *all[seen],
{
    assert(all.take(seen + 1) == all.take(seen).push(all[seen]));
    assert forall|x: T| #[trigger]
        all.take(seen + 1).contains(&x) <==> all.take(seen).contains(&x) || x == *all[seen] by {
        lemma_push_contains(all.take(seen), all[seen], &x);
    }
    if all.take(seen).contains(all[seen]) {
        let i = choose|i: int| 0 <= i < seen && all.take(seen)[i] == all[seen];
        assert(all[i] == all[seen]);
    }
}

/// A sequence without duplicates has none after one new element more.
proof fn lemma_push_new<T>(s: Seq<T>, last: T)
    requires
        s.no_duplicates(),
        !s.contains(last),
    ensures
        s.push(last).no_duplicates(),
        forall|x: T| #[trigger] s.push(last).contains(x) <==> s.contains(x) || x == last,
{
    assert(forall|i: int| 0 <= i < s.len() ==> s[i] != last);
    assert forall|x: T| #[trigger] s.push(last).contains(x) <==> s.contains(x) || x == last by {
        lemma_push_contains(s, last, x);
    }
}

/// References hold the values that they refer to.
proof fn lemma_unref_contains<T>(all: Seq<&T>, x: T)
    ensures
        all.contains(&x) == all.unref().to_set().contains(x),
{
    if all.contains(&x) {
        let i = choose|i: int| 0 <= i < all.len() && all[i] == &x;
        assert(all.unref()[i] == x);
    }
    if all.unref().contains(x) {
        let i = choose|i: int| 0 <= i < all.len() && all.unref()[i] == x;
        assert(all[i] == &x);
    }
}

impl<A: Actor> LifetimeTracker<A> {
    /// Makes a tracker without children.
    pub fn new() -> (tracker: Self)
        ensures
            tracker@ == (TrackerView::<A> {
                terminating: false,
                prioritized: Seq::empty(),
                stages: Map::empty(),
                records: Map::empty(),
            }),
            tracker@ == TrackerView::<A>::initial(),
            tracker@.is_finished(),
            is_group_key::<A::GroupBy>() ==> tracker.wf(),
    {
        LifetimeTracker {
            terminating: false,
            prioritized: Vec::new(),
            stages: HashMap::new(),
            records: HashMap::new(),
        }
    }

    /// Tells if the termination was started.
    pub fn is_terminating(&self) -> (terminating: bool)
        ensures
            terminating == self@.terminating,
    {
        self.terminating
    }

    /// The groups can key a hash map, and the tracker is consistent.
    pub open spec fn wf(self) -> bool {
        is_group_key::<A::GroupBy>() && self@.is_consistent()
    }

    /// Tells if no child has the number of the id under another id. That is so
    /// as long as the ids of all children come from one source.
    pub fn has_place_for(&self, id: &Id) -> (place: bool)
        ensures
            place == self@.has_place_for(*id),
    {
        match self.records.get(&id.key()) {
            Some(record) => record.notifier.is_for(id),
            None => true,
        }
    }

    /// Adds an actor to the children of a group. Its id has to come from the
    /// source of the ids of the other children.
    ///
    /// An actor that joins a group which was already asked to finish is
    /// interrupted at once, by the delivery that is returned.
    pub fn insert<T: Actor>(&mut self, address: Address<T>, group: A::GroupBy) -> (interruption:
        Option<Delivery<Interrupt<A>>>)
        requires
            old(self).wf(),
            old(self)@.has_place_for(address.spec_id().id()),
        ensures
            final(self).wf(),
            ({
                let id = address.spec_id().id();
                let notifier = LifecycleNotifier::of_kind(
                    NotifierKind::Once { to: id, operation: Operation::Forward },
                );
                let next = old(self)@.with_child(id.serial(), group, notifier);
                &&& final(self)@ == next
                &&& interruption == if old(self)@.stage_of(group).terminating {
                    Some(next.interruption_of(id.serial()))
                } else {
                    None
                }
            }),
            old(self)@.follows(
                TrackerCall::Insert { id: address.spec_id().id(), group },
                final(self)@,
                match interruption {
                    Some(delivery) => seq![delivery],
                    None => Seq::empty(),
                },
            ),
    {
        let id: Id = address.id().as_ref().clone();
        let notifier = LifecycleNotifier::once(address, Operation::Forward);
        self.add(id, group, notifier)
    }

    /// Adds a task to the children of a group. Its id has to come from the
    /// source of the ids of the other children.
    ///
    /// A task that joins a group which was already asked to finish is stopped
    /// at once, by the delivery that is returned.
    pub fn insert_task<T: LiteTask>(&mut self, stopper: TaskAddress<T>, group: A::GroupBy) -> (
    interruption: Option<Delivery<Interrupt<A>>>)
        requires
            old(self).wf(),
            old(self)@.has_place_for(stopper.spec_id().id()),
        ensures
            final(self).wf(),
            ({
                let id = stopper.spec_id().id();
                let notifier = LifecycleNotifier::of_kind(NotifierKind::Stop { task: id });
                let next = old(self)@.with_child(id.serial(), group, notifier);
                &&& final(self)@ == next
                &&& interruption == if old(self)@.stage_of(group).terminating {
                    Some(next.interruption_of(id.serial()))
                } else {
                    None
                }
            }),
            old(self)@.follows(
                TrackerCall::InsertTask { id: stopper.spec_id().id(), group },
                final(self)@,
                match interruption {
                    Some(delivery) => seq![delivery],
                    None => Seq::empty(),
                },
            ),
    {
        let id: Id = stopper.id().as_ref().clone();
        let notifier = LifecycleNotifier::stop(stopper);
        self.add(id, group, notifier)
    }

    /// Adds a child with the given notifier to a group.
    fn add(
        &mut self,
        id: Id,
        group: A::GroupBy,
        notifier: LifecycleNotifier<Interrupt<A>>,
    ) -> (interruption: Option<Delivery<Interrupt<A>>>)
        requires
            old(self).wf(),
            notifier.target() == Some(id),
        ensures
            final(self).wf(),
            final(self)@ == old(self)@.with_child(id.serial(), group, notifier),
            interruption == if old(self)@.stage_of(group).terminating {
                Some(final(self)@.interruption_of(id.serial()))
            } else {
                None
            },
    {
        let key: u64 = id.key();
        let ghost before = self@;
        let name = group.clone();
        assert(cloned(group, name));
        let stage = self.stages.entry(name).or_insert(Stage::default());
        stage.ids.insert(key);
        let interruption = if stage.terminating {
            Some(notifier.notify(Interrupt::new()))
        } else {
            None
        };
        self.records.insert(key, Record { group, notifier });
        proof {
            assert(self@.stages =~= before.with_child(key, group, notifier).stages);
        }
        interruption
    }

    /// Forgets a child that has finished. An id that no child has is ignored.
    ///
    /// While the tracker is terminating, the groups whose turn it has become
    /// are asked to finish, by the deliveries that are returned.
    pub fn remove(&mut self, id: &Id) -> (deliveries: Vec<Delivery<Interrupt<A>>>)
        requires
            old(self).wf(),
        ensures
            final(self).wf(),
            old(self)@.terminating ==> old(self)@.without(*id).terminates_to(
                final(self)@,
                deliveries@,
            ),
            !old(self)@.terminating ==> {
                &&& final(self)@ == old(self)@.without(*id)
                &&& deliveries@.len() == 0
            },
            old(self)@.follows(TrackerCall::Remove { id: *id }, final(self)@, deliveries@),
    {
        let key: u64 = id.key();
        let ghost before = self@;
        if self.has_place_for(id) {
            if let Some(record) = self.records.remove(&key) {
                if let Some(mut stage) = self.stages.remove(&record.group) {
                    stage.ids.remove(&key);
                    self.stages.insert(record.group, stage);
                }
            }
        }
        proof {
            assert(self@.stages =~= before.without(*id).stages);
            assert(self@ =~= before.without(*id));
        }
        if self.terminating {
            self.try_terminate_next()
        } else {
            Vec::new()
        }
    }

    /// Sets the groups that are terminated before all others, in this order.
    pub fn prioritize_termination_by(&mut self, groups: Vec<A::GroupBy>)
        ensures
            final(self)@ == (TrackerView { prioritized: groups@, ..old(self)@ }),
            old(self).wf() ==> final(self).wf(),
            old(self)@.follows(
                TrackerCall::Prioritize { groups: groups@ },
                final(self)@,
                Seq::empty(),
            ),
    {
        self.prioritized = groups;
    }

    /// Tells if all groups were asked to finish, and all of their children
    /// have.
    pub fn is_finished(&self) -> (finished: bool)
        requires
            self.wf(),
        ensures
            finished == self@.is_finished(),
    {
        let ghost all = spec_values_iter(&self.stages).remaining();
        let mut finished: bool = true;
        for stage in stages: self.stages.values()
            invariant
                stages.seq() == all,
                finished == forall|i: int|
                    0 <= i < stages.index() ==> (#[trigger] all[i])@.is_finished(),
        {
            finished = finished && stage.is_finished();
        }
        proof {
            assert forall|group: A::GroupBy| finished && #[trigger]
                self@.stages.contains_key(group) implies self@.stages[group].is_finished() by {
                assert(self.stages@.contains_value(self.stages@[group]));
                assert(all.unref().to_set().contains(self.stages@[group]));
                let i = choose|i: int|
                    0 <= i < all.len() && all.unref()[i] == self.stages@[group];
                assert(all[i]@ == self@.stages[group]);
            }
            if !finished {
                let i = choose|i: int| 0 <= i < all.len() && !(#[trigger] all[i])@.is_finished();
                assert(all.unref()[i] == *all[i]);
                assert(all.unref().to_set().contains(*all[i]));
                let group = choose|group: A::GroupBy| #[trigger]
                    self.stages@.contains_key(group) && self.stages@[group] == *all[i];
                assert(self@.stages.contains_key(group));
            }
        }
        finished
    }

    /// Gives an order in which the groups are terminated: the prioritized ones
    /// first, then the others.
    fn stage_sequence(&self) -> (sequence: Vec<A::GroupBy>)
        requires
            self.wf(),
        ensures
            self@.is_stage_sequence(sequence@),
    {
        let mut prior_set: HashSet<A::GroupBy> = HashSet::new();
        let mut sequence: Vec<A::GroupBy> = Vec::new();
        for i in 0..self.prioritized.len()
            invariant
                self.wf(),
                sequence@ == self.prioritized@.take(i as int),
                prior_set@ == self.prioritized@.take(i as int).to_set(),
        {
            let group = &self.prioritized[i];
            let name = group.clone();
            let copy = group.clone();
            assert(cloned(*group, name) && cloned(*group, copy));
            prior_set.insert(name);
            sequence.push(copy);
            proof {
                let seen = self.prioritized@.take(i as int);
                assert(self.prioritized@.take(i + 1) == seen.push(*group));
                seen.lemma_push_to_set_commute(*group);
            }
        }
        let ghost all = spec_keys_iter(&self.stages).remaining();
        let ghost mut others: Seq<A::GroupBy> = Seq::empty();
        assert(self.prioritized@.take(self.prioritized@.len() as int) == self.prioritized@);
        for group in groups: self.stages.keys()
            invariant
                self.wf(),
                groups.seq() == all,
                all.no_duplicates(),
                prior_set@ == self.prioritized@.to_set(),
                sequence@ == self.prioritized@ + others,
                others.no_duplicates(),
                forall|other: A::GroupBy| #[trigger]
                    others.contains(other) <==> all.take(groups.index()).contains(&other)
                        && !prior_set@.contains(other),
        {
            let ghost seen = groups.index();
            proof {
                lemma_take_next(all, seen);
            }
            if !prior_set.contains(group) {
                let name = group.clone();
                assert(cloned(*group, name));
                sequence.push(name);
                proof {
                    assert(sequence@ == self.prioritized@ + others.push(*group));
                    lemma_push_new(others, *group);
                    others = others.push(*group);
                }
            }
        }
        proof {
            let split = self.prioritized@.len() as int;
            assert(sequence@.take(split) == self.prioritized@);
            assert(sequence@.skip(split) == others);
            assert(all.take(all.len() as int) == all);
            assert forall|group: A::GroupBy| others.to_set().contains(group)
                == self@.stages.dom().difference(self@.prioritized.to_set()).contains(group) by {
                assert(others.contains(group) == others.to_set().contains(group));
                lemma_unref_contains(all, group);
            }
            assert(others.to_set() =~= self@.stages.dom().difference(self@.prioritized.to_set()));
        }
        sequence
    }

    /// Asks the groups whose turn it is to finish.
    fn try_terminate_next(&mut self) -> (deliveries: Vec<Delivery<Interrupt<A>>>)
        requires
            old(self).wf(),
        ensures
            final(self).wf(),
            old(self)@.terminates_to(final(self)@, deliveries@),
    {
        let ghost before = self@;
        self.terminating = true;
        let sequence = self.stage_sequence();
        for place in 0..sequence.len()
            invariant
                self.wf(),
                before == old(self)@,
                before.is_stage_sequence(sequence@),
                before.is_clear_before(sequence@, place as int),
                self@ == before.asked(sequence@, place as int),
        {
            let name = sequence[place].clone();
            assert(cloned(sequence[place as int], name));
            let ghost held = self@.stages;
            proof {
                before.lemma_asked_next(sequence@, place as int);
                assert(held.contains_key(name) == self.stages@.contains_key(name));
            }
            if let Some(mut stage) = self.stages.remove(&name) {
                let mut deliveries: Vec<Delivery<Interrupt<A>>> = Vec::new();
                if !stage.terminating {
                    stage.terminating = true;
                    deliveries = Self::interrupt_all(&self.records, &stage.ids);
                }
                let finished = stage.is_finished();
                let ghost stage_ids = stage.ids@;
                self.stages.insert(name, stage);
                proof {
                    assert(self@.stages =~= held.insert(
                        name,
                        StageView { terminating: true, ids: held[name].ids },
                    ));
                }
                if !finished {
                    proof {
                        let keys = Set::new(|key: u64| before.is_interrupted(sequence@, key));
                        before.lemma_blocked_at(sequence@, place as int);
                        if before.stages[name].terminating {
                            before.lemma_interrupts_nobody(keys);
                            assert(deliveries@ =~= Seq::empty());
                        } else {
                            assert(keys =~= stage_ids.intersect(self.records@.dom()));
                        }
                        assert(before.interrupts(keys, deliveries@));
                    }
                    return deliveries;
                }
            }
            proof {
                assert(held.contains_key(name) || self@.stages =~= held);
            }
        }
        let deliveries: Vec<Delivery<Interrupt<A>>> = Vec::new();
        proof {
            let keys = Set::new(|key: u64| before.is_interrupted(sequence@, key));
            before.lemma_all_clear(sequence@);
            before.lemma_interrupts_nobody(keys);
            assert(deliveries@ =~= Seq::empty());
        }
        deliveries
    }

    /// Gives what is sent to interrupt those of the given children that have a
    /// record.
    fn interrupt_all(records: &HashMap<u64, Record<A>>, ids: &HashSet<u64>) -> (deliveries: Vec<
        Delivery<Interrupt<A>>,
    >)
        ensures
            exists|order: Seq<u64>|
                {
                    &&& order.no_duplicates()
                    &&& order.to_set() == ids@.intersect(records@.dom())
                    &&& deliveries@ == #[trigger] interruptions_of(records@, order)
                },
    {
        let ghost all = spec_hash_keys_iter(ids).remaining();
        let ghost mut order: Seq<u64> = Seq::empty();
        let mut deliveries: Vec<Delivery<Interrupt<A>>> = Vec::new();
        for id in it: ids.iter()
            invariant
                it.seq() == all,
                all.no_duplicates(),
                order.no_duplicates(),
                forall|key: u64| #[trigger]
                    order.contains(key) <==> all.take(it.index()).contains(&key)
                        && records@.contains_key(key),
                deliveries@ == interruptions_of(records@, order),
        {
            let ghost seen = it.index();
            proof {
                lemma_take_next(all, seen);
            }
            if let Some(record) = records.get(id) {
                deliveries.push(record.notifier.notify(Interrupt::new()));
                proof {
                    lemma_push_new(order, *id);
                    order = order.push(*id);
                }
            }
        }
        proof {
            assert(all.take(all.len() as int) == all);
            assert forall|key: u64| order.to_set().contains(key) == ids@.intersect(
                records@.dom(),
            ).contains(key) by {
                assert(order.contains(key) == order.to_set().contains(key));
                lemma_unref_contains(all, key);
            }
            assert(order.to_set() =~= ids@.intersect(records@.dom()));
        }
        deliveries
    }

    /// Starts the termination: asks the groups whose turn it is to finish.
    pub fn start_termination(&mut self) -> (deliveries: Vec<Delivery<Interrupt<A>>>)
        requires
            old(self).wf(),
        ensures
            final(self).wf(),
            old(self)@.terminates_to(final(self)@, deliveries@),
            old(self)@.follows(TrackerCall::Start, final(self)@, deliveries@),
    {
        self.try_terminate_next()
    }
}

} // verus!
