//! What holds of a tracker over all the calls since it was made.

use vstd::prelude::*;

use crate::handlers::Operation;
use crate::ids::Id;
use crate::lifecycle::laws::{
    is_child_of, is_interruption, law_asked_children_are_told, law_children_are_interrupted_once,
    law_deliveries_are_for_asked_children, law_forgetting_touches_one_child,
    law_late_children_are_told, law_priorities_are_respected, law_removal_forgets_the_child,
    law_removal_of_others_changes_nothing, law_termination_is_not_undone,
    law_termination_waits_for_somebody,
};
use crate::lifecycle::messages::Interrupt;
use crate::lifecycle::notifier::{Delivery, LifecycleNotifier, NotifierKind};
use crate::lifecycle::tracker::{interruptions_of, TrackerView};
use crate::runtime::Actor;

verus! {

/// A call of a method that changes a tracker.
pub enum TrackerCall<A: Actor> {
    /// `insert` of the actor with this id.
    Insert { id: Id, group: A::GroupBy },
    /// `insert_task` of the task with this id.
    InsertTask { id: Id, group: A::GroupBy },
    /// `remove`.
    Remove { id: Id },
    /// `prioritize_termination_by`.
    Prioritize { groups: Seq<A::GroupBy> },
    /// `start_termination`.
    Start,
}

impl<A: Actor> TrackerCall<A> {
    /// The call adds a child.
    pub open spec fn is_insertion(self) -> bool {
        self is Insert || self is InsertTask
    }

    /// The id of the child that the call adds.
    pub open spec fn inserted_id(self) -> Id
        recommends
            self.is_insertion(),
    {
        match self {
            TrackerCall::Insert { id, .. } => id,
            TrackerCall::InsertTask { id, .. } => id,
            _ => arbitrary(),
        }
    }

    /// The group of the child that the call adds.
    pub open spec fn inserted_group(self) -> A::GroupBy
        recommends
            self.is_insertion(),
    {
        match self {
            TrackerCall::Insert { group, .. } => group,
            TrackerCall::InsertTask { group, .. } => group,
            _ => arbitrary(),
        }
    }

    /// How the child that the call adds learns that it has to finish.
    pub open spec fn inserted_kind(self) -> NotifierKind
        recommends
            self.is_insertion(),
    {
        match self {
            TrackerCall::Insert { id, .. } => NotifierKind::Once {
                to: id,
                operation: Operation::Forward,
            },
            TrackerCall::InsertTask { id, .. } => NotifierKind::Stop { task: id },
            _ => NotifierKind::Ignore,
        }
    }

    /// The call adds a child with this number.
    pub open spec fn inserts(self, key: u64) -> bool {
        self.is_insertion() && self.inserted_id().serial() == key
    }

    /// The call adds a child to the group.
    pub open spec fn inserts_into(self, name: A::GroupBy) -> bool {
        self.is_insertion() && self.inserted_group() == name
    }

    /// The call removes the child with this very id.
    pub open spec fn removes(self, child: Id) -> bool {
        self matches TrackerCall::Remove { id } && id.mark() == child.mark() && id.serial()
            == child.serial() && id.name() == child.name()
    }
}

impl<A: Actor> TrackerView<A> {
    /// A new tracker.
    pub open spec fn initial() -> Self {
        TrackerView {
            terminating: false,
            prioritized: Seq::empty(),
            stages: Map::empty(),
            records: Map::empty(),
        }
    }

    /// The tracker before a call goes on with the termination: a removed child
    /// is forgotten first.
    pub open spec fn prepared(self, call: TrackerCall<A>) -> Self {
        match call {
            TrackerCall::Remove { id } => self.without(id),
            _ => self,
        }
    }

    /// A call may bring the tracker to the next state and ask for the
    /// deliveries.
    pub open spec fn follows(
        self,
        call: TrackerCall<A>,
        next: Self,
        deliveries: Seq<Delivery<Interrupt<A>>>,
    ) -> bool {
        match call {
            TrackerCall::Insert { id, group } | TrackerCall::InsertTask { id, group } => {
                let notifier = LifecycleNotifier::of_kind(call.inserted_kind());
                &&& next == self.with_child(id.serial(), group, notifier)
                &&& deliveries == if self.stage_of(group).terminating {
                    seq![next.interruption_of(id.serial())]
                } else {
                    Seq::empty()
                }
            },
            TrackerCall::Remove { id } => if self.terminating {
                self.without(id).terminates_to(next, deliveries)
            } else {
                next == self.without(id) && deliveries.len() == 0
            },
            TrackerCall::Prioritize { groups } => {
                next == (TrackerView { prioritized: groups, ..self }) && deliveries.len() == 0
            },
            TrackerCall::Start => self.terminates_to(next, deliveries),
        }
    }

    /// The child has no interruption to come: it is not known, or was told.
    pub open spec fn is_quiet(self, key: u64) -> bool {
        !self.records.contains_key(key) || self.told().contains(key)
    }
}

/// The delivery is for the child with this number.
pub open spec fn reaches<P>(delivery: Delivery<P>, key: u64) -> bool {
    match delivery {
        Delivery::Nothing => false,
        Delivery::Message { to, .. } => to.serial() == key,
        Delivery::Stop { task } => task.serial() == key,
    }
}

/// The calls of a tracker since it was made, with its states before and after
/// each of them, and with the deliveries that each has asked for.
pub struct History<A: Actor> {
    pub views: Seq<TrackerView<A>>,
    pub calls: Seq<TrackerCall<A>>,
    pub deliveries: Seq<Seq<Delivery<Interrupt<A>>>>,
}

impl<A: Actor> History<A> {
    /// Every call has done what its method does.
    pub open spec fn is_valid(self) -> bool {
        &&& self.views.len() == self.calls.len() + 1
        &&& self.deliveries.len() == self.calls.len()
        &&& self.views[0] == TrackerView::<A>::initial()
        &&& forall|i: int|
            0 <= i < self.calls.len() ==> self.views[i].follows(
                #[trigger] self.calls[i],
                self.views[i + 1],
                self.deliveries[i],
            )
    }

    /// No child was added while the tracker knew it.
    pub open spec fn adds_new_children(self) -> bool {
        forall|i: int|
            0 <= i < self.calls.len() && (#[trigger] self.calls[i]).is_insertion()
                ==> !self.views[i].records.contains_key(self.calls[i].inserted_id().serial())
    }

    /// A call after the one and up to the other adds a child with this number.
    pub open spec fn inserts_between(self, after: int, last: int, key: u64) -> bool {
        exists|k: int| after < k <= last && #[trigger] self.calls[k].inserts(key)
    }
}

/// Every child stands in exactly one stage, in every state.
proof fn lemma_is_exact<A: Actor>(history: History<A>, n: int)
    requires
        history.is_valid(),
        history.adds_new_children(),
        0 <= n <= history.calls.len(),
    ensures
        history.views[n].is_exact(),
    decreases n,
{
    if n > 0 {
        lemma_is_exact(history, n - 1);
        let view = history.views[n - 1];
        let next = history.views[n];
        let deliveries = history.deliveries[n - 1];
        match history.calls[n - 1] {
            TrackerCall::Insert { id, group } | TrackerCall::InsertTask { id, group } => {
                let notifier = LifecycleNotifier::of_kind(history.calls[n - 1].inserted_kind());
                law_late_children_are_told(view, id.serial(), group, notifier);
            },
            TrackerCall::Remove { id } => {
                law_forgetting_touches_one_child(view, id.serial());
                if view.terminating {
                    law_termination_is_not_undone(view.without(id), next, deliveries);
                }
            },
            TrackerCall::Prioritize { groups } => {
                assert(next.records == view.records && next.stages == view.stages);
            },
            TrackerCall::Start => {
                law_termination_is_not_undone(view, next, deliveries);
            },
        }
    }
}

/// A step of the termination reaches only children that it tells, each once.
proof fn lemma_termination_reaches<A: Actor>(
    view: TrackerView<A>,
    next: TrackerView<A>,
    deliveries: Seq<Delivery<Interrupt<A>>>,
    key: u64,
    p: int,
)
    requires
        view.is_exact(),
        view.terminates_to(next, deliveries),
        0 <= p < deliveries.len(),
        reaches(deliveries[p], key),
    ensures
        view.records.contains_key(key),
        !view.told().contains(key),
        next.told().contains(key),
        forall|q: int|
            0 <= q < deliveries.len() && reaches(#[trigger] deliveries[q], key) ==> q == p,
{
    law_children_are_interrupted_once(view, next, deliveries);
    law_termination_is_not_undone(view, next, deliveries);
    let keys = next.told().difference(view.told());
    let order = choose|order: Seq<u64>|
        {
            &&& order.no_duplicates()
            &&& order.to_set() == keys
            &&& deliveries == #[trigger] interruptions_of(view.records, order)
        };
    assert forall|q: int| 0 <= q < deliveries.len() implies reaches(
        #[trigger] deliveries[q],
        order[q],
    ) && keys.contains(order[q]) by {
        assert(order.to_set().contains(order[q]));
        assert(view.records.contains_key(order[q]));
    }
    assert(reaches(deliveries[p], order[p]));
    assert(order[p] == key);
    assert forall|q: int|
        0 <= q < deliveries.len() && reaches(#[trigger] deliveries[q], key) implies q == p by {
        assert(reaches(deliveries[q], order[q]));
        assert(order[q] == order[p]);
    }
}

/// A child without an interruption to come stays so in a step of the
/// termination, which does not reach it.
proof fn lemma_termination_is_quiet<A: Actor>(
    view: TrackerView<A>,
    next: TrackerView<A>,
    deliveries: Seq<Delivery<Interrupt<A>>>,
    key: u64,
)
    requires
        view.is_exact(),
        view.terminates_to(next, deliveries),
        view.is_quiet(key),
    ensures
        next.is_quiet(key),
        forall|p: int| 0 <= p < deliveries.len() ==> !reaches(#[trigger] deliveries[p], key),
{
    law_children_are_interrupted_once(view, next, deliveries);
    law_termination_is_not_undone(view, next, deliveries);
    assert forall|p: int| 0 <= p < deliveries.len() implies !reaches(
        #[trigger] deliveries[p],
        key,
    ) by {
        if reaches(deliveries[p], key) {
            lemma_termination_reaches(view, next, deliveries, key, p);
        }
    }
}

/// A call that does not add the child leaves it without an interruption to
/// come, if it has none after what the call prepares.
proof fn lemma_quiet_step<A: Actor>(history: History<A>, i: int, key: u64)
    requires
        history.is_valid(),
        history.adds_new_children(),
        0 <= i < history.calls.len(),
        !history.calls[i].inserts(key),
        history.views[i].prepared(history.calls[i]).is_quiet(key),
    ensures
        history.views[i + 1].is_quiet(key),
        forall|p: int|
            0 <= p < history.deliveries[i].len() ==> !reaches(
                #[trigger] history.deliveries[i][p],
                key,
            ),
{
    lemma_is_exact(history, i);
    let view = history.views[i];
    let next = history.views[i + 1];
    let deliveries = history.deliveries[i];
    match history.calls[i] {
        TrackerCall::Insert { id, group } | TrackerCall::InsertTask { id, group } => {
            let notifier = LifecycleNotifier::of_kind(history.calls[i].inserted_kind());
            law_late_children_are_told(view, id.serial(), group, notifier);
        },
        TrackerCall::Remove { id } => {
            law_forgetting_touches_one_child(view, id.serial());
            if view.terminating {
                lemma_termination_is_quiet(view.without(id), next, deliveries, key);
            }
        },
        TrackerCall::Prioritize { groups } => {
            assert(next.told() =~= view.told());
        },
        TrackerCall::Start => {
            lemma_termination_is_quiet(view, next, deliveries, key);
        },
    }
}

/// What a call prepares brings no interruption to come.
proof fn lemma_prepared_is_quiet<A: Actor>(view: TrackerView<A>, call: TrackerCall<A>, key: u64)
    requires
        view.is_exact(),
        view.is_quiet(key),
    ensures
        view.prepared(call).is_quiet(key),
{
    if let TrackerCall::Remove { id } = call {
        law_forgetting_touches_one_child(view, id.serial());
    }
}

/// A child without an interruption to come has none until it is added.
proof fn lemma_quiet<A: Actor>(history: History<A>, key: u64, from: int, to: int)
    requires
        history.is_valid(),
        history.adds_new_children(),
        0 <= from <= to <= history.calls.len(),
        history.views[from].is_quiet(key),
        !history.inserts_between(from - 1, to - 1, key),
    ensures
        history.views[to].is_quiet(key),
    decreases to - from,
{
    if from < to {
        assert(!history.calls[from].inserts(key));
        lemma_is_exact(history, from);
        lemma_prepared_is_quiet(history.views[from], history.calls[from], key);
        lemma_quiet_step(history, from, key);
        assert(!history.inserts_between(from, to - 1, key));
        lemma_quiet(history, key, from + 1, to);
    }
}

/// Without another insertion, no delivery reaches a child that has no
/// interruption to come.
proof fn lemma_quiet_child_is_not_reached<A: Actor>(
    history: History<A>,
    key: u64,
    from: int,
    j: int,
    q: int,
)
    requires
        history.is_valid(),
        history.adds_new_children(),
        0 <= from <= j < history.calls.len(),
        history.views[from].is_quiet(key),
        0 <= q < history.deliveries[j].len(),
        reaches(history.deliveries[j][q], key),
    ensures
        history.inserts_between(from - 1, j, key),
{
    if !history.inserts_between(from - 1, j, key) {
        assert(!history.inserts_between(from - 1, j - 1, key));
        assert(!history.calls[j].inserts(key));
        lemma_quiet(history, key, from, j);
        lemma_is_exact(history, j);
        lemma_prepared_is_quiet(history.views[j], history.calls[j], key);
        lemma_quiet_step(history, j, key);
    }
}

/// A delivery that reaches a child leaves it told, and is the only one of its
/// call.
proof fn lemma_reached_child_is_told<A: Actor>(history: History<A>, key: u64, i: int, p: int)
    requires
        history.is_valid(),
        history.adds_new_children(),
        0 <= i < history.calls.len(),
        0 <= p < history.deliveries[i].len(),
        reaches(history.deliveries[i][p], key),
    ensures
        history.views[i + 1].told().contains(key),
        forall|q: int|
            0 <= q < history.deliveries[i].len() && reaches(
                #[trigger] history.deliveries[i][q],
                key,
            ) ==> q == p,
{
    lemma_is_exact(history, i);
    let view = history.views[i];
    let next = history.views[i + 1];
    let deliveries = history.deliveries[i];
    match history.calls[i] {
        TrackerCall::Insert { id, group } | TrackerCall::InsertTask { id, group } => {
            let notifier = LifecycleNotifier::of_kind(history.calls[i].inserted_kind());
            law_late_children_are_told(view, id.serial(), group, notifier);
        },
        TrackerCall::Remove { id } => {
            law_forgetting_touches_one_child(view, id.serial());
            lemma_termination_reaches(view.without(id), next, deliveries, key, p);
        },
        TrackerCall::Prioritize { groups } => {},
        TrackerCall::Start => {
            lemma_termination_reaches(view, next, deliveries, key, p);
        },
    }
}

/// Every child is interrupted at most once from its insertion on: between two
/// deliveries for it, it was added anew.
pub proof fn law_one_interruption_per_insertion<A: Actor>(
    history: History<A>,
    key: u64,
    i: int,
    p: int,
    j: int,
    q: int,
)
    requires
        history.is_valid(),
        history.adds_new_children(),
        0 <= i <= j < history.calls.len(),
        0 <= p < history.deliveries[i].len(),
        0 <= q < history.deliveries[j].len(),
        reaches(history.deliveries[i][p], key),
        reaches(history.deliveries[j][q], key),
        i != j || p != q,
    ensures
        history.inserts_between(i, j, key),
{
    lemma_reached_child_is_told(history, key, i, p);
    if i < j {
        lemma_quiet_child_is_not_reached(history, key, i + 1, j, q);
    }
}

/// A child is not interrupted after its removal, unless it was added anew.
pub proof fn law_removed_children_are_left_alone<A: Actor>(
    history: History<A>,
    id: Id,
    r: int,
    j: int,
    q: int,
)
    requires
        history.is_valid(),
        history.adds_new_children(),
        0 <= r <= j < history.calls.len(),
        history.calls[r] == (TrackerCall::<A>::Remove { id }),
        history.views[r].has_place_for(id),
        0 <= q < history.deliveries[j].len(),
        reaches(history.deliveries[j][q], id.serial()),
    ensures
        history.inserts_between(r, j, id.serial()),
{
    lemma_is_exact(history, r);
    lemma_quiet_step(history, r, id.serial());
    if r < j {
        lemma_quiet_child_is_not_reached(history, id.serial(), r + 1, j, q);
    }
}

/// Nobody is interrupted who was not added before.
pub proof fn law_only_children_are_interrupted<A: Actor>(
    history: History<A>,
    key: u64,
    j: int,
    q: int,
)
    requires
        history.is_valid(),
        history.adds_new_children(),
        0 <= j < history.calls.len(),
        0 <= q < history.deliveries[j].len(),
        reaches(history.deliveries[j][q], key),
    ensures
        history.inserts_between(-1, j, key),
{
    lemma_quiet_child_is_not_reached(history, key, 0, j, q);
}

/// A child of a group is interrupted by `start_termination` or `remove` only
/// when no group that is prioritized before its own has a child. A group that is
/// not prioritized comes after all that are.
pub proof fn law_interruptions_respect_priorities<A: Actor>(
    history: History<A>,
    key: u64,
    i: int,
    p: int,
    place: int,
)
    requires
        history.is_valid(),
        history.adds_new_children(),
        0 <= i < history.calls.len(),
        !history.calls[i].is_insertion(),
        0 <= p < history.deliveries[i].len(),
        reaches(history.deliveries[i][p], key),
        ({
            let view = history.views[i].prepared(history.calls[i]);
            &&& 0 <= place < view.prioritized.len()
            &&& forall|k: int|
                0 <= k <= place ==> view.prioritized[k] != view.records[key].group
        }),
    ensures
        ({
            let view = history.views[i].prepared(history.calls[i]);
            view.stage_of(view.prioritized[place]).ids.is_empty()
        }),
{
    lemma_is_exact(history, i);
    let view = history.views[i].prepared(history.calls[i]);
    let next = history.views[i + 1];
    let deliveries = history.deliveries[i];
    if let TrackerCall::Remove { id } = history.calls[i] {
        law_forgetting_touches_one_child(history.views[i], id.serial());
    }
    lemma_termination_reaches(view, next, deliveries, key, p);
    law_termination_is_not_undone(view, next, deliveries);
    let group = view.records[key].group;
    assert(view.is_newly_asked(next, group));
    law_priorities_are_respected(view, next, deliveries, group, place);
}

/// A tracker is terminating exactly when its termination was started: no other
/// call changes that, and nothing takes it back.
pub proof fn law_terminating_means_started<A: Actor>(history: History<A>, n: int)
    requires
        history.is_valid(),
        0 <= n <= history.calls.len(),
    ensures
        history.views[n].terminating <==> exists|i: int|
            0 <= i < n && #[trigger] history.calls[i] is Start,
    decreases n,
{
    if n > 0 {
        law_terminating_means_started(history, n - 1);
        assert(history.views[n - 1].follows(
            history.calls[n - 1],
            history.views[n],
            history.deliveries[n - 1],
        ));
        if history.views[n - 1].terminating {
            let i = choose|i: int| 0 <= i < n - 1 && #[trigger] history.calls[i] is Start;
            assert(0 <= i < n && history.calls[i] is Start);
        }
        if history.calls[n - 1] is Start {
            assert(0 <= n - 1 < n && history.calls[n - 1] is Start);
        }
    }
}

/// A tracker knows exactly the groups that children were added to.
pub proof fn law_groups_come_from_insertions<A: Actor>(
    history: History<A>,
    n: int,
    group: A::GroupBy,
)
    requires
        history.is_valid(),
        0 <= n <= history.calls.len(),
    ensures
        history.views[n].stages.contains_key(group) <==> exists|i: int|
            0 <= i < n && #[trigger] history.calls[i].inserts_into(group),
    decreases n,
{
    if n > 0 {
        law_groups_come_from_insertions(history, n - 1, group);
        let view = history.views[n - 1];
        let call = history.calls[n - 1];
        assert(view.follows(call, history.views[n], history.deliveries[n - 1]));
        assert(history.views[n].stages.contains_key(group) <==> view.stages.contains_key(group)
            || call.inserts_into(group));
        if view.stages.contains_key(group) {
            let i = choose|i: int|
                0 <= i < n - 1 && #[trigger] history.calls[i].inserts_into(group);
            assert(0 <= i < n && history.calls[i].inserts_into(group));
        }
        if call.inserts_into(group) {
            assert(0 <= n - 1 < n && history.calls[n - 1].inserts_into(group));
        }
    }
}

/// Before the termination is started, no group was asked to finish.
pub proof fn law_no_group_is_asked_before_the_start<A: Actor>(
    history: History<A>,
    n: int,
    group: A::GroupBy,
)
    requires
        history.is_valid(),
        0 <= n <= history.calls.len(),
        !history.views[n].terminating,
        history.views[n].stages.contains_key(group),
    ensures
        !history.views[n].stages[group].terminating,
    decreases n,
{
    if n > 0 {
        let view = history.views[n - 1];
        assert(view.follows(history.calls[n - 1], history.views[n], history.deliveries[n - 1]));
        assert(!view.terminating);
        if view.stages.contains_key(group) {
            law_no_group_is_asked_before_the_start(history, n - 1, group);
        }
    }
}

/// Before the termination is started, a tracker is finished exactly when no
/// child was ever added to it.
pub proof fn law_finished_before_the_start_means_unused<A: Actor>(history: History<A>, n: int)
    requires
        history.is_valid(),
        0 <= n <= history.calls.len(),
        !history.views[n].terminating,
    ensures
        history.views[n].is_finished() <==> forall|i: int|
            0 <= i < n ==> !(#[trigger] history.calls[i]).is_insertion(),
{
    let view = history.views[n];
    if view.is_finished() {
        assert forall|i: int| 0 <= i < n implies !(#[trigger] history.calls[i]).is_insertion() by {
            if history.calls[i].is_insertion() {
                let group = history.calls[i].inserted_group();
                assert(history.calls[i].inserts_into(group));
                law_groups_come_from_insertions(history, n, group);
                law_no_group_is_asked_before_the_start(history, n, group);
            }
        }
    }
    if forall|i: int| 0 <= i < n ==> !(#[trigger] history.calls[i]).is_insertion() {
        assert forall|group: A::GroupBy| #[trigger]
            view.stages.contains_key(group) implies view.stages[group].is_finished() by {
            law_groups_come_from_insertions(history, n, group);
        }
    }
}

/// A finished tracker has no children, so it is not finished right after an
/// insertion.
pub proof fn law_finished_means_no_children<A: Actor>(history: History<A>, n: int)
    requires
        history.is_valid(),
        history.adds_new_children(),
        0 <= n <= history.calls.len(),
        history.views[n].is_finished(),
    ensures
        history.views[n].records.dom().is_empty(),
        n > 0 ==> !history.calls[n - 1].is_insertion(),
{
    lemma_is_exact(history, n);
    let view = history.views[n];
    assert forall|key: u64| !view.records.contains_key(key) by {
        if view.records.contains_key(key) {
            let group = view.records[key].group;
            assert(view.stages.contains_key(group));
            assert(view.stages[group].ids.contains(key));
        }
    }
    assert(view.records.dom() =~= Set::empty());
    if n > 0 {
        if history.calls[n - 1].is_insertion() {
            assert(view.records.contains_key(history.calls[n - 1].inserted_id().serial()));
        }
    }
}

/// The insertion stands: it is one of the first calls, and none of them removes
/// its child afterwards.
pub open spec fn is_open_insertion<A: Actor>(history: History<A>, n: int, i: int) -> bool {
    &&& 0 <= i < n
    &&& history.calls[i].is_insertion()
    &&& forall|k: int|
        i < k < n ==> !(#[trigger] history.calls[k]).removes(history.calls[i].inserted_id())
}

/// The record that a standing insertion has made is there.
proof fn lemma_open_insertion_has_a_record<A: Actor>(history: History<A>, n: int, i: int)
    requires
        history.is_valid(),
        history.adds_new_children(),
        0 <= n <= history.calls.len(),
        is_open_insertion(history, n, i),
    ensures
        ({
            let call = history.calls[i];
            let records = history.views[n].records;
            &&& records.contains_key(call.inserted_id().serial())
            &&& records[call.inserted_id().serial()].group == call.inserted_group()
            &&& records[call.inserted_id().serial()].notifier.kind == call.inserted_kind()
        }),
    decreases n,
{
    let last = history.calls[n - 1];
    let view = history.views[n - 1];
    assert(view.follows(last, history.views[n], history.deliveries[n - 1]));
    if i < n - 1 {
        assert(is_open_insertion(history, n - 1, i));
        lemma_open_insertion_has_a_record(history, n - 1, i);
        lemma_is_exact(history, n - 1);
        if let TrackerCall::Remove { id } = last {
            assert(!last.removes(history.calls[i].inserted_id()));
            if is_child_of(view, id) {
                law_removal_forgets_the_child(view, id);
                assert(id.serial() != history.calls[i].inserted_id().serial());
            } else {
                law_removal_of_others_changes_nothing(view, id);
            }
        }
    }
}

/// Every record comes from a standing insertion.
proof fn lemma_record_has_an_open_insertion<A: Actor>(history: History<A>, n: int, key: u64) -> (i:
    int)
    requires
        history.is_valid(),
        history.adds_new_children(),
        0 <= n <= history.calls.len(),
        history.views[n].records.contains_key(key),
    ensures
        is_open_insertion(history, n, i),
        history.calls[i].inserts(key),
    decreases n,
{
    let last = history.calls[n - 1];
    let view = history.views[n - 1];
    assert(view.follows(last, history.views[n], history.deliveries[n - 1]));
    if last.inserts(key) {
        n - 1
    } else {
        lemma_is_exact(history, n - 1);
        if let TrackerCall::Remove { id } = last {
            if is_child_of(view, id) {
                law_removal_forgets_the_child(view, id);
            } else {
                law_removal_of_others_changes_nothing(view, id);
            }
        }
        assert(view.records.contains_key(key));
        let i = lemma_record_has_an_open_insertion(history, n - 1, key);
        lemma_open_insertion_has_a_record(history, n - 1, i);
        if last.removes(history.calls[i].inserted_id()) {
            let id = last->Remove_id;
            assert(is_child_of(view, id));
        }
        assert forall|k: int| i < k < n implies !(#[trigger] history.calls[k]).removes(
            history.calls[i].inserted_id(),
        ) by {}
        i
    }
}

/// A tracker has a child exactly when it was added and not removed since. Its
/// record holds the group that it was added to and how it learns that it has to
/// finish: an actor as an actor, a task as a task.
pub proof fn law_children_are_the_standing_insertions<A: Actor>(
    history: History<A>,
    n: int,
    key: u64,
)
    requires
        history.is_valid(),
        history.adds_new_children(),
        0 <= n <= history.calls.len(),
    ensures
        history.views[n].records.contains_key(key) <==> exists|i: int|
            is_open_insertion(history, n, i) && #[trigger] history.calls[i].inserts(key),
        forall|i: int|
            is_open_insertion(history, n, i) && #[trigger] history.calls[i].inserts(key) ==> {
                &&& history.views[n].records[key].group == history.calls[i].inserted_group()
                &&& history.views[n].records[key].notifier.kind
                    == history.calls[i].inserted_kind()
            },
{
    if history.views[n].records.contains_key(key) {
        let i = lemma_record_has_an_open_insertion(history, n, key);
        assert(is_open_insertion(history, n, i) && history.calls[i].inserts(key));
    }
    assert forall|i: int|
        is_open_insertion(history, n, i) && #[trigger] history.calls[i].inserts(key) implies {
        &&& history.views[n].records.contains_key(key)
        &&& history.views[n].records[key].group == history.calls[i].inserted_group()
        &&& history.views[n].records[key].notifier.kind == history.calls[i].inserted_kind()
    } by {
        lemma_open_insertion_has_a_record(history, n, i);
    }
}

/// Every group holds exactly the children that were added to it and not removed
/// since.
pub proof fn law_groups_hold_the_standing_insertions<A: Actor>(
    history: History<A>,
    n: int,
    group: A::GroupBy,
    key: u64,
)
    requires
        history.is_valid(),
        history.adds_new_children(),
        0 <= n <= history.calls.len(),
        history.views[n].stages.contains_key(group),
    ensures
        history.views[n].stages[group].ids.contains(key) <==> exists|i: int|
            is_open_insertion(history, n, i) && #[trigger] history.calls[i].inserts(key)
                && history.calls[i].inserted_group() == group,
{
    lemma_is_exact(history, n);
    law_children_are_the_standing_insertions(history, n, key);
    let view = history.views[n];
    if view.stages[group].ids.contains(key) {
        assert(view.records.contains_key(key));
        let i = choose|i: int|
            is_open_insertion(history, n, i) && #[trigger] history.calls[i].inserts(key);
        assert(history.calls[i].inserts(key));
    }
}

/// Once the termination was started and every child was removed, the tracker is
/// finished: every group was asked to finish and is empty.
pub proof fn law_all_removed_means_finished<A: Actor>(history: History<A>, n: int)
    requires
        history.is_valid(),
        history.adds_new_children(),
        0 <= n <= history.calls.len(),
        exists|s: int| 0 <= s < n && #[trigger] history.calls[s] is Start,
        forall|i: int|
            0 <= i < n && (#[trigger] history.calls[i]).is_insertion() ==> exists|k: int|
                i < k < n && (#[trigger] history.calls[k]).removes(history.calls[i].inserted_id()),
    ensures
        history.views[n].is_finished(),
        forall|group: A::GroupBy| #[trigger]
            history.views[n].stages.contains_key(group) ==> {
                &&& history.views[n].stages[group].terminating
                &&& forall|key: u64| !history.views[n].stages[group].ids.contains(key)
            },
{
    law_terminating_means_started(history, n);
    assert forall|key: u64| !history.views[n].records.contains_key(key) by {
        if history.views[n].records.contains_key(key) {
            let i = lemma_record_has_an_open_insertion(history, n, key);
            assert(history.calls[i].is_insertion());
        }
    }
    lemma_empty_means_finished(history, n);
    assert forall|group: A::GroupBy| #[trigger]
        history.views[n].stages.contains_key(group) implies {
        &&& history.views[n].stages[group].terminating
        &&& forall|key: u64| !history.views[n].stages[group].ids.contains(key)
    } by {
        assert(history.views[n].stages[group].is_finished());
    }
}

/// A terminating tracker without children is finished.
proof fn lemma_empty_means_finished<A: Actor>(history: History<A>, n: int)
    requires
        history.is_valid(),
        history.adds_new_children(),
        0 <= n <= history.calls.len(),
        history.views[n].terminating,
        forall|key: u64| !history.views[n].records.contains_key(key),
    ensures
        history.views[n].is_finished(),
    decreases n,
{
    let next = history.views[n];
    let view = history.views[n - 1];
    let call = history.calls[n - 1];
    let deliveries = history.deliveries[n - 1];
    assert(n > 0);
    assert(view.follows(call, next, deliveries));
    lemma_is_exact(history, n - 1);
    lemma_is_exact(history, n);
    if call.is_insertion() {
        assert(next.records.contains_key(call.inserted_id().serial()));
    } else if call is Prioritize {
        assert(view.records == next.records && view.stages == next.stages);
        lemma_empty_means_finished(history, n - 1);
        assert forall|group: A::GroupBy| #[trigger]
            next.stages.contains_key(group) implies next.stages[group].is_finished() by {
            assert(view.stages.contains_key(group));
        }
    } else {
        let base = view.prepared(call);
        if let TrackerCall::Remove { id } = call {
            law_forgetting_touches_one_child(view, id.serial());
        }
        law_termination_is_not_undone(base, next, deliveries);
        assert forall|group: A::GroupBy| #[trigger]
            base.stages.contains_key(group) implies base.stages[group].ids.is_empty() by {
            assert(base.is_exact());
            assert forall|key: u64| !base.stages[group].ids.contains(key) by {
                assert(!next.records.contains_key(key));
            }
            assert(base.stages[group].ids =~= Set::empty());
        }
        law_termination_waits_for_somebody(base, next, deliveries);
    }
}

/// Every delivery that reaches a child is of the kind of the call that has added
/// it: an actor gets the interruption as a message that is only forwarded, and a
/// task gets its stop signal.
pub proof fn law_deliveries_are_of_the_kind_of_the_insertion<A: Actor>(
    history: History<A>,
    key: u64,
    j: int,
    q: int,
)
    requires
        history.is_valid(),
        history.adds_new_children(),
        0 <= j < history.calls.len(),
        0 <= q < history.deliveries[j].len(),
        reaches(history.deliveries[j][q], key),
    ensures
        exists|i: int|
            {
                &&& is_open_insertion(history, j + 1, i)
                &&& #[trigger] history.calls[i].inserts(key)
                &&& match history.calls[i] {
                    TrackerCall::Insert { id, .. } => history.deliveries[j][q]
                        == (Delivery::Message {
                        to: id,
                        operation: Operation::Forward,
                        message: Interrupt::<A>::message(),
                    }),
                    TrackerCall::InsertTask { id, .. } => history.deliveries[j][q] == (Delivery::<
                        Interrupt<A>,
                    >::Stop { task: id }),
                    _ => false,
                }
            },
{
    lemma_reached_child_is_told(history, key, j, q);
    let next = history.views[j + 1];
    assert(next.records.contains_key(key));
    let i = lemma_record_has_an_open_insertion(history, j + 1, key);
    lemma_open_insertion_has_a_record(history, j + 1, i);
    lemma_delivery_fits_the_record(history, key, j, q);
    assert(history.calls[i].inserts(key));
}

/// A delivery that reaches a child is the one of its record.
proof fn lemma_delivery_fits_the_record<A: Actor>(history: History<A>, key: u64, j: int, q: int)
    requires
        history.is_valid(),
        history.adds_new_children(),
        0 <= j < history.calls.len(),
        0 <= q < history.deliveries[j].len(),
        reaches(history.deliveries[j][q], key),
    ensures
        is_interruption(
            history.views[j + 1].records[key].notifier.kind,
            history.deliveries[j][q],
        ),
{
    lemma_is_exact(history, j);
    let view = history.views[j];
    let next = history.views[j + 1];
    let deliveries = history.deliveries[j];
    let call = history.calls[j];
    assert(view.follows(call, next, deliveries));
    if !call.is_insertion() {
        let base = view.prepared(call);
        if let TrackerCall::Remove { id } = call {
            law_forgetting_touches_one_child(view, id.serial());
        }
        law_termination_is_not_undone(base, next, deliveries);
        law_deliveries_are_for_asked_children(base, next, deliveries, q);
        let other = choose|other: u64|
            {
                &&& #[trigger] base.records.contains_key(other)
                &&& !base.stages[base.records[other].group].terminating
                &&& next.stages[base.records[other].group].terminating
                &&& is_interruption(base.records[other].notifier.kind, deliveries[q])
            };
        assert(base.records.contains_key(other));
        assert(other == key);
    }
}

/// Every child of a group that a call asks to finish gets a delivery of its kind
/// by this call.
pub proof fn law_asked_groups_get_their_deliveries<A: Actor>(
    history: History<A>,
    j: int,
    i: int,
)
    requires
        history.is_valid(),
        history.adds_new_children(),
        0 <= j < history.calls.len(),
        !history.calls[j].is_insertion(),
        is_open_insertion(history, j + 1, i),
        ({
            let group = history.calls[i].inserted_group();
            &&& !history.views[j].stages[group].terminating
            &&& history.views[j + 1].stages[group].terminating
        }),
    ensures
        exists|q: int|
            0 <= q < history.deliveries[j].len() && #[trigger] history.deliveries[j][q]
                == match history.calls[i] {
                TrackerCall::Insert { id, .. } => Delivery::Message {
                    to: id,
                    operation: Operation::Forward,
                    message: Interrupt::<A>::message(),
                },
                TrackerCall::InsertTask { id, .. } => Delivery::Stop { task: id },
                _ => Delivery::Nothing,
            },
{
    lemma_is_exact(history, j);
    lemma_is_exact(history, j + 1);
    lemma_open_insertion_has_a_record(history, j + 1, i);
    let key = history.calls[i].inserted_id().serial();
    let group = history.calls[i].inserted_group();
    let view = history.views[j];
    let next = history.views[j + 1];
    let deliveries = history.deliveries[j];
    let call = history.calls[j];
    assert(view.follows(call, next, deliveries));
    assert(next.stages.contains_key(group));
    let base = view.prepared(call);
    if let TrackerCall::Remove { id } = call {
        law_forgetting_touches_one_child(view, id.serial());
        assert(view.stages.contains_key(group));
    }
    law_termination_is_not_undone(base, next, deliveries);
    law_asked_children_are_told(base, next, deliveries, key);
    let q = choose|q: int|
        0 <= q < deliveries.len() && is_interruption(
            base.records[key].notifier.kind,
            #[trigger] deliveries[q],
        );
    assert(history.deliveries[j][q] == deliveries[q]);
}

} // verus!
