//! What holds of every step of the termination of children.

use vstd::prelude::*;

use crate::ids::Id;
use crate::lifecycle::messages::Interrupt;
use crate::lifecycle::notifier::{Delivery, LifecycleNotifier, NotifierKind};
use crate::lifecycle::tracker::{interruptions_of, Record, TrackerView};
use crate::runtime::Actor;

verus! {

impl<A: Actor> TrackerView<A> {
    /// Every child stands in the stage of its own group, and in no other.
    ///
    /// A child that is added a second time, to another group, breaks this: its
    /// first stage keeps it.
    pub open spec fn is_exact(self) -> bool {
        &&& self.is_consistent()
        &&& forall|group: A::GroupBy, key: u64|
            self.stages.contains_key(group) && #[trigger] self.stages[group].ids.contains(key) ==> {
                &&& self.records.contains_key(key)
                &&& self.records[key].group == group
            }
    }

    /// The children whose group was asked to finish.
    pub open spec fn told(self) -> Set<u64> {
        Set::new(
            |key: u64|
                self.records.contains_key(key) && self.stages[self.records[key].group].terminating,
        )
    }

    /// No group has a child.
    pub open spec fn is_deserted(self) -> bool {
        forall|group: A::GroupBy| #[trigger]
            self.stages.contains_key(group) ==> self.stages[group].ids.is_empty()
    }

    /// The group was asked to finish between the two states.
    pub open spec fn is_newly_asked(self, next: Self, group: A::GroupBy) -> bool {
        &&& self.stages.contains_key(group)
        &&& !self.stages[group].terminating
        &&& next.stages[group].terminating
    }
}

/// A group is asked to finish only when no group that is prioritized before it
/// has a child. A group that is not prioritized comes after all that are.
pub proof fn law_priorities_are_respected<A: Actor>(
    view: TrackerView<A>,
    next: TrackerView<A>,
    deliveries: Seq<Delivery<Interrupt<A>>>,
    group: A::GroupBy,
    place: int,
)
    requires
        view.terminates_to(next, deliveries),
        view.is_newly_asked(next, group),
        0 <= place < view.prioritized.len(),
        forall|i: int| 0 <= i <= place ==> view.prioritized[i] != group,
    ensures
        view.stage_of(view.prioritized[place]).ids.is_empty(),
{
    let sequence = lemma_sequence_of_step(view, next, deliveries);
    assert(view.is_due(sequence, group));
    let turn = choose|turn: int|
        0 <= turn < sequence.len() && #[trigger] sequence[turn] == group && view.is_clear_before(
            sequence,
            turn,
        );
    assert forall|i: int| 0 <= i < view.prioritized.len() implies view.prioritized[i]
        == sequence[i] by {
        assert(sequence.take(view.prioritized.len() as int)[i] == sequence[i]);
    }
    assert(place < turn);
    assert(sequence[place] == view.prioritized[place]);
}

/// In one step at most one group that has children is asked to finish.
pub proof fn law_one_group_at_a_time<A: Actor>(
    view: TrackerView<A>,
    next: TrackerView<A>,
    deliveries: Seq<Delivery<Interrupt<A>>>,
    one: A::GroupBy,
    other: A::GroupBy,
)
    requires
        view.terminates_to(next, deliveries),
        view.is_newly_asked(next, one),
        view.is_newly_asked(next, other),
        !view.stages[one].ids.is_empty(),
        !view.stages[other].ids.is_empty(),
    ensures
        one == other,
{
    let sequence = lemma_sequence_of_step(view, next, deliveries);
    assert(view.is_due(sequence, one) && view.is_due(sequence, other));
    let i = choose|i: int|
        0 <= i < sequence.len() && #[trigger] sequence[i] == one && view.is_clear_before(
            sequence,
            i,
        );
    let j = choose|j: int|
        0 <= j < sequence.len() && #[trigger] sequence[j] == other && view.is_clear_before(
            sequence,
            j,
        );
    assert(i == j);
}

/// A step of the termination leaves the children alone and takes no request to
/// finish back.
pub proof fn law_termination_is_not_undone<A: Actor>(
    view: TrackerView<A>,
    next: TrackerView<A>,
    deliveries: Seq<Delivery<Interrupt<A>>>,
)
    requires
        view.terminates_to(next, deliveries),
    ensures
        next.terminating,
        next.prioritized == view.prioritized,
        next.records == view.records,
        next.stages.dom() == view.stages.dom(),
        forall|group: A::GroupBy| #[trigger]
            view.stages.contains_key(group) ==> {
                &&& next.stages[group].ids == view.stages[group].ids
                &&& view.stages[group].terminating ==> next.stages[group].terminating
            },
        view.is_consistent() ==> next.is_consistent(),
        view.is_exact() ==> next.is_exact(),
{
    assert(next.stages.dom() =~= view.stages.dom());
}

/// A step of the termination never gets stuck: either all is finished, or some
/// group that has children was asked to finish.
pub proof fn law_termination_waits_for_somebody<A: Actor>(
    view: TrackerView<A>,
    next: TrackerView<A>,
    deliveries: Seq<Delivery<Interrupt<A>>>,
)
    requires
        view.terminates_to(next, deliveries),
    ensures
        next.is_finished() || exists|group: A::GroupBy| #[trigger]
            next.stages.contains_key(group) && next.stages[group].terminating
                && !next.stages[group].ids.is_empty(),
        next.is_finished() <==> view.is_deserted(),
{
    let sequence = lemma_sequence_of_step(view, next, deliveries);
    assert forall|group: A::GroupBy| #[trigger] view.stages.contains_key(group) implies exists|
        i: int,
    |
        0 <= i < sequence.len() && #[trigger] sequence[i] == group by {
        lemma_every_group_has_a_place(view, sequence, group);
    }
    if view.is_deserted() {
        assert forall|group: A::GroupBy| #[trigger]
            next.stages.contains_key(group) implies next.stages[group].is_finished() by {
            assert(view.stages.contains_key(group));
            let i = choose|i: int| 0 <= i < sequence.len() && #[trigger] sequence[i] == group;
            assert(view.is_clear_before(sequence, i));
            assert(view.is_due(sequence, group));
        }
    } else {
        let inhabited = choose|group: A::GroupBy| #[trigger]
            view.stages.contains_key(group) && !view.stages[group].ids.is_empty();
        let i = choose|i: int| 0 <= i < sequence.len() && #[trigger] sequence[i] == inhabited;
        let first = lemma_first_inhabited(view, sequence, i);
        assert(view.is_due(sequence, sequence[first]));
        assert(next.stages.contains_key(sequence[first]));
        assert(next.stages.contains_key(inhabited));
    }
}

/// A child that is not known yet keeps every child in exactly one stage. It
/// counts as told at once if its group was asked to finish before.
pub proof fn law_late_children_are_told<A: Actor>(
    view: TrackerView<A>,
    key: u64,
    group: A::GroupBy,
    notifier: LifecycleNotifier<Interrupt<A>>,
)
    requires
        view.is_exact(),
        !view.records.contains_key(key),
        notifier.target() is Some,
        notifier.target()->0.serial() == key,
    ensures
        view.with_child(key, group, notifier).is_exact(),
        view.with_child(key, group, notifier).told() == if view.stage_of(group).terminating {
            view.told().insert(key)
        } else {
            view.told()
        },
{
    let next = view.with_child(key, group, notifier);
    assert forall|other: A::GroupBy, child: u64|
        next.stages.contains_key(other) && #[trigger] next.stages[other].ids.contains(
            child,
        ) implies next.records.contains_key(child) && next.records[child].group == other by {
        if child != key {
            assert(view.stages.contains_key(other));
            assert(view.stages[other].ids.contains(child));
        } else if other != group {
            assert(view.stages[other].ids.contains(child));
        }
    }
    assert forall|child: u64|
        next.told().contains(child) == if view.stage_of(group).terminating {
            view.told().insert(key).contains(child)
        } else {
            view.told().contains(child)
        } by {
        if view.records.contains_key(child) {
            assert(view.stages.contains_key(view.records[child].group));
        }
    }
    if view.stage_of(group).terminating {
        assert(next.told() =~= view.told().insert(key));
    } else {
        assert(next.told() =~= view.told());
    }
}

/// Forgetting a child keeps every other one where it stands.
pub proof fn law_forgetting_touches_one_child<A: Actor>(view: TrackerView<A>, key: u64)
    requires
        view.is_exact(),
    ensures
        view.without_child(key).is_exact(),
        view.without_child(key).told() == view.told().remove(key),
        forall|group: A::GroupBy| #[trigger]
            view.stages.contains_key(group) ==> {
                &&& view.without_child(key).stages.contains_key(group)
                &&& view.without_child(key).stages[group].ids == view.stages[group].ids.remove(key)
                &&& view.without_child(key).stages[group].terminating
                    == view.stages[group].terminating
            },
{
    let next = view.without_child(key);
    assert forall|group: A::GroupBy| #[trigger] view.stages.contains_key(group) implies {
        &&& next.stages.contains_key(group)
        &&& next.stages[group].ids == view.stages[group].ids.remove(key)
        &&& next.stages[group].terminating == view.stages[group].terminating
    } by {
        assert(next.stages[group].ids =~= view.stages[group].ids.remove(key));
    }
    assert forall|child: u64| #[trigger]
        next.records.contains_key(child) implies next.stages.contains_key(
        next.records[child].group,
    ) && next.stages[next.records[child].group].ids.contains(child) by {
        assert(view.records.contains_key(child));
    }
    assert forall|group: A::GroupBy, child: u64|
        next.stages.contains_key(group) && #[trigger] next.stages[group].ids.contains(
            child,
        ) implies next.records.contains_key(child) && next.records[child].group == group by {
        assert(view.stages.contains_key(group));
        assert(view.stages[group].ids.contains(child));
    }
    assert forall|child: u64| next.told().contains(child) == view.told().remove(key).contains(
        child,
    ) by {
        if view.records.contains_key(child) {
            assert(view.stages.contains_key(view.records[child].group));
        }
    }
    assert(next.told() =~= view.told().remove(key));
}

/// A step of the termination interrupts exactly the children that become told,
/// each once; so a child is never interrupted twice, and no child of a group
/// that was asked to finish is missed.
pub proof fn law_children_are_interrupted_once<A: Actor>(
    view: TrackerView<A>,
    next: TrackerView<A>,
    deliveries: Seq<Delivery<Interrupt<A>>>,
)
    requires
        view.is_exact(),
        view.terminates_to(next, deliveries),
    ensures
        view.told().subset_of(next.told()),
        view.interrupts(next.told().difference(view.told()), deliveries),
        deliveries.len() == next.told().difference(view.told()).len(),
{
    let sequence = lemma_sequence_of_step(view, next, deliveries);
    let keys = Set::new(|key: u64| view.is_interrupted(sequence, key));
    assert forall|key: u64| keys.contains(key) == next.told().difference(view.told()).contains(
        key,
    ) by {
        if view.records.contains_key(key) {
            let group = view.records[key].group;
            assert(view.stages.contains_key(group));
            assert(next.stages.contains_key(group));
        }
    }
    assert(keys =~= next.told().difference(view.told()));
    let order = choose|order: Seq<u64>|
        {
            &&& order.no_duplicates()
            &&& order.to_set() == keys
            &&& deliveries == #[trigger] interruptions_of(view.records, order)
        };
    order.unique_seq_to_set();
    assert forall|key: u64| view.told().contains(key) implies next.told().contains(key) by {
        assert(view.stages.contains_key(view.records[key].group));
    }
}

/// The termination comes to its end with the last child: when it is forgotten,
/// all is finished, and nobody else is interrupted.
pub proof fn law_last_child_ends_the_termination<A: Actor>(
    view: TrackerView<A>,
    key: u64,
    next: TrackerView<A>,
    deliveries: Seq<Delivery<Interrupt<A>>>,
)
    requires
        view.is_exact(),
        forall|child: u64| #[trigger] view.records.contains_key(child) ==> child == key,
        view.without_child(key).terminates_to(next, deliveries),
    ensures
        next.is_finished(),
        deliveries.len() == 0,
{
    let rest = view.without_child(key);
    law_forgetting_touches_one_child(view, key);
    assert forall|group: A::GroupBy| #[trigger] rest.stages.contains_key(group) implies
        rest.stages[group].ids.is_empty() by {
        assert(view.stages.contains_key(group));
        assert forall|child: u64| !rest.stages[group].ids.contains(child) by {
            assert(view.stages[group].ids.contains(child) ==> view.records.contains_key(child));
        }
        assert(rest.stages[group].ids =~= Set::empty());
    }
    law_termination_waits_for_somebody(rest, next, deliveries);
    law_children_are_interrupted_once(rest, next, deliveries);
    assert(next.told().difference(rest.told()) =~= Set::empty());
}

/// The delivery tells a child of this kind that it has to finish: an actor gets
/// the interruption as a message with its own operation, a task its stop signal.
pub open spec fn is_interruption<A: Actor>(
    kind: NotifierKind,
    delivery: Delivery<Interrupt<A>>,
) -> bool {
    match kind {
        NotifierKind::Ignore => delivery is Nothing,
        NotifierKind::Once { to, operation } => {
            &&& delivery matches Delivery::Message { to: receiver, operation: attached, message }
            &&& receiver == to
            &&& attached == operation
            &&& message == Interrupt::<A>::message()
        },
        NotifierKind::Stop { task } => delivery matches Delivery::Stop { task: stopped } && stopped
            == task,
    }
}

/// A child whose group a step of the termination asks to finish gets the
/// delivery of its kind.
pub proof fn law_asked_children_are_told<A: Actor>(
    view: TrackerView<A>,
    next: TrackerView<A>,
    deliveries: Seq<Delivery<Interrupt<A>>>,
    key: u64,
)
    requires
        view.is_exact(),
        view.terminates_to(next, deliveries),
        view.records.contains_key(key),
        !view.stages[view.records[key].group].terminating,
        next.stages[view.records[key].group].terminating,
    ensures
        exists|p: int|
            0 <= p < deliveries.len() && is_interruption(
                view.records[key].notifier.kind,
                #[trigger] deliveries[p],
            ),
{
    let order = lemma_order_of_step(view, next, deliveries);
    assert(order.to_set().contains(key));
    let p = choose|p: int| 0 <= p < order.len() && order[p] == key;
    assert(is_interruption(view.records[key].notifier.kind, deliveries[p]));
}

/// Every delivery of a step of the termination is for a child whose group the
/// step has asked to finish, and is of the kind of that child.
pub proof fn law_deliveries_are_for_asked_children<A: Actor>(
    view: TrackerView<A>,
    next: TrackerView<A>,
    deliveries: Seq<Delivery<Interrupt<A>>>,
    p: int,
)
    requires
        view.is_exact(),
        view.terminates_to(next, deliveries),
        0 <= p < deliveries.len(),
    ensures
        exists|key: u64|
            {
                &&& #[trigger] view.records.contains_key(key)
                &&& !view.stages[view.records[key].group].terminating
                &&& next.stages[view.records[key].group].terminating
                &&& is_interruption(view.records[key].notifier.kind, deliveries[p])
            },
{
    let order = lemma_order_of_step(view, next, deliveries);
    assert(order.to_set().contains(order[p]));
    assert(view.records.contains_key(order[p]));
}

/// The children that a step of the termination interrupts, in the order of the
/// deliveries.
proof fn lemma_order_of_step<A: Actor>(
    view: TrackerView<A>,
    next: TrackerView<A>,
    deliveries: Seq<Delivery<Interrupt<A>>>,
) -> (order: Seq<u64>)
    requires
        view.is_exact(),
        view.terminates_to(next, deliveries),
    ensures
        order.len() == deliveries.len(),
        order.no_duplicates(),
        forall|key: u64| #[trigger]
            order.to_set().contains(key) <==> {
                &&& view.records.contains_key(key)
                &&& !view.stages[view.records[key].group].terminating
                &&& next.stages[view.records[key].group].terminating
            },
        forall|p: int|
            0 <= p < order.len() ==> is_interruption(
                view.records[#[trigger] order[p]].notifier.kind,
                deliveries[p],
            ),
{
    law_children_are_interrupted_once(view, next, deliveries);
    law_termination_is_not_undone(view, next, deliveries);
    let keys = next.told().difference(view.told());
    let order = choose|order: Seq<u64>|
        {
            &&& order.no_duplicates()
            &&& order.to_set() == keys
            &&& deliveries == #[trigger] interruptions_of(view.records, order)
        };
    order
}

/// The turn of a prioritized group comes as soon as no group before it has a
/// child: a step of the termination asks it to finish.
pub proof fn law_turn_of_prioritized_group_comes<A: Actor>(
    view: TrackerView<A>,
    next: TrackerView<A>,
    deliveries: Seq<Delivery<Interrupt<A>>>,
    place: int,
)
    requires
        view.terminates_to(next, deliveries),
        0 <= place < view.prioritized.len(),
        view.stages.contains_key(view.prioritized[place]),
        forall|i: int, key: u64|
            0 <= i < place && view.stages.contains_key(#[trigger] view.prioritized[i])
                ==> !#[trigger] view.stages[view.prioritized[i]].ids.contains(key),
    ensures
        next.stages[view.prioritized[place]].terminating,
{
    let sequence = lemma_sequence_of_step(view, next, deliveries);
    assert forall|i: int| 0 <= i < view.prioritized.len() implies view.prioritized[i]
        == #[trigger] sequence[i] by {
        assert(sequence.take(view.prioritized.len() as int)[i] == sequence[i]);
    }
    assert forall|i: int|
        0 <= i < place && view.stages.contains_key(
            #[trigger] sequence[i],
        ) implies view.stages[sequence[i]].ids.is_empty() by {
        assert(view.prioritized[i] == sequence[i]);
        assert forall|key: u64| !view.stages[sequence[i]].ids.contains(key) by {
            assert(!view.stages[view.prioritized[i]].ids.contains(key));
        }
        assert(view.stages[sequence[i]].ids =~= Set::empty());
    }
    assert(view.is_clear_before(sequence, place));
    assert(sequence[place] == view.prioritized[place]);
    assert(view.is_due(sequence, view.prioritized[place]));
}

/// When no group has a child, a step of the termination asks all of them to
/// finish.
pub proof fn law_deserted_groups_are_all_asked<A: Actor>(
    view: TrackerView<A>,
    next: TrackerView<A>,
    deliveries: Seq<Delivery<Interrupt<A>>>,
    group: A::GroupBy,
)
    requires
        view.terminates_to(next, deliveries),
        forall|other: A::GroupBy, key: u64|
            view.stages.contains_key(other) ==> !#[trigger] view.stages[other].ids.contains(key),
        view.stages.contains_key(group),
    ensures
        next.stages[group].terminating,
{
    assert forall|other: A::GroupBy| #[trigger]
        view.stages.contains_key(other) implies view.stages[other].ids.is_empty() by {
        assert(view.stages[other].ids =~= Set::empty());
    }
    law_termination_waits_for_somebody(view, next, deliveries);
    law_termination_is_not_undone(view, next, deliveries);
    assert(next.stages.contains_key(group));
}

/// A tracker is finished exactly when every group was asked to finish and has no
/// child.
pub proof fn law_finished_means_asked_and_empty<A: Actor>(view: TrackerView<A>)
    ensures
        view.is_finished() <==> forall|group: A::GroupBy| #[trigger]
            view.stages.contains_key(group) ==> {
                &&& view.stages[group].terminating
                &&& forall|key: u64| !view.stages[group].ids.contains(key)
            },
{
    if view.is_finished() {
        assert forall|group: A::GroupBy| #[trigger] view.stages.contains_key(group) implies {
            &&& view.stages[group].terminating
            &&& forall|key: u64| !view.stages[group].ids.contains(key)
        } by {
            assert(view.stages[group].is_finished());
        }
    }
    if forall|group: A::GroupBy| #[trigger]
        view.stages.contains_key(group) ==> {
            &&& view.stages[group].terminating
            &&& forall|key: u64| !view.stages[group].ids.contains(key)
        } {
        assert forall|group: A::GroupBy| #[trigger]
            view.stages.contains_key(group) implies view.stages[group].is_finished() by {
            assert(view.stages[group].ids =~= Set::empty());
        }
    }
}

/// An insertion adds the child to its group, and touches nothing else. A group
/// without a stage gets one that was not asked to finish.
pub proof fn law_insertion_adds_one_child<A: Actor>(
    view: TrackerView<A>,
    key: u64,
    group: A::GroupBy,
    notifier: LifecycleNotifier<Interrupt<A>>,
)
    ensures
        ({
            let next = view.with_child(key, group, notifier);
            &&& next.terminating == view.terminating
            &&& next.prioritized == view.prioritized
            &&& next.records.contains_key(key)
            &&& next.records[key] == (Record::<A> { group, notifier })
            &&& forall|other: u64|
                other != key ==> (#[trigger] next.records.contains_key(other)
                    <==> view.records.contains_key(other)) && next.records[other]
                    == view.records[other]
            &&& next.stages.contains_key(group)
            &&& next.stages[group].terminating == (view.stages.contains_key(group)
                && view.stages[group].terminating)
            &&& forall|other: u64| #[trigger]
                next.stages[group].ids.contains(other) <==> other == key || (
                view.stages.contains_key(group) && view.stages[group].ids.contains(other))
            &&& forall|other: A::GroupBy|
                other != group ==> (#[trigger] next.stages.contains_key(other)
                    <==> view.stages.contains_key(other)) && next.stages[other]
                    == view.stages[other]
        }),
{
}

/// An actor or a task that joins a group is interrupted at once exactly when the
/// group was asked to finish before, by the delivery of its kind.
pub proof fn law_late_interruption_is_of_its_kind<A: Actor>(
    view: TrackerView<A>,
    key: u64,
    group: A::GroupBy,
    notifier: LifecycleNotifier<Interrupt<A>>,
)
    ensures
        view.stage_of(group).terminating <==> view.stages.contains_key(group)
            && view.stages[group].terminating,
        is_interruption(
            notifier.kind,
            view.with_child(key, group, notifier).interruption_of(key),
        ),
{
}

/// The tracker has a child with this very id.
pub open spec fn is_child_of<A: Actor>(view: TrackerView<A>, id: Id) -> bool {
    &&& view.records.contains_key(id.serial())
    &&& match view.records[id.serial()].notifier.kind {
        NotifierKind::Ignore => false,
        NotifierKind::Once { to, .. } => to.mark() == id.mark() && to.serial() == id.serial()
            && to.name() == id.name(),
        NotifierKind::Stop { task } => task.mark() == id.mark() && task.serial() == id.serial()
            && task.name() == id.name(),
    }
}

/// A removed child is gone from the records and from its group, whatever else
/// the tracker holds, and nothing else changes.
pub proof fn law_removal_forgets_the_child<A: Actor>(view: TrackerView<A>, id: Id)
    requires
        view.is_consistent(),
        is_child_of(view, id),
    ensures
        ({
            let key = id.serial();
            let group = view.records[key].group;
            let next = view.without(id);
            &&& next.terminating == view.terminating
            &&& next.prioritized == view.prioritized
            &&& !next.records.contains_key(key)
            &&& forall|other: u64|
                other != key ==> (#[trigger] next.records.contains_key(other)
                    <==> view.records.contains_key(other)) && next.records[other]
                    == view.records[other]
            &&& next.stages.dom() == view.stages.dom()
            &&& !next.stages[group].ids.contains(key)
            &&& next.stages[group].terminating == view.stages[group].terminating
            &&& forall|other: u64|
                other != key ==> (#[trigger] next.stages[group].ids.contains(other)
                    <==> view.stages[group].ids.contains(other))
            &&& forall|other: A::GroupBy|
                other != group && #[trigger] view.stages.contains_key(other)
                    ==> next.stages[other] == view.stages[other]
        }),
{
    assert(view.is_child(id));
    assert(view.without(id).stages.dom() =~= view.stages.dom());
}

/// An id that is not that of a child changes nothing, even under the number of a
/// child.
pub proof fn law_removal_of_others_changes_nothing<A: Actor>(view: TrackerView<A>, id: Id)
    requires
        !is_child_of(view, id),
    ensures
        view.without(id) == view,
{
    assert(!view.is_child(id));
}

/// There is a place for an id exactly when its number is free or it is that of a
/// child itself.
pub proof fn law_place_is_for_the_very_id<A: Actor>(view: TrackerView<A>, id: Id)
    ensures
        view.has_place_for(id) <==> !view.records.contains_key(id.serial()) || is_child_of(
            view,
            id,
        ),
{
}

/// The order in which a step of the termination takes the groups.
proof fn lemma_sequence_of_step<A: Actor>(
    view: TrackerView<A>,
    next: TrackerView<A>,
    deliveries: Seq<Delivery<Interrupt<A>>>,
) -> (sequence: Seq<A::GroupBy>)
    requires
        view.terminates_to(next, deliveries),
    ensures
        view.is_stage_sequence(sequence),
        next == view.terminated(sequence),
        view.interrupts(Set::new(|key: u64| view.is_interrupted(sequence, key)), deliveries),
{
    choose|sequence: Seq<A::GroupBy>| #[trigger]
        view.is_stage_sequence(sequence) && next == view.terminated(sequence) && view.interrupts(
            Set::new(|key: u64| view.is_interrupted(sequence, key)),
            deliveries,
        )
}

/// Every group stands somewhere in the order of termination.
proof fn lemma_every_group_has_a_place<A: Actor>(
    view: TrackerView<A>,
    sequence: Seq<A::GroupBy>,
    group: A::GroupBy,
)
    requires
        view.is_stage_sequence(sequence),
        view.stages.contains_key(group),
    ensures
        exists|i: int| 0 <= i < sequence.len() && #[trigger] sequence[i] == group,
{
    let split = view.prioritized.len() as int;
    if view.prioritized.contains(group) {
        let i = choose|i: int| 0 <= i < split && view.prioritized[i] == group;
        assert(sequence.take(split)[i] == sequence[i]);
    } else {
        assert(!view.prioritized.to_set().contains(group));
        assert(sequence.skip(split).to_set().contains(group));
        assert(sequence.skip(split).contains(group));
        let i = choose|i: int|
            0 <= i < sequence.skip(split).len() && sequence.skip(split)[i] == group;
        assert(sequence[i + split] == group);
    }
}

/// If a group up to a place has children, there is a first such group.
proof fn lemma_first_inhabited<A: Actor>(
    view: TrackerView<A>,
    sequence: Seq<A::GroupBy>,
    place: int,
) -> (first: int)
    requires
        0 <= place < sequence.len(),
        view.stages.contains_key(sequence[place]),
        !view.stages[sequence[place]].ids.is_empty(),
    ensures
        0 <= first <= place,
        view.stages.contains_key(sequence[first]),
        !view.stages[sequence[first]].ids.is_empty(),
        view.is_clear_before(sequence, first),
    decreases place,
{
    if view.is_clear_before(sequence, place) {
        place
    } else {
        let earlier = choose|i: int|
            0 <= i < place && view.stages.contains_key(#[trigger] sequence[i])
                && !view.stages[sequence[i]].ids.is_empty();
        lemma_first_inhabited(view, sequence, earlier)
    }
}

} // verus!
