//! What holds of a client over all its connections.

use vstd::prelude::*;

use crate::connect::client::{
    client_step, is_expected, ClientAction, ClientEvent, ClientPhase,
};
use crate::connect::protocol::{LiteStatus, TermReason};

verus! {

/// Where the events have brought a routine, and what it wanted to be done on
/// the way: first to look its status up, then one thing after each event.
pub open spec fn run(
    url: Seq<char>,
    interval: Option<u128>,
    events: Seq<ClientEvent<Seq<char>>>,
) -> (ClientPhase, Seq<ClientAction<Seq<char>>>)
    decreases events.len(),
{
    if events.len() == 0 {
        (ClientPhase::Checking, seq![ClientAction::CheckStatus])
    } else {
        let (phase, actions) = run(url, interval, events.drop_last());
        let (next, action) = client_step(url, interval, phase, events.last());
        (next, actions.push(action))
    }
}

/// Every event came when the routine waited for one of its kind.
pub open spec fn is_run(
    url: Seq<char>,
    interval: Option<u128>,
    events: Seq<ClientEvent<Seq<char>>>,
) -> bool
    decreases events.len(),
{
    events.len() == 0 || {
        &&& is_run(url, interval, events.drop_last())
        &&& is_expected(run(url, interval, events.drop_last()).0, events.last())
    }
}

/// The user asked the routine to stop, or nobody is left who could.
pub open spec fn is_stop_request(event: ClientEvent<Seq<char>>) -> bool {
    ||| event == ClientEvent::<Seq<char>>::Status(LiteStatus::Stop)
    ||| event == ClientEvent::<Seq<char>>::TalkOver(Ok(TermReason::Interrupted))
    ||| event == ClientEvent::<Seq<char>>::StatusChanged(Some(LiteStatus::Stop))
    ||| event == ClientEvent::<Seq<char>>::StatusChanged(None)
}

/// Each action of a run is the answer to the event before it.
proof fn lemma_run_step(
    url: Seq<char>,
    interval: Option<u128>,
    events: Seq<ClientEvent<Seq<char>>>,
    i: int,
)
    requires
        is_run(url, interval, events),
        0 <= i < events.len(),
    ensures
        ({
            let phase = run(url, interval, events.take(i)).0;
            let (next, action) = client_step(url, interval, phase, events[i]);
            &&& is_run(url, interval, events.take(i))
            &&& is_expected(phase, events[i])
            &&& run(url, interval, events.take(i + 1)).0 == next
            &&& run(url, interval, events).1[i + 1] == action
        }),
        run(url, interval, events).1.len() == events.len() + 1,
    decreases events.len(),
{
    let shorter = events.drop_last();
    lemma_run_len(url, interval, events);
    lemma_run_len(url, interval, shorter);
    if i == events.len() - 1 {
        assert(events.take(i) == shorter);
        assert(events.take(i + 1) == events);
    } else {
        lemma_run_step(url, interval, shorter, i);
        assert(events.take(i) == shorter.take(i));
        assert(events.take(i + 1) == shorter.take(i + 1));
    }
}

/// A run has one action more than events.
proof fn lemma_run_len(
    url: Seq<char>,
    interval: Option<u128>,
    events: Seq<ClientEvent<Seq<char>>>,
)
    ensures
        run(url, interval, events).1.len() == events.len() + 1,
        run(url, interval, events).1[0] == ClientAction::<Seq<char>>::CheckStatus,
    decreases events.len(),
{
    if events.len() > 0 {
        lemma_run_len(url, interval, events.drop_last());
    }
}

/// The routine ends once: nothing follows its result.
pub proof fn law_result_is_last(
    url: Seq<char>,
    interval: Option<u128>,
    events: Seq<ClientEvent<Seq<char>>>,
    i: int,
)
    requires
        is_run(url, interval, events),
        0 <= i <= events.len(),
        run(url, interval, events).1[i] is Finish,
    ensures
        i == events.len(),
{
    lemma_run_len(url, interval, events);
    if 0 < i < events.len() {
        lemma_run_step(url, interval, events, i - 1);
        lemma_run_step(url, interval, events, i);
    }
}

/// The routine ends well exactly when it was asked to stop.
pub proof fn law_stop_requests_end_the_routine_well(
    url: Seq<char>,
    interval: Option<u128>,
    events: Seq<ClientEvent<Seq<char>>>,
    i: int,
)
    requires
        is_run(url, interval, events),
        0 <= i < events.len(),
    ensures
        run(url, interval, events).1[i + 1] == ClientAction::<Seq<char>>::Finish(Ok(()))
            <==> is_stop_request(events[i]),
{
    lemma_run_step(url, interval, events, i);
}

/// The text that tells why a connection was lost or could not be made, if the
/// event is such a failure.
pub open spec fn failure_of(event: ClientEvent<Seq<char>>) -> Option<Seq<char>> {
    match event {
        ClientEvent::Connected(Err(error)) => Some(error),
        ClientEvent::TalkOver(Err(error)) => Some(error),
        ClientEvent::TalkOver(Ok(TermReason::Closed)) => Some("Server closed a connection"@),
        _ => None,
    }
}

/// Every failure is told at once, with its text: to the actor, if the routine
/// connects again, or else as the result. Nothing else is reported.
pub proof fn law_failures_are_told_as_they_are(
    url: Seq<char>,
    interval: Option<u128>,
    events: Seq<ClientEvent<Seq<char>>>,
    i: int,
)
    requires
        is_run(url, interval, events),
        0 <= i < events.len(),
    ensures
        match failure_of(events[i]) {
            Some(error) => run(url, interval, events).1[i + 1] == if interval is Some {
                ClientAction::Report(error)
            } else {
                ClientAction::Finish(Err(error))
            },
            None => !(run(url, interval, events).1[i + 1] is Report),
        },
{
    lemma_run_step(url, interval, events, i);
}

/// Every attempt to connect goes to the server of the client.
pub proof fn law_attempts_go_to_the_server(
    url: Seq<char>,
    interval: Option<u128>,
    events: Seq<ClientEvent<Seq<char>>>,
    i: int,
)
    requires
        is_run(url, interval, events),
        0 <= i <= events.len(),
    ensures
        run(url, interval, events).1[i] matches ClientAction::Connect(target) ==> target == url,
{
    lemma_run_len(url, interval, events);
    if i > 0 {
        lemma_run_step(url, interval, events, i - 1);
    }
}

/// Before every attempt to connect but the first, a failure was reported after
/// the attempt before.
pub proof fn law_failures_are_reported_before_the_next_attempt(
    url: Seq<char>,
    interval: Option<u128>,
    events: Seq<ClientEvent<Seq<char>>>,
    i: int,
    j: int,
)
    requires
        is_run(url, interval, events),
        0 <= i < j <= events.len(),
        run(url, interval, events).1[i] is Connect,
        run(url, interval, events).1[j] is Connect,
    ensures
        exists|k: int| i < k < j && #[trigger] run(url, interval, events).1[k] is Report,
{
    lemma_run_len(url, interval, events);
    lemma_run_step(url, interval, events, j - 1);
    lemma_reported_since(url, interval, events, i, j - 1);
}

/// In the phases between a report and the next attempt to connect, the report
/// stands after the last attempt.
proof fn lemma_reported_since(
    url: Seq<char>,
    interval: Option<u128>,
    events: Seq<ClientEvent<Seq<char>>>,
    i: int,
    n: int,
)
    requires
        is_run(url, interval, events),
        0 <= i <= n <= events.len(),
        run(url, interval, events).1[i] is Connect,
    ensures
        match run(url, interval, events.take(n)).0 {
            ClientPhase::Connecting | ClientPhase::Announcing | ClientPhase::Talking
            | ClientPhase::Over => true,
            _ => exists|k: int| i < k <= n && #[trigger] run(url, interval, events).1[k] is Report,
        },
    decreases n,
{
    lemma_run_len(url, interval, events);
    let actions = run(url, interval, events).1;
    lemma_run_step(url, interval, events, n - 1);
    if n > i {
        lemma_reported_since(url, interval, events, i, n - 1);
        if actions[n] is Report {
            assert(i < n <= n && actions[n] is Report);
        } else if exists|k: int| i < k <= n - 1 && #[trigger] actions[k] is Report {
            let k = choose|k: int| i < k <= n - 1 && #[trigger] actions[k] is Report;
            assert(i < k <= n && actions[k] is Report);
        }
    }
}

/// Without an interval the first failure ends the routine: it connects once at
/// most, and neither reports nor waits.
pub proof fn law_no_interval_means_one_attempt(
    url: Seq<char>,
    events: Seq<ClientEvent<Seq<char>>>,
    i: int,
    j: int,
)
    requires
        is_run(url, None, events),
        0 <= i <= events.len(),
        0 <= j <= events.len(),
    ensures
        !(run(url, None, events).1[i] is Report),
        !(run(url, None, events).1[i] is Wait),
        run(url, None, events).1[i] is Connect && run(url, None, events).1[j] is Connect ==> i == j,
{
    lemma_run_len(url, None, events);
    assert forall|k: int| 0 <= k <= events.len() implies !(#[trigger] run(
        url,
        None,
        events,
    ).1[k] is Report) by {
        if k > 0 {
            lemma_run_step(url, None, events, k - 1);
        }
    }
    if i > 0 {
        lemma_run_step(url, None, events, i - 1);
        lemma_no_interval_phases(url, events.take(i - 1));
    }
    if run(url, None, events).1[i] is Connect && run(url, None, events).1[j] is Connect {
        if i < j {
            law_failures_are_reported_before_the_next_attempt(url, None, events, i, j);
        } else if j < i {
            law_failures_are_reported_before_the_next_attempt(url, None, events, j, i);
        }
    }
}

/// Without an interval the routine never comes to a report.
proof fn lemma_no_interval_phases(url: Seq<char>, events: Seq<ClientEvent<Seq<char>>>)
    requires
        is_run(url, None, events),
    ensures
        !(run(url, None, events).0 is Reporting),
        !(run(url, None, events).0 is Measuring),
        !(run(url, None, events).0 is Waiting),
    decreases events.len(),
{
    if events.len() > 0 {
        lemma_no_interval_phases(url, events.drop_last());
    }
}

/// The interval is kept: the routine looks its status up for another attempt
/// only when the time since the last one has reached the interval, be it
/// measured, or filled up by the wait that followed the measurement and has come
/// to its end.
pub proof fn law_attempts_are_spaced(
    url: Seq<char>,
    interval: Option<u128>,
    events: Seq<ClientEvent<Seq<char>>>,
    n: int,
)
    requires
        is_run(url, interval, events),
        0 < n <= events.len(),
        run(url, interval, events).1[n] is CheckStatus,
    ensures
        interval is Some,
        exists|m: int|
            {
                &&& 0 <= m < n
                &&& #[trigger] events[m] matches ClientEvent::Elapsed(elapsed)
                &&& elapsed >= interval->0 ==> m == n - 1
                &&& elapsed < interval->0 ==> {
                    &&& m < n - 1
                    &&& run(url, interval, events).1[m + 1] == ClientAction::<Seq<char>>::Wait(
                        (interval->0 - elapsed) as u128,
                    )
                    &&& events[n - 1] is Timeout
                    &&& forall|k: int| m < k < n - 1 ==> #[trigger] events[k] is StatusChanged
                }
            },
{
    lemma_run_len(url, interval, events);
    lemma_run_step(url, interval, events, n - 1);
    lemma_interval_phases(url, interval, events.take(n - 1));
    if events[n - 1] is Timeout {
        lemma_wait_was_asked(url, interval, events, n - 1);
        let m = choose|m: int|
            {
                &&& 0 <= m < n - 1
                &&& #[trigger] events[m] matches ClientEvent::Elapsed(elapsed)
                &&& elapsed < interval->0
                &&& forall|k: int| m < k < n - 1 ==> #[trigger] events[k] is StatusChanged
                &&& run(url, interval, events).1[m + 1] == ClientAction::<Seq<char>>::Wait(
                    (interval->0 - elapsed) as u128,
                )
            };
        assert(events[m] is Elapsed);
    }
}

/// A routine that reports has an interval.
proof fn lemma_interval_phases(
    url: Seq<char>,
    interval: Option<u128>,
    events: Seq<ClientEvent<Seq<char>>>,
)
    requires
        is_run(url, interval, events),
    ensures
        run(url, interval, events).0 is Measuring || run(url, interval, events).0 is Waiting
            ==> interval is Some,
{
    if interval is None {
        lemma_no_interval_phases(url, events);
    }
}

/// A routine that waits has measured how long.
proof fn lemma_wait_was_asked(
    url: Seq<char>,
    interval: Option<u128>,
    events: Seq<ClientEvent<Seq<char>>>,
    n: int,
)
    requires
        is_run(url, interval, events),
        0 <= n <= events.len(),
        run(url, interval, events.take(n)).0 is Waiting,
    ensures
        exists|m: int|
            {
                &&& 0 <= m < n
                &&& #[trigger] events[m] matches ClientEvent::Elapsed(elapsed)
                &&& elapsed < interval->0
                &&& forall|k: int| m < k < n ==> #[trigger] events[k] is StatusChanged
                &&& run(url, interval, events).1[m + 1] == ClientAction::<Seq<char>>::Wait(
                    (interval->0 - elapsed) as u128,
                )
            },
    decreases n,
{
    assert(n > 0);
    lemma_run_step(url, interval, events, n - 1);
    if events[n - 1] is StatusChanged {
        lemma_wait_was_asked(url, interval, events, n - 1);
        let m = choose|m: int|
            {
                &&& 0 <= m < n - 1
                &&& #[trigger] events[m] matches ClientEvent::Elapsed(elapsed)
                &&& elapsed < interval->0
                &&& forall|k: int| m < k < n - 1 ==> #[trigger] events[k] is StatusChanged
                &&& run(url, interval, events).1[m + 1] == ClientAction::<Seq<char>>::Wait(
                    (interval->0 - elapsed) as u128,
                )
            };
        assert(events[m] is Elapsed);
    }
}

/// The event is the answer to what the routine wanted to be done.
pub open spec fn answers(
    action: ClientAction<Seq<char>>,
    event: ClientEvent<Seq<char>>,
) -> bool {
    match action {
        ClientAction::CheckStatus => event is Status,
        ClientAction::Connect(_) => event is Connected,
        ClientAction::Announce | ClientAction::Report(_) => event is Told,
        ClientAction::Talk => event is TalkOver,
        ClientAction::Measure => event is Elapsed,
        ClientAction::Wait(_) | ClientAction::KeepWaiting => event is Timeout
            || event is StatusChanged,
        ClientAction::Finish(_) => false,
    }
}

/// The phase of a routine tells what it last wanted to be done.
proof fn lemma_phase_of_action(
    url: Seq<char>,
    interval: Option<u128>,
    events: Seq<ClientEvent<Seq<char>>>,
    n: int,
)
    requires
        is_run(url, interval, events),
        0 <= n <= events.len(),
    ensures
        match run(url, interval, events).1[n] {
            ClientAction::CheckStatus => run(url, interval, events.take(n)).0 is Checking,
            ClientAction::Connect(_) => run(url, interval, events.take(n)).0 is Connecting,
            ClientAction::Announce => run(url, interval, events.take(n)).0 is Announcing,
            ClientAction::Talk => run(url, interval, events.take(n)).0 is Talking,
            ClientAction::Report(_) => run(url, interval, events.take(n)).0 is Reporting,
            ClientAction::Measure => run(url, interval, events.take(n)).0 is Measuring,
            ClientAction::Wait(_) | ClientAction::KeepWaiting => run(
                url,
                interval,
                events.take(n),
            ).0 is Waiting,
            ClientAction::Finish(_) => run(url, interval, events.take(n)).0 is Over,
        },
{
    lemma_run_len(url, interval, events);
    if n > 0 {
        lemma_run_step(url, interval, events, n - 1);
    } else {
        assert(events.take(0).len() == 0);
    }
}

/// Every event answers what the routine wanted to be done before it.
pub proof fn law_events_answer_actions(
    url: Seq<char>,
    interval: Option<u128>,
    events: Seq<ClientEvent<Seq<char>>>,
    i: int,
)
    requires
        is_run(url, interval, events),
        0 <= i < events.len(),
    ensures
        answers(run(url, interval, events).1[i], events[i]),
{
    lemma_run_step(url, interval, events, i);
    lemma_phase_of_action(url, interval, events, i);
}

/// The routine takes every event that answers what it last wanted to be done.
pub proof fn law_answers_are_taken(
    url: Seq<char>,
    interval: Option<u128>,
    events: Seq<ClientEvent<Seq<char>>>,
    event: ClientEvent<Seq<char>>,
)
    requires
        is_run(url, interval, events),
        answers(run(url, interval, events).1.last(), event),
    ensures
        is_run(url, interval, events.push(event)),
{
    lemma_run_len(url, interval, events);
    lemma_phase_of_action(url, interval, events, events.len() as int);
    assert(events.take(events.len() as int) == events);
    assert(events.push(event).drop_last() == events);
}

/// The routine connects exactly when its status allows it, so it looks its status
/// up before every attempt.
pub proof fn law_attempts_need_an_alive_status(
    url: Seq<char>,
    interval: Option<u128>,
    events: Seq<ClientEvent<Seq<char>>>,
    i: int,
)
    requires
        is_run(url, interval, events),
        0 <= i < events.len(),
    ensures
        run(url, interval, events).1[i + 1] is Connect <==> events[i] == ClientEvent::<
            Seq<char>,
        >::Status(LiteStatus::Alive),
        run(url, interval, events).1[i + 1] is Connect ==> run(
            url,
            interval,
            events,
        ).1[i] is CheckStatus,
{
    lemma_run_step(url, interval, events, i);
    lemma_phase_of_action(url, interval, events, i);
}

/// The measured time decides how the routine goes on: it waits for the rest of the
/// interval, if there is any, or looks its status up at once.
pub proof fn law_rest_of_the_interval_is_waited_out(
    url: Seq<char>,
    interval: Option<u128>,
    events: Seq<ClientEvent<Seq<char>>>,
    i: int,
)
    requires
        is_run(url, interval, events),
        0 <= i < events.len(),
    ensures
        events[i] matches ClientEvent::Elapsed(elapsed) ==> {
            &&& interval is Some
            &&& elapsed < interval->0 ==> {
                &&& run(url, interval, events).1[i + 1] matches ClientAction::Wait(pause)
                &&& pause + elapsed == interval->0
            }
            &&& elapsed >= interval->0 ==> run(url, interval, events).1[i + 1] is CheckStatus
        },
        run(url, interval, events).1[i + 1] is Wait ==> events[i] is Elapsed,
{
    lemma_run_step(url, interval, events, i);
    lemma_interval_phases(url, interval, events.take(i));
}

/// A wait ends with its time, and only then the routine looks its status up; a
/// status that still allows it to go on makes it wait on.
pub proof fn law_waits_last_until_their_time(
    url: Seq<char>,
    interval: Option<u128>,
    events: Seq<ClientEvent<Seq<char>>>,
    i: int,
)
    requires
        is_run(url, interval, events),
        0 <= i < events.len(),
    ensures
        events[i] is Timeout ==> run(url, interval, events).1[i + 1] is CheckStatus,
        run(url, interval, events).1[i + 1] is CheckStatus ==> events[i] is Timeout || (
        events[i] matches ClientEvent::Elapsed(elapsed) && elapsed >= interval->0),
        run(url, interval, events).1[i + 1] is KeepWaiting <==> events[i] == ClientEvent::<
            Seq<char>,
        >::StatusChanged(Some(LiteStatus::Alive)),
{
    lemma_run_step(url, interval, events, i);
}

/// A connection is announced to the actor, and the talk starts once the actor has
/// taken that. After a report that the actor has taken, the time is measured. An
/// actor that cannot be told ends the routine with the error.
pub proof fn law_actor_is_told_before_the_routine_goes_on(
    url: Seq<char>,
    interval: Option<u128>,
    events: Seq<ClientEvent<Seq<char>>>,
    i: int,
)
    requires
        is_run(url, interval, events),
        0 <= i < events.len(),
    ensures
        run(url, interval, events).1[i + 1] is Announce <==> events[i] == ClientEvent::<
            Seq<char>,
        >::Connected(Ok(())),
        run(url, interval, events).1[i + 1] is Talk <==> run(url, interval, events).1[i] is Announce
            && events[i] == ClientEvent::<Seq<char>>::Told(Ok(())),
        run(url, interval, events).1[i + 1] is Measure <==> run(
            url,
            interval,
            events,
        ).1[i] is Report && events[i] == ClientEvent::<Seq<char>>::Told(Ok(())),
        events[i] matches ClientEvent::Told(Err(error)) ==> run(url, interval, events).1[i + 1]
            == ClientAction::<Seq<char>>::Finish(Err(error)),
{
    lemma_run_step(url, interval, events, i);
    lemma_phase_of_action(url, interval, events, i);
    if let ClientEvent::Connected(Ok(done)) = events[i] {
        assert(done == ());
    }
    if let ClientEvent::Told(Ok(done)) = events[i] {
        assert(done == ());
    }
}

/// The routine ends with an error exactly when its actor cannot be told, or when
/// a connection fails and there is no interval; the error is that one.
pub proof fn law_errors_end_the_routine_as_they_are(
    url: Seq<char>,
    interval: Option<u128>,
    events: Seq<ClientEvent<Seq<char>>>,
    i: int,
)
    requires
        is_run(url, interval, events),
        0 <= i < events.len(),
    ensures
        run(url, interval, events).1[i + 1] matches ClientAction::Finish(Err(text)) ==> {
            ||| events[i] matches ClientEvent::Told(Err(error)) && error == text
            ||| interval is None && failure_of(events[i]) == Some(text)
        },
{
    lemma_run_step(url, interval, events, i);
}

/// Between two attempts to connect the interval has passed: after the first of
/// them, the time was measured, and it had reached the interval, or a wait for
/// the rest was asked for and has come to its end before the second.
pub proof fn law_interval_passes_between_attempts(
    url: Seq<char>,
    interval: Option<u128>,
    events: Seq<ClientEvent<Seq<char>>>,
    i: int,
    j: int,
)
    requires
        is_run(url, interval, events),
        0 <= i < j <= events.len(),
        run(url, interval, events).1[i] is Connect,
        run(url, interval, events).1[j] is Connect,
    ensures
        interval is Some,
        exists|m: int|
            {
                &&& i < m < j - 1
                &&& #[trigger] events[m] matches ClientEvent::Elapsed(elapsed)
                &&& elapsed >= interval->0 || {
                    &&& run(url, interval, events).1[m + 1] matches ClientAction::Wait(pause)
                    &&& pause + elapsed == interval->0
                    &&& m + 1 < j - 1
                    &&& events[j - 2] is Timeout
                    &&& forall|k: int| m < k < j - 2 ==> #[trigger] events[k] is StatusChanged
                }
            },
{
    lemma_run_len(url, interval, events);
    law_attempts_need_an_alive_status(url, interval, events, j - 1);
    if i > 0 {
        law_attempts_need_an_alive_status(url, interval, events, i - 1);
    }
    law_events_answer_actions(url, interval, events, i);
    law_attempts_are_spaced(url, interval, events, j - 1);
    let n = j - 1;
    let m = choose|m: int|
        {
            &&& 0 <= m < n
            &&& #[trigger] events[m] matches ClientEvent::Elapsed(elapsed)
            &&& elapsed >= interval->0 ==> m == n - 1
            &&& elapsed < interval->0 ==> {
                &&& m < n - 1
                &&& run(url, interval, events).1[m + 1] == ClientAction::<Seq<char>>::Wait(
                    (interval->0 - elapsed) as u128,
                )
                &&& events[n - 1] is Timeout
                &&& forall|k: int| m < k < n - 1 ==> #[trigger] events[k] is StatusChanged
            }
        };
    assert(events[i] is Connected);
    if m < i && i < n - 1 {
        assert(events[i] is StatusChanged);
    }
    assert(i < m < j - 1);
}

/// The views of events and actions keep their kinds and what they hold.
pub proof fn law_views_keep_what_is_said(event: ClientEvent<String>, action: ClientAction<String>)
    ensures
        match event {
            ClientEvent::Status(status) => event@ == ClientEvent::<Seq<char>>::Status(status),
            ClientEvent::Connected(Ok(_)) => event@ matches ClientEvent::Connected(Ok(_)),
            ClientEvent::Connected(Err(text)) => event@ == ClientEvent::<Seq<char>>::Connected(
                Err(text@),
            ),
            ClientEvent::Told(Ok(_)) => event@ matches ClientEvent::Told(Ok(_)),
            ClientEvent::Told(Err(text)) => event@ == ClientEvent::<Seq<char>>::Told(Err(text@)),
            ClientEvent::TalkOver(Ok(reason)) => event@ == ClientEvent::<Seq<char>>::TalkOver(
                Ok(reason),
            ),
            ClientEvent::TalkOver(Err(text)) => event@ == ClientEvent::<Seq<char>>::TalkOver(
                Err(text@),
            ),
            ClientEvent::Elapsed(time) => event@ == ClientEvent::<Seq<char>>::Elapsed(time),
            ClientEvent::Timeout => event@ is Timeout,
            ClientEvent::StatusChanged(status) => event@ == ClientEvent::<
                Seq<char>,
            >::StatusChanged(status),
        },
        match action {
            ClientAction::CheckStatus => action@ is CheckStatus,
            ClientAction::Connect(url) => action@ == ClientAction::<Seq<char>>::Connect(url@),
            ClientAction::Announce => action@ is Announce,
            ClientAction::Talk => action@ is Talk,
            ClientAction::Report(text) => action@ == ClientAction::<Seq<char>>::Report(text@),
            ClientAction::Measure => action@ is Measure,
            ClientAction::Wait(pause) => action@ == ClientAction::<Seq<char>>::Wait(pause),
            ClientAction::KeepWaiting => action@ is KeepWaiting,
            ClientAction::Finish(Ok(_)) => action@ matches ClientAction::Finish(Ok(_)),
            ClientAction::Finish(Err(text)) => action@ == ClientAction::<Seq<char>>::Finish(
                Err(text@),
            ),
        },
{
}

} // verus!
