//! Queues between tasks.

use futures::channel::{mpsc, oneshot};
use vstd::prelude::*;

verus! {

/// `futures::channel::mpsc::UnboundedSender`: the sending half of a queue
/// without a limit.
#[verifier::external_type_specification]
#[verifier::external_body]
#[verifier::reject_recursive_types(T)]
pub struct ExUnboundedSender<T>(mpsc::UnboundedSender<T>);

/// `futures::channel::mpsc::UnboundedReceiver`: the receiving half of a queue
/// without a limit.
#[verifier::external_type_specification]
#[verifier::external_body]
#[verifier::reject_recursive_types(T)]
pub struct ExUnboundedReceiver<T>(mpsc::UnboundedReceiver<T>);

/// `futures::channel::oneshot::Sender`: the way back for a single response.
#[verifier::external_type_specification]
#[verifier::external_body]
#[verifier::reject_recursive_types(T)]
pub struct ExOneshotSender<T>(oneshot::Sender<T>);

/// `futures::channel::mpsc::TrySendError`: why a message was refused, with the
/// message.
#[verifier::external_type_specification]
#[verifier::external_body]
#[verifier::reject_recursive_types(T)]
pub struct ExTrySendError<T>(mpsc::TrySendError<T>);

/// `futures::channel::mpsc::unbounded` makes the two halves of a new queue.
/// Nothing is claimed of the halves: the queue between them is shared with
/// whoever holds the other half, so that neither tells what it holds or in
/// which order messages will come out.
pub assume_specification<T>[ mpsc::unbounded::<T> ]() -> (halves: (
    mpsc::UnboundedSender<T>,
    mpsc::UnboundedReceiver<T>,
));

/// `futures::channel::mpsc::UnboundedSender::unbounded_send` queues a message
/// unless the receiving half is closed. Claims that the error holds a refused
/// message as it was. Whether it is refused depends on the holder of the
/// receiving half, so no more is claimed. It panics only on a queue that holds
/// more messages than memory has room for.
pub assume_specification<T>[ mpsc::UnboundedSender::<T>::unbounded_send ](
    tx: &mpsc::UnboundedSender<T>,
    msg: T,
) -> (sent: Result<(), mpsc::TrySendError<T>>)
    ensures
        sent matches Err(error) ==> forall|back: T| #[trigger]
            call_ensures(mpsc::TrySendError::<T>::into_inner, (error,), back) ==> back == msg,
;

/// `futures::channel::mpsc::TrySendError::into_inner` gives the refused message
/// out. What it is, the call that refused it claims.
pub assume_specification<T>[ mpsc::TrySendError::<T>::into_inner ](
    error: mpsc::TrySendError<T>,
) -> (back: T);

/// A call of `unbounded` may give these two halves of one queue.
pub open spec fn are_halves<T>(
    tx: mpsc::UnboundedSender<T>,
    rx: mpsc::UnboundedReceiver<T>,
) -> bool {
    call_ensures(mpsc::unbounded::<T>, (), (tx, rx))
}

/// The message was put into the queue, or else refused and given back.
pub open spec fn is_handed_over<T>(
    tx: mpsc::UnboundedSender<T>,
    msg: T,
    refused: Option<T>,
) -> bool {
    match refused {
        None => call_ensures(mpsc::UnboundedSender::<T>::unbounded_send, (&tx, msg), Ok(())),
        Some(back) => {
            &&& back == msg
            &&& exists|error: mpsc::TrySendError<T>| #[trigger]
                call_ensures(mpsc::UnboundedSender::<T>::unbounded_send, (&tx, msg), Err(error))
        },
    }
}

/// What a sender has put into its queue, after one message more.
pub open spec fn after_sending<T>(sent: Seq<T>, msg: T, refused: Option<T>) -> Seq<T> {
    if refused is None {
        sent.push(msg)
    } else {
        sent
    }
}

/// The messages that were not refused, in their order.
pub open spec fn accepted<T>(msgs: Seq<T>, refused: Seq<Option<T>>) -> Seq<T>
    decreases msgs.len(),
{
    if msgs.len() == 0 {
        Seq::empty()
    } else {
        let before = accepted(msgs.drop_last(), refused.drop_last());
        match refused.last() {
            None => before.push(msgs.last()),
            Some(_) => before,
        }
    }
}

/// A message that does not come back was taken by the queue; one that comes back
/// is the message itself, and the queue has refused it.
pub proof fn law_messages_are_taken_or_come_back<T>(
    tx: mpsc::UnboundedSender<T>,
    msg: T,
    refused: Option<T>,
)
    requires
        is_handed_over(tx, msg, refused),
    ensures
        refused is None ==> call_ensures(
            mpsc::UnboundedSender::<T>::unbounded_send,
            (&tx, msg),
            Ok(()),
        ),
        refused matches Some(back) ==> back == msg && exists|error: mpsc::TrySendError<T>|
            call_ensures(mpsc::UnboundedSender::<T>::unbounded_send, (&tx, msg), Err(error)),
{
}

/// The two halves of a queue come from one call of `unbounded`.
pub proof fn law_halves_come_from_one_call<T>(
    tx: mpsc::UnboundedSender<T>,
    rx: mpsc::UnboundedReceiver<T>,
)
    requires
        are_halves(tx, rx),
    ensures
        call_ensures(mpsc::unbounded::<T>, (), (tx, rx)),
{
}

/// A sender puts messages into its queue in the order in which it gets them,
/// each once, and leaves out those that are refused; `sent` is what it has put
/// there before and after each of them.
pub proof fn law_messages_are_queued_in_order<T>(
    sent: Seq<Seq<T>>,
    msgs: Seq<T>,
    refused: Seq<Option<T>>,
)
    requires
        sent.len() == msgs.len() + 1,
        refused.len() == msgs.len(),
        forall|i: int|
            0 <= i < msgs.len() ==> sent[i + 1] == after_sending(
                sent[i],
                #[trigger] msgs[i],
                refused[i],
            ),
    ensures
        sent.last() == sent[0] + accepted(msgs, refused),
        (forall|i: int| 0 <= i < refused.len() ==> #[trigger] refused[i] is None) ==> sent.last()
            == sent[0] + msgs,
    decreases msgs.len(),
{
    if msgs.len() > 0 {
        let last = msgs.len() - 1;
        assert forall|i: int| 0 <= i < last implies sent.drop_last()[i + 1] == after_sending(
            sent.drop_last()[i],
            #[trigger] msgs.drop_last()[i],
            refused.drop_last()[i],
        ) by {
            assert(msgs[i] == msgs.drop_last()[i]);
        }
        law_messages_are_queued_in_order(sent.drop_last(), msgs.drop_last(), refused.drop_last());
        assert(sent[last + 1] == after_sending(sent[last], msgs[last], refused[last]));
        assert(sent.last() =~= sent[0] + accepted(msgs, refused));
        if forall|i: int| 0 <= i < refused.len() ==> #[trigger] refused[i] is None {
            assert forall|i: int| 0 <= i < last implies #[trigger] refused.drop_last()[i]
                is None by {
                assert(refused[i] is None);
            }
            assert(sent.last() =~= sent[0] + msgs);
        }
    } else {
        assert(sent.last() =~= sent[0] + accepted(msgs, refused));
        assert(sent.last() =~= sent[0] + msgs);
    }
}

/// Puts a message into a queue, or gives it back if the queue refuses it.
pub(crate) fn hand_over<T>(tx: &mpsc::UnboundedSender<T>, msg: T) -> (refused: Option<T>)
    ensures
        is_handed_over(*tx, msg, refused),
{
    match tx.unbounded_send(msg) {
        Ok(done) => {
            assert(done == ());
            None
        },
        Err(error) => Some(error.into_inner()),
    }
}

} // verus!
