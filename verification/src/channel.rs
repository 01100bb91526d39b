//! The unbounded channels of `futures::sync::mpsc`.
use futures::sync::mpsc::{self, SendError, UnboundedReceiver, UnboundedSender};
use vstd::prelude::*;

verus! {

/// `futures::sync::mpsc::UnboundedSender`, opaque: it stands for the channel that
/// it feeds.
#[verifier::external_type_specification]
#[verifier::external_body]
#[verifier::reject_recursive_types(T)]
pub struct ExUnboundedSender<T>(UnboundedSender<T>);

/// `futures::sync::mpsc::UnboundedReceiver`, opaque: carried to whoever polls it.
#[verifier::external_type_specification]
#[verifier::external_body]
#[verifier::reject_recursive_types(T)]
pub struct ExUnboundedReceiver<T>(UnboundedReceiver<T>);

/// `futures::sync::mpsc::SendError`, opaque: it carries the message back.
#[verifier::external_type_specification]
#[verifier::external_body]
#[verifier::reject_recursive_types(T)]
pub struct ExSendError<T>(SendError<T>);

/// `futures::sync::mpsc::unbounded`: both ends of a channel that nothing else has
/// an end of. Nothing is claimed of them but that they came out together, see
/// [`one_channel`].
pub assume_specification<T>[ mpsc::unbounded::<T> ]() -> (res: (
    UnboundedSender<T>,
    UnboundedReceiver<T>,
))
;

/// `futures::sync::mpsc::UnboundedSender::unbounded_send`: the channel accepts the
/// message, or refuses it where the receiver is gone. Which of the two is up to
/// the other end, and nothing is claimed of it; see [`accepted`] and [`refused`].
/// It panics only where more messages wait than half the addresses of a machine, or
/// after another panic: where the receiver was polled outside of a task, the lock that
/// the channel holds then stays poisoned.
pub assume_specification<T>[ UnboundedSender::<T>::unbounded_send ](
    tx: &UnboundedSender<T>,
    msg: T,
) -> (res: Result<(), SendError<T>>)
;

/// `<futures::sync::mpsc::UnboundedSender as Clone>::clone`: another handle that
/// feeds the same channel. It panics only where there are more handles than a
/// quarter of the addresses of a machine.
pub assume_specification<T>[ <UnboundedSender<T> as Clone>::clone ](
    tx: &UnboundedSender<T>,
) -> (res: UnboundedSender<T>)
    ensures
        res == *tx,
;

/// Whether the two came out of one call of `mpsc::unbounded`.
pub open spec fn one_channel<T>(tx: UnboundedSender<T>, rx: UnboundedReceiver<T>) -> bool {
    call_ensures(mpsc::unbounded::<T>, (), (tx, rx))
}

/// Whether sending `msg` through `tx` came back with success.
pub open spec fn accepted<T>(tx: UnboundedSender<T>, msg: T) -> bool {
    exists|res: Result<(), SendError<T>>| #[trigger]
        call_ensures(UnboundedSender::<T>::unbounded_send, (&tx, msg), res) && res is Ok
}

/// Whether sending `msg` through `tx` came back with an error.
pub open spec fn refused<T>(tx: UnboundedSender<T>, msg: T) -> bool {
    exists|res: Result<(), SendError<T>>| #[trigger]
        call_ensures(UnboundedSender::<T>::unbounded_send, (&tx, msg), res) && res is Err
}

} // verus!
