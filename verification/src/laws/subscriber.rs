//! Of the subscribers of a shared discovery.
use futures::sync::mpsc::{self, SendError, UnboundedReceiver, UnboundedSender};
use vstd::prelude::*;

use crate::discover::{Change, Discover};
use crate::subscriber::{Notify, Subscriber};

verus! {

/// An announcement and what it comes with are the two ends of one channel.
pub proof fn law_open<D: Discover>(
    notify: Notify<D>,
    rx: UnboundedReceiver<Change<D::Key, D::Service>>,
)
    requires
        call_ensures(Notify::<D>::open, (), (notify, rx)),
    ensures
        call_ensures(mpsc::unbounded::<Change<D::Key, D::Service>>, (), (notify.tx(), rx)),
{
}

/// One who was just announced has been told nothing.
pub proof fn law_new<D: Discover>(notify: Notify<D>, tx: Subscriber<D>)
    requires
        call_ensures(Subscriber::<D>::new, (notify,), tx),
    ensures
        tx.tx() == notify.tx(),
        tx.sent().len() == 0,
{
}

/// The very change is sent into the subscriber's own channel. Where the channel accepts
/// it, it is the last that the subscriber was told; else the subscriber was told
/// nothing.
pub proof fn law_send<D: Discover>(
    before: Subscriber<D>,
    after: Subscriber<D>,
    change: Change<D::Key, D::Service>,
    res: bool,
)
    requires
        exists|tx: &mut Subscriber<D>|
            *tx == before && *final(tx) == after && #[trigger] call_ensures(
                Subscriber::<D>::send,
                (tx, change),
                res,
            ),
    ensures
        after.tx() == before.tx(),
        exists|outcome: Result<(), SendError<Change<D::Key, D::Service>>>| #[trigger]
            call_ensures(
                UnboundedSender::<Change<D::Key, D::Service>>::unbounded_send,
                (&before.tx(), change),
                outcome,
            ) && (outcome is Ok <==> res),
        res ==> {
            &&& after.sent().len() == before.sent().len() + 1
            &&& after.sent()[before.sent().len() as int] == change
            &&& forall|i: int|
                0 <= i < before.sent().len() ==> #[trigger] after.sent()[i] == before.sent()[i]
        },
        !res ==> after.sent() == before.sent(),
{
}

} // verus!
