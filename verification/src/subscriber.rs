//! The subscribers of a shared discovery.
//!
//! The end of a channel that changes are sent into does not leave this module, and
//! [`Subscriber::send`] is the only way into it. So what a subscriber records as sent
//! is all that its channel has accepted, in that order.
use futures::sync::mpsc::{self, UnboundedReceiver, UnboundedSender};
use vstd::prelude::*;

use crate::channel::{accepted, one_channel, refused};
use crate::discover::{Change, Discover};

verus! {

/// The announcement of a subscriber: the end of its channel that changes are sent
/// into, with nothing sent so far.
#[verifier::reject_recursive_types(D)]
pub struct Notify<D: Discover> {
    tx: UnboundedSender<Change<D::Key, D::Service>>,
}

impl<D: Discover> Notify<D> {
    /// The channel.
    pub closed spec fn tx(&self) -> UnboundedSender<Change<D::Key, D::Service>> {
        self.tx
    }

    /// Opens a channel: what announces it, and the end that changes come out of.
    pub fn open() -> (res: (Self, UnboundedReceiver<Change<D::Key, D::Service>>))
        ensures
            one_channel(res.0.tx(), res.1),
    {
        let (tx, rx) = mpsc::unbounded();
        (Notify { tx }, rx)
    }
}

/// A subscriber that is told of changes, and what it was told so far.
#[verifier::reject_recursive_types(D)]
pub struct Subscriber<D: Discover> {
    tx: UnboundedSender<Change<D::Key, D::Service>>,
    sent: Ghost<Seq<Change<D::Key, D::Service>>>,
}

impl<D: Discover> Subscriber<D> {
    /// The channel.
    pub closed spec fn tx(&self) -> UnboundedSender<Change<D::Key, D::Service>> {
        self.tx
    }

    /// The changes that the channel has accepted, in their order.
    pub closed spec fn sent(&self) -> Seq<Change<D::Key, D::Service>> {
        self.sent@
    }

    #[verifier::type_invariant]
    spec fn inv(self) -> bool {
        forall|i: int| 0 <= i < self.sent@.len() ==> accepted(self.tx, #[trigger] self.sent@[i])
    }

    /// The subscriber that announced itself by `notify`, not told anything yet.
    pub fn new(notify: Notify<D>) -> (res: Self)
        ensures
            res.tx() == notify.tx(),
            res.sent() == Seq::<Change<D::Key, D::Service>>::empty(),
    {
        Subscriber { tx: notify.tx, sent: Ghost(Seq::empty()) }
    }

    /// Sends the change, and says whether the channel has accepted it.
    pub fn send(&mut self, change: Change<D::Key, D::Service>) -> (res: bool)
        ensures
            final(self).tx() == old(self).tx(),
            res ==> accepted(old(self).tx(), change) && final(self).sent() == old(
                self,
            ).sent().push(change),
            !res ==> refused(old(self).tx(), change) && final(self).sent() == old(self).sent(),
    {
        proof {
            use_type_invariant(&*self);
        }
        let res = self.tx.unbounded_send(change).is_ok();
        if res {
            self.sent = Ghost(self.sent@.push(change));
        }
        res
    }
}

} // verus!
