//! One discovery shared by many subscribers.
//!
//! A [`Background`] follows the discovery. Each subscriber is told of the
//! services that are known when it comes, and then of each change.
use futures::sync::mpsc::{self, UnboundedReceiver, UnboundedSender};
use std::collections::VecDeque;
use vstd::prelude::*;
use vstd::std_specs::hash::obeys_key_model;

use crate::channel::{accepted, one_channel, refused};
use crate::discover::{Async, Change, Discover};
use crate::ordered_map::{distinct_keys, entries_of, OrderedMap};
use crate::replay::{
    applied, cloned_change, exact_keys, is_snapshot, law_change_keeps_mirror,
    law_snapshot_mirrors, mirrors, replay,
};
use crate::route::{Error, Route};
use crate::subscriber::{Notify, Subscriber};
use crate::svc;

verus! {

/// A clone of the change.
fn clone_change<K: Clone, S: Clone>(change: &Change<K, S>) -> (res: Change<K, S>)
    ensures
        cloned_change(*change, res),
{
    match change {
        Change::Insert(k, s) => Change::Insert(k.clone(), s.clone()),
        Change::Remove(k) => Change::Remove(k.clone()),
    }
}

/// Makes a subscription to the discovery, whatever the route.
#[verifier::reject_recursive_types(D)]
pub struct Stack<D: Discover> {
    notify_tx: UnboundedSender<Notify<D>>,
}

/// A subscription to the discovery: the end of its channel that changes come out of.
#[verifier::reject_recursive_types(D)]
pub struct SharedDiscover<D: Discover> {
    rx: UnboundedReceiver<Change<D::Key, D::Service>>,
}

/// Follows a discovery and tells the subscribers.
#[verifier::reject_recursive_types(D)]
pub struct Background<D: Discover> {
    discover: D,
    notify_rx: Option<UnboundedReceiver<Notify<D>>>,
    notify_txs: VecDeque<Subscriber<D>>,
    cache: OrderedMap<D::Key, D::Service>,
}

/// Whether `share` and `bg` are joined by a channel, and `bg` follows `discover`
/// without any subscriber so far, and without any service that is known.
pub open spec fn is_new<D: Discover>(share: Stack<D>, bg: Background<D>, discover: D) -> bool {
    &&& bg.discover() == discover
    &&& bg.notify_rx() matches Some(rx) && one_channel(share.notify_tx(), rx)
    &&& bg.notify_txs() == Seq::<Subscriber<D>>::empty()
    &&& bg.cache() == Seq::<(D::Key, D::Service)>::empty()
}

/// A way to subscribe to `discover`, and what serves those who do.
pub fn new<D: Discover>(discover: D) -> (res: (Stack<D>, Background<D>))
    ensures
        is_new(res.0, res.1, discover),
{
    let (notify_tx, notify_rx) = mpsc::unbounded();
    let stack = Stack { notify_tx };
    let bg = Background {
        discover,
        notify_rx: Some(notify_rx),
        notify_txs: VecDeque::new(),
        cache: OrderedMap::new(),
    };
    (stack, bg)
}

impl<D: Discover> Stack<D> {
    /// The channel on which subscribers announce themselves.
    pub closed spec fn notify_tx(&self) -> UnboundedSender<Notify<D>> {
        self.notify_tx
    }
}

/// Whether `notify`, whose other end is `shared`, was sent to where subscribers
/// announce themselves.
pub open spec fn announced<D: Discover>(
    stack: Stack<D>,
    notify: Notify<D>,
    shared: SharedDiscover<D>,
) -> bool {
    &&& one_channel(notify.tx(), shared.rx())
    &&& accepted(stack.notify_tx(), notify) || refused(stack.notify_tx(), notify)
}

impl<D: Discover> svc::Stack<Route> for Stack<D> {
    type Value = SharedDiscover<D>;

    type Error = Error;

    /// Opens a channel of its own, sends one end to where subscribers announce
    /// themselves, and keeps the other one. That nobody may listen there any
    /// more is no error.
    fn make(&self, _route: &Route) -> (res: Result<SharedDiscover<D>, Error>)
        ensures
            res is Ok,
            exists|notify: Notify<D>| #[trigger] announced(*self, notify, res->Ok_0),
    {
        let (notify, rx) = Notify::open();
        let ghost handed = notify;
        let _ = self.notify_tx.unbounded_send(notify);
        let shared = SharedDiscover { rx };
        let res: Result<SharedDiscover<D>, Error> = Ok(shared);
        assert(announced(*self, handed, res->Ok_0));
        res
    }
}

impl<D: Discover> Clone for Stack<D> {
    fn clone(&self) -> (res: Stack<D>)
        ensures
            res.notify_tx() == self.notify_tx(),
    {
        Stack { notify_tx: self.notify_tx.clone() }
    }
}

impl<D: Discover> SharedDiscover<D> {
    /// The end of the channel that changes come out of.
    pub closed spec fn rx(&self) -> UnboundedReceiver<Change<D::Key, D::Service>> {
        self.rx
    }

    /// What a poll of the subscription gives, where polling its channel gave
    /// `polled`: the change that came, and nothing yet in every other case, so
    /// that a subscription neither ends nor fails.
    pub fn poll(
        polled: Result<Async<Option<Change<D::Key, D::Service>>>, ()>,
    ) -> (res: Result<Async<Change<D::Key, D::Service>>, D::DiscoverError>)
        ensures
            match polled {
                Ok(Async::Ready(Some(change))) => res == Ok::<_, D::DiscoverError>(
                    Async::Ready(change),
                ),
                _ => res == Ok::<_, D::DiscoverError>(
                    Async::<Change<D::Key, D::Service>>::NotReady,
                ),
            },
    {
        match polled {
            Ok(Async::Ready(Some(change))) => Ok(Async::Ready(change)),
            Ok(Async::Ready(None)) => Ok(Async::NotReady),
            Ok(Async::NotReady) => Ok(Async::NotReady),
            Err(_) => Ok(Async::NotReady),
        }
    }

    /// The channel, to be polled.
    pub fn rx_mut(&mut self) -> (res: &mut UnboundedReceiver<Change<D::Key, D::Service>>)
        ensures
            *res == old(self).rx(),
            final(self).rx() == *final(res),
    {
        &mut self.rx
    }
}

impl<D: Discover> Background<D> {
    /// The discovery that is followed.
    pub closed spec fn discover(&self) -> D {
        self.discover
    }

    /// Where new subscribers are announced, until there can be none.
    pub closed spec fn notify_rx(&self) -> Option<UnboundedReceiver<Notify<D>>> {
        self.notify_rx
    }

    /// The subscribers, in the order in which they are told.
    pub closed spec fn notify_txs(&self) -> Seq<Subscriber<D>> {
        self.notify_txs@
    }

    /// The services that are known, each with its key.
    pub closed spec fn cache(&self) -> Seq<(D::Key, D::Service)> {
        self.cache@
    }
}

impl<D> Background<D> where D: Discover, D::Key: Clone, D::Service: Clone {
    /// Tells `tx`, which has not been told anything, of the services that are known,
    /// one after the other, up to the first that its channel refuses.
    fn update_from_cache(&self, tx: &mut Subscriber<D>) -> (res: Result<(), ()>)
        requires
            old(tx).sent().len() == 0,
        ensures
            final(tx).tx() == old(tx).tx(),
            told_of_cache(*final(tx), self.cache(), res),
    {
        let entries = self.cache.iter();
        for i in 0..entries.len()
            invariant
                entries_of(entries@) == self.cache(),
                tx.tx() == old(tx).tx(),
                is_snapshot(self.cache().take(i as int), tx.sent()),
                forall|j: int|
                    0 <= j < tx.sent().len() ==> accepted(tx.tx(), #[trigger] tx.sent()[j]),
        {
            let (key, svc) = entries[i];
            let change = Change::Insert(key.clone(), svc.clone());
            let ghost handed = change;
            assert(self.cache()[i as int] == (*key, *svc));
            assert(cloned_change(
                Change::Insert(self.cache()[i as int].0, self.cache()[i as int].1),
                handed,
            ));
            if !tx.send(change) {
                return Err(());
            }
        }
        assert(self.cache().take(entries@.len() as int) =~= self.cache());
        Ok(())
    }
}

/// Whether the subscriber was told of the services in `cache` and of nothing else,
/// and its channel accepted that: of all of them, or, with an error, of those before
/// the first that its channel refused.
pub open spec fn told_of_cache<D>(
    tx: Subscriber<D>,
    cache: Seq<(D::Key, D::Service)>,
    res: Result<(), ()>,
) -> bool where D: Discover, D::Key: Clone, D::Service: Clone {
    let n = tx.sent().len() as int;
    &&& n <= cache.len()
    &&& is_snapshot(cache.take(n), tx.sent())
    &&& forall|i: int| 0 <= i < n ==> accepted(tx.tx(), #[trigger] tx.sent()[i])
    &&& res is Ok <==> n == cache.len()
    &&& res is Err ==> exists|change: Change<D::Key, D::Service>| #[trigger]
        refused(tx.tx(), change) && cloned_change(
            Change::Insert(cache[n].0, cache[n].1),
            change,
        )
}

/// Whether `after` is the subscriber `before`, told of a clone of `change`, which its
/// channel accepted, and of nothing else.
pub open spec fn told<D>(
    before: Subscriber<D>,
    after: Subscriber<D>,
    change: Change<D::Key, D::Service>,
) -> bool where D: Discover, D::Key: Clone, D::Service: Clone {
    &&& after.tx() == before.tx()
    &&& exists|copy: Change<D::Key, D::Service>| #[trigger]
        cloned_change(change, copy) && accepted(before.tx(), copy) && after.sent()
            == before.sent().push(copy)
}

/// Whether the channel of the subscriber refused a clone of `change`.
pub open spec fn gone<D>(tx: Subscriber<D>, change: Change<D::Key, D::Service>) -> bool where
    D: Discover,
    D::Key: Clone,
    D::Service: Clone,
 {
    exists|copy: Change<D::Key, D::Service>| #[trigger]
        refused(tx.tx(), copy) && cloned_change(change, copy)
}

/// Whether, of the subscribers `before`, those at the places `kept` are left, in
/// the same order and told of `change`, and those at the other places are gone.
pub open spec fn all_told<D>(
    before: Seq<Subscriber<D>>,
    after: Seq<Subscriber<D>>,
    kept: Seq<int>,
    change: Change<D::Key, D::Service>,
) -> bool where D: Discover, D::Key: Clone, D::Service: Clone {
    &&& after.len() == kept.len()
    &&& forall|j: int|
        0 <= j < kept.len() ==> 0 <= #[trigger] kept[j] < before.len() && told(
            before[kept[j]],
            after[j],
            change,
        )
    &&& forall|j: int, k: int| 0 <= j < k < kept.len() ==> #[trigger] kept[j] < #[trigger] kept[k]
    &&& forall|i: int|
        0 <= i < before.len() && !kept.contains(i) ==> gone(#[trigger] before[i], change)
}

impl<D> Background<D> where D: Discover, D::Key: Clone, D::Service: Clone {
    /// Tells every subscriber of the change, and lets go of those whose channel
    /// refuses it.
    fn notify_notify_txs(&mut self, change: &Change<D::Key, D::Service>)
        ensures
            exists|kept: Seq<int>| #[trigger]
                all_told(old(self).notify_txs(), final(self).notify_txs(), kept, *change),
            final(self).discover() == old(self).discover(),
            final(self).notify_rx() == old(self).notify_rx(),
            final(self).cache() == old(self).cache(),
    {
        let n = self.notify_txs.len();
        let ghost before = self.notify_txs@;
        let ghost mut kept: Seq<int> = Seq::empty();
        let ghost mut done: Seq<Subscriber<D>> = Seq::empty();
        assert(self.notify_txs@ =~= before.skip(0) + done);
        for i in 0..n
            invariant
                n == before.len(),
                self.notify_txs@ == before.skip(i as int) + done,
                all_told(before.take(i as int), done, kept, *change),
                self.discover() == old(self).discover(),
                self.notify_rx() == old(self).notify_rx(),
                self.cache() == old(self).cache(),
        {
            let ghost was = self.notify_txs@;
            assert(was[0] == before[i as int]);
            if let Some(mut tx) = self.notify_txs.pop_front() {
                let copy = clone_change(change);
                let ghost handed = copy;
                let ghost earlier = tx;
                let sent = tx.send(copy);
                let ghost later = tx;
                self.keep_if_sent(tx, sent);
                proof {
                    assert(was.subrange(1, was.len() as int) =~= before.skip(i + 1) + done);
                    let told_before = done;
                    let kept_before = kept;
                    if sent {
                        assert(told(earlier, later, *change)) by {
                            assert(cloned_change(*change, handed));
                        }
                        kept = kept.push(i as int);
                        done = done.push(later);
                    } else {
                        assert(gone(earlier, *change)) by {
                            assert(refused(earlier.tx(), handed));
                        }
                    }
                    assert(self.notify_txs@ =~= before.skip(i + 1) + done);
                    lemma_told_step(before, i as int, told_before, kept_before, later, sent, *change);
                }
            }
        }
        assert(before.take(n as int) =~= before);
        assert(before.skip(n as int) + done =~= done);
        assert(all_told(old(self).notify_txs(), self.notify_txs(), kept, *change));
    }

    /// Keeps the subscriber where the last change sent to it was accepted.
    fn keep_if_sent(&mut self, tx: Subscriber<D>, sent: bool)
        ensures
            final(self).notify_txs() == if sent {
                old(self).notify_txs().push(tx)
            } else {
                old(self).notify_txs()
            },
            final(self).discover() == old(self).discover(),
            final(self).notify_rx() == old(self).notify_rx(),
            final(self).cache() == old(self).cache(),
    {
        if sent {
            self.notify_txs.push_back(tx);
        }
    }
}

/// One more subscriber, told of the change or gone.
proof fn lemma_told_step<D>(
    before: Seq<Subscriber<D>>,
    i: int,
    done: Seq<Subscriber<D>>,
    kept: Seq<int>,
    later: Subscriber<D>,
    sent: bool,
    change: Change<D::Key, D::Service>,
) where D: Discover, D::Key: Clone, D::Service: Clone
    requires
        0 <= i < before.len(),
        all_told(before.take(i), done, kept, change),
        sent ==> told(before[i], later, change),
        !sent ==> gone(before[i], change),
    ensures
        sent ==> all_told(before.take(i + 1), done.push(later), kept.push(i), change),
        !sent ==> all_told(before.take(i + 1), done, kept, change),
{
    let shorter = before.take(i);
    let longer = before.take(i + 1);
    assert forall|j: int| 0 <= j < i implies longer[j] == #[trigger] shorter[j] by {}
    if sent {
        let more = kept.push(i);
        assert forall|j: int|
            0 <= j < longer.len() && !more.contains(j) implies gone(#[trigger] longer[j], change) by {
            if kept.contains(j) {
                let k = choose|k: int| 0 <= k < kept.len() && kept[k] == j;
                assert(more[k] == j);
            }
            if j == i {
                assert(more[kept.len() as int] == i);
            } else {
                assert(shorter[j] == longer[j]);
            }
        }
        assert forall|j: int| 0 <= j < more.len() implies 0 <= #[trigger] more[j] < longer.len()
            && told(longer[more[j]], done.push(later)[j], change) by {
            if j < kept.len() {
                assert(kept[j] == more[j]);
            }
        }
        assert forall|j: int, k: int| 0 <= j < k < more.len() implies #[trigger] more[j]
            < #[trigger] more[k] by {
            if k < kept.len() {
                assert(kept[j] < kept[k]);
            } else {
                assert(kept[j] < i);
            }
        }
    } else {
        assert forall|j: int|
            0 <= j < longer.len() && !kept.contains(j) implies gone(#[trigger] longer[j], change) by {
            if j < i {
                assert(shorter[j] == longer[j]);
            }
        }
        assert forall|j: int| 0 <= j < kept.len() implies 0 <= #[trigger] kept[j] < longer.len()
            && told(longer[kept[j]], done[j], change) by {}
    }
}

/// What polling on behalf of a [`Background`] gave.
#[verifier::reject_recursive_types(D)]
pub enum Event<D: Discover> {
    /// What came of polling for new subscribers, where there still can be some.
    NotifyRx(Option<Result<Async<Option<Notify<D>>>, ()>>),
    /// What came of polling the discovery.
    Discover(Result<Async<Change<D::Key, D::Service>>, D::DiscoverError>),
}

/// What has to be done next on behalf of a [`Background`].
pub enum Step<E> {
    /// Poll for new subscribers.
    PollNotifyRx,
    /// Poll the discovery.
    PollDiscover,
    /// Stop polling: this is what the poll as a whole gives.
    Return(Result<Async<()>, E>),
}

/// Whether `tx`, announced by `notify`, was told of the services that are known, and
/// `after` is `before` with `tx` behind the other subscribers, or just `before` where
/// its channel refused one of the services.
pub open spec fn subscribed<D>(
    before: Background<D>,
    after: Background<D>,
    notify: Notify<D>,
    tx: Subscriber<D>,
) -> bool where D: Discover, D::Key: Clone, D::Service: Clone {
    &&& tx.tx() == notify.tx()
    &&& {
        ||| told_of_cache(tx, before.cache(), Ok(())) && after.notify_txs()
            == before.notify_txs().push(tx)
        ||| told_of_cache(tx, before.cache(), Err(())) && after.notify_txs()
            == before.notify_txs()
    }
    &&& after.discover() == before.discover()
    &&& after.notify_rx() == before.notify_rx()
    &&& after.cache() == before.cache()
}

impl<D> Background<D> where D: Discover, D::Key: Clone, D::Service: Clone {
    /// Takes note of what came of polling for new subscribers, and says whether to
    /// poll again.
    fn poll_notify_rx(
        &mut self,
        polled: Option<Result<Async<Option<Notify<D>>>, ()>>,
    ) -> (again: bool)
        ensures
            match polled {
                Some(Ok(Async::NotReady)) => !again && *final(self) == *old(self),
                Some(Ok(Async::Ready(Some(notify)))) => again && exists|tx: Subscriber<D>| #[trigger]
                    subscribed(*old(self), *final(self), notify, tx),
                _ => {
                    &&& !again
                    &&& final(self).notify_rx() is None
                    &&& final(self).notify_txs() == old(self).notify_txs()
                    &&& final(self).discover() == old(self).discover()
                    &&& final(self).cache() == old(self).cache()
                },
            },
    {
        match polled {
            Some(Ok(Async::NotReady)) => false,
            None | Some(Err(_)) | Some(Ok(Async::Ready(None))) => {
                self.notify_rx = None;
                false
            },
            Some(Ok(Async::Ready(Some(notify)))) => {
                let ghost announced = notify;
                let mut tx = Subscriber::new(notify);
                let sent = self.update_from_cache(&mut tx).is_ok();
                let ghost later = tx;
                self.keep_if_sent(tx, sent);
                assert(subscribed(*old(self), *self, announced, later));
                true
            },
        }
    }
}

/// Whether `after` is `before`, with every subscriber told of `change`, those at
/// the places `kept` being left, and with the change made to what is known. What
/// is known after is said of keys that are fit for a hash table.
pub open spec fn changed<D>(
    before: Background<D>,
    after: Background<D>,
    change: Change<D::Key, D::Service>,
    kept: Seq<int>,
) -> bool where D: Discover, D::Key: Clone, D::Service: Clone {
    &&& all_told(before.notify_txs(), after.notify_txs(), kept, change)
    &&& after.discover() == before.discover()
    &&& after.notify_rx() == before.notify_rx()
    &&& obeys_key_model::<D::Key>() ==> after.cache() == applied(before.cache(), change)
}

/// Whether the event announces a subscriber.
pub open spec fn announces<D: Discover>(event: Event<D>) -> bool {
    event matches Event::NotifyRx(Some(Ok(Async::Ready(Some(_)))))
}

/// Whether the event says that nobody can subscribe any more: there is no end to poll
/// at which subscribers announce themselves, or polling it came to its end or failed.
pub open spec fn closes<D: Discover>(event: Event<D>) -> bool {
    match event {
        Event::NotifyRx(None) => true,
        Event::NotifyRx(Some(Err(_))) => true,
        Event::NotifyRx(Some(Ok(Async::Ready(None)))) => true,
        _ => false,
    }
}

/// Whether nobody is subscribed and nobody can subscribe any more.
pub open spec fn is_done<D: Discover>(bg: Background<D>) -> bool {
    bg.notify_rx() is None && bg.notify_txs().len() == 0
}

impl<D> Background<D> where D: Discover, D::Key: Clone, D::Service: Clone {
    /// Whether each subscriber knows what is known here: following the changes that
    /// its channel has accepted, from nothing on, gives the same services.
    pub open spec fn in_sync(&self) -> bool {
        &&& distinct_keys(self.cache())
        &&& forall|i: int|
            0 <= i < self.notify_txs().len() ==> mirrors(
                self.cache(),
                replay((#[trigger] self.notify_txs()[i]).sent()),
            )
    }

    /// Makes the change to what is known.
    fn update_cache(&mut self, change: Change<D::Key, D::Service>)
        ensures
            obeys_key_model::<D::Key>() ==> final(self).cache() == applied(
                old(self).cache(),
                change,
            ),
            final(self).discover() == old(self).discover(),
            final(self).notify_rx() == old(self).notify_rx(),
            final(self).notify_txs() == old(self).notify_txs(),
    {
        match change {
            Change::Insert(key, svc) => {
                self.cache.insert(key, svc);
            },
            Change::Remove(key) => {
                self.cache.remove(&key);
            },
        }
    }

    /// Takes note of what polling gave, and says what to do next. A poll as a
    /// whole starts with [`Step::PollNotifyRx`].
    pub fn poll(&mut self, event: Event<D>) -> (step: Step<D::DiscoverError>)
        ensures
            match event {
                Event::NotifyRx(Some(Ok(Async::Ready(Some(notify))))) => {
                    &&& step is PollNotifyRx
                    &&& exists|tx: Subscriber<D>| #[trigger]
                        subscribed(*old(self), *final(self), notify, tx)
                },
                Event::NotifyRx(polled) => {
                    &&& step == if is_done(*final(self)) {
                        Step::<D::DiscoverError>::Return(Ok(Async::Ready(())))
                    } else {
                        Step::PollDiscover
                    }
                    &&& final(self).notify_rx() == if polled == Some(
                        Ok::<Async<Option<Notify<D>>>, ()>(Async::NotReady),
                    ) {
                        old(self).notify_rx()
                    } else {
                        None
                    }
                    &&& final(self).notify_txs() == old(self).notify_txs()
                    &&& final(self).discover() == old(self).discover()
                    &&& final(self).cache() == old(self).cache()
                },
                Event::Discover(Ok(Async::Ready(change))) => {
                    &&& step is PollNotifyRx
                    &&& exists|kept: Seq<int>| #[trigger]
                        changed(*old(self), *final(self), change, kept)
                    &&& final(self).notify_txs().len() <= old(self).notify_txs().len()
                },
                Event::Discover(Ok(Async::NotReady)) => {
                    &&& step == Step::<D::DiscoverError>::Return(Ok(Async::NotReady))
                    &&& *final(self) == *old(self)
                },
                Event::Discover(Err(err)) => {
                    &&& step == Step::<D::DiscoverError>::Return(Err(err))
                    &&& *final(self) == *old(self)
                },
            },
            final(self).discover() == old(self).discover(),
            is_done(*old(self)) && !announces(event) ==> is_done(*final(self)),
            final(self).notify_rx() is None <==> old(self).notify_rx() is None || closes(event),
            step matches Step::Return(Ok(Async::Ready(()))) <==> {
                &&& event is NotifyRx
                &&& !announces(event)
                &&& is_done(*final(self))
            },
            exact_keys::<D::Key>() && old(self).in_sync() ==> final(self).in_sync(),
    {
        proof {
            if exact_keys::<D::Key>() && self.in_sync() {
                lemma_stays_in_sync(*self);
            }
        }
        match event {
            Event::NotifyRx(polled) => {
                if self.poll_notify_rx(polled) {
                    return Step::PollNotifyRx;
                }
                if self.notify_rx.is_none() && self.notify_txs.len() == 0 {
                    return Step::Return(Ok(Async::Ready(())));
                }
                Step::PollDiscover
            },
            Event::Discover(Ok(Async::Ready(change))) => {
                self.notify_notify_txs(&change);
                let ghost kept = choose|kept: Seq<int>| #[trigger]
                    all_told(old(self).notify_txs(), self.notify_txs(), kept, change);
                let ghost made = change;
                self.update_cache(change);
                assert(changed(*old(self), *self, made, kept));
                proof {
                    law_change_brings_nobody(
                        old(self).notify_txs(),
                        self.notify_txs(),
                        kept,
                        made,
                    );
                }
                Step::PollNotifyRx
            },
            Event::Discover(Ok(Async::NotReady)) => Step::Return(Ok(Async::NotReady)),
            Event::Discover(Err(err)) => Step::Return(Err(err)),
        }
    }

    /// Where new subscribers are announced, to be polled.
    pub fn notify_rx_mut(&mut self) -> (res: Option<&mut UnboundedReceiver<Notify<D>>>)
        ensures
            res is Some <==> old(self).notify_rx() is Some,
            match res {
                Some(rx) => old(self).notify_rx() == Some(*rx) && final(self).notify_rx() == Some(
                    *final(rx),
                ),
                None => final(self).notify_rx() is None,
            },
            final(self).notify_txs() == old(self).notify_txs(),
            final(self).discover() == old(self).discover(),
            final(self).cache() == old(self).cache(),
    {
        self.notify_rx.as_mut()
    }

    /// The discovery, to be polled.
    pub fn discover_mut(&mut self) -> (res: &mut D)
        ensures
            *res == old(self).discover(),
            final(self).discover() == *final(res),
            final(self).notify_rx() == old(self).notify_rx(),
            final(self).notify_txs() == old(self).notify_txs(),
            final(self).cache() == old(self).cache(),
    {
        &mut self.discover
    }
}

/// Subscribers stay in sync where one comes and where a change is made.
proof fn lemma_stays_in_sync<D>(before: Background<D>) where
    D: Discover,
    D::Key: Clone,
    D::Service: Clone,

    requires
        exact_keys::<D::Key>(),
        before.in_sync(),
    ensures
        forall|after: Background<D>, notify: Notify<D>, tx: Subscriber<D>| #[trigger]
            subscribed(before, after, notify, tx) ==> after.in_sync(),
        forall|
            after: Background<D>,
            change: Change<D::Key, D::Service>,
            kept: Seq<int>,
        | #[trigger] changed(before, after, change, kept) ==> after.in_sync(),
{
    assert forall|after: Background<D>, notify: Notify<D>, tx: Subscriber<D>| #[trigger]
        subscribed(before, after, notify, tx) implies after.in_sync() by {
        law_subscriber_in_sync(before, after, notify, tx);
    }
    assert forall|after: Background<D>, change: Change<D::Key, D::Service>, kept: Seq<int>| #[trigger]
        changed(before, after, change, kept) implies after.in_sync() by {
        law_change_in_sync(before, after, change, kept);
    }
}

/// A subscriber that comes is in sync with all the others, whatever was known when
/// it came.
pub proof fn law_subscriber_in_sync<D>(
    before: Background<D>,
    after: Background<D>,
    notify: Notify<D>,
    tx: Subscriber<D>,
) where D: Discover, D::Key: Clone, D::Service: Clone
    requires
        exact_keys::<D::Key>(),
        before.in_sync(),
        subscribed(before, after, notify, tx),
    ensures
        after.in_sync(),
{
    if after.notify_txs() != before.notify_txs() {
        assert(before.cache().take(tx.sent().len() as int) =~= before.cache());
        law_snapshot_mirrors(before.cache(), tx.sent());
        assert forall|i: int| 0 <= i < after.notify_txs().len() implies mirrors(
            after.cache(),
            replay((#[trigger] after.notify_txs()[i]).sent()),
        ) by {
            if i < before.notify_txs().len() {
                assert(after.notify_txs()[i] == before.notify_txs()[i]);
            }
        }
    }
}

/// The subscribers that are left after a change are in sync with what is known
/// after it.
pub proof fn law_change_in_sync<D>(
    before: Background<D>,
    after: Background<D>,
    change: Change<D::Key, D::Service>,
    kept: Seq<int>,
) where D: Discover, D::Key: Clone, D::Service: Clone
    requires
        exact_keys::<D::Key>(),
        before.in_sync(),
        changed(before, after, change, kept),
    ensures
        after.in_sync(),
{
    law_change_keeps_mirror(before.cache(), before.cache(), change, change);
    assert forall|j: int| 0 <= j < after.notify_txs().len() implies mirrors(
        after.cache(),
        replay((#[trigger] after.notify_txs()[j]).sent()),
    ) by {
        let earlier = before.notify_txs()[kept[j]];
        let later = after.notify_txs()[j];
        assert(told(earlier, later, change));
        let copy = choose|copy: Change<D::Key, D::Service>| #[trigger]
            cloned_change(change, copy) && later.sent() == earlier.sent().push(copy);
        assert(later.sent().drop_last() =~= earlier.sent());
        law_change_keeps_mirror(before.cache(), replay(earlier.sent()), change, copy);
    }
}

/// Without subscribers all of them are in sync.
pub proof fn law_new_in_sync<D>(share: Stack<D>, bg: Background<D>, discover: D) where
    D: Discover,
    D::Key: Clone,
    D::Service: Clone,

    requires
        is_new(share, bg, discover),
    ensures
        bg.in_sync(),
{
}

/// A change brings no subscriber.
pub proof fn law_change_brings_nobody<D>(
    before: Seq<Subscriber<D>>,
    after: Seq<Subscriber<D>>,
    kept: Seq<int>,
    change: Change<D::Key, D::Service>,
) where D: Discover, D::Key: Clone, D::Service: Clone
    requires
        all_told(before, after, kept, change),
    ensures
        after.len() <= before.len(),
{
    lemma_increasing(kept, before.len() as int);
}

/// A subscriber whose channel accepts no clone of a change is let go when the change
/// is made.
pub proof fn law_deaf_subscriber_leaves<D>(
    before: Seq<Subscriber<D>>,
    after: Seq<Subscriber<D>>,
    kept: Seq<int>,
    change: Change<D::Key, D::Service>,
    i: int,
) where D: Discover, D::Key: Clone, D::Service: Clone
    requires
        all_told(before, after, kept, change),
        0 <= i < before.len(),
        forall|copy: Change<D::Key, D::Service>|
            cloned_change(change, copy) ==> !#[trigger] accepted(before[i].tx(), copy),
    ensures
        !kept.contains(i),
        before.len() == 1 ==> after.len() == 0,
{
    if kept.contains(i) {
        let j = choose|j: int| 0 <= j < kept.len() && kept[j] == i;
        assert(told(before[kept[j]], after[j], change));
    }
    if before.len() == 1 && kept.len() > 0 {
        assert(0 <= kept[0] < before.len());
        assert(kept.contains(i));
    }
}

/// A subscriber whose channel refuses no clone of a change stays when the change is
/// made.
pub proof fn law_listening_subscriber_stays<D>(
    before: Seq<Subscriber<D>>,
    after: Seq<Subscriber<D>>,
    kept: Seq<int>,
    change: Change<D::Key, D::Service>,
    i: int,
) where D: Discover, D::Key: Clone, D::Service: Clone
    requires
        all_told(before, after, kept, change),
        0 <= i < before.len(),
        forall|copy: Change<D::Key, D::Service>|
            cloned_change(change, copy) ==> !#[trigger] refused(before[i].tx(), copy),
    ensures
        kept.contains(i),
{
    if !kept.contains(i) {
        assert(gone(before[i], change));
    }
}

/// The subscribers at these places.
pub open spec fn at_places<D: Discover>(
    all: Seq<Subscriber<D>>,
    places: Seq<int>,
) -> Seq<Subscriber<D>> {
    Seq::new(places.len(), |p: int| all[places[p]])
}

/// Those who leave at a change make no difference to the others: with only some of the
/// subscribers, among them all who stay, the change leads to the same state.
pub proof fn law_gone_make_no_difference<D>(
    before: Background<D>,
    after: Background<D>,
    fewer: Background<D>,
    change: Change<D::Key, D::Service>,
    kept: Seq<int>,
    places: Seq<int>,
) -> (kept_of_fewer: Seq<int>) where D: Discover, D::Key: Clone, D::Service: Clone
    requires
        changed(before, after, change, kept),
        forall|p: int| 0 <= p < places.len() ==> 0 <= #[trigger] places[p]
            < before.notify_txs().len(),
        forall|p: int, q: int|
            0 <= p < q < places.len() ==> #[trigger] places[p] < #[trigger] places[q],
        forall|j: int| 0 <= j < kept.len() ==> places.contains(#[trigger] kept[j]),
        fewer.notify_txs() == at_places(before.notify_txs(), places),
        fewer.cache() == before.cache(),
        fewer.discover() == before.discover(),
        fewer.notify_rx() == before.notify_rx(),
    ensures
        changed(fewer, after, change, kept_of_fewer),
{
    let all = before.notify_txs();
    let some = fewer.notify_txs();
    let found = Seq::new(kept.len(), |j: int| places.index_of(kept[j]));
    assert forall|j: int| 0 <= j < found.len() implies 0 <= #[trigger] found[j] < some.len()
        && places[found[j]] == kept[j] && told(some[found[j]], after.notify_txs()[j], change) by {
        assert(places.contains(kept[j]));
        assert(told(all[kept[j]], after.notify_txs()[j], change));
    }
    assert forall|j: int, k: int| 0 <= j < k < found.len() implies #[trigger] found[j]
        < #[trigger] found[k] by {
        assert(kept[j] < kept[k]);
        assert(places[found[j]] < places[found[k]]);
        if found[k] < found[j] {
            assert(places[found[k]] < places[found[j]]);
        }
    }
    assert forall|p: int| 0 <= p < some.len() && !found.contains(p) implies gone(
        #[trigger] some[p],
        change,
    ) by {
        assert(0 <= places[p] < all.len());
        if kept.contains(places[p]) {
            let j = choose|j: int| 0 <= j < kept.len() && kept[j] == places[p];
            assert(places[found[j]] == places[p]);
            if found[j] < p {
                assert(places[found[j]] < places[p]);
            }
            if p < found[j] {
                assert(places[p] < places[found[j]]);
            }
            assert(found[j] == p);
        }
        assert(gone(all[places[p]], change));
    }
    found
}

/// Whether the subscriber was told of the services `known` and then of `changes`, of
/// all of them, in their order, and of nothing else.
pub open spec fn followed<D>(
    tx: Subscriber<D>,
    known: Seq<(D::Key, D::Service)>,
    changes: Seq<Change<D::Key, D::Service>>,
) -> bool where D: Discover, D::Key: Clone, D::Service: Clone {
    let n = known.len() as int;
    &&& tx.sent().len() == n + changes.len()
    &&& is_snapshot(known, tx.sent().take(n))
    &&& forall|i: int| n <= i < n + changes.len() ==> cloned_change(
        changes[i - n],
        #[trigger] tx.sent()[i],
    )
}

/// A subscriber that comes is first told exactly of what is known.
pub proof fn law_snapshot_comes_first<D>(
    tx: Subscriber<D>,
    known: Seq<(D::Key, D::Service)>,
) where D: Discover, D::Key: Clone, D::Service: Clone
    requires
        told_of_cache(tx, known, Ok(())),
    ensures
        followed(tx, known, Seq::empty()),
{
    assert(known.take(known.len() as int) =~= known);
    assert(tx.sent().take(known.len() as int) =~= tx.sent());
}

/// A subscriber that stays is then told exactly of the changes, one after the other.
pub proof fn law_changes_come_next<D>(
    before: Subscriber<D>,
    after: Subscriber<D>,
    known: Seq<(D::Key, D::Service)>,
    changes: Seq<Change<D::Key, D::Service>>,
    change: Change<D::Key, D::Service>,
) where D: Discover, D::Key: Clone, D::Service: Clone
    requires
        followed(before, known, changes),
        told(before, after, change),
    ensures
        followed(after, known, changes.push(change)),
{
    let n = known.len() as int;
    assert(after.sent().take(n) =~= before.sent().take(n));
    assert forall|i: int| n <= i < n + changes.push(change).len() implies cloned_change(
        changes.push(change)[i - n],
        #[trigger] after.sent()[i],
    ) by {
        if i < n + changes.len() {
            assert(after.sent()[i] == before.sent()[i]);
        }
    }
}

/// There are at most `n` places below `n`.
proof fn lemma_increasing(places: Seq<int>, n: int)
    requires
        0 <= n,
        forall|j: int| 0 <= j < places.len() ==> 0 <= #[trigger] places[j] < n,
        forall|j: int, k: int|
            0 <= j < k < places.len() ==> #[trigger] places[j] < #[trigger] places[k],
    ensures
        places.len() <= n,
    decreases n,
{
    if places.len() > 0 {
        assert(0 <= places[0] < n);
        let fewer = places.drop_last();
        assert forall|j: int| 0 <= j < fewer.len() implies 0 <= #[trigger] fewer[j] < n - 1 by {
            assert(places[j] < places[places.len() - 1]);
        }
        assert forall|j: int, k: int| 0 <= j < k < fewer.len() implies #[trigger] fewer[j]
            < #[trigger] fewer[k] by {
            assert(places[j] < places[k]);
        }
        lemma_increasing(fewer, n - 1);
    }
}

} // verus!
