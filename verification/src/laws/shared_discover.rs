//! Of one discovery shared by many subscribers.
use futures::sync::mpsc::{self, SendError, UnboundedReceiver, UnboundedSender};
use vstd::prelude::*;
use vstd::std_specs::hash::obeys_key_model;

use crate::channel::{accepted, refused};
use crate::discover::{Async, Change, Discover};
use crate::replay::{cloned_change, exact_keys, is_snapshot, replay};
use crate::route::{Error, Route};
use crate::shared_discover;
use crate::shared_discover::{
    all_told, changed, gone, subscribed, told, told_of_cache, Background, Event, SharedDiscover,
    Stack, Step,
};
use crate::subscriber::{Notify, Subscriber};
use crate::svc;

verus! {

/// At first the discovery is followed as it came, nothing is known and nobody has
/// subscribed; those who subscribe announce themselves at the other end of a channel.
pub proof fn law_new<D: Discover>(discover: D, share: Stack<D>, bg: Background<D>)
    requires
        call_ensures(shared_discover::new::<D>, (discover,), (share, bg)),
    ensures
        bg.discover() == discover,
        bg.cache().len() == 0,
        bg.notify_txs().len() == 0,
        bg.notify_rx() matches Some(rx) && call_ensures(
            mpsc::unbounded::<Notify<D>>,
            (),
            (share.notify_tx(), rx),
        ),
{
}

/// Subscribing succeeds, whatever the route: of a channel that was opened, one end is
/// sent to where subscribers announce themselves, and the other is handed out.
pub proof fn law_make<D: Discover>(
    share: &Stack<D>,
    route: &Route,
    res: Result<SharedDiscover<D>, Error>,
)
    requires
        call_ensures(<Stack<D> as svc::Stack<Route>>::make, (share, route), res),
    ensures
        res matches Ok(shared) && exists|notify: Notify<D>, sent: Result<(), SendError<Notify<D>>>|
            call_ensures(
                mpsc::unbounded::<Change<D::Key, D::Service>>,
                (),
                (notify.tx(), shared.rx()),
            ) && #[trigger] call_ensures(
                UnboundedSender::<Notify<D>>::unbounded_send,
                (&share.notify_tx(), notify),
                sent,
            ),
{
    let notify = choose|notify: Notify<D>| #[trigger]
        shared_discover::announced(*share, notify, res->Ok_0);
    assert(accepted(share.notify_tx(), notify) || refused(share.notify_tx(), notify));
}

/// A clone announces subscribers at the same place.
pub proof fn law_clone<D: Discover>(share: &Stack<D>, copy: Stack<D>)
    requires
        call_ensures(<Stack<D> as Clone>::clone, (share,), copy),
    ensures
        copy.notify_tx() == share.notify_tx(),
{
}

/// A subscription gives each change as it comes, and nothing yet in every other case.
pub proof fn law_poll_shared<D: Discover>(
    polled: Result<Async<Option<Change<D::Key, D::Service>>>, ()>,
    res: Result<Async<Change<D::Key, D::Service>>, D::DiscoverError>,
)
    requires
        call_ensures(SharedDiscover::<D>::poll, (polled,), res),
    ensures
        res is Ok,
        polled matches Ok(Async::Ready(Some(change))) ==> res->Ok_0 == Async::Ready(change),
        !(polled matches Ok(Async::Ready(Some(_)))) ==> res->Ok_0 is NotReady,
{
}

/// The kind of a change, its key and its service are told as clones.
pub proof fn law_clone_of_change<K: Clone, S: Clone>(change: Change<K, S>, copy: Change<K, S>)
    requires
        cloned_change(change, copy),
    ensures
        change matches Change::Insert(k, s) ==> copy matches Change::Insert(l, t) && cloned(k, l)
            && cloned(s, t),
        change matches Change::Remove(k) ==> copy matches Change::Remove(l) && cloned(k, l),
{
}

/// One who is announced is told of each service that is known, in their order, and of
/// nothing else, and then stands behind the other subscribers, who are told nothing.
/// Where its channel refuses one of these insertions it is not taken in. In both cases
/// all else stays as it is, and others who want to subscribe are looked for next.
pub proof fn law_newcomer<D>(
    before: Background<D>,
    after: Background<D>,
    notify: Notify<D>,
    step: Step<D::DiscoverError>,
    tx: Subscriber<D>,
) where D: Discover, D::Key: Clone, D::Service: Clone
    requires
        after.notify_txs().len() > before.notify_txs().len() ==> tx
            == after.notify_txs()[before.notify_txs().len() as int],
        exists|bg: &mut Background<D>|
            *bg == before && *final(bg) == after && #[trigger] call_ensures(
                Background::<D>::poll,
                (bg, Event::NotifyRx(Some(Ok(Async::Ready(Some(notify)))))),
                step,
            ),
    ensures
        step is PollNotifyRx,
        after.cache() == before.cache(),
        after.discover() == before.discover(),
        after.notify_rx() == before.notify_rx(),
        after.notify_txs().len() == before.notify_txs().len() || after.notify_txs().len()
            == before.notify_txs().len() + 1,
        forall|i: int|
            0 <= i < before.notify_txs().len() ==> #[trigger] after.notify_txs()[i]
                == before.notify_txs()[i],
        after.notify_txs().len() > before.notify_txs().len() ==> {
            &&& tx.tx() == notify.tx()
            &&& tx.sent().len() == before.cache().len()
            &&& forall|i: int|
                0 <= i < before.cache().len() ==> ((#[trigger] tx.sent()[i]) matches Change::Insert(
                    k,
                    s,
                ) && cloned(before.cache()[i].0, k) && cloned(before.cache()[i].1, s))
            &&& forall|i: int|
                0 <= i < tx.sent().len() ==> exists|
                    outcome: Result<(), SendError<Change<D::Key, D::Service>>>,
                | #[trigger]
                    call_ensures(
                        UnboundedSender::<Change<D::Key, D::Service>>::unbounded_send,
                        (&notify.tx(), #[trigger] tx.sent()[i]),
                        outcome,
                    ) && outcome is Ok
        },
        after.notify_txs().len() == before.notify_txs().len() ==> exists|
            n: int,
            copy: Change<D::Key, D::Service>,
            outcome: Result<(), SendError<Change<D::Key, D::Service>>>,
        |
            0 <= n < before.cache().len() && #[trigger] cloned_change(
                Change::Insert(before.cache()[n].0, before.cache()[n].1),
                copy,
            ) && #[trigger] call_ensures(
                UnboundedSender::<Change<D::Key, D::Service>>::unbounded_send,
                (&notify.tx(), copy),
                outcome,
            ) && outcome is Err,
{
    let told_one = choose|told_one: Subscriber<D>| #[trigger]
        subscribed(before, after, notify, told_one);
    if told_of_cache(told_one, before.cache(), Ok(())) && after.notify_txs()
        == before.notify_txs().push(told_one) {
        assert(tx == told_one);
        assert(before.cache().take(tx.sent().len() as int) =~= before.cache());
        assert(is_snapshot(before.cache(), tx.sent()));
        assert forall|i: int| 0 <= i < before.cache().len() implies ((
        #[trigger] tx.sent()[i]) matches Change::Insert(k, s) && cloned(before.cache()[i].0, k)
            && cloned(before.cache()[i].1, s)) by {
            law_clone_of_change(
                Change::Insert(before.cache()[i].0, before.cache()[i].1),
                tx.sent()[i],
            );
        }
        assert forall|i: int| 0 <= i < tx.sent().len() implies exists|
            outcome: Result<(), SendError<Change<D::Key, D::Service>>>,
        | #[trigger]
            call_ensures(
                UnboundedSender::<Change<D::Key, D::Service>>::unbounded_send,
                (&notify.tx(), #[trigger] tx.sent()[i]),
                outcome,
            ) && outcome is Ok by {
            assert(accepted(tx.tx(), tx.sent()[i]));
        }
    } else {
        let tx = told_one;
        let n = tx.sent().len() as int;
        let copy = choose|copy: Change<D::Key, D::Service>| #[trigger]
            refused(tx.tx(), copy) && cloned_change(
                Change::Insert(before.cache()[n].0, before.cache()[n].1),
                copy,
            );
        assert(refused(notify.tx(), copy));
        assert(0 <= n < before.cache().len());
    }
}

/// Every subscriber is told of a change by a clone of it, and of nothing else: those
/// whose channel accepts it stay, in the same order, and those whose channel refuses
/// it go. The places of those who stay are given.
pub proof fn law_change_is_told<D>(
    before: Background<D>,
    after: Background<D>,
    change: Change<D::Key, D::Service>,
    step: Step<D::DiscoverError>,
) -> (kept: Seq<int>) where D: Discover, D::Key: Clone, D::Service: Clone
    requires
        exists|bg: &mut Background<D>|
            *bg == before && *final(bg) == after && #[trigger] call_ensures(
                Background::<D>::poll,
                (bg, Event::Discover(Ok(Async::Ready(change)))),
                step,
            ),
    ensures
        step is PollNotifyRx,
        after.discover() == before.discover(),
        after.notify_rx() == before.notify_rx(),
        after.notify_txs().len() == kept.len(),
        forall|j: int, k: int|
            0 <= j < k < kept.len() ==> #[trigger] kept[j] < #[trigger] kept[k],
        forall|j: int|
            0 <= j < kept.len() ==> {
                let i = #[trigger] kept[j];
                let earlier = before.notify_txs()[i];
                let later = after.notify_txs()[j];
                let n = earlier.sent().len() as int;
                &&& 0 <= i < before.notify_txs().len()
                &&& later.tx() == earlier.tx()
                &&& later.sent().len() == n + 1
                &&& later.sent().take(n) == earlier.sent()
                &&& change matches Change::Insert(k, s) ==> later.sent()[n] matches Change::Insert(
                    l,
                    t,
                ) && cloned(k, l) && cloned(s, t)
                &&& change matches Change::Remove(k) ==> later.sent()[n] matches Change::Remove(l)
                    && cloned(k, l)
                &&& exists|outcome: Result<(), SendError<Change<D::Key, D::Service>>>| #[trigger]
                    call_ensures(
                        UnboundedSender::<Change<D::Key, D::Service>>::unbounded_send,
                        (
                            &before.notify_txs()[kept[j]].tx(),
                            after.notify_txs()[j].sent()[before.notify_txs()[kept[j]].sent().len() as int],
                        ),
                        outcome,
                    ) && outcome is Ok
            },
        forall|i: int|
            0 <= i < before.notify_txs().len() && !#[trigger] kept.contains(i) ==> exists|
                copy: Change<D::Key, D::Service>,
                outcome: Result<(), SendError<Change<D::Key, D::Service>>>,
            | #[trigger]
                cloned_change(change, copy) && #[trigger] call_ensures(
                    UnboundedSender::<Change<D::Key, D::Service>>::unbounded_send,
                    (&before.notify_txs()[i].tx(), copy),
                    outcome,
                ) && outcome is Err,
{
    let kept = choose|kept: Seq<int>| #[trigger] changed(before, after, change, kept);
    assert(all_told(before.notify_txs(), after.notify_txs(), kept, change));
    assert forall|j: int| 0 <= j < kept.len() implies {
        let i = #[trigger] kept[j];
        let earlier = before.notify_txs()[i];
        let later = after.notify_txs()[j];
        let n = earlier.sent().len() as int;
        &&& 0 <= i < before.notify_txs().len()
        &&& later.tx() == earlier.tx()
        &&& later.sent().len() == n + 1
        &&& later.sent().take(n) == earlier.sent()
        &&& change matches Change::Insert(k, s) ==> later.sent()[n] matches Change::Insert(l, t)
            && cloned(k, l) && cloned(s, t)
        &&& change matches Change::Remove(k) ==> later.sent()[n] matches Change::Remove(l)
            && cloned(k, l)
        &&& exists|outcome: Result<(), SendError<Change<D::Key, D::Service>>>| #[trigger]
            call_ensures(
                UnboundedSender::<Change<D::Key, D::Service>>::unbounded_send,
                (
                            &before.notify_txs()[kept[j]].tx(),
                            after.notify_txs()[j].sent()[before.notify_txs()[kept[j]].sent().len() as int],
                        ),
                outcome,
            ) && outcome is Ok
    } by {
        let earlier = before.notify_txs()[kept[j]];
        let later = after.notify_txs()[j];
        let n = earlier.sent().len() as int;
        assert(told(earlier, later, change));
        let copy = choose|copy: Change<D::Key, D::Service>| #[trigger]
            cloned_change(change, copy) && accepted(earlier.tx(), copy) && later.sent()
                == earlier.sent().push(copy);
        assert(later.sent()[n] == copy);
        assert(later.sent().take(n) =~= earlier.sent());
        law_clone_of_change(change, copy);
    }
    assert forall|i: int|
        0 <= i < before.notify_txs().len() && !#[trigger] kept.contains(i) implies exists|
        copy: Change<D::Key, D::Service>,
        outcome: Result<(), SendError<Change<D::Key, D::Service>>>,
    | #[trigger]
        cloned_change(change, copy) && #[trigger] call_ensures(
            UnboundedSender::<Change<D::Key, D::Service>>::unbounded_send,
            (&before.notify_txs()[i].tx(), copy),
            outcome,
        ) && outcome is Err by {
        assert(gone(before.notify_txs()[i], change));
    }
    kept
}

/// A service that is inserted is known under its key from then on, in the place that
/// the key had, or behind all others where it is new; every other service is as before.
pub proof fn law_insert_is_known<D>(
    before: Background<D>,
    after: Background<D>,
    key: D::Key,
    svc: D::Service,
    step: Step<D::DiscoverError>,
) where D: Discover, D::Key: Clone, D::Service: Clone
    requires
        obeys_key_model::<D::Key>(),
        forall|i: int, j: int|
            0 <= i < j < before.cache().len() ==> (#[trigger] before.cache()[i]).0 != (
            #[trigger] before.cache()[j]).0,
        exists|bg: &mut Background<D>|
            *bg == before && *final(bg) == after && #[trigger] call_ensures(
                Background::<D>::poll,
                (bg, Event::Discover(Ok(Async::Ready(Change::Insert(key, svc))))),
                step,
            ),
    ensures
        after.cache().contains((key, svc)),
        forall|k: D::Key, s: D::Service|
            k != key ==> (#[trigger] after.cache().contains((k, s)) <==> before.cache().contains(
                (k, s),
            )),
        forall|i: int, j: int|
            0 <= i < j < after.cache().len() ==> (#[trigger] after.cache()[i]).0 != (
            #[trigger] after.cache()[j]).0,
        forall|i: int|
            0 <= i < before.cache().len() ==> #[trigger] after.cache()[i] == if before.cache()[i].0
                == key {
                (key, svc)
            } else {
                before.cache()[i]
            },
        (forall|i: int| 0 <= i < before.cache().len() ==> (#[trigger] before.cache()[i]).0 != key)
            ==> after.cache() == before.cache().push((key, svc)),
        (exists|i: int| 0 <= i < before.cache().len() && (#[trigger] before.cache()[i]).0 == key)
            ==> after.cache().len() == before.cache().len(),
{
    let kept = choose|kept: Seq<int>| #[trigger]
        changed(before, after, Change::Insert(key, svc), kept);
    let old_cache = before.cache();
    let new_cache = after.cache();
    if exists|i: int| 0 <= i < old_cache.len() && (#[trigger] old_cache[i]).0 == key {
        let i = choose|i: int| 0 <= i < old_cache.len() && (#[trigger] old_cache[i]).0 == key;
        assert(new_cache =~= old_cache.update(i, (key, svc)));
        assert(new_cache[i] == (key, svc));
        assert forall|k: D::Key, s: D::Service| k != key implies (#[trigger] new_cache.contains(
            (k, s),
        ) <==> old_cache.contains((k, s))) by {
            if old_cache.contains((k, s)) {
                let j = choose|j: int| 0 <= j < old_cache.len() && old_cache[j] == (k, s);
                assert(new_cache[j] == (k, s));
            }
            if new_cache.contains((k, s)) {
                let j = choose|j: int| 0 <= j < new_cache.len() && new_cache[j] == (k, s);
                assert(old_cache[j] == (k, s));
            }
        }
    } else {
        assert(new_cache =~= old_cache.push((key, svc)));
        assert(new_cache[old_cache.len() as int] == (key, svc));
        assert forall|k: D::Key, s: D::Service| k != key implies (#[trigger] new_cache.contains(
            (k, s),
        ) <==> old_cache.contains((k, s))) by {
            if old_cache.contains((k, s)) {
                let j = choose|j: int| 0 <= j < old_cache.len() && old_cache[j] == (k, s);
                assert(new_cache[j] == (k, s));
            }
            if new_cache.contains((k, s)) {
                let j = choose|j: int| 0 <= j < new_cache.len() && new_cache[j] == (k, s);
                assert(old_cache[j] == (k, s));
            }
        }
    }
}

/// A service that is removed is not known any more, the last one takes its place, and
/// every other service is as before.
pub proof fn law_remove_is_forgotten<D>(
    before: Background<D>,
    after: Background<D>,
    key: D::Key,
    step: Step<D::DiscoverError>,
) where D: Discover, D::Key: Clone, D::Service: Clone
    requires
        obeys_key_model::<D::Key>(),
        forall|i: int, j: int|
            0 <= i < j < before.cache().len() ==> (#[trigger] before.cache()[i]).0 != (
            #[trigger] before.cache()[j]).0,
        exists|bg: &mut Background<D>|
            *bg == before && *final(bg) == after && #[trigger] call_ensures(
                Background::<D>::poll,
                (bg, Event::Discover(Ok(Async::Ready(Change::Remove(key))))),
                step,
            ),
    ensures
        forall|i: int| 0 <= i < after.cache().len() ==> (#[trigger] after.cache()[i]).0 != key,
        forall|k: D::Key, s: D::Service|
            k != key ==> (#[trigger] after.cache().contains((k, s)) <==> before.cache().contains(
                (k, s),
            )),
        forall|i: int, j: int|
            0 <= i < j < after.cache().len() ==> (#[trigger] after.cache()[i]).0 != (
            #[trigger] after.cache()[j]).0,
        (forall|i: int| 0 <= i < before.cache().len() ==> (#[trigger] before.cache()[i]).0 != key)
            ==> after.cache() == before.cache(),
        forall|i: int|
            0 <= i < before.cache().len() && (#[trigger] before.cache()[i]).0 == key
                ==> after.cache() == before.cache().update(i, before.cache().last()).drop_last(),
{
    let kept = choose|kept: Seq<int>| #[trigger]
        changed(before, after, Change::Remove(key), kept);
    let old_cache = before.cache();
    let new_cache = after.cache();
    if exists|i: int| 0 <= i < old_cache.len() && (#[trigger] old_cache[i]).0 == key {
        let i = choose|i: int| 0 <= i < old_cache.len() && (#[trigger] old_cache[i]).0 == key;
        assert(new_cache =~= old_cache.update(i, old_cache.last()).drop_last());
        let n = new_cache.len() as int;
        assert forall|k: D::Key, s: D::Service| k != key implies (#[trigger] new_cache.contains(
            (k, s),
        ) <==> old_cache.contains((k, s))) by {
            if old_cache.contains((k, s)) {
                let j = choose|j: int| 0 <= j < old_cache.len() && old_cache[j] == (k, s);
                if j < n {
                    assert(new_cache[j] == (k, s));
                } else {
                    assert(new_cache[i] == (k, s));
                }
            }
            if new_cache.contains((k, s)) {
                let j = choose|j: int| 0 <= j < new_cache.len() && new_cache[j] == (k, s);
                if j == i {
                    assert(old_cache[n] == (k, s));
                } else {
                    assert(old_cache[j] == (k, s));
                }
            }
        }
    } else {
        assert(new_cache == old_cache);
    }
}

/// One who subscribes after a service was removed is not told of it.
pub proof fn law_removed_is_not_told<D>(
    first: Background<D>,
    second: Background<D>,
    third: Background<D>,
    key: D::Key,
    notify: Notify<D>,
    removed: Step<D::DiscoverError>,
    announced: Step<D::DiscoverError>,
) where D: Discover, D::Key: Clone, D::Service: Clone
    requires
        obeys_key_model::<D::Key>(),
        forall|a: D::Key, b: D::Key| #[trigger] cloned(a, b) ==> a == b,
        forall|i: int, j: int|
            0 <= i < j < first.cache().len() ==> (#[trigger] first.cache()[i]).0 != (
            #[trigger] first.cache()[j]).0,
        exists|bg: &mut Background<D>|
            *bg == first && *final(bg) == second && #[trigger] call_ensures(
                Background::<D>::poll,
                (bg, Event::Discover(Ok(Async::Ready(Change::Remove(key))))),
                removed,
            ),
        exists|bg: &mut Background<D>|
            *bg == second && *final(bg) == third && #[trigger] call_ensures(
                Background::<D>::poll,
                (bg, Event::NotifyRx(Some(Ok(Async::Ready(Some(notify)))))),
                announced,
            ),
        third.notify_txs().len() > second.notify_txs().len(),
    ensures
        forall|i: int|
            0 <= i < third.notify_txs().last().sent().len() ==> ((
            #[trigger] third.notify_txs().last().sent()[i]) matches Change::Insert(k, _) && k
                != key),
{
    law_remove_is_forgotten(first, second, key, removed);
    let tx = third.notify_txs().last();
    law_newcomer(second, third, notify, announced, tx);
    assert forall|i: int| 0 <= i < tx.sent().len() implies ((
    #[trigger] tx.sent()[i]) matches Change::Insert(k, _) && k != key) by {
        assert(second.cache()[i].0 != key);
    }
}

/// What polling for subscribers gave, where it gave none: there can be more exactly
/// where there could be and polling has neither ended nor failed. All else stays as it
/// is. With nobody subscribed and nobody to come all is done, else the discovery is
/// polled next.
pub proof fn law_nobody_came<D>(
    before: Background<D>,
    after: Background<D>,
    polled: Option<Result<Async<Option<Notify<D>>>, ()>>,
    step: Step<D::DiscoverError>,
) where D: Discover, D::Key: Clone, D::Service: Clone
    requires
        !(polled matches Some(Ok(Async::Ready(Some(_))))),
        exists|bg: &mut Background<D>|
            *bg == before && *final(bg) == after && #[trigger] call_ensures(
                Background::<D>::poll,
                (bg, Event::NotifyRx(polled)),
                step,
            ),
    ensures
        after.cache() == before.cache(),
        after.discover() == before.discover(),
        after.notify_txs() == before.notify_txs(),
        polled matches Some(Ok(Async::NotReady)) ==> after.notify_rx() == before.notify_rx(),
        !(polled matches Some(Ok(Async::NotReady))) ==> after.notify_rx() is None,
        after.notify_rx() is None && after.notify_txs().len() == 0 ==> step
            == Step::<D::DiscoverError>::Return(Ok(Async::Ready(()))),
        after.notify_rx() is Some || after.notify_txs().len() > 0 ==> step is PollDiscover,
{
}

/// Where the discovery has no change, or has failed, that is what the poll gives, and
/// nothing changes.
pub proof fn law_no_change<D>(
    before: Background<D>,
    after: Background<D>,
    polled: Result<Async<Change<D::Key, D::Service>>, D::DiscoverError>,
    step: Step<D::DiscoverError>,
) where D: Discover, D::Key: Clone, D::Service: Clone
    requires
        !(polled matches Ok(Async::Ready(_))),
        exists|bg: &mut Background<D>|
            *bg == before && *final(bg) == after && #[trigger] call_ensures(
                Background::<D>::poll,
                (bg, Event::Discover(polled)),
                step,
            ),
    ensures
        after == before,
        polled matches Ok(Async::NotReady) ==> step == Step::<D::DiscoverError>::Return(
            Ok(Async::NotReady),
        ),
        polled matches Err(err) ==> step == Step::<D::DiscoverError>::Return(Err(err)),
{
}

/// The key that a change is about.
pub open spec fn about<K, S>(change: Change<K, S>) -> K {
    match change {
        Change::Insert(key, _) => key,
        Change::Remove(key) => key,
    }
}

/// What one knows who follows a list of changes is, under each key, what the last change
/// about the key says: the service that it inserts, or none where it removes it or where
/// no change is about the key.
pub proof fn law_last_change_counts<K, S>(log: Seq<Change<K, S>>)
    ensures
        forall|i: int, j: int|
            0 <= i < j < replay(log).len() ==> (#[trigger] replay(log)[i]).0 != (
            #[trigger] replay(log)[j]).0,
        forall|key: K, svc: S| #[trigger]
            replay(log).contains((key, svc)) <==> exists|n: int|
                0 <= n < log.len() && #[trigger] log[n] == Change::Insert(key, svc) && forall|m: int|
                    n < m < log.len() ==> match #[trigger] log[m] {
                        Change::Insert(k, _) => k != key,
                        Change::Remove(k) => k != key,
                    },
    decreases log.len(),
{
    if log.len() > 0 {
        let earlier = log.drop_last();
        let last = log.last();
        let was = replay(earlier);
        let is = replay(log);
        let n = log.len() - 1;
        let key = about(last);
        law_last_change_counts(earlier);
        assert forall|i: int, j: int| 0 <= i < j < is.len() implies (#[trigger] is[i]).0 != (
        #[trigger] is[j]).0 by {}
        assert forall|k: K, svc: S| #[trigger]
            is.contains((k, svc)) == if k == key {
                last == Change::Insert(k, svc)
            } else {
                was.contains((k, svc))
            } by {
            lemma_known_after(was, is, last, k, svc);
        }
        assert forall|k: K, svc: S| #[trigger]
            is.contains((k, svc)) <==> exists|p: int|
                0 <= p < log.len() && #[trigger] log[p] == Change::Insert(k, svc) && forall|m: int|
                    p < m < log.len() ==> match #[trigger] log[m] {
                        Change::Insert(l, _) => l != k,
                        Change::Remove(l) => l != k,
                    } by {
            if is.contains((k, svc)) {
                if k == key {
                    assert(log[n] == Change::Insert(k, svc));
                } else {
                    assert(was.contains((k, svc)));
                    let p = choose|p: int|
                        0 <= p < earlier.len() && #[trigger] earlier[p] == Change::Insert(k, svc)
                            && forall|m: int|
                            p < m < earlier.len() ==> match #[trigger] earlier[m] {
                                Change::Insert(l, _) => l != k,
                                Change::Remove(l) => l != k,
                            };
                    assert(log[p] == Change::Insert(k, svc));
                    assert forall|m: int| p < m < log.len() implies match #[trigger] log[m] {
                        Change::Insert(l, _) => l != k,
                        Change::Remove(l) => l != k,
                    } by {
                        if m < n {
                            assert(earlier[m] == log[m]);
                        }
                    }
                }
            }
            if exists|p: int|
                0 <= p < log.len() && #[trigger] log[p] == Change::Insert(k, svc) && forall|m: int|
                    p < m < log.len() ==> match #[trigger] log[m] {
                        Change::Insert(l, _) => l != k,
                        Change::Remove(l) => l != k,
                    } {
                let p = choose|p: int|
                    0 <= p < log.len() && #[trigger] log[p] == Change::Insert(k, svc) && forall|
                        m: int,
                    |
                        p < m < log.len() ==> match #[trigger] log[m] {
                            Change::Insert(l, _) => l != k,
                            Change::Remove(l) => l != k,
                        };
                if p < n {
                    assert(log[n] == last);
                    assert(k != key);
                    assert(earlier[p] == Change::Insert(k, svc));
                    assert forall|m: int| p < m < earlier.len() implies match #[trigger] earlier[m] {
                        Change::Insert(l, _) => l != k,
                        Change::Remove(l) => l != k,
                    } by {
                        assert(log[m] == earlier[m]);
                    }
                    assert(was.contains((k, svc)));
                }
            }
        }
    }
}

/// What is known under a key after one change.
proof fn lemma_known_after<K, S>(
    was: Seq<(K, S)>,
    is: Seq<(K, S)>,
    change: Change<K, S>,
    k: K,
    svc: S,
)
    requires
        is == crate::replay::applied(was, change),
        forall|i: int, j: int|
            0 <= i < j < was.len() ==> (#[trigger] was[i]).0 != (#[trigger] was[j]).0,
    ensures
        is.contains((k, svc)) == if k == about(change) {
            change == Change::Insert(k, svc)
        } else {
            was.contains((k, svc))
        },
{
    let key = about(change);
    let there = exists|i: int| 0 <= i < was.len() && (#[trigger] was[i]).0 == key;
    let i = crate::ordered_map::position(was, key);
    if was.contains((k, svc)) {
        let j = choose|j: int| 0 <= j < was.len() && was[j] == (k, svc);
        if k != key {
            if j < is.len() && (!there || j != i) {
                assert(is[j] == (k, svc));
            } else {
                assert(is[i] == (k, svc));
            }
        }
    }
    if is.contains((k, svc)) {
        let j = choose|j: int| 0 <= j < is.len() && is[j] == (k, svc);
        if k != key {
            if there && change is Remove && j == i {
                assert(was[was.len() - 1] == (k, svc));
            } else {
                assert(was[j] == (k, svc));
            }
        }
    }
    if k == key && change == Change::Insert(k, svc) {
        if there {
            assert(is[i] == (k, svc));
        } else {
            assert(is[was.len() as int] == (k, svc));
        }
    }
}

/// Where all are in sync, each service that is known is one of which every subscriber
/// was told, by the last change about its key that the subscriber's channel accepted.
pub proof fn law_known_was_told<D>(
    bg: Background<D>,
    i: int,
    log: Seq<Change<D::Key, D::Service>>,
    n: int,
    key: D::Key,
) -> (p: int) where D: Discover, D::Key: Clone, D::Service: Clone
    requires
        bg.in_sync(),
        0 <= i < bg.notify_txs().len(),
        log == bg.notify_txs()[i].sent(),
        0 <= n < bg.cache().len(),
        key == bg.cache()[n].0,
    ensures
        0 <= p < log.len(),
        log[p] matches Change::Insert(k, s) && k == key && cloned(bg.cache()[n].1, s),
        forall|m: int|
            p < m < log.len() ==> match #[trigger] log[m] {
                Change::Insert(k, _) => k != key,
                Change::Remove(k) => k != key,
            },
{
    let seen = replay(log);
    assert(crate::replay::mirrors(bg.cache(), seen));
    assert(bg.cache()[n].0 == seen[n].0);
    law_last_change_counts(log);
    assert(seen.contains((key, seen[n].1)));
    choose|p: int|
        0 <= p < log.len() && #[trigger] log[p] == Change::Insert(key, seen[n].1) && forall|m: int|
            p < m < log.len() ==> match #[trigger] log[m] {
                Change::Insert(k, _) => k != key,
                Change::Remove(k) => k != key,
            }
}

/// Where all are in sync, each service of which a subscriber was told is known, unless
/// a later change about its key was accepted by the subscriber's channel.
pub proof fn law_told_is_known<D>(
    bg: Background<D>,
    i: int,
    log: Seq<Change<D::Key, D::Service>>,
    p: int,
    key: D::Key,
    svc: D::Service,
) -> (n: int) where D: Discover, D::Key: Clone, D::Service: Clone
    requires
        bg.in_sync(),
        0 <= i < bg.notify_txs().len(),
        log == bg.notify_txs()[i].sent(),
        0 <= p < log.len(),
        log[p] == Change::Insert(key, svc),
        forall|m: int|
            p < m < log.len() ==> match #[trigger] log[m] {
                Change::Insert(k, _) => k != key,
                Change::Remove(k) => k != key,
            },
    ensures
        0 <= n < bg.cache().len(),
        bg.cache()[n].0 == key,
        cloned(bg.cache()[n].1, svc),
{
    let seen = replay(log);
    assert(crate::replay::mirrors(bg.cache(), seen));
    law_last_change_counts(log);
    assert(seen.contains((key, svc)));
    let n = choose|n: int| 0 <= n < seen.len() && seen[n] == (key, svc);
    assert(bg.cache()[n].0 == seen[n].0);
    n
}

/// Where all are in sync, no two services are known under one key, and every subscriber
/// knows as many services as are known here, each under its key and in its place.
pub proof fn law_one_service_per_key<D>(bg: Background<D>) where
    D: Discover,
    D::Key: Clone,
    D::Service: Clone,

    requires
        bg.in_sync(),
    ensures
        forall|n: int, m: int|
            0 <= n < m < bg.cache().len() ==> (#[trigger] bg.cache()[n]).0 != (
            #[trigger] bg.cache()[m]).0,
        forall|i: int|
            0 <= i < bg.notify_txs().len() ==> replay(
                (#[trigger] bg.notify_txs()[i]).sent(),
            ).len() == bg.cache().len(),
        forall|i: int, n: int|
            0 <= i < bg.notify_txs().len() && 0 <= n < bg.cache().len() ==> (
            #[trigger] bg.cache()[n]).0 == replay((#[trigger] bg.notify_txs()[i]).sent())[n].0,
{
    assert forall|i: int, n: int|
        0 <= i < bg.notify_txs().len() && 0 <= n < bg.cache().len() implies (
    #[trigger] bg.cache()[n]).0 == replay((#[trigger] bg.notify_txs()[i]).sent())[n].0 by {
        let seen = replay(bg.notify_txs()[i].sent());
        assert(crate::replay::mirrors(bg.cache(), seen));
        assert(bg.cache()[n].0 == seen[n].0);
    }
}

/// All are in sync at first, and after each poll where they were before it, whatever it
/// gave. Said of keys that are fit for a hash table and equal their clones.
pub proof fn law_always_in_sync<D>(
    share: Stack<D>,
    first: Background<D>,
    discover: D,
    before: Background<D>,
    after: Background<D>,
    event: Event<D>,
    step: Step<D::DiscoverError>,
) where D: Discover, D::Key: Clone, D::Service: Clone
    requires
        obeys_key_model::<D::Key>(),
        forall|a: D::Key, b: D::Key| #[trigger] cloned(a, b) ==> a == b,
        call_ensures(shared_discover::new::<D>, (discover,), (share, first)),
        exists|bg: &mut Background<D>|
            *bg == before && *final(bg) == after && #[trigger] call_ensures(
                Background::<D>::poll,
                (bg, event),
                step,
            ),
    ensures
        first.in_sync(),
        before.in_sync() ==> after.in_sync(),
{
    assert(exact_keys::<D::Key>());
    shared_discover::law_new_in_sync(share, first, discover);
}

/// The end at which subscribers announce themselves is handed out to be polled wherever
/// there is one, and what becomes of it is kept; all else stays as it is.
pub proof fn law_notify_rx_mut<D>(
    before: Background<D>,
    after: Background<D>,
    now: Option<UnboundedReceiver<Notify<D>>>,
    later: Option<UnboundedReceiver<Notify<D>>>,
) where D: Discover, D::Key: Clone, D::Service: Clone
    requires
        exists|bg: &mut Background<D>, res: Option<&mut UnboundedReceiver<Notify<D>>>|
            *bg == before && *final(bg) == after && (match res {
                Some(rx) => now == Some(*rx) && later == Some(*final(rx)),
                None => now is None && later is None,
            }) && #[trigger] call_ensures(Background::<D>::notify_rx_mut, (bg,), res),
    ensures
        now == before.notify_rx(),
        after.notify_rx() == later,
        after.notify_txs() == before.notify_txs(),
        after.discover() == before.discover(),
        after.cache() == before.cache(),
{
}

/// The discovery is handed out to be polled, and what becomes of it is kept; all else
/// stays as it is.
pub proof fn law_discover_mut<D>(
    before: Background<D>,
    after: Background<D>,
    now: D,
    later: D,
) where D: Discover, D::Key: Clone, D::Service: Clone
    requires
        exists|bg: &mut Background<D>, res: &mut D|
            *bg == before && *final(bg) == after && *res == now && *final(res) == later
                && #[trigger] call_ensures(Background::<D>::discover_mut, (bg,), res),
    ensures
        now == before.discover(),
        after.discover() == later,
        after.notify_rx() == before.notify_rx(),
        after.notify_txs() == before.notify_txs(),
        after.cache() == before.cache(),
{
}

/// The end that changes come out of is handed out to be polled, and what becomes of it
/// is kept.
pub proof fn law_rx_mut<D: Discover>(
    before: SharedDiscover<D>,
    after: SharedDiscover<D>,
    now: UnboundedReceiver<Change<D::Key, D::Service>>,
    later: UnboundedReceiver<Change<D::Key, D::Service>>,
)
    requires
        exists|
            shared: &mut SharedDiscover<D>,
            res: &mut UnboundedReceiver<Change<D::Key, D::Service>>,
        |
            *shared == before && *final(shared) == after && *res == now && *final(res) == later
                && #[trigger] call_ensures(SharedDiscover::<D>::rx_mut, (shared,), res),
    ensures
        now == before.rx(),
        after.rx() == later,
{
}

} // verus!
