use std::sync::Arc;

use futures::executor;
use futures::sync::mpsc::UnboundedReceiver;
use profiles::discover::{Async, Change, Discover};
use profiles::route::Route;
use profiles::shared_discover::{new, Background, Event, SharedDiscover, Stack, Step};
use profiles::svc::Stack as SvcStack;

struct Resolution;

impl Discover for Resolution {
    type Key = u64;
    type Service = &'static str;
    type DiscoverError = &'static str;
}

struct Quiet;

impl executor::Notify for Quiet {
    fn notify(&self, _id: usize) {}
}

fn poll_rx<T>(rx: &mut UnboundedReceiver<T>) -> Result<Async<Option<T>>, ()> {
    match executor::spawn(rx).poll_stream_notify(&Arc::new(Quiet), 0) {
        Ok(futures::Async::Ready(item)) => Ok(Async::Ready(item)),
        Ok(futures::Async::NotReady) => Ok(Async::NotReady),
        Err(()) => Err(()),
    }
}

/// Polls for subscribers until there is something else to do.
fn settle(bg: &mut Background<Resolution>) -> Step<&'static str> {
    loop {
        let polled = bg.notify_rx_mut().map(poll_rx);
        match bg.poll(Event::NotifyRx(polled)) {
            Step::PollNotifyRx => {}
            step => return step,
        }
    }
}

fn change(bg: &mut Background<Resolution>, change: Change<u64, &'static str>) {
    match bg.poll(Event::Discover(Ok(Async::Ready(change)))) {
        Step::PollNotifyRx => {}
        _ => panic!("subscribers are polled for after a change"),
    }
}

fn subscribe(stack: &Stack<Resolution>) -> SharedDiscover<Resolution> {
    match stack.make(&Route::default()) {
        Ok(shared) => shared,
        Err(_) => unreachable!(),
    }
}

/// All that a subscriber is told now.
fn told(shared: &mut SharedDiscover<Resolution>) -> Vec<(u64, Option<&'static str>)> {
    let mut all = Vec::new();
    loop {
        let polled = poll_rx(shared.rx_mut());
        match SharedDiscover::<Resolution>::poll(polled) {
            Ok(Async::Ready(Change::Insert(k, s))) => all.push((k, Some(s))),
            Ok(Async::Ready(Change::Remove(k))) => all.push((k, None)),
            Ok(Async::NotReady) => return all,
            Err(_) => panic!("a subscription does not fail"),
        }
    }
}

#[test]
fn discovery_is_polled_once_subscribers_are() {
    let (_stack, mut bg) = new(Resolution);
    assert!(matches!(settle(&mut bg), Step::PollDiscover));
    let step = bg.poll(Event::Discover(Ok(Async::NotReady)));
    assert!(matches!(step, Step::Return(Ok(Async::NotReady))));
}

#[test]
fn failure_of_the_discovery_is_returned() {
    let (_stack, mut bg) = new(Resolution);
    let step = bg.poll(Event::Discover(Err("no such name")));
    assert!(matches!(step, Step::Return(Err("no such name"))));
}

#[test]
fn subscribers_are_told_of_each_change() {
    let (stack, mut bg) = new(Resolution);
    let mut a = subscribe(&stack);
    let mut b = subscribe(&stack);
    settle(&mut bg);
    change(&mut bg, Change::Insert(1, "one"));
    change(&mut bg, Change::Insert(2, "two"));
    change(&mut bg, Change::Remove(1));
    let all = vec![(1, Some("one")), (2, Some("two")), (1, None)];
    assert_eq!(told(&mut a), all);
    assert_eq!(told(&mut b), all);
    assert_eq!(told(&mut b), Vec::new());
}

#[test]
fn new_subscriber_is_told_of_what_is_known() {
    let (stack, mut bg) = new(Resolution);
    settle(&mut bg);
    change(&mut bg, Change::Insert(1, "one"));
    change(&mut bg, Change::Insert(2, "two"));
    change(&mut bg, Change::Insert(3, "three"));
    change(&mut bg, Change::Insert(2, "zwei"));
    change(&mut bg, Change::Remove(1));
    let mut late = subscribe(&stack);
    settle(&mut bg);
    assert_eq!(told(&mut late), vec![(3, Some("three")), (2, Some("zwei"))]);
    change(&mut bg, Change::Remove(3));
    assert_eq!(told(&mut late), vec![(3, None)]);
}

#[test]
fn every_subscriber_ends_up_with_the_same_services() {
    let (stack, mut bg) = new(Resolution);
    let changes = vec![
        Change::Insert(1, "a"),
        Change::Insert(2, "b"),
        Change::Insert(1, "c"),
        Change::Insert(3, "d"),
        Change::Remove(2),
        Change::Remove(9),
        Change::Insert(4, "e"),
        Change::Remove(1),
    ];
    let mut subscribers = Vec::new();
    for c in changes {
        subscribers.push(subscribe(&stack));
        settle(&mut bg);
        change(&mut bg, c);
    }
    subscribers.push(subscribe(&stack));
    settle(&mut bg);
    for subscriber in subscribers.iter_mut() {
        let mut known = indexmap::IndexMap::new();
        for (key, service) in told(subscriber) {
            match service {
                Some(service) => known.insert(key, service),
                None => known.remove(&key),
            };
        }
        let known: Vec<(u64, &'static str)> = known.into_iter().collect();
        assert_eq!(known, vec![(4, "e"), (3, "d")]);
    }
}

#[test]
fn subscriber_that_left_is_let_go() {
    let (stack, mut bg) = new(Resolution);
    let mut a = subscribe(&stack);
    let b = subscribe(&stack);
    let mut c = subscribe(&stack);
    settle(&mut bg);
    drop(b);
    change(&mut bg, Change::Insert(1, "one"));
    assert_eq!(told(&mut a), vec![(1, Some("one"))]);
    assert_eq!(told(&mut c), vec![(1, Some("one"))]);
    drop(stack);
    assert!(matches!(settle(&mut bg), Step::PollDiscover));
    drop(a);
    drop(c);
    change(&mut bg, Change::Remove(1));
    assert!(matches!(settle(&mut bg), Step::Return(Ok(Async::Ready(())))));
}

#[test]
fn those_who_left_make_no_difference() {
    let run = |leavers: usize| {
        let (stack, mut bg) = new(Resolution);
        let mut all = Vec::new();
        for _ in 0..leavers {
            all.push(subscribe(&stack));
        }
        let mut stays = subscribe(&stack);
        for _ in 0..leavers {
            all.push(subscribe(&stack));
        }
        settle(&mut bg);
        drop(all);
        change(&mut bg, Change::Insert(1, "one"));
        change(&mut bg, Change::Remove(2));
        assert!(matches!(settle(&mut bg), Step::PollDiscover));
        told(&mut stays)
    };
    assert_eq!(run(0), vec![(1, Some("one")), (2, None)]);
    assert_eq!(run(2), run(0));
}

#[test]
fn lone_subscriber_is_missed_only_when_told() {
    let (stack, mut bg) = new(Resolution);
    let only = subscribe(&stack);
    settle(&mut bg);
    drop(stack);
    drop(only);
    assert!(matches!(settle(&mut bg), Step::PollDiscover));
    let step = bg.poll(Event::Discover(Ok(Async::NotReady)));
    assert!(matches!(step, Step::Return(Ok(Async::NotReady))));
    change(&mut bg, Change::Insert(1, "one"));
    assert!(matches!(settle(&mut bg), Step::Return(Ok(Async::Ready(())))));
}

#[test]
fn subscriber_that_left_before_it_was_told_is_not_kept() {
    let (stack, mut bg) = new(Resolution);
    change(&mut bg, Change::Insert(1, "one"));
    drop(subscribe(&stack));
    drop(stack);
    assert!(matches!(settle(&mut bg), Step::Return(Ok(Async::Ready(())))));
}

#[test]
fn without_stacks_and_subscribers_all_is_done() {
    let (stack, mut bg) = new(Resolution);
    let copy = stack.clone();
    drop(stack);
    assert!(matches!(settle(&mut bg), Step::PollDiscover));
    drop(copy);
    assert!(matches!(settle(&mut bg), Step::Return(Ok(Async::Ready(())))));
    assert!(bg.notify_rx_mut().is_none());
    assert!(matches!(settle(&mut bg), Step::Return(Ok(Async::Ready(())))));
}

#[test]
fn failed_poll_for_subscribers_ends_polling_for_them() {
    let (stack, mut bg) = new(Resolution);
    let mut a = subscribe(&stack);
    settle(&mut bg);
    assert!(matches!(bg.poll(Event::NotifyRx(Some(Err(())))), Step::PollDiscover));
    assert!(bg.notify_rx_mut().is_none());
    change(&mut bg, Change::Insert(1, "one"));
    assert_eq!(told(&mut a), vec![(1, Some("one"))]);
}

#[test]
fn clone_of_a_stack_subscribes_to_the_same_discovery() {
    let (stack, mut bg) = new(Resolution);
    let mut a = subscribe(&stack.clone());
    settle(&mut bg);
    change(&mut bg, Change::Insert(5, "five"));
    assert_eq!(told(&mut a), vec![(5, Some("five"))]);
}

#[test]
fn subscribing_succeeds_though_nobody_listens() {
    let (stack, bg) = new(Resolution);
    drop(bg);
    let mut shared = subscribe(&stack);
    assert_eq!(told(&mut shared), Vec::new());
}

#[test]
fn ended_channel_gives_no_change_and_no_error() {
    let polled = SharedDiscover::<Resolution>::poll(Ok(Async::Ready(None)));
    assert!(matches!(polled, Ok(Async::NotReady)));
    let polled = SharedDiscover::<Resolution>::poll(Ok(Async::NotReady));
    assert!(matches!(polled, Ok(Async::NotReady)));
    let polled = SharedDiscover::<Resolution>::poll(Err(()));
    assert!(matches!(polled, Ok(Async::NotReady)));
    let polled = SharedDiscover::<Resolution>::poll(Ok(Async::Ready(Some(Change::Remove(1)))));
    assert!(matches!(polled, Ok(Async::Ready(Change::Remove(1)))));
}

#[test]
fn discovery_can_be_reached() {
    let (_stack, mut bg) = new(Resolution);
    *bg.discover_mut() = Resolution;
}
