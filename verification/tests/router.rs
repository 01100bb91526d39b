use std::cell::RefCell;
use std::rc::Rc;

use http::{Method, Request};
use profiles::discover::{Async, Discover};
use profiles::request_match::{RequestHead, RequestMatch};
use profiles::route::{CanGetDestination, GetRoutes, Route, Routes};
use profiles::router::{layer, Error, Event, Layer, Service, Stack, Step};
use profiles::shared_discover;
use profiles::svc::{Layer as SvcLayer, Stack as SvcStack};

struct Target(&'static str);

impl CanGetDestination for Target {
    fn get_destination(&self) -> String {
        self.0.to_string()
    }
}

struct Resolution;

impl Discover for Resolution {
    type Key = u64;
    type Service = &'static str;
    type DiscoverError = ();
}

/// Resolves every target but those whose name is empty.
#[derive(Clone)]
struct Resolve;

impl SvcStack<Target> for Resolve {
    type Value = Resolution;
    type Error = &'static str;

    fn make(&self, target: &Target) -> Result<Resolution, &'static str> {
        if target.0.is_empty() {
            Err("no name")
        } else {
            Ok(Resolution)
        }
    }
}

/// Remembers for which destinations it was asked.
#[derive(Clone)]
struct Source(Rc<RefCell<Vec<String>>>);

impl GetRoutes for Source {
    type Stream = usize;

    fn get_routes(&self, dst: String) -> usize {
        self.0.borrow_mut().push(dst);
        self.0.borrow().len()
    }
}

/// Makes the value of the label `name`, and `-` where there is none. Fails for `bad`,
/// and for all where it says so.
#[derive(Clone)]
struct Named {
    fails: bool,
}

struct NamedStack {
    fails: bool,
    _share: shared_discover::Stack<Resolution>,
}

impl SvcLayer<Route, Route, shared_discover::Stack<Resolution>> for Named {
    type Value = String;
    type Error = &'static str;
    type Stack = NamedStack;

    fn bind(&self, next: shared_discover::Stack<Resolution>) -> NamedStack {
        NamedStack { fails: self.fails, _share: next }
    }
}

impl SvcStack<Route> for NamedStack {
    type Value = String;
    type Error = &'static str;

    fn make(&self, route: &Route) -> Result<String, &'static str> {
        let name = route.labels.get("name").map(|n| n.as_str()).unwrap_or("-");
        if self.fails || name == "bad" {
            Err("cannot be made")
        } else {
            Ok(name.to_string())
        }
    }
}

type Router = Service<Resolution, usize, NamedStack>;

fn make(target: &'static str, fails: bool) -> (Source, Result<Router, Error<&'static str, &'static str>>) {
    let source = Source(Rc::new(RefCell::new(Vec::new())));
    let layer: Layer<Source, Resolve, Named> =
        layer::<Target, Resolve, Source, Named>(source.clone(), Named { fails });
    let stack: Stack<Resolve, Source, Named> = layer.clone().bind(Resolve).clone();
    let made = stack.make(&Target(target));
    (source, made)
}

fn router() -> Router {
    match make("web.example", false).1 {
        Ok(service) => service,
        Err(_) => unreachable!(),
    }
}

fn route(name: &str) -> Route {
    let mut route = Route::default();
    route.labels.insert("name".to_string(), name.to_string());
    route
}

fn on_method(method: Method, name: &str) -> (RequestMatch, Route) {
    (RequestMatch::Method(method), route(name))
}

/// Updates the routes, and gives the names of those that are refused.
fn update(service: &mut Router, routes: Routes) -> Vec<String> {
    let event: Event<()> = Event::Routes(Async::Ready(routes));
    match service.poll_ready(event) {
        Step::PollRoutes { refused } => {
            refused.iter().map(|(_, route)| route.labels["name"].clone()).collect()
        }
        Step::Ready => panic!("routes are polled for again after an update"),
    }
}

fn served_by(service: &mut Router, method: Method) -> String {
    let req = Request::builder().method(method).uri("/").body(()).unwrap();
    service.call(&req).clone()
}

#[test]
fn service_is_made_for_the_destination() {
    let (source, made) = make("web.example", false);
    let mut service = match made {
        Ok(service) => service,
        Err(_) => unreachable!(),
    };
    assert_eq!(*source.0.borrow(), vec!["web.example".to_string()]);
    assert_eq!(*service.route_stream_mut(), 1);
    assert!(service.discover_bg_mut().is_some());
    assert_eq!(served_by(&mut service, Method::GET), "-");
}

#[test]
fn failure_to_discover() {
    let (source, made) = make("", false);
    assert!(matches!(made, Err(Error::Discover("no name"))));
    assert!(source.0.borrow().is_empty());
}

#[test]
fn failure_to_make_the_default_route() {
    let (source, made) = make("web.example", true);
    assert!(matches!(made, Err(Error::Route("cannot be made"))));
    assert!(source.0.borrow().is_empty());
}

#[test]
fn first_route_that_matches_serves() {
    let mut service = router();
    update(
        &mut service,
        vec![
            on_method(Method::GET, "first"),
            on_method(Method::PUT, "second"),
            (RequestMatch::All(Vec::new()), route("third")),
            on_method(Method::HEAD, "fourth"),
        ],
    );
    assert_eq!(served_by(&mut service, Method::GET), "first");
    assert_eq!(served_by(&mut service, Method::PUT), "second");
    assert_eq!(served_by(&mut service, Method::HEAD), "third");
    let head = RequestHead { method: &Method::PUT, path: "/" };
    assert_eq!(service.first_match(&head), Some(1));
}

#[test]
fn default_route_serves_what_matches_nothing() {
    let mut service = router();
    update(&mut service, vec![on_method(Method::GET, "get")]);
    assert_eq!(served_by(&mut service, Method::PUT), "-");
    assert_eq!(served_by(&mut service, Method::GET), "get");
    let head = RequestHead { method: &Method::PUT, path: "/" };
    assert_eq!(service.first_match(&head), None);
}

#[test]
fn route_that_cannot_be_made_is_left_out() {
    let mut service = router();
    update(
        &mut service,
        vec![
            on_method(Method::GET, "a"),
            on_method(Method::PUT, "bad"),
            on_method(Method::PUT, "b"),
            on_method(Method::HEAD, "bad"),
        ],
    );
    assert_eq!(served_by(&mut service, Method::GET), "a");
    assert_eq!(served_by(&mut service, Method::PUT), "b");
    assert_eq!(served_by(&mut service, Method::HEAD), "-");
}

#[test]
fn routes_that_cannot_be_made_are_handed_out() {
    let mut service = router();
    let bad = || on_method(Method::PUT, "bad");
    let refused = update(&mut service, vec![bad(), on_method(Method::GET, "a"), bad()]);
    assert_eq!(refused, vec!["bad".to_string(), "bad".to_string()]);
    assert!(update(&mut service, vec![on_method(Method::GET, "a")]).is_empty());
    let event: Event<()> = Event::Routes(Async::Ready(vec![bad()]));
    match service.poll_ready(event) {
        Step::PollRoutes { refused } => {
            assert_eq!(refused.len(), 1);
            assert!(matches!(&refused[0].0, RequestMatch::Method(m) if *m == Method::PUT));
        }
        Step::Ready => unreachable!(),
    }
    let polled: Event<()> = Event::Background(None);
    assert!(matches!(service.poll_ready(polled), Step::PollRoutes { refused } if refused.is_empty()));
}

#[test]
fn condition_and_dispatch_read_the_same_request() {
    let mut service = router();
    update(&mut service, vec![on_method(Method::GET, "get")]);
    for method in [Method::GET, Method::PUT].iter() {
        let req = Request::builder().method(method.clone()).uri("/").body(()).unwrap();
        let condition = RequestMatch::Method(Method::GET);
        let holds = condition.is_match(&req);
        assert_eq!(condition.is_match(&req), holds);
        assert_eq!(service.call(&req) == "get", holds);
    }
}

#[test]
fn update_replaces_all_routes() {
    let mut service = router();
    update(&mut service, vec![on_method(Method::GET, "old"), on_method(Method::PUT, "old")]);
    update(&mut service, vec![on_method(Method::GET, "new")]);
    assert_eq!(served_by(&mut service, Method::GET), "new");
    assert_eq!(served_by(&mut service, Method::PUT), "-");
    update(&mut service, Vec::new());
    assert_eq!(served_by(&mut service, Method::GET), "-");
}

#[test]
fn service_that_is_called_is_changed_in_its_place() {
    let mut service = router();
    update(&mut service, vec![on_method(Method::GET, "get"), on_method(Method::PUT, "put")]);
    let put = Request::builder().method(Method::PUT).uri("/").body(()).unwrap();
    service.call(&put).push_str("!");
    let patch = Request::builder().method(Method::PATCH).uri("/").body(()).unwrap();
    service.call(&patch).push_str("?");
    assert_eq!(served_by(&mut service, Method::GET), "get");
    assert_eq!(served_by(&mut service, Method::PUT), "put!");
    assert_eq!(served_by(&mut service, Method::PATCH), "-?");
}

#[test]
fn ready_once_no_update_is_left() {
    let mut service = router();
    let polled: Event<()> = Event::Background(Some(Ok(Async::NotReady)));
    assert!(matches!(service.poll_ready(polled), Step::PollRoutes { .. }));
    assert!(service.discover_bg_mut().is_some());
    let polled: Event<()> = Event::Routes(Async::NotReady);
    assert!(matches!(service.poll_ready(polled), Step::Ready));
}

#[test]
fn background_that_is_finished_is_let_go() {
    let mut service = router();
    let polled: Event<()> = Event::Background(Some(Ok(Async::Ready(()))));
    assert!(matches!(service.poll_ready(polled), Step::PollRoutes { .. }));
    assert!(service.discover_bg_mut().is_none());
    let polled: Event<()> = Event::Background(None);
    assert!(matches!(service.poll_ready(polled), Step::PollRoutes { .. }));
}

#[test]
fn background_that_has_failed_is_let_go() {
    let mut service = router();
    update(&mut service, vec![on_method(Method::GET, "get")]);
    let polled: Event<&str> = Event::Background(Some(Err("failed")));
    assert!(matches!(service.poll_ready(polled), Step::PollRoutes { .. }));
    assert!(service.discover_bg_mut().is_none());
    assert_eq!(served_by(&mut service, Method::GET), "get");
}
