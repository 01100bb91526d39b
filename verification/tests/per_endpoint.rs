use profiles::discover::{Async, Change, HasEndpoint};
use profiles::per_endpoint::{insert, layer, Error, Layer, PerEndpoint, WithRoute};
use profiles::route::Route;
use profiles::svc::{shared, Layer as SvcLayer, Stack as SvcStack};

#[derive(Clone)]
struct Connection(u16);

struct Endpoint(u16);

impl HasEndpoint for Connection {
    type Endpoint = Endpoint;

    fn endpoint(&self) -> Endpoint {
        Endpoint(self.0)
    }
}

struct Routed {
    port: u16,
    name: String,
}

impl WithRoute for Endpoint {
    type Output = Routed;

    fn with_route(&self, route: Route) -> Routed {
        Routed { port: self.0, name: route.labels["name"].clone() }
    }
}

/// Describes what it is asked to wrap. Refuses port 0.
#[derive(Clone)]
struct Describe;

struct DescribeStack(shared::Stack<Connection>);

impl SvcLayer<Routed, Routed, shared::Stack<Connection>> for Describe {
    type Value = String;
    type Error = &'static str;
    type Stack = DescribeStack;

    fn bind(&self, next: shared::Stack<Connection>) -> DescribeStack {
        DescribeStack(next)
    }
}

impl SvcStack<Routed> for DescribeStack {
    type Value = String;
    type Error = &'static str;

    fn make(&self, target: &Routed) -> Result<String, &'static str> {
        let connection = match self.0.make(target) {
            Ok(connection) => connection,
            Err(_) => return Err("unreachable"),
        };
        if target.port == 0 {
            return Err("refused");
        }
        Ok(format!("{} to {} by {}", connection.0, target.port, target.name))
    }
}

/// Makes a discovery of the number of labels. Fails for a route without labels.
#[derive(Clone)]
struct Count;

impl SvcStack<Route> for Count {
    type Value = usize;
    type Error = &'static str;

    fn make(&self, route: &Route) -> Result<usize, &'static str> {
        if route.labels.is_empty() {
            Err("no labels")
        } else {
            Ok(route.labels.len())
        }
    }
}

fn route() -> Route {
    let mut route = Route::default();
    route.labels.insert("name".to_string(), "users".to_string());
    route
}

fn per_endpoint() -> PerEndpoint<usize, Describe> {
    let layer: Layer<Describe> = layer::<Connection, Describe>(Describe);
    match SvcLayer::<Route, Route, Count>::bind(&layer.clone(), Count).clone().make(&route()) {
        Ok(value) => value,
        Err(_) => unreachable!(),
    }
}

type Polled = Result<Async<Change<u64, Connection>>, &'static str>;

#[test]
fn discovery_is_made_for_the_route() {
    let mut value = per_endpoint();
    assert_eq!(*value.discover_mut(), 1);
    *value.discover_mut() = 5;
    assert_eq!(*value.discover_mut(), 5);
}

#[test]
fn failure_to_make_the_discovery() {
    let stack = SvcLayer::<Route, Route, Count>::bind(&layer::<Connection, Describe>(Describe), Count);
    assert!(matches!(stack.make(&Route::default()), Err("no labels")));
}

#[test]
fn service_is_wrapped_for_its_endpoint_and_the_route() {
    let polled: Polled = Ok(Async::Ready(Change::Insert(7, Connection(80))));
    match per_endpoint().poll(polled) {
        Ok(Async::Ready(Change::Insert(key, service))) => {
            assert_eq!(key, 7);
            assert_eq!(service, "80 to 80 by users");
        }
        _ => panic!("a service is inserted"),
    }
}

#[test]
fn removal_is_passed_on() {
    let polled: Polled = Ok(Async::Ready(Change::Remove(7)));
    assert!(matches!(per_endpoint().poll(polled), Ok(Async::Ready(Change::Remove(7)))));
}

#[test]
fn nothing_yet_is_passed_on() {
    let polled: Polled = Ok(Async::NotReady);
    assert!(matches!(per_endpoint().poll(polled), Ok(Async::NotReady)));
}

#[test]
fn failure_of_the_discovery_is_told_apart() {
    let polled: Polled = Err("gone");
    assert!(matches!(per_endpoint().poll(polled), Err(Error::Discover("gone"))));
}

#[test]
fn failure_to_wrap_is_told_apart() {
    let polled: Polled = Ok(Async::Ready(Change::Insert(7, Connection(0))));
    assert!(matches!(per_endpoint().poll(polled), Err(Error::Endpoint("refused"))));
}

#[test]
fn outcome_of_wrapping() {
    let made: Result<_, Error<(), &str>> = insert(3u64, Ok(4u8));
    assert!(matches!(made, Ok(Async::Ready(Change::Insert(3, 4)))));
    let made: Result<Async<Change<u64, u8>>, Error<(), &str>> = insert(3u64, Err("no"));
    assert!(matches!(made, Err(Error::Endpoint("no"))));
}

#[test]
fn shared_service_is_handed_out_for_every_target() {
    let stack = shared::stack("db".to_string());
    for target in ["a", "b"].iter() {
        match stack.make(target) {
            Ok(value) => assert_eq!(value, "db"),
            Err(_) => unreachable!(),
        }
    }
}
