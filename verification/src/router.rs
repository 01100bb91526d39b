//! A service that sends each request to the first route that it matches.
use std::marker::PhantomData;
use vstd::prelude::*;

use crate::discover::{Async, Discover};
use crate::request_match::{reads, RequestHead, RequestMatch};
use crate::route::{CanGetDestination, GetRoutes, Route, Routes};
use crate::shared_discover;
use crate::svc;

verus! {

/// A layer that puts routing in front of a discovery.
pub fn layer<T, D, G, R>(get_routes: G, route_layer: R) -> (res: Layer<G, D, R>) where
    T: CanGetDestination,
    D: svc::Stack<T>,
    D::Value: Discover,
    <D::Value as Discover>::Key: Clone,
    <D::Value as Discover>::Service: Clone,
    G: GetRoutes + Clone,
    R: svc::Layer<Route, Route, shared_discover::Stack<D::Value>> + Clone,

    ensures
        res.get_routes() == get_routes,
        res.route_layer() == route_layer,
        res.default_route().has_labels(Seq::empty()),
{
    Layer { get_routes, route_layer, default_route: Route::default(), _p: PhantomData }
}

/// Makes routing stacks over discoveries of type `D`.
#[derive(Debug)]
pub struct Layer<G, D, R = ()> {
    get_routes: G,
    route_layer: R,
    default_route: Route,
    _p: PhantomData<D>,
}

/// Makes a routing service for a target.
#[derive(Debug)]
pub struct Stack<D, G, R = ()> {
    discover: D,
    get_routes: G,
    route_layer: R,
    default_route: Route,
}

/// Why a routing service could not be made.
#[derive(Debug)]
pub enum Error<D, R> {
    /// No discovery could be made for the target.
    Discover(D),
    /// No service could be made for the default route.
    Route(R),
}

/// Sends each request to the first route that it matches, and to the default
/// route where it matches none.
#[verifier::reject_recursive_types(D)]
pub struct Service<D, G, R> where D: Discover, R: svc::Stack<Route> {
    stack: R,
    discover_bg: Option<shared_discover::Background<D>>,
    route_stream: G,
    routes: Vec<(RequestMatch, R::Value)>,
    default_route: R::Value,
}

impl<G, D, R> Layer<G, D, R> {
    /// The source of routes.
    pub closed spec fn get_routes(&self) -> G {
        self.get_routes
    }

    /// What the shared discovery is wrapped in.
    pub closed spec fn route_layer(&self) -> R {
        self.route_layer
    }

    /// The route for requests that match no other.
    pub closed spec fn default_route(&self) -> Route {
        self.default_route
    }
}

impl<D, G, R> Stack<D, G, R> {
    /// What makes the discovery of a target.
    pub closed spec fn discover(&self) -> D {
        self.discover
    }

    /// The source of routes.
    pub closed spec fn get_routes(&self) -> G {
        self.get_routes
    }

    /// What the shared discovery is wrapped in.
    pub closed spec fn route_layer(&self) -> R {
        self.route_layer
    }

    /// The route for requests that match no other.
    pub closed spec fn default_route(&self) -> Route {
        self.default_route
    }
}

impl<G: Clone, D, R: Clone> Clone for Layer<G, D, R> {
    fn clone(&self) -> (res: Self)
        ensures
            cloned(self.get_routes(), res.get_routes()),
            cloned(self.route_layer(), res.route_layer()),
            self.default_route().same_labels(&res.default_route()),
    {
        Layer {
            get_routes: self.get_routes.clone(),
            route_layer: self.route_layer.clone(),
            default_route: self.default_route.clone(),
            _p: PhantomData,
        }
    }
}

impl<D: Clone, G: Clone, R: Clone> Clone for Stack<D, G, R> {
    fn clone(&self) -> (res: Self)
        ensures
            cloned(self.discover(), res.discover()),
            cloned(self.get_routes(), res.get_routes()),
            cloned(self.route_layer(), res.route_layer()),
            self.default_route().same_labels(&res.default_route()),
    {
        Stack {
            discover: self.discover.clone(),
            get_routes: self.get_routes.clone(),
            route_layer: self.route_layer.clone(),
            default_route: self.default_route.clone(),
        }
    }
}

impl<D, G, R> Service<D, G, R> where D: Discover, R: svc::Stack<Route> {
    /// What services for routes are made with.
    pub closed spec fn stack(&self) -> R {
        self.stack
    }

    /// What serves the subscribers of the discovery, until it is done.
    pub closed spec fn discover_bg(&self) -> Option<shared_discover::Background<D>> {
        self.discover_bg
    }

    /// Where updates of the routes come from.
    pub closed spec fn route_stream(&self) -> G {
        self.route_stream
    }

    /// The routes in the order in which they are tried.
    pub closed spec fn routes(&self) -> Seq<(RequestMatch, R::Value)> {
        self.routes@
    }

    /// The service for requests that match no route.
    pub closed spec fn default_route(&self) -> R::Value {
        self.default_route
    }
}

impl<T, D, G, R> svc::Layer<T, T, D> for Layer<G, D, R> where
    T: CanGetDestination,
    D: svc::Stack<T>,
    D::Value: Discover,
    G: GetRoutes + Clone,
    R: svc::Layer<Route, Route, shared_discover::Stack<D::Value>> + Clone,
 {
    type Value = <Stack<D, G, R> as svc::Stack<T>>::Value;

    type Error = <Stack<D, G, R> as svc::Stack<T>>::Error;

    type Stack = Stack<D, G, R>;

    fn bind(&self, discover: D) -> (res: Stack<D, G, R>)
        ensures
            res.discover() == discover,
            cloned(self.get_routes(), res.get_routes()),
            cloned(self.route_layer(), res.route_layer()),
            self.default_route().same_labels(&res.default_route()),
    {
        Stack {
            discover,
            get_routes: self.get_routes.clone(),
            route_layer: self.route_layer.clone(),
            default_route: self.default_route.clone(),
        }
    }
}

impl<T, D, G, R> svc::Stack<T> for Stack<D, G, R> where
    T: CanGetDestination,
    D: svc::Stack<T>,
    D::Value: Discover,
    G: GetRoutes,
    R: svc::Layer<Route, Route, shared_discover::Stack<D::Value>> + Clone,
 {
    type Value = Service<D::Value, G::Stream, R::Stack>;

    type Error = Error<D::Error, R::Error>;

    /// Makes the discovery for the target, shares it, wraps what is shared in the
    /// route layer, and makes the service for the default route; only then asks
    /// for the routes of the destination.
    fn make(&self, target: &T) -> (res: Result<
        Service<D::Value, G::Stream, R::Stack>,
        Error<D::Error, R::Error>,
    >)
        ensures
            match res {
                Err(Error::Discover(err)) => call_ensures(
                    D::make,
                    (&self.discover(), target),
                    Err(err),
                ),
                Err(Error::Route(err)) => exists|
                    discover: D::Value,
                    share: shared_discover::Stack<D::Value>,
                    bg: shared_discover::Background<D::Value>,
                    stack: R::Stack,
                |
                    #![trigger layered(*self, target, discover, share, bg, stack)]
                    layered(*self, target, discover, share, bg, stack) && call_ensures(
                        <R::Stack as svc::Stack<Route>>::make,
                        (&stack, &self.default_route()),
                        Err(err),
                    ),
                Ok(service) => serves(*self, target, service),
            },
    {
        let discover = match self.discover.make(target) {
            Ok(discover) => discover,
            Err(err) => return Err(Error::Discover(err)),
        };
        let ghost found = discover;
        let (share, discover_bg) = shared_discover::new(discover);
        let ghost handed = share;
        let stack = self.route_layer.bind(share);
        assert(layered(*self, target, found, handed, discover_bg, stack));

        let default_route = match svc::Stack::make(&stack, &self.default_route) {
            Ok(default_route) => default_route,
            Err(err) => return Err(Error::Route(err)),
        };

        let dst = target.get_destination();
        let ghost named = dst;
        let route_stream = self.get_routes.get_routes(dst);

        let service = Service {
            stack,
            route_stream,
            default_route,
            discover_bg: Some(discover_bg),
            routes: Vec::new(),
        };
        assert(layered(
            *self,
            target,
            found,
            handed,
            service.discover_bg()->Some_0,
            service.stack(),
        ));
        assert(call_ensures(T::get_destination, (target,), named));
        assert(serves(*self, target, service));
        Ok(service)
    }
}

/// Whether the service has no routes yet, its default route was made with the route
/// layer over the discovery of the target, and the updates of its routes are those
/// for the destination of the target.
pub open spec fn serves<T, D, G, R>(
    router: Stack<D, G, R>,
    target: &T,
    service: Service<D::Value, G::Stream, R::Stack>,
) -> bool where
    T: CanGetDestination,
    D: svc::Stack<T>,
    D::Value: Discover,
    G: GetRoutes,
    R: svc::Layer<Route, Route, shared_discover::Stack<D::Value>>,
 {
    &&& service.routes().len() == 0
    &&& service.discover_bg() matches Some(bg) && exists|
        discover: D::Value,
        share: shared_discover::Stack<D::Value>,
    | #[trigger] layered(router, target, discover, share, bg, service.stack())
    &&& call_ensures(
        <R::Stack as svc::Stack<Route>>::make,
        (&service.stack(), &router.default_route()),
        Ok(service.default_route()),
    )
    &&& exists|dst: String| #[trigger]
        call_ensures(T::get_destination, (target,), dst) && call_ensures(
            G::get_routes,
            (&router.get_routes(), dst),
            service.route_stream(),
        )
}

/// A service that was made has a background of its own. It follows the discovery that
/// was made for the target, as it came, and is joined by a channel to what the route
/// layer wraps. Nobody has subscribed and nothing is known yet, so all are in sync.
/// That the channels of two services differ is not said here.
pub proof fn law_made_with_own_background<T, D, G, R>(
    router: Stack<D, G, R>,
    target: &T,
    service: Service<D::Value, G::Stream, R::Stack>,
) -> (found: (D::Value, shared_discover::Stack<D::Value>)) where
    T: CanGetDestination,
    D: svc::Stack<T>,
    D::Value: Discover,
    <D::Value as Discover>::Key: Clone,
    <D::Value as Discover>::Service: Clone,
    G: GetRoutes,
    R: svc::Layer<Route, Route, shared_discover::Stack<D::Value>>,

    requires
        serves(router, target, service),
    ensures
        call_ensures(D::make, (&router.discover(), target), Ok(found.0)),
        call_ensures(R::bind, (&router.route_layer(), found.1), service.stack()),
        service.discover_bg() matches Some(bg) && shared_discover::is_new(found.1, bg, found.0)
            && bg.in_sync(),
{
    let bg = service.discover_bg()->Some_0;
    let (discover, share) = choose|
        discover: D::Value,
        share: shared_discover::Stack<D::Value>,
    | #[trigger] layered(router, target, discover, share, bg, service.stack());
    shared_discover::law_new_in_sync(share, bg, discover);
    (discover, share)
}

/// Whether `discover` was made for the target, `share` and `bg` share it, and
/// `stack` is the route layer over `share`.
pub open spec fn layered<T, D, G, R>(
    router: Stack<D, G, R>,
    target: &T,
    discover: D::Value,
    share: shared_discover::Stack<D::Value>,
    bg: shared_discover::Background<D::Value>,
    stack: R::Stack,
) -> bool where
    D: svc::Stack<T>,
    D::Value: Discover,
    R: svc::Layer<Route, Route, shared_discover::Stack<D::Value>>,
 {
    &&& call_ensures(D::make, (&router.discover(), target), Ok(discover))
    &&& shared_discover::is_new(share, bg, discover)
    &&& call_ensures(R::bind, (&router.route_layer(), share), stack)
}

/// The routes for which a service was made, in their order, each with its service.
pub open spec fn installed<V, E>(
    routes: Seq<(RequestMatch, Route)>,
    made: Seq<Result<V, E>>,
) -> Seq<(RequestMatch, V)>
    decreases routes.len(),
{
    if routes.len() == 0 {
        Seq::empty()
    } else {
        let earlier = installed(routes.drop_last(), made.drop_last());
        match made.last() {
            Ok(service) => earlier.push((routes.last().0, service)),
            Err(_) => earlier,
        }
    }
}

/// The routes for which no service was made, in their order.
pub open spec fn left_out<V, E>(
    routes: Seq<(RequestMatch, Route)>,
    made: Seq<Result<V, E>>,
) -> Seq<(RequestMatch, Route)>
    decreases routes.len(),
{
    if routes.len() == 0 {
        Seq::empty()
    } else {
        let earlier = left_out(routes.drop_last(), made.drop_last());
        match made.last() {
            Ok(_) => earlier,
            Err(_) => earlier.push(routes.last()),
        }
    }
}

/// Whether `made` is what came of making a service for each of the routes.
pub open spec fn made_with<R: svc::Stack<Route>>(
    stack: R,
    routes: Seq<(RequestMatch, Route)>,
    made: Seq<Result<R::Value, R::Error>>,
) -> bool {
    &&& made.len() == routes.len()
    &&& forall|i: int|
        0 <= i < routes.len() ==> call_ensures(
            R::make,
            (&stack, &(#[trigger] routes[i]).1),
            made[i],
        )
}

impl<D, G, R> Service<D, G, R> where D: Discover, R: svc::Stack<Route> {
    /// Whether all but the routes is the same.
    pub open spec fn same_but_routes(&self, other: &Self) -> bool {
        &&& self.stack() == other.stack()
        &&& self.discover_bg() == other.discover_bg()
        &&& self.route_stream() == other.route_stream()
        &&& self.default_route() == other.default_route()
    }

    /// Replaces the routes by those of `routes` for which a service can be made, and
    /// hands out the others.
    fn update_routes(&mut self, routes: Routes) -> (refused: Routes)
        ensures
            exists|made: Seq<Result<R::Value, R::Error>>| #[trigger]
                updated(*old(self), *final(self), routes@, made) && refused@ == left_out(
                    routes@,
                    made,
                ),
    {
        let mut refused: Routes = Vec::new();
        let ghost all = routes@;
        let ghost mut made: Seq<Result<R::Value, R::Error>> = Seq::empty();
        self.routes = Vec::with_capacity(routes.len());
        for (req_match, route) in it: routes
            invariant
                it.seq() == all,
                self.same_but_routes(old(self)),
                made_with(self.stack(), all.take(it.index() as int), made),
                self.routes() == installed(all.take(it.index() as int), made),
                refused@ == left_out(all.take(it.index() as int), made),
        {
            let outcome = self.stack.make(&route);
            let ghost came = outcome;
            self.install(req_match, route, outcome, &mut refused);
            proof {
                let i = it.index() as int;
                assert(all.take(i + 1).drop_last() =~= all.take(i));
                assert(made.push(came).drop_last() =~= made);
                made = made.push(came);
            }
        }
        assert(all.take(all.len() as int) =~= all);
        assert(updated(*old(self), *self, all, made));
        refused
    }

    /// Adds the route behind all others where a service was made for it, else to the
    /// routes that are refused.
    fn install(
        &mut self,
        req_match: RequestMatch,
        route: Route,
        made: Result<R::Value, R::Error>,
        refused: &mut Routes,
    )
        ensures
            final(refused)@ == match made {
                Ok(_) => old(refused)@,
                Err(_) => old(refused)@.push((req_match, route)),
            },
            final(self).same_but_routes(old(self)),
            final(self).routes() == match made {
                Ok(service) => old(self).routes().push((req_match, service)),
                Err(_) => old(self).routes(),
            },
    {
        match made {
            Ok(service) => self.routes.push((req_match, service)),
            Err(_) => refused.push((req_match, route)),
        }
    }
}

/// What polling on behalf of a [`Service`] gave.
pub enum Event<E> {
    /// What came of polling what serves the subscribers, where there is any.
    Background(Option<Result<Async<()>, E>>),
    /// What came of polling for updates of the routes.
    Routes(Async<Routes>),
}

/// What has to be done next to find out whether a [`Service`] is ready.
pub enum Step {
    /// Poll for an update of the routes. The last update had these routes for which no
    /// service can be made.
    PollRoutes { refused: Routes },
    /// Stop polling: the service is ready.
    Ready,
}

/// Whether `after` is `before` with the routes of `routes` for which a service could
/// be made.
pub open spec fn updated<D, G, R>(
    before: Service<D, G, R>,
    after: Service<D, G, R>,
    routes: Seq<(RequestMatch, Route)>,
    made: Seq<Result<R::Value, R::Error>>,
) -> bool where D: Discover, R: svc::Stack<Route> {
    &&& after.same_but_routes(&before)
    &&& made_with(before.stack(), routes, made)
    &&& after.routes() == installed(routes, made)
}

/// Whether the route at `i` is the first that matches.
pub open spec fn is_first_match<V>(
    routes: Seq<(RequestMatch, V)>,
    i: int,
    method: http::Method,
    path: Seq<char>,
) -> bool {
    &&& 0 <= i < routes.len()
    &&& routes[i].0.matches(method, path)
    &&& no_match(routes.take(i), method, path)
}

/// Whether no route matches.
pub open spec fn no_match<V>(
    routes: Seq<(RequestMatch, V)>,
    method: http::Method,
    path: Seq<char>,
) -> bool {
    forall|j: int| 0 <= j < routes.len() ==> !(#[trigger] routes[j]).0.matches(method, path)
}

/// Whether `now` is the service of the first route that matches, or of the default
/// route where none does, and `after` is `before` with `later` in the place of that
/// service.
pub open spec fn dispatched<D, G, R>(
    before: Service<D, G, R>,
    after: Service<D, G, R>,
    now: R::Value,
    later: R::Value,
    method: http::Method,
    path: Seq<char>,
) -> bool where D: Discover, R: svc::Stack<Route> {
    &&& forall|i: int| #[trigger]
        is_first_match(before.routes(), i, method, path) ==> {
            &&& now == before.routes()[i].1
            &&& after.routes() == before.routes().update(i, (before.routes()[i].0, later))
            &&& after.default_route() == before.default_route()
        }
    &&& no_match(before.routes(), method, path) ==> {
        &&& now == before.default_route()
        &&& after.default_route() == later
        &&& after.routes() == before.routes()
    }
    &&& after.stack() == before.stack()
    &&& after.discover_bg() == before.discover_bg()
    &&& after.route_stream() == before.route_stream()
}

impl<D, G, R> Service<D, G, R> where D: Discover, R: svc::Stack<Route> {
    /// Takes note of what polling gave, and says what to do next. Finding out
    /// whether the service is ready starts with polling what serves the
    /// subscribers; what comes of that keeps no service from being ready.
    pub fn poll_ready<E>(&mut self, event: Event<E>) -> (step: Step)
        ensures
            match event {
                Event::Background(polled) => {
                    &&& step matches Step::PollRoutes { refused } && refused@.len() == 0
                    &&& final(self).discover_bg() == match polled {
                        None | Some(Ok(Async::NotReady)) => old(self).discover_bg(),
                        Some(Ok(Async::Ready(()))) | Some(Err(_)) => None,
                    }
                    &&& final(self).stack() == old(self).stack()
                    &&& final(self).route_stream() == old(self).route_stream()
                    &&& final(self).routes() == old(self).routes()
                    &&& final(self).default_route() == old(self).default_route()
                },
                Event::Routes(Async::Ready(routes)) => {
                    &&& step matches Step::PollRoutes { refused } && exists|
                        made: Seq<Result<R::Value, R::Error>>,
                    | #[trigger]
                        updated(*old(self), *final(self), routes@, made) && refused@ == left_out(
                            routes@,
                            made,
                        )
                },
                Event::Routes(Async::NotReady) => step is Ready && *final(self) == *old(self),
            },
            old(self).discover_bg() is None ==> final(self).discover_bg() is None,
    {
        match event {
            Event::Background(polled) => {
                match polled {
                    None | Some(Ok(Async::NotReady)) => {},
                    Some(Err(_)) => {
                        self.discover_bg = None;
                    },
                    Some(Ok(Async::Ready(()))) => {
                        self.discover_bg = None;
                    },
                }
                Step::PollRoutes { refused: Vec::new() }
            },
            Event::Routes(Async::Ready(routes)) => {
                let refused = self.update_routes(routes);
                Step::PollRoutes { refused }
            },
            Event::Routes(Async::NotReady) => Step::Ready,
        }
    }

    /// What serves the subscribers, to be polled.
    pub fn discover_bg_mut(&mut self) -> (res: Option<&mut shared_discover::Background<D>>)
        ensures
            match res {
                Some(bg) => old(self).discover_bg() == Some(*bg) && final(self).discover_bg()
                    == Some(*final(bg)),
                None => old(self).discover_bg() is None && final(self).discover_bg() is None,
            },
            final(self).stack() == old(self).stack(),
            final(self).route_stream() == old(self).route_stream(),
            final(self).routes() == old(self).routes(),
            final(self).default_route() == old(self).default_route(),
    {
        self.discover_bg.as_mut()
    }

    /// Where updates of the routes come from, to be polled.
    pub fn route_stream_mut(&mut self) -> (res: &mut G)
        ensures
            *res == old(self).route_stream(),
            final(self).route_stream() == *final(res),
            final(self).stack() == old(self).stack(),
            final(self).discover_bg() == old(self).discover_bg(),
            final(self).routes() == old(self).routes(),
            final(self).default_route() == old(self).default_route(),
    {
        &mut self.route_stream
    }

    /// The place of the first route that a request with this head matches.
    pub fn first_match(&self, head: &RequestHead) -> (res: Option<usize>)
        ensures
            match res {
                Some(i) => is_first_match(self.routes(), i as int, *head.method, head.path@),
                None => no_match(self.routes(), *head.method, head.path@),
            },
    {
        for i in 0..self.routes.len()
            invariant
                no_match(self.routes().take(i as int), *head.method, head.path@),
        {
            if self.routes[i].0.is_match_head(head) {
                return Some(i);
            }
            proof {
                let tried = self.routes().take(i + 1);
                assert forall|j: int| 0 <= j < tried.len() implies !(#[trigger] tried[j]).0.matches(
                    *head.method,
                    head.path@,
                ) by {
                    if j < i {
                        assert(self.routes().take(i as int)[j] == tried[j]);
                    }
                }
            }
        }
        assert(self.routes().take(self.routes().len() as int) =~= self.routes());
        None
    }

    /// The service that the request is to be handed to: that of the first route that
    /// it matches, else that of the default route.
    pub fn call<B>(&mut self, req: &http::Request<B>) -> (res: &mut R::Value)
        ensures
            exists|method: http::Method, path: Seq<char>| #[trigger] reads(*req, method, path),
            forall|method: http::Method, path: Seq<char>| #[trigger]
                reads(*req, method, path) ==> dispatched(
                    *old(self),
                    *final(self),
                    *res,
                    *final(res),
                    method,
                    path,
                ),
    {
        let head = RequestHead::of(req);
        let found = self.first_match(&head);
        proof {
            law_first_match_is_one(self.routes(), *head.method, head.path@);
        }
        match found {
            Some(i) => &mut self.routes[i].1,
            None => &mut self.default_route,
        }
    }
}

/// A request has one first match, or matches no route, and not both.
pub proof fn law_first_match_is_one<V>(
    routes: Seq<(RequestMatch, V)>,
    method: http::Method,
    path: Seq<char>,
)
    ensures
        no_match(routes, method, path) <==> !exists|i: int| #[trigger]
            is_first_match(routes, i, method, path),
        forall|i: int, j: int| #[trigger]
            is_first_match(routes, i, method, path) && #[trigger] is_first_match(
                routes,
                j,
                method,
                path,
            ) ==> i == j,
    decreases routes.len(),
{
    assert forall|i: int, j: int| #[trigger]
        is_first_match(routes, i, method, path) && #[trigger] is_first_match(
            routes,
            j,
            method,
            path,
        ) implies i == j by {
        if i < j {
            assert(routes.take(j)[i] == routes[i]);
        }
        if j < i {
            assert(routes.take(i)[j] == routes[j]);
        }
    }
    if !no_match(routes, method, path) {
        let n = routes.len() - 1;
        let earlier = routes.drop_last();
        law_first_match_is_one(earlier, method, path);
        if no_match(earlier, method, path) {
            assert(routes.take(n) =~= earlier);
            assert forall|j: int| 0 <= j < n implies !(#[trigger] routes[j]).0.matches(
                method,
                path,
            ) by {
                assert(earlier[j] == routes[j]);
            }
            assert(is_first_match(routes, n, method, path));
        } else {
            let i = choose|i: int| #[trigger] is_first_match(earlier, i, method, path);
            assert(routes.take(i) =~= earlier.take(i));
            assert(is_first_match(routes, i, method, path));
        }
    }
}

/// Where there are no routes, every request goes to the default route.
pub proof fn law_default_without_routes<V>(
    routes: Seq<(RequestMatch, V)>,
    method: http::Method,
    path: Seq<char>,
)
    requires
        routes.len() == 0,
    ensures
        no_match(routes, method, path),
{
}

/// Routes that are tried later change nothing for a request that an earlier one
/// matches; they decide for the others.
pub proof fn law_earlier_routes_first<V>(
    routes: Seq<(RequestMatch, V)>,
    more: Seq<(RequestMatch, V)>,
    method: http::Method,
    path: Seq<char>,
)
    ensures
        forall|i: int| #[trigger]
            is_first_match(routes, i, method, path) ==> is_first_match(
                routes + more,
                i,
                method,
                path,
            ),
        no_match(routes, method, path) ==> forall|i: int| #[trigger]
            is_first_match(more, i, method, path) ==> is_first_match(
                routes + more,
                routes.len() + i,
                method,
                path,
            ),
{
    let all = routes + more;
    assert forall|i: int| #[trigger]
        is_first_match(routes, i, method, path) implies is_first_match(all, i, method, path) by {
        assert(all.take(i) =~= routes.take(i));
    }
    if no_match(routes, method, path) {
        assert forall|i: int| #[trigger]
            is_first_match(more, i, method, path) implies is_first_match(
            all,
            routes.len() + i,
            method,
            path,
        ) by {
            let tried = all.take(routes.len() + i);
            assert forall|j: int| 0 <= j < tried.len() implies !(#[trigger] tried[j]).0.matches(
                method,
                path,
            ) by {
                if j < routes.len() {
                    assert(tried[j] == routes[j]);
                } else {
                    assert(tried[j] == more.take(i)[j - routes.len()]);
                }
            }
        }
    }
}

/// Whether `places` are, in their order, the places at which a service was made.
pub open spec fn places_made<V, E>(made: Seq<Result<V, E>>, places: Seq<int>) -> bool {
    &&& forall|p: int|
        0 <= p < places.len() ==> 0 <= #[trigger] places[p] < made.len() && made[places[p]] is Ok
    &&& forall|p: int, q: int|
        0 <= p < q < places.len() ==> #[trigger] places[p] < #[trigger] places[q]
    &&& forall|i: int| 0 <= i < made.len() && (#[trigger] made[i]) is Ok ==> places.contains(i)
}

/// A route for which no service can be made is left out, and keeps no other route
/// out: what is installed are the routes for which one was made, each once, with
/// its own condition and its own service, in their order.
pub proof fn law_installed_are_made<V, E>(
    routes: Seq<(RequestMatch, Route)>,
    made: Seq<Result<V, E>>,
) -> (places: Seq<int>)
    requires
        made.len() == routes.len(),
    ensures
        places_made(made, places),
        installed(routes, made).len() == places.len(),
        forall|p: int|
            0 <= p < places.len() ==> (#[trigger] installed(routes, made)[p]) == (
                routes[places[p]].0,
                made[places[p]]->Ok_0,
            ),
    decreases routes.len(),
{
    if routes.len() == 0 {
        Seq::empty()
    } else {
        let n = routes.len() - 1;
        let fewer = made.drop_last();
        let earlier = law_installed_are_made(routes.drop_last(), fewer);
        let places = if made[n] is Ok {
            earlier.push(n)
        } else {
            earlier
        };
        assert forall|p: int| 0 <= p < places.len() implies 0 <= #[trigger] places[p] < made.len()
            && made[places[p]] is Ok by {
            if p < earlier.len() {
                assert(0 <= earlier[p] < fewer.len() && fewer[earlier[p]] is Ok);
            }
        }
        assert forall|p: int, q: int| 0 <= p < q < places.len() implies #[trigger] places[p]
            < #[trigger] places[q] by {
            assert(0 <= earlier[p] < fewer.len());
            if q < earlier.len() {
                assert(earlier[p] < earlier[q]);
            }
        }
        assert forall|i: int| 0 <= i < made.len() && (#[trigger] made[i]) is Ok implies places.contains(
            i,
        ) by {
            if i < n {
                assert(fewer[i] is Ok);
                let p = choose|p: int| 0 <= p < earlier.len() && earlier[p] == i;
                assert(places[p] == i);
            } else {
                assert(places[earlier.len() as int] == n);
            }
        }
        assert forall|p: int| 0 <= p < places.len() implies (#[trigger] installed(routes, made)[p])
            == (routes[places[p]].0, made[places[p]]->Ok_0) by {
            if p < earlier.len() {
                assert(installed(routes.drop_last(), fewer)[p] == installed(routes, made)[p]);
                assert(0 <= earlier[p] < fewer.len());
            }
        }
        places
    }
}

/// A route is refused exactly where no service could be made for it, with its own
/// condition, each once, in their order; together with those that are installed these
/// are all routes.
pub proof fn law_left_out_are_refused<V, E>(
    routes: Seq<(RequestMatch, Route)>,
    made: Seq<Result<V, E>>,
) -> (places: Seq<int>)
    requires
        made.len() == routes.len(),
    ensures
        forall|p: int|
            0 <= p < places.len() ==> 0 <= #[trigger] places[p] < made.len()
                && made[places[p]] is Err,
        forall|p: int, q: int|
            0 <= p < q < places.len() ==> #[trigger] places[p] < #[trigger] places[q],
        left_out(routes, made).len() == places.len(),
        forall|p: int|
            0 <= p < places.len() ==> (#[trigger] left_out(routes, made)[p])
                == routes[places[p]],
        left_out(routes, made).len() + installed(routes, made).len() == routes.len(),
    decreases routes.len(),
{
    if routes.len() == 0 {
        Seq::empty()
    } else {
        let n = routes.len() - 1;
        let fewer = made.drop_last();
        let earlier = law_left_out_are_refused(routes.drop_last(), fewer);
        let places = if made[n] is Err {
            earlier.push(n)
        } else {
            earlier
        };
        assert forall|p: int| 0 <= p < places.len() implies 0 <= #[trigger] places[p] < made.len()
            && made[places[p]] is Err by {
            if p < earlier.len() {
                assert(0 <= earlier[p] < fewer.len() && fewer[earlier[p]] is Err);
            }
        }
        assert forall|p: int, q: int| 0 <= p < q < places.len() implies #[trigger] places[p]
            < #[trigger] places[q] by {
            assert(0 <= earlier[p] < fewer.len());
            if q < earlier.len() {
                assert(earlier[p] < earlier[q]);
            }
        }
        assert forall|p: int| 0 <= p < places.len() implies (#[trigger] left_out(routes, made)[p])
            == routes[places[p]] by {
            if p < earlier.len() {
                assert(left_out(routes.drop_last(), fewer)[p] == left_out(routes, made)[p]);
                assert(0 <= earlier[p] < fewer.len());
            }
        }
        places
    }
}

/// Where making a service for a route always comes to the same, an update leads to the
/// same service whatever the routes were before: it replaces them, and adds to none.
pub proof fn law_update_replaces<D, G, R>(
    first: Service<D, G, R>,
    second: Service<D, G, R>,
    third: Service<D, G, R>,
    direct: Service<D, G, R>,
    earlier: Seq<(RequestMatch, Route)>,
    earlier_made: Seq<Result<R::Value, R::Error>>,
    later: Seq<(RequestMatch, Route)>,
    later_made: Seq<Result<R::Value, R::Error>>,
    direct_made: Seq<Result<R::Value, R::Error>>,
) where D: Discover, R: svc::Stack<Route>
    requires
        forall|route: &Route, a: Result<R::Value, R::Error>, b: Result<R::Value, R::Error>| #[trigger]
            call_ensures(R::make, (&first.stack(), route), a) && #[trigger] call_ensures(
                R::make,
                (&first.stack(), route),
                b,
            ) ==> a == b,
        updated(first, second, earlier, earlier_made),
        updated(second, third, later, later_made),
        updated(first, direct, later, direct_made),
    ensures
        third.routes() == direct.routes(),
        third.same_but_routes(&direct),
        left_out(later, later_made) == left_out(later, direct_made),
{
    assert forall|i: int| 0 <= i < later.len() implies later_made[i] == direct_made[i] by {
        assert(call_ensures(R::make, (&first.stack(), &later[i].1), later_made[i]));
        assert(call_ensures(R::make, (&first.stack(), &later[i].1), direct_made[i]));
    }
    assert(later_made =~= direct_made);
}

/// Of two updates in a row, only the second counts.
pub proof fn law_last_update_counts<D, G, R>(
    first: Service<D, G, R>,
    second: Service<D, G, R>,
    third: Service<D, G, R>,
    earlier: Seq<(RequestMatch, Route)>,
    earlier_made: Seq<Result<R::Value, R::Error>>,
    later: Seq<(RequestMatch, Route)>,
    later_made: Seq<Result<R::Value, R::Error>>,
) where D: Discover, R: svc::Stack<Route>
    requires
        updated(first, second, earlier, earlier_made),
        updated(second, third, later, later_made),
    ensures
        updated(first, third, later, later_made),
{
}

} // verus!
