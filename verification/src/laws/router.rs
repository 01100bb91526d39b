//! Of the service that sends each request to the first route that it matches.
use vstd::prelude::*;

use crate::discover::{Async, Discover};
use crate::ordered_map::holds;
use crate::request_match::{reads, uri_path, RequestHead, RequestMatch};
use crate::route::{CanGetDestination, GetRoutes, Route, Routes};
use crate::router;
use crate::router::{
    dispatched, installed, is_first_match, law_installed_are_made, law_left_out_are_refused,
    layered, left_out, no_match, updated, Error, Event, Layer, Service, Stack, Step,
};
use crate::shared_discover;
use crate::shared_discover::Background;
use crate::svc;

verus! {

/// A layer keeps what it was given, and its default route has no labels; so has that of
/// every stack that it binds.
pub proof fn law_layer<T, D, G, R>(
    get_routes: G,
    route_layer: R,
    discover: D,
    layer: Layer<G, D, R>,
    stack: Stack<D, G, R>,
) where
    T: CanGetDestination,
    D: svc::Stack<T>,
    D::Value: Discover,
    <D::Value as Discover>::Key: Clone,
    <D::Value as Discover>::Service: Clone,
    G: GetRoutes + Clone,
    R: svc::Layer<Route, Route, shared_discover::Stack<D::Value>> + Clone,

    requires
        call_ensures(router::layer::<T, D, G, R>, (get_routes, route_layer), layer),
        call_ensures(<Layer<G, D, R> as svc::Layer<T, T, D>>::bind, (&layer, discover), stack),
    ensures
        layer.get_routes() == get_routes,
        layer.route_layer() == route_layer,
        stack.discover() == discover,
        cloned(get_routes, stack.get_routes()),
        cloned(route_layer, stack.route_layer()),
        exists|entries: Seq<(String, String)>| #[trigger]
            holds(layer.default_route().labels, entries) && entries.len() == 0,
        exists|entries: Seq<(String, String)>| #[trigger]
            holds(stack.default_route().labels, entries) && entries.len() == 0,
{
    crate::laws::route::law_no_labels(layer.default_route());
    crate::laws::route::law_no_labels(stack.default_route());
}

/// The clone of a layer has clones of what the layer has.
pub proof fn law_clone_layer<G: Clone, D, R: Clone>(
    layer: &Layer<G, D, R>,
    copy: Layer<G, D, R>,
)
    requires
        call_ensures(<Layer<G, D, R> as Clone>::clone, (layer,), copy),
    ensures
        cloned(layer.get_routes(), copy.get_routes()),
        cloned(layer.route_layer(), copy.route_layer()),
        layer.default_route().same_labels(&copy.default_route()),
{
}

/// The clone of a stack has clones of what the stack has.
pub proof fn law_clone_stack<D: Clone, G: Clone, R: Clone>(
    stack: &Stack<D, G, R>,
    copy: Stack<D, G, R>,
)
    requires
        call_ensures(<Stack<D, G, R> as Clone>::clone, (stack,), copy),
    ensures
        cloned(stack.discover(), copy.discover()),
        cloned(stack.get_routes(), copy.get_routes()),
        cloned(stack.route_layer(), copy.route_layer()),
        stack.default_route().same_labels(&copy.default_route()),
{
}

/// A service that is made has no routes yet. Its updates are those that the source gave
/// for the very destination that the target named. Its default service was made for the
/// default route, with the route layer over the discovery that was made for the target.
/// The destination, the discovery and what shares it are given.
pub proof fn law_make<T, D, G, R>(
    stack: &Stack<D, G, R>,
    target: &T,
    service: Service<D::Value, G::Stream, R::Stack>,
) -> (found: (String, D::Value, shared_discover::Stack<D::Value>)) where
    T: CanGetDestination,
    D: svc::Stack<T>,
    D::Value: Discover,
    G: GetRoutes,
    R: svc::Layer<Route, Route, shared_discover::Stack<D::Value>> + Clone,

    requires
        call_ensures(<Stack<D, G, R> as svc::Stack<T>>::make, (stack, target), Ok(service)),
    ensures
        service.routes().len() == 0,
        call_ensures(T::get_destination, (target,), found.0),
        call_ensures(G::get_routes, (&stack.get_routes(), found.0), service.route_stream()),
        call_ensures(D::make, (&stack.discover(), target), Ok(found.1)),
        call_ensures(R::bind, (&stack.route_layer(), found.2), service.stack()),
        call_ensures(
            <R::Stack as svc::Stack<Route>>::make,
            (&service.stack(), &stack.default_route()),
            Ok(service.default_route()),
        ),
        service.discover_bg() matches Some(bg) && bg.discover() == found.1 && bg.cache().len() == 0
            && bg.notify_txs().len() == 0 && (bg.notify_rx() matches Some(rx) && call_ensures(
            futures::sync::mpsc::unbounded::<crate::subscriber::Notify<D::Value>>,
            (),
            (found.2.notify_tx(), rx),
        )),
{
    assert(router::serves(*stack, target, service));
    let dst = choose|dst: String| #[trigger]
        call_ensures(T::get_destination, (target,), dst) && call_ensures(
            G::get_routes,
            (&stack.get_routes(), dst),
            service.route_stream(),
        );
    let bg = service.discover_bg()->Some_0;
    let (discover, share) = choose|
        discover: D::Value,
        share: shared_discover::Stack<D::Value>,
    | #[trigger] layered(*stack, target, discover, share, bg, service.stack());
    (dst, discover, share)
}

/// Where the destination of a target is always the same, the updates of two services
/// that are made for it are asked of the source for the same destination.
pub proof fn law_make_asks_for_destination<T, D, G, R>(
    stack: &Stack<D, G, R>,
    target: &T,
    service: Service<D::Value, G::Stream, R::Stack>,
    dst: String,
) where
    T: CanGetDestination,
    D: svc::Stack<T>,
    D::Value: Discover,
    G: GetRoutes,
    R: svc::Layer<Route, Route, shared_discover::Stack<D::Value>> + Clone,

    requires
        call_ensures(<Stack<D, G, R> as svc::Stack<T>>::make, (stack, target), Ok(service)),
        forall|other: String| #[trigger]
            call_ensures(T::get_destination, (target,), other) ==> other == dst,
    ensures
        call_ensures(G::get_routes, (&stack.get_routes(), dst), service.route_stream()),
{
    let found = law_make(stack, target, service);
}

/// No service is made exactly for one of two reasons: making the discovery for the
/// target failed, or making the default service did, with the route layer over the
/// discovery that was made. The error is the one that came of it.
pub proof fn law_make_fails<T, D, G, R>(
    stack: &Stack<D, G, R>,
    target: &T,
    err: Error<D::Error, R::Error>,
) where
    T: CanGetDestination,
    D: svc::Stack<T>,
    D::Value: Discover,
    G: GetRoutes,
    R: svc::Layer<Route, Route, shared_discover::Stack<D::Value>> + Clone,

    requires
        call_ensures(<Stack<D, G, R> as svc::Stack<T>>::make, (stack, target), Err(err)),
    ensures
        err matches Error::Discover(e) ==> call_ensures(
            D::make,
            (&stack.discover(), target),
            Err(e),
        ),
        err matches Error::Route(e) ==> exists|
            discover: D::Value,
            share: shared_discover::Stack<D::Value>,
            over: R::Stack,
        |
            #[trigger] call_ensures(D::make, (&stack.discover(), target), Ok(discover))
                && #[trigger] call_ensures(R::bind, (&stack.route_layer(), share), over)
                && call_ensures(
                <R::Stack as svc::Stack<Route>>::make,
                (&over, &stack.default_route()),
                Err(e),
            ),
{
    if let Error::Route(e) = err {
        let (discover, share, bg, over) = choose|
            discover: D::Value,
            share: shared_discover::Stack<D::Value>,
            bg: shared_discover::Background<D::Value>,
            over: R::Stack,
        |
            #![trigger layered(*stack, target, discover, share, bg, over)]
            layered(*stack, target, discover, share, bg, over) && call_ensures(
                <R::Stack as svc::Stack<Route>>::make,
                (&over, &stack.default_route()),
                Err(e),
            );
        assert(call_ensures(D::make, (&stack.discover(), target), Ok(discover)));
    }
}

/// What is recorded for a route of an update came of making a service for that very
/// route.
pub proof fn law_made_for_own_route<D, G, R>(
    before: Service<D, G, R>,
    after: Service<D, G, R>,
    routes: Seq<(RequestMatch, Route)>,
    made: Seq<Result<R::Value, R::Error>>,
    i: int,
) where D: Discover, R: svc::Stack<Route>
    requires
        updated(before, after, routes, made),
        0 <= i < routes.len(),
    ensures
        made.len() == routes.len(),
        call_ensures(R::make, (&before.stack(), &routes[i].1), made[i]),
{
}

/// An update replaces all routes. For each route of the update a service was made, or
/// could not be, for that very route. Those for which one was made are installed, each
/// with its own condition and that service, in their order; the others are handed out
/// as they came, in their order. What came of each route is given, and the places of
/// those that are installed and of those that are handed out.
pub proof fn law_update<D, G, R, E>(
    before: Service<D, G, R>,
    after: Service<D, G, R>,
    routes: Routes,
    refused: Routes,
) -> (found: (Seq<Result<R::Value, R::Error>>, Seq<int>, Seq<int>)) where
    D: Discover,
    R: svc::Stack<Route>,

    requires
        exists|service: &mut Service<D, G, R>|
            *service == before && *final(service) == after && #[trigger] call_ensures(
                Service::<D, G, R>::poll_ready::<E>,
                (service, Event::Routes(Async::Ready(routes))),
                (Step::PollRoutes { refused }),
            ),
    ensures
        after.stack() == before.stack(),
        after.discover_bg() == before.discover_bg(),
        after.route_stream() == before.route_stream(),
        after.default_route() == before.default_route(),
        found.0.len() == routes@.len(),
        forall|i: int|
            0 <= i < routes@.len() ==> call_ensures(
                R::make,
                (&before.stack(), &(#[trigger] routes@[i]).1),
                found.0[i],
            ),
        after.routes().len() == found.1.len(),
        refused@.len() == found.2.len(),
        found.1.len() + found.2.len() == routes@.len(),
        forall|p: int, q: int|
            0 <= p < q < found.1.len() ==> #[trigger] found.1[p] < #[trigger] found.1[q],
        forall|p: int, q: int|
            0 <= p < q < found.2.len() ==> #[trigger] found.2[p] < #[trigger] found.2[q],
        forall|p: int|
            0 <= p < found.1.len() ==> 0 <= #[trigger] found.1[p] < routes@.len()
                && after.routes()[p].0 == routes@[found.1[p]].0 && found.0[found.1[p]] == Ok::<
                R::Value,
                R::Error,
            >(after.routes()[p].1),
        forall|p: int|
            0 <= p < found.2.len() ==> 0 <= #[trigger] found.2[p] < routes@.len() && refused@[p]
                == routes@[found.2[p]] && found.0[found.2[p]] is Err,
{
    let made = choose|made: Seq<Result<R::Value, R::Error>>| #[trigger]
        updated(before, after, routes@, made) && refused@ == left_out(routes@, made);
    assert forall|i: int| 0 <= i < routes@.len() implies call_ensures(
        R::make,
        (&before.stack(), &(#[trigger] routes@[i]).1),
        made[i],
    ) by {
        law_made_for_own_route(before, after, routes@, made, i);
    }
    let places = law_installed_are_made(routes@, made);
    let others = law_left_out_are_refused(routes@, made);
    assert forall|p: int| 0 <= p < places.len() implies 0 <= #[trigger] places[p] < routes@.len()
        && after.routes()[p].0 == routes@[places[p]].0 && made[places[p]] == Ok::<
        R::Value,
        R::Error,
    >(after.routes()[p].1) by {
        assert(installed(routes@, made)[p] == (routes@[places[p]].0, made[places[p]]->Ok_0));
    }
    assert forall|p: int| 0 <= p < others.len() implies 0 <= #[trigger] others[p] < routes@.len()
        && refused@[p] == routes@[others[p]] && made[others[p]] is Err by {
        assert(left_out(routes@, made)[p] == routes@[others[p]]);
    }
    (made, places, others)
}

/// After an update updates are looked for again.
pub proof fn law_update_is_not_the_last<D, G, R, E>(
    before: Service<D, G, R>,
    after: Service<D, G, R>,
    routes: Routes,
    step: Step,
) where D: Discover, R: svc::Stack<Route>
    requires
        exists|service: &mut Service<D, G, R>|
            *service == before && *final(service) == after && #[trigger] call_ensures(
                Service::<D, G, R>::poll_ready::<E>,
                (service, Event::Routes(Async::Ready(routes))),
                step,
            ),
    ensures
        step is PollRoutes,
{
}

/// Where no update is left the service is ready, as it is.
pub proof fn law_ready<D, G, R, E>(before: Service<D, G, R>, after: Service<D, G, R>, step: Step) where
    D: Discover,
    R: svc::Stack<Route>,

    requires
        exists|service: &mut Service<D, G, R>|
            *service == before && *final(service) == after && #[trigger] call_ensures(
                Service::<D, G, R>::poll_ready::<E>,
                (service, Event::Routes(Async::NotReady)),
                step,
            ),
    ensures
        step is Ready,
        after == before,
{
}

/// What serves the subscribers is let go once it is finished or has failed, and only
/// then. All else stays as it is, and updates of the routes are looked for next.
pub proof fn law_background<D, G, R, E>(
    before: Service<D, G, R>,
    after: Service<D, G, R>,
    polled: Option<Result<Async<()>, E>>,
    step: Step,
) where D: Discover, R: svc::Stack<Route>
    requires
        exists|service: &mut Service<D, G, R>|
            *service == before && *final(service) == after && #[trigger] call_ensures(
                Service::<D, G, R>::poll_ready::<E>,
                (service, Event::Background(polled)),
                step,
            ),
    ensures
        step matches Step::PollRoutes { refused } && refused@.len() == 0,
        polled is None || polled == Some(Ok::<Async<()>, E>(Async::NotReady))
            ==> after.discover_bg() == before.discover_bg(),
        polled == Some(Ok::<Async<()>, E>(Async::Ready(()))) ==> after.discover_bg() is None,
        polled matches Some(Err(_)) ==> after.discover_bg() is None,
        after.routes() == before.routes(),
        after.default_route() == before.default_route(),
        after.stack() == before.stack(),
        after.route_stream() == before.route_stream(),
{
}

/// The place that is found is that of a route that matches what was read, and no earlier
/// route does; where none is found, no route does.
pub proof fn law_first_match<D, G, R>(
    service: &Service<D, G, R>,
    head: &RequestHead,
    res: Option<usize>,
) where D: Discover, R: svc::Stack<Route>
    requires
        call_ensures(Service::<D, G, R>::first_match, (service, head), res),
    ensures
        res matches Some(i) ==> {
            &&& i < service.routes().len()
            &&& service.routes()[i as int].0.matches(*head.method, head.path@)
            &&& forall|j: int|
                0 <= j < i ==> !(#[trigger] service.routes()[j]).0.matches(
                    *head.method,
                    head.path@,
                )
        },
        res is None ==> forall|j: int|
            0 <= j < service.routes().len() ==> !(#[trigger] service.routes()[j]).0.matches(
                *head.method,
                head.path@,
            ),
{
    if let Some(i) = res {
        assert forall|j: int| 0 <= j < i implies !(#[trigger] service.routes()[j]).0.matches(
            *head.method,
            head.path@,
        ) by {
            assert(service.routes().take(i as int)[j] == service.routes()[j]);
        }
    }
}

/// A request goes to the service of the first route whose condition holds of its method
/// and of the path of its target, and no other service is touched.
pub proof fn law_call_first_match<D, G, R, B>(
    before: Service<D, G, R>,
    after: Service<D, G, R>,
    req: &http::Request<B>,
    method: &http::Method,
    uri: &http::Uri,
    now: R::Value,
    later: R::Value,
    i: int,
) where D: Discover, R: svc::Stack<Route>
    requires
        exists|service: &mut Service<D, G, R>, res: &mut R::Value|
            *service == before && *final(service) == after && *res == now && *final(res) == later
                && #[trigger] call_ensures(Service::<D, G, R>::call::<B>, (service, req), res),
        call_ensures(http::Request::<B>::method, (req,), method),
        call_ensures(http::Request::<B>::uri, (req,), uri),
        0 <= i < before.routes().len(),
        before.routes()[i].0.matches(*method, uri_path(*uri)),
        forall|j: int|
            0 <= j < i ==> !(#[trigger] before.routes()[j]).0.matches(*method, uri_path(*uri)),
    ensures
        now == before.routes()[i].1,
        after.routes().len() == before.routes().len(),
        after.routes()[i] == (before.routes()[i].0, later),
        forall|j: int|
            0 <= j < before.routes().len() && j != i ==> #[trigger] after.routes()[j]
                == before.routes()[j],
        after.default_route() == before.default_route(),
        after.stack() == before.stack(),
        after.discover_bg() == before.discover_bg(),
        after.route_stream() == before.route_stream(),
{
    assert(reads(*req, *method, uri_path(*uri)));
    assert(dispatched(before, after, now, later, *method, uri_path(*uri)));
    assert(no_match(before.routes().take(i), *method, uri_path(*uri))) by {
        assert forall|j: int| 0 <= j < i implies !(#[trigger] before.routes().take(
            i,
        )[j]).0.matches(*method, uri_path(*uri)) by {
            assert(before.routes().take(i)[j] == before.routes()[j]);
        }
    }
    assert(is_first_match(before.routes(), i, *method, uri_path(*uri)));
}

/// A request goes to the default service where no condition holds of its method and of
/// the path of its target, and no other service is touched.
pub proof fn law_call_default<D, G, R, B>(
    before: Service<D, G, R>,
    after: Service<D, G, R>,
    req: &http::Request<B>,
    method: &http::Method,
    uri: &http::Uri,
    now: R::Value,
    later: R::Value,
) where D: Discover, R: svc::Stack<Route>
    requires
        exists|service: &mut Service<D, G, R>, res: &mut R::Value|
            *service == before && *final(service) == after && *res == now && *final(res) == later
                && #[trigger] call_ensures(Service::<D, G, R>::call::<B>, (service, req), res),
        call_ensures(http::Request::<B>::method, (req,), method),
        call_ensures(http::Request::<B>::uri, (req,), uri),
        forall|j: int|
            0 <= j < before.routes().len() ==> !(#[trigger] before.routes()[j]).0.matches(
                *method,
                uri_path(*uri),
            ),
    ensures
        now == before.default_route(),
        after.default_route() == later,
        after.routes() == before.routes(),
        after.stack() == before.stack(),
        after.discover_bg() == before.discover_bg(),
        after.route_stream() == before.route_stream(),
{
    assert(reads(*req, *method, uri_path(*uri)));
    assert(dispatched(before, after, now, later, *method, uri_path(*uri)));
    assert(no_match(before.routes(), *method, uri_path(*uri)));
}

/// A request goes where the conditions send it that are asked one by one: to the service
/// of the first that answers yes, and to the default service where all answer no.
pub proof fn law_call_asks_conditions<D, G, R, B>(
    before: Service<D, G, R>,
    after: Service<D, G, R>,
    req: &http::Request<B>,
    answers: Seq<bool>,
    now: R::Value,
    later: R::Value,
) where D: Discover, R: svc::Stack<Route>
    requires
        exists|service: &mut Service<D, G, R>, res: &mut R::Value|
            *service == before && *final(service) == after && *res == now && *final(res) == later
                && #[trigger] call_ensures(Service::<D, G, R>::call::<B>, (service, req), res),
        answers.len() == before.routes().len(),
        forall|j: int|
            0 <= j < answers.len() ==> call_ensures(
                RequestMatch::is_match::<B>,
                (&before.routes()[j].0, req),
                #[trigger] answers[j],
            ),
    ensures
        forall|i: int|
            0 <= i < answers.len() && #[trigger] answers[i] && (forall|j: int|
                0 <= j < i ==> !#[trigger] answers[j]) ==> now == before.routes()[i].1,
        (forall|j: int| 0 <= j < answers.len() ==> !#[trigger] answers[j]) ==> now
            == before.default_route(),
{
    let (method, path) = choose|method: http::Method, path: Seq<char>| #[trigger]
        reads(*req, method, path);
    let uri = choose|uri: http::Uri| #[trigger]
        call_ensures(http::Request::<B>::uri, (req,), &uri) && path == uri_path(uri);
    assert(call_ensures(http::Request::<B>::method, (req,), &method));
    assert forall|j: int|
        #![trigger answers[j]]
        #![trigger before.routes()[j]]
        0 <= j < answers.len() implies answers[j] == before.routes()[j].0.matches(
        method,
        path,
    ) by {
        crate::laws::request_match::law_is_match(
            &before.routes()[j].0,
            req,
            &method,
            &uri,
            answers[j],
        );
    }
    assert forall|i: int|
        0 <= i < answers.len() && #[trigger] answers[i] && (forall|j: int|
            0 <= j < i ==> !#[trigger] answers[j]) implies now == before.routes()[i].1 by {
        assert forall|j: int| 0 <= j < i implies !(#[trigger] before.routes()[j]).0.matches(
            method,
            uri_path(uri),
        ) by {
            assert(!answers[j]);
        }
        law_call_first_match(before, after, req, &method, &uri, now, later, i);
    }
    if forall|j: int| 0 <= j < answers.len() ==> !#[trigger] answers[j] {
        assert forall|j: int| 0 <= j < before.routes().len() implies !(
        #[trigger] before.routes()[j]).0.matches(method, uri_path(uri)) by {
            assert(!answers[j]);
        }
        law_call_default(before, after, req, &method, &uri, now, later);
    }
}

/// A request that comes after an update goes to a service that was made for the very
/// route of the update whose condition holds of it, where no earlier condition of the
/// update does and a service could be made.
pub proof fn law_update_then_call<D, G, R, B, E>(
    first: Service<D, G, R>,
    second: Service<D, G, R>,
    third: Service<D, G, R>,
    routes: Routes,
    refused: Routes,
    req: &http::Request<B>,
    method: &http::Method,
    uri: &http::Uri,
    now: R::Value,
    later: R::Value,
    i: int,
) where D: Discover, R: svc::Stack<Route>
    requires
        exists|service: &mut Service<D, G, R>|
            *service == first && *final(service) == second && #[trigger] call_ensures(
                Service::<D, G, R>::poll_ready::<E>,
                (service, Event::Routes(Async::Ready(routes))),
                (Step::PollRoutes { refused }),
            ),
        exists|service: &mut Service<D, G, R>, res: &mut R::Value|
            *service == second && *final(service) == third && *res == now && *final(res) == later
                && #[trigger] call_ensures(Service::<D, G, R>::call::<B>, (service, req), res),
        call_ensures(http::Request::<B>::method, (req,), method),
        call_ensures(http::Request::<B>::uri, (req,), uri),
        0 <= i < routes@.len(),
        routes@[i].0.matches(*method, uri_path(*uri)),
        forall|j: int|
            0 <= j < i ==> !(#[trigger] routes@[j]).0.matches(*method, uri_path(*uri)),
        forall|made: Result<R::Value, R::Error>| #[trigger]
            call_ensures(R::make, (&first.stack(), &routes@[i].1), made) ==> made is Ok,
    ensures
        call_ensures(R::make, (&first.stack(), &routes@[i].1), Ok(now)),
{
    let (made, places, others) = law_update::<D, G, R, E>(first, second, routes, refused);
    assert(call_ensures(R::make, (&first.stack(), &routes@[i].1), made[i]));
    let m = choose|m: Seq<Result<R::Value, R::Error>>| #[trigger]
        updated(first, second, routes@, m) && refused@ == left_out(routes@, m);
    let spots = law_installed_are_made(routes@, m);
    assert(call_ensures(R::make, (&first.stack(), &routes@[i].1), m[i]));
    assert(m[i] is Ok);
    assert(spots.contains(i));
    let p = choose|p: int| 0 <= p < spots.len() && spots[p] == i;
    assert(installed(routes@, m)[p] == (routes@[spots[p]].0, m[spots[p]]->Ok_0));
    assert forall|j: int| 0 <= j < p implies !(#[trigger] second.routes()[j]).0.matches(
        *method,
        uri_path(*uri),
    ) by {
        assert(spots[j] < spots[p]);
        assert(installed(routes@, m)[j] == (routes@[spots[j]].0, m[spots[j]]->Ok_0));
    }
    law_call_first_match(second, third, req, method, uri, now, later, p);
}

/// What serves the subscribers is handed out to be polled wherever there is any, and
/// what becomes of it stays with the service; all else stays as it is.
pub proof fn law_discover_bg_mut<D, G, R>(
    before: Service<D, G, R>,
    after: Service<D, G, R>,
    now: Option<Background<D>>,
    later: Option<Background<D>>,
) where D: Discover, R: svc::Stack<Route>
    requires
        exists|service: &mut Service<D, G, R>, res: Option<&mut Background<D>>|
            *service == before && *final(service) == after && (match res {
                Some(bg) => now == Some(*bg) && later == Some(*final(bg)),
                None => now is None && later is None,
            }) && #[trigger] call_ensures(
                Service::<D, G, R>::discover_bg_mut,
                (service,),
                res,
            ),
    ensures
        now == before.discover_bg(),
        after.discover_bg() == later,
        after.routes() == before.routes(),
        after.default_route() == before.default_route(),
        after.stack() == before.stack(),
        after.route_stream() == before.route_stream(),
{
}

/// Where updates come from is handed out to be polled, and what becomes of it stays with
/// the service; all else stays as it is.
pub proof fn law_route_stream_mut<D, G, R>(
    before: Service<D, G, R>,
    after: Service<D, G, R>,
    now: G,
    later: G,
) where D: Discover, R: svc::Stack<Route>
    requires
        exists|service: &mut Service<D, G, R>, res: &mut G|
            *service == before && *final(service) == after && *res == now && *final(res) == later
                && #[trigger] call_ensures(
                Service::<D, G, R>::route_stream_mut,
                (service,),
                res,
            ),
    ensures
        now == before.route_stream(),
        after.route_stream() == later,
        after.routes() == before.routes(),
        after.default_route() == before.default_route(),
        after.stack() == before.stack(),
        after.discover_bg() == before.discover_bg(),
{
}

} // verus!
