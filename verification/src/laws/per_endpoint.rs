//! Of the wrapping of discovered services.
use vstd::prelude::*;

use crate::discover::{Async, Change, HasEndpoint};
use crate::per_endpoint;
use crate::per_endpoint::{
    wrapped, Error, Layer, PerEndpoint, RoutedEndpoint, Stack, WithRoute,
};
use crate::route::{Error as Never, Route};
use crate::svc;
use crate::svc::shared;

verus! {

/// A layer keeps what it was given, and hands a clone of it to every stack that it
/// binds, with the discovery that it binds.
pub proof fn law_layer<S, D, E>(
    endpoint_layer: E,
    discover: D,
    layer: Layer<E>,
    stack: Stack<D, E>,
) where
    S: Clone + HasEndpoint,
    S::Endpoint: WithRoute,
    D: svc::Stack<Route>,
    E: svc::Layer<RoutedEndpoint<S>, RoutedEndpoint<S>, shared::Stack<S>> + Clone,

    requires
        call_ensures(per_endpoint::layer::<S, E>, (endpoint_layer,), layer),
        call_ensures(<Layer<E> as svc::Layer<Route, Route, D>>::bind, (&layer, discover), stack),
    ensures
        layer.endpoint_layer() == endpoint_layer,
        stack.discover() == discover,
        cloned(endpoint_layer, stack.endpoint_layer()),
{
}

/// Clones of a layer and of a stack have clones of what these have.
pub proof fn law_clone<D: Clone, E: Clone>(
    layer: &Layer<E>,
    layer_copy: Layer<E>,
    stack: &Stack<D, E>,
    stack_copy: Stack<D, E>,
)
    requires
        call_ensures(<Layer<E> as Clone>::clone, (layer,), layer_copy),
        call_ensures(<Stack<D, E> as Clone>::clone, (stack,), stack_copy),
    ensures
        cloned(layer.endpoint_layer(), layer_copy.endpoint_layer()),
        cloned(stack.discover(), stack_copy.discover()),
        cloned(stack.endpoint_layer(), stack_copy.endpoint_layer()),
{
}

/// The discovery is made for the very route, and its error is the error. The route is
/// kept, and so is what services are wrapped by.
pub proof fn law_make<D, E>(
    stack: &Stack<D, E>,
    route: &Route,
    res: Result<PerEndpoint<D::Value, E>, D::Error>,
) where D: svc::Stack<Route>, E: Clone
    requires
        call_ensures(<Stack<D, E> as svc::Stack<Route>>::make, (stack, route), res),
    ensures
        res matches Ok(value) ==> call_ensures(
            D::make,
            (&stack.discover(), route),
            Ok(value.discover()),
        ) && route.same_labels(&value.route()) && cloned(
            stack.endpoint_layer(),
            value.endpoint_layer(),
        ),
        res matches Err(err) ==> call_ensures(D::make, (&stack.discover(), route), Err(err)),
{
}

/// What the discovery has, other than a service that comes, is passed on: that there is
/// no change yet, the key that is removed, or its error as such.
pub proof fn law_passed_on<D, E, K, S, F>(
    per_endpoint: &PerEndpoint<D, E>,
    polled: Result<Async<Change<K, S>>, F>,
    res: Result<Async<Change<K, E::Value>>, Error<F, E::Error>>,
) where
    S: HasEndpoint + Clone,
    S::Endpoint: WithRoute,
    E: svc::Layer<RoutedEndpoint<S>, RoutedEndpoint<S>, shared::Stack<S>>,

    requires
        call_ensures(PerEndpoint::<D, E>::poll::<K, S, F>, (per_endpoint, polled), res),
    ensures
        polled matches Err(err) ==> res matches Err(Error::Discover(e)) && e == err,
        polled matches Ok(Async::NotReady) ==> res matches Ok(Async::NotReady),
        polled matches Ok(Async::Ready(Change::Remove(key))) ==> res matches Ok(
            Async::Ready(Change::Remove(k)),
        ) && k == key,
{
}

/// A service that comes is wrapped: its own endpoint is told the route, the layer is
/// bound to the service itself, and what that makes for the endpoint is handed out under
/// the same key, or its error as such. What was made on the way is given.
pub proof fn law_wrapped<D, E, K, S, F>(
    per_endpoint: &PerEndpoint<D, E>,
    key: K,
    service: S,
    res: Result<Async<Change<K, E::Value>>, Error<F, E::Error>>,
) -> (found: (S::Endpoint, Route, RoutedEndpoint<S>, shared::Stack<S>, E::Stack)) where
    S: HasEndpoint + Clone,
    S::Endpoint: WithRoute,
    E: svc::Layer<RoutedEndpoint<S>, RoutedEndpoint<S>, shared::Stack<S>>,

    requires
        call_ensures(
            PerEndpoint::<D, E>::poll::<K, S, F>,
            (per_endpoint, Ok(Async::Ready(Change::Insert(key, service)))),
            res,
        ),
    ensures
        call_ensures(S::endpoint, (&service,), found.0),
        per_endpoint.route().same_labels(&found.1),
        call_ensures(<S::Endpoint as WithRoute>::with_route, (&found.0, found.1), found.2),
        found.3.inner() == service,
        call_ensures(E::bind, (&per_endpoint.endpoint_layer(), found.3), found.4),
        (res matches Ok(Async::Ready(Change::Insert(k, value))) && k == key && call_ensures(
            <E::Stack as svc::Stack<RoutedEndpoint<S>>>::make,
            (&found.4, &found.2),
            Ok(value),
        )) || (res matches Err(Error::Endpoint(err)) && call_ensures(
            <E::Stack as svc::Stack<RoutedEndpoint<S>>>::make,
            (&found.4, &found.2),
            Err(err),
        )),
{
    let (endpoint, route, target, next, stack, made) = choose|
        endpoint: S::Endpoint,
        route: Route,
        target: RoutedEndpoint<S>,
        next: shared::Stack<S>,
        stack: E::Stack,
        made: Result<E::Value, E::Error>,
    | #[trigger]
        wrapped(*per_endpoint, service, endpoint, route, target, next, stack, made) && res
            == per_endpoint::inserted::<K, E::Value, F, E::Error>(key, made);
    assert(call_ensures(
        <E::Stack as svc::Stack<RoutedEndpoint<S>>>::make,
        (&stack, &target),
        made,
    ));
    (endpoint, route, target, next, stack)
}

/// What came of wrapping is handed out under the key, or its error as such.
pub proof fn law_insert<K, V, F, G>(
    key: K,
    made: Result<V, G>,
    res: Result<Async<Change<K, V>>, Error<F, G>>,
)
    requires
        call_ensures(per_endpoint::insert::<K, V, F, G>, (key, made), res),
    ensures
        made matches Ok(value) ==> res matches Ok(Async::Ready(Change::Insert(k, v))) && k == key
            && v == value,
        made matches Err(err) ==> res matches Err(Error::Endpoint(e)) && e == err,
{
}

/// A stack over a service hands out a clone of it, whatever the target.
pub proof fn law_shared<T, S: Clone>(
    inner: S,
    stack: shared::Stack<S>,
    target: &T,
    res: Result<S, Never>,
)
    requires
        call_ensures(shared::stack::<S>, (inner,), stack),
        call_ensures(<shared::Stack<S> as svc::Stack<T>>::make, (&stack, target), res),
    ensures
        res matches Ok(value) && cloned(inner, value),
{
}

/// The discovery is handed out to be polled, and what becomes of it is kept; all else
/// stays as it is.
pub proof fn law_discover_mut<D, E>(
    before: PerEndpoint<D, E>,
    after: PerEndpoint<D, E>,
    now: D,
    later: D,
)
    requires
        exists|value: &mut PerEndpoint<D, E>, res: &mut D|
            *value == before && *final(value) == after && *res == now && *final(res) == later
                && #[trigger] call_ensures(PerEndpoint::<D, E>::discover_mut, (value,), res),
    ensures
        now == before.discover(),
        after.discover() == later,
        after.route() == before.route(),
        after.endpoint_layer() == before.endpoint_layer(),
{
}

} // verus!
