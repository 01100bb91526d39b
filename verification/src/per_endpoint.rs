//! Wraps each discovered service in a stack that is made for its endpoint and for a
//! route.
use vstd::prelude::*;

use crate::discover::{Async, Change, HasEndpoint};
use crate::route::Route;
use crate::svc;
use crate::svc::shared;

verus! {

/// A layer that wraps each discovered service by `endpoint_layer`.
pub fn layer<S, E>(endpoint_layer: E) -> (res: Layer<E>) where
    S: Clone + HasEndpoint,
    S::Endpoint: WithRoute,
    E: svc::Layer<RoutedEndpoint<S>, RoutedEndpoint<S>, shared::Stack<S>> + Clone,

    ensures
        res.endpoint_layer() == endpoint_layer,
{
    Layer { endpoint_layer }
}

/// An endpoint that can be told the route by which it is reached.
pub trait WithRoute {
    type Output;

    fn with_route(&self, route: Route) -> Self::Output;
}

/// Makes stacks that wrap each discovered service.
#[derive(Debug)]
pub struct Layer<E = ()> {
    endpoint_layer: E,
}

/// Makes, for a route, a discovery whose services are wrapped.
#[derive(Debug)]
pub struct Stack<D, E = ()> {
    discover: D,
    endpoint_layer: E,
}

/// A discovery whose services are wrapped, each for its endpoint and the route.
pub struct PerEndpoint<D, E = ()> {
    discover: D,
    route: Route,
    endpoint_layer: E,
}

/// Why the next change is not known.
#[derive(Debug)]
pub enum Error<D, E> {
    /// The discovery has failed.
    Discover(D),
    /// The discovered service could not be wrapped.
    Endpoint(E),
}

impl<E> Layer<E> {
    /// What services are wrapped by.
    pub closed spec fn endpoint_layer(&self) -> E {
        self.endpoint_layer
    }
}

impl<D, E> Stack<D, E> {
    /// What makes the discovery of a route.
    pub closed spec fn discover(&self) -> D {
        self.discover
    }

    /// What services are wrapped by.
    pub closed spec fn endpoint_layer(&self) -> E {
        self.endpoint_layer
    }
}

impl<E: Clone> Clone for Layer<E> {
    fn clone(&self) -> (res: Self)
        ensures
            cloned(self.endpoint_layer(), res.endpoint_layer()),
    {
        Layer { endpoint_layer: self.endpoint_layer.clone() }
    }
}

impl<D: Clone, E: Clone> Clone for Stack<D, E> {
    fn clone(&self) -> (res: Self)
        ensures
            cloned(self.discover(), res.discover()),
            cloned(self.endpoint_layer(), res.endpoint_layer()),
    {
        Stack { discover: self.discover.clone(), endpoint_layer: self.endpoint_layer.clone() }
    }
}

impl<D, E> PerEndpoint<D, E> {
    /// The discovery.
    pub closed spec fn discover(&self) -> D {
        self.discover
    }

    /// The route that every endpoint is told.
    pub closed spec fn route(&self) -> Route {
        self.route
    }

    /// What services are wrapped by.
    pub closed spec fn endpoint_layer(&self) -> E {
        self.endpoint_layer
    }
}

impl<D, E> svc::Layer<Route, Route, D> for Layer<E> where D: svc::Stack<Route>, E: Clone {
    type Value = <Stack<D, E> as svc::Stack<Route>>::Value;

    type Error = <Stack<D, E> as svc::Stack<Route>>::Error;

    type Stack = Stack<D, E>;

    fn bind(&self, discover: D) -> (res: Stack<D, E>)
        ensures
            res.discover() == discover,
            cloned(self.endpoint_layer(), res.endpoint_layer()),
    {
        Stack { discover, endpoint_layer: self.endpoint_layer.clone() }
    }
}

impl<D, E> svc::Stack<Route> for Stack<D, E> where D: svc::Stack<Route>, E: Clone {
    type Value = PerEndpoint<D::Value, E>;

    type Error = D::Error;

    fn make(&self, route: &Route) -> (res: Result<PerEndpoint<D::Value, E>, D::Error>)
        ensures
            match res {
                Ok(value) => {
                    &&& call_ensures(D::make, (&self.discover(), route), Ok(value.discover()))
                    &&& route.same_labels(&value.route())
                    &&& cloned(self.endpoint_layer(), value.endpoint_layer())
                },
                Err(err) => call_ensures(D::make, (&self.discover(), route), Err(err)),
            },
    {
        match self.discover.make(route) {
            Ok(discover) => Ok(
                PerEndpoint {
                    discover,
                    route: route.clone(),
                    endpoint_layer: self.endpoint_layer.clone(),
                },
            ),
            Err(err) => Err(err),
        }
    }
}

/// The endpoint of a discovered service, told the route.
pub type RoutedEndpoint<S> = <<S as HasEndpoint>::Endpoint as WithRoute>::Output;

/// Whether `made` is what came of wrapping `svc`: a clone of the route was told to
/// its endpoint, and the layer was bound to `svc` and made for that endpoint.
pub open spec fn wrapped<D, E, S>(
    per_endpoint: PerEndpoint<D, E>,
    svc: S,
    endpoint: S::Endpoint,
    route: Route,
    target: RoutedEndpoint<S>,
    next: shared::Stack<S>,
    stack: E::Stack,
    made: Result<E::Value, E::Error>,
) -> bool where
    S: HasEndpoint + Clone,
    S::Endpoint: WithRoute,
    E: svc::Layer<RoutedEndpoint<S>, RoutedEndpoint<S>, shared::Stack<S>>,
 {
    &&& call_ensures(S::endpoint, (&svc,), endpoint)
    &&& per_endpoint.route().same_labels(&route)
    &&& call_ensures(<S::Endpoint as WithRoute>::with_route, (&endpoint, route), target)
    &&& next.inner() == svc
    &&& call_ensures(E::bind, (&per_endpoint.endpoint_layer(), next), stack)
    &&& call_ensures(
        <E::Stack as svc::Stack<RoutedEndpoint<S>>>::make,
        (&stack, &target),
        made,
    )
}

impl<D, E> PerEndpoint<D, E> {
    /// The discovery, to be polled.
    pub fn discover_mut(&mut self) -> (res: &mut D)
        ensures
            *res == old(self).discover(),
            final(self).discover() == *final(res),
            final(self).route() == old(self).route(),
            final(self).endpoint_layer() == old(self).endpoint_layer(),
    {
        &mut self.discover
    }

    /// What a poll gives, where polling the discovery gave `polled`: a service that
    /// comes is wrapped, under the same key; all else is as the discovery has it.
    pub fn poll<K, S, F>(
        &self,
        polled: Result<Async<Change<K, S>>, F>,
    ) -> (res: Result<Async<Change<K, E::Value>>, Error<F, E::Error>>) where
        S: HasEndpoint + Clone,
        S::Endpoint: WithRoute,
        E: svc::Layer<RoutedEndpoint<S>, RoutedEndpoint<S>, shared::Stack<S>>,

        ensures
            match polled {
                Err(err) => res == Err::<Async<Change<K, E::Value>>, Error<F, E::Error>>(
                    Error::Discover(err),
                ),
                Ok(Async::NotReady) => res == Ok::<_, Error<F, E::Error>>(
                    Async::<Change<K, E::Value>>::NotReady,
                ),
                Ok(Async::Ready(Change::Remove(key))) => res == Ok::<_, Error<F, E::Error>>(
                    Async::Ready(Change::<K, E::Value>::Remove(key)),
                ),
                Ok(Async::Ready(Change::Insert(key, svc))) => exists|
                    endpoint: S::Endpoint,
                    route: Route,
                    target: RoutedEndpoint<S>,
                    next: shared::Stack<S>,
                    stack: E::Stack,
                    made: Result<E::Value, E::Error>,
                | #[trigger]
                    wrapped(*self, svc, endpoint, route, target, next, stack, made) && res
                        == inserted::<K, E::Value, F, E::Error>(key, made),
            },
    {
        match polled {
            Err(err) => Err(Error::Discover(err)),
            Ok(Async::NotReady) => Ok(Async::NotReady),
            Ok(Async::Ready(Change::Remove(key))) => Ok(Async::Ready(Change::Remove(key))),
            Ok(Async::Ready(Change::Insert(key, svc))) => {
                let ghost found = svc;
                let endpoint = svc.endpoint();
                let route = self.route.clone();
                let ghost told = route;
                let target = endpoint.with_route(route);
                let next = shared::stack(svc);
                let ghost handed = next;
                let stack = self.endpoint_layer.bind(next);
                let made = svc::Stack::make(&stack, &target);
                assert(wrapped(*self, found, endpoint, told, target, handed, stack, made));
                insert(key, made)
            },
        }
    }
}

/// What a poll gives where a service came under `key`, and wrapping it came to `made`.
pub open spec fn inserted<K, V, F, G>(
    key: K,
    made: Result<V, G>,
) -> Result<Async<Change<K, V>>, Error<F, G>> {
    match made {
        Ok(value) => Ok(Async::Ready(Change::Insert(key, value))),
        Err(err) => Err(Error::Endpoint(err)),
    }
}

/// What a poll gives where a service came under `key`, and wrapping it came to `made`.
pub fn insert<K, V, F, G>(
    key: K,
    made: Result<V, G>,
) -> (res: Result<Async<Change<K, V>>, Error<F, G>>)
    ensures
        res == inserted::<K, V, F, G>(key, made),
{
    match made {
        Ok(value) => Ok(Async::Ready(Change::Insert(key, value))),
        Err(err) => Err(Error::Endpoint(err)),
    }
}

} // verus!
