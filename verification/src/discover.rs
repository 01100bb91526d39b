//! The vocabulary of service discovery: what a poll gives, how a set of
//! endpoints changes, and where an endpoint is found.
use std::hash::Hash;
use vstd::prelude::*;

verus! {

/// Whether polling gave a value or has to be done again later.
#[derive(Debug)]
pub enum Async<T> {
    Ready(T),
    NotReady,
}

/// A change of a set of services, each under its key.
#[derive(Debug)]
pub enum Change<K, S> {
    Insert(K, S),
    Remove(K),
}

/// The types that a discovery works with. Polling one is left to whoever
/// drives it.
pub trait Discover {
    type Key: Hash + Eq;

    type Service;

    type DiscoverError;
}

/// A service that knows the endpoint it stands for.
pub trait HasEndpoint {
    type Endpoint;

    fn endpoint(&self) -> Self::Endpoint;
}

} // verus!
