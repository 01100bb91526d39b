//! Routes, and what a source of routes and a target of routing offer.
use indexmap::IndexMap;
use std::convert::Infallible;
use vstd::prelude::*;

use crate::ordered_map::{clone_map, cloned_entries, holds, new_map};
use crate::request_match::RequestMatch;

verus! {

/// A target that has a name at which profiles can be looked up.
pub trait CanGetDestination {
    fn get_destination(&self) -> String;
}

/// Conditions in the order in which they are tried, each with its route.
pub type Routes = Vec<(RequestMatch, Route)>;

/// A source of route updates for a destination.
pub trait GetRoutes {
    type Stream;

    fn get_routes(&self, dst: String) -> Self::Stream;
}

/// The error of something that cannot fail: it has no value.
#[derive(Debug)]
pub enum Error {
    Never(Infallible),
}

/// What is known of a route: its labels, each name at most once.
#[derive(Debug)]
pub struct Route {
    pub labels: IndexMap<String, String>,
}

impl Route {
    /// Whether `labels`, name and value, in this order, are the labels of the route.
    pub open spec fn has_labels(&self, labels: Seq<(Seq<char>, Seq<char>)>) -> bool {
        exists|entries: Seq<(String, String)>| #[trigger]
            holds(self.labels, entries) && labels == label_texts(entries)
    }

    /// Whether the labels of `self` are also those of `other`.
    pub open spec fn same_labels(&self, other: &Route) -> bool {
        forall|labels: Seq<(Seq<char>, Seq<char>)>| #[trigger]
            self.has_labels(labels) ==> other.has_labels(labels)
    }
}

/// The texts of the names and values of labels.
pub open spec fn label_texts(entries: Seq<(String, String)>) -> Seq<(Seq<char>, Seq<char>)> {
    Seq::new(entries.len(), |i: int| (entries[i].0@, entries[i].1@))
}

impl Clone for Route {
    /// A route with the same labels.
    fn clone(&self) -> (res: Route)
        ensures
            self.same_labels(&res),
    {
        let res = Route { labels: clone_map(&self.labels) };
        assert forall|labels: Seq<(Seq<char>, Seq<char>)>| #[trigger]
            self.has_labels(labels) implies res.has_labels(labels) by {
            let entries = choose|entries: Seq<(String, String)>| #[trigger]
                holds(self.labels, entries) && labels == label_texts(entries);
            let copies = choose|copies: Seq<(String, String)>| #[trigger]
                holds(res.labels, copies) && cloned_entries(entries, copies);
            assert(label_texts(entries) =~= label_texts(copies));
        }
        res
    }
}

impl Default for Route {
    /// The route without labels.
    fn default() -> (res: Route)
        ensures
            res.has_labels(Seq::empty()),
    {
        let res = Route { labels: new_map() };
        assert(holds(res.labels, Seq::<(String, String)>::empty()));
        assert(label_texts(Seq::empty()) =~= Seq::empty());
        res
    }
}

} // verus!
