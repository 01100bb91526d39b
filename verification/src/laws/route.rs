//! Of routes and their labels.
use vstd::prelude::*;

use crate::ordered_map::holds;
use crate::route::{label_texts, Route};

verus! {

/// The default route has no labels.
pub proof fn law_default(route: Route)
    requires
        call_ensures(<Route as Default>::default, (), route),
    ensures
        exists|entries: Seq<(String, String)>| #[trigger]
            holds(route.labels, entries) && entries.len() == 0,
{
    law_no_labels(route);
}

/// What it is to have no labels.
pub proof fn law_no_labels(route: Route)
    requires
        route.has_labels(Seq::empty()),
    ensures
        exists|entries: Seq<(String, String)>| #[trigger]
            holds(route.labels, entries) && entries.len() == 0,
{
    let entries = choose|entries: Seq<(String, String)>| #[trigger]
        holds(route.labels, entries) && Seq::<(Seq<char>, Seq<char>)>::empty() == label_texts(
            entries,
        );
    assert(label_texts(entries).len() == entries.len());
}

/// A clone has as many labels, in the same order, with the same names and values.
pub proof fn law_clone(route: &Route, copy: Route, entries: Seq<(String, String)>)
    requires
        call_ensures(<Route as Clone>::clone, (route,), copy),
        holds(route.labels, entries),
    ensures
        exists|copies: Seq<(String, String)>| #[trigger]
            holds(copy.labels, copies) && copies.len() == entries.len() && forall|i: int|
                0 <= i < entries.len() ==> (#[trigger] copies[i]).0@ == entries[i].0@
                    && copies[i].1@ == entries[i].1@,
{
    law_same_labels(*route, copy, entries);
}

/// What it is to have the same labels: as many, in the same order, with the same names
/// and values.
pub proof fn law_same_labels(route: Route, copy: Route, entries: Seq<(String, String)>)
    requires
        route.same_labels(&copy),
        holds(route.labels, entries),
    ensures
        exists|copies: Seq<(String, String)>| #[trigger]
            holds(copy.labels, copies) && copies.len() == entries.len() && forall|i: int|
                0 <= i < entries.len() ==> (#[trigger] copies[i]).0@ == entries[i].0@
                    && copies[i].1@ == entries[i].1@,
{
    assert(route.has_labels(label_texts(entries)));
    assert(copy.has_labels(label_texts(entries)));
    let copies = choose|copies: Seq<(String, String)>| #[trigger]
        holds(copy.labels, copies) && label_texts(entries) == label_texts(copies);
    assert(label_texts(copies).len() == label_texts(entries).len());
    assert forall|i: int| 0 <= i < entries.len() implies (#[trigger] copies[i]).0@ == entries[i].0@
        && copies[i].1@ == entries[i].1@ by {
        assert(label_texts(copies)[i] == (copies[i].0@, copies[i].1@));
        assert(label_texts(entries)[i] == (entries[i].0@, entries[i].1@));
    }
}

} // verus!
