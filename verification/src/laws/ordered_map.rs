//! Of maps whose entries have an order.
use std::hash::Hash;
use vstd::prelude::*;
use vstd::std_specs::hash::obeys_key_model;

use crate::ordered_map::OrderedMap;

verus! {

/// A new map has no entries.
pub proof fn law_new<K, V>(map: OrderedMap<K, V>)
    requires
        call_ensures(OrderedMap::<K, V>::new, (), map),
    ensures
        map@.len() == 0,
{
}

/// All entries are listed, in their order, and no two under one key.
pub proof fn law_iter<K, V>(map: &OrderedMap<K, V>, res: Vec<(&K, &V)>)
    requires
        call_ensures(OrderedMap::<K, V>::iter, (map,), res),
    ensures
        res@.len() == map@.len(),
        forall|i: int|
            0 <= i < res@.len() ==> map@[i] == (*(#[trigger] res@[i]).0, *res@[i].1),
        obeys_key_model::<K>() ==> forall|i: int, j: int|
            0 <= i < j < map@.len() ==> (#[trigger] map@[i]).0 != (#[trigger] map@[j]).0,
{
    assert forall|i: int| 0 <= i < res@.len() implies map@[i] == (
        *(#[trigger] res@[i]).0,
        *res@[i].1,
    ) by {
        assert(crate::ordered_map::entries_of(res@)[i] == (*res@[i].0, *res@[i].1));
    }
}

/// Putting a value under a key that is there replaces the value in its place and gives
/// the earlier one back; under a new key it adds an entry behind all others. All other
/// entries stay as they are.
pub proof fn law_insert<K: Hash + Eq, V>(
    before: OrderedMap<K, V>,
    after: OrderedMap<K, V>,
    key: K,
    value: V,
    res: Option<V>,
)
    requires
        obeys_key_model::<K>(),
        forall|i: int, j: int|
            0 <= i < j < before@.len() ==> (#[trigger] before@[i]).0 != (#[trigger] before@[j]).0,
        exists|map: &mut OrderedMap<K, V>|
            *map == before && *final(map) == after && #[trigger] call_ensures(
                OrderedMap::<K, V>::insert,
                (map, key, value),
                res,
            ),
    ensures
        forall|i: int|
            0 <= i < before@.len() ==> after@[i] == if (#[trigger] before@[i]).0 == key {
                (key, value)
            } else {
                before@[i]
            },
        (exists|i: int| 0 <= i < before@.len() && (#[trigger] before@[i]).0 == key) ==> after@.len()
            == before@.len(),
        (forall|i: int| 0 <= i < before@.len() ==> (#[trigger] before@[i]).0 != key) ==> {
            &&& after@.len() == before@.len() + 1
            &&& after@[before@.len() as int] == (key, value)
            &&& res is None
        },
        forall|i: int|
            0 <= i < before@.len() && (#[trigger] before@[i]).0 == key ==> res == Some(
                before@[i].1,
            ),
{
}

/// Taking out the entry under a key gives its value back, and the last entry takes its
/// place; all other entries stay as they are. Without such an entry nothing changes.
pub proof fn law_remove<K: Hash + Eq, V>(
    before: OrderedMap<K, V>,
    after: OrderedMap<K, V>,
    key: &K,
    res: Option<V>,
)
    requires
        obeys_key_model::<K>(),
        forall|i: int, j: int|
            0 <= i < j < before@.len() ==> (#[trigger] before@[i]).0 != (#[trigger] before@[j]).0,
        exists|map: &mut OrderedMap<K, V>|
            *map == before && *final(map) == after && #[trigger] call_ensures(
                OrderedMap::<K, V>::remove,
                (map, key),
                res,
            ),
    ensures
        (forall|i: int| 0 <= i < before@.len() ==> (#[trigger] before@[i]).0 != *key) ==> after@
            == before@ && res is None,
        forall|i: int|
            0 <= i < before@.len() && (#[trigger] before@[i]).0 == *key ==> {
                &&& res == Some(before@[i].1)
                &&& after@.len() == before@.len() - 1
                &&& forall|j: int|
                    0 <= j < after@.len() ==> #[trigger] after@[j] == if j == i {
                        before@[before@.len() - 1]
                    } else {
                        before@[j]
                    }
            },
{
}

} // verus!
