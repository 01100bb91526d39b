//! `indexmap::IndexMap` as a sequence of entries, each key at most once.
use indexmap::IndexMap;
use std::hash::Hash;
use vstd::prelude::*;
use vstd::std_specs::hash::obeys_key_model;

verus! {

/// `indexmap::IndexMap`, opaque: what a map holds is said by [`holds`].
#[verifier::external_type_specification]
#[verifier::external_body]
#[verifier::reject_recursive_types(K)]
#[verifier::reject_recursive_types(V)]
#[verifier::reject_recursive_types(S)]
pub struct ExIndexMap<K, V, S>(IndexMap<K, V, S>);

/// `indexmap::IndexMap::iter`, collected: the entries of the map, in their order.
/// Nothing is claimed of them here; what the other functions claim of a map is
/// what this one gives for it.
#[verifier::external_body]
fn iterate<'a, K, V>(map: &'a IndexMap<K, V>) -> (res: Vec<(&'a K, &'a V)>)
{
    map.iter().collect()
}

/// The entries behind references to their keys and values.
pub open spec fn entries_of<K, V>(refs: Seq<(&K, &V)>) -> Seq<(K, V)> {
    Seq::new(refs.len(), |i: int| (*refs[i].0, *refs[i].1))
}

/// Whether `entries`, and no other list, is what iterating over `map` gives.
pub closed spec fn holds<K, V>(map: IndexMap<K, V>, entries: Seq<(K, V)>) -> bool {
    forall|refs: Vec<(&K, &V)>| #[trigger]
        call_ensures(iterate::<K, V>, (&map,), refs) ==> entries_of(refs@) == entries
}

/// Whether some entry is under `key`.
pub open spec fn has_key<K, V>(entries: Seq<(K, V)>, key: K) -> bool {
    exists|i: int| 0 <= i < entries.len() && (#[trigger] entries[i]).0 == key
}

/// A position of `key` among `entries`, which have it.
pub open spec fn position<K, V>(entries: Seq<(K, V)>, key: K) -> int {
    choose|i: int| 0 <= i < entries.len() && (#[trigger] entries[i]).0 == key
}

/// `entries` with `value` under `key`: in the place of the entry that had the
/// key, else behind all others.
pub open spec fn with_entry<K, V>(entries: Seq<(K, V)>, key: K, value: V) -> Seq<(K, V)> {
    if has_key(entries, key) {
        entries.update(position(entries, key), (key, value))
    } else {
        entries.push((key, value))
    }
}

/// `entries` without `key`: the last entry takes the place of the one that had it.
pub open spec fn without_entry<K, V>(entries: Seq<(K, V)>, key: K) -> Seq<(K, V)> {
    if has_key(entries, key) {
        entries.update(position(entries, key), entries.last()).drop_last()
    } else {
        entries
    }
}

/// The value under `key`.
pub open spec fn value_of<K, V>(entries: Seq<(K, V)>, key: K) -> Option<V> {
    if has_key(entries, key) {
        Some(entries[position(entries, key)].1)
    } else {
        None
    }
}

/// Whether no two entries have the same key.
pub open spec fn distinct_keys<K, V>(entries: Seq<(K, V)>) -> bool {
    forall|i: int, j: int|
        0 <= i < j < entries.len() ==> (#[trigger] entries[i]).0 != (#[trigger] entries[j]).0
}

/// `indexmap::IndexMap::new`: a map without entries.
#[verifier::external_body]
pub(crate) fn new_map<K, V>() -> (res: IndexMap<K, V>)
    ensures
        holds(res, Seq::<(K, V)>::empty()),
{
    IndexMap::new()
}

/// `indexmap::IndexMap::insert`: iterating over the map still gives one list. Of
/// keys whose hash and `==` are fit for a hash table, more is claimed: an entry
/// whose key is already there keeps its place and gets the new value, another
/// one goes to the end, and the value that was there before is returned.
#[verifier::external_body]
fn insert<K: Hash + Eq, V>(map: &mut IndexMap<K, V>, key: K, value: V) -> (res: Option<V>)
    ensures
        exists|after: Seq<(K, V)>| holds(*final(map), after),
        forall|entries: Seq<(K, V)>| #[trigger]
            holds(*old(map), entries) && distinct_keys(entries) && obeys_key_model::<K>() ==> {
                &&& holds(*final(map), with_entry(entries, key, value))
                &&& res == value_of(entries, key)
            },
{
    map.insert(key, value)
}

/// `indexmap::IndexMap::remove`: iterating over the map still gives one list. Of
/// keys whose hash and `==` are fit for a hash table, more is claimed: the entry
/// under the key is taken out, the last entry moves to its place, and the value
/// that was there is returned; without such an entry the map stays as it is.
#[verifier::external_body]
fn remove<K: Hash + Eq, V>(map: &mut IndexMap<K, V>, key: &K) -> (res: Option<V>)
    ensures
        exists|after: Seq<(K, V)>| holds(*final(map), after),
        forall|entries: Seq<(K, V)>| #[trigger]
            holds(*old(map), entries) && distinct_keys(entries) && obeys_key_model::<K>() ==> {
                &&& holds(*final(map), without_entry(entries, *key))
                &&& res == value_of(entries, *key)
            },
{
    map.remove(key)
}

/// Whether `b` has as many entries as `a`, and each of them is a clone of the
/// entry of `a` in the same place.
pub open spec fn cloned_entries<K: Clone, V: Clone>(a: Seq<(K, V)>, b: Seq<(K, V)>) -> bool {
    &&& a.len() == b.len()
    &&& forall|i: int|
        0 <= i < a.len() ==> {
            &&& cloned((#[trigger] a[i]).0, b[i].0)
            &&& cloned(a[i].1, b[i].1)
        }
}

/// Whether `b` holds clones of the entries that `a` holds.
pub open spec fn cloned_map<K: Clone, V: Clone>(a: IndexMap<K, V>, b: IndexMap<K, V>) -> bool {
    forall|entries: Seq<(K, V)>| #[trigger]
        holds(a, entries) ==> exists|copies: Seq<(K, V)>| #[trigger]
            holds(b, copies) && cloned_entries(entries, copies)
}

/// `<indexmap::IndexMap as Clone>::clone`: as many entries, in the same order,
/// each with a clone of the key and of the value.
#[verifier::external_body]
pub(crate) fn clone_map<K: Clone, V: Clone>(map: &IndexMap<K, V>) -> (res: IndexMap<K, V>)
    ensures
        cloned_map(*map, res),
{
    map.clone()
}

/// A map whose entries have an order, each key at most once.
#[verifier::reject_recursive_types(K)]
#[verifier::reject_recursive_types(V)]
pub struct OrderedMap<K, V> {
    map: IndexMap<K, V>,
    entries: Ghost<Seq<(K, V)>>,
}

impl<K, V> View for OrderedMap<K, V> {
    type V = Seq<(K, V)>;

    closed spec fn view(&self) -> Seq<(K, V)> {
        self.entries@
    }
}

impl<K, V> OrderedMap<K, V> {
    #[verifier::type_invariant]
    spec fn inv(self) -> bool {
        &&& holds(self.map, self.entries@)
        &&& obeys_key_model::<K>() ==> distinct_keys(self.entries@)
    }

    /// The map without entries.
    pub fn new() -> (res: Self)
        ensures
            res@ == Seq::<(K, V)>::empty(),
    {
        OrderedMap { map: new_map(), entries: Ghost(Seq::empty()) }
    }

    /// The entries, in their order.
    pub fn iter(&self) -> (res: Vec<(&K, &V)>)
        ensures
            entries_of(res@) == self@,
            obeys_key_model::<K>() ==> distinct_keys(self@),
    {
        proof {
            use_type_invariant(self);
        }
        iterate(&self.map)
    }
}

impl<K: Hash + Eq, V> OrderedMap<K, V> {
    /// Puts `value` under `key` and returns the value that was there. It is said of
    /// keys whose hash and `==` are fit for a hash table.
    pub fn insert(&mut self, key: K, value: V) -> (res: Option<V>)
        ensures
            obeys_key_model::<K>() ==> {
                &&& final(self)@ == with_entry(old(self)@, key, value)
                &&& res == value_of(old(self)@, key)
            },
    {
        let mut own = OrderedMap::new();
        std::mem::swap(&mut own, self);
        proof {
            use_type_invariant(&own);
        }
        let OrderedMap { mut map, entries } = own;
        let res = insert(&mut map, key, value);
        let ghost after = if obeys_key_model::<K>() {
            with_entry(entries@, key, value)
        } else {
            choose|after: Seq<(K, V)>| holds(map, after)
        };
        proof {
            if obeys_key_model::<K>() {
                lemma_with_entry_distinct(entries@, key, value);
            }
        }
        *self = OrderedMap { map, entries: Ghost(after) };
        res
    }

    /// Takes the entry under `key` out and returns its value. It is said of keys whose
    /// hash and `==` are fit for a hash table.
    pub fn remove(&mut self, key: &K) -> (res: Option<V>)
        ensures
            obeys_key_model::<K>() ==> {
                &&& final(self)@ == without_entry(old(self)@, *key)
                &&& res == value_of(old(self)@, *key)
            },
    {
        let mut own = OrderedMap::new();
        std::mem::swap(&mut own, self);
        proof {
            use_type_invariant(&own);
        }
        let OrderedMap { mut map, entries } = own;
        let res = remove(&mut map, key);
        let ghost after = if obeys_key_model::<K>() {
            without_entry(entries@, *key)
        } else {
            choose|after: Seq<(K, V)>| holds(map, after)
        };
        *self = OrderedMap { map, entries: Ghost(after) };
        res
    }
}

/// Keys stay distinct where an entry is put in.
proof fn lemma_with_entry_distinct<K, V>(entries: Seq<(K, V)>, key: K, value: V)
    requires
        distinct_keys(entries),
    ensures
        distinct_keys(with_entry(entries, key, value)),
{
}

} // verus!
