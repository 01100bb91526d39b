//! What a subscriber knows from the changes that it was told of.
use vstd::prelude::*;
use vstd::std_specs::hash::obeys_key_model;

use crate::discover::Change;
use crate::ordered_map::{distinct_keys, has_key, position, with_entry, without_entry};

verus! {

/// Whether `b` is `a` with its key and its service cloned.
pub open spec fn cloned_change<K: Clone, S: Clone>(a: Change<K, S>, b: Change<K, S>) -> bool {
    match (a, b) {
        (Change::Insert(k, s), Change::Insert(l, t)) => cloned(k, l) && cloned(s, t),
        (Change::Remove(k), Change::Remove(l)) => cloned(k, l),
        _ => false,
    }
}

/// The services that are known after `change`, where `entries` were known before.
pub open spec fn applied<K, S>(entries: Seq<(K, S)>, change: Change<K, S>) -> Seq<(K, S)> {
    match change {
        Change::Insert(key, svc) => with_entry(entries, key, svc),
        Change::Remove(key) => without_entry(entries, key),
    }
}

/// The services that are known to one who knew nothing and was told of `log`.
pub open spec fn replay<K, S>(log: Seq<Change<K, S>>) -> Seq<(K, S)>
    decreases log.len(),
{
    if log.len() == 0 {
        Seq::empty()
    } else {
        applied(replay(log.drop_last()), log.last())
    }
}

/// Whether `log` holds, for each of `entries` and in their order, the insertion of
/// a clone of it.
pub open spec fn is_snapshot<K: Clone, S: Clone>(
    entries: Seq<(K, S)>,
    log: Seq<Change<K, S>>,
) -> bool {
    &&& log.len() == entries.len()
    &&& forall|i: int|
        0 <= i < log.len() ==> cloned_change(
            Change::Insert(entries[i].0, entries[i].1),
            #[trigger] log[i],
        )
}

/// Whether `seen` has the keys of `known`, in the same order, each with a clone of
/// the service that is known.
pub open spec fn mirrors<K, S: Clone>(known: Seq<(K, S)>, seen: Seq<(K, S)>) -> bool {
    &&& seen.len() == known.len()
    &&& forall|i: int|
        0 <= i < known.len() ==> (#[trigger] known[i]).0 == (#[trigger] seen[i]).0 && cloned(
            known[i].1,
            seen[i].1,
        )
}

/// Whether keys are fit for a hash table and their clones are the same keys.
pub open spec fn exact_keys<K: Clone>() -> bool {
    &&& obeys_key_model::<K>()
    &&& forall|a: K, b: K| #[trigger] cloned(a, b) ==> a == b
}

/// The place of a key is the same in a list and in one that mirrors it.
proof fn lemma_same_position<K, S: Clone>(known: Seq<(K, S)>, seen: Seq<(K, S)>, key: K)
    requires
        distinct_keys(known),
        mirrors(known, seen),
    ensures
        has_key(known, key) == has_key(seen, key),
        has_key(known, key) ==> {
            &&& position(known, key) == position(seen, key)
            &&& 0 <= position(known, key) < known.len()
            &&& known[position(known, key)].0 == key
        },
{
    if has_key(known, key) {
        let i = position(known, key);
        assert(known[i].0 == key);
        assert(seen[i].0 == key);
        let j = position(seen, key);
        assert(seen[j].0 == key);
        assert(known[j].0 == key);
        assert(i == j);
    }
    if has_key(seen, key) {
        let j = position(seen, key);
        assert(seen[j].0 == key);
        assert(known[j].0 == key);
    }
}

/// One who knows what is known, and is told of a clone of each change that is made
/// to it, knows what is known after the change.
pub proof fn law_change_keeps_mirror<K: Clone, S: Clone>(
    known: Seq<(K, S)>,
    seen: Seq<(K, S)>,
    change: Change<K, S>,
    copy: Change<K, S>,
)
    requires
        exact_keys::<K>(),
        distinct_keys(known),
        mirrors(known, seen),
        cloned_change(change, copy),
    ensures
        distinct_keys(applied(known, change)),
        mirrors(applied(known, change), applied(seen, copy)),
{
    match change {
        Change::Insert(key, svc) => {
            lemma_same_position(known, seen, key);
        },
        Change::Remove(key) => {
            lemma_same_position(known, seen, key);
        },
    }
}

/// One who is told of all the services that are known, in their order, knows them.
pub proof fn law_snapshot_mirrors<K: Clone, S: Clone>(known: Seq<(K, S)>, log: Seq<Change<K, S>>)
    requires
        exact_keys::<K>(),
        distinct_keys(known),
        is_snapshot(known, log),
    ensures
        mirrors(known, replay(log)),
    decreases known.len(),
{
    if known.len() > 0 {
        let shorter = known.drop_last();
        let n = known.len() - 1;
        law_snapshot_mirrors(shorter, log.drop_last());
        let seen = replay(log.drop_last());
        assert(cloned_change(Change::Insert(known[n].0, known[n].1), log[n]));
        if has_key(seen, known[n].0) {
            let j = position(seen, known[n].0);
            assert(seen[j].0 == known[n].0);
            assert(shorter[j].0 == seen[j].0);
            assert(known[j] == shorter[j]);
        }
        assert forall|i: int| 0 <= i < known.len() implies (#[trigger] known[i]).0 == (
        #[trigger] replay(log)[i]).0 && cloned(known[i].1, replay(log)[i].1) by {
            if i < n {
                assert(shorter[i] == known[i]);
                assert(seen[i] == replay(log)[i]);
            }
        }
    }
}

} // verus!
