//! Walking hash maps.

use std::collections::HashMap;
use std::hash::Hash;
use vstd::prelude::*;

verus! {

broadcast use vstd::std_specs::hash::group_hash_axioms;

/// Whether a list holds every key of a map exactly once, in any order.
pub open spec fn lists_keys<K, V>(keys: Seq<K>, map: Map<K, V>) -> bool {
    &&& keys.no_duplicates()
    &&& forall|key: K| #[trigger] keys.contains(key) <==> map.contains_key(key)
}

/// The keys of a map, in the order that it is walked in.
pub fn keys<K: Copy + Eq + Hash, V>(map: &HashMap<K, V>) -> (result: Vec<K>)
    requires
        vstd::std_specs::hash::obeys_key_model::<K>(),
    ensures
        lists_keys(result@, map@),
        result@.len() == map@.len(),
{
    let mut result: Vec<K> = Vec::new();
    for key in walk: map.keys()
        invariant
            result@.len() == walk.index(),
            forall|i: int| 0 <= i < result@.len() ==> result@[i] == *walk.seq()[i],
    {
        result.push(*key);
    }
    proof {
        let walked = vstd::std_specs::iter::IteratorSpec::remaining(
            &vstd::std_specs::hash::spec_keys_iter(map),
        );
        assert(result@ =~= walked.unref());
        assert(result@.no_duplicates());
        assert forall|key: K| #[trigger] result@.contains(key) <==> map@.contains_key(key) by {
            assert(walked.unref().to_set().contains(key) <==> walked.unref().contains(key));
        }
    }
    result
}

/// Makes a map with the same keys, whose values `f` gives for the values of `map`.
pub fn mapped<K: Copy + Eq + Hash, V, W, F: Fn(&V) -> W>(map: &HashMap<K, V>, f: &F) -> (result:
    HashMap<K, W>)
    requires
        vstd::std_specs::hash::obeys_key_model::<K>(),
        forall|value: &V| call_requires(*f, (value,)),
    ensures
        result@.dom() == map@.dom(),
        forall|key: K| #[trigger]
            map@.contains_key(key) ==> call_ensures(*f, (&map@[key],), result@[key]),
{
    let walked: Vec<K> = keys(map);
    let mut result: HashMap<K, W> = HashMap::new();
    let mut at: usize = 0;
    while at < walked.len()
        invariant
            vstd::std_specs::hash::obeys_key_model::<K>(),
            forall|value: &V| call_requires(*f, (value,)),
            at <= walked@.len(),
            lists_keys(walked@, map@),
            forall|key: K| #[trigger]
                result@.contains_key(key) <==> exists|i: int|
                    0 <= i < at && #[trigger] walked@[i] == key,
            forall|key: K| #[trigger]
                result@.contains_key(key) ==> call_ensures(*f, (&map@[key],), result@[key]),
        decreases walked@.len() - at,
    {
        let key: K = walked[at];
        assert(walked@.contains(key));
        let ghost before = result@;
        result.insert(key, f(map.get(&key).unwrap()));
        proof {
            assert forall|other: K| #[trigger] result@.contains_key(other) <==> exists|i: int|
                0 <= i < at + 1 && #[trigger] walked@[i] == other by {
                if before.contains_key(other) {
                    let i = choose|i: int| 0 <= i < at && #[trigger] walked@[i] == other;
                    assert(walked@[i] == other);
                }
                if other == key {
                    assert(walked@[at as int] == other);
                }
            }
        }
        at = at + 1;
    }
    proof {
        assert forall|key: K| #[trigger] result@.contains_key(key) <==> map@.contains_key(key) by {
            assert(walked@.contains(key) <==> map@.contains_key(key));
        }
        assert(result@.dom() =~= map@.dom());
    }
    result
}

} // verus!
