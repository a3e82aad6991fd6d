//! Indices of a list grouped under integer keys, for looking an item up among
//! the few that share its key instead of among all.

use std::collections::HashMap;
use vstd::prelude::*;

verus! {

/// The indices of a list, each held in the bucket of its key.
pub(crate) struct Buckets {
    map: HashMap<u64, Vec<usize>>,
}

impl Buckets {
    /// The indices held under `key`.
    pub(crate) closed spec fn bucket(&self, key: u64) -> Seq<usize> {
        if self.map@.contains_key(key) {
            self.map@[key]@
        } else {
            Seq::empty()
        }
    }

    /// The buckets hold exactly the indices of `keys`, each under its key.
    pub(crate) open spec fn groups(&self, keys: Seq<u64>) -> bool {
        &&& forall|key: u64, j: int|
            0 <= j < self.bucket(key).len() ==> 0 <= #[trigger] self.bucket(key)[j] < keys.len()
                && keys[self.bucket(key)[j] as int] == key
        &&& forall|k: int|
            0 <= k < keys.len() ==> self.bucket(#[trigger] keys[k]).contains(k as usize)
    }

    /// Buckets that hold no index.
    pub(crate) fn new() -> (buckets: Buckets)
        ensures
            buckets.groups(Seq::empty()),
            forall|key: u64| buckets.bucket(key).len() == 0,
    {
        Buckets { map: HashMap::new() }
    }

    /// The indices held under `key`, if there are any.
    pub(crate) fn candidates(&self, key: u64) -> (found: Option<&Vec<usize>>)
        ensures
            match found {
                Some(list) => list@ == self.bucket(key),
                None => self.bucket(key).len() == 0,
            },
    {
        broadcast use vstd::std_specs::hash::group_hash_axioms;

        self.map.get(&key)
    }

    /// Puts the next index of the list under its key.
    pub(crate) fn add(&mut self, key: u64, index: usize, Ghost(keys): Ghost<Seq<u64>>)
        requires
            old(self).groups(keys),
            index == keys.len(),
        ensures
            final(self).groups(keys.push(key)),
    {
        broadcast use vstd::std_specs::hash::group_hash_axioms;

        let ghost before = *self;
        let mut list: Vec<usize> = match self.map.remove(&key) {
            Some(list) => list,
            None => Vec::new(),
        };
        assert(list@ == before.bucket(key));
        list.push(index);
        self.map.insert(key, list);
        proof {
            let grown = keys.push(key);
            assert forall|other: u64| other != key implies #[trigger] self.bucket(other)
                == before.bucket(other) by {}
            assert(self.bucket(key) == before.bucket(key).push(index));
            assert forall|other: u64, j: int| 0 <= j < self.bucket(other).len() implies 0
                <= #[trigger] self.bucket(other)[j] < grown.len() && grown[self.bucket(
                other,
            )[j] as int] == other by {
                if other == key {
                    if j < before.bucket(key).len() {
                        assert(self.bucket(key)[j] == before.bucket(key)[j]);
                    }
                } else {
                    assert(self.bucket(other)[j] == before.bucket(other)[j]);
                }
            }
            assert forall|k: int| 0 <= k < grown.len() implies self.bucket(
                #[trigger] grown[k],
            ).contains(k as usize) by {
                if k < keys.len() {
                    assert(before.bucket(keys[k]).contains(k as usize));
                    let j = choose|j: int|
                        0 <= j < before.bucket(keys[k]).len() && before.bucket(keys[k])[j]
                            == k as usize;
                    assert(self.bucket(keys[k])[j] == k as usize);
                } else {
                    assert(self.bucket(key)[before.bucket(key).len() as int] == index);
                }
            }
        }
    }
}

} // verus!
