//! A symbol store kept in memory.

use crate::indexer::{has_key, position_of, snapshot_map, IndexData, IndexStore};
use vstd::hash_map::StringHashMap;
use vstd::prelude::*;

verus! {

/// A symbol store kept in memory.
///
/// The pairs are kept in the order in which their keys first arrived; a hash
/// index leads from each key to the place of its pair.
pub struct InMemoryIndexStore {
    slots: StringHashMap<usize>,
    pairs: Vec<(String, String)>,
}

impl InMemoryIndexStore {
    /// The hash index and the pairs agree.
    pub closed spec fn consistent(&self) -> bool {
        &&& forall|key: Seq<char>| #[trigger]
            self.slots@.contains_key(key) ==> {
                &&& self.slots@[key] < self.pairs.len()
                &&& self.pairs[self.slots@[key] as int].0@ == key
            }
        &&& forall|i: int|
            0 <= i < self.pairs.len() ==> {
                &&& self.slots@.contains_key(#[trigger] self.pairs[i].0@)
                &&& self.slots@[self.pairs[i].0@] == i
            }
    }

    /// The mapping held by the store.
    pub closed spec fn contents(&self) -> Map<Seq<char>, Seq<char>> {
        Map::new(
            |key: Seq<char>| self.slots@.contains_key(key),
            |key: Seq<char>| self.pairs[self.slots@[key] as int].1@,
        )
    }

    /// An empty store.
    pub fn new() -> (store: Self)
        ensures
            store.inv(),
            store.entries() == Map::<Seq<char>, Seq<char>>::empty(),
    {
        let store = InMemoryIndexStore { slots: StringHashMap::new(), pairs: Vec::new() };
        assert(store.contents() =~= Map::<Seq<char>, Seq<char>>::empty());
        store
    }
}

impl IndexStore for InMemoryIndexStore {
    open spec fn entries(&self) -> Map<Seq<char>, Seq<char>> {
        self.contents()
    }

    open spec fn inv(&self) -> bool {
        self.consistent()
    }

    fn set(&mut self, key: &str, value: IndexData) {
        let slot = match self.slots.get(key) {
            Some(place) => Some(*place),
            None => None,
        };
        match slot {
            Some(place) => {
                let owned = key.to_owned();
                self.pairs.set(place, (owned, value.value));
                assert(self.contents() =~= old(self).contents().insert(key@, value.value@));
            },
            None => {
                let place = self.pairs.len();
                self.slots.insert(key.to_owned(), place);
                self.pairs.push((key.to_owned(), value.value));
                assert(self.contents() =~= old(self).contents().insert(key@, value.value@));
            },
        }
    }

    fn get(&self, key: &str) -> (found: Option<String>) {
        match self.slots.get(key) {
            Some(place) => Some(self.pairs[*place].1.clone()),
            None => None,
        }
    }

    fn get_all(&self) -> (snapshot: Vec<(String, String)>) {
        let mut snapshot: Vec<(String, String)> = Vec::new();
        let mut i: usize = 0;
        while i < self.pairs.len()
            invariant
                i <= self.pairs.len(),
                snapshot.len() == i,
                forall|j: int|
                    0 <= j < i ==> (#[trigger] snapshot[j]).0@ == self.pairs[j].0@ && snapshot[j].1@
                        == self.pairs[j].1@,
            decreases self.pairs.len() - i,
        {
            let key = self.pairs[i].0.clone();
            let text = self.pairs[i].1.clone();
            snapshot.push((key, text));
            i = i + 1;
        }
        proof {
            let pairs = snapshot@;
            assert forall|a: int, b: int|
                0 <= a < pairs.len() && 0 <= b < pairs.len() && a != b implies pairs[a].0@
                != pairs[b].0@ by {
                assert(self.slots@[self.pairs[a].0@] == a);
                assert(self.slots@[self.pairs[b].0@] == b);
            }
            assert forall|key: Seq<char>| has_key(pairs, key) == self.slots@.contains_key(key) by {
                if self.slots@.contains_key(key) {
                    let place = self.slots@[key] as int;
                    assert(pairs[place].0@ == key);
                }
            }
            assert forall|key: Seq<char>| has_key(pairs, key) implies pairs[position_of(
                pairs,
                key,
            )].1@ == self.pairs[self.slots@[key] as int].1@ by {
                let at = position_of(pairs, key);
                assert(self.slots@[self.pairs[at].0@] == at);
            }
            assert(snapshot_map(pairs) =~= self.contents());
        }
        snapshot
    }
}

impl Clone for InMemoryIndexStore {
    /// A store of its own that holds what this one holds.
    fn clone(&self) -> (copy: Self)
        ensures
            self.inv() ==> copy.inv() && copy.entries() == self.entries(),
    {
        let mut slots: StringHashMap<usize> = StringHashMap::new();
        let mut pairs: Vec<(String, String)> = Vec::new();
        let mut i: usize = 0;
        while i < self.pairs.len()
            invariant
                i <= self.pairs.len(),
                pairs.len() == i,
                forall|j: int|
                    0 <= j < i ==> (#[trigger] pairs[j]).0@ == self.pairs[j].0@ && pairs[j].1@
                        == self.pairs[j].1@,
                self.consistent() ==> forall|key: Seq<char>| #[trigger]
                    slots@.contains_key(key) <==> self.slots@.contains_key(key)
                        && self.slots@[key] < i,
                self.consistent() ==> forall|key: Seq<char>| #[trigger]
                    slots@.contains_key(key) ==> slots@[key] == self.slots@[key],
            decreases self.pairs.len() - i,
        {
            let key = self.pairs[i].0.clone();
            let text = self.pairs[i].1.clone();
            proof {
                if self.consistent() {
                    assert(self.slots@[self.pairs[i as int].0@] == i);
                }
            }
            slots.insert(self.pairs[i].0.clone(), i);
            pairs.push((key, text));
            i = i + 1;
        }
        let copy = InMemoryIndexStore { slots, pairs };
        proof {
            if self.consistent() {
                assert forall|j: int| 0 <= j < copy.pairs.len() implies copy.slots@.contains_key(
                    #[trigger] copy.pairs[j].0@,
                ) && copy.slots@[copy.pairs[j].0@] == j by {
                    assert(self.slots@[self.pairs[j].0@] == j);
                }
                assert(copy.contents() =~= self.contents());
            }
        }
        copy
    }
}

} // verus!
