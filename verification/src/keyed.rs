//! A map by number that can list its keys in order.
use std::collections::BTreeMap;

use vstd::prelude::*;
use vstd::std_specs::cmp::OrdSpec;
use vstd::std_specs::iter::IteratorSpec;

verus! {

/// Values by number.
pub struct KeyedMap<V> {
    entries: BTreeMap<u64, V>,
}

/// Whether numbers go up.
pub open spec fn ascending(keys: Seq<u64>) -> bool {
    forall|i: int, j: int| 0 <= i < j < keys.len() ==> keys[i] < keys[j]
}

impl<V> View for KeyedMap<V> {
    type V = Map<u64, V>;

    closed spec fn view(&self) -> Map<u64, V> {
        self.entries@
    }
}

impl<V> KeyedMap<V> {
    /// No entry.
    pub fn new() -> (r: Self)
        ensures
            r@ == Map::<u64, V>::empty(),
    {
        KeyedMap { entries: BTreeMap::new() }
    }

    /// Puts a value at its key.
    pub fn insert(&mut self, key: u64, value: V)
        ensures
            final(self)@ == old(self)@.insert(key, value),
    {
        broadcast use vstd::laws_cmp::group_laws_cmp;
        broadcast use vstd::std_specs::btree::group_btree_axioms;

        let _previous = self.entries.insert(key, value);
    }

    /// Takes the value at a key out.
    pub fn take(&mut self, key: u64) -> (r: Option<V>)
        ensures
            final(self)@ == old(self)@.remove(key),
            r == if old(self)@.contains_key(key) {
                Some(old(self)@[key])
            } else {
                None
            },
    {
        broadcast use vstd::laws_cmp::group_laws_cmp;
        broadcast use vstd::std_specs::btree::group_btree_axioms;

        self.entries.remove(&key)
    }

    /// The value at a key.
    pub fn get(&self, key: u64) -> (r: Option<&V>)
        ensures
            r is Some <==> self@.contains_key(key),
            r matches Some(value) ==> *value == self@[key],
    {
        broadcast use vstd::laws_cmp::group_laws_cmp;
        broadcast use vstd::std_specs::btree::group_btree_axioms;

        self.entries.get(&key)
    }

    /// How many entries there are.
    pub fn len(&self) -> (r: usize)
        ensures
            r == self@.len(),
    {
        broadcast use vstd::laws_cmp::group_laws_cmp;
        broadcast use vstd::std_specs::btree::group_btree_axioms;

        self.entries.len()
    }

    /// The keys, in order.
    pub fn keys(&self) -> (r: Vec<u64>)
        ensures
            ascending(r@),
            forall|k: u64| r@.contains(k) <==> self@.contains_key(k),
    {
        broadcast use vstd::laws_cmp::group_laws_cmp;
        broadcast use vstd::std_specs::btree::group_btree_axioms;

        let mut out: Vec<u64> = Vec::new();
        for entry in it: self.entries.iter()
            invariant
                out@.len() == it.index(),
                forall|i: int| 0 <= i < out@.len() ==> out@[i] == *it.seq()[i].0,
                it.seq() == self.entries.iter().remaining(),
        {
            out.push(*entry.0);
        }
        let ghost listed = self.entries.iter().remaining();
        let ghost keys = listed.map_values(|kv: (&u64, &V)| *kv.0);
        assert(out@ =~= keys);
        assert(vstd::std_specs::btree::increasing_seq(keys));
        assert(vstd::laws_cmp::obeys_cmp::<u64>());
        assert forall|i: int, j: int| 0 <= i < j < keys.len() implies keys[i] < keys[j] by {
            assert(keys[i].cmp_spec(&keys[j]) is Less);
        }
        assert forall|k: u64| out@.contains(k) <==> self@.contains_key(k) by {
            if self@.contains_key(k) {
                let i = listed.index_of((&k, &self.entries@[k]));
                assert(out@[i] == k);
            }
        }
        out
    }
}

} // verus!
