//! Encoded events by index.
use std::collections::BTreeMap;

use vstd::prelude::*;

verus! {

/// Event texts keyed by their index.
pub struct EventLines {
    lines: BTreeMap<usize, Vec<char>>,
}

impl View for EventLines {
    type V = Map<usize, Seq<char>>;

    closed spec fn view(&self) -> Map<usize, Seq<char>> {
        self.lines@.map_values(|line: Vec<char>| line@)
    }
}

impl EventLines {
    /// No event.
    pub fn new() -> (r: Self)
        ensures
            r@ == Map::<usize, Seq<char>>::empty(),
    {
        let r = EventLines { lines: BTreeMap::new() };
        assert(r@ =~= Map::<usize, Seq<char>>::empty());
        r
    }

    /// Puts an event at its index; `true` if there was one.
    pub fn insert(&mut self, index: usize, line: Vec<char>) -> (r: bool)
        ensures
            final(self)@ == old(self)@.insert(index, line@),
            r == old(self)@.contains_key(index),
    {
        broadcast use vstd::laws_cmp::group_laws_cmp;
        broadcast use vstd::std_specs::btree::group_btree_axioms;

        let ghost text = line@;
        let old_line = self.lines.insert(index, line);
        assert(self@ =~= old(self)@.insert(index, text));
        old_line.is_some()
    }

    /// The event at an index.
    pub fn get(&self, index: usize) -> (r: Option<&Vec<char>>)
        ensures
            r is Some <==> self@.contains_key(index),
            r matches Some(line) ==> line@ == self@[index],
    {
        broadcast use vstd::laws_cmp::group_laws_cmp;
        broadcast use vstd::std_specs::btree::group_btree_axioms;

        self.lines.get(&index)
    }

    /// How many events there are.
    pub fn len(&self) -> (r: usize)
        ensures
            r == self@.len(),
    {
        broadcast use vstd::laws_cmp::group_laws_cmp;
        broadcast use vstd::std_specs::btree::group_btree_axioms;

        assert(self@.dom() =~= self.lines@.dom());
        self.lines.len()
    }
}

} // verus!
