//! A set of terminal identities.
use std::collections::BTreeSet;

use vstd::prelude::*;

verus! {

/// Stage, client and sequence number of a terminal.
pub type Identity = (u64, u16, u64);

/// The identities met so far.
pub struct IdentitySet {
    ids: BTreeSet<Identity>,
}

impl View for IdentitySet {
    type V = Set<Identity>;

    closed spec fn view(&self) -> Set<Identity> {
        self.ids@
    }
}

impl IdentitySet {
    /// The empty set.
    pub fn new() -> (r: Self)
        ensures
            r@ == Set::<Identity>::empty(),
    {
        IdentitySet { ids: BTreeSet::new() }
    }

    /// Adds an identity; `false` if it was there.
    pub fn insert(&mut self, id: Identity) -> (r: bool)
        ensures
            final(self)@ == old(self)@.insert(id),
            r == !old(self)@.contains(id),
    {
        broadcast use vstd::laws_cmp::group_laws_cmp;

        self.ids.insert(id)
    }
}

} // verus!
