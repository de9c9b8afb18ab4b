use vstd::prelude::*;

use std::collections::HashMap;

use crate::key::AbstractKey;

verus! {

broadcast use vstd::std_specs::hash::group_hash_axioms;

/// Which virtual key each device scancode stands for. It is filled once at
/// start-up and only read afterwards.
pub struct KeyTable {
    entries: HashMap<u32, AbstractKey>,
}

impl View for KeyTable {
    type V = Map<u32, AbstractKey>;

    closed spec fn view(&self) -> Map<u32, AbstractKey> {
        self.entries@
    }
}

impl KeyTable {
    /// A table with no entries.
    pub fn new() -> (t: KeyTable)
        ensures
            t@ == Map::<u32, AbstractKey>::empty(),
    {
        KeyTable { entries: HashMap::new() }
    }

    /// Maps `scancode` to `key`, replacing an earlier entry for it.
    pub fn insert(&mut self, scancode: u32, key: AbstractKey)
        ensures
            final(self)@ == old(self)@.insert(scancode, key),
    {
        self.entries.insert(scancode, key);
    }

    /// The key for `scancode`, if the table has one.
    pub fn get(&self, scancode: u32) -> (r: Option<AbstractKey>)
        ensures
            r == (if self@.contains_key(scancode) {
                Some(self@[scancode])
            } else {
                None::<AbstractKey>
            }),
    {
        match self.entries.get(&scancode) {
            Some(k) => Some(*k),
            None => None,
        }
    }

    /// The key for a scancode that the table is known to hold. The table is only
    /// read, so resolving the same scancode again gives the same key.
    pub fn resolve(&self, scancode: u32) -> (r: AbstractKey)
        requires
            self@.contains_key(scancode),
        ensures
            r == self@[scancode],
    {
        *self.entries.get(&scancode).unwrap()
    }

    /// Whether every scancode of `held` has an entry.
    pub open spec fn covers(&self, held: Seq<u32>) -> bool {
        forall|i: int| 0 <= i < held.len() ==> self@.contains_key(#[trigger] held[i])
    }

    /// The keys that `held` resolves to, in the same order.
    pub open spec fn resolve_all(&self, held: Seq<u32>) -> Seq<AbstractKey> {
        held.map_values(|sc: u32| self@[sc])
    }
}

} // verus!
