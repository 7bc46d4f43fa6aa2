//! Presence sets keyed by election id and a 32-byte value: the nullifier sets
//! and the casting accounts. Lookup only; entries are never removed.
use vstd::prelude::*;

use crate::codec::bytes32_eq;

verus! {

pub struct KeySet {
    entries: Vec<(u64, [u8; 32])>,
}

impl View for KeySet {
    type V = Set<(u64, [u8; 32])>;

    closed spec fn view(&self) -> Set<(u64, [u8; 32])> {
        Set::new(|k: (u64, [u8; 32])| self.entries@.contains(k))
    }
}

impl KeySet {
    pub fn new() -> (r: KeySet)
        ensures
            r@ == Set::<(u64, [u8; 32])>::empty(),
    {
        let r = KeySet { entries: Vec::new() };
        assert(r@ =~= Set::<(u64, [u8; 32])>::empty());
        r
    }

    /// Whether `(eid, key)` is present.
    pub fn contains(&self, eid: u64, key: &[u8; 32]) -> (r: bool)
        ensures
            r == self@.contains((eid, *key)),
    {
        let mut i: usize = 0;
        while i < self.entries.len()
            invariant
                i <= self.entries@.len(),
                forall|j: int| 0 <= j < i ==> self.entries@[j] != (eid, *key),
            decreases self.entries@.len() - i,
        {
            let (e, k) = self.entries[i];
            if e == eid && bytes32_eq(&k, key) {
                assert(self.entries@[i as int] == (eid, *key));
                return true;
            }
            i = i + 1;
        }
        false
    }

    /// Marks `(eid, key)` as present.
    pub fn insert(&mut self, eid: u64, key: &[u8; 32])
        ensures
            final(self)@ == old(self)@.insert((eid, *key)),
    {
        self.entries.push((eid, *key));
        assert forall|k: (u64, [u8; 32])| #[trigger] self.entries@.contains(k) == old(self)@.insert((eid, *key)).contains(k) by {
            if k == (eid, *key) {
                assert(self.entries@[self.entries@.len() - 1] == k);
            }
            if old(self).entries@.contains(k) {
                let j = choose|j: int| 0 <= j < old(self).entries@.len() && old(self).entries@[j] == k;
                assert(self.entries@[j] == k);
            }
            if self.entries@.contains(k) && k != (eid, *key) {
                let j = choose|j: int| 0 <= j < self.entries@.len() && self.entries@[j] == k;
                assert(old(self).entries@[j] == k);
            }
        }
        assert(self@ =~= old(self)@.insert((eid, *key)));
    }
}

} // verus!
