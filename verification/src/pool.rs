//! The constant pool: a keyed store of values, filled at load time and
//! mutable at run time. Keys are minted from a monotonic counter, so no
//! key is ever reused after a removal.
use vstd::prelude::*;

use std::collections::HashMap;

use crate::value::{Value, ValueView};

verus! {

broadcast use vstd::std_specs::hash::group_hash_axioms;

/// A keyed store of values. The view is the mapping from key to value
/// view; `next_key` is the counter the next stored value will be filed
/// under.
pub struct ConstPool {
    map: HashMap<usize, Value>,
    next: usize,
}

impl View for ConstPool {
    type V = Map<usize, ValueView>;

    closed spec fn view(&self) -> Map<usize, ValueView> {
        Map::new(|k: usize| self.map@.dom().contains(k), |k: usize| self.map@[k]@)
    }
}

impl ConstPool {
    /// The key the next `store` will mint.
    pub closed spec fn next_key(&self) -> usize {
        self.next
    }

    /// Well-formedness: every key in the pool lies below the counter, so
    /// minted keys are fresh.
    pub closed spec fn wf(&self) -> bool {
        forall|k: usize| self.map@.dom().contains(k) ==> k < self.next
    }

    /// In a well-formed pool every key lies below the counter.
    pub proof fn lemma_wf_keys(&self)
        requires
            self.wf(),
        ensures
            forall|k: usize| self@.contains_key(k) ==> k < self.next_key(),
    {
    }

    /// An empty pool whose counter starts at zero.
    pub fn new() -> (r: ConstPool)
        ensures
            r@ == Map::<usize, ValueView>::empty(),
            r.next_key() == 0,
            r.wf(),
    {
        let r = ConstPool { map: HashMap::new(), next: 0 };
        proof {
            assert(r@ =~= Map::<usize, ValueView>::empty());
        }
        r
    }

    /// A clone of the value at `key`, or `None` for a missing key.
    pub fn get_copy(&self, key: usize) -> (r: Option<Value>)
        ensures
            match r {
                Some(v) => self@.contains_key(key) && v@ == self@[key],
                None => !self@.contains_key(key),
            },
    {
        match self.map.get(&key) {
            Some(v) => Some(v.duplicate()),
            None => None,
        }
    }

    /// A read-only borrow of the value at `key`.
    pub fn get_ref(&self, key: usize) -> (r: Option<&Value>)
        ensures
            match r {
                Some(v) => self@.contains_key(key) && v@ == self@[key],
                None => !self@.contains_key(key),
            },
    {
        self.map.get(&key)
    }

    /// Files `value` under a freshly minted key and returns that key.
    pub fn store(&mut self, value: Value) -> (r: usize)
        requires
            old(self).wf(),
            old(self).next_key() < usize::MAX,
        ensures
            final(self).wf(),
            r == old(self).next_key(),
            final(self).next_key() == old(self).next_key() + 1,
            final(self)@ == old(self)@.insert(r, value@),
    {
        let key = self.next;
        let ghost vview = value@;
        let ghost oldview = self@;
        self.map.insert(key, value);
        self.next = self.next + 1;
        proof {
            assert(self@ =~= oldview.insert(key, vview));
        }
        key
    }

    /// Inserts `value` at a caller-chosen key, overwriting any earlier
    /// entry, and keeps the counter above every key in the pool. The
    /// decoder merges a constants section in with this.
    pub(crate) fn insert_at(&mut self, key: usize, value: Value)
        requires
            old(self).wf(),
            key < usize::MAX,
        ensures
            final(self).wf(),
            final(self)@ == old(self)@.insert(key, value@),
            final(self).next_key() == if key + 1 > old(self).next_key() {
                key + 1
            } else {
                old(self).next_key() as int
            },
    {
        let ghost vview = value@;
        let ghost oldview = self@;
        self.map.insert(key, value);
        if key + 1 > self.next {
            self.next = key + 1;
        }
        proof {
            assert(self@ =~= oldview.insert(key, vview));
        }
    }

    /// Deletes the entry at `key`; removing a missing key changes nothing.
    pub fn remove(&mut self, key: usize)
        requires
            old(self).wf(),
        ensures
            final(self).wf(),
            final(self).next_key() == old(self).next_key(),
            final(self)@ == old(self)@.remove(key),
    {
        let ghost oldview = self@;
        self.map.remove(&key);
        proof {
            assert(self@ =~= oldview.remove(key));
        }
    }
}

} // verus!
