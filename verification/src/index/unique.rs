//! The index in which a key leads to one slot.
use vstd::prelude::*;
use std::collections::BTreeMap;
use rustc_hash::FxHashMap;
use crate::arena::MAX_RESERVE;
use crate::error::UniquenessError;
use crate::hashed::fx_clear;
use crate::hashed::fx_get;
use crate::hashed::fx_insert;
use crate::hashed::fx_keys;
use crate::hashed::fx_new;
use crate::hashed::fx_remove;
use crate::hashed::fx_reserve;
use crate::hashed::fx_shrink_to_fit;
use crate::order::keys_ascending;
use crate::order::sorted_keys;

verus! {

broadcast use {vstd::std_specs::btree::group_btree_axioms, vstd::laws_cmp::group_laws_cmp};

/// An index in which a key leads to one slot.
#[derive(Clone, Debug)]
pub enum UniqueIndex {
    Hashed(FxHashMap<u64, usize>),
    Ordered(BTreeMap<u64, usize>),
}

impl View for UniqueIndex {
    type V = Map<u64, usize>;

    closed spec fn view(&self) -> Map<u64, usize> {
        match self {
            UniqueIndex::Hashed(table) => table@,
            UniqueIndex::Ordered(table) => table@,
        }
    }
}

impl UniqueIndex {
    /// Only finitely many keys are held.
    pub open spec fn wf(&self) -> bool {
        self@.dom().finite()
    }

    /// Whether the keys are kept sorted.
    pub closed spec fn ordered(&self) -> bool {
        self is Ordered
    }

    /// Whether the keys are kept sorted.
    pub fn is_ordered(&self) -> (ordered: bool)
        ensures
            ordered == self.ordered(),
    {
        match self {
            UniqueIndex::Hashed(_) => false,
            UniqueIndex::Ordered(_) => true,
        }
    }

    /// The slots that `key` leads to: one, or none.
    pub open spec fn slots(&self, key: u64) -> Set<usize> {
        if self@.contains_key(key) {
            set![self@[key]]
        } else {
            Set::empty()
        }
    }

    /// An index that holds no key.
    pub fn new(ordered: bool) -> (index: UniqueIndex)
        ensures
            index.wf(),
            index.ordered() == ordered,
            index@ == Map::<u64, usize>::empty(),
    {
        if ordered {
            UniqueIndex::Ordered(BTreeMap::new())
        } else {
            UniqueIndex::Hashed(fx_new())
        }
    }

    /// The slot that `key` leads to.
    pub fn get(&self, key: u64) -> (slot: Option<usize>)
        ensures
            slot == self@.get(key),
    {
        match self {
            UniqueIndex::Hashed(table) => match fx_get(table, key) {
                Some(slot) => Some(*slot),
                None => None,
            },
            UniqueIndex::Ordered(table) => match table.get(&key) {
                Some(slot) => Some(*slot),
                None => None,
            },
        }
    }

    /// Lets `key` lead to `slot`, unless the key is held already: then nothing
    /// changes and the slot is handed back in the error.
    pub fn insert(&mut self, key: u64, slot: usize) -> (done: Result<(), UniquenessError<usize>>)
        requires
            old(self).wf(),
        ensures
            final(self).wf(),
            final(self).ordered() == old(self).ordered(),
            match done {
                Ok(_) => !old(self)@.contains_key(key) && final(self)@ == old(self)@.insert(key, slot),
                Err(refused) => old(self)@.contains_key(key) && refused.0 == slot
                    && *final(self) == *old(self),
            },
    {
        if self.get(key).is_some() {
            return Err(UniquenessError(slot));
        }
        match self {
            UniqueIndex::Hashed(table) => {
                fx_insert(table, key, slot);
            },
            UniqueIndex::Ordered(table) => {
                table.insert(key, slot);
            },
        }
        Ok(())
    }

    /// Forgets `key`, and returns the slot it led to.
    pub fn remove(&mut self, key: u64) -> (slot: Option<usize>)
        requires
            old(self).wf(),
        ensures
            final(self).wf(),
            final(self).ordered() == old(self).ordered(),
            slot == old(self)@.get(key),
            final(self)@ == old(self)@.remove(key),
    {
        match self {
            UniqueIndex::Hashed(table) => fx_remove(table, key),
            UniqueIndex::Ordered(table) => table.remove(&key),
        }
    }

    /// Forgets every key.
    pub fn clear(&mut self)
        ensures
            final(self).wf(),
            final(self).ordered() == old(self).ordered(),
            final(self)@ == Map::<u64, usize>::empty(),
    {
        match self {
            UniqueIndex::Hashed(table) => {
                fx_clear(table);
            },
            UniqueIndex::Ordered(table) => {
                table.clear();
            },
        }
    }

    /// Makes room for `additional` more keys in a hashed table. A sorted table
    /// has nothing to set aside and is left exactly as it is.
    pub fn reserve(&mut self, additional: usize)
        requires
            additional <= MAX_RESERVE,
        ensures
            final(self)@ == old(self)@,
            final(self).ordered() == old(self).ordered(),
            old(self).ordered() ==> *final(self) == *old(self),
    {
        match self {
            UniqueIndex::Hashed(table) => {
                fx_reserve(table, additional);
            },
            UniqueIndex::Ordered(_) => {},
        }
    }

    /// Gives back the room that no key needs in a hashed table. A sorted table
    /// holds none and is left exactly as it is.
    pub fn shrink_to_fit(&mut self)
        ensures
            final(self)@ == old(self)@,
            final(self).ordered() == old(self).ordered(),
            old(self).ordered() ==> *final(self) == *old(self),
    {
        match self {
            UniqueIndex::Hashed(table) => {
                fx_shrink_to_fit(table);
            },
            UniqueIndex::Ordered(_) => {},
        }
    }

    /// The keys, each once: from the lowest to the highest in a sorted index,
    /// in the table's own order in a hashed one.
    pub fn keys(&self) -> (keys: Vec<u64>)
        ensures
            keys@.no_duplicates(),
            keys@.to_set() == self@.dom(),
            self.ordered() ==> keys_ascending(keys@),
    {
        match self {
            UniqueIndex::Hashed(table) => fx_keys(table),
            UniqueIndex::Ordered(table) => sorted_keys(table),
        }
    }
}

} // verus!
