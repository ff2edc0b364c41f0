//! The index in which a key leads to a set of slots.
use vstd::prelude::*;
use std::collections::BTreeMap;
use std::collections::BTreeSet;
use rustc_hash::FxHashMap;
use crate::arena::MAX_RESERVE;
use crate::hashed::fx_clear;
use crate::hashed::fx_get;
use crate::hashed::fx_insert;
use crate::hashed::fx_keys;
use crate::hashed::fx_new;
use crate::hashed::fx_remove;
use crate::hashed::fx_reserve;
use crate::hashed::fx_shrink_to_fit;
use crate::order::ascending;
use crate::order::keys_ascending;
use crate::order::sorted_keys;
use crate::order::sorted_slots;

verus! {

broadcast use {vstd::std_specs::btree::group_btree_axioms, vstd::laws_cmp::group_laws_cmp};

/// An index in which a key leads to a set of slots. No key is held with an
/// empty set.
#[derive(Clone, Debug)]
pub enum NonUniqueIndex {
    Hashed(FxHashMap<u64, BTreeSet<usize>>),
    Ordered(BTreeMap<u64, BTreeSet<usize>>),
}

impl View for NonUniqueIndex {
    type V = Map<u64, Set<usize>>;

    closed spec fn view(&self) -> Map<u64, Set<usize>> {
        match self {
            NonUniqueIndex::Hashed(table) => Map::new(
                |key: u64| table@.contains_key(key),
                |key: u64| table@[key]@,
            ),
            NonUniqueIndex::Ordered(table) => Map::new(
                |key: u64| table@.contains_key(key),
                |key: u64| table@[key]@,
            ),
        }
    }
}

impl NonUniqueIndex {
    /// Only finitely many keys are held, and none with an empty set.
    pub open spec fn wf(&self) -> bool {
        &&& self@.dom().finite()
        &&& forall|key: u64| #[trigger] self@.contains_key(key) ==> !self@[key].is_empty()
    }

    /// Whether the keys are kept sorted.
    pub closed spec fn ordered(&self) -> bool {
        self is Ordered
    }

    /// Whether the keys are kept sorted.
    pub fn is_ordered(&self) -> (ordered: bool)
        ensures
            ordered == self.ordered(),
    {
        match self {
            NonUniqueIndex::Hashed(_) => false,
            NonUniqueIndex::Ordered(_) => true,
        }
    }

    /// The slots that `key` leads to.
    pub open spec fn slots(&self, key: u64) -> Set<usize> {
        if self@.contains_key(key) {
            self@[key]
        } else {
            Set::empty()
        }
    }

    /// An index that holds no key.
    pub fn new(ordered: bool) -> (index: NonUniqueIndex)
        ensures
            index.wf(),
            index.ordered() == ordered,
            index@ == Map::<u64, Set<usize>>::empty(),
    {
        if ordered {
            let index = NonUniqueIndex::Ordered(BTreeMap::new());
            assert(index@ =~= Map::<u64, Set<usize>>::empty());
            index
        } else {
            let index = NonUniqueIndex::Hashed(fx_new());
            assert(index@ =~= Map::<u64, Set<usize>>::empty());
            index
        }
    }

    /// The slots that `key` leads to, from the lowest to the highest; none
    /// where the key is not held.
    pub fn get(&self, key: u64) -> (slots: Vec<usize>)
        ensures
            ascending(slots@),
            slots@.to_set() == self.slots(key),
    {
        let found = match self {
            NonUniqueIndex::Hashed(table) => fx_get(table, key),
            NonUniqueIndex::Ordered(table) => table.get(&key),
        };
        match found {
            Some(set) => sorted_slots(set),
            None => {
                Vec::new()
            },
        }
    }

    /// Whether `key` is held.
    pub fn contains_key(&self, key: u64) -> (held: bool)
        ensures
            held == self@.contains_key(key),
    {
        match self {
            NonUniqueIndex::Hashed(table) => fx_get(table, key).is_some(),
            NonUniqueIndex::Ordered(table) => table.get(&key).is_some(),
        }
    }

    /// Adds `slot` to the slots that `key` leads to.
    pub fn insert(&mut self, key: u64, slot: usize)
        requires
            old(self).wf(),
        ensures
            final(self).wf(),
            final(self).ordered() == old(self).ordered(),
            final(self)@ == old(self)@.insert(key, old(self).slots(key).insert(slot)),
    {
        match self {
            NonUniqueIndex::Hashed(table) => {
                let mut set = match fx_remove(table, key) {
                    Some(set) => set,
                    None => BTreeSet::new(),
                };
                set.insert(slot);
                fx_insert(table, key, set);
            },
            NonUniqueIndex::Ordered(table) => {
                let mut set = match table.remove(&key) {
                    Some(set) => set,
                    None => BTreeSet::new(),
                };
                set.insert(slot);
                table.insert(key, set);
            },
        }
        proof {
            let want = old(self)@.insert(key, old(self).slots(key).insert(slot));
            assert(self@ =~= want);
        }
    }

    /// Takes `slot` out of the slots that `key` leads to, and forgets the key
    /// if none is left. Says whether the slot was among them.
    pub fn remove(&mut self, key: u64, slot: usize) -> (was_there: bool)
        requires
            old(self).wf(),
        ensures
            final(self).wf(),
            final(self).ordered() == old(self).ordered(),
            was_there == old(self).slots(key).contains(slot),
            final(self)@ == if old(self).slots(key).remove(slot).is_empty() {
                old(self)@.remove(key)
            } else {
                old(self)@.insert(key, old(self).slots(key).remove(slot))
            },
    {
        let mut was_there = false;
        match self {
            NonUniqueIndex::Hashed(table) => {
                match fx_remove(table, key) {
                    Some(mut set) => {
                        was_there = set.remove(&slot);
                        if !set.is_empty() {
                            fx_insert(table, key, set);
                        }
                    },
                    None => {},
                }
            },
            NonUniqueIndex::Ordered(table) => {
                match table.remove(&key) {
                    Some(mut set) => {
                        was_there = set.remove(&slot);
                        if !set.is_empty() {
                            table.insert(key, set);
                        }
                    },
                    None => {},
                }
            },
        }
        proof {
            let rest = old(self).slots(key).remove(slot);
            let want = if rest.is_empty() {
                old(self)@.remove(key)
            } else {
                old(self)@.insert(key, rest)
            };
            assert(self@ =~= want);
        }
        was_there
    }

    /// Forgets `key`, and returns the slots it led to, from the lowest to the
    /// highest.
    pub fn take(&mut self, key: u64) -> (slots: Vec<usize>)
        requires
            old(self).wf(),
        ensures
            final(self).wf(),
            final(self).ordered() == old(self).ordered(),
            ascending(slots@),
            slots@.to_set() == old(self).slots(key),
            final(self)@ == old(self)@.remove(key),
    {
        let taken = match self {
            NonUniqueIndex::Hashed(table) => fx_remove(table, key),
            NonUniqueIndex::Ordered(table) => table.remove(&key),
        };
        assert(self@ =~= old(self)@.remove(key));
        match taken {
            Some(set) => sorted_slots(&set),
            None => {
                Vec::new()
            },
        }
    }

    /// Forgets every key.
    pub fn clear(&mut self)
        ensures
            final(self).wf(),
            final(self).ordered() == old(self).ordered(),
            final(self)@ == Map::<u64, Set<usize>>::empty(),
    {
        match self {
            NonUniqueIndex::Hashed(table) => {
                fx_clear(table);
            },
            NonUniqueIndex::Ordered(table) => {
                table.clear();
            },
        }
        assert(self@ =~= Map::<u64, Set<usize>>::empty());
    }

    /// Makes room for `additional` more keys in a hashed table. A sorted table
    /// has nothing to set aside and is left exactly as it is.
    pub fn reserve(&mut self, additional: usize)
        requires
            additional <= MAX_RESERVE,
        ensures
            final(self)@ == old(self)@,
            final(self).ordered() == old(self).ordered(),
            old(self).ordered() ==> *final(self) == *old(self),
    {
        match self {
            NonUniqueIndex::Hashed(table) => {
                fx_reserve(table, additional);
            },
            NonUniqueIndex::Ordered(_) => {},
        }
    }

    /// Gives back the room that no key needs in a hashed table. A sorted table
    /// holds none and is left exactly as it is.
    pub fn shrink_to_fit(&mut self)
        ensures
            final(self)@ == old(self)@,
            final(self).ordered() == old(self).ordered(),
            old(self).ordered() ==> *final(self) == *old(self),
    {
        match self {
            NonUniqueIndex::Hashed(table) => {
                fx_shrink_to_fit(table);
            },
            NonUniqueIndex::Ordered(_) => {},
        }
    }

    /// The keys, each once: from the lowest to the highest in a sorted index,
    /// in the table's own order in a hashed one.
    pub fn keys(&self) -> (keys: Vec<u64>)
        ensures
            keys@.no_duplicates(),
            keys@.to_set() == self@.dom(),
            self.ordered() ==> keys_ascending(keys@),
    {
        match self {
            NonUniqueIndex::Hashed(table) => fx_keys(table),
            NonUniqueIndex::Ordered(table) => sorted_keys(table),
        }
    }
}

} // verus!
