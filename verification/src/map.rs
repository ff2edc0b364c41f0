//! The container itself: one arena, one index for each indexed field, and the
//! operations that keep them in step.
use vstd::prelude::*;
use crate::arena::Arena;
use crate::arena::MAX_RESERVE;
use crate::index::Index;
use crate::kind::IndexKind;
use crate::model::holds;
use crate::record::Record;

mod insert;
mod lookup;
mod modify;
mod remove;
mod update;
mod walk;

verus! {

/// A set of records, each reachable through every one of its indexes.
#[derive(Clone, Debug)]
pub struct MultiIndexMap {
    store: Arena,
    indexes: Vec<Index>,
}

impl View for MultiIndexMap {
    type V = Map<usize, Record>;

    /// The records, each under the slot it lives in.
    closed spec fn view(&self) -> Map<usize, Record> {
        self.store@
    }
}

impl MultiIndexMap {
    /// The slot that the next record will get: the one that was vacated last,
    /// if it is still vacant.
    pub closed spec fn vacant(&self) -> usize {
        self.store.vacant()
    }

    /// The index of each field, in the order of the fields.
    pub closed spec fn tables(&self) -> Seq<Index> {
        self.indexes@
    }

    /// The kind of each index, in the order of the fields.
    pub open spec fn kinds(&self) -> Seq<IndexKind> {
        self.tables().map_values(|index: Index| index.kind())
    }

    /// The slots that `key` leads to in the index of `field`.
    pub open spec fn index_slots(&self, field: int, key: u64) -> Set<usize> {
        self.tables()[field].slots(key)
    }

    /// The keys that the index of `field` holds.
    pub open spec fn index_keys(&self, field: int) -> Set<u64> {
        self.tables()[field].keys()
    }

    /// Each index is sound in itself.
    pub open spec fn tables_wf(&self) -> bool {
        forall|j: int| 0 <= j < self.tables().len() ==> (#[trigger] self.tables()[j]).wf()
    }

    /// The indexes say exactly what the records say: a key leads to a slot in
    /// the index of a field if and only if the slot holds a record with that
    /// key in that field. In a unique index no key leads to two slots.
    pub open spec fn wf(&self) -> bool {
        &&& self.tables_wf()
        &&& self@.dom().finite()
        &&& forall|slot: usize| #[trigger]
            self@.contains_key(slot) ==> self@[slot].keys@.len() == self.kinds().len()
        &&& forall|field: int, key: u64, slot: usize|
            0 <= field < self.kinds().len() ==> (#[trigger] self.index_slots(field, key).contains(slot)
                <==> holds(self@, slot, field, key))
        &&& forall|field: int, key: u64, a: usize, b: usize|
            0 <= field < self.kinds().len() && self.kinds()[field].unique()
                && #[trigger] self.index_slots(field, key).contains(a)
                && #[trigger] self.index_slots(field, key).contains(b) ==> a == b
        &&& forall|field: int, key: u64|
            0 <= field < self.kinds().len() ==> (#[trigger] self.index_keys(field).contains(key)
                <==> !self.index_slots(field, key).is_empty())
    }

    pub(crate) proof fn lemma_wf_from_parts(&self)
        requires
            self.tables_wf(),
            self@.dom().finite(),
            forall|slot: usize| #[trigger]
                self@.contains_key(slot) ==> self@[slot].keys@.len() == self.kinds().len(),
            forall|field: int, key: u64, slot: usize|
                0 <= field < self.kinds().len() ==> (#[trigger] self.index_slots(field, key).contains(slot)
                    <==> holds(self@, slot, field, key)),
        ensures
            self.wf(),
    {
        assert forall|field: int, key: u64|
            0 <= field < self.kinds().len() implies (#[trigger] self.index_keys(field).contains(key)
            <==> !self.index_slots(field, key).is_empty()) by {
            self.tables()[field].lemma_keys_lead_somewhere(key);
        }
    }

    /// An empty container with one index of each of the given kinds.
    pub fn new(kinds: Vec<IndexKind>) -> (map: MultiIndexMap)
        ensures
            map.wf(),
            map.kinds() == kinds@,
            map@ == Map::<usize, Record>::empty(),
            map.vacant() == 0,
    {
        Self::with_capacity(kinds, 0)
    }

    /// An empty container with one index of each of the given kinds, and room
    /// for `capacity` records in its arena.
    pub fn with_capacity(kinds: Vec<IndexKind>, capacity: usize) -> (map: MultiIndexMap)
        requires
            capacity <= MAX_RESERVE,
        ensures
            map.wf(),
            map.kinds() == kinds@,
            map@ == Map::<usize, Record>::empty(),
            map.vacant() == 0,
    {
        let mut indexes: Vec<Index> = Vec::new();
        let n: usize = kinds.len();
        let mut i: usize = 0;
        while i < n
            invariant
                i <= n,
                n == kinds@.len(),
                indexes@.len() == i,
                forall|j: int| 0 <= j < i ==> (#[trigger] indexes@[j]).wf() && indexes@[j].kind() == kinds@[j],
                forall|j: int, key: u64| 0 <= j < i ==> #[trigger] indexes@[j].slots(key) == Set::<usize>::empty(),
            decreases n - i,
        {
            indexes.push(Index::new(kinds[i]));
            i = i + 1;
        }
        let map = MultiIndexMap { store: Arena::with_capacity(capacity), indexes };
        proof {
            map.lemma_wf_from_parts();
        }
        map
    }

    /// The number of indexed fields.
    pub fn field_count(&self) -> (n: usize)
        ensures
            n == self.kinds().len(),
    {
        self.indexes.len()
    }

    /// The number of records stored.
    pub fn len(&self) -> (n: usize)
        ensures
            n == self@.len(),
    {
        self.store.len()
    }

    /// Whether no record is stored.
    pub fn is_empty(&self) -> (empty: bool)
        requires
            self.wf(),
        ensures
            empty == (self@ == Map::<usize, Record>::empty()),
    {
        self.store.is_empty()
    }

    /// The record in `slot`, if the slot is occupied.
    pub fn get(&self, slot: usize) -> (found: Option<&Record>)
        ensures
            match found {
                Some(record) => self@.contains_key(slot) && *record == self@[slot],
                None => !self@.contains_key(slot),
            },
    {
        self.store.get(slot)
    }

    /// How many records the arena has room for before it must grow.
    pub fn capacity(&self) -> (n: usize)
        ensures
            n >= self@.len(),
    {
        self.store.capacity()
    }

    /// Makes room for `additional` more records, in the arena and in the
    /// hashed indexes. The sorted indexes have nothing to set aside and are
    /// left exactly as they are.
    pub fn reserve(&mut self, additional: usize)
        requires
            old(self).wf(),
            additional <= MAX_RESERVE,
        ensures
            final(self).wf(),
            final(self).kinds() == old(self).kinds(),
            final(self)@ == old(self)@,
            final(self).vacant() == old(self).vacant(),
            forall|field: int|
                0 <= field < old(self).kinds().len() && old(self).kinds()[field].ordered()
                    ==> #[trigger] final(self).tables()[field] == old(self).tables()[field],
    {
        self.store.reserve(additional);
        let n: usize = self.indexes.len();
        let mut i: usize = 0;
        while i < n
            invariant
                i <= n,
                n == self.tables().len(),
                n == old(self).tables().len(),
                additional <= MAX_RESERVE,
                self.store@ == old(self).store@,
                self.store.vacant() == old(self).store.vacant(),
                self.store.wf(),
                forall|j: int|
                    0 <= j < n ==> (#[trigger] self.tables()[j]).wf() && self.tables()[j].kind() == old(self).tables()[j].kind() && self.tables()[j].keys() == old(self).tables()[j].keys(),
                forall|j: int, key: u64|
                    0 <= j < n ==> #[trigger] self.tables()[j].slots(key) == old(self).tables()[j].slots(
                        key,
                    ),
                forall|j: int|
                    0 <= j < n && old(self).tables()[j].kind().ordered() ==> #[trigger] self.tables()[j]
                        == old(self).tables()[j],
            decreases n - i,
        {
            let ghost mid = self.tables();
            let index = &mut self.indexes[i];
            index.reserve(additional);
            proof {
                assert forall|j: int, key: u64| 0 <= j < n implies #[trigger] self.tables()[j].slots(key)
                    == old(self).tables()[j].slots(key) by {
                    if j != i {
                        assert(self.tables()[j] == mid[j]);
                    }
                }
                assert forall|j: int|
                    0 <= j < n && old(self).tables()[j].kind().ordered() implies #[trigger] self.tables()[j]
                    == old(self).tables()[j] by {
                    if j != i {
                        assert(self.tables()[j] == mid[j]);
                    }
                }
            }
            i = i + 1;
        }
        proof {
            assert forall|field: int, key: u64, s: usize|
                0 <= field < self.kinds().len() implies (#[trigger] self.index_slots(field, key).contains(s)
                <==> holds(self@, s, field, key)) by {
                assert(old(self).index_slots(field, key).contains(s) <==> holds(old(self)@, s, field, key));
            }
            self.lemma_wf_from_parts();
        }
    }

    /// Gives back the room that nothing needs, in the arena and in the hashed
    /// indexes. The sorted indexes hold none and are left exactly as they are.
    pub fn shrink_to_fit(&mut self)
        requires
            old(self).wf(),
        ensures
            final(self).wf(),
            final(self).kinds() == old(self).kinds(),
            final(self)@ == old(self)@,
            forall|field: int|
                0 <= field < old(self).kinds().len() && old(self).kinds()[field].ordered()
                    ==> #[trigger] final(self).tables()[field] == old(self).tables()[field],
    {
        self.store.shrink_to_fit();
        let n: usize = self.indexes.len();
        let mut i: usize = 0;
        while i < n
            invariant
                i <= n,
                n == self.tables().len(),
                n == old(self).tables().len(),
                self.store@ == old(self).store@,
                self.store.wf(),
                forall|j: int|
                    0 <= j < n ==> (#[trigger] self.tables()[j]).wf() && self.tables()[j].kind() == old(self).tables()[j].kind() && self.tables()[j].keys() == old(self).tables()[j].keys(),
                forall|j: int, key: u64|
                    0 <= j < n ==> #[trigger] self.tables()[j].slots(key) == old(self).tables()[j].slots(
                        key,
                    ),
                forall|j: int|
                    0 <= j < n && old(self).tables()[j].kind().ordered() ==> #[trigger] self.tables()[j]
                        == old(self).tables()[j],
            decreases n - i,
        {
            let ghost mid = self.tables();
            let index = &mut self.indexes[i];
            index.shrink_to_fit();
            proof {
                assert forall|j: int, key: u64| 0 <= j < n implies #[trigger] self.tables()[j].slots(key)
                    == old(self).tables()[j].slots(key) by {
                    if j != i {
                        assert(self.tables()[j] == mid[j]);
                    }
                }
                assert forall|j: int|
                    0 <= j < n && old(self).tables()[j].kind().ordered() implies #[trigger] self.tables()[j]
                    == old(self).tables()[j] by {
                    if j != i {
                        assert(self.tables()[j] == mid[j]);
                    }
                }
            }
            i = i + 1;
        }
        proof {
            assert forall|field: int, key: u64, s: usize|
                0 <= field < self.kinds().len() implies (#[trigger] self.index_slots(field, key).contains(s)
                <==> holds(self@, s, field, key)) by {
                assert(old(self).index_slots(field, key).contains(s) <==> holds(old(self)@, s, field, key));
            }
            self.lemma_wf_from_parts();
        }
    }

    /// Drops every record and empties every index.
    pub fn clear(&mut self)
        requires
            old(self).wf(),
        ensures
            final(self).wf(),
            final(self).kinds() == old(self).kinds(),
            final(self)@ == Map::<usize, Record>::empty(),
            final(self).vacant() == 0,
    {
        self.store.clear();
        let n: usize = self.indexes.len();
        let mut i: usize = 0;
        while i < n
            invariant
                i <= n,
                n == self.tables().len(),
                n == old(self).tables().len(),
                self.store@ == Map::<usize, Record>::empty(),
                self.store.vacant() == 0,
                self.store.wf(),
                forall|j: int|
                    0 <= j < n ==> (#[trigger] self.tables()[j]).wf() && self.tables()[j].kind() == old(self).tables()[j].kind(),
                forall|j: int, key: u64|
                    0 <= j < i ==> #[trigger] self.tables()[j].slots(key) == Set::<usize>::empty(),
            decreases n - i,
        {
            let ghost mid = self.tables();
            let index = &mut self.indexes[i];
            index.clear();
            proof {
                assert forall|j: int, key: u64| 0 <= j < i + 1 implies #[trigger] self.tables()[j].slots(
                    key,
                ) == Set::<usize>::empty() by {
                    if j != i {
                        assert(self.tables()[j] == mid[j]);
                    }
                }
                assert forall|j: int| 0 <= j < n implies (#[trigger] self.tables()[j]).wf()
                    && self.tables()[j].kind() == old(self).tables()[j].kind() by {
                    if j != i {
                        assert(self.tables()[j] == mid[j]);
                    }
                }
            }
            i = i + 1;
        }
        proof {
            self.lemma_wf_from_parts();
        }
    }
}

} // verus!
