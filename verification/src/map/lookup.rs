//! Finding records by the value of a field.
use vstd::prelude::*;
use crate::kind::IndexKind;
use crate::map::MultiIndexMap;
use crate::model::holds;
use crate::model::lists;
use crate::model::matching;
use crate::model::owned;
use crate::order::ascending;
use crate::record::Record;

verus! {

impl MultiIndexMap {
    /// What a search for `key` in the unique index of `field` answers: the
    /// one record that has the key there, or nothing where no record has it
    /// or `field` has no unique index.
    pub open spec fn unique_answer(&self, field: int, key: u64, found: Option<Record>) -> bool {
        match found {
            Some(record) => self.unique_field(field) && exists|slot: usize| #[trigger]
                holds(self@, slot, field, key) && record == self@[slot],
            None => !self.unique_field(field) || matching(self@, field, key) == Set::<usize>::empty(),
        }
    }

    /// Whether `field` has an index.
    pub open spec fn indexed_field(&self, field: int) -> bool {
        0 <= field < self.kinds().len()
    }

    /// Whether `field` has a unique index.
    pub open spec fn unique_field(&self, field: int) -> bool {
        0 <= field < self.kinds().len() && self.kinds()[field].unique()
    }

    /// The slots that a search for `key` in `field` finds: those whose record
    /// has that key there, or none where the field has no index.
    pub open spec fn found(&self, field: int, key: u64) -> Set<usize> {
        if self.indexed_field(field) {
            matching(self@, field, key)
        } else {
            Set::empty()
        }
    }

    /// The highest of the slots that a search for `key` in `field` finds.
    pub open spec fn highest_found(&self, field: int, key: u64) -> usize {
        choose|slot: usize|
            self.found(field, key).contains(slot) && forall|other: usize| #[trigger]
                self.found(field, key).contains(other) ==> other <= slot
    }

    /// The kind of the index of `field`, if it has one.
    pub fn kind_of(&self, field: usize) -> (kind: Option<IndexKind>)
        requires
            self.wf(),
        ensures
            kind == if self.indexed_field(field as int) {
                Some(self.kinds()[field as int])
            } else {
                None
            },
    {
        if field < self.indexes.len() {
            Some(self.indexes[field].get_kind())
        } else {
            None
        }
    }

    /// The slots whose record has the value `key` in `field`, from the lowest
    /// to the highest.
    pub fn slots_by(&self, field: usize, key: u64) -> (slots: Vec<usize>)
        requires
            self.wf(),
        ensures
            ascending(slots@),
            slots@.to_set() == self.found(field as int, key),
    {
        if field < self.indexes.len() {
            let slots = self.indexes[field].get(key);
            assert(slots@.to_set() =~= matching(self@, field as int, key)) by {
                assert forall|slot: usize| slots@.to_set().contains(slot) <==> matching(
                    self@,
                    field as int,
                    key,
                ).contains(slot) by {
                    assert(self.index_slots(field as int, key).contains(slot) <==> holds(
                        self@,
                        slot,
                        field as int,
                        key,
                    ));
                }
            }
            slots
        } else {
            Vec::new()
        }
    }

    /// The one slot whose record has the value `key` in `field`, where
    /// `field` has a unique index.
    pub fn slot_by_unique(&self, field: usize, key: u64) -> (slot: Option<usize>)
        requires
            self.wf(),
        ensures
            match slot {
                Some(slot) => self.unique_field(field as int) && holds(self@, slot, field as int, key),
                None => !self.unique_field(field as int) || matching(self@, field as int, key)
                    == Set::<usize>::empty(),
            },
    {
        if field < self.indexes.len() {
            let slot = self.indexes[field].get_unique(key);
            proof {
                match slot {
                    Some(slot) => {
                        assert(self.index_slots(field as int, key).contains(slot));
                    },
                    None => {
                        if self.unique_field(field as int) {
                            assert forall|other: usize| !matching(self@, field as int, key).contains(
                                other,
                            ) by {
                                assert(!self.index_slots(field as int, key).contains(other));
                            }
                            assert(matching(self@, field as int, key) =~= Set::<usize>::empty());
                        }
                    },
                }
            }
            slot
        } else {
            None
        }
    }

    /// The record that has the value `key` in `field`, where `field` has a
    /// unique index.
    pub fn get_by_unique(&self, field: usize, key: u64) -> (found: Option<&Record>)
        requires
            self.wf(),
        ensures
            self.unique_answer(field as int, key, owned(found)),
    {
        match self.slot_by_unique(field, key) {
            Some(slot) => Some(self.store.index(slot)),
            None => None,
        }
    }

    /// The records in the given slots, in that order.
    pub(crate) fn collect(&self, slots: &Vec<usize>) -> (out: Vec<&Record>)
        requires
            forall|i: int| 0 <= i < slots@.len() ==> self@.contains_key(#[trigger] slots@[i]),
        ensures
            out@.map_values(|record: &Record| *record) == slots@.map_values(|slot: usize| self@[slot]),
    {
        let mut out: Vec<&Record> = Vec::new();
        let n: usize = slots.len();
        let mut i: usize = 0;
        while i < n
            invariant
                i <= n,
                n == slots@.len(),
                out@.len() == i,
                forall|j: int| 0 <= j < slots@.len() ==> self@.contains_key(#[trigger] slots@[j]),
                forall|j: int| 0 <= j < i ==> *(#[trigger] out@[j]) == self@[slots@[j]],
            decreases n - i,
        {
            out.push(self.store.index(slots[i]));
            i = i + 1;
        }
        out
    }

    /// Every record that has the value `key` in `field`, from the lowest slot
    /// to the highest; none where no record has it.
    pub fn get_by_non_unique(&self, field: usize, key: u64) -> (found: Vec<&Record>)
        requires
            self.wf(),
        ensures
            lists(found@.map_values(|record: &Record| *record), self@, self.found(field as int, key)),
    {
        let slots = self.slots_by(field, key);
        proof {
            assert forall|i: int| 0 <= i < slots@.len() implies self@.contains_key(
                #[trigger] slots@[i],
            ) by {
                assert(slots@.to_set().contains(slots@[i]));
            }
        }
        self.collect(&slots)
    }
}

} // verus!
