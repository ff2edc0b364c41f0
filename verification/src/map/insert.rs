//! Putting records in.
use vstd::prelude::*;
use vstd::pervasive::unreached;
use crate::error::UniquenessError;
use crate::map::MultiIndexMap;
use crate::model::holds;
use crate::record::Record;
use crate::tables::enter_all;

verus! {

impl MultiIndexMap {
    /// Whether a record with these keys would share a key of a unique index
    /// with a record that is stored.
    pub open spec fn collides(&self, keys: Seq<u64>) -> bool {
        exists|field: int, slot: usize|
            0 <= field < self.kinds().len() && self.kinds()[field].unique() && #[trigger] holds(
                self@,
                slot,
                field,
                keys[field],
            )
    }

    /// What an attempt to insert `record` into `self` leaves: either the
    /// record in the slot that was next to be given out, or, where it
    /// collides, the container as it was and the record in the error.
    pub open spec fn insertion(
        &self,
        record: Record,
        after: MultiIndexMap,
        done: Result<usize, UniquenessError<Record>>,
    ) -> bool {
        match done {
            Ok(slot) => {
                &&& !self.collides(record.keys@)
                &&& slot == self.vacant()
                &&& !self@.contains_key(slot)
                &&& after@ == self@.insert(slot, record)
            },
            Err(refused) => {
                &&& self.collides(record.keys@)
                &&& refused.0 == record
                &&& after == *self
            },
        }
    }

    /// Stores `record` and enters it in every index, unless a unique index
    /// already holds one of its keys: then the container stays as it is and
    /// the record comes back in the error.
    pub fn try_insert(&mut self, record: Record) -> (done: Result<usize, UniquenessError<Record>>)
        requires
            old(self).wf(),
            record.keys@.len() == old(self).kinds().len(),
        ensures
            final(self).wf(),
            final(self).kinds() == old(self).kinds(),
            old(self).insertion(record, *final(self), done),
    {
        let n: usize = self.indexes.len();
        let mut i: usize = 0;
        while i < n
            invariant
                i <= n,
                n == self.tables().len(),
                *self == *old(self),
                self.wf(),
                record.keys@.len() == n,
                forall|j: int, slot: usize|
                    0 <= j < i && self.kinds()[j].unique() ==> !#[trigger] holds(
                        self@,
                        slot,
                        j,
                        record.keys@[j],
                    ),
            decreases n - i,
        {
            match self.indexes[i].get_unique(record.keys[i]) {
                Some(slot) => {
                    proof {
                        assert(self.index_slots(i as int, record.keys@[i as int]).contains(slot));
                    }
                    return Err(UniquenessError(record));
                },
                None => {
                    proof {
                        assert forall|slot: usize| !#[trigger] holds(
                            self@,
                            slot,
                            i as int,
                            record.keys@[i as int],
                        ) || !self.kinds()[i as int].unique() by {
                            if self.kinds()[i as int].unique() {
                                assert(!self.index_slots(i as int, record.keys@[i as int]).contains(slot));
                            }
                        }
                    }
                },
            }
            i = i + 1;
        }
        let ghost keys = record.keys@;
        let slot: usize = self.store.insert(record);
        proof {
            assert forall|j: int|
                0 <= j < self.tables().len() && (#[trigger] self.tables()[j]).kind().unique()
                implies self.tables()[j].slots(keys[j]).is_empty() by {
                assert(self.tables() == old(self).tables());
                assert(old(self).kinds()[j].unique());
                assert forall|s: usize| !old(self).index_slots(j, keys[j]).contains(s) by {
                    assert(!holds(old(self)@, s, j, keys[j]));
                }
                assert(old(self).index_slots(j, keys[j]) == self.tables()[j].slots(keys[j]));
                assert(old(self).index_slots(j, keys[j]) =~= Set::<usize>::empty());
            }
        }
        enter_all(&mut self.indexes, &self.store.index(slot).keys, slot);
        proof {
            assert forall|field: int, key: u64, s: usize|
                0 <= field < self.kinds().len() implies (#[trigger] self.index_slots(field, key).contains(s)
                <==> holds(self@, s, field, key)) by {
                assert(old(self).index_slots(field, key).contains(s) <==> holds(old(self)@, s, field, key));
            }
            self.lemma_wf_from_parts();
        }
        Ok(slot)
    }

    /// Stores `record`, which shares no key of a unique index with a record
    /// that is stored, and returns its slot.
    pub fn insert(&mut self, record: Record) -> (slot: usize)
        requires
            old(self).wf(),
            record.keys@.len() == old(self).kinds().len(),
            !old(self).collides(record.keys@),
        ensures
            final(self).wf(),
            final(self).kinds() == old(self).kinds(),
            slot == old(self).vacant(),
            !old(self)@.contains_key(slot),
            final(self)@ == old(self)@.insert(slot, record),
    {
        match self.try_insert(record) {
            Ok(slot) => slot,
            Err(_) => unreached(),
        }
    }
}

} // verus!
