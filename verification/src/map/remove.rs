//! Taking records out.
use vstd::prelude::*;
use crate::map::MultiIndexMap;
use crate::model::holds;
use crate::model::lists;
use crate::model::matching;
use crate::order::ascending;
use crate::record::Record;
use crate::tables::strike_all;

verus! {

impl MultiIndexMap {
    /// What the removal of the record with `key` in the unique index of
    /// `field` leaves: the container without that record, which is returned,
    /// or the container as it was where there is no such record.
    pub open spec fn unique_removal(
        &self,
        field: int,
        key: u64,
        after: MultiIndexMap,
        removed: Option<Record>,
    ) -> bool {
        match removed {
            Some(record) => self.unique_field(field) && exists|slot: usize| #[trigger]
                holds(self@, slot, field, key) && record == self@[slot] && after@ == self@.remove(slot)
                    && after.vacant() == slot,
            None => after == *self && (!self.unique_field(field) || matching(self@, field, key)
                == Set::<usize>::empty()),
        }
    }

    /// Takes the record out of `slot` and strikes it from every index.
    pub fn remove(&mut self, slot: usize) -> (removed: Option<Record>)
        requires
            old(self).wf(),
        ensures
            final(self).wf(),
            final(self).kinds() == old(self).kinds(),
            removed == old(self)@.get(slot),
            final(self)@ == old(self)@.remove(slot),
            final(self).vacant() == if removed is Some { slot } else { old(self).vacant() },
    {
        if !self.store.contains(slot) {
            return None;
        }
        let record = self.store.remove(slot);
        strike_all(&mut self.indexes, &record.keys, slot);
        proof {
            assert forall|field: int, key: u64, s: usize|
                0 <= field < self.kinds().len() implies (#[trigger] self.index_slots(field, key).contains(s)
                <==> holds(self@, s, field, key)) by {
                assert(old(self).index_slots(field, key).contains(s) <==> holds(old(self)@, s, field, key));
            }
            self.lemma_wf_from_parts();
        }
        Some(record)
    }

    /// Removes the record that has the value `key` in `field`, where `field`
    /// has a unique index, and returns it.
    pub fn remove_by_unique(&mut self, field: usize, key: u64) -> (removed: Option<Record>)
        requires
            old(self).wf(),
        ensures
            final(self).wf(),
            final(self).kinds() == old(self).kinds(),
            old(self).unique_removal(field as int, key, *final(self), removed),
    {
        match self.slot_by_unique(field, key) {
            Some(slot) => self.remove(slot),
            None => None,
        }
    }

    /// Removes every record that has the value `key` in `field`, and returns
    /// them, from the lowest slot to the highest.
    pub fn remove_by_non_unique(&mut self, field: usize, key: u64) -> (removed: Vec<Record>)
        requires
            old(self).wf(),
        ensures
            final(self).wf(),
            final(self).kinds() == old(self).kinds(),
            lists(removed@, old(self)@, old(self).found(field as int, key)),
            final(self)@ == old(self)@.remove_keys(old(self).found(field as int, key)),
            final(self).vacant() == if removed@.len() > 0 {
                old(self).highest_found(field as int, key)
            } else {
                old(self).vacant()
            },
    {
        let slots = self.slots_by(field, key);
        let mut removed: Vec<Record> = Vec::new();
        let n: usize = slots.len();
        let mut i: usize = 0;
        while i < n
            invariant
                i <= n,
                n == slots@.len(),
                ascending(slots@),
                slots@.to_set() == old(self).found(field as int, key),
                self.wf(),
                self.kinds() == old(self).kinds(),
                removed@.len() == i,
                forall|j: int| 0 <= j < i ==> #[trigger] removed@[j] == old(self)@[slots@[j]],
                self@ == old(self)@.remove_keys(slots@.take(i as int).to_set()),
                self.vacant() == if i > 0 {
                    slots@[i - 1]
                } else {
                    old(self).vacant()
                },
            decreases n - i,
        {
            let slot: usize = slots[i];
            proof {
                assert(slots@.to_set().contains(slot));
                assert(!slots@.take(i as int).to_set().contains(slot)) by {
                    if slots@.take(i as int).to_set().contains(slot) {
                        let j = choose|j: int| 0 <= j < i && slots@.take(i as int)[j] == slot;
                        assert(slots@[j] < slots@[i as int]);
                    }
                }
            }
            match self.remove(slot) {
                Some(record) => {
                    removed.push(record);
                },
                None => {
                    assert(false);
                },
            }
            proof {
                assert(slots@.take(i + 1) =~= slots@.take(i as int).push(slot));
                slots@.take(i as int).lemma_push_to_set_commute(slot);
            }
            i = i + 1;
        }
        proof {
            if n > 0 {
                let top = slots@[n - 1];
                assert(slots@.to_set().contains(top));
                assert forall|other: usize| #[trigger]
                    old(self).found(field as int, key).contains(other) implies other <= top by {
                    let j = choose|j: int| 0 <= j < slots@.len() && slots@[j] == other;
                    if j < n - 1 {
                        assert(slots@[j] < slots@[n - 1]);
                    }
                }
                let chosen = old(self).highest_found(field as int, key);
                assert(old(self).found(field as int, key).contains(chosen));
                assert(chosen <= top && top <= chosen);
            }
        }
        proof {
            assert(slots@.take(n as int) =~= slots@);
            assert(removed@ =~= slots@.map_values(|slot: usize| old(self)@[slot]));
        }
        removed
    }
}

} // verus!
