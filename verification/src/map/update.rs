//! Changing the payload of records, which no index looks at.
use vstd::prelude::*;
use crate::map::MultiIndexMap;
use crate::model::holds;
use crate::model::lists;
use crate::model::matching;
use crate::order::ascending;
use crate::record::Record;

verus! {

impl MultiIndexMap {
    /// Gives the record in `slot` the payload `payload`, and returns the one
    /// it had. The keys stay, so no index is touched.
    pub fn set_payload(&mut self, slot: usize, payload: Vec<u8>) -> (previous: Vec<u8>)
        requires
            old(self).wf(),
            old(self)@.contains_key(slot),
        ensures
            final(self).wf(),
            final(self).tables() == old(self).tables(),
            final(self).vacant() == old(self).vacant(),
            previous == old(self)@[slot].payload,
            final(self)@ == old(self)@.insert(slot, old(self)@[slot].with_payload(payload)),
    {
        let mut payload = payload;
        match self.store.get_mut(slot) {
            Some(record) => {
                core::mem::swap(&mut record.payload, &mut payload);
            },
            None => {},
        }
        proof {
            assert forall|field: int, key: u64, s: usize|
                0 <= field < self.kinds().len() implies (#[trigger] self.index_slots(field, key).contains(s)
                <==> holds(self@, s, field, key)) by {
                assert(old(self).index_slots(field, key).contains(s) <==> holds(old(self)@, s, field, key));
            }
            self.lemma_wf_from_parts();
        }
        payload
    }

    /// Hands the payload of the record that has the value `key` in `field` to
    /// `change`, where `field` has a unique index, and gives the record the
    /// payload that `change` returns. The keys stay, so no index is touched.
    pub fn update_by_unique<F: FnOnce(&Vec<u8>) -> Vec<u8>>(
        &mut self,
        field: usize,
        key: u64,
        change: F,
    ) -> (updated: Option<&Record>)
        requires
            old(self).wf(),
            forall|slot: usize| #[trigger]
                holds(old(self)@, slot, field as int, key) ==> change.requires(
                    (&old(self)@[slot].payload,),
                ),
        ensures
            final(self).wf(),
            final(self).tables() == old(self).tables(),
            final(self).vacant() == old(self).vacant(),
            match updated {
                Some(record) => old(self).unique_field(field as int) && exists|slot: usize| #[trigger]
                    holds(old(self)@, slot, field as int, key) && change.ensures(
                        (&old(self)@[slot].payload,),
                        record.payload,
                    ) && *record == old(self)@[slot].with_payload(record.payload) && final(self)@ == old(
                        self,
                    )@.insert(slot, *record),
                None => *final(self) == *old(self) && (!old(self).unique_field(field as int) || matching(
                    old(self)@,
                    field as int,
                    key,
                ) == Set::<usize>::empty()),
            },
    {
        match self.slot_by_unique(field, key) {
            Some(slot) => {
                let payload = change(&self.store.index(slot).payload);
                self.set_payload(slot, payload);
                Some(self.store.index(slot))
            },
            None => None,
        }
    }

    /// Hands the payload of the record in each of `slots`, in that order, to
    /// `change`, and gives the record the payload that `change` returns.
    fn update_at<F: Fn(&Vec<u8>) -> Vec<u8>>(&mut self, slots: &Vec<usize>, change: F)
        requires
            old(self).wf(),
            ascending(slots@),
            forall|i: int| 0 <= i < slots@.len() ==> old(self)@.contains_key(#[trigger] slots@[i]),
            forall|i: int|
                0 <= i < slots@.len() ==> change.requires((&old(self)@[#[trigger] slots@[i]].payload,)),
        ensures
            final(self).wf(),
            final(self).tables() == old(self).tables(),
            final(self).vacant() == old(self).vacant(),
            final(self)@.dom() == old(self)@.dom(),
            forall|slot: usize| #[trigger]
                old(self)@.contains_key(slot) ==> if slots@.to_set().contains(slot) {
                    &&& change.ensures((&old(self)@[slot].payload,), final(self)@[slot].payload)
                    &&& final(self)@[slot] == old(self)@[slot].with_payload(final(self)@[slot].payload)
                } else {
                    final(self)@[slot] == old(self)@[slot]
                },
    {
        let n: usize = slots.len();
        let mut i: usize = 0;
        while i < n
            invariant
                i <= n,
                n == slots@.len(),
                ascending(slots@),
                self.wf(),
                self.tables() == old(self).tables(),
                self.vacant() == old(self).vacant(),
                self@.dom() == old(self)@.dom(),
                forall|j: int| 0 <= j < slots@.len() ==> old(self)@.contains_key(#[trigger] slots@[j]),
                forall|j: int|
                    0 <= j < slots@.len() ==> change.requires((&old(self)@[#[trigger] slots@[j]].payload,)),
                forall|slot: usize|
                    old(self)@.contains_key(slot) && !slots@.to_set().contains(slot) ==> #[trigger] self@[slot]
                        == old(self)@[slot],
                forall|j: int|
                    0 <= j < n ==> if j < i {
                        &&& change.ensures(
                            (&old(self)@[#[trigger] slots@[j]].payload,),
                            self@[slots@[j]].payload,
                        )
                        &&& self@[slots@[j]] == old(self)@[slots@[j]].with_payload(self@[slots@[j]].payload)
                    } else {
                        self@[slots@[j]] == old(self)@[slots@[j]]
                    },
            decreases n - i,
        {
            let slot: usize = slots[i];
            let ghost mid = self@;
            let payload = change(&self.store.index(slot).payload);
            self.set_payload(slot, payload);
            proof {
                assert forall|j: int| 0 <= j < n implies if j < i + 1 {
                    &&& change.ensures((&old(self)@[#[trigger] slots@[j]].payload,), self@[slots@[j]].payload)
                    &&& self@[slots@[j]] == old(self)@[slots@[j]].with_payload(self@[slots@[j]].payload)
                } else {
                    self@[slots@[j]] == old(self)@[slots@[j]]
                } by {
                    if j != i {
                        assert(slots@[j] != slots@[i as int]);
                        assert(self@[slots@[j]] == mid[slots@[j]]);
                    }
                }
            }
            i = i + 1;
        }
        proof {
            assert forall|slot: usize| #[trigger] old(self)@.contains_key(slot) implies if slots@.to_set().contains(
                slot,
            ) {
                &&& change.ensures((&old(self)@[slot].payload,), self@[slot].payload)
                &&& self@[slot] == old(self)@[slot].with_payload(self@[slot].payload)
            } else {
                self@[slot] == old(self)@[slot]
            } by {
                if slots@.to_set().contains(slot) {
                    let j = choose|j: int| 0 <= j < slots@.len() && slots@[j] == slot;
                    assert(slots@[j] == slot);
                }
            }
        }
    }

    /// Hands the payload of each record that has the value `key` in `field`
    /// to `change`, from the lowest slot to the highest, and gives the record
    /// the payload that `change` returns. The keys stay, so no index is
    /// touched. Returns the records as they are afterwards.
    pub fn update_by_non_unique<F: Fn(&Vec<u8>) -> Vec<u8>>(
        &mut self,
        field: usize,
        key: u64,
        change: F,
    ) -> (updated: Vec<&Record>)
        requires
            old(self).wf(),
            forall|slot: usize| #[trigger]
                holds(old(self)@, slot, field as int, key) ==> change.requires(
                    (&old(self)@[slot].payload,),
                ),
        ensures
            final(self).wf(),
            final(self).tables() == old(self).tables(),
            final(self).vacant() == old(self).vacant(),
            final(self)@.dom() == old(self)@.dom(),
            forall|slot: usize| #[trigger]
                old(self)@.contains_key(slot) ==> if old(self).found(field as int, key).contains(slot) {
                    &&& change.ensures((&old(self)@[slot].payload,), final(self)@[slot].payload)
                    &&& final(self)@[slot] == old(self)@[slot].with_payload(final(self)@[slot].payload)
                } else {
                    final(self)@[slot] == old(self)@[slot]
                },
            lists(
                updated@.map_values(|record: &Record| *record),
                final(self)@,
                old(self).found(field as int, key),
            ),
    {
        let slots = self.slots_by(field, key);
        proof {
            assert forall|i: int| 0 <= i < slots@.len() implies old(self)@.contains_key(
                #[trigger] slots@[i],
            ) && change.requires((&old(self)@[slots@[i]].payload,)) by {
                assert(slots@.to_set().contains(slots@[i]));
                assert(holds(old(self)@, slots@[i], field as int, key));
            }
        }
        self.update_at(&slots, change);
        self.collect(&slots)
    }

    /// Hands the payload of every record to `change`, from the lowest slot to
    /// the highest, and gives the record the payload that `change` returns.
    /// The keys stay, so no index is touched.
    pub fn update_all<F: Fn(&Vec<u8>) -> Vec<u8>>(&mut self, change: F)
        requires
            old(self).wf(),
            forall|slot: usize| #[trigger]
                old(self)@.contains_key(slot) ==> change.requires((&old(self)@[slot].payload,)),
        ensures
            final(self).wf(),
            final(self).tables() == old(self).tables(),
            final(self).vacant() == old(self).vacant(),
            final(self)@.dom() == old(self)@.dom(),
            forall|slot: usize| #[trigger]
                old(self)@.contains_key(slot) ==> {
                    &&& change.ensures((&old(self)@[slot].payload,), final(self)@[slot].payload)
                    &&& final(self)@[slot] == old(self)@[slot].with_payload(final(self)@[slot].payload)
                },
    {
        let slots = self.store.slots();
        proof {
            assert forall|i: int| 0 <= i < slots@.len() implies old(self)@.contains_key(
                #[trigger] slots@[i],
            ) by {
                assert(slots@.to_set().contains(slots@[i]));
            }
        }
        self.update_at(&slots, change);
    }

    /// `self` is `before` but for the payload of the record in `slot`.
    pub open spec fn keeps_keys_of(&self, before: MultiIndexMap, slot: usize) -> bool {
        &&& self.tables() == before.tables()
        &&& before@.contains_key(slot)
        &&& self@.dom().finite()
        &&& forall|other: usize| #[trigger] self@.contains_key(other) <==> before@.contains_key(other)
        &&& self@[slot].keys == before@[slot].keys
        &&& forall|other: usize| other != slot && before@.contains_key(other) ==> #[trigger] self@[other] == before@[other]
    }

    /// A change of payload leaves the container sound.
    pub proof fn lemma_payload_is_free(&self, after: MultiIndexMap, slot: usize)
        requires
            self.wf(),
            after.keeps_keys_of(*self, slot),
        ensures
            after.wf(),
    {
        assert forall|field: int, key: u64, s: usize|
            0 <= field < after.kinds().len() implies (#[trigger] after.index_slots(field, key).contains(s)
            <==> holds(after@, s, field, key)) by {
            assert(self.index_slots(field, key).contains(s) <==> holds(self@, s, field, key));
            if s != slot && self@.contains_key(s) {
                assert(after@[s] == self@[s]);
            }
        }
        assert forall|s: usize| #[trigger] after@.contains_key(s) implies after@[s].keys@.len()
            == after.kinds().len() by {
            assert(self@.contains_key(s));
            if s != slot {
                assert(after@[s] == self@[s]);
            }
        }
        after.lemma_wf_from_parts();
    }

    /// The payload of the record that has the value `key` in `field`, where
    /// `field` has a unique index, open to change in place. The keys are out
    /// of reach, so no index can fall out of step.
    pub fn get_mut_by_unique(&mut self, field: usize, key: u64) -> (payload: Option<&mut Vec<u8>>)
        requires
            old(self).wf(),
        ensures
            final(self).wf(),
            final(self).tables() == old(self).tables(),
            final(self).vacant() == old(self).vacant(),
            match payload {
                Some(payload) => old(self).unique_field(field as int) && exists|slot: usize| #[trigger]
                    holds(old(self)@, slot, field as int, key) && *payload == old(self)@[slot].payload
                        && final(self)@ == old(self)@.insert(
                        slot,
                        old(self)@[slot].with_payload(*final(payload)),
                    ),
                None => *final(self) == *old(self) && (!old(self).unique_field(field as int) || matching(
                    old(self)@,
                    field as int,
                    key,
                ) == Set::<usize>::empty()),
            },
    {
        match self.slot_by_unique(field, key) {
            Some(slot) => match self.store.get_mut(slot) {
                Some(record) => {
                    proof {
                        assert forall|after: MultiIndexMap| after.keeps_keys_of(*old(self), slot)
                            implies #[trigger] after.wf() by {
                            old(self).lemma_payload_is_free(after, slot);
                        }
                    }
                    Some(&mut record.payload)
                },
                None => None,
            },
            None => None,
        }
    }
}

} // verus!
