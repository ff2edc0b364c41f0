//! Changing records, keys included.
use vstd::prelude::*;
use vstd::pervasive::unreached;
use crate::error::UniquenessError;
use crate::map::MultiIndexMap;
use crate::model::among;
use crate::model::clash_in;
use crate::model::holds;
use crate::model::lists;
use crate::model::matching;
use crate::order::ascending;
use crate::record::Record;
use crate::tables::move_all;

verus! {

impl MultiIndexMap {
    /// Whether a record with these keys, were it to stand in `slot`, would
    /// share a key of a unique index with the record in another slot.
    pub open spec fn clashes(&self, slot: usize, keys: Seq<u64>) -> bool {
        clash_in(self@, self.kinds(), slot, keys)
    }

    /// Puts `record` in the place of the record in `slot` and moves the slot,
    /// in the index of each field whose value differs between the two, from
    /// the old key to the new one. Where a new key of a unique index belongs
    /// to another record already, nothing changes and `record` comes back in
    /// the error.
    pub fn replace(&mut self, slot: usize, record: Record) -> (done: Result<Record, UniquenessError<Record>>)
        requires
            old(self).wf(),
            old(self)@.contains_key(slot),
            record.keys@.len() == old(self).kinds().len(),
        ensures
            final(self).wf(),
            final(self).kinds() == old(self).kinds(),
            match done {
                Ok(previous) => {
                    &&& !old(self).clashes(slot, record.keys@)
                    &&& previous == old(self)@[slot]
                    &&& final(self)@ == old(self)@.insert(slot, record)
                    &&& final(self).vacant() == old(self).vacant()
                    &&& forall|field: int|
                        0 <= field < old(self).kinds().len() && record.keys@[field] == previous.keys@[field]
                            ==> #[trigger] final(self).tables()[field] == old(self).tables()[field]
                },
                Err(refused) => {
                    &&& old(self).clashes(slot, record.keys@)
                    &&& refused.0 == record
                    &&& *final(self) == *old(self)
                },
            },
    {
        let n: usize = self.indexes.len();
        let mut i: usize = 0;
        while i < n
            invariant
                i <= n,
                n == self.tables().len(),
                *self == *old(self),
                self.wf(),
                record.keys@.len() == n,
                forall|j: int, other: usize|
                    0 <= j < i && self.kinds()[j].unique() && other != slot ==> !#[trigger] holds(
                        self@,
                        other,
                        j,
                        record.keys@[j],
                    ),
            decreases n - i,
        {
            match self.indexes[i].get_unique(record.keys[i]) {
                Some(other) => {
                    proof {
                        assert(self.index_slots(i as int, record.keys@[i as int]).contains(other));
                    }
                    if other != slot {
                        return Err(UniquenessError(record));
                    }
                    proof {
                        assert forall|s: usize| s != slot implies !#[trigger] holds(
                            self@,
                            s,
                            i as int,
                            record.keys@[i as int],
                        ) by {
                            if holds(self@, s, i as int, record.keys@[i as int]) {
                                assert(self.index_slots(i as int, record.keys@[i as int]).contains(s));
                            }
                        }
                    }
                },
                None => {
                    proof {
                        assert forall|s: usize| !#[trigger] holds(self@, s, i as int, record.keys@[i as int])
                            || !self.kinds()[i as int].unique() by {
                            if self.kinds()[i as int].unique() {
                                assert(!self.index_slots(i as int, record.keys@[i as int]).contains(s));
                            }
                        }
                    }
                },
            }
            i = i + 1;
        }
        let ghost to = record.keys@;
        let previous = self.store.replace(slot, record);
        proof {
            let from = previous.keys@;
            assert forall|j: int| 0 <= j < self.tables().len() implies (#[trigger] self.tables()[j]).slots(
                from[j],
            ).contains(slot) by {
                assert(holds(old(self)@, slot, j, from[j]));
                assert(old(self).index_slots(j, from[j]).contains(slot));
            }
            assert forall|j: int|
                0 <= j < self.tables().len() && (#[trigger] self.tables()[j]).kind().unique() && from[j]
                    != to[j] implies self.tables()[j].slots(to[j]).is_empty() by {
                assert(old(self).kinds()[j].unique());
                assert forall|s: usize| !old(self).index_slots(j, to[j]).contains(s) by {
                    if s != slot {
                        assert(!holds(old(self)@, s, j, to[j]));
                    } else {
                        assert(!holds(old(self)@, s, j, to[j]));
                    }
                }
                assert(old(self).index_slots(j, to[j]) == self.tables()[j].slots(to[j]));
                assert(old(self).index_slots(j, to[j]) =~= Set::<usize>::empty());
            }
        }
        move_all(&mut self.indexes, &previous.keys, &self.store.index(slot).keys, slot);
        proof {
            assert forall|field: int, key: u64, s: usize|
                0 <= field < self.kinds().len() implies (#[trigger] self.index_slots(field, key).contains(s)
                <==> holds(self@, s, field, key)) by {
                assert(old(self).index_slots(field, key).contains(s) <==> holds(old(self)@, s, field, key));
            }
            self.lemma_wf_from_parts();
        }
        Ok(previous)
    }

    /// Hands the record that has the value `key` in `field` to `change`, where
    /// `field` has a unique index, and puts what `change` returns in its
    /// place, as [`MultiIndexMap::replace`] does: a change that would give two
    /// records one key of a unique index is refused, and the record that was
    /// refused comes back in the error.
    pub fn modify_by_unique<F: FnOnce(&Record) -> Record>(
        &mut self,
        field: usize,
        key: u64,
        change: F,
    ) -> (done: Result<Option<&Record>, UniquenessError<Record>>)
        requires
            old(self).wf(),
            forall|slot: usize| #[trigger]
                holds(old(self)@, slot, field as int, key) ==> change.requires((&old(self)@[slot],)),
            forall|before: &Record, after: Record| #[trigger]
                change.ensures((before,), after) ==> after.keys@.len() == old(self).kinds().len(),
        ensures
            final(self).wf(),
            final(self).kinds() == old(self).kinds(),
            final(self).vacant() == old(self).vacant(),
            match done {
                Ok(Some(record)) => old(self).unique_field(field as int) && exists|slot: usize| #[trigger]
                    holds(old(self)@, slot, field as int, key) && change.ensures(
                        (&old(self)@[slot],),
                        *record,
                    ) && !old(self).clashes(slot, record.keys@) && final(self)@ == old(self)@.insert(
                        slot,
                        *record,
                    ),
                Ok(None) => *final(self) == *old(self) && (!old(self).unique_field(field as int)
                    || matching(old(self)@, field as int, key) == Set::<usize>::empty()),
                Err(refused) => *final(self) == *old(self) && old(self).unique_field(field as int)
                    && exists|slot: usize| #[trigger]
                    holds(old(self)@, slot, field as int, key) && change.ensures(
                        (&old(self)@[slot],),
                        refused.0,
                    ) && old(self).clashes(slot, refused.0.keys@),
            },
    {
        match self.slot_by_unique(field, key) {
            Some(slot) => {
                let changed = change(self.store.index(slot));
                match self.replace(slot, changed) {
                    Ok(_) => Ok(Some(self.store.index(slot))),
                    Err(refused) => Err(refused),
                }
            },
            None => Ok(None),
        }
    }

    /// What a run of changes through `field` and `key` that was refused had
    /// come to: the changes to the records in the slots below `stop` stood in
    /// `reached`, and there what `change` made of the record in `stop`, which
    /// is `refused`, would have shared a key of a unique index with another
    /// record.
    pub open spec fn refusal<F: Fn(&Record) -> Record>(
        &self,
        field: int,
        key: u64,
        change: F,
        stop: usize,
        reached: Map<usize, Record>,
        refused: Record,
    ) -> bool {
        &&& self.found(field, key).contains(stop)
        &&& reached.dom() == self@.dom()
        &&& forall|slot: usize| #[trigger]
            self@.contains_key(slot) ==> if self.found(field, key).contains(slot) && slot < stop {
                change.ensures((&self@[slot],), reached[slot])
            } else {
                reached[slot] == self@[slot]
            }
        &&& change.ensures((&self@[stop],), refused)
        &&& clash_in(reached, self.kinds(), stop, refused.keys@)
    }

    /// Puts the records of `undo` back into the first slots of `slots`, from
    /// the last to the first, so that the container holds what `base` held.
    fn restore(&mut self, slots: &Vec<usize>, undo: Vec<Record>, Ghost(base): Ghost<MultiIndexMap>)
        requires
            old(self).wf(),
            base.wf(),
            old(self).kinds() == base.kinds(),
            old(self)@.dom() == base@.dom(),
            ascending(slots@),
            undo@.len() <= slots@.len(),
            forall|j: int| 0 <= j < slots@.len() ==> base@.contains_key(#[trigger] slots@[j]),
            forall|j: int| 0 <= j < undo@.len() ==> #[trigger] undo@[j] == base@[slots@[j]],
            forall|slot: usize|
                base@.contains_key(slot) && !among(slots@, undo@.len() as int, slot) ==> #[trigger] old(
                    self,
                )@[slot] == base@[slot],
            forall|j: int, k: int, f: int|
                0 <= j < k < undo@.len() && base.unique_field(f) ==> old(self)@[#[trigger] slots@[j]].keys@[f]
                    != #[trigger] base@[slots@[k]].keys@[f],
        ensures
            final(self).wf(),
            final(self).kinds() == base.kinds(),
            final(self).vacant() == old(self).vacant(),
            final(self)@ == base@,
    {
        let mut undo = undo;
        let mut k: usize = undo.len();
        while k > 0
            invariant
                self.wf(),
                base.wf(),
                self.kinds() == base.kinds(),
                self.vacant() == old(self).vacant(),
                self@.dom() == base@.dom(),
                ascending(slots@),
                k == undo@.len(),
                k <= slots@.len(),
                forall|j: int| 0 <= j < slots@.len() ==> base@.contains_key(#[trigger] slots@[j]),
                forall|j: int| 0 <= j < k ==> #[trigger] undo@[j] == base@[slots@[j]],
                forall|slot: usize|
                    base@.contains_key(slot) && !among(slots@, k as int, slot) ==> #[trigger] self@[slot]
                        == base@[slot],
                forall|j: int, l: int, f: int|
                    0 <= j < l < k && base.unique_field(f) ==> self@[#[trigger] slots@[j]].keys@[f]
                        != #[trigger] base@[slots@[l]].keys@[f],
            decreases k,
        {
            k = k - 1;
            let slot: usize = slots[k];
            let ghost mid = *self;
            let previous = match undo.pop() {
                Some(previous) => previous,
                None => unreached(),
            };
            proof {
                assert forall|f: int, other: usize|
                    0 <= f < self.kinds().len() && self.kinds()[f].unique() && other != slot implies !#[trigger] holds(
                    self@,
                    other,
                    f,
                    previous.keys@[f],
                ) by {
                    if holds(self@, other, f, previous.keys@[f]) {
                        if among(slots@, k as int, other) {
                            let j = choose|j: int| 0 <= j < k && #[trigger] slots@[j] == other;
                            assert(self@[slots@[j]].keys@[f] != base@[slots@[k as int]].keys@[f]);
                        } else {
                            if !among(slots@, k + 1, other) {
                                assert(self@[other] == base@[other]);
                            } else {
                                let j = choose|j: int| 0 <= j < k + 1 && #[trigger] slots@[j] == other;
                                assert(j == k);
                            }
                            assert(holds(base@, other, f, previous.keys@[f]));
                            assert(holds(base@, slot, f, previous.keys@[f]));
                            assert(base.index_slots(f, previous.keys@[f]).contains(other));
                            assert(base.index_slots(f, previous.keys@[f]).contains(slot));
                        }
                    }
                }
            }
            match self.replace(slot, previous) {
                Ok(_) => {},
                Err(_) => {
                    assert(false);
                },
            }
            proof {
                assert forall|other: usize|
                    base@.contains_key(other) && !among(slots@, k as int, other) implies #[trigger] self@[other]
                    == base@[other] by {
                    if other != slot {
                        if among(slots@, k + 1, other) {
                            let j = choose|j: int| 0 <= j < k + 1 && #[trigger] slots@[j] == other;
                            assert(j < k);
                            assert(among(slots@, k as int, other));
                        }
                        assert(mid@[other] == base@[other]);
                    }
                }
                assert forall|j: int, l: int, f: int|
                    0 <= j < l < k && base.unique_field(f) implies self@[#[trigger] slots@[j]].keys@[f]
                    != #[trigger] base@[slots@[l]].keys@[f] by {
                    assert(slots@[j] < slots@[k as int]);
                    assert(self@[slots@[j]] == mid@[slots@[j]]);
                }
            }
        }
        proof {
            assert forall|slot: usize| base@.contains_key(slot) implies #[trigger] self@[slot] == base@[slot] by {
                assert(!among(slots@, 0, slot));
            }
        }
    }

    /// Hands each record that has the value `key` in `field` to `change`, from
    /// the lowest slot to the highest, and puts what `change` returns in its
    /// place, as [`MultiIndexMap::replace`] does. Where one of the changes
    /// would give two records one key of a unique index, none of them is
    /// kept: the records that were changed before are put back, and the record
    /// that was refused comes back in the error.
    pub fn modify_by_non_unique<F: Fn(&Record) -> Record>(
        &mut self,
        field: usize,
        key: u64,
        change: F,
    ) -> (done: Result<Vec<&Record>, UniquenessError<Record>>)
        requires
            old(self).wf(),
            forall|slot: usize| #[trigger]
                holds(old(self)@, slot, field as int, key) ==> change.requires((&old(self)@[slot],)),
            forall|before: &Record, after: Record| #[trigger]
                change.ensures((before,), after) ==> after.keys@.len() == old(self).kinds().len(),
        ensures
            final(self).wf(),
            final(self).kinds() == old(self).kinds(),
            final(self).vacant() == old(self).vacant(),
            match done {
                Ok(records) => {
                    &&& final(self)@.dom() == old(self)@.dom()
                    &&& forall|slot: usize| #[trigger]
                        old(self)@.contains_key(slot) ==> if old(self).found(field as int, key).contains(slot) {
                            change.ensures((&old(self)@[slot],), final(self)@[slot])
                        } else {
                            final(self)@[slot] == old(self)@[slot]
                        }
                    &&& lists(
                        records@.map_values(|record: &Record| *record),
                        final(self)@,
                        old(self).found(field as int, key),
                    )
                },
                Err(refused) => {
                    &&& final(self)@ == old(self)@
                    &&& exists|stop: usize, reached: Map<usize, Record>| #[trigger]
                        old(self).refusal(field as int, key, change, stop, reached, refused.0)
                },
            },
    {
        let slots = self.slots_by(field, key);
        let ghost found = old(self).found(field as int, key);
        let mut undo: Vec<Record> = Vec::new();
        let mut failure: Option<UniquenessError<Record>> = None;
        let n: usize = slots.len();
        let mut i: usize = 0;
        while i < n && failure.is_none()
            invariant
                i <= n,
                n == slots@.len(),
                undo@.len() == i,
                ascending(slots@),
                slots@.to_set() == found,
                found == old(self).found(field as int, key),
                old(self).wf(),
                self.wf(),
                self.kinds() == old(self).kinds(),
                self.vacant() == old(self).vacant(),
                self@.dom() == old(self)@.dom(),
                forall|slot: usize| #[trigger]
                    holds(old(self)@, slot, field as int, key) ==> change.requires((&old(self)@[slot],)),
                forall|before: &Record, after: Record| #[trigger]
                    change.ensures((before,), after) ==> after.keys@.len() == old(self).kinds().len(),
                forall|slot: usize|
                    old(self)@.contains_key(slot) && !found.contains(slot) ==> #[trigger] self@[slot] == old(
                        self,
                    )@[slot],
                forall|j: int| 0 <= j < i ==> #[trigger] undo@[j] == old(self)@[slots@[j]],
                forall|j: int|
                    0 <= j < n ==> if j < i {
                        change.ensures((&old(self)@[#[trigger] slots@[j]],), self@[slots@[j]])
                    } else {
                        self@[slots@[j]] == old(self)@[slots@[j]]
                    },
                forall|j: int, k: int, f: int|
                    0 <= j < i && j < k < n && old(self).unique_field(f) ==> self@[#[trigger] slots@[j]].keys@[f]
                        != #[trigger] old(self)@[slots@[k]].keys@[f],
                failure matches Some(refused) ==> i < n && old(self).refusal(
                    field as int,
                    key,
                    change,
                    slots@[i as int],
                    self@,
                    refused.0,
                ),
            decreases n - i, if failure is None { 1int } else { 0int },
        {
            let slot: usize = slots[i];
            proof {
                assert(slots@.to_set().contains(slot));
            }
            let ghost mid = self@;
            let changed = change(self.store.index(slot));
            match self.replace(slot, changed) {
                Ok(previous) => {
                    undo.push(previous);
                    proof {
                        assert forall|j: int| 0 <= j < n implies if j < i + 1 {
                            change.ensures((&old(self)@[#[trigger] slots@[j]],), self@[slots@[j]])
                        } else {
                            self@[slots@[j]] == old(self)@[slots@[j]]
                        } by {
                            if j != i {
                                assert(slots@[j] != slots@[i as int]);
                                assert(self@[slots@[j]] == mid[slots@[j]]);
                            }
                        }
                        assert forall|j: int, k: int, f: int|
                            0 <= j < i + 1 && j < k < n && old(self).unique_field(f) implies self@[#[trigger] slots@[j]].keys@[f]
                            != #[trigger] old(self)@[slots@[k]].keys@[f] by {
                            if j == i {
                                assert(slots@[i as int] < slots@[k]);
                                assert(mid[slots@[k]] == old(self)@[slots@[k]]);
                                assert(slots@.to_set().contains(slots@[k]));
                                if changed.keys@[f] == old(self)@[slots@[k]].keys@[f] {
                                    assert(holds(mid, slots@[k], f, changed.keys@[f]));
                                }
                            } else {
                                assert(slots@[j] < slots@[i as int]);
                                assert(self@[slots@[j]] == mid[slots@[j]]);
                            }
                        }
                    }
                    i = i + 1;
                },
                Err(refused) => {
                    proof {
                        assert forall|s: usize| #[trigger] old(self)@.contains_key(s) implies if found.contains(
                            s,
                        ) && s < slot {
                            change.ensures((&old(self)@[s],), mid[s])
                        } else {
                            mid[s] == old(self)@[s]
                        } by {
                            if found.contains(s) {
                                let j = choose|j: int| 0 <= j < slots@.len() && slots@[j] == s;
                                assert(slots@[j] == s);
                                if j < i {
                                    assert(slots@[j] < slots@[i as int]);
                                } else if j > i {
                                    assert(slots@[i as int] < slots@[j]);
                                }
                            }
                        }
                    }
                    failure = Some(refused);
                },
            }
        }
        proof {
            assert forall|j: int| 0 <= j < slots@.len() implies old(self)@.contains_key(
                #[trigger] slots@[j],
            ) by {
                assert(slots@.to_set().contains(slots@[j]));
            }
        }
        match failure {
            Some(refused) => {
                proof {
                    assert forall|s: usize|
                        old(self)@.contains_key(s) && !among(slots@, i as int, s) implies #[trigger] self@[s]
                        == old(self)@[s] by {
                        if found.contains(s) {
                            let j = choose|j: int| 0 <= j < slots@.len() && slots@[j] == s;
                            assert(slots@[j] == s);
                            if j < i {
                                assert(among(slots@, i as int, s));
                            }
                        }
                    }
                }
                let ghost reached = self@;
                self.restore(&slots, undo, Ghost(*old(self)));
                let done: Result<Vec<&Record>, UniquenessError<Record>> = Err(refused);
                assert(done matches Err(error) && old(self).refusal(
                    field as int,
                    key,
                    change,
                    slots@[i as int],
                    reached,
                    error.0,
                ));
                done
            },
            None => {
                proof {
                    assert forall|slot: usize| #[trigger] old(self)@.contains_key(slot) implies if found.contains(
                        slot,
                    ) {
                        change.ensures((&old(self)@[slot],), self@[slot])
                    } else {
                        self@[slot] == old(self)@[slot]
                    } by {
                        if found.contains(slot) {
                            let j = choose|j: int| 0 <= j < slots@.len() && slots@[j] == slot;
                            assert(slots@[j] == slot);
                        }
                    }
                }
                let records = self.collect(&slots);
                Ok(records)
            },
        }
    }
}

} // verus!
