//! Walking all records.
use vstd::prelude::*;
use crate::iter::FieldIter;
use crate::map::MultiIndexMap;
use crate::model::holds;
use crate::model::traverses;
use crate::order::ascending;

verus! {

impl MultiIndexMap {
    /// A walk through all records, from the lowest slot to the highest.
    pub fn iter<'a>(&'a self) -> (iter: FieldIter<'a>)
        requires
            self.wf(),
        ensures
            iter.wf(),
            iter.model() == self@,
            ascending(iter.remaining()),
            iter.remaining().to_set() == self@.dom(),
    {
        let slots = self.store.slots();
        proof {
            assert forall|i: int| 0 <= i < slots@.len() implies self@.contains_key(
                #[trigger] slots@[i],
            ) by {
                assert(slots@.to_set().contains(slots@[i]));
            }
        }
        FieldIter::new(&self.store, slots)
    }

    /// A walk through all records by the index of `field`: key by key in the
    /// order of the index, and under one key from the lowest slot to the
    /// highest. A sorted index goes from the lowest key to the highest; a
    /// hashed one in whatever order its table is walked. Where `field` has no
    /// index the walk is empty.
    pub fn iter_by<'a>(&'a self, field: usize) -> (iter: FieldIter<'a>)
        requires
            self.wf(),
        ensures
            iter.wf(),
            iter.model() == self@,
            if self.indexed_field(field as int) {
                traverses(self@, field as int, self.kinds()[field as int].ordered(), iter.remaining())
            } else {
                iter.remaining() == Seq::<usize>::empty()
            },
    {
        if field >= self.indexes.len() {
            return FieldIter::new(&self.store, Vec::new());
        }
        let entries = self.indexes[field].entries();
        let mut slots: Vec<usize> = Vec::new();
        let n: usize = entries.len();
        let mut i: usize = 0;
        while i < n
            invariant
                i <= n,
                n == entries@.len(),
                slots@.len() == i,
                forall|j: int| 0 <= j < i ==> #[trigger] slots@[j] == entries@[j].1,
            decreases n - i,
        {
            slots.push(entries[i].1);
            i = i + 1;
        }
        proof {
            let f = field as int;
            let index = self.tables()[f];
            assert forall|j: int| 0 <= j < n implies holds(self@, #[trigger] slots@[j], f, entries@[j].0) by {
                assert(index.slots(entries@[j].0).contains(entries@[j].1));
                assert(self.index_slots(f, entries@[j].0).contains(slots@[j]));
            }
            assert forall|a: int, b: int| 0 <= a < b < slots@.len() implies slots@[a] != slots@[b] by {
                assert(holds(self@, slots@[a], f, entries@[a].0));
                assert(holds(self@, slots@[b], f, entries@[b].0));
                if slots@[a] == slots@[b] {
                    assert(entries@[a].0 == entries@[b].0);
                    assert(entries@[a].1 < entries@[b].1);
                }
            }
            assert forall|slot: usize| self@.dom().contains(slot) implies slots@.to_set().contains(slot) by {
                let key = self@[slot].keys@[f];
                assert(holds(self@, slot, f, key));
                assert(self.index_slots(f, key).contains(slot));
                assert(entries@.contains((key, slot)));
                let j = choose|j: int| 0 <= j < entries@.len() && entries@[j] == (key, slot);
                assert(slots@[j] == slot);
            }
            assert forall|slot: usize| slots@.to_set().contains(slot) implies self@.dom().contains(slot) by {
                let j = choose|j: int| 0 <= j < slots@.len() && slots@[j] == slot;
                assert(holds(self@, slots@[j], f, entries@[j].0));
            }
            assert(slots@.to_set() =~= self@.dom());
            assert forall|a: int, b: int|
                0 <= a < b < slots@.len() && self@[#[trigger] slots@[a]].keys@[f] == self@[#[trigger] slots@[b]].keys@[f]
                implies slots@[a] < slots@[b] by {
                assert(holds(self@, slots@[a], f, entries@[a].0));
                assert(holds(self@, slots@[b], f, entries@[b].0));
                assert(entries@[a].1 < entries@[b].1);
            }
            assert forall|a: int, b: int, c: int|
                0 <= a < b < c < slots@.len() && self@[#[trigger] slots@[a]].keys@[f] == self@[#[trigger] slots@[c]].keys@[f]
                implies self@[#[trigger] slots@[b]].keys@[f] == self@[slots@[a]].keys@[f] by {
                assert(holds(self@, slots@[a], f, entries@[a].0));
                assert(holds(self@, slots@[b], f, entries@[b].0));
                assert(holds(self@, slots@[c], f, entries@[c].0));
                assert(entries@[b].0 == entries@[a].0);
            }
            if self.kinds()[f].ordered() {
                assert forall|a: int, b: int| 0 <= a < b < slots@.len() implies self@[#[trigger] slots@[a]].keys@[f]
                    <= self@[#[trigger] slots@[b]].keys@[f] by {
                    assert(holds(self@, slots@[a], f, entries@[a].0));
                    assert(holds(self@, slots@[b], f, entries@[b].0));
                    assert(entries@[a].0 <= entries@[b].0);
                }
            }
            assert forall|j: int| 0 <= j < slots@.len() implies self@.contains_key(#[trigger] slots@[j]) by {
                assert(holds(self@, slots@[j], f, entries@[j].0));
            }
        }
        FieldIter::new(&self.store, slots)
    }
}

} // verus!
