//! Walking the records: in slot order, or in the order of one of the indexes.
use vstd::prelude::*;
use crate::arena::Arena;
use crate::record::Record;

verus! {

/// A walk through some of the records of a container, open at both ends.
///
/// The walk is fixed when it is made. Each step looks its record up in the
/// arena, from the front or from the back.
#[derive(Debug)]
pub struct FieldIter<'a> {
    store: &'a Arena,
    slots: Vec<usize>,
    front: usize,
    back: usize,
}

impl<'a> View for FieldIter<'a> {
    type V = Seq<Record>;

    /// The records still to come, in the order in which `next` gives them.
    open spec fn view(&self) -> Seq<Record> {
        self.remaining().map_values(|slot: usize| self.model()[slot])
    }
}

impl<'a> FieldIter<'a> {
    /// The records of the container that is walked, each under its slot.
    pub closed spec fn model(&self) -> Map<usize, Record> {
        self.store@
    }

    /// The slots still to come, in the order in which `next` visits them.
    pub closed spec fn remaining(&self) -> Seq<usize> {
        self.slots@.subrange(self.front as int, self.back as int)
    }

    /// Every slot still to come holds a record.
    pub closed spec fn wf(&self) -> bool {
        &&& self.front <= self.back <= self.slots@.len()
        &&& forall|i: int| 0 <= i < self.slots@.len() ==> self.store@.contains_key(#[trigger] self.slots@[i])
    }

    /// A walk through `slots` in the order given.
    pub fn new(store: &'a Arena, slots: Vec<usize>) -> (iter: FieldIter<'a>)
        requires
            forall|i: int| 0 <= i < slots@.len() ==> store@.contains_key(#[trigger] slots@[i]),
        ensures
            iter.wf(),
            iter.model() == store@,
            iter.remaining() == slots@,
    {
        let back: usize = slots.len();
        FieldIter { store, slots, front: 0, back }
    }

    /// How many records are still to come.
    pub fn len(&self) -> (n: usize)
        requires
            self.wf(),
        ensures
            n == self.remaining().len(),
            n == self@.len(),
    {
        self.back - self.front
    }

    /// The next record from the front.
    pub fn next(&mut self) -> (record: Option<&'a Record>)
        requires
            old(self).wf(),
        ensures
            final(self).wf(),
            final(self).model() == old(self).model(),
            match record {
                Some(record) => {
                    &&& old(self).remaining().len() > 0
                    &&& *record == old(self)@[0]
                    &&& final(self).remaining() == old(self).remaining().drop_first()
                },
                None => old(self).remaining().len() == 0 && final(self).remaining() == old(self).remaining(),
            },
    {
        if self.front < self.back {
            let slot: usize = self.slots[self.front];
            self.front = self.front + 1;
            Some(self.store.index(slot))
        } else {
            None
        }
    }

    /// The next record from the back.
    pub fn next_back(&mut self) -> (record: Option<&'a Record>)
        requires
            old(self).wf(),
        ensures
            final(self).wf(),
            final(self).model() == old(self).model(),
            match record {
                Some(record) => {
                    &&& old(self).remaining().len() > 0
                    &&& *record == old(self)@.last()
                    &&& final(self).remaining() == old(self).remaining().drop_last()
                },
                None => old(self).remaining().len() == 0 && final(self).remaining() == old(self).remaining(),
            },
    {
        if self.front < self.back {
            self.back = self.back - 1;
            let slot: usize = self.slots[self.back];
            Some(self.store.index(slot))
        } else {
            None
        }
    }

    /// The walk through what is still to come, from the other end.
    pub fn reversed(self) -> (iter: FieldIter<'a>)
        requires
            self.wf(),
        ensures
            iter.wf(),
            iter.model() == self.model(),
            iter.remaining() == self.remaining().reverse(),
            iter@ == self@.reverse(),
    {
        let mut slots: Vec<usize> = Vec::new();
        let mut i: usize = self.back;
        while i > self.front
            invariant
                self.wf(),
                self.front <= i <= self.back,
                slots@.len() == self.back - i,
                forall|j: int| 0 <= j < slots@.len() ==> #[trigger] slots@[j] == self.slots@[self.back - 1 - j],
            decreases i,
        {
            i = i - 1;
            slots.push(self.slots[i]);
        }
        FieldIter::new(self.store, slots)
    }

    /// The records still to come, in the order in which `next` would give
    /// them.
    pub fn collect(self) -> (records: Vec<&'a Record>)
        requires
            self.wf(),
        ensures
            records@.map_values(|record: &Record| *record) == self@,
    {
        let mut records: Vec<&'a Record> = Vec::new();
        let mut i: usize = self.front;
        while i < self.back
            invariant
                self.wf(),
                self.front <= i <= self.back,
                records@.len() == i - self.front,
                forall|j: int| 0 <= j < records@.len() ==> *(#[trigger] records@[j]) == self.store@[self.slots@[self.front + j]],
            decreases self.back - i,
        {
            records.push(self.store.index(self.slots[i]));
            i = i + 1;
        }
        records
    }
}

} // verus!
