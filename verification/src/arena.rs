//! The backing store: records in stable, reusable slots.
use vstd::prelude::*;
use vstd::pervasive::unreached;
use crate::order::ascending;
use crate::record::Record;

verus! {

#[verifier::external_type_specification]
#[verifier::external_body]
#[verifier::reject_recursive_types(T)]
pub struct ExSlab<T>(slab::Slab<T>);

/// The records that a slab holds, each under the slot it occupies.
pub uninterp spec fn slab_entries(s: slab::Slab<Record>) -> Map<usize, Record>;

/// The slot that the next record put into a slab will get.
pub uninterp spec fn slab_vacant(s: slab::Slab<Record>) -> usize;

/// The largest number of slots that may be asked for in one call of
/// [`Arena::with_capacity`] or [`Arena::reserve`].
pub const MAX_RESERVE: usize = 0x0100_0000;

/// `Slab::with_capacity`: a slab that holds nothing. The bound keeps the
/// request below the size at which the allocation is refused.
#[verifier::external_body]
fn slab_with_capacity(capacity: usize) -> (s: slab::Slab<Record>)
    requires
        capacity <= MAX_RESERVE,
    ensures
        slab_entries(s).dom() == Set::<usize>::empty(),
        slab_vacant(s) == 0,
{
    slab::Slab::with_capacity(capacity)
}

/// `Slab::insert`: the record goes into the slot that was next to be given
/// out, which was vacant and whose number is returned; every other slot stays
/// as it was.
#[verifier::external_body]
fn slab_insert(s: &mut slab::Slab<Record>, record: Record) -> (slot: usize)
    ensures
        slot == slab_vacant(*old(s)),
        !slab_entries(*old(s)).contains_key(slot),
        slab_entries(*final(s)) == slab_entries(*old(s)).insert(slot, record),
{
    s.insert(record)
}

/// `Slab::try_remove`: the record in `slot` is taken out and the slot is left
/// vacant, the next to be given out; a vacant slot gives `None` and changes
/// nothing.
#[verifier::external_body]
fn slab_try_remove(s: &mut slab::Slab<Record>, slot: usize) -> (taken: Option<Record>)
    ensures
        taken == slab_entries(*old(s)).get(slot),
        slab_entries(*final(s)) == slab_entries(*old(s)).remove(slot),
        slab_vacant(*final(s)) == if taken is Some { slot } else { slab_vacant(*old(s)) },
{
    s.try_remove(slot)
}

/// `Slab::get`: the record in `slot`, or `None` where the slot is vacant.
#[verifier::external_body]
fn slab_get(s: &slab::Slab<Record>, slot: usize) -> (found: Option<&Record>)
    ensures
        match found {
            Some(record) => slab_entries(*s).contains_key(slot) && *record == slab_entries(*s)[slot],
            None => !slab_entries(*s).contains_key(slot),
        },
{
    s.get(slot)
}

/// `Slab::get_mut`: the record in `slot`, open to change in place. What the
/// caller leaves in it is what the slot then holds; no other slot is touched.
#[verifier::external_body]
fn slab_get_mut(s: &mut slab::Slab<Record>, slot: usize) -> (found: Option<&mut Record>)
    ensures
        match found {
            Some(record) => slab_entries(*old(s)).contains_key(slot)
                && *record == slab_entries(*old(s))[slot]
                && slab_entries(*final(s)) == slab_entries(*old(s)).insert(slot, *final(record)),
            None => !slab_entries(*old(s)).contains_key(slot)
                && slab_entries(*final(s)) == slab_entries(*old(s)),
        },
        slab_vacant(*final(s)) == slab_vacant(*old(s)),
{
    s.get_mut(slot)
}

/// `Slab::len`: the number of occupied slots.
#[verifier::external_body]
fn slab_len(s: &slab::Slab<Record>) -> (n: usize)
    ensures
        n == slab_entries(*s).len(),
{
    s.len()
}

/// `Slab::capacity`: room for at least the records that are stored.
#[verifier::external_body]
fn slab_capacity(s: &slab::Slab<Record>) -> (n: usize)
    ensures
        n >= slab_entries(*s).len(),
{
    s.capacity()
}

/// `Slab::reserve`: the records stay where they are. The bound keeps the
/// request below the size at which the allocation is refused.
#[verifier::external_body]
fn slab_reserve(s: &mut slab::Slab<Record>, additional: usize)
    requires
        additional <= MAX_RESERVE,
    ensures
        slab_entries(*final(s)) == slab_entries(*old(s)),
        slab_vacant(*final(s)) == slab_vacant(*old(s)),
{
    s.reserve(additional)
}

/// `Slab::vacant_key`: the slot that the next record will get, which is
/// vacant.
#[verifier::external_body]
fn slab_vacant_key(s: &slab::Slab<Record>) -> (slot: usize)
    ensures
        slot == slab_vacant(*s),
        !slab_entries(*s).contains_key(slot),
{
    s.vacant_key()
}

/// `Slab::shrink_to_fit`: the records stay where they are. Which slot is next
/// to be given out may change.
#[verifier::external_body]
fn slab_shrink_to_fit(s: &mut slab::Slab<Record>)
    ensures
        slab_entries(*final(s)) == slab_entries(*old(s)),
{
    s.shrink_to_fit()
}

/// `Slab::clear`: every slot is vacant afterwards.
#[verifier::external_body]
fn slab_clear(s: &mut slab::Slab<Record>)
    ensures
        slab_entries(*final(s)).dom() == Set::<usize>::empty(),
        slab_vacant(*final(s)) == 0,
{
    s.clear()
}

/// `Slab::iter`: the occupied slots, each once, from the lowest to the highest.
#[verifier::external_body]
fn slab_slots(s: &slab::Slab<Record>) -> (slots: Vec<usize>)
    ensures
        ascending(slots@),
        slots@.to_set() == slab_entries(*s).dom(),
{
    s.iter().map(|entry| entry.0).collect()
}

/// `Slab::clone`: a slab of its own, filled with clones of the records. Nothing
/// is claimed of it.
pub assume_specification<T>[ <slab::Slab<T> as Clone>::clone ](s: &slab::Slab<T>) -> (copy: slab::Slab<T>)
    where T: Clone,
;

/// The store that owns every record. A slot keeps its number for as long as
/// its record stays; once the record is removed the slot may be given to a
/// later one.
#[derive(Clone, Debug)]
pub struct Arena {
    slab: slab::Slab<Record>,
}

impl View for Arena {
    type V = Map<usize, Record>;

    closed spec fn view(&self) -> Map<usize, Record> {
        slab_entries(self.slab)
    }
}

impl Arena {
    /// Only finitely many slots are occupied.
    pub open spec fn wf(&self) -> bool {
        self@.dom().finite()
    }

    /// The slot that the next record will get.
    pub closed spec fn vacant(&self) -> usize {
        slab_vacant(self.slab)
    }

    /// An empty arena.
    pub fn new() -> (arena: Arena)
        ensures
            arena.wf(),
            arena@ == Map::<usize, Record>::empty(),
            arena.vacant() == 0,
    {
        Arena { slab: slab_with_capacity(0) }
    }

    /// An empty arena with room for `capacity` records.
    pub fn with_capacity(capacity: usize) -> (arena: Arena)
        requires
            capacity <= MAX_RESERVE,
        ensures
            arena.wf(),
            arena@ == Map::<usize, Record>::empty(),
            arena.vacant() == 0,
    {
        Arena { slab: slab_with_capacity(capacity) }
    }

    /// The slot that the next record will get: the one that was vacated last,
    /// if it is still vacant.
    pub fn vacant_slot(&self) -> (slot: usize)
        ensures
            slot == self.vacant(),
            !self@.contains_key(slot),
    {
        slab_vacant_key(&self.slab)
    }

    /// Stores `record` in the slot that is next to be given out, and returns
    /// the slot.
    pub fn insert(&mut self, record: Record) -> (slot: usize)
        requires
            old(self).wf(),
        ensures
            final(self).wf(),
            slot == old(self).vacant(),
            !old(self)@.contains_key(slot),
            final(self)@ == old(self)@.insert(slot, record),
    {
        slab_insert(&mut self.slab, record)
    }

    /// Takes the record out of `slot`, which becomes vacant and the next to
    /// be given out.
    pub fn remove(&mut self, slot: usize) -> (record: Record)
        requires
            old(self).wf(),
            old(self)@.contains_key(slot),
        ensures
            final(self).wf(),
            record == old(self)@[slot],
            final(self)@ == old(self)@.remove(slot),
            final(self).vacant() == slot,
    {
        match slab_try_remove(&mut self.slab, slot) {
            Some(record) => record,
            None => unreached(),
        }
    }

    /// Takes the record out of `slot` if there is one.
    pub fn try_remove(&mut self, slot: usize) -> (taken: Option<Record>)
        requires
            old(self).wf(),
        ensures
            final(self).wf(),
            taken == old(self)@.get(slot),
            final(self)@ == old(self)@.remove(slot),
            final(self).vacant() == if taken is Some { slot } else { old(self).vacant() },
    {
        slab_try_remove(&mut self.slab, slot)
    }

    /// The record in `slot`, if the slot is occupied.
    pub fn get(&self, slot: usize) -> (found: Option<&Record>)
        ensures
            match found {
                Some(record) => self@.contains_key(slot) && *record == self@[slot],
                None => !self@.contains_key(slot),
            },
    {
        slab_get(&self.slab, slot)
    }

    /// The record in `slot`, which is known to be occupied.
    pub fn index(&self, slot: usize) -> (record: &Record)
        requires
            self@.contains_key(slot),
        ensures
            *record == self@[slot],
    {
        match slab_get(&self.slab, slot) {
            Some(record) => record,
            None => unreached(),
        }
    }

    /// Whether `slot` is occupied.
    pub fn contains(&self, slot: usize) -> (occupied: bool)
        ensures
            occupied == self@.contains_key(slot),
    {
        slab_get(&self.slab, slot).is_some()
    }

    /// The record in `slot`, open to change in place. Whatever it is changed
    /// to is what the slot holds afterwards.
    pub fn get_mut(&mut self, slot: usize) -> (found: Option<&mut Record>)
        requires
            old(self).wf(),
        ensures
            match found {
                Some(record) => old(self)@.contains_key(slot) && *record == old(self)@[slot]
                    && final(self)@ == old(self)@.insert(slot, *final(record)),
                None => !old(self)@.contains_key(slot) && final(self)@ == old(self)@,
            },
            final(self).wf(),
            final(self).vacant() == old(self).vacant(),
    {
        slab_get_mut(&mut self.slab, slot)
    }

    /// Puts `record` in the place of the record in `slot`, which is returned.
    pub fn replace(&mut self, slot: usize, record: Record) -> (previous: Record)
        requires
            old(self).wf(),
            old(self)@.contains_key(slot),
        ensures
            final(self).wf(),
            previous == old(self)@[slot],
            final(self)@ == old(self)@.insert(slot, record),
            final(self).vacant() == old(self).vacant(),
    {
        let mut record = record;
        match slab_get_mut(&mut self.slab, slot) {
            Some(place) => {
                core::mem::swap(place, &mut record);
            },
            None => {},
        }
        record
    }

    /// The number of records stored.
    pub fn len(&self) -> (n: usize)
        ensures
            n == self@.len(),
    {
        slab_len(&self.slab)
    }

    pub fn is_empty(&self) -> (empty: bool)
        requires
            self.wf(),
        ensures
            empty == (self@ == Map::<usize, Record>::empty()),
    {
        let n: usize = slab_len(&self.slab);
        proof {
            if n == 0 {
                assert(self@.dom() =~= Set::<usize>::empty());
                assert(self@ =~= Map::<usize, Record>::empty());
            } else {
                assert(self@.len() != 0);
            }
        }
        n == 0
    }

    /// How many records the arena has room for before it must grow.
    pub fn capacity(&self) -> (n: usize)
        ensures
            n >= self@.len(),
    {
        slab_capacity(&self.slab)
    }

    /// Makes room for `additional` more records.
    pub fn reserve(&mut self, additional: usize)
        requires
            additional <= MAX_RESERVE,
        ensures
            final(self)@ == old(self)@,
            final(self).vacant() == old(self).vacant(),
    {
        slab_reserve(&mut self.slab, additional)
    }

    /// Gives back the room that no record needs.
    pub fn shrink_to_fit(&mut self)
        ensures
            final(self)@ == old(self)@,
    {
        slab_shrink_to_fit(&mut self.slab)
    }

    /// Drops every record.
    pub fn clear(&mut self)
        ensures
            final(self).wf(),
            final(self)@ == Map::<usize, Record>::empty(),
            final(self).vacant() == 0,
    {
        slab_clear(&mut self.slab);
    }

    /// The occupied slots, from the lowest to the highest.
    pub fn slots(&self) -> (slots: Vec<usize>)
        ensures
            ascending(slots@),
            slots@.to_set() == self@.dom(),
    {
        slab_slots(&self.slab)
    }

    /// Every occupied slot with its record, from the lowest slot to the
    /// highest.
    pub fn iter(&self) -> (entries: Vec<(usize, &Record)>)
        ensures
            ascending(entries@.map_values(|entry: (usize, &Record)| entry.0)),
            entries@.map_values(|entry: (usize, &Record)| entry.0).to_set() == self@.dom(),
            forall|i: int| 0 <= i < entries@.len() ==> *(#[trigger] entries@[i]).1 == self@[entries@[i].0],
    {
        let slots = slab_slots(&self.slab);
        let mut entries: Vec<(usize, &Record)> = Vec::new();
        let n: usize = slots.len();
        let mut i: usize = 0;
        while i < n
            invariant
                i <= n,
                n == slots@.len(),
                slots@.to_set() == self@.dom(),
                entries@.len() == i,
                forall|j: int|
                    0 <= j < i ==> (#[trigger] entries@[j]).0 == slots@[j] && *entries@[j].1 == self@[slots@[j]],
            decreases n - i,
        {
            entries.push((slots[i], self.index(slots[i])));
            i = i + 1;
        }
        assert(entries@.map_values(|entry: (usize, &Record)| entry.0) =~= slots@);
        entries
    }
}

} // verus!
