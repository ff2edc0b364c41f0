//! The words in which the container's contracts are stated: what it means for
//! a slot to hold a key, for a list to follow the slots, for a walk to follow
//! an index.
use vstd::prelude::*;
use crate::kind::IndexKind;
use crate::order::ascending;
use crate::record::Record;

verus! {


/// Whether `slot` holds a record whose indexed field `field` has the value
/// `key`.
pub open spec fn holds(model: Map<usize, Record>, slot: usize, field: int, key: u64) -> bool {
    model.contains_key(slot) && model[slot].keys@[field] == key
}

/// The slots whose record has the value `key` in indexed field `field`.
pub open spec fn matching(model: Map<usize, Record>, field: int, key: u64) -> Set<usize> {
    Set::new(|slot: usize| holds(model, slot, field, key))
}

/// The record behind a reference that may be there.
pub open spec fn owned(found: Option<&Record>) -> Option<Record> {
    match found {
        Some(record) => Some(*record),
        None => None,
    }
}

/// `out` lists the records that `model` holds in `slots`, from the lowest slot
/// to the highest.
pub open spec fn lists(out: Seq<Record>, model: Map<usize, Record>, slots: Set<usize>) -> bool {
    exists|order: Seq<usize>| #[trigger]
        ascending(order) && order.to_set() == slots && out == order.map_values(
            |slot: usize| model[slot],
        )
}

/// `slots` is a walk through `model` by the index of `field`: every occupied
/// slot once, the slots whose records share the field's value together and
/// rising, and where the index is sorted the values rising too.
pub open spec fn traverses(model: Map<usize, Record>, field: int, ordered: bool, slots: Seq<usize>) -> bool {
    &&& slots.no_duplicates()
    &&& slots.to_set() == model.dom()
    &&& forall|i: int, j: int|
        0 <= i < j < slots.len() && model[#[trigger] slots[i]].keys@[field] == model[#[trigger] slots[j]].keys@[field]
            ==> slots[i] < slots[j]
    &&& forall|i: int, j: int, l: int|
        0 <= i < j < l < slots.len() && model[#[trigger] slots[i]].keys@[field] == model[#[trigger] slots[l]].keys@[field]
            ==> model[#[trigger] slots[j]].keys@[field] == model[slots[i]].keys@[field]
    &&& ordered ==> forall|i: int, j: int|
        0 <= i < j < slots.len() ==> model[#[trigger] slots[i]].keys@[field] <= model[#[trigger] slots[j]].keys@[field]
}

/// Whether a record with these keys, were it to stand in `slot`, would share
/// a key of a unique index with the record that `model` holds in another slot.
pub open spec fn clash_in(model: Map<usize, Record>, kinds: Seq<IndexKind>, slot: usize, keys: Seq<u64>) -> bool {
    exists|field: int, other: usize|
        0 <= field < kinds.len() && kinds[field].unique() && other != slot && #[trigger] holds(
            model,
            other,
            field,
            keys[field],
        )
}

/// Whether `slot` is among the first `upto` of `slots`.
pub open spec fn among(slots: Seq<usize>, upto: int, slot: usize) -> bool {
    exists|j: int| 0 <= j < upto && #[trigger] slots[j] == slot
}

} // verus!
