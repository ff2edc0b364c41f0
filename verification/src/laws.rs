//! What holds of the container in every state it can reach, and across
//! several of its operations.
use vstd::prelude::*;
use crate::error::UniquenessError;
use crate::model::holds;
use crate::model::lists;
use crate::model::matching;
use crate::model::traverses;
use crate::map::MultiIndexMap;
use crate::record::Record;

verus! {

/// The index of every field leads from the field's value in a stored record
/// to the slot of that record.
pub proof fn law_record_is_indexed(map: MultiIndexMap, slot: usize, field: int)
    requires
        map.wf(),
        map@.contains_key(slot),
        map.indexed_field(field),
    ensures
        map.index_slots(field, map@[slot].keys@[field]).contains(slot),
        map.index_keys(field).contains(map@[slot].keys@[field]),
{
    let key = map@[slot].keys@[field];
    assert(holds(map@, slot, field, key));
}

/// Where a key leads to a slot in the index of a field, the slot holds a
/// record, and the record has that key in that field.
pub proof fn law_index_entry_is_live(map: MultiIndexMap, slot: usize, field: int, key: u64)
    requires
        map.wf(),
        map.indexed_field(field),
        map.index_slots(field, key).contains(slot),
    ensures
        map@.contains_key(slot),
        map@[slot].keys@[field] == key,
{
}

/// In a unique index no key leads to two slots: no two records share the
/// value of a field that is indexed so.
pub proof fn law_unique_key_has_one_record(map: MultiIndexMap, field: int, a: usize, b: usize)
    requires
        map.wf(),
        map.unique_field(field),
        map@.contains_key(a),
        map@.contains_key(b),
        map@[a].keys@[field] == map@[b].keys@[field],
    ensures
        a == b,
{
    let key = map@[a].keys@[field];
    assert(map.index_slots(field, key).contains(a));
    assert(map.index_slots(field, key).contains(b));
}

/// No index holds a key that leads nowhere.
pub proof fn law_no_key_without_slot(map: MultiIndexMap, field: int, key: u64)
    requires
        map.wf(),
        map.indexed_field(field),
        map.index_keys(field).contains(key),
    ensures
        exists|slot: usize| holds(map@, slot, field, key),
{
    let slots = map.index_slots(field, key);
    assert(!slots.is_empty());
    if forall|slot: usize| !slots.contains(slot) {
        assert(slots =~= Set::<usize>::empty());
    }
    let slot = choose|slot: usize| slots.contains(slot);
    assert(map.index_slots(field, key).contains(slot));
    assert(holds(map@, slot, field, key));
}

/// A record that was inserted is what a search for its key finds in every
/// unique index.
pub proof fn law_insert_then_get(
    before: MultiIndexMap,
    record: Record,
    after: MultiIndexMap,
    slot: usize,
    field: int,
    found: Option<Record>,
)
    requires
        before.wf(),
        after.wf(),
        after.kinds() == before.kinds(),
        before.insertion(record, after, Ok(slot)),
        after.unique_field(field),
        after.unique_answer(field, record.keys@[field], found),
    ensures
        found == Some(record),
{
    let key = record.keys@[field];
    assert(matching(after@, field, key).contains(slot));
    match found {
        Some(other) => {
            let place = choose|place: usize| #[trigger]
                holds(after@, place, field, key) && other == after@[place];
            law_unique_key_has_one_record(after, field, slot, place);
        },
        None => {},
    }
}

/// The slot that a removal has vacated goes to the record that is inserted
/// next.
pub proof fn law_vacated_slot_is_reused(
    before: MultiIndexMap,
    vacated: usize,
    record: Record,
    after: MultiIndexMap,
    done: Result<usize, UniquenessError<Record>>,
)
    requires
        before.wf(),
        before.vacant() == vacated,
        before.insertion(record, after, done),
        done is Ok,
    ensures
        done == Ok::<usize, UniquenessError<Record>>(vacated),
        after@ == before@.insert(vacated, record),
{
}

/// A record that shares the key of a unique index with a stored record is
/// refused: the container stays as it is, with as many records as before,
/// and the record comes back in the error.
pub proof fn law_duplicate_is_refused(
    before: MultiIndexMap,
    stored: usize,
    field: int,
    record: Record,
    after: MultiIndexMap,
    done: Result<usize, UniquenessError<Record>>,
)
    requires
        before.wf(),
        before.unique_field(field),
        before@.contains_key(stored),
        before@[stored].keys@[field] == record.keys@[field],
        before.insertion(record, after, done),
    ensures
        done == Err::<usize, UniquenessError<Record>>(UniquenessError(record)),
        after == before,
        after@.len() == before@.len(),
{
    assert(holds(before@, stored, field, record.keys@[field]));
}

/// A record that was removed through a unique index is gone from the arena
/// and from every index, every other record is where it was, and a search
/// for the key finds nothing.
pub proof fn law_unique_removal_is_complete(
    before: MultiIndexMap,
    field: int,
    key: u64,
    after: MultiIndexMap,
    record: Record,
)
    requires
        before.wf(),
        after.wf(),
        after.kinds() == before.kinds(),
        before.unique_removal(field, key, after, Some(record)),
    ensures
        after@.len() + 1 == before@.len(),
        after.unique_answer(field, key, None),
        forall|slot: usize|
            before@.contains_key(slot) && before@[slot] == record && holds(before@, slot, field, key) ==> {
                &&& !after@.contains_key(slot)
                &&& forall|other: int, any: u64|
                    after.indexed_field(other) ==> !#[trigger] after.index_slots(other, any).contains(slot)
            },
        forall|slot: usize|
            before@.contains_key(slot) && !holds(before@, slot, field, key) ==> after@.contains_key(slot)
                && #[trigger] after@[slot] == before@[slot],
{
    let gone = choose|slot: usize| #[trigger]
        holds(before@, slot, field, key) && record == before@[slot] && after@ == before@.remove(slot);
    assert forall|slot: usize| holds(before@, slot, field, key) implies slot == gone by {
        law_unique_key_has_one_record(before, field, slot, gone);
    }
    assert forall|slot: usize| !matching(after@, field, key).contains(slot) by {
        if holds(after@, slot, field, key) {
            assert(holds(before@, slot, field, key));
        }
    }
    assert(matching(after@, field, key) =~= Set::<usize>::empty());
    assert forall|other: int, any: u64| after.indexed_field(other) implies !#[trigger] after.index_slots(
        other,
        any,
    ).contains(gone) by {
        if after.index_slots(other, any).contains(gone) {
            assert(holds(after@, gone, other, any));
        }
    }
}

/// The records that were removed through an index are gone from the arena
/// and from every index, and every other record is where it was: a search
/// for the key finds nothing, in that index or through any other.
pub proof fn law_removal_is_complete(before: MultiIndexMap, field: int, key: u64, after: MultiIndexMap)
    requires
        before.wf(),
        after.wf(),
        after.kinds() == before.kinds(),
        after@ == before@.remove_keys(before.found(field, key)),
    ensures
        after.found(field, key) == Set::<usize>::empty(),
        forall|slot: usize| #[trigger]
            before.found(field, key).contains(slot) ==> {
                &&& !after@.contains_key(slot)
                &&& forall|other: int, any: u64|
                    after.indexed_field(other) ==> !#[trigger] after.index_slots(other, any).contains(slot)
            },
        forall|slot: usize|
            before@.contains_key(slot) && !before.found(field, key).contains(slot) ==> after@.contains_key(
                slot,
            ) && #[trigger] after@[slot] == before@[slot],
{
    assert forall|slot: usize| !after.found(field, key).contains(slot) by {
        if after.found(field, key).contains(slot) {
            assert(holds(after@, slot, field, key));
            assert(holds(before@, slot, field, key));
            assert(before.found(field, key).contains(slot));
        }
    }
    assert forall|slot: usize| #[trigger] before.found(field, key).contains(slot) implies {
        &&& !after@.contains_key(slot)
        &&& forall|other: int, any: u64|
            after.indexed_field(other) ==> !#[trigger] after.index_slots(other, any).contains(slot)
    } by {
        assert forall|other: int, any: u64| after.indexed_field(other) implies !#[trigger] after.index_slots(
            other,
            any,
        ).contains(slot) by {
            if after.index_slots(other, any).contains(slot) {
                assert(holds(after@, slot, other, any));
            }
        }
    }
}

/// Whether `record` stands in a slot of `map` that a search for `key` in
/// `field` does not find.
pub open spec fn stands_apart(map: MultiIndexMap, field: int, key: u64, record: Record) -> bool {
    exists|slot: usize| #[trigger]
        map@.contains_key(slot) && !map.found(field, key).contains(slot) && map@[slot] == record
}

/// After a removal through one index, what a search through any index lists
/// are records that the removal passed over.
pub proof fn law_removed_is_not_found(
    before: MultiIndexMap,
    field: int,
    key: u64,
    after: MultiIndexMap,
    other: int,
    any: u64,
    out: Seq<Record>,
)
    requires
        before.wf(),
        after.wf(),
        after.kinds() == before.kinds(),
        after@ == before@.remove_keys(before.found(field, key)),
        lists(out, after@, after.found(other, any)),
    ensures
        forall|i: int| 0 <= i < out.len() ==> stands_apart(before, field, key, #[trigger] out[i]),
{
    let order = choose|order: Seq<usize>| #[trigger]
        crate::order::ascending(order) && order.to_set() == after.found(other, any) && out
            == order.map_values(|slot: usize| after@[slot]);
    assert forall|i: int| 0 <= i < out.len() implies stands_apart(before, field, key, #[trigger] out[i]) by {
        let slot = order[i];
        assert(order.to_set().contains(slot));
        assert(holds(after@, slot, other, any));
        assert(before@.contains_key(slot) && !before.found(field, key).contains(slot) && before@[slot]
            == out[i]);
    }
}

/// An empty container finds nothing: a search in a unique index answers
/// `None`, and a search in any index lists no record.
pub proof fn law_empty_finds_nothing(
    map: MultiIndexMap,
    field: int,
    key: u64,
    found: Option<Record>,
    out: Seq<Record>,
)
    requires
        map.wf(),
        map@ == Map::<usize, Record>::empty(),
        map.unique_answer(field, key, found),
        lists(out, map@, map.found(field, key)),
    ensures
        map@.len() == 0,
        found is None,
        out == Seq::<Record>::empty(),
        map.found(field, key) == Set::<usize>::empty(),
{
    let order = choose|order: Seq<usize>| #[trigger]
        crate::order::ascending(order) && order.to_set() == map.found(field, key) && out
            == order.map_values(|slot: usize| map@[slot]);
    if order.len() > 0 {
        assert(order.to_set().contains(order[0]));
    }
}

/// An empty container has nothing to remove: a removal through a unique
/// index returns `None`, a removal through any index returns no record, and
/// either leaves the container empty.
pub proof fn law_empty_removes_nothing(
    map: MultiIndexMap,
    field: int,
    key: u64,
    after_one: MultiIndexMap,
    removed_one: Option<Record>,
    after_all: MultiIndexMap,
    removed_all: Seq<Record>,
)
    requires
        map.wf(),
        map@ == Map::<usize, Record>::empty(),
        map.unique_removal(field, key, after_one, removed_one),
        lists(removed_all, map@, map.found(field, key)),
        after_all@ == map@.remove_keys(map.found(field, key)),
    ensures
        removed_one is None,
        after_one == map,
        removed_all == Seq::<Record>::empty(),
        after_all@ == Map::<usize, Record>::empty(),
{
    law_empty_finds_nothing(map, field, key, None, removed_all);
}

/// Whether the record in `a` comes before the record in `b` in a sorted
/// index of `field`: by the field's value first, by the slot where the values
/// are the same.
pub open spec fn precedes(model: Map<usize, Record>, field: int, a: usize, b: usize) -> bool {
    model[a].keys@[field] < model[b].keys@[field] || (model[a].keys@[field] == model[b].keys@[field] && a
        < b)
}

proof fn lemma_walks_agree_upto(
    model: Map<usize, Record>,
    field: int,
    a: Seq<usize>,
    b: Seq<usize>,
    upto: int,
)
    requires
        traverses(model, field, true, a),
        traverses(model, field, true, b),
        a.len() == b.len(),
        0 <= upto <= a.len(),
    ensures
        forall|i: int| 0 <= i < upto ==> a[i] == b[i],
    decreases upto,
{
    if upto > 0 {
        lemma_walks_agree_upto(model, field, a, b, upto - 1);
        let i = upto - 1;
        if a[i] != b[i] {
            assert(a.to_set().contains(a[i]));
            assert(b.to_set().contains(a[i]));
            let j = choose|j: int| 0 <= j < b.len() && b[j] == a[i];
            assert(b.to_set().contains(b[i]));
            assert(a.to_set().contains(b[i]));
            let l = choose|l: int| 0 <= l < a.len() && a[l] == b[i];
            if j < i {
                assert(a[j] == b[j]);
            }
            if l < i {
                assert(a[l] == b[l]);
            }
            assert(i < j && i < l);
            assert(precedes(model, field, b[i], b[j]));
            assert(precedes(model, field, a[i], a[l]));
        }
    }
}

/// A sorted index can be walked in one order only: two walks give the same
/// records in the same order.
pub proof fn law_ordered_walk_is_fixed(map: MultiIndexMap, field: int, a: Seq<usize>, b: Seq<usize>)
    requires
        map.wf(),
        map.indexed_field(field),
        map.kinds()[field].ordered(),
        traverses(map@, field, true, a),
        traverses(map@, field, true, b),
    ensures
        a == b,
{
    a.unique_seq_to_set();
    b.unique_seq_to_set();
    lemma_walks_agree_upto(map@, field, a, b, a.len() as int);
}

/// Walking a sorted index backwards gives exactly the records of a forward
/// walk, last to first.
pub proof fn law_reverse_walk(
    map: MultiIndexMap,
    field: int,
    forward: Seq<usize>,
    walked: Seq<usize>,
    backward: Seq<usize>,
)
    requires
        map.wf(),
        map.indexed_field(field),
        map.kinds()[field].ordered(),
        traverses(map@, field, true, forward),
        traverses(map@, field, true, walked),
        backward == walked.reverse(),
    ensures
        backward == forward.reverse(),
        backward.map_values(|slot: usize| map@[slot]) == forward.map_values(|slot: usize| map@[slot]).reverse(),
{
    law_ordered_walk_is_fixed(map, field, forward, walked);
}

/// However often payloads are changed, the indexes stay as they were: a run
/// of states in which each keeps the indexes of the one before ends with the
/// indexes of the first.
pub proof fn law_updates_keep_indexes(states: Seq<MultiIndexMap>)
    requires
        states.len() > 0,
        forall|i: int| 0 <= i < states.len() - 1 ==> (#[trigger] states[i + 1]).tables() == states[i].tables(),
    ensures
        states.last().tables() == states[0].tables(),
        forall|field: int, key: u64| #[trigger]
            states.last().index_slots(field, key) == states[0].index_slots(field, key),
    decreases states.len(),
{
    if states.len() > 1 {
        let shorter = states.drop_last();
        assert forall|i: int| 0 <= i < shorter.len() - 1 implies (#[trigger] shorter[i + 1]).tables()
            == shorter[i].tables() by {
            assert(shorter[i + 1] == states[i + 1]);
            assert(shorter[i] == states[i]);
        }
        law_updates_keep_indexes(shorter);
        let n = states.len() - 2;
        assert(states[n + 1].tables() == states[n].tables());
    }
}

} // verus!
