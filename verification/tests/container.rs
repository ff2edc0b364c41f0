use multi_index_map::{IndexKind, MultiIndexMap, Record, UniquenessError};

const ID: usize = 0;
const GROUP: usize = 1;
const CODE: usize = 2;
const RANK: usize = 3;

// A unique hashed id, a hashed group, a unique sorted code, a sorted rank.
fn kinds() -> Vec<IndexKind> {
    vec![
        IndexKind::HashedUnique,
        IndexKind::HashedNonUnique,
        IndexKind::OrderedUnique,
        IndexKind::OrderedNonUnique,
    ]
}

fn row(id: u64, group: u64, code: u64, rank: u64, text: &str) -> Record {
    Record::new(vec![id, group, code, rank], text.as_bytes().to_vec())
}

fn sample() -> MultiIndexMap {
    let mut map = MultiIndexMap::new(kinds());
    map.insert(row(1, 7, 100, 3, "one"));
    map.insert(row(2, 7, 300, 1, "two"));
    map.insert(row(3, 8, 200, 3, "three"));
    map.insert(row(4, 7, 400, 2, "four"));
    map
}

fn ids(records: &[&Record]) -> Vec<u64> {
    records.iter().map(|record| record.keys[ID]).collect()
}

// Every index leads to every record, and to nothing else.
fn assert_in_step(map: &MultiIndexMap) {
    let all = map.iter().collect();
    assert_eq!(all.len(), map.len());
    for field in 0..map.field_count() {
        assert_eq!(map.iter_by(field).len(), map.len());
        for record in all.iter() {
            let found = map.get_by_non_unique(field, record.keys[field]);
            assert!(found.iter().any(|other| other == record));
            for other in found {
                assert_eq!(other.keys[field], record.keys[field]);
            }
            if map.kind_of(field).unwrap().is_unique() {
                assert_eq!(map.get_by_unique(field, record.keys[field]), Some(*record));
            }
        }
    }
}

#[test]
fn new_container_is_empty() {
    let map = MultiIndexMap::new(kinds());
    assert_eq!(map.len(), 0);
    assert!(map.is_empty());
    assert_eq!(map.field_count(), 4);
    assert_eq!(map.kind_of(CODE), Some(IndexKind::OrderedUnique));
    assert_eq!(map.kind_of(4), None);
    assert!(map.get(0).is_none());
    assert!(map.iter().collect().is_empty());
    assert!(map.iter_by(ID).collect().is_empty());
}

#[test]
fn insert_then_get_returns_the_record() {
    let mut map = MultiIndexMap::new(kinds());
    let record = row(5, 1, 50, 9, "five");
    let slot = map.try_insert(record.clone()).unwrap();
    assert_eq!(slot, 0);
    assert_eq!(map.get(slot), Some(&record));
    assert_eq!(map.get_by_unique(ID, 5), Some(&record));
    assert_eq!(map.get_by_unique(CODE, 50), Some(&record));
    assert_eq!(map.get_by_non_unique(GROUP, 1), vec![&record]);
    assert_eq!(map.get_by_non_unique(RANK, 9), vec![&record]);
    assert_eq!(map.slots_by(RANK, 9), vec![0]);
    assert_eq!(map.slot_by_unique(CODE, 50), Some(0));
    assert_in_step(&map);
}

#[test]
fn lookups_that_find_nothing() {
    let map = sample();
    assert_eq!(map.get_by_unique(ID, 9), None);
    assert!(map.get_by_non_unique(GROUP, 9).is_empty());
    // A field without a unique index answers nothing to a unique lookup.
    assert_eq!(map.get_by_unique(GROUP, 7), None);
    assert_eq!(map.slot_by_unique(RANK, 3), None);
    // A field that is not there finds nothing.
    assert_eq!(map.get_by_unique(17, 1), None);
    assert!(map.get_by_non_unique(17, 1).is_empty());
    assert!(map.slots_by(17, 1).is_empty());
    assert!(map.iter_by(17).collect().is_empty());
}

#[test]
fn non_unique_lookup_lists_by_slot() {
    let map = sample();
    assert_eq!(ids(&map.get_by_non_unique(GROUP, 7)), vec![1, 2, 4]);
    assert_eq!(ids(&map.get_by_non_unique(RANK, 3)), vec![1, 3]);
    assert_eq!(map.slots_by(GROUP, 7), vec![0, 1, 3]);
    // Any index answers a listing lookup; a unique one with one record at most.
    assert_eq!(ids(&map.get_by_non_unique(CODE, 200)), vec![3]);
}

#[test]
fn duplicate_key_is_refused_and_nothing_changes() {
    let mut map = sample();
    let before = format!("{:?}", map);

    // The id is taken.
    let clash = row(2, 9, 900, 9, "clash");
    assert_eq!(map.try_insert(clash.clone()), Err(UniquenessError(clash)));
    // The code is taken, though the id is free.
    let clash = row(9, 9, 400, 9, "clash");
    assert_eq!(map.try_insert(clash.clone()), Err(UniquenessError(clash)));

    assert_eq!(map.len(), 4);
    assert_eq!(format!("{:?}", map), before);
    assert!(map.get_by_non_unique(GROUP, 9).is_empty());
    assert!(map.get_by_unique(ID, 9).is_none());
    assert!(map.get_by_unique(CODE, 900).is_none());
    assert_in_step(&map);

    // A shared key of an index that is not unique is no clash.
    assert!(map.try_insert(row(9, 7, 900, 3, "fine")).is_ok());
    assert_eq!(map.len(), 5);
    assert_in_step(&map);
}

#[test]
fn remove_by_unique_takes_the_record_out_of_every_index() {
    let mut map = sample();
    let removed = map.remove_by_unique(CODE, 300).unwrap();
    assert_eq!(removed, row(2, 7, 300, 1, "two"));
    assert_eq!(map.len(), 3);
    assert_eq!(map.get_by_unique(ID, 2), None);
    assert_eq!(map.get_by_unique(CODE, 300), None);
    assert_eq!(ids(&map.get_by_non_unique(GROUP, 7)), vec![1, 4]);
    assert!(map.get_by_non_unique(RANK, 1).is_empty());
    assert!(map.get(1).is_none());
    assert_in_step(&map);

    // Nothing is there to remove a second time, nor through a field that has
    // no unique index.
    assert_eq!(map.remove_by_unique(CODE, 300), None);
    assert_eq!(map.remove_by_unique(GROUP, 7), None);
    assert_eq!(map.remove_by_unique(17, 1), None);
    assert_eq!(map.len(), 3);
}

#[test]
fn remove_by_non_unique_takes_all_matches() {
    let mut map = sample();
    let removed = map.remove_by_non_unique(GROUP, 7);
    assert_eq!(
        removed,
        vec![row(1, 7, 100, 3, "one"), row(2, 7, 300, 1, "two"), row(4, 7, 400, 2, "four")]
    );
    assert_eq!(map.len(), 1);
    assert!(map.get_by_non_unique(GROUP, 7).is_empty());
    for id in [1, 2, 4] {
        assert_eq!(map.get_by_unique(ID, id), None);
    }
    assert_eq!(ids(&map.get_by_non_unique(RANK, 3)), vec![3]);
    assert_eq!(ids(&map.iter_by(CODE).collect()), vec![3]);
    assert!(map.remove_by_non_unique(GROUP, 7).is_empty());
    assert!(map.remove_by_non_unique(17, 7).is_empty());
    assert_in_step(&map);
}

#[test]
fn remove_by_slot() {
    let mut map = sample();
    assert_eq!(map.remove(2), Some(row(3, 8, 200, 3, "three")));
    assert_eq!(map.remove(2), None);
    assert_eq!(map.remove(50), None);
    assert_eq!(map.len(), 3);
    assert!(map.get_by_non_unique(GROUP, 8).is_empty());
    assert_in_step(&map);
}

#[test]
fn vacated_slot_goes_to_the_next_record() {
    let mut map = sample();
    map.remove_by_unique(ID, 2).unwrap();
    assert_eq!(map.try_insert(row(5, 8, 500, 5, "five")), Ok(1));
    assert_eq!(map.try_insert(row(6, 8, 600, 6, "six")), Ok(4));
    assert_eq!(ids(&map.iter().collect()), vec![1, 5, 3, 4, 6]);
    assert_eq!(ids(&map.get_by_non_unique(GROUP, 8)), vec![5, 3, 6]);
    assert_in_step(&map);
}

#[test]
fn replace_moves_only_what_changed() {
    let mut map = sample();
    let previous = map.replace(1, row(2, 8, 350, 1, "deux")).unwrap();
    assert_eq!(previous, row(2, 7, 300, 1, "two"));
    assert_eq!(map.get(1), Some(&row(2, 8, 350, 1, "deux")));
    assert_eq!(map.get_by_unique(CODE, 300), None);
    assert_eq!(ids(&map.get_by_non_unique(GROUP, 7)), vec![1, 4]);
    assert_eq!(ids(&map.get_by_non_unique(GROUP, 8)), vec![2, 3]);
    assert_eq!(ids(&map.iter_by(CODE).collect()), vec![1, 3, 2, 4]);
    assert_in_step(&map);

    // A record may keep its own keys.
    assert!(map.replace(1, row(2, 8, 350, 1, "zwei")).is_ok());
    // It may not take the key of another.
    let clash = row(2, 8, 400, 1, "clash");
    assert_eq!(map.replace(1, clash.clone()), Err(UniquenessError(clash)));
    assert_eq!(map.get(1), Some(&row(2, 8, 350, 1, "zwei")));
    assert_in_step(&map);
}

#[test]
fn modify_by_unique_moves_the_index_entries() {
    let mut map = sample();
    let changed = map
        .modify_by_unique(ID, 3, |record| {
            let mut record = record.clone();
            record.keys[ID] = 30;
            record.keys[GROUP] = 7;
            record.keys[RANK] = 0;
            record
        })
        .unwrap();
    assert_eq!(changed, Some(&row(30, 7, 200, 0, "three")));
    assert_eq!(map.get_by_unique(ID, 3), None);
    assert_eq!(map.get_by_unique(ID, 30), Some(&row(30, 7, 200, 0, "three")));
    assert!(map.get_by_non_unique(GROUP, 8).is_empty());
    assert_eq!(ids(&map.get_by_non_unique(GROUP, 7)), vec![1, 2, 30, 4]);
    assert_eq!(ids(&map.iter_by(RANK).collect()), vec![30, 2, 4, 1]);
    assert_in_step(&map);

    // No record, no change.
    let missing = map.modify_by_unique(ID, 99, |record| record.clone()).unwrap();
    assert_eq!(missing, None);
    let not_unique = map.modify_by_unique(GROUP, 7, |record| record.clone()).unwrap();
    assert_eq!(not_unique, None);
}

#[test]
fn modify_by_unique_refuses_a_taken_key() {
    let mut map = sample();
    let before = format!("{:?}", map);
    let refused = map.modify_by_unique(ID, 3, |record| {
        let mut record = record.clone();
        record.keys[CODE] = 100;
        record.keys[GROUP] = 9;
        record
    });
    assert_eq!(refused, Err(UniquenessError(row(3, 9, 100, 3, "three"))));
    assert_eq!(format!("{:?}", map), before);
    assert_eq!(map.get_by_unique(ID, 3), Some(&row(3, 8, 200, 3, "three")));
    assert!(map.get_by_non_unique(GROUP, 9).is_empty());
    assert_in_step(&map);
}

#[test]
fn modify_by_non_unique_changes_every_match() {
    let mut map = sample();
    let changed = map
        .modify_by_non_unique(GROUP, 7, |record| {
            let mut record = record.clone();
            record.keys[GROUP] = 70;
            record.keys[CODE] += 1;
            record
        })
        .unwrap();
    assert_eq!(ids(&changed), vec![1, 2, 4]);
    assert!(changed.iter().all(|record| record.keys[GROUP] == 70));
    assert!(map.get_by_non_unique(GROUP, 7).is_empty());
    assert_eq!(ids(&map.get_by_non_unique(GROUP, 70)), vec![1, 2, 4]);
    assert_eq!(map.get_by_unique(CODE, 101).map(|record| record.keys[ID]), Some(1));
    assert_eq!(map.get_by_unique(CODE, 100), None);
    assert_eq!(ids(&map.iter_by(CODE).collect()), vec![1, 3, 2, 4]);
    assert_in_step(&map);

    assert!(map.modify_by_non_unique(GROUP, 7, |record| record.clone()).unwrap().is_empty());
}

#[test]
fn modify_by_non_unique_keeps_all_or_nothing() {
    let mut map = sample();
    // The first two of the group move to codes that are free; the third
    // would take the code of the record outside the group.
    let refused = map.modify_by_non_unique(GROUP, 7, |record| {
        let mut record = record.clone();
        record.keys[GROUP] = 70;
        record.keys[CODE] = if record.keys[ID] == 4 { 200 } else { record.keys[CODE] + 1 };
        record
    });
    assert_eq!(refused, Err(UniquenessError(row(4, 70, 200, 2, "four"))));
    assert_eq!(map.len(), 4);
    assert_eq!(map.get(0), Some(&row(1, 7, 100, 3, "one")));
    assert_eq!(map.get(1), Some(&row(2, 7, 300, 1, "two")));
    assert_eq!(map.get(2), Some(&row(3, 8, 200, 3, "three")));
    assert_eq!(map.get(3), Some(&row(4, 7, 400, 2, "four")));
    assert_eq!(ids(&map.get_by_non_unique(GROUP, 7)), vec![1, 2, 4]);
    assert!(map.get_by_non_unique(GROUP, 70).is_empty());
    assert_eq!(map.get_by_unique(CODE, 101), None);
    assert_eq!(ids(&map.iter_by(CODE).collect()), vec![1, 3, 2, 4]);
    assert_in_step(&map);
}

#[test]
fn update_changes_payload_and_no_index() {
    let mut map = sample();
    let orders: Vec<Vec<u64>> = (0..4).map(|field| ids(&map.iter_by(field).collect())).collect();

    for round in 0..3 {
        let updated = map.update_by_unique(CODE, 200, |payload| {
            let mut payload = payload.clone();
            payload.push(b'!');
            payload
        });
        let marks = "!".repeat(round + 1);
        assert_eq!(updated, Some(&row(3, 8, 200, 3, &format!("three{}", marks))));
    }
    let updated = map.update_by_non_unique(GROUP, 7, |payload| payload.to_ascii_uppercase());
    assert_eq!(
        updated,
        vec![&row(1, 7, 100, 3, "ONE"), &row(2, 7, 300, 1, "TWO"), &row(4, 7, 400, 2, "FOUR")]
    );
    map.update_all(|payload| {
        let mut payload = payload.clone();
        payload.reverse();
        payload
    });
    assert_eq!(map.get_by_unique(ID, 1), Some(&row(1, 7, 100, 3, "ENO")));
    assert_eq!(map.get_by_unique(ID, 3), Some(&row(3, 8, 200, 3, "!!!eerht")));

    for field in 0..4 {
        assert_eq!(ids(&map.iter_by(field).collect()), orders[field]);
    }
    assert_eq!(map.update_by_unique(CODE, 999, |payload| payload.clone()), None);
    assert_eq!(map.update_by_unique(GROUP, 7, |payload| payload.clone()), None);
    assert!(map.update_by_non_unique(GROUP, 999, |payload| payload.clone()).is_empty());
    assert_in_step(&map);
}

#[test]
fn set_payload_hands_back_the_old_one() {
    let mut map = sample();
    assert_eq!(map.set_payload(3, b"vier".to_vec()), b"four".to_vec());
    assert_eq!(map.get(3), Some(&row(4, 7, 400, 2, "vier")));
    assert_in_step(&map);
}

#[test]
fn get_mut_by_unique_reaches_the_payload() {
    let mut map = sample();
    map.get_mut_by_unique(ID, 4).unwrap().extend_from_slice(b"teen");
    assert_eq!(map.get_by_unique(ID, 4), Some(&row(4, 7, 400, 2, "fourteen")));
    assert!(map.get_mut_by_unique(ID, 40).is_none());
    assert!(map.get_mut_by_unique(GROUP, 7).is_none());
    assert_in_step(&map);
}

#[test]
fn clear_empties_arena_and_indexes() {
    let mut map = sample();
    map.clear();
    assert_eq!(map.len(), 0);
    assert!(map.is_empty());
    assert_eq!(map.field_count(), 4);
    for field in 0..4 {
        assert!(map.iter_by(field).collect().is_empty());
        for key in [1, 2, 3, 4, 7, 8, 100, 200, 300, 400] {
            assert_eq!(map.get_by_unique(field, key), None);
            assert!(map.get_by_non_unique(field, key).is_empty());
            assert_eq!(map.remove_by_unique(field, key), None);
            assert!(map.remove_by_non_unique(field, key).is_empty());
        }
    }
    // The keys are free again, and the slots are given out from the start.
    assert_eq!(map.try_insert(row(1, 7, 100, 3, "one")), Ok(0));
    assert_in_step(&map);
}

#[test]
fn capacity_changes_keep_everything() {
    let mut map = sample();
    map.reserve(64);
    assert!(map.capacity() >= 68);
    assert_in_step(&map);
    assert_eq!(ids(&map.iter_by(CODE).collect()), vec![1, 3, 2, 4]);
    map.shrink_to_fit();
    assert!(map.capacity() >= map.len());
    assert_in_step(&map);
    assert_eq!(ids(&map.get_by_non_unique(GROUP, 7)), vec![1, 2, 4]);
    assert_eq!(map.get_by_unique(ID, 3), Some(&row(3, 8, 200, 3, "three")));
}

#[test]
fn a_container_without_indexes_still_stores() {
    let mut map = MultiIndexMap::new(Vec::new());
    let slot = map.insert(Record::new(Vec::new(), b"bare".to_vec()));
    assert_eq!(map.len(), 1);
    assert_eq!(map.get(slot).unwrap().payload, b"bare".to_vec());
    assert_eq!(map.iter().len(), 1);
    assert_eq!(map.remove(slot).unwrap().payload, b"bare".to_vec());
    assert!(map.is_empty());
}
