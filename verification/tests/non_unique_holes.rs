use multi_index_map::{IndexKind, MultiIndexMap, Record};

// Non-unique index traversal must work with holes in the arena (after removals).
const GROUP: usize = 0;
const ID: usize = 1;

fn entry(group: u64, value: i32, id: usize) -> Record {
    Record::new(vec![group, id as u64], value.to_le_bytes().to_vec())
}

fn value(record: &Record) -> i32 {
    let mut bytes = [0u8; 4];
    bytes.copy_from_slice(&record.payload);
    i32::from_le_bytes(bytes)
}

fn add(payload: &Vec<u8>, amount: i32) -> Vec<u8> {
    let mut bytes = [0u8; 4];
    bytes.copy_from_slice(payload);
    (i32::from_le_bytes(bytes) + amount).to_le_bytes().to_vec()
}

fn make_with_holes() -> MultiIndexMap {
    let mut map = MultiIndexMap::new(vec![IndexKind::HashedNonUnique, IndexKind::OrderedUnique]);
    for id in 0..6usize {
        map.insert(entry(1, id as i32, id));
    }
    // Create holes at indices 0 and 1
    assert!(map.remove_by_unique(ID, 0).is_some());
    assert!(map.remove_by_unique(ID, 1).is_some());
    map
}

#[test]
fn non_unique_modify_after_holes() {
    let mut map = make_with_holes();

    // Move entries from group 1 to 2; ensure we traverse past holes
    let refs = map
        .modify_by_non_unique(GROUP, 1, |e| {
            let mut e = e.clone();
            e.keys[GROUP] = 2;
            e
        })
        .unwrap();

    assert_eq!(refs.len(), 4);
    for (i, e) in refs.iter().enumerate() {
        assert_eq!(e.keys[GROUP], 2);
        assert_eq!(e.keys[ID], i as u64 + 2);
    }

    assert!(map.get_by_non_unique(GROUP, 1).is_empty());
    let by_two = map.get_by_non_unique(GROUP, 2);
    assert_eq!(by_two.len(), 4);
    for (i, e) in by_two.iter().enumerate() {
        assert_eq!(e.keys[GROUP], 2);
        assert_eq!(e.keys[ID], i as u64 + 2);
    }
}

#[test]
fn non_unique_update_after_holes() {
    let mut map = make_with_holes();

    // Update unindexed field through the non-unique key
    let refs = map.update_by_non_unique(GROUP, 1, |payload| add(payload, 10));

    assert_eq!(refs.len(), 4);
    for (i, e) in refs.iter().enumerate() {
        assert_eq!(e.keys[GROUP], 1);
        assert_eq!(e.keys[ID], i as u64 + 2);
        assert_eq!(value(e), (i as i32 + 2) + 10);
    }

    let by_one = map.get_by_non_unique(GROUP, 1);
    assert_eq!(by_one.len(), 4);
    for (i, e) in by_one.iter().enumerate() {
        assert_eq!(e.keys[GROUP], 1);
        assert_eq!(e.keys[ID], i as u64 + 2);
        assert_eq!(value(e), (i as i32 + 2) + 10);
    }

    // Absent key returns empty
    assert!(map.update_by_non_unique(GROUP, 999, |payload| payload.clone()).is_empty());
}

#[test]
fn non_unique_get_mut_after_holes_aliasing_safe() {
    let mut map = make_with_holes();

    // Reach every payload of the group in one pass
    let touched = map.update_by_non_unique(GROUP, 1, |payload| add(payload, 100));
    assert_eq!(touched.len(), 4);

    let refs = map.get_by_non_unique(GROUP, 1);
    assert_eq!(refs.len(), 4);
    for (i, e) in refs.iter().enumerate() {
        assert_eq!(e.keys[ID], i as u64 + 2);
        assert_eq!(value(e), (i as i32 + 2) + 100);
    }

    // Absent key returns empty
    assert!(map.update_by_non_unique(GROUP, 999, |payload| add(payload, 100)).is_empty());
}
