use multi_index_map::{Index, IndexKind, NonUniqueIndex, UniqueIndex, UniquenessError};

#[test]
fn unique_index_keeps_one_slot_for_a_key() {
    for ordered in [false, true] {
        let mut index = UniqueIndex::new(ordered);
        assert_eq!(index.get(5), None);
        assert_eq!(index.insert(5, 0), Ok(()));
        assert_eq!(index.insert(7, 1), Ok(()));
        assert_eq!(index.get(5), Some(0));
        assert_eq!(index.get(7), Some(1));

        // A key that is held is refused, and nothing changes.
        assert_eq!(index.insert(5, 9), Err(UniquenessError(9)));
        assert_eq!(index.get(5), Some(0));

        assert_eq!(index.remove(5), Some(0));
        assert_eq!(index.remove(5), None);
        assert_eq!(index.get(5), None);
        assert_eq!(index.get(7), Some(1));
        assert_eq!(index.insert(5, 9), Ok(()));
        assert_eq!(index.get(5), Some(9));
    }
}

#[test]
fn unique_index_lists_its_keys() {
    let mut ordered = UniqueIndex::new(true);
    let mut hashed = UniqueIndex::new(false);
    for (slot, key) in [30u64, 10, 20].into_iter().enumerate() {
        ordered.insert(key, slot).unwrap();
        hashed.insert(key, slot).unwrap();
    }
    assert_eq!(ordered.keys(), vec![10, 20, 30]);
    let mut keys = hashed.keys();
    keys.sort();
    assert_eq!(keys, vec![10, 20, 30]);
}

#[test]
fn unique_index_clear_and_capacity() {
    for ordered in [false, true] {
        let mut index = UniqueIndex::new(ordered);
        index.insert(1, 1).unwrap();
        index.insert(2, 2).unwrap();
        index.reserve(50);
        index.shrink_to_fit();
        assert_eq!(index.get(1), Some(1));
        assert_eq!(index.get(2), Some(2));
        index.clear();
        assert_eq!(index.get(1), None);
        assert!(index.keys().is_empty());
    }
}

#[test]
fn non_unique_index_gathers_slots_under_a_key() {
    for ordered in [false, true] {
        let mut index = NonUniqueIndex::new(ordered);
        assert!(index.get(5).is_empty());
        assert!(!index.contains_key(5));
        index.insert(5, 3);
        index.insert(5, 1);
        index.insert(5, 2);
        index.insert(6, 0);
        assert_eq!(index.get(5), vec![1, 2, 3]);
        assert_eq!(index.get(6), vec![0]);
        assert!(index.contains_key(5));

        assert!(index.remove(5, 2));
        assert!(!index.remove(5, 2));
        assert!(!index.remove(9, 2));
        assert_eq!(index.get(5), vec![1, 3]);

        // The key goes with its last slot.
        assert!(index.remove(6, 0));
        assert!(!index.contains_key(6));
        let mut keys = index.keys();
        keys.sort();
        assert_eq!(keys, vec![5]);
    }
}

#[test]
fn non_unique_index_take_removes_the_key() {
    for ordered in [false, true] {
        let mut index = NonUniqueIndex::new(ordered);
        index.insert(5, 4);
        index.insert(5, 2);
        index.insert(8, 1);
        assert_eq!(index.take(5), vec![2, 4]);
        assert!(index.take(5).is_empty());
        assert!(!index.contains_key(5));
        assert_eq!(index.get(8), vec![1]);
        index.reserve(10);
        index.shrink_to_fit();
        assert_eq!(index.get(8), vec![1]);
        index.clear();
        assert!(index.get(8).is_empty());
        assert!(index.keys().is_empty());
    }
}

#[test]
fn index_of_each_kind() {
    for kind in [
        IndexKind::HashedUnique,
        IndexKind::HashedNonUnique,
        IndexKind::OrderedUnique,
        IndexKind::OrderedNonUnique,
    ] {
        let mut index = Index::new(kind);
        assert_eq!(index.get_kind(), kind);
        assert!(!index.contains_key(1));
        assert_eq!(index.insert(1, 10), Ok(()));
        assert!(index.contains_key(1));
        let second = index.insert(1, 11);
        if kind.is_unique() {
            assert_eq!(second, Err(UniquenessError(11)));
            assert_eq!(index.get(1), vec![10]);
            assert_eq!(index.get_unique(1), Some(10));
        } else {
            assert_eq!(second, Ok(()));
            assert_eq!(index.get(1), vec![10, 11]);
            assert_eq!(index.get_unique(1), None);
        }
        // A slot that the key does not lead to is not struck.
        assert!(!index.remove(1, 99));
        assert!(index.contains_key(1));
        assert!(index.remove(1, 10));
        assert_eq!(index.contains_key(1), !kind.is_unique());
        index.clear();
        assert!(index.get(1).is_empty());
        assert!(index.key_list().is_empty());
    }
}

#[test]
fn index_walks_key_by_key() {
    let mut index = Index::new(IndexKind::OrderedNonUnique);
    index.insert(20, 0).unwrap();
    index.insert(10, 1).unwrap();
    index.insert(20, 2).unwrap();
    index.insert(10, 3).unwrap();
    index.insert(15, 4).unwrap();
    assert_eq!(index.key_list(), vec![10, 15, 20]);
    assert_eq!(index.entries(), vec![(10, 1), (10, 3), (15, 4), (20, 0), (20, 2)]);
    assert_eq!(index.entries_rev(), vec![(20, 2), (20, 0), (15, 4), (10, 3), (10, 1)]);

    let mut hashed = Index::new(IndexKind::HashedNonUnique);
    hashed.insert(20, 0).unwrap();
    hashed.insert(10, 1).unwrap();
    hashed.insert(20, 2).unwrap();
    let entries = hashed.entries();
    assert_eq!(entries.len(), 3);
    let at = |pair: (u64, usize)| entries.iter().position(|entry| *entry == pair).unwrap();
    // The slots of one key stand together, the lower first.
    assert_eq!(at((20, 2)), at((20, 0)) + 1);
    assert!(entries.contains(&(10, 1)));
    hashed.reserve(10);
    hashed.shrink_to_fit();
    assert_eq!(hashed.entries().len(), 3);
}
