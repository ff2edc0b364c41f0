use multi_index_map::{IndexKind, MultiIndexMap, Record};

const FIELD1: usize = 0;
const FIELD3: usize = 1;

fn kinds() -> Vec<IndexKind> {
    vec![IndexKind::HashedNonUnique, IndexKind::OrderedUnique]
}

fn element(field1: u64, field3: u64) -> Record {
    Record::new(vec![field1, field3], Vec::new())
}

#[test]
fn test_insert_and_get_by_field1() {
    let mut map = MultiIndexMap::new(kinds());
    let elem1 = element(42, 0);
    let elem2 = element(42, 1);

    map.insert(elem2);
    map.insert(elem1);

    let elems = map.get_by_non_unique(FIELD1, 42);
    assert_eq!(elems.len(), 2);
    assert_eq!(map.len(), 2);
}

#[test]
fn hashed_non_unique_test_insert_and_remove_by_field1() {
    let mut map = MultiIndexMap::new(kinds());
    let elem1 = element(42, 0);
    let elem2 = element(42, 1);

    map.insert(elem2);
    map.insert(elem1);

    let elems = map.remove_by_non_unique(FIELD1, 42);
    assert_eq!(elems.len(), 2);
    assert!(map.is_empty());
}

#[test]
fn test_insert_and_iter_by_field1() {
    let mut map = MultiIndexMap::new(kinds());
    let elem1 = element(42, 1);
    let elem2 = element(42, 0);

    map.insert(elem2);
    map.insert(elem1);

    for (idx, elem) in map.iter_by(FIELD1).collect().into_iter().enumerate() {
        // Elements remain in inserted order when they have a non_unique key
        assert_eq!(idx as u64, elem.keys[FIELD3]);
    }
}
