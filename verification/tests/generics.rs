use multi_index_map::{Arena, Index, IndexKind, MultiIndexMap, Record};

// The two fields that no index covers travel in the payload: a text and a
// number.
fn element(field1: u64, field2: &str, field3: u32) -> Record {
    let mut payload = field3.to_le_bytes().to_vec();
    payload.extend_from_slice(field2.as_bytes());
    Record::new(vec![field1], payload)
}

#[test]
fn generics_should_compile() {
    let mut map = MultiIndexMap::new(vec![IndexKind::HashedUnique]);

    // check that formatting produces non empty strings
    assert!(!format!("{:?}", Index::new(IndexKind::HashedUnique)).is_empty());
    assert!(!format!("{:?}", Arena::new()).is_empty());
    assert!(!format!("{:?}", map).is_empty());

    let elem1 = element(42, "ElementOne", 62);
    map.insert(elem1);

    let msg = format!("{:?}", map);
    // check if indexed fields are present in debug output
    assert!(msg.contains("42"));

    let new_map = map.clone();
    assert_eq!(new_map.len(), map.len());
}
