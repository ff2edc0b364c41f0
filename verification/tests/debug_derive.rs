use multi_index_map::{Arena, Index, IndexKind, MultiIndexMap, Record};

fn element(field1: u64, field2: &str) -> Record {
    Record::new(vec![field1], field2.as_bytes().to_vec())
}

#[test]
fn debug_derive_should_compile() {
    let mut map = MultiIndexMap::new(vec![IndexKind::HashedUnique]);

    // check that formatting produces non empty strings
    assert!(!format!("{:?}", Index::new(IndexKind::HashedUnique)).is_empty());
    assert!(!format!("{:?}", Arena::new()).is_empty());
    assert!(!format!("{:?}", map).is_empty());

    let elem1 = element(42, "ElementOne");
    map.insert(elem1);

    let msg = format!("{:?}", map);
    // check if stored field 1 is present in debug output
    assert!(msg.contains("42"));
}
