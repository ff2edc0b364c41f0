use multi_index_map::{IndexKind, MultiIndexMap, Record};

#[test]
fn test_unindexed_fields_dont_need_to_derive_clone() {
    let mut map = MultiIndexMap::new(vec![IndexKind::HashedUnique]);

    let elem1 = Record::new(vec![42], vec![1]);
    map.insert(elem1);
}
