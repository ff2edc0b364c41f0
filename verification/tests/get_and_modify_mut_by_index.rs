use multi_index_map::{IndexKind, MultiIndexMap, Record};

const FIELD1: usize = 0;
const FIELD3: usize = 1;

fn element(field1: u64, field2: usize, field3: u64) -> Record {
    Record::new(vec![field1, field3], field2.to_le_bytes().to_vec())
}

fn field2(record: &Record) -> usize {
    let mut bytes = [0u8; 8];
    bytes.copy_from_slice(&record.payload);
    usize::from_le_bytes(bytes)
}

fn filled() -> MultiIndexMap {
    let mut map = MultiIndexMap::new(vec![IndexKind::HashedNonUnique, IndexKind::HashedUnique]);
    for i in 0..10 {
        if i % 2 == 0 {
            map.insert(element(42, i, i as u64));
        } else {
            map.insert(element(37, i, i as u64));
        }
    }
    map
}

#[test]
fn test_non_unique_get_mut() {
    let mut map = filled();
    map.update_by_non_unique(FIELD1, 37, |payload| {
        let mut bytes = [0u8; 8];
        bytes.copy_from_slice(payload);
        let value = usize::from_le_bytes(bytes);
        (value * value).to_le_bytes().to_vec()
    });

    let refs = map.get_by_non_unique(FIELD1, 37);
    for i in 0..5 {
        assert_eq!(field2(refs[i]), (2 * i + 1) * (2 * i + 1));
    }
}

#[test]
fn test_non_unique_modify_mut() {
    let mut map = filled();

    let refs = map
        .modify_by_non_unique(FIELD1, 37, |x| {
            let mut x = x.clone();
            if field2(&x) > 5 {
                x.keys[FIELD3] = x.keys[FIELD3] * 2;
            } else {
                x.keys[FIELD1] = 0;
            }
            x
        })
        .unwrap();

    for i in 0..5 {
        if 2 * i + 1 > 5 {
            assert_eq!(refs[i].keys[FIELD1], 37);
            assert_eq!(field2(refs[i]), 2 * i + 1);
            assert_eq!(refs[i].keys[FIELD3], 4 * i as u64 + 2);
        } else {
            assert_eq!(refs[i].keys[FIELD1], 0);
            assert_eq!(field2(refs[i]), 2 * i + 1);
            assert_eq!(refs[i].keys[FIELD3], 2 * i as u64 + 1);
        }
    }
}
