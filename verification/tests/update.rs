use multi_index_map::{IndexKind, MultiIndexMap, Record};

const FIELD1: usize = 0;
const FIELD3: usize = 1;
const FIELD5: usize = 2;

fn kinds() -> Vec<IndexKind> {
    vec![
        IndexKind::HashedNonUnique,
        IndexKind::HashedUnique,
        IndexKind::HashedNonUnique,
    ]
}

// A short text as a key: its bytes, the first in the highest place.
fn text_key(text: &str) -> u64 {
    assert!(text.len() <= 8);
    let mut key: u64 = 0;
    for byte in text.bytes() {
        key = (key << 8) | byte as u64;
    }
    key
}

// The two fields that no index covers travel in the payload: a number in
// its first eight bytes, a text in the rest.
fn payload(field2: f64, field4: &str) -> Vec<u8> {
    let mut bytes = field2.to_le_bytes().to_vec();
    bytes.extend_from_slice(field4.as_bytes());
    bytes
}

fn element(field1: u64, field2: f64, field3: u64, field4: &str, field5: &str) -> Record {
    Record::new(vec![field1, field3, text_key(field5)], payload(field2, field4))
}

fn field2(record: &Record) -> f64 {
    let mut bytes = [0u8; 8];
    bytes.copy_from_slice(&record.payload[..8]);
    f64::from_le_bytes(bytes)
}

fn field4(record: &Record) -> String {
    String::from_utf8(record.payload[8..].to_vec()).unwrap()
}

fn filled() -> MultiIndexMap {
    let mut map = MultiIndexMap::new(kinds());
    for i in 0..10u64 {
        if i % 2 == 0 {
            map.insert(element(42, i as f64, i, &i.to_string(), "42"));
        } else {
            map.insert(element(37, i as f64, i, &i.to_string(), "37"));
        }
    }
    map
}

#[test]
fn test_non_unique_update() {
    let mut map = filled();

    let refs = map.update_by_non_unique(FIELD1, 37, |_| payload(99.0, "NinetyNine"));
    for r in refs.iter() {
        assert_eq!(field2(r), 99.0);
        assert_eq!(field4(r), "NinetyNine");
    }

    let refs = map.get_by_non_unique(FIELD1, 42);
    for (i, r) in refs.iter().enumerate() {
        assert_eq!(field2(r), i as f64 * 2.0);
        assert_eq!(field4(r), (i * 2).to_string());
    }
}

#[test]
fn test_non_unique_update_borrow() {
    let mut map = filled();

    let refs = map.update_by_non_unique(FIELD5, text_key("37"), |_| payload(99.0, "NinetyNine"));
    for r in refs.iter() {
        assert_eq!(field2(r), 99.0);
        assert_eq!(field4(r), "NinetyNine");
    }

    let refs = map.get_by_non_unique(FIELD1, 42);
    for (i, r) in refs.iter().enumerate() {
        assert_eq!(field2(r), i as f64 * 2.0);
        assert_eq!(field4(r), (i * 2).to_string());
    }
}

#[test]
fn test_unique_update() {
    let mut map = filled();

    let elem = map.update_by_unique(FIELD3, 0, |_| payload(99.0, "NinetyNine"));

    assert_eq!(elem, Some(&element(42, 99.0, 0, "NinetyNine", "42")));

    let elem = map.get_by_unique(FIELD3, 1);

    assert_eq!(elem, Some(&element(37, 1.0, 1, &1.to_string(), "37")));
}
