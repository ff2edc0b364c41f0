use multi_index_map::{IndexKind, UniquenessError};

#[test]
fn kind_from_its_name() {
    assert_eq!(IndexKind::from_name("hashed_unique"), Some(IndexKind::HashedUnique));
    assert_eq!(IndexKind::from_name("ordered_unique"), Some(IndexKind::OrderedUnique));
    assert_eq!(IndexKind::from_name("hashed_non_unique"), Some(IndexKind::HashedNonUnique));
    assert_eq!(IndexKind::from_name("ordered_non_unique"), Some(IndexKind::OrderedNonUnique));
    assert_eq!(IndexKind::from_name("hashed"), None);
    assert_eq!(IndexKind::from_name("Hashed_Unique"), None);
    assert_eq!(IndexKind::from_name(""), None);
}

#[test]
fn kind_name_reads_back() {
    for kind in [
        IndexKind::HashedUnique,
        IndexKind::HashedNonUnique,
        IndexKind::OrderedUnique,
        IndexKind::OrderedNonUnique,
    ] {
        assert_eq!(IndexKind::from_name(kind.name()), Some(kind));
    }
    assert_eq!(IndexKind::OrderedNonUnique.name(), "ordered_non_unique");
}

#[test]
fn kind_traits() {
    assert!(IndexKind::HashedUnique.is_unique());
    assert!(!IndexKind::HashedUnique.is_ordered());
    assert!(IndexKind::OrderedUnique.is_unique());
    assert!(IndexKind::OrderedUnique.is_ordered());
    assert!(!IndexKind::HashedNonUnique.is_unique());
    assert!(!IndexKind::HashedNonUnique.is_ordered());
    assert!(!IndexKind::OrderedNonUnique.is_unique());
    assert!(IndexKind::OrderedNonUnique.is_ordered());
}

#[test]
fn uniqueness_error_in_words() {
    let error = UniquenessError(7u32);
    assert_eq!(error.to_string(), "Unable to insert element, uniqueness constraint violated");
    assert_eq!(error.into_inner(), 7);
}
