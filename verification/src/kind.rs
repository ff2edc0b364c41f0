//! The four kinds of index.
use vstd::prelude::*;

verus! {

/// How an index finds its keys, and whether two records may share one.
#[derive(Clone, Copy, Debug, PartialEq, Eq, Structural)]
pub enum IndexKind {
    /// A hash table in which each key belongs to one record.
    HashedUnique,
    /// A hash table in which any number of records may share a key.
    HashedNonUnique,
    /// A sorted table in which each key belongs to one record.
    OrderedUnique,
    /// A sorted table in which any number of records may share a key.
    OrderedNonUnique,
}

impl IndexKind {
    /// Whether a key may belong to one record only.
    pub open spec fn unique(self) -> bool {
        self == IndexKind::HashedUnique || self == IndexKind::OrderedUnique
    }

    /// Whether the keys are kept sorted.
    pub open spec fn ordered(self) -> bool {
        self == IndexKind::OrderedUnique || self == IndexKind::OrderedNonUnique
    }

    /// The kind with the given traits.
    pub open spec fn of(ordered: bool, unique: bool) -> IndexKind {
        if ordered {
            if unique {
                IndexKind::OrderedUnique
            } else {
                IndexKind::OrderedNonUnique
            }
        } else {
            if unique {
                IndexKind::HashedUnique
            } else {
                IndexKind::HashedNonUnique
            }
        }
    }

    pub fn is_unique(self) -> (unique: bool)
        ensures
            unique == self.unique(),
    {
        match self {
            IndexKind::HashedUnique => true,
            IndexKind::OrderedUnique => true,
            IndexKind::HashedNonUnique => false,
            IndexKind::OrderedNonUnique => false,
        }
    }

    pub fn is_ordered(self) -> (ordered: bool)
        ensures
            ordered == self.ordered(),
    {
        match self {
            IndexKind::OrderedUnique => true,
            IndexKind::OrderedNonUnique => true,
            IndexKind::HashedUnique => false,
            IndexKind::HashedNonUnique => false,
        }
    }

    /// The kind that a name stands for.
    pub open spec fn named(name: Seq<char>) -> Option<IndexKind> {
        if name == "hashed_unique"@ {
            Some(IndexKind::HashedUnique)
        } else if name == "ordered_unique"@ {
            Some(IndexKind::OrderedUnique)
        } else if name == "hashed_non_unique"@ {
            Some(IndexKind::HashedNonUnique)
        } else if name == "ordered_non_unique"@ {
            Some(IndexKind::OrderedNonUnique)
        } else {
            None
        }
    }

    /// Reads the kind from its name, as a field's declaration spells it:
    /// `hashed_unique`, `ordered_unique`, `hashed_non_unique` or
    /// `ordered_non_unique`. Any other text names no kind.
    pub fn from_name(name: &str) -> (kind: Option<IndexKind>)
        ensures
            kind == IndexKind::named(name@),
    {
        let name = name.to_owned();
        if name == "hashed_unique".to_owned() {
            Some(IndexKind::HashedUnique)
        } else if name == "ordered_unique".to_owned() {
            Some(IndexKind::OrderedUnique)
        } else if name == "hashed_non_unique".to_owned() {
            Some(IndexKind::HashedNonUnique)
        } else if name == "ordered_non_unique".to_owned() {
            Some(IndexKind::OrderedNonUnique)
        } else {
            None
        }
    }

    /// The name of the kind, as a field's declaration spells it.
    pub fn name(self) -> (name: &'static str)
        ensures
            IndexKind::named(name@) == Some(self),
    {
        proof {
            reveal_strlit("hashed_unique");
            reveal_strlit("ordered_unique");
            reveal_strlit("hashed_non_unique");
            reveal_strlit("ordered_non_unique");
            assert("hashed_unique"@.len() == 13);
            assert("ordered_unique"@.len() == 14);
            assert("hashed_non_unique"@.len() == 17);
        }
        match self {
            IndexKind::HashedUnique => "hashed_unique",
            IndexKind::OrderedUnique => "ordered_unique",
            IndexKind::HashedNonUnique => "hashed_non_unique",
            IndexKind::OrderedNonUnique => "ordered_non_unique",
        }
    }
}

} // verus!
