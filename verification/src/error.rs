//! The error with which a duplicate key is turned away.
use vstd::prelude::*;

verus! {

/// A value was refused because a unique index already holds its key.
///
/// The refused value is handed back unchanged.
#[derive(Clone, Copy, Debug, PartialEq, Eq)]
pub struct UniquenessError<T>(pub T);

impl<T> UniquenessError<T> {
    /// What went wrong, in words.
    pub fn to_string(&self) -> (message: String)
        ensures
            message@ == "Unable to insert element, uniqueness constraint violated"@,
    {
        "Unable to insert element, uniqueness constraint violated".to_owned()
    }

    /// The value that was refused.
    pub fn into_inner(self) -> (value: T)
        ensures
            value == self.0,
    {
        self.0
    }
}

} // verus!
