//! The records that the container stores.
use vstd::prelude::*;

verus! {

/// One stored item.
///
/// `keys` holds the value of each indexed field, in the order in which the
/// container lists its indexes. `payload` is everything else the record
/// carries; no index ever looks at it.
#[derive(Clone, Debug, PartialEq, Eq)]
pub struct Record {
    pub keys: Vec<u64>,
    pub payload: Vec<u8>,
}

impl Record {
    /// The record that has the keys of `self` and carries `payload`.
    pub open spec fn with_payload(self, payload: Vec<u8>) -> Record {
        Record { keys: self.keys, payload }
    }

    pub fn new(keys: Vec<u64>, payload: Vec<u8>) -> (record: Record)
        ensures
            record.keys == keys,
            record.payload == payload,
    {
        Record { keys, payload }
    }
}

} // verus!
