//! A container that keeps one set of records reachable through several keys at
//! once.
//!
//! The records live in an [`Arena`], each in a slot of its own. Every indexed
//! field of a record has a lookup table that leads from the field's value to the
//! slot, or slots, holding a record with that value. [`MultiIndexMap`] owns the
//! arena and the tables and keeps them in step through every insertion, removal
//! and change.
pub mod arena;
pub mod error;
pub mod hashed;
pub mod index;
pub mod iter;
pub mod kind;
pub mod laws;
pub mod map;
pub mod model;
pub mod order;
pub mod record;
pub mod tables;

pub use arena::Arena;
pub use error::UniquenessError;
pub use index::Index;
pub use index::non_unique::NonUniqueIndex;
pub use index::unique::UniqueIndex;
pub use iter::FieldIter;
pub use kind::IndexKind;
pub use map::MultiIndexMap;
pub use record::Record;
