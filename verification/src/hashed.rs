//! Hash tables keyed by a field's value, hashed with the Fx hasher.
//!
//! What `vstd` says of `HashMap` holds only of tables whose hasher it knows to
//! give equal keys equal hashes, and it knows this of the standard hasher
//! alone. The Fx hasher is such a hasher too: it is a fixed function of the
//! bytes it is fed. So the calls on an Fx table go through the functions
//! below, each of which states of its call what `vstd` states of the same
//! call on a standard table.
use vstd::prelude::*;
use rustc_hash::FxHashMap;
use crate::arena::MAX_RESERVE;

verus! {

#[verifier::external_type_specification]
#[verifier::external_body]
pub struct ExFxBuildHasher(rustc_hash::FxBuildHasher);

/// `FxHashMap::default`: a table that holds no key.
#[verifier::external_body]
pub(crate) fn fx_new<V>() -> (table: FxHashMap<u64, V>)
    ensures
        table@.dom() == Set::<u64>::empty(),
{
    FxHashMap::default()
}

/// `HashMap::insert` on an Fx table: `key` leads to `value` afterwards, every
/// other key to what it led to before; what `key` led to before is returned.
#[verifier::external_body]
pub(crate) fn fx_insert<V>(table: &mut FxHashMap<u64, V>, key: u64, value: V) -> (previous: Option<V>)
    ensures
        final(table)@ == old(table)@.insert(key, value),
        previous == old(table)@.get(key),
{
    table.insert(key, value)
}

/// `HashMap::get` on an Fx table: what `key` leads to, if the table holds it.
#[verifier::external_body]
pub(crate) fn fx_get<'a, V>(table: &'a FxHashMap<u64, V>, key: u64) -> (found: Option<&'a V>)
    ensures
        match found {
            Some(value) => table@.contains_key(key) && *value == table@[key],
            None => !table@.contains_key(key),
        },
{
    table.get(&key)
}

/// `HashMap::remove` on an Fx table: `key` is gone afterwards and what it led
/// to is returned; every other key stays.
#[verifier::external_body]
pub(crate) fn fx_remove<V>(table: &mut FxHashMap<u64, V>, key: u64) -> (previous: Option<V>)
    ensures
        final(table)@ == old(table)@.remove(key),
        previous == old(table)@.get(key),
{
    table.remove(&key)
}

/// `HashMap::clear` on an Fx table: no key is left.
#[verifier::external_body]
pub(crate) fn fx_clear<V>(table: &mut FxHashMap<u64, V>)
    ensures
        final(table)@.dom() == Set::<u64>::empty(),
{
    table.clear()
}

/// `HashMap::reserve` on an Fx table: the contents stay. The bound keeps the
/// request below the size at which the allocation is refused.
#[verifier::external_body]
pub(crate) fn fx_reserve<V>(table: &mut FxHashMap<u64, V>, additional: usize)
    requires
        additional <= MAX_RESERVE,
    ensures
        final(table)@ == old(table)@,
{
    table.reserve(additional)
}

/// `HashMap::shrink_to_fit` on an Fx table: the contents stay.
#[verifier::external_body]
pub(crate) fn fx_shrink_to_fit<V>(table: &mut FxHashMap<u64, V>)
    ensures
        final(table)@ == old(table)@,
{
    table.shrink_to_fit()
}

/// `HashMap::keys` on an Fx table: every key once, in the order in which the
/// table happens to be walked.
#[verifier::external_body]
pub(crate) fn fx_keys<V>(table: &FxHashMap<u64, V>) -> (keys: Vec<u64>)
    ensures
        keys@.no_duplicates(),
        keys@.to_set() == table@.dom(),
{
    table.keys().copied().collect()
}

} // verus!
