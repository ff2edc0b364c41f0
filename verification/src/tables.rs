//! Keeping a row of indexes in step with one record: entering its slot under
//! its keys, striking it, and moving it when keys change.
use vstd::prelude::*;
use crate::index::Index;

verus! {

/// `after` is `before` with `slot` entered under `keys[j]` in each index `j`
/// below `upto`.
pub open spec fn entered(
    before: Seq<Index>,
    after: Seq<Index>,
    upto: int,
    keys: Seq<u64>,
    slot: usize,
) -> bool {
    &&& after.len() == before.len()
    &&& forall|j: int| 0 <= j < after.len() ==> (#[trigger] after[j]).wf() && after[j].kind() == before[j].kind()
    &&& forall|j: int, key: u64|
        0 <= j < after.len() ==> #[trigger] after[j].slots(key) == if j < upto && key == keys[j] {
            before[j].slots(key).insert(slot)
        } else {
            before[j].slots(key)
        }
}

/// `after` is `before` with `slot` struck from under `keys[j]` in each index
/// `j` below `upto`.
pub open spec fn struck(
    before: Seq<Index>,
    after: Seq<Index>,
    upto: int,
    keys: Seq<u64>,
    slot: usize,
) -> bool {
    &&& after.len() == before.len()
    &&& forall|j: int| 0 <= j < after.len() ==> (#[trigger] after[j]).wf() && after[j].kind() == before[j].kind()
    &&& forall|j: int, key: u64|
        0 <= j < after.len() ==> #[trigger] after[j].slots(key) == if j < upto && key == keys[j] {
            before[j].slots(key).remove(slot)
        } else {
            before[j].slots(key)
        }
}

/// `after` is `before` with `slot` moved from under `from[j]` to under `to[j]`
/// in each index `j` below `upto`.
pub open spec fn moved(
    before: Seq<Index>,
    after: Seq<Index>,
    upto: int,
    from: Seq<u64>,
    to: Seq<u64>,
    slot: usize,
) -> bool {
    &&& after.len() == before.len()
    &&& forall|j: int| 0 <= j < after.len() ==> (#[trigger] after[j]).wf() && after[j].kind() == before[j].kind()
    &&& forall|j: int, key: u64|
        0 <= j < after.len() ==> #[trigger] after[j].slots(key) == if j < upto && key == to[j] {
            before[j].slots(key).insert(slot)
        } else if j < upto && key == from[j] {
            before[j].slots(key).remove(slot)
        } else {
            before[j].slots(key)
        }
}

/// Enters `slot` under `keys[j]` in every index `j`.
pub(crate) fn enter_all(indexes: &mut Vec<Index>, keys: &Vec<u64>, slot: usize)
    requires
        old(indexes)@.len() == keys@.len(),
        forall|j: int| 0 <= j < old(indexes)@.len() ==> (#[trigger] old(indexes)@[j]).wf(),
        forall|j: int|
            0 <= j < old(indexes)@.len() && (#[trigger] old(indexes)@[j]).kind().unique()
                ==> old(indexes)@[j].slots(keys@[j]).is_empty(),
    ensures
        entered(old(indexes)@, final(indexes)@, keys@.len() as int, keys@, slot),
{
    let n: usize = indexes.len();
    let mut i: usize = 0;
    while i < n
        invariant
            i <= n,
            n == keys@.len(),
            n == old(indexes)@.len(),
            entered(old(indexes)@, indexes@, i as int, keys@, slot),
            forall|j: int|
                0 <= j < old(indexes)@.len() && (#[trigger] old(indexes)@[j]).kind().unique()
                    ==> old(indexes)@[j].slots(keys@[j]).is_empty(),
        decreases n - i,
    {
        let key: u64 = keys[i];
        let ghost mid = indexes@;
        let index = &mut indexes[i];
        let done = index.insert(key, slot);
        proof {
            assert forall|j: int, k: u64| 0 <= j < indexes@.len() implies #[trigger] indexes@[j].slots(k)
                == if j < i + 1 && k == keys@[j] {
                old(indexes)@[j].slots(k).insert(slot)
            } else {
                old(indexes)@[j].slots(k)
            } by {
                if j != i {
                    assert(indexes@[j] == mid[j]);
                }
            }
        }
        i = i + 1;
    }
}

/// Strikes `slot` from under `keys[j]` in every index `j`.
pub(crate) fn strike_all(indexes: &mut Vec<Index>, keys: &Vec<u64>, slot: usize)
    requires
        old(indexes)@.len() == keys@.len(),
        forall|j: int| 0 <= j < old(indexes)@.len() ==> (#[trigger] old(indexes)@[j]).wf(),
    ensures
        struck(old(indexes)@, final(indexes)@, keys@.len() as int, keys@, slot),
{
    let n: usize = indexes.len();
    let mut i: usize = 0;
    while i < n
        invariant
            i <= n,
            n == keys@.len(),
            n == old(indexes)@.len(),
            struck(old(indexes)@, indexes@, i as int, keys@, slot),
        decreases n - i,
    {
        let key: u64 = keys[i];
        let ghost mid = indexes@;
        let index = &mut indexes[i];
        index.remove(key, slot);
        proof {
            assert forall|j: int, k: u64| 0 <= j < indexes@.len() implies #[trigger] indexes@[j].slots(k)
                == if j < i + 1 && k == keys@[j] {
                old(indexes)@[j].slots(k).remove(slot)
            } else {
                old(indexes)@[j].slots(k)
            } by {
                if j != i {
                    assert(indexes@[j] == mid[j]);
                }
            }
        }
        i = i + 1;
    }
}

/// Moves `slot` from under `from[j]` to under `to[j]` in every index `j` in
/// which the two differ. The other indexes are not touched.
pub(crate) fn move_all(indexes: &mut Vec<Index>, from: &Vec<u64>, to: &Vec<u64>, slot: usize)
    requires
        old(indexes)@.len() == from@.len(),
        old(indexes)@.len() == to@.len(),
        forall|j: int| 0 <= j < old(indexes)@.len() ==> (#[trigger] old(indexes)@[j]).wf(),
        forall|j: int|
            0 <= j < old(indexes)@.len() ==> (#[trigger] old(indexes)@[j]).slots(from@[j]).contains(slot),
        forall|j: int|
            0 <= j < old(indexes)@.len() && (#[trigger] old(indexes)@[j]).kind().unique() && from@[j]
                != to@[j] ==> old(indexes)@[j].slots(to@[j]).is_empty(),
    ensures
        moved(old(indexes)@, final(indexes)@, from@.len() as int, from@, to@, slot),
        forall|j: int|
            0 <= j < old(indexes)@.len() && from@[j] == to@[j] ==> #[trigger] final(indexes)@[j] == old(
                indexes,
            )@[j],
{
    let n: usize = indexes.len();
    let mut i: usize = 0;
    while i < n
        invariant
            i <= n,
            n == from@.len(),
            n == to@.len(),
            n == old(indexes)@.len(),
            moved(old(indexes)@, indexes@, i as int, from@, to@, slot),
            forall|j: int|
                0 <= j < n && (j >= i || from@[j] == to@[j]) ==> #[trigger] indexes@[j] == old(indexes)@[j],
            forall|j: int|
                0 <= j < old(indexes)@.len() ==> (#[trigger] old(indexes)@[j]).slots(from@[j]).contains(
                    slot,
                ),
            forall|j: int|
                0 <= j < old(indexes)@.len() && (#[trigger] old(indexes)@[j]).kind().unique() && from@[j]
                    != to@[j] ==> old(indexes)@[j].slots(to@[j]).is_empty(),
        decreases n - i,
    {
        let ghost mid = indexes@;
        if from[i] != to[i] {
            let index = &mut indexes[i];
            index.remove(from[i], slot);
            let done = index.insert(to[i], slot);
        }
        proof {
            assert forall|j: int, k: u64| 0 <= j < indexes@.len() implies #[trigger] indexes@[j].slots(k)
                == if j < i + 1 && k == to@[j] {
                old(indexes)@[j].slots(k).insert(slot)
            } else if j < i + 1 && k == from@[j] {
                old(indexes)@[j].slots(k).remove(slot)
            } else {
                old(indexes)@[j].slots(k)
            } by {
                if j != i {
                    assert(indexes@[j] == mid[j]);
                } else {
                    assert(mid[j] == old(indexes)@[j]);
                    if from@[j] == to@[j] {
                        assert(old(indexes)@[j].slots(to@[j]).insert(slot) =~= old(indexes)@[j].slots(
                            to@[j],
                        ));
                    }
                }
            }
            assert forall|j: int| 0 <= j < n && (j >= i + 1 || from@[j] == to@[j]) implies #[trigger] indexes@[j]
                == old(indexes)@[j] by {
                assert(indexes@[j] == mid[j]);
            }
        }
        i = i + 1;
    }
}

} // verus!
