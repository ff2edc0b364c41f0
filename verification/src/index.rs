//! The lookup tables: from a field's value to the slot, or slots, that hold a
//! record with that value.
use vstd::prelude::*;
use crate::arena::MAX_RESERVE;
use crate::error::UniquenessError;
use crate::kind::IndexKind;
use crate::order::ascending;
use crate::order::keys_ascending;
use crate::index::non_unique::NonUniqueIndex;
use crate::index::unique::UniqueIndex;

pub mod non_unique;
pub mod unique;

verus! {

broadcast use {vstd::std_specs::btree::group_btree_axioms, vstd::laws_cmp::group_laws_cmp};

/// The index of one field: unique or not, sorted or hashed.
#[derive(Clone, Debug)]
pub enum Index {
    Unique(UniqueIndex),
    NonUnique(NonUniqueIndex),
}

impl Index {
    pub open spec fn wf(&self) -> bool {
        match self {
            Index::Unique(index) => index.wf(),
            Index::NonUnique(index) => index.wf(),
        }
    }

    /// Which of the four kinds the index is of.
    pub open spec fn kind(&self) -> IndexKind {
        match self {
            Index::Unique(index) => IndexKind::of(index.ordered(), true),
            Index::NonUnique(index) => IndexKind::of(index.ordered(), false),
        }
    }

    /// The slots that `key` leads to.
    pub open spec fn slots(&self, key: u64) -> Set<usize> {
        match self {
            Index::Unique(index) => index.slots(key),
            Index::NonUnique(index) => index.slots(key),
        }
    }

    /// The keys that the index holds.
    pub open spec fn keys(&self) -> Set<u64> {
        match self {
            Index::Unique(index) => index@.dom(),
            Index::NonUnique(index) => index@.dom(),
        }
    }

    /// A held key leads to a slot, and a key that leads to a slot is held.
    pub proof fn lemma_keys_lead_somewhere(&self, key: u64)
        requires
            self.wf(),
        ensures
            self.keys().contains(key) <==> !self.slots(key).is_empty(),
    {
        match self {
            Index::Unique(index) => {
                if index@.contains_key(key) {
                    assert(index.slots(key).contains(index@[key]));
                }
            },
            Index::NonUnique(index) => {},
        }
    }

    /// An index of the given kind that holds no key.
    pub fn new(kind: IndexKind) -> (index: Index)
        ensures
            index.wf(),
            index.kind() == kind,
            forall|key: u64| index.slots(key) == Set::<usize>::empty(),
            index.keys() == Set::<u64>::empty(),
    {
        match kind {
            IndexKind::HashedUnique => Index::Unique(UniqueIndex::new(false)),
            IndexKind::OrderedUnique => Index::Unique(UniqueIndex::new(true)),
            IndexKind::HashedNonUnique => Index::NonUnique(NonUniqueIndex::new(false)),
            IndexKind::OrderedNonUnique => Index::NonUnique(NonUniqueIndex::new(true)),
        }
    }

    /// Which of the four kinds the index is of.
    pub fn get_kind(&self) -> (kind: IndexKind)
        ensures
            kind == self.kind(),
    {
        match self {
            Index::Unique(index) => if index.is_ordered() {
                IndexKind::OrderedUnique
            } else {
                IndexKind::HashedUnique
            },
            Index::NonUnique(index) => if index.is_ordered() {
                IndexKind::OrderedNonUnique
            } else {
                IndexKind::HashedNonUnique
            },
        }
    }

    /// The slots that `key` leads to, from the lowest to the highest.
    pub fn get(&self, key: u64) -> (slots: Vec<usize>)
        ensures
            ascending(slots@),
            slots@.to_set() == self.slots(key),
    {
        match self {
            Index::Unique(index) => {
                let mut slots: Vec<usize> = Vec::new();
                match index.get(key) {
                    Some(slot) => {
                        slots.push(slot);
                        assert(slots@.to_set() =~= set![slot]) by {
                            assert(slots@[0] == slot);
                        }
                    },
                    None => {
                    },
                }
                slots
            },
            Index::NonUnique(index) => index.get(key),
        }
    }

    /// The one slot that `key` leads to in a unique index.
    pub fn get_unique(&self, key: u64) -> (slot: Option<usize>)
        ensures
            match slot {
                Some(slot) => self.kind().unique() && self.slots(key) == set![slot],
                None => !self.kind().unique() || self.slots(key) == Set::<usize>::empty(),
            },
    {
        match self {
            Index::Unique(index) => index.get(key),
            Index::NonUnique(_) => None,
        }
    }

    /// Whether `key` leads to any slot.
    pub fn contains_key(&self, key: u64) -> (held: bool)
        requires
            self.wf(),
        ensures
            held == !self.slots(key).is_empty(),
            held == self.keys().contains(key),
    {
        proof {
            self.lemma_keys_lead_somewhere(key);
        }
        match self {
            Index::Unique(index) => index.get(key).is_some(),
            Index::NonUnique(index) => index.contains_key(key),
        }
    }

    /// Lets `key` lead to `slot` as well. A unique index whose key leads
    /// somewhere already refuses and stays as it is.
    pub fn insert(&mut self, key: u64, slot: usize) -> (done: Result<(), UniquenessError<usize>>)
        requires
            old(self).wf(),
        ensures
            final(self).wf(),
            final(self).kind() == old(self).kind(),
            match done {
                Ok(_) => {
                    &&& old(self).kind().unique() ==> old(self).slots(key).is_empty()
                    &&& final(self).slots(key) == old(self).slots(key).insert(slot)
                    &&& forall|other: u64| other != key ==> final(self).slots(other) == old(self).slots(other)
                },
                Err(refused) => {
                    &&& old(self).kind().unique()
                    &&& !old(self).slots(key).is_empty()
                    &&& refused.0 == slot
                    &&& *final(self) == *old(self)
                },
            },
    {
        match self {
            Index::Unique(index) => {
                let ghost before = *index;
                let done = index.insert(key, slot);
                proof {
                    if done is Ok {
                        assert(index.slots(key) =~= before.slots(key).insert(slot));
                    } else {
                        assert(before.slots(key).contains(before@[key]));
                    }
                }
                done
            },
            Index::NonUnique(index) => {
                index.insert(key, slot);
                Ok(())
            },
        }
    }

    /// Takes `slot` out of the slots that `key` leads to. Says whether it was
    /// among them.
    pub fn remove(&mut self, key: u64, slot: usize) -> (was_there: bool)
        requires
            old(self).wf(),
        ensures
            final(self).wf(),
            final(self).kind() == old(self).kind(),
            was_there == old(self).slots(key).contains(slot),
            final(self).slots(key) == old(self).slots(key).remove(slot),
            forall|other: u64| other != key ==> final(self).slots(other) == old(self).slots(other),
    {
        match self {
            Index::Unique(index) => match index.get(key) {
                Some(held) => {
                    if held == slot {
                        index.remove(key);
                        true
                    } else {
                        false
                    }
                },
                None => false,
            },
            Index::NonUnique(index) => index.remove(key, slot),
        }
    }

    /// Forgets every key.
    pub fn clear(&mut self)
        ensures
            final(self).wf(),
            final(self).kind() == old(self).kind(),
            forall|key: u64| final(self).slots(key) == Set::<usize>::empty(),
            final(self).keys() == Set::<u64>::empty(),
    {
        match self {
            Index::Unique(index) => {
                index.clear();
            },
            Index::NonUnique(index) => {
                index.clear();
            },
        }
    }

    /// Makes room for `additional` more keys in a hashed index. A sorted index
    /// has nothing to set aside and is left exactly as it is.
    pub fn reserve(&mut self, additional: usize)
        requires
            additional <= MAX_RESERVE,
            old(self).wf(),
        ensures
            final(self).wf(),
            final(self).kind() == old(self).kind(),
            forall|key: u64| final(self).slots(key) == old(self).slots(key),
            final(self).keys() == old(self).keys(),
            old(self).kind().ordered() ==> *final(self) == *old(self),
    {
        match self {
            Index::Unique(index) => {
                index.reserve(additional);
            },
            Index::NonUnique(index) => {
                index.reserve(additional);
            },
        }
    }

    /// Gives back the room that no key needs in a hashed index. A sorted index
    /// holds none and is left exactly as it is.
    pub fn shrink_to_fit(&mut self)
        requires
            old(self).wf(),
        ensures
            final(self).wf(),
            final(self).kind() == old(self).kind(),
            forall|key: u64| final(self).slots(key) == old(self).slots(key),
            final(self).keys() == old(self).keys(),
            old(self).kind().ordered() ==> *final(self) == *old(self),
    {
        match self {
            Index::Unique(index) => {
                index.shrink_to_fit();
            },
            Index::NonUnique(index) => {
                index.shrink_to_fit();
            },
        }
    }

    /// The keys, each once: from the lowest to the highest in a sorted index,
    /// in the table's own order in a hashed one.
    pub fn key_list(&self) -> (keys: Vec<u64>)
        ensures
            keys@.no_duplicates(),
            keys@.to_set() == self.keys(),
            self.kind().ordered() ==> keys_ascending(keys@),
    {
        match self {
            Index::Unique(index) => index.keys(),
            Index::NonUnique(index) => index.keys(),
        }
    }

    /// Every pair of a key and a slot that it leads to, each once: key by key
    /// in the order of [`Index::key_list`], and under one key from the lowest
    /// slot to the highest.
    pub fn entries(&self) -> (out: Vec<(u64, usize)>)
        requires
            self.wf(),
        ensures
            self.walks(out@),
    {
        let keys = self.key_list();
        let mut out: Vec<(u64, usize)> = Vec::new();
        let ghost mut owner: Seq<int> = Seq::empty();
        let n: usize = keys.len();
        let mut a: usize = 0;
        while a < n
            invariant
                a <= n,
                n == keys@.len(),
                self.wf(),
                keys@.no_duplicates(),
                keys@.to_set() == self.keys(),
                owner.len() == out@.len(),
                forall|i: int|
                    0 <= i < out@.len() ==> 0 <= #[trigger] owner[i] < a && out@[i].0 == keys@[owner[i]]
                        && self.slots(out@[i].0).contains(out@[i].1),
                forall|i: int, j: int| 0 <= i < j < out@.len() ==> #[trigger] owner[i] <= #[trigger] owner[j],
                forall|i: int, j: int|
                    0 <= i < j < out@.len() && #[trigger] owner[i] == #[trigger] owner[j] ==> out@[i].1
                        < out@[j].1,
                forall|b: int, slot: usize|
                    0 <= b < a && self.slots(keys@[b]).contains(slot) ==> #[trigger] out@.contains(
                        (keys@[b], slot),
                    ),
            decreases n - a,
        {
            let key: u64 = keys[a];
            let slots = self.get(key);
            let ghost base = out@;
            let ghost base_owner = owner;
            let m: usize = slots.len();
            let mut t: usize = 0;
            while t < m
                invariant
                    t <= m,
                    m == slots@.len(),
                    a < n,
                    n == keys@.len(),
                    key == keys@[a as int],
                    ascending(slots@),
                    slots@.to_set() == self.slots(key),
                    owner.len() == out@.len(),
                    out@.len() == base.len() + t,
                    base_owner.len() == base.len(),
                    forall|i: int| 0 <= i < base.len() ==> out@[i] == base[i] && owner[i] == base_owner[i],
                    forall|i: int| 0 <= i < base.len() ==> 0 <= #[trigger] base_owner[i] < a,
                    forall|i: int|
                        0 <= i < t ==> #[trigger] out@[base.len() + i] == (key, slots@[i]) && owner[base.len()
                            + i] == a,
                decreases m - t,
            {
                out.push((key, slots[t]));
                proof {
                    owner = owner.push(a as int);
                }
                t = t + 1;
            }
            proof {
                assert forall|i: int| 0 <= i < out@.len() implies 0 <= #[trigger] owner[i] < a + 1
                    && out@[i].0 == keys@[owner[i]] && self.slots(out@[i].0).contains(out@[i].1) by {
                    if i >= base.len() {
                        let u = i - base.len();
                        assert(out@[base.len() + u] == (key, slots@[u]));
                        assert(slots@.to_set().contains(slots@[u]));
                    } else {
                        assert(out@[i] == base[i]);
                        assert(owner[i] == base_owner[i]);
                    }
                }
                assert forall|i: int, j: int| 0 <= i < j < out@.len() implies #[trigger] owner[i]
                    <= #[trigger] owner[j] by {
                    if j >= base.len() {
                        let u = j - base.len();
                        assert(out@[base.len() + u] == (key, slots@[u]));
                    }
                    if i >= base.len() {
                        let u = i - base.len();
                        assert(out@[base.len() + u] == (key, slots@[u]));
                    }
                }
                assert forall|i: int, j: int|
                    0 <= i < j < out@.len() && #[trigger] owner[i] == #[trigger] owner[j] implies out@[i].1
                    < out@[j].1 by {
                    if i >= base.len() {
                        let u = i - base.len();
                        let v = j - base.len();
                        assert(out@[base.len() + u] == (key, slots@[u]));
                        assert(out@[base.len() + v] == (key, slots@[v]));
                    } else if j >= base.len() {
                        let v = j - base.len();
                        assert(out@[base.len() + v] == (key, slots@[v]));
                        assert(owner[i] == base_owner[i]);
                    } else {
                        assert(out@[i] == base[i] && out@[j] == base[j]);
                        assert(owner[i] == base_owner[i] && owner[j] == base_owner[j]);
                    }
                }
                assert forall|b: int, slot: usize|
                    0 <= b < a + 1 && self.slots(keys@[b]).contains(slot) implies #[trigger] out@.contains(
                    (keys@[b], slot),
                ) by {
                    if b < a {
                        assert(base.contains((keys@[b], slot)));
                        let i = choose|i: int| 0 <= i < base.len() && base[i] == (keys@[b], slot);
                        assert(out@[i] == (keys@[b], slot));
                    } else {
                        assert(slots@.to_set().contains(slot));
                        let u = choose|u: int| 0 <= u < slots@.len() && slots@[u] == slot;
                        assert(out@[base.len() + u] == (key, slots@[u]));
                    }
                }
            }
            a = a + 1;
        }
        proof {
            assert forall|key: u64, slot: usize| self.slots(key).contains(slot) implies #[trigger] out@.contains(
                (key, slot),
            ) by {
                self.lemma_keys_lead_somewhere(key);
                assert(keys@.to_set().contains(key));
                let b = choose|b: int| 0 <= b < keys@.len() && keys@[b] == key;
                assert(self.slots(keys@[b]).contains(slot));
            }
            assert forall|i: int| 0 <= i < out@.len() implies self.slots((#[trigger] out@[i]).0).contains(
                out@[i].1,
            ) by {
                assert(0 <= owner[i]);
            }
            assert forall|i: int, j: int|
                0 <= i < j < out@.len() && (#[trigger] out@[i]).0 == (#[trigger] out@[j]).0 implies out@[i].1
                < out@[j].1 by {
                assert(owner[i] == owner[j]);
            }
            assert forall|i: int, j: int, l: int|
                0 <= i < j < l < out@.len() && (#[trigger] out@[i]).0 == (#[trigger] out@[l]).0 implies (
            #[trigger] out@[j]).0 == out@[i].0 by {
                assert(owner[i] == owner[l]);
                assert(owner[i] <= owner[j] && owner[j] <= owner[l]);
            }
            if self.kind().ordered() {
                assert forall|i: int, j: int| 0 <= i < j < out@.len() implies (#[trigger] out@[i]).0 <= (
                #[trigger] out@[j]).0 by {
                    assert(owner[i] <= owner[j]);
                    if owner[i] < owner[j] {
                        assert(keys@[owner[i]] < keys@[owner[j]]);
                    }
                }
            }
        }
        out
    }

    /// The pairs of [`Index::entries`] from the last to the first: in a sorted
    /// index from the highest key to the lowest, and under one key from the
    /// highest slot to the lowest.
    pub fn entries_rev(&self) -> (out: Vec<(u64, usize)>)
        requires
            self.wf(),
        ensures
            self.walks(out@.reverse()),
    {
        let entries = self.entries();
        let mut out: Vec<(u64, usize)> = Vec::new();
        let n: usize = entries.len();
        let mut i: usize = n;
        while i > 0
            invariant
                i <= n,
                n == entries@.len(),
                out@.len() == n - i,
                forall|j: int| 0 <= j < out@.len() ==> #[trigger] out@[j] == entries@[n - 1 - j],
            decreases i,
        {
            i = i - 1;
            out.push(entries[i]);
        }
        assert(out@.reverse() =~= entries@);
        out
    }

    /// `out` is a walk through the index: it holds every pair of a key and a
    /// slot that the key leads to, the pairs of one key stand together and
    /// with rising slots, and in a sorted index the keys rise too.
    pub open spec fn walks(&self, out: Seq<(u64, usize)>) -> bool {
        &&& forall|i: int| 0 <= i < out.len() ==> self.slots((#[trigger] out[i]).0).contains(out[i].1)
        &&& forall|key: u64, slot: usize|
            self.slots(key).contains(slot) ==> #[trigger] out.contains((key, slot))
        &&& forall|i: int, j: int|
            0 <= i < j < out.len() && (#[trigger] out[i]).0 == (#[trigger] out[j]).0 ==> out[i].1 < out[j].1
        &&& forall|i: int, j: int, l: int|
            0 <= i < j < l < out.len() && (#[trigger] out[i]).0 == (#[trigger] out[l]).0 ==> (
            #[trigger] out[j]).0 == out[i].0
        &&& self.kind().ordered() ==> forall|i: int, j: int|
            0 <= i < j < out.len() ==> (#[trigger] out[i]).0 <= (#[trigger] out[j]).0
    }
}

} // verus!
