//! Keyed adapters: collections addressed by an arbitrary integer key.
//!
//! A `HashMap<u64, V>` or `BTreeMap<u64, V>` is protected cell by cell under
//! its keys; the shadow table is a map of the same kind from keys to lock
//! states.  Reconciliation is keyed: the table is cleared and rebuilt with a
//! fresh unlocked lock for every current key.  That is safe because
//! structural edits happen only under the exclusive room hold, while no cell
//! hold exists, and no positional ambiguity arises since locks are addressed
//! by key.

use std::collections::BTreeMap;
use std::collections::HashMap;

use vstd::prelude::*;

use crate::collection::{Collection, ShadowLocksCollection};
use crate::lock::LockState;

verus! {

broadcast use {vstd::std_specs::btree::group_btree_axioms, vstd::std_specs::hash::group_hash_axioms};

impl<V> Collection for HashMap<u64, V> {
    type Idx = u64;

    type Output = V;

    type ShadowLocks = HashMap<u64, LockState>;

    open spec fn contents(&self) -> Map<u64, V> {
        self@
    }

    fn index(&self, index: &u64) -> (r: Option<&V>) {
        self.get(index)
    }

    fn store(&mut self, index: &u64, value: V) -> (r: bool) {
        if self.contains_key(index) {
            self.insert(*index, value);
            true
        } else {
            false
        }
    }

    fn indices(&self) -> (r: Vec<u64>) {
        let mut r: Vec<u64> = Vec::new();
        for k in it: self.keys()
            invariant
                r@ == it.seq().take(it.index()).unref(),
                r@.len() == it.index(),
                r@.no_duplicates(),
                forall|x: u64| #[trigger] r@.contains(x) ==> self@.dom().contains(x),
                it.seq().len() == self@.dom().len(),
                it.seq().unref().to_set() == self@.dom(),
                it.seq().unref().no_duplicates(),
        {
            proof {
                let s = it.seq();
                assert(*k == s.unref()[it.index()]);
                assert(s.take(it.index() + 1).unref() =~= s.unref().take(it.index() + 1));
                assert(s.take(it.index()).unref() =~= s.unref().take(it.index()));
                assert(s.unref().take(it.index() + 1).no_duplicates());
                assert(s.unref()[it.index()] == s.unref().take(it.index() + 1)[it.index()]);
                assert(s.unref().to_set().contains(*k));
            }
            r.push(*k);
            proof {
                assert(r@ =~= it.seq().unref().take(it.index() + 1));
                assert(r@ =~= it.seq().take(it.index() + 1).unref());
            }
        }
        proof {
            assert(r@.len() == self@.dom().len());
            r@.unique_seq_to_set();
            assert(r@.to_set().subset_of(self@.dom())) by {
                assert forall|x: u64| #[trigger] r@.to_set().contains(x) implies self@.dom().contains(
                    x,
                ) by {
                    assert(r@.contains(x));
                }
            }
            assert forall|x: u64| #[trigger] self@.dom().contains(x) implies r@.to_set().contains(
                x,
            ) by {
                if !r@.to_set().contains(x) {
                    r@.to_set().lemma_subset_not_in_lt(self@.dom(), x);
                }
            }
            assert(r@.to_set() =~= self@.dom());
        }
        r
    }

    fn shadow_locks(&self) -> (r: HashMap<u64, LockState>) {
        let keys = self.indices();
        let mut locks: HashMap<u64, LockState> = HashMap::new();
        ShadowLocksCollection::update_indices(&mut locks, &keys);
        locks
    }
}

impl ShadowLocksCollection for HashMap<u64, LockState> {
    type Idx = u64;

    open spec fn locks(&self) -> Map<u64, LockState> {
        self@
    }

    open spec fn valid_keys(keys: Seq<u64>) -> bool {
        keys.no_duplicates()
    }

    fn index(&self, index: &u64) -> (r: Option<LockState>) {
        match self.get(index) {
            Some(s) => Some(*s),
            None => None,
        }
    }

    fn set_state(&mut self, index: &u64, state: LockState) -> (r: bool) {
        if self.contains_key(index) {
            self.insert(*index, state);
            true
        } else {
            false
        }
    }

    /// Keyed reconciliation: clear the table and rebuild it with a fresh
    /// unlocked lock for every key in `indices`.
    fn update_indices(&mut self, indices: &Vec<u64>)
        ensures
            forall|k: u64| #[trigger] final(self)@.dom().contains(k) ==> final(self)@[k]
                == LockState::Unlocked,
    {
        let mut fresh: HashMap<u64, LockState> = HashMap::new();
        let n = indices.len();
        let mut i: usize = 0;
        while i < n
            invariant
                i <= n,
                n == indices@.len(),
                fresh@.dom() == indices@.take(i as int).to_set(),
                forall|k: u64| #[trigger] fresh@.dom().contains(k) ==> fresh@[k]
                    == LockState::Unlocked,
                vstd::std_specs::hash::obeys_key_model::<u64>(),
                vstd::std_specs::hash::builds_valid_hashers::<std::hash::RandomState>(),
            decreases n - i,
        {
            fresh.insert(indices[i], LockState::Unlocked);
            proof {
                Seq::lemma_to_set_insert_commutes(indices@.take(i as int), indices@[i as int]);
                assert(indices@.take(i + 1) =~= indices@.take(i as int) + seq![indices@[i as int]]);
                assert(fresh@.dom() =~= indices@.take(i + 1).to_set());
            }
            i = i + 1;
        }
        proof {
            assert(indices@.take(n as int) =~= indices@);
        }
        *self = fresh;
    }
}

impl<V> Collection for BTreeMap<u64, V> {
    type Idx = u64;

    type Output = V;

    type ShadowLocks = BTreeMap<u64, LockState>;

    open spec fn contents(&self) -> Map<u64, V> {
        self@
    }

    fn index(&self, index: &u64) -> (r: Option<&V>) {
        self.get(index)
    }

    fn store(&mut self, index: &u64, value: V) -> (r: bool) {
        if self.contains_key(index) {
            self.insert(*index, value);
            true
        } else {
            false
        }
    }

    fn indices(&self) -> (r: Vec<u64>) {
        let mut r: Vec<u64> = Vec::new();
        for k in it: self.keys()
            invariant
                r@ == it.seq().take(it.index()).unref(),
                r@.len() == it.index(),
                r@.no_duplicates(),
                forall|x: u64| #[trigger] r@.contains(x) ==> self@.dom().contains(x),
                it.seq().len() == self@.dom().len(),
                it.seq().unref().to_set() == self@.dom(),
                it.seq().unref().no_duplicates(),
        {
            proof {
                let s = it.seq();
                assert(*k == s.unref()[it.index()]);
                assert(s.take(it.index() + 1).unref() =~= s.unref().take(it.index() + 1));
                assert(s.take(it.index()).unref() =~= s.unref().take(it.index()));
                assert(s.unref().take(it.index() + 1).no_duplicates());
                assert(s.unref()[it.index()] == s.unref().take(it.index() + 1)[it.index()]);
                assert(s.unref().to_set().contains(*k));
            }
            r.push(*k);
            proof {
                assert(r@ =~= it.seq().unref().take(it.index() + 1));
                assert(r@ =~= it.seq().take(it.index() + 1).unref());
            }
        }
        proof {
            assert(r@.len() == self@.dom().len());
            r@.unique_seq_to_set();
            assert(r@.to_set().subset_of(self@.dom())) by {
                assert forall|x: u64| #[trigger] r@.to_set().contains(x) implies self@.dom().contains(
                    x,
                ) by {
                    assert(r@.contains(x));
                }
            }
            assert forall|x: u64| #[trigger] self@.dom().contains(x) implies r@.to_set().contains(
                x,
            ) by {
                if !r@.to_set().contains(x) {
                    r@.to_set().lemma_subset_not_in_lt(self@.dom(), x);
                }
            }
            assert(r@.to_set() =~= self@.dom());
        }
        r
    }

    fn shadow_locks(&self) -> (r: BTreeMap<u64, LockState>) {
        let keys = self.indices();
        let mut locks: BTreeMap<u64, LockState> = BTreeMap::new();
        ShadowLocksCollection::update_indices(&mut locks, &keys);
        locks
    }
}

impl ShadowLocksCollection for BTreeMap<u64, LockState> {
    type Idx = u64;

    open spec fn locks(&self) -> Map<u64, LockState> {
        self@
    }

    open spec fn valid_keys(keys: Seq<u64>) -> bool {
        keys.no_duplicates()
    }

    fn index(&self, index: &u64) -> (r: Option<LockState>) {
        match self.get(index) {
            Some(s) => Some(*s),
            None => None,
        }
    }

    fn set_state(&mut self, index: &u64, state: LockState) -> (r: bool) {
        if self.contains_key(index) {
            self.insert(*index, state);
            true
        } else {
            false
        }
    }

    /// Keyed reconciliation: clear the table and rebuild it with a fresh
    /// unlocked lock for every key in `indices`.
    fn update_indices(&mut self, indices: &Vec<u64>)
        ensures
            forall|k: u64| #[trigger] final(self)@.dom().contains(k) ==> final(self)@[k]
                == LockState::Unlocked,
    {
        let mut fresh: BTreeMap<u64, LockState> = BTreeMap::new();
        let n = indices.len();
        let mut i: usize = 0;
        while i < n
            invariant
                i <= n,
                n == indices@.len(),
                fresh@.dom() == indices@.take(i as int).to_set(),
                forall|k: u64| #[trigger] fresh@.dom().contains(k) ==> fresh@[k]
                    == LockState::Unlocked,
            decreases n - i,
        {
            fresh.insert(indices[i], LockState::Unlocked);
            proof {
                Seq::lemma_to_set_insert_commutes(indices@.take(i as int), indices@[i as int]);
                assert(indices@.take(i + 1) =~= indices@.take(i as int) + seq![indices@[i as int]]);
                assert(fresh@.dom() =~= indices@.take(i + 1).to_set());
            }
            i = i + 1;
        }
        proof {
            assert(indices@.take(n as int) =~= indices@);
        }
        *self = fresh;
    }
}

} // verus!
