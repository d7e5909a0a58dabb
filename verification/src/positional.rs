//! Positional adapters: collections addressed by a dense integer position.
//!
//! A `Vec<V>`, a fixed-size array `[V; N]` or a `VecDeque<V>` is protected
//! cell by cell under its indices `0, 1, .., n - 1`; the shadow table is a
//! sequence of lock states of the same length.  Reconciliation
//! is positional: locks are kept by position up to the shorter of the old and
//! new lengths, fresh unlocked locks appear for new positions, and locks
//! beyond the new length are dropped.  A lock kept this way guards whichever
//! element now occupies its position; that is safe because structural edits
//! happen only under the exclusive room hold, while no cell hold exists.

use std::collections::VecDeque;

use vstd::prelude::*;
use vstd::pervasive::VecAdditionalExecFns;

use crate::collection::{all_unlocked, Collection, ShadowLocksCollection};
use crate::lock::LockState;

verus! {

broadcast use {vstd::array::group_array_axioms, vstd::std_specs::vecdeque::group_vec_dequeue_axioms};

/// A sequence read as a map from positions to elements.
pub open spec fn seq_as_map<V>(s: Seq<V>) -> Map<usize, V> {
    Map::new(|i: usize| i < s.len(), |i: usize| s[i as int])
}

/// The dense enumeration `0, 1, .., n - 1`.
pub open spec fn dense_keys(n: nat) -> Seq<usize> {
    Seq::new(n, |i: int| i as usize)
}

/// The dense enumeration contains exactly the positions below `n`.
pub proof fn lemma_dense_keys_to_set(n: nat)
    requires
        n <= usize::MAX,
    ensures
        dense_keys(n).to_set() == Set::new(|i: usize| i < n),
        dense_keys(n).no_duplicates(),
{
    assert forall|i: usize| i < n implies #[trigger] dense_keys(n).to_set().contains(i) by {
        assert(dense_keys(n)[i as int] == i);
    }
    assert(dense_keys(n).to_set() =~= Set::new(|i: usize| i < n));
}

impl<V> Collection for Vec<V> {
    type Idx = usize;

    type Output = V;

    type ShadowLocks = Vec<LockState>;

    open spec fn contents(&self) -> Map<usize, V> {
        seq_as_map(self@)
    }

    fn index(&self, index: &usize) -> (r: Option<&V>) {
        if *index < self.len() {
            Some(&self[*index])
        } else {
            None
        }
    }

    fn store(&mut self, index: &usize, value: V) -> (r: bool) {
        if *index < self.len() {
            self.set(*index, value);
            assert(self.contents() =~= old(self).contents().insert(*index, value));
            true
        } else {
            false
        }
    }

    fn indices(&self) -> (r: Vec<usize>) {
        let n = self.len();
        let mut r: Vec<usize> = Vec::new();
        let mut i: usize = 0;
        while i < n
            invariant
                i <= n,
                n == self@.len(),
                r@ == dense_keys(i as nat),
            decreases n - i,
        {
            r.push(i);
            assert(r@ =~= dense_keys((i + 1) as nat));
            i = i + 1;
        }
        proof {
            lemma_dense_keys_to_set(n as nat);
            assert(Set::new(|j: usize| j < n) =~= self.contents().dom());
        }
        r
    }

    fn shadow_locks(&self) -> (r: Vec<LockState>) {
        let n = self.len();
        let mut r: Vec<LockState> = Vec::new();
        let mut i: usize = 0;
        while i < n
            invariant
                i <= n,
                r@.len() == i,
                forall|j: int| 0 <= j < i ==> r@[j] == LockState::Unlocked,
            decreases n - i,
        {
            r.push(LockState::Unlocked);
            i = i + 1;
        }
        proof {
            assert(r.locks().dom() =~= self.contents().dom());
        }
        r
    }
}

impl<V, const N: usize> Collection for [V; N] {
    type Idx = usize;

    type Output = V;

    type ShadowLocks = Vec<LockState>;

    open spec fn contents(&self) -> Map<usize, V> {
        seq_as_map(self@)
    }

    fn index(&self, index: &usize) -> (r: Option<&V>) {
        if *index < N {
            Some(&self[*index])
        } else {
            None
        }
    }

    fn store(&mut self, index: &usize, value: V) -> (r: bool) {
        if *index < N {
            self[*index] = value;
            assert(self.contents() =~= old(self).contents().insert(*index, value));
            true
        } else {
            false
        }
    }

    fn indices(&self) -> (r: Vec<usize>) {
        let n: usize = N;
        let mut r: Vec<usize> = Vec::new();
        let mut i: usize = 0;
        while i < n
            invariant
                i <= n,
                n == N,
                r@ == dense_keys(i as nat),
            decreases n - i,
        {
            r.push(i);
            assert(r@ =~= dense_keys((i + 1) as nat));
            i = i + 1;
        }
        proof {
            lemma_dense_keys_to_set(n as nat);
            assert(Set::new(|j: usize| j < n) =~= self.contents().dom());
        }
        r
    }

    fn shadow_locks(&self) -> (r: Vec<LockState>) {
        let n: usize = N;
        let mut r: Vec<LockState> = Vec::new();
        let mut i: usize = 0;
        while i < n
            invariant
                i <= n,
                r@.len() == i,
                forall|j: int| 0 <= j < i ==> r@[j] == LockState::Unlocked,
            decreases n - i,
        {
            r.push(LockState::Unlocked);
            i = i + 1;
        }
        proof {
            assert(r.locks().dom() =~= self.contents().dom());
        }
        r
    }
}

/// Bounds-checked indexing into a deque.
fn vd_get<V>(v: &VecDeque<V>, i: usize) -> (r: &V)
    requires
        i < v@.len(),
    ensures
        *r == v@[i as int],
{
    &v[i]
}

impl<V> Collection for VecDeque<V> {
    type Idx = usize;

    type Output = V;

    type ShadowLocks = VecDeque<LockState>;

    open spec fn contents(&self) -> Map<usize, V> {
        seq_as_map(self@)
    }

    fn index(&self, index: &usize) -> (r: Option<&V>) {
        if *index < self.len() {
            Some(vd_get(self, *index))
        } else {
            None
        }
    }

    fn store(&mut self, index: &usize, value: V) -> (r: bool) {
        if *index < self.len() {
            let removed = self.remove(*index);
            proof {
                assert(removed is Some);
            }
            self.insert(*index, value);
            assert(self@ =~= old(self)@.update(*index as int, value));
            assert(self.contents() =~= old(self).contents().insert(*index, value));
            true
        } else {
            false
        }
    }

    fn indices(&self) -> (r: Vec<usize>) {
        let n = self.len();
        let mut r: Vec<usize> = Vec::new();
        let mut i: usize = 0;
        while i < n
            invariant
                i <= n,
                n == self@.len(),
                r@ == dense_keys(i as nat),
            decreases n - i,
        {
            r.push(i);
            assert(r@ =~= dense_keys((i + 1) as nat));
            i = i + 1;
        }
        proof {
            lemma_dense_keys_to_set(n as nat);
            assert(Set::new(|j: usize| j < n) =~= self.contents().dom());
        }
        r
    }

    fn shadow_locks(&self) -> (r: VecDeque<LockState>) {
        let n = self.len();
        let mut r: VecDeque<LockState> = VecDeque::new();
        let mut i: usize = 0;
        while i < n
            invariant
                i <= n,
                r@.len() == i,
                forall|j: int| 0 <= j < i ==> r@[j] == LockState::Unlocked,
            decreases n - i,
        {
            r.push_back(LockState::Unlocked);
            i = i + 1;
        }
        proof {
            assert(r.locks().dom() =~= self.contents().dom());
        }
        r
    }
}

impl ShadowLocksCollection for VecDeque<LockState> {
    type Idx = usize;

    open spec fn locks(&self) -> Map<usize, LockState> {
        seq_as_map(self@)
    }

    open spec fn valid_keys(keys: Seq<usize>) -> bool {
        keys == dense_keys(keys.len())
    }

    fn index(&self, index: &usize) -> (r: Option<LockState>) {
        if *index < self.len() {
            Some(*vd_get(self, *index))
        } else {
            None
        }
    }

    fn set_state(&mut self, index: &usize, state: LockState) -> (r: bool) {
        if *index < self.len() {
            let removed = self.remove(*index);
            proof {
                assert(removed is Some);
            }
            self.insert(*index, state);
            assert(self@ =~= old(self)@.update(*index as int, state));
            assert(self.locks() =~= old(self).locks().insert(*index, state));
            true
        } else {
            false
        }
    }

    /// Positional reconciliation: keep the first `min(old, new)` lock states,
    /// add fresh unlocked locks beyond, drop the rest.
    fn update_indices(&mut self, indices: &Vec<usize>)
        ensures
            final(self)@.len() == indices@.len(),
            forall|i: int| 0 <= i < final(self)@.len() ==> final(self)@[i] == (if i < old(
                self,
            )@.len() {
                old(self)@[i]
            } else {
                LockState::Unlocked
            }),
    {
        let n = indices.len();
        self.resize(n, LockState::Unlocked);
        proof {
            lemma_dense_keys_to_set(n as nat);
            assert(self.locks().dom() =~= indices@.to_set());
            assert forall|i: int| 0 <= i < self@.len() implies self@[i] == (if i < old(self)@.len() {
                old(self)@[i]
            } else {
                LockState::Unlocked
            }) by {
                if i < old(self)@.len() && i < n {
                    if n <= old(self)@.len() {
                        assert(self@[i] == old(self)@.subrange(0, n as int)[i]);
                    } else {
                        assert(self@[i] == old(self)@.subrange(0, old(self)@.len() as int)[i]);
                    }
                } else {
                    assert(vstd::pervasive::cloned(LockState::Unlocked, self@[i]));
                }
            }
            if all_unlocked(old(self).locks()) {
                assert forall|k: usize| #[trigger] self.locks().dom().contains(k) implies self.locks()[k]
                    == LockState::Unlocked by {
                    if k < old(self)@.len() && k < n {
                        assert(old(self).locks().dom().contains(k));
                    }
                }
            }
        }
    }
}

impl ShadowLocksCollection for Vec<LockState> {
    type Idx = usize;

    open spec fn locks(&self) -> Map<usize, LockState> {
        seq_as_map(self@)
    }

    open spec fn valid_keys(keys: Seq<usize>) -> bool {
        keys == dense_keys(keys.len())
    }

    fn index(&self, index: &usize) -> (r: Option<LockState>) {
        if *index < self.len() {
            Some(self[*index])
        } else {
            None
        }
    }

    fn set_state(&mut self, index: &usize, state: LockState) -> (r: bool) {
        if *index < self.len() {
            self.set(*index, state);
            assert(self.locks() =~= old(self).locks().insert(*index, state));
            true
        } else {
            false
        }
    }

    /// Positional reconciliation: keep the first `min(old, new)` lock states,
    /// add fresh unlocked locks beyond, drop the rest.
    fn update_indices(&mut self, indices: &Vec<usize>)
        ensures
            final(self)@.len() == indices@.len(),
            forall|i: int| 0 <= i < final(self)@.len() ==> final(self)@[i] == (if i < old(
                self,
            )@.len() {
                old(self)@[i]
            } else {
                LockState::Unlocked
            }),
    {
        let n = indices.len();
        self.resize(n, LockState::Unlocked);
        proof {
            lemma_dense_keys_to_set(n as nat);
            assert(self.locks().dom() =~= indices@.to_set());
            assert forall|i: int| 0 <= i < self@.len() implies self@[i] == (if i < old(self)@.len() {
                old(self)@[i]
            } else {
                LockState::Unlocked
            }) by {
                if i < old(self)@.len() && i < n {
                    if n <= old(self)@.len() {
                        assert(self@[i] == old(self)@.subrange(0, n as int)[i]);
                    } else {
                        assert(self@[i] == old(self)@.subrange(0, old(self)@.len() as int)[i]);
                    }
                } else {
                    assert(vstd::pervasive::cloned(LockState::Unlocked, self@[i]));
                }
            }
            if all_unlocked(old(self).locks()) {
                assert forall|k: usize| #[trigger] self.locks().dom().contains(k) implies self.locks()[k]
                    == LockState::Unlocked by {
                    if k < old(self)@.len() && k < n {
                        assert(old(self).locks().dom().contains(k));
                    }
                }
            }
        }
    }
}

} // verus!
