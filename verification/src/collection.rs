//! Contracts that a protected collection and its shadow lock table must meet.
//!
//! The locking engine is generic over any pair of types implementing these
//! two traits: the collection holds the cells, the shadow table holds one
//! lock state per valid key.  Both are specified through a `Map` view, so
//! positional collections (dense integer keys) and keyed collections share
//! one engine.

use vstd::prelude::*;

use crate::lock::LockState;

verus! {

/// No lock in the table is held.
pub open spec fn all_unlocked<K>(m: Map<K, LockState>) -> bool {
    forall|k: K| #[trigger] m.dom().contains(k) ==> m[k] == LockState::Unlocked
}

/// A table holding one lock state per valid key of the protected collection.
pub trait ShadowLocksCollection: Sized {
    /// Type used as a key into the table.
    type Idx;

    /// The table as a map from keys to lock states.
    spec fn locks(&self) -> Map<Self::Idx, LockState>;

    /// Which key enumerations `update_indices` accepts: a positional table
    /// needs the dense enumeration `0, 1, .., n - 1`; a keyed table accepts
    /// any duplicate-free list.
    spec fn valid_keys(keys: Seq<Self::Idx>) -> bool;

    /// Looks up the lock state of a cell; absent iff the key is not valid.
    fn index(&self, index: &Self::Idx) -> (r: Option<LockState>)
        ensures
            match r {
                Some(s) => self.locks().dom().contains(*index) && s == self.locks()[*index],
                None => !self.locks().dom().contains(*index),
            },
    ;

    /// Replaces the lock state of an existing key; `false` iff the key is
    /// not valid, in which case nothing changes.
    fn set_state(&mut self, index: &Self::Idx, state: LockState) -> (r: bool)
        ensures
            r <==> old(self).locks().dom().contains(*index),
            r ==> final(self).locks() == old(self).locks().insert(*index, state),
            !r ==> final(self).locks() == old(self).locks(),
    ;

    /// Reconciles the table so that its key set matches `indices` exactly.
    /// A table in which no lock was held stays that way: reconciliation
    /// never conjures a hold.
    fn update_indices(&mut self, indices: &Vec<Self::Idx>)
        requires
            Self::valid_keys(indices@),
        ensures
            final(self).locks().dom() == indices@.to_set(),
            all_unlocked(old(self).locks()) ==> all_unlocked(final(self).locks()),
    ;
}

/// Functionality a collection must expose to be protected by a
/// [`LockerRoom`](crate::LockerRoom).
pub trait Collection: Sized {
    /// Type used as a key for a cell.
    type Idx;

    /// Type of the value held by one cell.
    type Output;

    /// Type of the shadow table that guards this collection's cells.
    type ShadowLocks: ShadowLocksCollection<Idx = Self::Idx>;

    /// The collection as a map from keys to cell values.
    spec fn contents(&self) -> Map<Self::Idx, Self::Output>;

    /// Indexing without panic; absent iff the key is not valid.
    fn index(&self, index: &Self::Idx) -> (r: Option<&Self::Output>)
        ensures
            match r {
                Some(v) => self.contents().dom().contains(*index) && *v == self.contents()[*index],
                None => !self.contents().dom().contains(*index),
            },
    ;

    /// Stores a value into an existing cell; `false` iff the key is not
    /// valid, in which case nothing changes.
    fn store(&mut self, index: &Self::Idx, value: Self::Output) -> (r: bool)
        ensures
            r <==> old(self).contents().dom().contains(*index),
            r ==> final(self).contents() == old(self).contents().insert(*index, value),
            !r ==> final(self).contents() == old(self).contents(),
    ;

    /// Every current key, each exactly once, in a shape that the shadow
    /// table's `update_indices` accepts.
    fn indices(&self) -> (r: Vec<Self::Idx>)
        ensures
            r@.to_set() == self.contents().dom(),
            r@.no_duplicates(),
            Self::ShadowLocks::valid_keys(r@),
    ;

    /// A fresh shadow table with one unlocked lock per current key.
    fn shadow_locks(&self) -> (r: Self::ShadowLocks)
        ensures
            r.locks().dom() == self.contents().dom(),
            all_unlocked(r.locks()),
    ;
}

} // verus!
