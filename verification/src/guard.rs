//! Ownership tokens returned by the locking engine.
//!
//! A guard witnesses an acquisition: a cell guard records the key whose lock
//! is held (shared for readers, exclusive for writers) together with the
//! global shared hold taken on its behalf; the room guard carries the
//! collection itself while the global lock is held exclusively.  Guards are
//! not copyable: handing one back to the engine's release operation is the
//! only way to give the holds up, and the engine's contracts account for
//! exactly one hold per guard.

use vstd::prelude::*;

verus! {

/// Outcome of one attempt to lock a cell.
///
/// A blocking backend suspends the caller where this model reports
/// [`CellAttempt::Blocked`]; a cooperative backend yields to its scheduler.
/// The engine is left unchanged by a blocked attempt, so retrying once the
/// conflicting holds are gone is exactly a fresh acquisition.
pub enum CellAttempt<G> {
    /// The locks were taken; the guard witnesses them.
    Acquired(G),
    /// There is no cell with this key; nothing is held.
    Absent,
    /// A conflicting hold is outstanding; nothing is held.
    Blocked,
}

impl<G> CellAttempt<G> {
    /// The guard of a successful attempt.
    pub fn acquired(self) -> (r: G)
        requires
            self is Acquired,
        ensures
            self == CellAttempt::Acquired(r),
    {
        match self {
            CellAttempt::Acquired(g) => g,
            _ => vstd::pervasive::unreached(),
        }
    }

    /// Whether the attempt took the locks.
    pub fn is_acquired(&self) -> (r: bool)
        ensures
            r == (self is Acquired),
    {
        matches!(self, CellAttempt::Acquired(_))
    }

    /// Whether the attempt found no cell under the key.
    pub fn is_absent(&self) -> (r: bool)
        ensures
            r == (self is Absent),
    {
        matches!(self, CellAttempt::Absent)
    }

    /// Whether the attempt would have to wait for a conflicting hold.
    pub fn is_blocked(&self) -> (r: bool)
        ensures
            r == (self is Blocked),
    {
        matches!(self, CellAttempt::Blocked)
    }
}

/// Witness of a shared hold on one cell's lock, created by
/// [`read_cell`](crate::LockerRoom::read_cell).
pub struct ReadCellGuard<Idx> {
    index: Idx,
}

impl<Idx> ReadCellGuard<Idx> {
    /// The key whose cell lock is held shared.
    pub closed spec fn key(self) -> Idx {
        self.index
    }

    pub(crate) fn new(index: Idx) -> (r: Self)
        ensures
            r.key() == index,
    {
        ReadCellGuard { index }
    }

    /// The key this guard was acquired for.
    pub fn index(&self) -> (r: &Idx)
        ensures
            *r == self.key(),
    {
        &self.index
    }
}

/// Witness of an exclusive hold on one cell's lock, created by
/// [`write_cell`](crate::LockerRoom::write_cell).
pub struct WriteCellGuard<Idx> {
    index: Idx,
}

impl<Idx> WriteCellGuard<Idx> {
    /// The key whose cell lock is held exclusively.
    pub closed spec fn key(self) -> Idx {
        self.index
    }

    pub(crate) fn new(index: Idx) -> (r: Self)
        ensures
            r.key() == index,
    {
        WriteCellGuard { index }
    }

    /// The key this guard was acquired for.
    pub fn index(&self) -> (r: &Idx)
        ensures
            *r == self.key(),
    {
        &self.index
    }
}

/// Witness of the exclusive hold on the whole room, created by
/// [`lock_room`](crate::LockerRoom::lock_room).
///
/// The guard owns the collection for the duration of the hold, so structural
/// edits (insert, remove, resize, reorder) are ordinary mutations of it.
/// Handing the guard back to [`release_room`](crate::LockerRoom::release_room)
/// returns the collection to the engine, reconciles the shadow table with its
/// current keys, and only then releases the exclusive hold.
pub struct RoomGuard<T> {
    collection: T,
}

impl<T> RoomGuard<T> {
    /// The collection as held by this guard.
    pub closed spec fn inner(self) -> T {
        self.collection
    }

    pub(crate) fn new(collection: T) -> (r: Self)
        ensures
            r.inner() == collection,
    {
        RoomGuard { collection }
    }

    /// Read access to the whole collection.
    pub fn collection(&self) -> (r: &T)
        ensures
            *r == self.inner(),
    {
        &self.collection
    }

    /// Unrestricted mutable access to the whole collection.
    pub fn collection_mut(&mut self) -> (r: &mut T)
        ensures
            *r == old(self).inner(),
            final(self).inner() == *final(r),
    {
        &mut self.collection
    }

    pub(crate) fn into_collection(self) -> (r: T)
        ensures
            r == self.inner(),
    {
        self.collection
    }
}

} // verus!
