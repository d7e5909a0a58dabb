//! The locking engine: a collection behind a global lock and a shadow table.
//!
//! [`LockerRoom`] models the two-tier protocol with explicit lock states.
//! Cell operations take the global lock shared and the cell's own lock;
//! locking the whole room takes the global lock exclusively.  The engine's
//! well-formedness invariant ties the global reader count to the outstanding
//! cell holds — one global shared hold per cell guard — and keeps the shadow
//! table's key set equal to the collection's key set whenever the room is
//! not held.
//!
//! Blocking is modelled, not performed: an operation that a blocking or
//! cooperative backend would suspend on reports itself as blocked and leaves
//! the engine untouched, so a scheduler simply retries it later.

use vstd::prelude::*;
use vstd::multiset::Multiset;

use crate::collection::{all_unlocked, Collection, ShadowLocksCollection};
use crate::guard::{CellAttempt, ReadCellGuard, RoomGuard, WriteCellGuard};
use crate::lock::{holders, shared_dec, shared_inc, state_wf, LockState};

verus! {

broadcast use vstd::multiset::group_multiset_axioms;

/// How many holds a table accounts for at one key: none where the key is
/// absent.
pub open spec fn holds_at<K>(m: Map<K, LockState>, k: K) -> nat {
    if m.dom().contains(k) {
        holders(m[k])
    } else {
        0
    }
}

/// Provides a readers-writer lock for each indexed cell of a collection, or
/// exclusive write access to the whole collection.
///
/// Works with any collection implementing [`Collection`].
pub struct LockerRoom<T: Collection> {
    /// The protected collection; checked out into the room guard while the
    /// room is held exclusively.
    collection: Option<T>,
    /// Whether the global lock is held exclusively (the room is locked).
    room_held: bool,
    /// How often the global lock is held shared: once per outstanding cell
    /// guard.
    global_readers: u64,
    /// The shadow table: one lock state per valid key.
    index_locks: T::ShadowLocks,
    /// One entry per outstanding cell guard, at the guard's key.
    cell_holds: Ghost<Multiset<T::Idx>>,
}

impl<T: Collection> LockerRoom<T> {
    /// The protected cells, as a map from keys to values.  Empty while the
    /// room guard is out: the collection lives in the guard then.
    pub closed spec fn contents(self) -> Map<T::Idx, T::Output> {
        match self.collection {
            Some(c) => c.contents(),
            None => Map::empty(),
        }
    }

    /// The collection itself, as held by the engine.
    pub closed spec fn inner_collection(self) -> T {
        self.collection->0
    }

    /// The shadow table, as a map from keys to lock states.
    pub closed spec fn locks(self) -> Map<T::Idx, LockState> {
        self.index_locks.locks()
    }

    /// Whether the global lock is held exclusively.
    pub closed spec fn room_locked(self) -> bool {
        self.room_held
    }

    /// How often the global lock is held shared.
    pub closed spec fn readers(self) -> u64 {
        self.global_readers
    }

    /// The outstanding cell holds: one entry per live cell guard.
    pub closed spec fn holds(self) -> Multiset<T::Idx> {
        self.cell_holds@
    }

    /// Engine invariant, established by the constructor and preserved by
    /// every operation:
    /// - the collection is with the engine exactly while the room is free,
    ///   and the room's exclusive hold excludes every shared hold;
    /// - while the room is free, the shadow table has one lock per valid key;
    /// - the global lock is held shared once per outstanding cell hold, and
    ///   each cell's lock state accounts exactly for the holds at its key.
    pub closed spec fn wf(self) -> bool {
        &&& (!self.room_held ==> self.collection is Some)
        &&& (self.room_held ==> self.collection is None && self.global_readers == 0)
        &&& (!self.room_held ==> self.index_locks.locks().dom() == self.contents().dom())
        &&& self.global_readers as nat == self.cell_holds@.len()
        &&& (forall|k: T::Idx|
            #![trigger self.cell_holds@.count(k)]
            #![trigger self.index_locks.locks().dom().contains(k)]
            holds_at(self.index_locks.locks(), k) == self.cell_holds@.count(k))
        &&& (forall|k: T::Idx| #[trigger] self.index_locks.locks().dom().contains(k)
            ==> state_wf(self.index_locks.locks()[k]))
    }

    /// Whether a shared acquisition of this cell's lock would succeed now:
    /// the room is free, the key is valid, no writer holds the cell, and
    /// neither the global nor the cell reader count is saturated.
    pub open spec fn read_enabled(self, index: T::Idx) -> bool {
        &&& !self.room_locked()
        &&& self.locks().dom().contains(index)
        &&& !(self.locks()[index] is Exclusive)
        &&& self.readers() < u64::MAX
        &&& (self.locks()[index] matches LockState::Shared(n) ==> n < u64::MAX)
    }

    /// Whether an exclusive acquisition of this cell's lock would succeed
    /// now: the room is free, the key is valid, and nobody holds the cell.
    pub open spec fn write_enabled(self, index: T::Idx) -> bool {
        &&& !self.room_locked()
        &&& self.locks().dom().contains(index)
        &&& self.locks()[index] is Unlocked
        &&& self.readers() < u64::MAX
    }

    /// Whether the exclusive room acquisition would succeed now: the room is
    /// free and no cell hold — hence no global shared hold — is outstanding.
    pub open spec fn room_enabled(self) -> bool {
        &&& !self.room_locked()
        &&& self.readers() == 0
    }

    /// Builds an engine around an existing collection, taking ownership and
    /// constructing the shadow table from the collection's current keys.
    pub fn new(collection: T) -> (r: Self)
        ensures
            r.wf(),
            !r.room_locked(),
            r.readers() == 0,
            r.inner_collection() == collection,
            r.contents() == collection.contents(),
            r.locks().dom() == collection.contents().dom(),
            all_unlocked(r.locks()),
    {
        let index_locks = collection.shadow_locks();
        let r = LockerRoom {
            collection: Some(collection),
            room_held: false,
            global_readers: 0,
            index_locks,
            cell_holds: Ghost(Multiset::empty()),
        };
        proof {
            assert forall|k: T::Idx| #![all_triggers] true implies holds_at(
                r.index_locks.locks(),
                k,
            ) == r.cell_holds@.count(k) by {
                if r.index_locks.locks().dom().contains(k) {
                    assert(all_unlocked(r.index_locks.locks()));
                    assert(r.index_locks.locks()[k] == LockState::Unlocked);
                }
            }
        }
        r
    }

    /// Locks the cell at the index with shared read access.
    ///
    /// Acquisition order: the global lock is taken shared first, then the
    /// cell's own lock shared.  Where no cell exists under the index, the
    /// global hold is given up again and the attempt reports
    /// [`CellAttempt::Absent`].  Where a writer holds the cell, or the room
    /// is locked, or a reader count is saturated, a blocking backend would
    /// suspend; this model reports [`CellAttempt::Blocked`] and leaves the
    /// engine unchanged.
    pub fn read_cell(&mut self, index: T::Idx) -> (r: CellAttempt<ReadCellGuard<T::Idx>>)
        requires
            old(self).wf(),
        ensures
            final(self).wf(),
            final(self).contents() == old(self).contents(),
            final(self).room_locked() == old(self).room_locked(),
            (r is Acquired) <==> old(self).read_enabled(index),
            (r is Absent) <==> (!old(self).room_locked() && old(self).readers() < u64::MAX
                && !old(self).contents().dom().contains(index)),
            (r matches CellAttempt::Acquired(g) ==> {
                &&& g.key() == index
                &&& final(self).readers() == old(self).readers() + 1
                &&& final(self).locks() == old(self).locks().insert(
                    index,
                    shared_inc(old(self).locks()[index]),
                )
                &&& final(self).holds() == old(self).holds().insert(index)
            }),
            !(r is Acquired) ==> *final(self) == *old(self),
    {
        if self.room_held {
            return CellAttempt::Blocked;
        }
        if self.global_readers == u64::MAX {
            return CellAttempt::Blocked;
        }
        // From here the global lock is held shared; every path that does not
        // produce a guard gives that hold back, leaving the engine unchanged.
        let state = match ShadowLocksCollection::index(&self.index_locks, &index) {
            None => {
                return CellAttempt::Absent;
            },
            Some(s) => s,
        };
        let new_state = match state {
            LockState::Unlocked => LockState::Shared(1),
            LockState::Shared(n) => {
                if n == u64::MAX {
                    return CellAttempt::Blocked;
                }
                LockState::Shared(n + 1)
            },
            LockState::Exclusive => {
                return CellAttempt::Blocked;
            },
        };
        let updated = self.index_locks.set_state(&index, new_state);
        self.global_readers = self.global_readers + 1;
        self.cell_holds = Ghost(self.cell_holds@.insert(index));
        proof {
            assert(updated);
            let m0 = old(self).index_locks.locks();
            let m1 = self.index_locks.locks();
            assert(m1.dom() =~= m0.dom());
            assert forall|k: T::Idx|
                #![trigger self.cell_holds@.count(k)]
                #![trigger m1.dom().contains(k)]
                holds_at(m1, k) == self.cell_holds@.count(k) by {
                if k == index {
                    assert(self.cell_holds@.count(k) == old(self).cell_holds@.count(k) + 1);
                } else {
                    assert(self.cell_holds@.count(k) == old(self).cell_holds@.count(k));
                    assert(holds_at(m1, k) == holds_at(m0, k));
                }
            }
        }
        CellAttempt::Acquired(ReadCellGuard::new(index))
    }

    /// The value of the cell a read guard holds.  Concurrent readers of one
    /// cell all observe this same value: no writer can interleave while any
    /// of them holds its guard.
    pub fn read_value(&self, guard: &ReadCellGuard<T::Idx>) -> (r: &T::Output)
        requires
            self.wf(),
            !self.room_locked(),
            self.locks().dom().contains(guard.key()),
            self.locks()[guard.key()] is Shared,
        ensures
            *r == self.contents()[guard.key()],
    {
        let c = match &self.collection {
            Some(c) => c,
            None => vstd::pervasive::unreached(),
        };
        match c.index(guard.index()) {
            Some(v) => v,
            None => vstd::pervasive::unreached(),
        }
    }

    /// Releases a read guard: the cell's shared hold first, then the global
    /// shared hold taken on its behalf — the reverse of acquisition order.
    pub fn release_read(&mut self, guard: ReadCellGuard<T::Idx>)
        requires
            old(self).wf(),
            !old(self).room_locked(),
            old(self).locks().dom().contains(guard.key()),
            old(self).locks()[guard.key()] is Shared,
        ensures
            final(self).wf(),
            final(self).contents() == old(self).contents(),
            !final(self).room_locked(),
            final(self).readers() == old(self).readers() - 1,
            final(self).locks() == old(self).locks().insert(
                guard.key(),
                shared_dec(old(self).locks()[guard.key()]),
            ),
            final(self).holds() == old(self).holds().remove(guard.key()),
    {
        let state = match ShadowLocksCollection::index(&self.index_locks, guard.index()) {
            Some(s) => s,
            None => vstd::pervasive::unreached(),
        };
        let n = match state {
            LockState::Shared(n) => n,
            _ => vstd::pervasive::unreached(),
        };
        // Release the cell hold first ...
        let new_state = if n == 1 {
            LockState::Unlocked
        } else {
            LockState::Shared(n - 1)
        };
        let updated = self.index_locks.set_state(guard.index(), new_state);
        self.cell_holds = Ghost(self.cell_holds@.remove(guard.key()));
        // ... and only then the global shared hold taken for it.
        proof {
            assert(updated);
            assert(old(self).cell_holds@.count(guard.key()) == n as nat);
            assert(old(self).cell_holds@.len() >= n as nat);
        }
        self.global_readers = self.global_readers - 1;
        proof {
            let m0 = old(self).index_locks.locks();
            let m1 = self.index_locks.locks();
            assert(m1.dom() =~= m0.dom());
            assert forall|k: T::Idx|
                #![trigger self.cell_holds@.count(k)]
                #![trigger m1.dom().contains(k)]
                holds_at(m1, k) == self.cell_holds@.count(k) by {
                if k == guard.key() {
                    assert(self.cell_holds@.count(k) == old(self).cell_holds@.count(k) - 1);
                } else {
                    assert(self.cell_holds@.count(k) == old(self).cell_holds@.count(k));
                    assert(holds_at(m1, k) == holds_at(m0, k));
                }
            }
        }
    }

    /// Locks the cell at the index with exclusive write access.
    ///
    /// Acquisition order mirrors [`read_cell`](Self::read_cell): the global
    /// lock is taken shared first, then the cell's own lock exclusively.
    /// Where any hold on the cell is outstanding, or the room is locked, or
    /// the global reader count is saturated, a blocking backend would
    /// suspend; this model reports [`CellAttempt::Blocked`] and leaves the
    /// engine unchanged.
    pub fn write_cell(&mut self, index: T::Idx) -> (r: CellAttempt<WriteCellGuard<T::Idx>>)
        requires
            old(self).wf(),
        ensures
            final(self).wf(),
            final(self).contents() == old(self).contents(),
            final(self).room_locked() == old(self).room_locked(),
            (r is Acquired) <==> old(self).write_enabled(index),
            (r is Absent) <==> (!old(self).room_locked() && old(self).readers() < u64::MAX
                && !old(self).contents().dom().contains(index)),
            (r matches CellAttempt::Acquired(g) ==> {
                &&& g.key() == index
                &&& final(self).readers() == old(self).readers() + 1
                &&& final(self).locks() == old(self).locks().insert(index, LockState::Exclusive)
                &&& final(self).holds() == old(self).holds().insert(index)
            }),
            !(r is Acquired) ==> *final(self) == *old(self),
    {
        if self.room_held {
            return CellAttempt::Blocked;
        }
        if self.global_readers == u64::MAX {
            return CellAttempt::Blocked;
        }
        // From here the global lock is held shared; every path that does not
        // produce a guard gives that hold back, leaving the engine unchanged.
        let state = match ShadowLocksCollection::index(&self.index_locks, &index) {
            None => {
                return CellAttempt::Absent;
            },
            Some(s) => s,
        };
        match state {
            LockState::Unlocked => {},
            _ => {
                return CellAttempt::Blocked;
            },
        }
        let updated = self.index_locks.set_state(&index, LockState::Exclusive);
        self.global_readers = self.global_readers + 1;
        self.cell_holds = Ghost(self.cell_holds@.insert(index));
        proof {
            assert(updated);
            let m0 = old(self).index_locks.locks();
            let m1 = self.index_locks.locks();
            assert(m1.dom() =~= m0.dom());
            assert forall|k: T::Idx|
                #![trigger self.cell_holds@.count(k)]
                #![trigger m1.dom().contains(k)]
                holds_at(m1, k) == self.cell_holds@.count(k) by {
                if k == index {
                    assert(self.cell_holds@.count(k) == old(self).cell_holds@.count(k) + 1);
                } else {
                    assert(self.cell_holds@.count(k) == old(self).cell_holds@.count(k));
                    assert(holds_at(m1, k) == holds_at(m0, k));
                }
            }
        }
        CellAttempt::Acquired(WriteCellGuard::new(index))
    }

    /// The current value of the cell a write guard holds exclusively.
    pub fn write_cell_value(&self, guard: &WriteCellGuard<T::Idx>) -> (r: &T::Output)
        requires
            self.wf(),
            !self.room_locked(),
            self.locks().dom().contains(guard.key()),
            self.locks()[guard.key()] is Exclusive,
        ensures
            *r == self.contents()[guard.key()],
    {
        let c = match &self.collection {
            Some(c) => c,
            None => vstd::pervasive::unreached(),
        };
        match c.index(guard.index()) {
            Some(v) => v,
            None => vstd::pervasive::unreached(),
        }
    }

    /// Stores a value into the cell a write guard holds exclusively.  Only
    /// that cell changes; every lock state stays as it was.
    pub fn set_cell(&mut self, guard: &WriteCellGuard<T::Idx>, value: T::Output)
        requires
            old(self).wf(),
            !old(self).room_locked(),
            old(self).locks().dom().contains(guard.key()),
            old(self).locks()[guard.key()] is Exclusive,
        ensures
            final(self).wf(),
            final(self).contents() == old(self).contents().insert(guard.key(), value),
            !final(self).room_locked(),
            final(self).readers() == old(self).readers(),
            final(self).locks() == old(self).locks(),
            final(self).holds() == old(self).holds(),
    {
        let c = match &mut self.collection {
            Some(c) => c,
            None => vstd::pervasive::unreached(),
        };
        let stored = c.store(guard.index(), value);
        proof {
            assert(stored);
            assert(self.index_locks.locks().dom() =~= self.contents().dom());
        }
    }

    /// Releases a write guard: the cell's exclusive hold first, then the
    /// global shared hold taken on its behalf — the reverse of acquisition
    /// order.
    pub fn release_write(&mut self, guard: WriteCellGuard<T::Idx>)
        requires
            old(self).wf(),
            !old(self).room_locked(),
            old(self).locks().dom().contains(guard.key()),
            old(self).locks()[guard.key()] is Exclusive,
        ensures
            final(self).wf(),
            final(self).contents() == old(self).contents(),
            !final(self).room_locked(),
            final(self).readers() == old(self).readers() - 1,
            final(self).locks() == old(self).locks().insert(guard.key(), LockState::Unlocked),
            final(self).holds() == old(self).holds().remove(guard.key()),
    {
        // Release the cell hold first ...
        let updated = self.index_locks.set_state(guard.index(), LockState::Unlocked);
        self.cell_holds = Ghost(self.cell_holds@.remove(guard.key()));
        // ... and only then the global shared hold taken for it.
        proof {
            assert(updated);
            assert(old(self).cell_holds@.count(guard.key()) == 1);
        }
        self.global_readers = self.global_readers - 1;
        proof {
            let m0 = old(self).index_locks.locks();
            let m1 = self.index_locks.locks();
            assert(m1.dom() =~= m0.dom());
            assert forall|k: T::Idx|
                #![trigger self.cell_holds@.count(k)]
                #![trigger m1.dom().contains(k)]
                holds_at(m1, k) == self.cell_holds@.count(k) by {
                if k == guard.key() {
                    assert(self.cell_holds@.count(k) == old(self).cell_holds@.count(k) - 1);
                } else {
                    assert(self.cell_holds@.count(k) == old(self).cell_holds@.count(k));
                    assert(holds_at(m1, k) == holds_at(m0, k));
                }
            }
        }
    }

    /// Locks the whole room: the global lock is taken exclusively and the
    /// collection is handed out for unrestricted mutation.
    ///
    /// The exclusive acquisition succeeds only while no cell hold — hence no
    /// global shared hold — and no other room hold is outstanding; otherwise
    /// a blocking backend would suspend, and this model returns `None`
    /// leaving the engine unchanged.  While the room is held, every cell
    /// acquisition reports blocked.
    pub fn lock_room(&mut self) -> (r: Option<RoomGuard<T>>)
        requires
            old(self).wf(),
        ensures
            final(self).wf(),
            (r is Some) <==> old(self).room_enabled(),
            (r matches Some(g) ==> {
                &&& g.inner() == old(self).inner_collection()
                &&& g.inner().contents() == old(self).contents()
                &&& final(self).room_locked()
                &&& final(self).readers() == 0
                &&& final(self).locks() == old(self).locks()
                &&& final(self).holds() == old(self).holds()
                &&& all_unlocked(final(self).locks())
            }),
            r is None ==> *final(self) == *old(self),
    {
        if self.room_held {
            return None;
        }
        if self.global_readers > 0 {
            return None;
        }
        let mut taken: Option<T> = None;
        core::mem::swap(&mut taken, &mut self.collection);
        self.room_held = true;
        let c = match taken {
            Some(c) => c,
            None => vstd::pervasive::unreached(),
        };
        proof {
            assert forall|k: T::Idx| #[trigger] self.index_locks.locks().dom().contains(k)
                implies self.index_locks.locks()[k] == LockState::Unlocked by {
                assert(self.cell_holds@.count(k) <= self.cell_holds@.len());
                assert(holds_at(self.index_locks.locks(), k) == 0);
                assert(state_wf(self.index_locks.locks()[k]));
            }
        }
        Some(RoomGuard::new(c))
    }

    /// Releases the room guard: the collection returns to the engine, the
    /// shadow table is reconciled with the collection's current keys, and
    /// only then is the exclusive global hold given up.  Reconciliation thus
    /// happens atomically with respect to every other participant.
    pub fn release_room(&mut self, guard: RoomGuard<T>)
        requires
            old(self).wf(),
            old(self).room_locked(),
        ensures
            final(self).wf(),
            !final(self).room_locked(),
            final(self).readers() == 0,
            final(self).holds() == old(self).holds(),
            final(self).inner_collection() == guard.inner(),
            final(self).contents() == guard.inner().contents(),
            final(self).locks().dom() == guard.inner().contents().dom(),
            all_unlocked(final(self).locks()),
    {
        let collection = guard.into_collection();
        proof {
            // No cell hold is outstanding under the exclusive room hold, so
            // the table that reconciliation starts from is fully unlocked.
            assert forall|k: T::Idx| #[trigger] self.index_locks.locks().dom().contains(k)
                implies self.index_locks.locks()[k] == LockState::Unlocked by {
                assert(self.cell_holds@.count(k) <= self.cell_holds@.len());
                assert(holds_at(self.index_locks.locks(), k) == 0);
                assert(state_wf(self.index_locks.locks()[k]));
            }
        }
        // Reconcile the shadow table with the collection's current keys ...
        let keys = collection.indices();
        self.index_locks.update_indices(&keys);
        self.collection = Some(collection);
        // ... and only then release the exclusive global hold.
        self.room_held = false;
        proof {
            assert(self.index_locks.locks().dom() =~= self.contents().dom());
            assert forall|k: T::Idx|
                #![trigger self.cell_holds@.count(k)]
                #![trigger self.index_locks.locks().dom().contains(k)]
                holds_at(self.index_locks.locks(), k) == self.cell_holds@.count(k) by {
                assert(self.cell_holds@.count(k) <= self.cell_holds@.len());
                if self.index_locks.locks().dom().contains(k) {
                    assert(all_unlocked(self.index_locks.locks()));
                    assert(self.index_locks.locks()[k] == LockState::Unlocked);
                }
            }
        }
    }

    /// Consumes the engine, returning the underlying collection and
    /// discarding the global lock and the shadow table.  Meaningful only for
    /// a sole owner: no guard may be outstanding.
    pub fn into_inner(self) -> (r: T)
        requires
            self.wf(),
            !self.room_locked(),
            self.readers() == 0,
        ensures
            r == self.inner_collection(),
            r.contents() == self.contents(),
    {
        match self.collection {
            Some(c) => c,
            None => vstd::pervasive::unreached(),
        }
    }
}

impl<T: Collection> From<T> for LockerRoom<T> {
    /// Builds an engine around an existing collection; equivalent to
    /// [`LockerRoom::new`].
    fn from(collection: T) -> (r: Self)
        ensures
            r.wf(),
            !r.room_locked(),
            r.readers() == 0,
            r.inner_collection() == collection,
            r.contents() == collection.contents(),
            r.locks().dom() == collection.contents().dom(),
            all_unlocked(r.locks()),
    {
        LockerRoom::new(collection)
    }
}

impl<T: Collection> vstd::std_specs::convert::FromSpecImpl<T> for LockerRoom<T> {
    open spec fn obeys_from_spec() -> bool {
        // The engine holds more than its contract pins down — the shadow
        // table is any table with the right keys — so construction is not a
        // spec-determined function of the collection.
        false
    }

    open spec fn from_spec(collection: T) -> Self {
        arbitrary()
    }
}

/// Readers of one cell never block each other, and no writer can interleave
/// with them: in any well-formed engine where a cell is held shared, a
/// further shared acquisition of that cell is still enabled (short of a
/// saturated reader count), while an exclusive acquisition of the cell and
/// the exclusive room acquisition are both refused.
pub proof fn law_readers_share<T: Collection>(lr: LockerRoom<T>, index: T::Idx)
    requires
        lr.wf(),
        !lr.room_locked(),
        lr.locks().dom().contains(index),
        lr.locks()[index] is Shared,
        lr.locks()[index] matches LockState::Shared(n) ==> n < u64::MAX,
        lr.readers() < u64::MAX,
    ensures
        lr.read_enabled(index),
        !lr.write_enabled(index),
        !lr.room_enabled(),
{
    assert(lr.holds().count(index) == holds_at(lr.locks(), index));
    assert(lr.holds().count(index) <= lr.holds().len());
}

/// A writer of one cell excludes every other participant from that cell,
/// and the whole room cannot be locked while it holds: in any well-formed
/// engine where a cell is held exclusively, no acquisition of that cell is
/// enabled, and neither is the exclusive room acquisition.  Two writes to
/// one cell therefore apply one after the other, never interleaved.
pub proof fn law_writer_excludes<T: Collection>(lr: LockerRoom<T>, index: T::Idx)
    requires
        lr.wf(),
        lr.locks().dom().contains(index),
        lr.locks()[index] is Exclusive,
    ensures
        !lr.read_enabled(index),
        !lr.write_enabled(index),
        !lr.room_enabled(),
{
    assert(lr.holds().count(index) == holds_at(lr.locks(), index));
    assert(lr.holds().count(index) <= lr.holds().len());
}

/// The exclusive room hold excludes all cell access: while the room is
/// locked, no cell acquisition of any kind is enabled anywhere, nor a second
/// room acquisition.
pub proof fn law_room_excludes_cells<T: Collection>(lr: LockerRoom<T>, index: T::Idx)
    requires
        lr.wf(),
        lr.room_locked(),
    ensures
        !lr.read_enabled(index),
        !lr.write_enabled(index),
        !lr.room_enabled(),
{
}

/// Any live cell hold implies a live shared hold on the global lock, and
/// therefore that the room is not exclusively held: the global shared hold
/// is taken on the guard's behalf at acquisition and only given back at its
/// release.
pub proof fn law_cell_hold_implies_global_shared<T: Collection>(
    lr: LockerRoom<T>,
    index: T::Idx,
)
    requires
        lr.wf(),
        lr.locks().dom().contains(index),
        !(lr.locks()[index] is Unlocked),
    ensures
        lr.readers() >= 1,
        !lr.room_locked(),
{
    assert(lr.holds().count(index) == holds_at(lr.locks(), index));
    assert(lr.holds().count(index) <= lr.holds().len());
    assert(state_wf(lr.locks()[index]));
}

/// Any outstanding cell hold keeps the room from being locked: the global
/// shared hold taken for the cell guard blocks the exclusive acquisition
/// until the guard is released.
pub proof fn law_cell_hold_excludes_room<T: Collection>(lr: LockerRoom<T>, index: T::Idx)
    requires
        lr.wf(),
        lr.locks().dom().contains(index),
        !(lr.locks()[index] is Unlocked),
    ensures
        !lr.room_enabled(),
{
    assert(lr.holds().count(index) == holds_at(lr.locks(), index));
    assert(lr.holds().count(index) <= lr.holds().len());
    assert(state_wf(lr.locks()[index]));
}

/// Two writers of one cell apply atomically with respect to each other:
/// exclusion forces their read-increment-store cycles into one of the two
/// serial orders, and either order leaves the sum of both increments —
/// starting from `v`, increments `d1` and `d2` always end at `v + d1 + d2`,
/// never at `v + d1` or `v + d2` alone.  The post-states are written with
/// the map update that [`LockerRoom::set_cell`] guarantees.
pub proof fn law_serialized_increments<K>(m: Map<K, u64>, k: K, d1: u64, d2: u64)
    requires
        m.dom().contains(k),
        m[k] + d1 + d2 <= u64::MAX,
    ensures
        ({
            let one_way = m.insert(k, (m[k] + d1) as u64);
            let other_way = m.insert(k, (m[k] + d2) as u64);
            &&& one_way.insert(k, (one_way[k] + d2) as u64)[k] == m[k] + d1 + d2
            &&& other_way.insert(k, (other_way[k] + d1) as u64)[k] == m[k] + d1 + d2
        }),
{
}

/// Cells are independent: whether an acquisition of one cell is enabled
/// depends only on the global lock — room hold and shared count — and on
/// that cell's own lock state.  Taking or releasing a hold on a different
/// cell, which by the operations' contracts changes only that other cell's
/// state and the shared count, leaves this cell's acquisitions unaffected
/// short of saturating the global reader count.
pub proof fn law_keys_independent<T: Collection>(
    lr1: LockerRoom<T>,
    lr2: LockerRoom<T>,
    index: T::Idx,
)
    requires
        lr1.room_locked() == lr2.room_locked(),
        lr1.readers() == lr2.readers(),
        lr1.locks().dom().contains(index) == lr2.locks().dom().contains(index),
        lr1.locks().dom().contains(index) ==> lr1.locks()[index] == lr2.locks()[index],
    ensures
        lr1.read_enabled(index) == lr2.read_enabled(index),
        lr1.write_enabled(index) == lr2.write_enabled(index),
{
}

/// Locking the room and releasing it without mutating the collection leaves
/// the shadow table's key set unchanged, still matching the collection's
/// keys exactly.
///
/// `before` is any well-formed engine on which the room acquisition is
/// enabled; `locked` is the engine after `lock_room`, whose guard carries
/// the collection `c`, as that operation's contract states; `after` is the
/// engine once `release_room` returned the untouched `c`, as that
/// operation's contract states.
pub proof fn law_room_cycle_keeps_shadow_keys<T: Collection>(
    before: LockerRoom<T>,
    locked: LockerRoom<T>,
    c: T,
    after: LockerRoom<T>,
)
    requires
        before.wf(),
        before.room_enabled(),
        locked.wf(),
        locked.room_locked(),
        locked.locks() == before.locks(),
        c == before.inner_collection(),
        after.wf(),
        after.contents() == c.contents(),
        after.locks().dom() == c.contents().dom(),
    ensures
        after.locks().dom() == before.locks().dom(),
        after.locks().dom() == after.contents().dom(),
{
}

} // verus!
