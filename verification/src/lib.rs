//! Readers-writer access to individual cells of a collection.
//!
//! A [`LockerRoom`] owns a collection together with a global lock and a
//! shadow table holding one lock per cell.  Cell operations take the global
//! lock shared and the cell's own lock shared or exclusive; locking the whole
//! room takes the global lock exclusively, which excludes every cell
//! operation until the room guard is released.  Releasing the room guard
//! reconciles the shadow table with the collection's current keys before the
//! exclusive hold ends.
//!
//! The locking protocol is modelled with explicit lock states, so that every
//! acquisition, release and reconciliation step carries a verified contract.
//! An acquisition that a blocking or cooperative backend would suspend on is
//! reported as blocked and leaves the engine unchanged; a scheduler retries
//! it once the conflicting holds are gone.
//!
//! The engine imposes no ordering on the keys: a caller that holds one
//! cell's lock while acquiring a second cell's lock in inconsistent order
//! across participants can deadlock, exactly as with any pair of locks.
//! That discipline stays with the caller.

pub mod collection;
pub mod guard;
pub mod keyed;
pub mod lock;
pub mod locker_room;
pub mod positional;

pub use guard::{CellAttempt, ReadCellGuard, RoomGuard, WriteCellGuard};
pub use lock::LockState;
pub use locker_room::LockerRoom;
