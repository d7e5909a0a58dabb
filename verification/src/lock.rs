//! The state of one reader-writer lock, tracked as data.
//!
//! The engine keeps one such state for the global lock of the room and one
//! per cell in the shadow table.  A state carries no payload: it only records
//! who could hold the lock at this instant.

use vstd::prelude::*;

verus! {

/// State of a payload-free reader-writer lock.
#[derive(Clone, Copy, Debug, PartialEq, Eq, Structural)]
pub enum LockState {
    /// Nobody holds the lock.
    Unlocked,
    /// Held shared by the given number of readers (always at least one).
    Shared(u64),
    /// Held exclusively by a single writer.
    Exclusive,
}

/// How many holds the lock state accounts for: each shared reader counts
/// one, an exclusive writer counts one.
pub open spec fn holders(s: LockState) -> nat {
    match s {
        LockState::Unlocked => 0,
        LockState::Shared(n) => n as nat,
        LockState::Exclusive => 1,
    }
}

/// A lock state is well formed when a shared hold records at least one
/// reader; `Shared(0)` would be indistinguishable from `Unlocked`.
pub open spec fn state_wf(s: LockState) -> bool {
    s matches LockState::Shared(n) ==> n >= 1
}

/// The state after one more shared hold is taken.  Meaningful only where a
/// shared acquisition is enabled: not on an exclusively held lock, not on a
/// saturated reader count.
pub open spec fn shared_inc(s: LockState) -> LockState {
    match s {
        LockState::Unlocked => LockState::Shared(1),
        LockState::Shared(n) => LockState::Shared((n + 1) as u64),
        LockState::Exclusive => s,
    }
}

/// The state after one shared hold is given up.  Meaningful only on a lock
/// held shared.
pub open spec fn shared_dec(s: LockState) -> LockState {
    match s {
        LockState::Shared(n) => if n <= 1 {
            LockState::Unlocked
        } else {
            LockState::Shared((n - 1) as u64)
        },
        _ => s,
    }
}

} // verus!
