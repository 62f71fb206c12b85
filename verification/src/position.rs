//! Shared geographic position: a plain fixed-point record behind a
//! reader-writer lock, so the host simulator can update it while the
//! session driver reads consistent snapshots.
use vstd::prelude::*;
use vstd::rwlock::{RwLock, RwLockPredicate};
use std::sync::Arc;

verus! {

/// A geographic position in fixed-point micro-units: latitude and
/// longitude in millionths of a degree, altitude in millionths of a
/// meter. A whole-record value type, so an update replaces all three
/// fields at once and a snapshot can never be torn.
#[derive(Clone, Copy, PartialEq, Eq, Structural, Debug)]
pub struct Position {
    pub lat_micro: i64,
    pub lon_micro: i64,
    pub alt_micro: i64,
}

impl Default for Position {
    /// The origin, used before any update arrives.
    fn default() -> (r: Self)
        ensures
            r.lat_micro == 0 && r.lon_micro == 0 && r.alt_micro == 0,
    {
        Position { lat_micro: 0, lon_micro: 0, alt_micro: 0 }
    }
}

/// Lock predicate admitting every position value.
pub struct AnyPosition;

impl RwLockPredicate<Position> for AnyPosition {
    open spec fn inv(self, v: Position) -> bool {
        true
    }
}

/// A clonable handle on a shared position cell. All clones address the
/// same cell; a write replaces the whole record under the write lock.
pub struct PositionHandle {
    lock: Arc<RwLock<Position, AnyPosition>>,
}

/// Relies on std's Arc::clone: the returned handle addresses the same
/// allocation, hence the same value, as the argument.
#[verifier::external_body]
fn clone_arc(a: &Arc<RwLock<Position, AnyPosition>>) -> (r: Arc<RwLock<Position, AnyPosition>>)
    ensures
        r == *a,
{
    Arc::clone(a)
}

impl PositionHandle {
    pub fn new(p: Position) -> Self {
        PositionHandle { lock: Arc::new(RwLock::new(p, Ghost(AnyPosition))) }
    }

    /// A consistent snapshot of the current position.
    pub fn get(&self) -> Position {
        let handle = self.lock.acquire_read();
        let p = *handle.borrow();
        handle.release_read();
        p
    }

    /// Replaces the shared position with `p` in one step.
    pub fn set(&self, p: Position) {
        let (_old_value, handle) = self.lock.acquire_write();
        handle.release_write(p);
    }
}

impl Clone for PositionHandle {
    fn clone(&self) -> (r: Self)
        ensures
            r == *self,
    {
        PositionHandle { lock: clone_arc(&self.lock) }
    }
}

} // verus!
