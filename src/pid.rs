use vstd::prelude::*;

verus! {

/// A process identifier. Identifiers are allocated in increasing order and
/// never reused; `Pid::invalid()` is the sentinel for "no process".
#[derive(Copy, Clone, Debug, PartialEq, Eq, Hash, PartialOrd, Ord, Structural)]
pub struct Pid(pub u64);

/// The raw value of the sentinel identifier.
pub const INVALID_PID: u64 = 0xFFFF_FFFF_FFFF_FFFF;

impl Pid {
    pub open spec fn is_valid(self) -> bool {
        self.0 != INVALID_PID
    }

    /// The identifier that names no process.
    pub fn invalid() -> (r: Pid)
        ensures
            r.0 == INVALID_PID,
            !r.is_valid(),
    {
        Pid(INVALID_PID)
    }
}

} // verus!
