//! Instants, as the time since the process booted.

use vstd::prelude::*;

verus! {

/// How long ago the process booted: whole seconds, and nanoseconds beyond them.
#[derive(Debug, Clone, Copy, PartialEq, Eq, Structural)]
pub struct Uptime {
    pub secs: u64,
    pub nanos: u32,
}

impl View for Uptime {
    type V = int;

    /// The time in nanoseconds.
    open spec fn view(&self) -> int {
        self.secs * 1_000_000_000 + self.nanos
    }
}

impl Uptime {
    /// The time in nanoseconds.
    pub fn in_nanos(&self) -> (nanos: u128)
        ensures
            nanos == self@,
            nanos == self.secs * 1_000_000_000 + self.nanos,
            nanos < 0x1_0000_0000_0000_0000_0000_0000,
    {
        self.secs as u128 * 1_000_000_000 + self.nanos as u128
    }
}

} // verus!
