use vstd::prelude::*;

verus! {

/// How heartbeats are checked.
#[derive(Debug, Clone, Copy)]
pub struct WardenConfig {
    /// Seconds between two checks.
    pub interval: u64,
    /// Seconds after which a heartbeat is too old.
    pub timeout: u64,
}

} // verus!
