use vstd::prelude::*;

verus! {

/// One observed fee sample: when it was seen, what it cost, and in which ledger.
#[derive(Debug, Clone, Copy, PartialEq, Eq, Structural)]
pub struct FeePoint {
    /// Unix timestamp (seconds).
    pub timestamp: u64,
    /// Fee in stroops.
    pub fee: u64,
    /// Ledger sequence number.
    pub ledger: u64,
    /// Whether the point was classified as a spike.
    pub is_spike: bool,
}

} // verus!
