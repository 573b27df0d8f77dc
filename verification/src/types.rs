use vstd::prelude::*;

verus! {

/// Identifier of an abstraction bucket on one street.
pub type BucketId = u32;

/// Sentinel bucket for a street that has not been reached (or is hidden).
pub const UNREACHED_BUCKET: BucketId = 0xffff_ffffu32;

/// Smallest supported table size.
pub const MIN_SEATS: usize = 2;

/// Largest supported table size.
pub const MAX_SEATS: usize = 9;

/// Checkpoint schema accepted by the restore path.
pub const SOLVER_STATE_VERSION: u16 = 2;

/// Default batched-discount cadence in completed sweeps.
pub const DEFAULT_DISCOUNT_EVERY: u64 = 100_000;

/// Default sweep after which discounting stops.
pub const DEFAULT_DISCOUNT_UNTIL: u64 = 10_000_000;

/// Minimum training visits before an information set's trained action
/// enters a deviator policy.
pub const MIN_DEVIATOR_POLICY_VISITS: u32 = 8;

/// Betting street.
#[derive(Clone, Copy, Debug, PartialEq, Eq, Hash, PartialOrd, Ord, Structural)]
pub enum Street {
    Preflop,
    Flop,
    Turn,
    River,
}

impl Street {
    /// The street's position in a four-street bucket path.
    pub open spec fn spec_index(self) -> nat {
        match self {
            Street::Preflop => 0,
            Street::Flop => 1,
            Street::Turn => 2,
            Street::River => 3,
        }
    }

    pub fn index(self) -> (r: usize)
        ensures
            r == self.spec_index(),
    {
        match self {
            Street::Preflop => 0,
            Street::Flop => 1,
            Street::Turn => 2,
            Street::River => 3,
        }
    }
}

/// How much private history a game's information sets remember.
#[derive(Clone, Copy, Debug, PartialEq, Eq, Hash, Structural)]
pub enum RecallMode {
    /// Every reached street's bucket is part of the information set.
    Full,
    /// Only the current street's bucket is remembered.
    Street,
}

} // verus!
