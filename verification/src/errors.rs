use vstd::prelude::*;

use crate::keys::{HistoryKey, InfoKey};

verus! {

/// Every way the solver core can reject an input or stop an operation.
///
/// Quantities that are binary64 in the solver's public configuration are
/// carried as their IEEE-754 bit patterns.
#[allow(inconsistent_fields)]
#[derive(Clone, Debug, PartialEq, Eq)]
pub enum SolverError {
    PlayerCount { found: usize },
    SamplerPlayerCount { game: usize, sampler: usize },
    ZeroMemoryLimit,
    ZeroDepthLimit,
    InvalidExploration { epsilon_bits: u64 },
    InvalidPrivateInfo(&'static str),
    InvalidActionLabels(&'static str),
    ActionLabelsChanged { key: InfoKey },
    InvalidActor { actor: usize, num_players: usize },
    NoActions { actor: usize },
    DepthLimit { limit: u32 },
    ActionCountChanged { key: InfoKey, stored: usize, current: usize },
    MemoryLimit { limit: u64, needed: u64 },
    ZeroDiscountCadence,
    ZeroSweepBatch,
    ZeroThreads,
    ThreadPoolBuild(String),
    ResumeConfigurationMismatch,
    IncompleteSweepState,
    ZeroEvaluationSamples,
    NumericOverflow,
    CounterOverflow,
    TraversalCountOverflow,
    MemoryAccountingOverflow,
    StateVersion { found: u16, expected: u16 },
    InvalidState(&'static str),
    DuplicatePolicy(InfoKey),
    DuplicateHistory(HistoryKey),
    HistoryCollision(HistoryKey),
    HistoryIndexOverflow,
    VectorTraverserRequiresStreetRecall,
    PruneRequiresVector,
    PruneThresholdNotNegative { threshold_bits: u64 },
    PruneSkipProbabilityOutOfRange { probability_bits: u64 },
    PreallocatedStorageRequiresStreetRecall,
}

/// Why a strategy-drift tracker cannot be refreshed against a solver.
#[derive(Clone, Copy, Debug, PartialEq, Eq, Structural)]
pub enum StrategyDriftError {
    /// The tracker was seeded by a solver with a different layout.
    IncompatibleLayout,
    /// The tracker's per-column action counts do not describe its payload.
    CorruptTracker,
}

} // verus!
