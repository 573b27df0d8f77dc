//! Solver configuration: defaults, setup validation, resume compatibility
//! and the configuration fingerprint.
use vstd::prelude::*;

use crate::digest::{blake3_digest, blake3_hash, le_bytes, push_all, push_le};
use crate::domains::{config_domain, config_domain_bytes};
use crate::errors::SolverError;
use crate::float_bits::{
    f64_equal, f64_finite, f64_ieee_eq, f64_in_unit_interval, f64_is_finite, f64_is_negative,
    f64_negative, f64_unit_interval,
};
use crate::types::{RecallMode, DEFAULT_DISCOUNT_EVERY, DEFAULT_DISCOUNT_UNTIL, MAX_SEATS, MIN_SEATS};

verus! {

/// binary64 bits of the default exploration epsilon, `0.06`.
pub const DEFAULT_EXPLORATION_EPSILON_BITS: u64 = 0x3fae_b851_eb85_1eb8;

/// binary64 bits of the default pruning threshold, `-1.0e6`.
pub const DEFAULT_PRUNE_THRESHOLD_BITS: u64 = 0xc12e_8480_0000_0000;

/// binary64 bits of the default pruning skip probability, `0.95`.
pub const DEFAULT_PRUNE_SKIP_PROBABILITY_BITS: u64 = 0x3fee_6666_6666_6666;

/// Sampling, update and resource settings of one solver run.  The three
/// real-valued knobs are held as binary64 bit patterns.
#[derive(Clone, Copy, Debug, PartialEq, Eq, Structural)]
pub struct SolverConfig {
    pub seed: u64,
    /// Conservative cap for sparse policy payload plus hash-entry overhead.
    pub max_memory_bytes: u64,
    /// Guard against a malformed game adapter producing a cycle.
    pub max_traversal_depth: u32,
    /// Uniform exploration mixed into sampled non-traverser actions.
    pub exploration_epsilon_bits: u64,
    /// Batched early discount cadence in completed sweeps.
    pub discount_every: u64,
    /// Stop discounting once this completed sweep is reached. Zero disables it.
    pub discount_until: u64,
    /// Complete sweeps run against one strategy snapshot. At least one.
    pub sweep_batch: u64,
    /// Update every feasible hole combo of the traverser at once.
    pub traverser_vector: bool,
    /// Regret-based pruning at traverser decisions in vector mode.
    pub prune: bool,
    /// Regret threshold below which a zero-probability action may be pruned.
    pub prune_threshold_bits: u64,
    /// Probability of skipping a prunable action on a visit.
    pub prune_skip_probability_bits: u64,
}

/// The default configuration.
pub open spec fn default_config() -> SolverConfig {
    SolverConfig {
        seed: 0,
        max_memory_bytes: 0x1_0000_0000u64,
        max_traversal_depth: 512,
        exploration_epsilon_bits: DEFAULT_EXPLORATION_EPSILON_BITS,
        discount_every: DEFAULT_DISCOUNT_EVERY,
        discount_until: DEFAULT_DISCOUNT_UNTIL,
        sweep_batch: 1,
        traverser_vector: false,
        prune: false,
        prune_threshold_bits: DEFAULT_PRUNE_THRESHOLD_BITS,
        prune_skip_probability_bits: DEFAULT_PRUNE_SKIP_PROBABILITY_BITS,
    }
}

impl Default for SolverConfig {
    fn default() -> (r: Self)
        ensures
            r == default_config(),
    {
        SolverConfig {
            seed: 0,
            max_memory_bytes: 4 * 1024 * 1024 * 1024u64,
            max_traversal_depth: 512,
            exploration_epsilon_bits: DEFAULT_EXPLORATION_EPSILON_BITS,
            discount_every: DEFAULT_DISCOUNT_EVERY,
            discount_until: DEFAULT_DISCOUNT_UNTIL,
            sweep_batch: 1,
            traverser_vector: false,
            prune: false,
            prune_threshold_bits: DEFAULT_PRUNE_THRESHOLD_BITS,
            prune_skip_probability_bits: DEFAULT_PRUNE_SKIP_PROBABILITY_BITS,
        }
    }
}

/// Outcome of checking a game/sampler/configuration triple, in the
/// solver's check order.
pub open spec fn setup_verdict(
    num_players: nat,
    sampler_players: nat,
    recall: RecallMode,
    config: SolverConfig,
) -> Result<(), SolverError> {
    if !(MIN_SEATS <= num_players <= MAX_SEATS) {
        Err(SolverError::PlayerCount { found: num_players as usize })
    } else if sampler_players != num_players {
        Err(
            SolverError::SamplerPlayerCount {
                game: num_players as usize,
                sampler: sampler_players as usize,
            },
        )
    } else if config.max_memory_bytes == 0 {
        Err(SolverError::ZeroMemoryLimit)
    } else if config.max_traversal_depth == 0 {
        Err(SolverError::ZeroDepthLimit)
    } else if !f64_is_finite(config.exploration_epsilon_bits) || !f64_in_unit_interval(
        config.exploration_epsilon_bits,
    ) {
        Err(SolverError::InvalidExploration { epsilon_bits: config.exploration_epsilon_bits })
    } else if config.discount_every == 0 {
        Err(SolverError::ZeroDiscountCadence)
    } else if config.sweep_batch == 0 {
        Err(SolverError::ZeroSweepBatch)
    } else if config.traverser_vector && recall != RecallMode::Street {
        Err(SolverError::VectorTraverserRequiresStreetRecall)
    } else if config.prune && !config.traverser_vector {
        Err(SolverError::PruneRequiresVector)
    } else if config.prune && !(f64_is_finite(config.prune_threshold_bits) && f64_is_negative(
        config.prune_threshold_bits,
    )) {
        Err(SolverError::PruneThresholdNotNegative { threshold_bits: config.prune_threshold_bits })
    } else if config.prune && !(f64_is_finite(config.prune_skip_probability_bits)
        && f64_in_unit_interval(config.prune_skip_probability_bits)) {
        Err(
            SolverError::PruneSkipProbabilityOutOfRange {
                probability_bits: config.prune_skip_probability_bits,
            },
        )
    } else {
        Ok(())
    }
}

/// Checks that a game with `num_players` seats, a deal sampler for
/// `sampler_players` seats and a configuration can form a solver.
pub fn validate_setup(
    num_players: usize,
    sampler_players: usize,
    recall: RecallMode,
    config: SolverConfig,
) -> (r: Result<(), SolverError>)
    ensures
        r == setup_verdict(num_players as nat, sampler_players as nat, recall, config),
{
    if num_players < MIN_SEATS || num_players > MAX_SEATS {
        return Err(SolverError::PlayerCount { found: num_players });
    }
    if sampler_players != num_players {
        return Err(SolverError::SamplerPlayerCount { game: num_players, sampler: sampler_players });
    }
    if config.max_memory_bytes == 0 {
        return Err(SolverError::ZeroMemoryLimit);
    }
    if config.max_traversal_depth == 0 {
        return Err(SolverError::ZeroDepthLimit);
    }
    if !f64_finite(config.exploration_epsilon_bits) || !f64_unit_interval(
        config.exploration_epsilon_bits,
    ) {
        return Err(SolverError::InvalidExploration { epsilon_bits: config.exploration_epsilon_bits });
    }
    if config.discount_every == 0 {
        return Err(SolverError::ZeroDiscountCadence);
    }
    if config.sweep_batch == 0 {
        return Err(SolverError::ZeroSweepBatch);
    }
    if config.traverser_vector && recall != RecallMode::Street {
        return Err(SolverError::VectorTraverserRequiresStreetRecall);
    }
    if config.prune && !config.traverser_vector {
        return Err(SolverError::PruneRequiresVector);
    }
    if config.prune && !(f64_finite(config.prune_threshold_bits) && f64_negative(
        config.prune_threshold_bits,
    )) {
        return Err(
            SolverError::PruneThresholdNotNegative { threshold_bits: config.prune_threshold_bits },
        );
    }
    if config.prune && !(f64_finite(config.prune_skip_probability_bits) && f64_unit_interval(
        config.prune_skip_probability_bits,
    )) {
        return Err(
            SolverError::PruneSkipProbabilityOutOfRange {
                probability_bits: config.prune_skip_probability_bits,
            },
        );
    }
    Ok(())
}

/// A checkpoint's configuration may be resumed under `current` when every
/// algorithm knob agrees; the memory cap is a process resource guard and is
/// ignored.  Real-valued knobs compare with IEEE-754 equality.
pub open spec fn configs_resumable(stored: SolverConfig, current: SolverConfig) -> bool {
    &&& stored.seed == current.seed
    &&& stored.max_traversal_depth == current.max_traversal_depth
    &&& f64_ieee_eq(stored.exploration_epsilon_bits, current.exploration_epsilon_bits)
    &&& stored.discount_every == current.discount_every
    &&& stored.discount_until == current.discount_until
    &&& stored.sweep_batch == current.sweep_batch
    &&& stored.traverser_vector == current.traverser_vector
    &&& stored.prune == current.prune
    &&& f64_ieee_eq(stored.prune_threshold_bits, current.prune_threshold_bits)
    &&& f64_ieee_eq(stored.prune_skip_probability_bits, current.prune_skip_probability_bits)
}

/// Whether a checkpoint taken under `stored` may be resumed under `current`.
pub fn resume_configs_match(stored: SolverConfig, current: SolverConfig) -> (r: bool)
    ensures
        r == configs_resumable(stored, current),
{
    stored.seed == current.seed && stored.max_traversal_depth == current.max_traversal_depth
        && f64_equal(stored.exploration_epsilon_bits, current.exploration_epsilon_bits)
        && stored.discount_every == current.discount_every && stored.discount_until
        == current.discount_until && stored.sweep_batch == current.sweep_batch
        && stored.traverser_vector == current.traverser_vector && stored.prune == current.prune
        && f64_equal(stored.prune_threshold_bits, current.prune_threshold_bits) && f64_equal(
        stored.prune_skip_probability_bits,
        current.prune_skip_probability_bits,
    )
}

/// One byte holding a boolean.
pub open spec fn bool_byte(b: bool) -> Seq<u8> {
    seq![if b { 1u8 } else { 0u8 }]
}

/// Bytes hashed for the configuration fingerprint: the domain, every
/// algorithm knob in declaration order (memory cap excluded, reals by their
/// bits), then the sampler's range fingerprint and the game fingerprint.
pub open spec fn config_frame(config: SolverConfig, ranges: Seq<u8>, game: Seq<u8>) -> Seq<u8> {
    config_domain() + le_bytes(config.seed as nat, 8) + le_bytes(
        config.max_traversal_depth as nat,
        4,
    ) + le_bytes(config.exploration_epsilon_bits as nat, 8) + le_bytes(
        config.discount_every as nat,
        8,
    ) + le_bytes(config.discount_until as nat, 8) + le_bytes(config.sweep_batch as nat, 8)
        + bool_byte(config.traverser_vector) + bool_byte(config.prune) + le_bytes(
        config.prune_threshold_bits as nat,
        8,
    ) + le_bytes(config.prune_skip_probability_bits as nat, 8) + ranges + game
}

impl SolverConfig {
    /// Fingerprint covering solver knobs, the sampler's ranges and the
    /// public game rules.
    pub fn configuration_fingerprint(
        &self,
        range_fingerprint: &[u8; 32],
        game_fingerprint: &[u8; 32],
    ) -> (r: [u8; 32])
        ensures
            r@ == blake3_digest(config_frame(*self, range_fingerprint@, game_fingerprint@)),
    {
        let mut frame = config_domain_bytes();
        push_le(&mut frame, self.seed, 8);
        push_le(&mut frame, self.max_traversal_depth as u64, 4);
        push_le(&mut frame, self.exploration_epsilon_bits, 8);
        push_le(&mut frame, self.discount_every, 8);
        push_le(&mut frame, self.discount_until, 8);
        push_le(&mut frame, self.sweep_batch, 8);
        frame.push(if self.traverser_vector { 1u8 } else { 0u8 });
        frame.push(if self.prune { 1u8 } else { 0u8 });
        push_le(&mut frame, self.prune_threshold_bits, 8);
        push_le(&mut frame, self.prune_skip_probability_bits, 8);
        push_all(&mut frame, range_fingerprint.as_slice());
        push_all(&mut frame, game_fingerprint.as_slice());
        assert(frame@ =~= config_frame(*self, range_fingerprint@, game_fingerprint@));
        blake3_hash(frame.as_slice())
    }
}

/// `c` with its memory cap replaced by `cap`.
pub open spec fn with_memory_cap(c: SolverConfig, cap: u64) -> SolverConfig {
    SolverConfig { max_memory_bytes: cap, ..c }
}

/// Resuming compares every setting except the memory cap.  Resumable
/// configurations agree on the seed, the depth limit, the discount
/// cadence and cutoff, the sweep batch and both traverser flags, and their
/// three real-valued knobs are numbers that compare equal.  Conversely,
/// configurations that differ at most in the memory cap are resumable
/// whenever those knobs are not NaN.  The memory caps on either side never
/// change the answer.
pub proof fn law_resume_compares_all_but_memory(
    stored: SolverConfig,
    current: SolverConfig,
    stored_cap: u64,
    current_cap: u64,
)
    ensures
        configs_resumable(stored, current) ==> {
            &&& stored.seed == current.seed
            &&& stored.max_traversal_depth == current.max_traversal_depth
            &&& stored.discount_every == current.discount_every
            &&& stored.discount_until == current.discount_until
            &&& stored.sweep_batch == current.sweep_batch
            &&& stored.traverser_vector == current.traverser_vector
            &&& stored.prune == current.prune
            &&& !crate::float_bits::f64_is_nan(stored.exploration_epsilon_bits)
            &&& !crate::float_bits::f64_is_nan(stored.prune_threshold_bits)
            &&& !crate::float_bits::f64_is_nan(stored.prune_skip_probability_bits)
            &&& (stored.exploration_epsilon_bits == current.exploration_epsilon_bits || (
            crate::float_bits::f64_magnitude(stored.exploration_epsilon_bits) == 0
                && crate::float_bits::f64_magnitude(current.exploration_epsilon_bits) == 0))
            &&& (stored.prune_threshold_bits == current.prune_threshold_bits || (
            crate::float_bits::f64_magnitude(stored.prune_threshold_bits) == 0
                && crate::float_bits::f64_magnitude(current.prune_threshold_bits) == 0))
            &&& (stored.prune_skip_probability_bits == current.prune_skip_probability_bits || (
            crate::float_bits::f64_magnitude(stored.prune_skip_probability_bits) == 0
                && crate::float_bits::f64_magnitude(current.prune_skip_probability_bits) == 0))
        },
        with_memory_cap(stored, current.max_memory_bytes) == current
            && !crate::float_bits::f64_is_nan(stored.exploration_epsilon_bits)
            && !crate::float_bits::f64_is_nan(stored.prune_threshold_bits)
            && !crate::float_bits::f64_is_nan(stored.prune_skip_probability_bits) ==> configs_resumable(
            stored,
            current,
        ),
        configs_resumable(stored, current) == configs_resumable(
            with_memory_cap(stored, stored_cap),
            with_memory_cap(current, current_cap),
        ),
{
}

} // verus!
