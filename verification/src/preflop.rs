//! Configuration and bookkeeping of the independently fitted preflop
//! deviation diagnostic.
use vstd::prelude::*;

use crate::errors::SolverError;
use crate::float_bits::{f32_finite, f32_in_unit_interval, f32_is_finite, f32_unit_interval};

verus! {

/// Held-out worlds evaluated and buffered together.
pub const HELD_OUT_CHUNK_SAMPLES: u64 = 4096;

/// Most held-out seeds one evaluation accepts.
pub const MAX_HELD_OUT_SEEDS: usize = 64;

/// How a preflop deviator is fitted.  Neither mode changes the learned
/// solver profile.
#[derive(Clone, Copy, Debug, PartialEq, Eq, Structural)]
pub enum PreflopDeviationFitMode {
    LocalRegretMatching,
    /// Use the frozen baseline until a key reaches the retention threshold,
    /// while continuing to explore and update every own action.
    RetentionGated,
}

impl Default for PreflopDeviationFitMode {
    fn default() -> (r: Self)
        ensures
            r == PreflopDeviationFitMode::LocalRegretMatching,
    {
        PreflopDeviationFitMode::LocalRegretMatching
    }
}

/// Budgets and seeds of a preflop deviation evaluation.
#[derive(Clone, Debug, PartialEq, Eq)]
pub struct PreflopDeviationConfig {
    pub fit_traversals_per_seat: u64,
    pub fit_seed: u64,
    pub held_out_samples: u64,
    pub held_out_seeds: Vec<u64>,
}

/// Held-out seeds are pairwise distinct and all differ from the fit seed.
pub open spec fn seeds_separate(fit_seed: u64, seeds: Seq<u64>) -> bool {
    &&& forall|i: int| 0 <= i < seeds.len() ==> #[trigger] seeds[i] != fit_seed
    &&& forall|i: int, j: int| 0 <= j < i < seeds.len() ==> seeds[j] != seeds[i]
}

/// Outcome of validating a preflop deviation configuration.
pub open spec fn preflop_config_verdict(config: PreflopDeviationConfig) -> Result<(), SolverError> {
    let seeds = config.held_out_seeds@;
    if config.fit_traversals_per_seat == 0 || config.held_out_samples < 2 {
        Err(
            SolverError::InvalidState(
                "preflop deviation needs positive fitting traversals and at least two held-out samples",
            ),
        )
    } else if seeds.len() == 0 || seeds.len() > MAX_HELD_OUT_SEEDS {
        Err(SolverError::InvalidState("preflop deviation needs one to 64 held-out seeds"))
    } else if !seeds_separate(config.fit_seed, seeds) {
        Err(SolverError::InvalidState("preflop deviation seeds must be unique and separate from fitting"))
    } else {
        Ok(())
    }
}

/// Checks that held-out seeds are distinct from each other and from the fit
/// seed, in the order the evaluation scans them.
pub fn check_seeds_separate(fit_seed: u64, seeds: &[u64]) -> (r: bool)
    ensures
        r == seeds_separate(fit_seed, seeds@),
{
    let mut i: usize = 0;
    while i < seeds.len()
        invariant
            i <= seeds@.len(),
            forall|a: int| 0 <= a < i ==> #[trigger] seeds@[a] != fit_seed,
            forall|a: int, b: int| 0 <= b < a < i ==> seeds@[b] != seeds@[a],
        decreases seeds@.len() - i,
    {
        if seeds[i] == fit_seed {
            assert(seeds@[i as int] == fit_seed);
            return false;
        }
        let mut j: usize = 0;
        while j < i
            invariant
                j <= i < seeds@.len(),
                forall|b: int| 0 <= b < j ==> seeds@[b] != seeds@[i as int],
            decreases i - j,
        {
            if seeds[j] == seeds[i] {
                assert(seeds@[j as int] == seeds@[i as int]);
                return false;
            }
            j = j + 1;
        }
        i = i + 1;
    }
    true
}

impl PreflopDeviationConfig {
    /// Rejects empty fitting budgets, fewer than two held-out samples, a
    /// seed list outside one to 64 entries, and repeated or fit-colliding
    /// seeds.
    pub fn validate(&self) -> (r: Result<(), SolverError>)
        ensures
            r == preflop_config_verdict(*self),
    {
        if self.fit_traversals_per_seat == 0 || self.held_out_samples < 2 {
            return Err(
                SolverError::InvalidState(
                    "preflop deviation needs positive fitting traversals and at least two held-out samples",
                ),
            );
        }
        if self.held_out_seeds.len() == 0 || self.held_out_seeds.len() > MAX_HELD_OUT_SEEDS {
            return Err(SolverError::InvalidState("preflop deviation needs one to 64 held-out seeds"));
        }
        if !check_seeds_separate(self.fit_seed, self.held_out_seeds.as_slice()) {
            return Err(
                SolverError::InvalidState(
                    "preflop deviation seeds must be unique and separate from fitting",
                ),
            );
        }
        Ok(())
    }
}

/// Upper bound on concurrently buffered held-out sample results.
pub fn max_buffered_samples(held_out_samples: u64) -> (r: u64)
    ensures
        r == if held_out_samples < HELD_OUT_CHUNK_SAMPLES {
            held_out_samples
        } else {
            HELD_OUT_CHUNK_SAMPLES
        },
{
    if held_out_samples < HELD_OUT_CHUNK_SAMPLES {
        held_out_samples
    } else {
        HELD_OUT_CHUNK_SAMPLES
    }
}

/// The half-open sample range of the held-out chunk starting at `start`.
pub fn held_out_chunk(start: u64, samples: u64) -> (r: (u64, u64))
    requires
        start < samples,
    ensures
        r.0 == start,
        r.1 == if samples - start < HELD_OUT_CHUNK_SAMPLES {
            samples as int
        } else {
            start + HELD_OUT_CHUNK_SAMPLES
        },
{
    let end = if samples - start < HELD_OUT_CHUNK_SAMPLES {
        samples
    } else {
        start + HELD_OUT_CHUNK_SAMPLES
    };
    (start, end)
}

/// Consecutive held-out chunks from zero, in evaluation order.
pub open spec fn chunk_starts(samples: nat, start: nat) -> Seq<nat>
    decreases samples + HELD_OUT_CHUNK_SAMPLES - start,
{
    if start >= samples {
        Seq::empty()
    } else {
        seq![start] + chunk_starts(samples, (start + HELD_OUT_CHUNK_SAMPLES) as nat)
    }
}

/// Held-out chunks tile `0..samples` exactly: each starts where the
/// previous ended and holds at most the chunk size.
pub proof fn held_out_chunks_tile_samples(samples: nat, start: nat)
    requires
        start <= samples,
    ensures
        forall|i: int|
            0 <= i < chunk_starts(samples, start).len() ==> #[trigger] chunk_starts(samples, start)[i]
                == start + i * HELD_OUT_CHUNK_SAMPLES && chunk_starts(samples, start)[i] < samples,
        chunk_starts(samples, start).len() * HELD_OUT_CHUNK_SAMPLES >= samples - start,
    decreases samples - start,
{
    if start < samples {
        let next = (start + HELD_OUT_CHUNK_SAMPLES) as nat;
        if next <= samples {
            held_out_chunks_tile_samples(samples, next);
        } else {
            assert(chunk_starts(samples, next) =~= Seq::<nat>::empty());
        }
        let rest = chunk_starts(samples, next);
        let all = chunk_starts(samples, start);
        assert(all =~= seq![start] + rest);
        assert forall|i: int| 0 <= i < all.len() implies #[trigger] all[i] == start + i
            * HELD_OUT_CHUNK_SAMPLES && all[i] < samples by {
            if i > 0 {
                assert(all[i] == rest[i - 1]);
                assert(start + i * HELD_OUT_CHUNK_SAMPLES == next + (i - 1) * HELD_OUT_CHUNK_SAMPLES)
                    by (nonlinear_arith)
                    requires
                        next == start + HELD_OUT_CHUNK_SAMPLES,
                ;
            }
        }
        assert(all.len() * HELD_OUT_CHUNK_SAMPLES == HELD_OUT_CHUNK_SAMPLES + rest.len()
            * HELD_OUT_CHUNK_SAMPLES) by (nonlinear_arith)
            requires
                all.len() == rest.len() + 1,
        ;
    }
}

/// A purification threshold (binary32 bits) must be finite and within
/// `[0.0, 1.0]`.
pub fn validate_purify_threshold(threshold_bits: u32) -> (r: Result<(), SolverError>)
    ensures
        f32_is_finite(threshold_bits) && f32_in_unit_interval(threshold_bits) ==> r is Ok,
        !(f32_is_finite(threshold_bits) && f32_in_unit_interval(threshold_bits)) ==> r == Err::<
            (),
            SolverError,
        >(SolverError::InvalidState("purify_threshold must be finite and within [0.0, 1.0]")),
{
    if !f32_finite(threshold_bits) || !f32_unit_interval(threshold_bits) {
        return Err(SolverError::InvalidState("purify_threshold must be finite and within [0.0, 1.0]"));
    }
    Ok(())
}

/// A preflop deviation configuration is accepted exactly when it fits at
/// least once per seat, holds out at least two samples, names one to 64
/// held-out seeds, no held-out seed equals the fitting seed, and no
/// held-out seed repeats.  Past the count checks, a repeated or fitting
/// seed is refused for that reason.
pub proof fn law_preflop_config_accepted_exactly(config: PreflopDeviationConfig)
    ensures
        preflop_config_verdict(config) is Ok <==> {
            &&& config.fit_traversals_per_seat > 0
            &&& config.held_out_samples >= 2
            &&& 1 <= config.held_out_seeds@.len() <= 64
            &&& forall|i: int|
                0 <= i < config.held_out_seeds@.len() ==> config.held_out_seeds@[i] != config.fit_seed
            &&& forall|i: int, j: int|
                0 <= i < config.held_out_seeds@.len() && 0 <= j < config.held_out_seeds@.len() && i
                    != j ==> config.held_out_seeds@[i] != config.held_out_seeds@[j]
        },
        config.fit_traversals_per_seat > 0 && config.held_out_samples >= 2 && 1
            <= config.held_out_seeds@.len() <= 64 && (exists|i: int|
            0 <= i < config.held_out_seeds@.len() && config.held_out_seeds@[i] == config.fit_seed
                || exists|i: int, j: int|
                0 <= i < j < config.held_out_seeds@.len() && config.held_out_seeds@[i]
                    == config.held_out_seeds@[j]) ==> preflop_config_verdict(config) == Err::<
            (),
            SolverError,
        >(SolverError::InvalidState("preflop deviation seeds must be unique and separate from fitting")),
{
    let seeds = config.held_out_seeds@;
    if seeds_separate(config.fit_seed, seeds) {
        assert forall|i: int, j: int| 0 <= i < seeds.len() && 0 <= j < seeds.len() && i != j implies seeds[i]
            != seeds[j] by {
            if j < i {
                assert(seeds[j] != seeds[i]);
            } else {
                assert(seeds[i] != seeds[j]);
            }
        }
    }
    if exists|i: int, j: int| 0 <= i < j < seeds.len() && seeds[i] == seeds[j] {
        let (i, j) = choose|i: int, j: int| 0 <= i < j < seeds.len() && seeds[i] == seeds[j];
        assert(!(seeds[i] != seeds[j]));
    }
}

} // verus!
