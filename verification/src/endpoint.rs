//! Configuration and keys of the preflop endpoint-deviation diagnostic.
use vstd::prelude::*;

use crate::errors::SolverError;
use crate::float_bits::{f64_below_two, f64_finite, f64_is_below_two, f64_is_finite};
use crate::keys::{child_key, path_only, HistoryKey, InfoKey, PrivateInfo};
use crate::storage::{label_views, labels_verdict, validate_action_labels};
use crate::preflop::{check_seeds_separate, seeds_separate, MAX_HELD_OUT_SEEDS};
use crate::types::{BucketId, Street};

verus! {

/// Budgets and seeds of an endpoint-deviation evaluation.  The minimum fit
/// effective sample size is a binary64 held as its bit pattern.
#[derive(Clone, Debug, PartialEq, Eq)]
pub struct EndpointDeviationConfig {
    pub fit_samples: u64,
    pub fit_seed: u64,
    pub held_out_samples: u64,
    pub held_out_seeds: Vec<u64>,
    pub min_fit_ess_bits: u64,
}

/// The configuration is usable on `threads` workers: at least two fit and
/// two held-out worlds, a finite minimum ESS of at least two, positive
/// threads and one to 64 distinct held-out seeds that avoid the fit seed.
pub open spec fn endpoint_config_ok(config: EndpointDeviationConfig, threads: nat) -> bool {
    let seeds = config.held_out_seeds@;
    &&& threads != 0
    &&& config.fit_samples >= 2
    &&& config.held_out_samples >= 2
    &&& f64_is_finite(config.min_fit_ess_bits)
    &&& !f64_is_below_two(config.min_fit_ess_bits)
    &&& 0 < seeds.len() <= MAX_HELD_OUT_SEEDS
    &&& seeds_separate(config.fit_seed, seeds)
}

/// Rejects an endpoint-deviation configuration that
/// [`endpoint_config_ok`] does not accept, with one message for every cause.
pub fn validate_config(config: &EndpointDeviationConfig, threads: usize) -> (r: Result<(), SolverError>)
    ensures
        endpoint_config_ok(*config, threads as nat) ==> r is Ok,
        !endpoint_config_ok(*config, threads as nat) ==> r == Err::<(), SolverError>(
            SolverError::InvalidState(
                "endpoint deviation requires >=2 worlds, finite ESS>=2, positive threads and 1..=64 distinct held-out seeds separate from fit",
            ),
        ),
{
    if threads == 0 || config.fit_samples < 2 || config.held_out_samples < 2 || !f64_finite(
        config.min_fit_ess_bits,
    ) || f64_below_two(config.min_fit_ess_bits) || config.held_out_seeds.len() == 0
        || config.held_out_seeds.len() > MAX_HELD_OUT_SEEDS || !check_seeds_separate(
        config.fit_seed,
        config.held_out_seeds.as_slice(),
    ) {
        return Err(
            SolverError::InvalidState(
                "endpoint deviation requires >=2 worlds, finite ESS>=2, positive threads and 1..=64 distinct held-out seeds separate from fit",
            ),
        );
    }
    Ok(())
}

/// The information key of an endpoint decision for one current-street
/// bucket: the endpoint's history and actor, with street-recall private
/// information.
pub fn endpoint_key(
    history: HistoryKey,
    actor: u8,
    street: Street,
    active_opponents: u8,
    bucket: BucketId,
) -> (r: InfoKey)
    ensures
        r.history == history,
        r.player == actor,
        r.street == street.spec_index(),
        r.active_opponents == active_opponents,
        r.bucket_path@ == path_only(street.spec_index(), bucket),
{
    let private = PrivateInfo::from_current_bucket(street, active_opponents, bucket);
    InfoKey {
        history,
        player: actor,
        street: private.street,
        active_opponents: private.active_opponents,
        bucket_path: private.bucket_path,
    }
}

/// The public history reached from the root by the first `n` (actor,
/// action) steps of a path.
pub open spec fn history_along(steps: Seq<(usize, usize)>, n: nat) -> HistoryKey
    decreases n,
{
    if n == 0 || n > steps.len() {
        HistoryKey(choose|a: [u8; 16]| #[trigger] a@ == Seq::new(16, |i: int| 0u8))
    } else {
        child_key(history_along(steps, (n - 1) as nat), steps[n - 1].0 as nat, steps[n - 1].1 as nat)
    }
}

/// Folds a path of (actor, action) steps into its public history key.
pub fn path_history(steps: &Vec<(usize, usize)>) -> (r: HistoryKey)
    ensures
        r == history_along(steps@, steps@.len()),
{
    let mut key = HistoryKey::root();
    proof {
        let a = choose|a: [u8; 16]| #[trigger] a@ == Seq::new(16, |i: int| 0u8);
        assert(a =~= key.0);
    }
    let mut i: usize = 0;
    while i < steps.len()
        invariant
            i <= steps@.len(),
            key == history_along(steps@, i as nat),
        decreases steps@.len() - i,
    {
        let (actor, action) = steps[i];
        key = key.child(actor, action);
        i = i + 1;
    }
    key
}

/// Outcome of checking an endpoint's menu and bucket count: one to eight
/// valid actions, and at least one bucket.
pub open spec fn endpoint_menu_verdict(labels: Seq<String>, buckets: u32) -> Result<(), SolverError> {
    if !(1 <= labels.len() <= 8) {
        Err(SolverError::InvalidState("endpoint deviation supports 1..=8 legal endpoint actions"))
    } else if labels_verdict(label_views(labels)) is Err {
        labels_verdict(label_views(labels))
    } else if buckets == 0 {
        Err(SolverError::InvalidState("endpoint has no configured buckets"))
    } else {
        Ok(())
    }
}

/// Checks an endpoint's legal actions and configured bucket count.
pub fn check_endpoint_menu(labels: &Vec<String>, buckets: u32) -> (r: Result<(), SolverError>)
    ensures
        r == endpoint_menu_verdict(labels@, buckets),
{
    if labels.len() < 1 || labels.len() > 8 {
        return Err(
            SolverError::InvalidState("endpoint deviation supports 1..=8 legal endpoint actions"),
        );
    }
    validate_action_labels(labels.as_slice())?;
    if buckets == 0 {
        return Err(SolverError::InvalidState("endpoint has no configured buckets"));
    }
    Ok(())
}

} // verus!
