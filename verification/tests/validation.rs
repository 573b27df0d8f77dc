use multiway::config::{validate_setup, SolverConfig};
use multiway::errors::SolverError;
use multiway::keys::{validate_private_info, HistoryKey, InfoKey, PrivateInfo};
use multiway::storage::{PolicyColumn, PolicyEntry};
use multiway::store::MultiwaySolver;
use multiway::types::{RecallMode, Street, UNREACHED_BUCKET};

fn setup(players: usize, sampler: usize, config: SolverConfig) -> Result<(), SolverError> {
    validate_setup(players, sampler, RecallMode::Full, config)
}

#[test]
fn setup_rejects_each_invalid_field() {
    let ok = SolverConfig::default();
    assert_eq!(setup(2, 2, ok), Ok(()));
    assert_eq!(setup(1, 1, ok), Err(SolverError::PlayerCount { found: 1 }));
    assert_eq!(setup(10, 10, ok), Err(SolverError::PlayerCount { found: 10 }));
    assert_eq!(
        setup(3, 2, ok),
        Err(SolverError::SamplerPlayerCount { game: 3, sampler: 2 })
    );
    assert_eq!(
        setup(2, 2, SolverConfig { max_memory_bytes: 0, ..ok }),
        Err(SolverError::ZeroMemoryLimit)
    );
    assert_eq!(
        setup(2, 2, SolverConfig { max_traversal_depth: 0, ..ok }),
        Err(SolverError::ZeroDepthLimit)
    );
    let epsilon = 1.5f64.to_bits();
    assert_eq!(
        setup(2, 2, SolverConfig { exploration_epsilon_bits: epsilon, ..ok }),
        Err(SolverError::InvalidExploration { epsilon_bits: epsilon })
    );
    assert_eq!(
        setup(2, 2, SolverConfig { discount_every: 0, ..ok }),
        Err(SolverError::ZeroDiscountCadence)
    );
    assert_eq!(
        setup(2, 2, SolverConfig { prune: true, ..ok }),
        Err(SolverError::PruneRequiresVector)
    );
    assert_eq!(
        validate_setup(
            2,
            2,
            RecallMode::Street,
            SolverConfig { traverser_vector: true, prune: true, prune_threshold_bits: 1.0f64.to_bits(), ..ok }
        ),
        Err(SolverError::PruneThresholdNotNegative { threshold_bits: 1.0f64.to_bits() })
    );
    assert_eq!(
        validate_setup(
            2,
            2,
            RecallMode::Street,
            SolverConfig {
                traverser_vector: true,
                prune: true,
                prune_skip_probability_bits: 2.0f64.to_bits(),
                ..ok
            }
        ),
        Err(SolverError::PruneSkipProbabilityOutOfRange { probability_bits: 2.0f64.to_bits() })
    );
}

#[test]
fn private_information_must_match_recall() {
    let full = PrivateInfo::from_path(Street::Flop, 1, [1, 2, 3, 4]);
    assert_eq!(validate_private_info(full, 2, RecallMode::Full), Ok(()));
    let mut exposed = full;
    exposed.bucket_path[3] = 9;
    assert_eq!(
        validate_private_info(exposed, 2, RecallMode::Full),
        Err(SolverError::InvalidPrivateInfo("future street bucket was exposed"))
    );
    let mut sentinel = full;
    sentinel.bucket_path[0] = UNREACHED_BUCKET;
    assert_eq!(
        validate_private_info(sentinel, 2, RecallMode::Full),
        Err(SolverError::InvalidPrivateInfo("reached street has sentinel bucket"))
    );
    assert!(matches!(
        validate_private_info(full, 2, RecallMode::Street),
        Err(SolverError::InvalidPrivateInfo(_))
    ));
    let mut alone = full;
    alone.active_opponents = 0;
    assert_eq!(
        validate_private_info(alone, 2, RecallMode::Full),
        Err(SolverError::InvalidPrivateInfo("active opponents is outside 1..players"))
    );
}

fn root_policy(labels: &[&str], regrets: Vec<u32>, sums: Vec<u32>) -> PolicyEntry {
    PolicyEntry {
        key: InfoKey {
            history: HistoryKey::root(),
            player: 0,
            street: 0,
            active_opponents: 1,
            bucket_path: [1, UNREACHED_BUCKET, UNREACHED_BUCKET, UNREACHED_BUCKET],
        },
        column: PolicyColumn {
            action_labels: labels.iter().map(|s| s.to_string()).collect(),
            regrets,
            strategy_sum: sums,
        },
    }
}

#[test]
fn restore_rejects_invalid_or_duplicate_policies() {
    let fresh = MultiwaySolver::new(2, 2, RecallMode::Full, SolverConfig::default()).unwrap().snapshot_state();
    let mut duplicate = fresh.clone();
    let entry = root_policy(&["fold", "call"], vec![0, 0], vec![0, 0]);
    duplicate.policies.push(entry.clone());
    duplicate.policies.push(entry.clone());
    assert!(matches!(
        MultiwaySolver::from_state(duplicate, 2, 2, RecallMode::Full),
        Err(SolverError::DuplicatePolicy(key)) if key == entry.key
    ));
    let mut negative = fresh.clone();
    negative
        .policies
        .push(root_policy(&["fold", "call"], vec![0, 0], vec![(-1.0f32).to_bits(), 0]));
    assert!(matches!(
        MultiwaySolver::from_state(negative, 2, 2, RecallMode::Full),
        Err(SolverError::InvalidState("strategy sums must be non-negative"))
    ));
    let mut nan = fresh.clone();
    nan.policies
        .push(root_policy(&["fold", "call"], vec![f32::NAN.to_bits(), 0], vec![0, 0]));
    assert!(matches!(
        MultiwaySolver::from_state(nan, 2, 2, RecallMode::Full),
        Err(SolverError::InvalidState("policy contains a non-finite value"))
    ));
    let mut ragged = fresh.clone();
    ragged.policies.push(root_policy(&["fold", "call"], vec![0], vec![0, 0]));
    assert!(matches!(
        MultiwaySolver::from_state(ragged, 2, 2, RecallMode::Full),
        Err(SolverError::InvalidState(
            "policy vectors are empty or have different lengths"
        ))
    ));
    let mut orphan = fresh.clone();
    let mut deep = root_policy(&["fold"], vec![0], vec![0]);
    deep.key.history = HistoryKey::root().child(1, 1);
    orphan.policies.push(deep);
    assert!(matches!(
        MultiwaySolver::from_state(orphan, 2, 2, RecallMode::Full),
        Err(SolverError::InvalidState("policy refers to an unknown public history"))
    ));
}

#[test]
fn partial_sweep_state_cannot_start_parallel_sweeps() {
    let mut state = MultiwaySolver::new(2, 2, RecallMode::Full, SolverConfig::default()).unwrap().snapshot_state();
    state.traversals = 1;
    state.next_sample_id = 1;
    let resumed = MultiwaySolver::from_state(state, 2, 2, RecallMode::Full).unwrap();
    assert_eq!(resumed.check_run(1, 1), Err(SolverError::IncompleteSweepState));
}

#[test]
fn street_recall_store_accepts_the_vector_traverser() {
    let config = SolverConfig { traverser_vector: true, ..SolverConfig::default() };
    let store = MultiwaySolver::new(2, 2, RecallMode::Street, config).unwrap();
    let state = store.snapshot_state();
    let resumed = MultiwaySolver::from_state(state.clone(), 2, 2, RecallMode::Street).unwrap();
    assert_eq!(resumed.snapshot_state(), state);
}

#[test]
fn restore_checks_private_info_by_recall_mode() {
    let fresh = MultiwaySolver::new(2, 2, RecallMode::Full, SolverConfig::default())
        .unwrap()
        .snapshot_state();
    let mut full_shaped = root_policy(&["fold", "call"], vec![0, 0], vec![0, 0]);
    full_shaped.key.street = 1;
    full_shaped.key.bucket_path = [1, 2, UNREACHED_BUCKET, UNREACHED_BUCKET];
    let mut street_shaped = full_shaped.clone();
    street_shaped.key.bucket_path = [UNREACHED_BUCKET, 2, UNREACHED_BUCKET, UNREACHED_BUCKET];

    let mut state = fresh.clone();
    state.policies.push(full_shaped.clone());
    assert!(MultiwaySolver::from_state(state.clone(), 2, 2, RecallMode::Full).is_ok());
    assert!(matches!(
        MultiwaySolver::from_state(state, 2, 2, RecallMode::Street),
        Err(SolverError::InvalidPrivateInfo(
            "non-current street bucket was exposed under street recall"
        ))
    ));

    let mut state = fresh;
    state.policies.push(street_shaped);
    assert!(MultiwaySolver::from_state(state.clone(), 2, 2, RecallMode::Street).is_ok());
    assert!(matches!(
        MultiwaySolver::from_state(state, 2, 2, RecallMode::Full),
        Err(SolverError::InvalidPrivateInfo("reached street has sentinel bucket"))
    ));
}
