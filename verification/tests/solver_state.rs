use multiway::config::{SolverConfig, DEFAULT_EXPLORATION_EPSILON_BITS};
use multiway::errors::SolverError;
use multiway::keys::{HistoryEntry, HistoryKey, InfoKey};
use multiway::store::MultiwaySolver;
use multiway::types::{RecallMode, SOLVER_STATE_VERSION, UNREACHED_BUCKET};

fn config(seed: u64, memory: u64, sweep_batch: u64) -> SolverConfig {
    SolverConfig {
        seed,
        max_memory_bytes: memory,
        max_traversal_depth: 16,
        exploration_epsilon_bits: DEFAULT_EXPLORATION_EPSILON_BITS,
        discount_every: 5,
        discount_until: 100,
        sweep_batch,
        traverser_vector: false,
        ..SolverConfig::default()
    }
}

fn solver_with_batch(seed: u64, memory: u64, sweep_batch: u64) -> MultiwaySolver {
    MultiwaySolver::new(2, 2, RecallMode::Full, config(seed, memory, sweep_batch)).unwrap()
}

fn solver(seed: u64, memory: u64) -> MultiwaySolver {
    solver_with_batch(seed, memory, 1)
}

#[test]
fn resume_rejects_mismatched_sweep_batch() {
    let state = solver_with_batch(21, 1 << 20, 1).snapshot_state();
    let mut changed = state.config;
    changed.sweep_batch = 4;
    assert!(matches!(
        MultiwaySolver::from_state_with_config(state, changed, 2, 2, RecallMode::Full),
        Err(SolverError::ResumeConfigurationMismatch)
    ));
}

#[test]
fn zero_sweep_batch_is_rejected() {
    let mut config = config(1, 1 << 20, 1);
    config.sweep_batch = 0;
    assert!(matches!(
        MultiwaySolver::new(2, 2, RecallMode::Full, config),
        Err(SolverError::ZeroSweepBatch)
    ));
}

#[test]
fn restore_rejects_algorithm_changes_even_when_memory_limit_changes() {
    let state = solver(9, 1 << 10).snapshot_state();
    let mut changed = state.config;
    changed.max_memory_bytes = 1 << 20;
    changed.exploration_epsilon_bits = 0.5f64.to_bits();
    assert!(matches!(
        MultiwaySolver::from_state_with_config(state, changed, 2, 2, RecallMode::Full),
        Err(SolverError::ResumeConfigurationMismatch)
    ));
}

#[test]
fn resume_rejects_inconsistent_sample_id() {
    let solver = solver(17, 1 << 20);
    let mut state = solver.snapshot_state();
    state.next_sample_id = 1;
    assert!(matches!(
        MultiwaySolver::from_state(state, 2, 2, RecallMode::Full),
        Err(SolverError::InvalidState(
            "next sample id is inconsistent with traversals"
        ))
    ));
}

#[test]
fn vector_traverser_rejects_full_recall_game() {
    let result = MultiwaySolver::new(
        2,
        2,
        RecallMode::Full,
        SolverConfig {
            traverser_vector: true,
            ..SolverConfig::default()
        },
    );
    let error = match result {
        Ok(_) => panic!("expected a recall-mode validation error"),
        Err(error) => error,
    };
    assert!(matches!(
        error,
        SolverError::VectorTraverserRequiresStreetRecall
    ));
}

#[test]
fn fresh_store_checkpoint_round_trips() {
    let store = solver(3, 1 << 20);
    let state = store.snapshot_state();
    assert_eq!(state.schema_version, SOLVER_STATE_VERSION);
    assert_eq!(state.traversals, 0);
    assert!(state.histories.is_empty() && state.policies.is_empty());
    let resumed = MultiwaySolver::from_state(state.clone(), 2, 2, RecallMode::Full).unwrap();
    assert_eq!(resumed.snapshot_state(), state);
    assert_eq!(resumed.memory_bytes(), 0);
}

#[test]
fn resume_adopts_the_current_memory_cap_only() {
    let state = solver(5, 1 << 10).snapshot_state();
    let mut current = state.config;
    current.max_memory_bytes = 1 << 30;
    let resumed = MultiwaySolver::from_state_with_config(state, current, 2, 2, RecallMode::Full).unwrap();
    assert_eq!(resumed.config().max_memory_bytes, 1 << 30);
    assert_eq!(resumed.config().seed, 5);
}

#[test]
fn resume_rejects_wrong_schema_and_sweep_count() {
    let state = solver(5, 1 << 20).snapshot_state();
    let mut old_schema = state.clone();
    old_schema.schema_version = 1;
    assert!(matches!(
        MultiwaySolver::from_state(old_schema, 2, 2, RecallMode::Full),
        Err(SolverError::StateVersion { found: 1, expected: 2 })
    ));
    let mut sweeps = state.clone();
    sweeps.completed_sweeps = 1;
    assert!(matches!(
        MultiwaySolver::from_state(sweeps, 2, 2, RecallMode::Full),
        Err(SolverError::InvalidState(
            "completed sweep count is inconsistent with traversals"
        ))
    ));
}

fn child_entry(parent: HistoryKey, actor: u8, action: u32, label: &str) -> HistoryEntry {
    HistoryEntry {
        key: parent.child(actor as usize, action as usize),
        parent,
        actor,
        action_index: action,
        action_label: label.to_string(),
    }
}

#[test]
fn resume_rejects_unknown_parent_and_duplicate_history() {
    let mut state = solver(5, 1 << 20).snapshot_state();
    let orphan_parent = HistoryKey::root().child(0, 7);
    state.histories.push(child_entry(orphan_parent, 1, 0, "call"));
    assert!(matches!(
        MultiwaySolver::from_state(state.clone(), 2, 2, RecallMode::Full),
        Err(SolverError::InvalidState(
            "public history has an unknown parent"
        ))
    ));
    let mut duplicated = solver(5, 1 << 20).snapshot_state();
    let entry = child_entry(HistoryKey::root(), 0, 1, "call");
    duplicated.histories.push(entry.clone());
    duplicated.histories.push(entry.clone());
    assert!(matches!(
        MultiwaySolver::from_state(duplicated, 2, 2, RecallMode::Full),
        Err(SolverError::DuplicateHistory(key)) if key == entry.key
    ));
}

#[test]
fn check_run_requires_threads_and_whole_sweeps() {
    let store = solver(1, 1 << 20);
    assert!(matches!(store.check_run(0, 1), Err(SolverError::ZeroThreads)));
    assert!(store.check_run(4, 10).is_ok());
    assert!(matches!(
        store.check_run(1, u64::MAX),
        Err(SolverError::TraversalCountOverflow)
    ));
}

#[test]
fn discount_is_due_only_on_cadence_before_cutoff() {
    let due_after = |sweeps: u64| {
        let mut state = solver(1, 1 << 20).snapshot_state();
        state.traversals = 2 * sweeps;
        state.next_sample_id = 2 * sweeps;
        state.completed_sweeps = sweeps;
        MultiwaySolver::from_state(state, 2, 2, RecallMode::Full).unwrap().discount_due()
    };
    assert_eq!(due_after(5), Some(1));
    assert_eq!(due_after(6), None);
    assert_eq!(due_after(95), Some(19));
    assert_eq!(due_after(100), None);
}

#[test]
fn preflop_root_key_shape() {
    let key = InfoKey {
        history: HistoryKey::root(),
        player: 0,
        street: 0,
        active_opponents: 1,
        bucket_path: [3, UNREACHED_BUCKET, UNREACHED_BUCKET, UNREACHED_BUCKET],
    };
    assert!(key.history.0.iter().all(|b| *b == 0));
}
