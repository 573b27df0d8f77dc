use multiway::config::{SolverConfig, DEFAULT_EXPLORATION_EPSILON_BITS};
use multiway::errors::SolverError;
use multiway::keys::{HistoryEntry, HistoryKey, InfoKey};
use multiway::merge::{SweepAdd, TraversalDelta, TraversalEvent};
use multiway::storage::{entry_memory_bytes, history_memory_bytes};
use multiway::store::MultiwaySolver;
use multiway::types::{RecallMode, UNREACHED_BUCKET};
use multiway::worker::TraversalLog;

fn store(memory: u64) -> MultiwaySolver {
    MultiwaySolver::new(
        2,
        2,
        RecallMode::Full,
        SolverConfig {
            seed: 7,
            max_memory_bytes: memory,
            max_traversal_depth: 16,
            exploration_epsilon_bits: DEFAULT_EXPLORATION_EPSILON_BITS,
            discount_every: 5,
            discount_until: 100,
            sweep_batch: 1,
            traverser_vector: false,
            ..SolverConfig::default()
        },
    )
    .unwrap()
}

fn root_key(player: u8, bucket: u32) -> InfoKey {
    InfoKey {
        history: HistoryKey::root(),
        player,
        street: 0,
        active_opponents: 1,
        bucket_path: [bucket, UNREACHED_BUCKET, UNREACHED_BUCKET, UNREACHED_BUCKET],
    }
}

fn labels(names: &[&str]) -> Vec<String> {
    names.iter().map(|s| s.to_string()).collect()
}

fn edge(parent: HistoryKey, actor: u8, action: u32, label: &str) -> HistoryEntry {
    HistoryEntry {
        key: parent.child(actor as usize, action as usize),
        parent,
        actor,
        action_index: action,
        action_label: label.to_string(),
    }
}

fn delta(sample_id: u64, traverser: usize, events: Vec<TraversalEvent>) -> TraversalDelta {
    TraversalDelta {
        sample_id,
        traverser,
        deal_attempts: 3,
        terminal_evaluations: 5,
        hand_updates: 1,
        events,
    }
}

fn first_sweep() -> Vec<TraversalDelta> {
    let k0 = root_key(0, 2);
    vec![
        delta(
            0,
            0,
            vec![
                TraversalEvent::EnsurePolicy { key: k0, action_labels: labels(&["fold", "call"]) },
                TraversalEvent::EnsureHistory(edge(HistoryKey::root(), 0, 1, "call")),
                TraversalEvent::AddRegret { key: k0, width: 2 },
                TraversalEvent::AddStrategy { key: k0, width: 2 },
            ],
        ),
        delta(
            1,
            1,
            vec![
                TraversalEvent::EnsurePolicy { key: k0, action_labels: labels(&["fold", "call"]) },
                TraversalEvent::AddRegret { key: k0, width: 2 },
            ],
        ),
    ]
}

#[test]
fn staged_sweep_commits_columns_histories_and_counters() {
    let mut s = store(1 << 20);
    let k0 = root_key(0, 2);
    let mut plan = s.stage_sweep(&first_sweep());
    assert!(plan.failure().is_none());
    assert_eq!(
        plan.adds(),
        vec![
            SweepAdd { seat: 0, event: 2, key: k0, regret: true },
            SweepAdd { seat: 0, event: 3, key: k0, regret: false },
            SweepAdd { seat: 1, event: 1, key: k0, regret: true },
        ]
    );
    let fresh = plan.column(k0).unwrap();
    assert_eq!(fresh.regrets, vec![0, 0]);
    assert_eq!(fresh.strategy_sum, vec![0, 0]);
    let regrets = vec![1.5f32.to_bits(), (-0.5f32).to_bits()];
    let sums = vec![0.25f32.to_bits(), 0.75f32.to_bits()];
    plan.set_column_values(k0, regrets.clone(), sums.clone()).unwrap();
    s.commit_sweep(plan).unwrap();

    let column = s.policy(k0).unwrap();
    assert_eq!(column.action_labels, labels(&["fold", "call"]));
    assert_eq!(column.regrets, regrets);
    assert_eq!(column.strategy_sum, sums);
    let call = HistoryKey::root().child(0, 1);
    assert_eq!(s.history_entry(call), Some(edge(HistoryKey::root(), 0, 1, "call")));
    assert_eq!(s.traversals(), 2);
    assert_eq!(s.completed_sweeps(), 1);
    assert_eq!(s.next_sample_id(), 2);
    assert_eq!(s.total_deal_attempts(), 6);
    assert_eq!(s.terminal_evaluations(), 10);
    assert_eq!(s.hand_updates(), 2);
    let expected_memory = entry_memory_bytes(&labels(&["fold", "call"])).unwrap()
        + history_memory_bytes("call").unwrap();
    assert_eq!(s.memory_bytes(), expected_memory);
    assert_eq!(s.infosets(), 1);
    assert_eq!(s.resolve_history(call), Some(labels(&["call"])));
    assert_eq!(s.node_children(HistoryKey::root()).len(), 1);
}

#[test]
fn second_sweep_stages_the_stored_column_unchanged() {
    let mut s = store(1 << 20);
    let k0 = root_key(0, 2);
    let mut plan = s.stage_sweep(&first_sweep());
    plan.set_column_values(k0, vec![7, 8], vec![9, 10]).unwrap();
    s.commit_sweep(plan).unwrap();
    let second = vec![
        delta(
            2,
            0,
            vec![
                TraversalEvent::EnsurePolicy { key: k0, action_labels: labels(&["fold", "call"]) },
                TraversalEvent::AddRegret { key: k0, width: 2 },
            ],
        ),
        delta(3, 1, vec![]),
    ];
    let plan = s.stage_sweep(&second);
    assert!(plan.failure().is_none());
    let staged = plan.column(k0).unwrap();
    assert_eq!(staged.regrets, vec![7, 8]);
    assert_eq!(staged.strategy_sum, vec![9, 10]);
    s.commit_sweep(plan).unwrap();
    assert_eq!(s.completed_sweeps(), 2);
    assert_eq!(s.next_sample_id(), 4);
}

#[test]
fn failed_sweep_leaves_the_store_unchanged() {
    let mut s = store(1);
    let before = s.snapshot_state();
    let plan = s.stage_sweep(&first_sweep());
    let needed = entry_memory_bytes(&labels(&["fold", "call"])).unwrap();
    assert_eq!(
        plan.failure(),
        Some(SolverError::MemoryLimit { limit: 1, needed })
    );
    assert_eq!(
        s.commit_sweep(plan),
        Err(SolverError::MemoryLimit { limit: 1, needed })
    );
    assert_eq!(s.snapshot_state(), before);
}

#[test]
fn sweep_requires_one_delta_per_seat_in_sample_order() {
    let s = store(1 << 20);
    let mut deltas = first_sweep();
    deltas.pop();
    assert_eq!(
        s.stage_sweep(&deltas).failure(),
        Some(SolverError::InvalidState(
            "parallel sweep did not produce one delta per seat"
        ))
    );
    let mut swapped = first_sweep();
    swapped.swap(0, 1);
    assert_eq!(
        s.stage_sweep(&swapped).failure(),
        Some(SolverError::InvalidState(
            "parallel traversal deltas are not in sample-id order"
        ))
    );
}

#[test]
fn sweep_rejects_adds_to_unknown_columns_and_width_changes() {
    let s = store(1 << 20);
    let k1 = root_key(1, 4);
    let regret = vec![delta(0, 0, vec![TraversalEvent::AddRegret { key: k1, width: 2 }]), delta(1, 1, vec![])];
    assert_eq!(
        s.stage_sweep(&regret).failure(),
        Some(SolverError::InvalidState(
            "regret delta refers to an uninitialized policy"
        ))
    );
    let strategy = vec![delta(0, 0, vec![TraversalEvent::AddStrategy { key: k1, width: 2 }]), delta(1, 1, vec![])];
    assert_eq!(
        s.stage_sweep(&strategy).failure(),
        Some(SolverError::InvalidState(
            "strategy delta refers to an uninitialized policy"
        ))
    );
    let wide = vec![
        delta(
            0,
            0,
            vec![
                TraversalEvent::EnsurePolicy { key: k1, action_labels: labels(&["fold", "call"]) },
                TraversalEvent::AddRegret { key: k1, width: 3 },
            ],
        ),
        delta(1, 1, vec![]),
    ];
    assert_eq!(
        s.stage_sweep(&wide).failure(),
        Some(SolverError::ActionCountChanged { key: k1, stored: 2, current: 3 })
    );
}

#[test]
fn sweep_rejects_changed_menus_and_history_collisions() {
    let s = store(1 << 20);
    let k0 = root_key(0, 2);
    let relabel = vec![
        delta(
            0,
            0,
            vec![
                TraversalEvent::EnsurePolicy { key: k0, action_labels: labels(&["fold", "call"]) },
                TraversalEvent::EnsurePolicy { key: k0, action_labels: labels(&["fold", "raise"]) },
            ],
        ),
        delta(1, 1, vec![]),
    ];
    assert_eq!(
        s.stage_sweep(&relabel).failure(),
        Some(SolverError::ActionLabelsChanged { key: k0 })
    );
    let recount = vec![
        delta(
            0,
            0,
            vec![
                TraversalEvent::EnsurePolicy { key: k0, action_labels: labels(&["fold", "call"]) },
                TraversalEvent::EnsurePolicy {
                    key: k0,
                    action_labels: labels(&["fold", "call", "raise"]),
                },
            ],
        ),
        delta(1, 1, vec![]),
    ];
    assert_eq!(
        s.stage_sweep(&recount).failure(),
        Some(SolverError::ActionCountChanged { key: k0, stored: 2, current: 3 })
    );
    let first = edge(HistoryKey::root(), 0, 1, "call");
    let mut clash = first.clone();
    clash.action_label = "check".to_string();
    let collide = vec![
        delta(0, 0, vec![TraversalEvent::EnsureHistory(first.clone())]),
        delta(1, 1, vec![TraversalEvent::EnsureHistory(clash)]),
    ];
    assert_eq!(
        s.stage_sweep(&collide).failure(),
        Some(SolverError::HistoryCollision(first.key))
    );
}

#[test]
fn counters_that_would_overflow_stop_the_sweep() {
    let s = store(1 << 20);
    let mut deltas = first_sweep();
    deltas[1].deal_attempts = u64::MAX;
    assert_eq!(s.stage_sweep(&deltas).failure(), Some(SolverError::CounterOverflow));
}

#[test]
fn merged_store_checkpoint_round_trips() {
    let mut s = store(1 << 20);
    let k0 = root_key(0, 2);
    let mut plan = s.stage_sweep(&first_sweep());
    plan.set_column_values(k0, vec![1, 2], vec![3, 4]).unwrap();
    s.commit_sweep(plan).unwrap();
    let state = s.snapshot_state();
    let resumed = MultiwaySolver::from_state(state.clone(), 2, 2, RecallMode::Full).unwrap();
    assert_eq!(resumed.snapshot_state(), state);
    assert_eq!(resumed.memory_bytes(), s.memory_bytes());
}

#[test]
fn store_after_two_sweeps_checkpoint_resumes() {
    let mut s = store(1 << 20);
    let k0 = root_key(0, 2);
    let mut plan = s.stage_sweep(&first_sweep());
    plan.set_column_values(k0, vec![1, 2], vec![3, 4]).unwrap();
    s.commit_sweep(plan).unwrap();
    let call = HistoryKey::root().child(0, 1);
    let k1 = InfoKey { history: call, player: 1, ..root_key(1, 4) };
    let second = vec![
        delta(
            2,
            0,
            vec![
                TraversalEvent::EnsureHistory(edge(HistoryKey::root(), 0, 1, "call")),
                TraversalEvent::EnsureHistory(edge(call, 1, 0, "check")),
                TraversalEvent::EnsurePolicy { key: k1, action_labels: labels(&["check", "bet"]) },
                TraversalEvent::AddStrategy { key: k1, width: 2 },
            ],
        ),
        delta(3, 1, vec![TraversalEvent::AddRegret { key: k0, width: 2 }]),
    ];
    let mut plan = s.stage_sweep(&second);
    assert!(plan.failure().is_none());
    plan.set_column_values(k1, vec![5, 6], vec![0, 0]).unwrap();
    s.commit_sweep(plan).unwrap();
    let state = s.snapshot_state();
    let resumed = MultiwaySolver::from_state(state.clone(), 2, 2, RecallMode::Full).unwrap();
    assert_eq!(resumed.snapshot_state(), state);
    assert_eq!(resumed.memory_bytes(), s.memory_bytes());
    assert_eq!(resumed.completed_sweeps(), 2);
}

#[test]
fn edge_off_an_unknown_history_is_merged_but_cannot_resume() {
    let mut s = store(1 << 20);
    let stray = HistoryKey::root().child(1, 5);
    let deltas = vec![
        delta(0, 0, vec![TraversalEvent::EnsureHistory(edge(stray, 0, 0, "fold"))]),
        delta(1, 1, vec![]),
    ];
    let plan = s.stage_sweep(&deltas);
    assert!(plan.failure().is_none());
    s.commit_sweep(plan).unwrap();
    assert_eq!(
        MultiwaySolver::from_state(s.snapshot_state(), 2, 2, RecallMode::Full).err(),
        Some(SolverError::InvalidState("public history has an unknown parent"))
    );
}

#[test]
fn worker_log_feeds_an_ordered_merge() {
    let mut s = store(1 << 20);
    let k0 = root_key(0, 2);
    let mut seat0 = TraversalLog::new();
    assert_eq!(seat0.resolve_policy(&s, k0, labels(&["fold", "call"])), Ok(None));
    // A second visit in the same traversal records nothing new.
    assert_eq!(seat0.resolve_policy(&s, k0, labels(&["fold", "call"])), Ok(None));
    let call = seat0
        .record_history(&s, HistoryKey::root(), 0, 1, &"call".to_string())
        .unwrap();
    assert_eq!(
        seat0.record_history(&s, HistoryKey::root(), 0, 1, &"call".to_string()),
        Ok(call)
    );
    seat0.record_regret(k0, 2);
    seat0.record_terminal();
    assert_eq!(seat0.event_count(), 3);
    let d0 = seat0.finish(0, 0, 1);
    assert_eq!(d0.terminal_evaluations, 1);
    assert_eq!(d0.hand_updates, 1);
    let d1 = TraversalLog::new().finish(1, 1, 1);
    let mut plan = s.stage_sweep(&vec![d0, d1]);
    assert!(plan.failure().is_none());
    plan.set_column_values(k0, vec![5, 6], vec![0, 0]).unwrap();
    s.commit_sweep(plan).unwrap();
    // The next traversal resolves against the stored column.
    let mut next = TraversalLog::new();
    assert_eq!(next.resolve_policy(&s, k0, labels(&["fold", "call"])), Ok(Some(vec![5, 6])));
    assert_eq!(
        next.resolve_policy(&s, k0, labels(&["fold", "raise"])),
        Err(SolverError::ActionLabelsChanged { key: k0 })
    );
    assert_eq!(
        next.resolve_policy(&s, k0, labels(&["fold"])),
        Err(SolverError::ActionCountChanged { key: k0, stored: 2, current: 1 })
    );
    assert_eq!(next.event_count(), 0);
}

#[test]
fn worker_log_rejects_bad_menus_and_edges() {
    let s = store(1 << 20);
    let k0 = root_key(0, 2);
    let mut log = TraversalLog::new();
    assert_eq!(
        log.resolve_policy(&s, k0, labels(&["fold", "fold"])),
        Err(SolverError::InvalidActionLabels("duplicate action label"))
    );
    assert_eq!(
        log.resolve_policy(&s, k0, labels(&[""])),
        Err(SolverError::InvalidActionLabels("empty action label"))
    );
    assert_eq!(log.resolve_policy(&s, k0, labels(&["fold", "call"])), Ok(None));
    assert_eq!(
        log.resolve_policy(&s, k0, labels(&["fold", "call", "raise"])),
        Err(SolverError::ActionLabelsChanged { key: k0 })
    );
    assert_eq!(
        log.record_history(&s, HistoryKey::root(), 256, 0, &"x".to_string()),
        Err(SolverError::HistoryIndexOverflow)
    );
    let key = log
        .record_history(&s, HistoryKey::root(), 1, 0, &"fold".to_string())
        .unwrap();
    assert_eq!(
        log.record_history(&s, HistoryKey::root(), 1, 0, &"check".to_string()),
        Err(SolverError::HistoryCollision(key))
    );
    assert_eq!(log.event_count(), 2);
}
