use multiway::census::{
    add, census_fingerprint, census_node, record_census_node, CensusColumn, PreflopSupportCensus,
    PreflopSupportNode,
};
use multiway::deviator::{policy_fingerprint, training_coverage, validate_policies, DeviatorPolicy};
use multiway::endpoint::{
    check_endpoint_menu, endpoint_key, path_history, validate_config, EndpointDeviationConfig,
};
use multiway::errors::SolverError;
use multiway::keys::{HistoryKey, InfoKey};
use multiway::preflop::{
    held_out_chunk, max_buffered_samples, validate_purify_threshold, PreflopDeviationConfig,
};
use multiway::schedule::{batch_plan, discount_event, sweep_task, traversals_for_player};
use multiway::types::{Street, UNREACHED_BUCKET};

fn node(labels: &[&str]) -> PreflopSupportNode {
    PreflopSupportNode {
        node_id: 3,
        history: HistoryKey::root().child(0, 1),
        parent_history: Some(HistoryKey::root()),
        parent_action_index: Some(1),
        actor: 1,
        active_opponents: 1,
        bucket_active_opponents: 1,
        aggressive_actions: 0,
        preflop_limpers: 1,
        preflop_flats: 0,
        action_labels: labels.iter().map(|s| s.to_string()).collect(),
        expected_buckets: 3,
        stored_buckets: 0,
        nonzero_regret_buckets: 0,
        positive_regret_buckets: 0,
        positive_average_buckets: 0,
        average_and_nonzero_regret_buckets: 0,
        raw_state_fingerprint: String::new(),
    }
}

fn column(bucket: u32, touched: bool, regrets: &[f32], average: &[f32]) -> CensusColumn {
    CensusColumn {
        bucket,
        touched,
        regrets: regrets.iter().map(|v| v.to_bits()).collect(),
        average: average.iter().map(|v| v.to_bits()).collect(),
    }
}

fn reference_frame(n: &PreflopSupportNode, columns: &[CensusColumn]) -> Vec<u8> {
    let mut out = b"solvers.multiway.preflop-support-node.v1\0".to_vec();
    out.extend_from_slice(&n.node_id.to_le_bytes());
    out.extend_from_slice(&n.history.0);
    match (n.parent_history, n.parent_action_index) {
        (Some(parent), Some(action)) => {
            out.push(1);
            out.extend_from_slice(&parent.0);
            out.extend_from_slice(&action.to_le_bytes());
        }
        _ => out.push(0),
    }
    out.extend_from_slice(&[
        n.actor,
        n.active_opponents,
        n.bucket_active_opponents,
        n.aggressive_actions,
        n.preflop_limpers,
        n.preflop_flats,
    ]);
    out.extend_from_slice(&n.expected_buckets.to_le_bytes());
    out.extend_from_slice(&(n.action_labels.len() as u64).to_le_bytes());
    for label in &n.action_labels {
        out.extend_from_slice(&(label.len() as u64).to_le_bytes());
        out.extend_from_slice(label.as_bytes());
    }
    for c in columns {
        out.extend_from_slice(&c.bucket.to_le_bytes());
        out.push(u8::from(c.touched));
        for v in &c.regrets {
            out.extend_from_slice(&v.to_le_bytes());
        }
        for v in &c.average {
            out.extend_from_slice(&v.to_le_bytes());
        }
    }
    out
}

#[test]
fn census_node_counts_touched_support_and_hashes_every_bucket() {
    let columns = vec![
        column(0, true, &[0.0, -0.0], &[0.0, 0.0]),
        column(1, true, &[-1.0, 2.0], &[0.0, 3.0]),
        column(2, false, &[5.0, 0.0], &[1.0, 0.0]),
        column(3, true, &[-2.0, 0.0], &[0.5, 0.0]),
    ];
    let n = node(&["fold", "call"]);
    let frame = reference_frame(&n, &columns);
    let (summary, digest) = census_node(n, &columns).unwrap();
    assert_eq!(summary.stored_buckets, 3);
    assert_eq!(summary.nonzero_regret_buckets, 2);
    assert_eq!(summary.positive_regret_buckets, 1);
    assert_eq!(summary.positive_average_buckets, 2);
    assert_eq!(summary.average_and_nonzero_regret_buckets, 2);
    assert_eq!(digest, *blake3::hash(&frame).as_bytes());
    assert_eq!(summary.raw_state_fingerprint, blake3::hash(&frame).to_hex().to_string());
}

#[test]
fn census_node_rejects_nonfinite_regret_negative_average_and_width() {
    let n = || node(&["fold", "call"]);
    assert!(matches!(
        census_node(n(), &vec![column(0, false, &[f32::NAN, 0.0], &[0.0, 0.0])]),
        Err(SolverError::InvalidState("preflop census nonfinite regret"))
    ));
    assert!(matches!(
        census_node(n(), &vec![column(0, false, &[0.0, 0.0], &[-1.0, 0.0])]),
        Err(SolverError::InvalidState("preflop census invalid average mass"))
    ));
    assert!(matches!(
        census_node(n(), &vec![column(0, true, &[0.0, 0.0], &[f32::INFINITY, 0.0])]),
        Err(SolverError::InvalidState("preflop census invalid average mass"))
    ));
    assert!(matches!(
        census_node(n(), &vec![column(0, true, &[0.0], &[0.0])]),
        Err(SolverError::InvalidState("preflop census column width mismatch"))
    ));
    // Negative zero is not negative mass.
    assert!(census_node(n(), &vec![column(0, true, &[0.0, 0.0], &[-0.0, 0.0])]).is_ok());
}

#[test]
fn census_totals_add_with_overflow_checks_and_fingerprint_frames_digests() {
    let mut total = u64::MAX - 1;
    assert_eq!(add(&mut total, 1), Ok(()));
    assert_eq!(total, u64::MAX);
    assert_eq!(add(&mut total, 1), Err(SolverError::CounterOverflow));
    assert_eq!(total, u64::MAX);

    let mut census = PreflopSupportCensus {
        schema_version: "solvers.multiway-preflop-support-census/v1",
        total_materialized_nodes: 1,
        total_materialized_columns: 4,
        preflop_nodes: 1,
        total_expected_buckets: 0,
        total_stored_buckets: 0,
        total_nonzero_regret_buckets: 0,
        total_positive_regret_buckets: 0,
        total_positive_average_buckets: 0,
        total_average_and_nonzero_regret_buckets: 0,
        raw_state_fingerprint: String::new(),
        nodes: vec![],
    };
    let columns = vec![column(0, true, &[1.0, 0.0], &[1.0, 0.0])];
    let (summary, digest) = census_node(node(&["fold", "call"]), &columns).unwrap();
    record_census_node(&mut census, summary).unwrap();
    assert_eq!(census.total_expected_buckets, 3);
    assert_eq!(census.total_stored_buckets, 1);
    assert_eq!(census.total_average_and_nonzero_regret_buckets, 1);
    assert_eq!(census.nodes.len(), 1);

    let mut frame = b"solvers.multiway.preflop-support-census.v1\0".to_vec();
    frame.extend_from_slice(&1u64.to_le_bytes());
    frame.extend_from_slice(&digest);
    assert_eq!(
        census_fingerprint(&vec![digest]),
        blake3::hash(&frame).to_hex().to_string()
    );
}

fn deviator_key(seat: u8, bucket: u32) -> InfoKey {
    InfoKey {
        history: HistoryKey::root(),
        player: seat,
        street: 0,
        active_opponents: 1,
        bucket_path: [bucket, UNREACHED_BUCKET, UNREACHED_BUCKET, UNREACHED_BUCKET],
    }
}

#[test]
fn deviator_policy_is_a_map_kept_in_key_order() {
    let mut p = DeviatorPolicy::new(0);
    p.insert(deviator_key(0, 9), 2);
    p.insert(deviator_key(0, 1), 1);
    p.insert(deviator_key(0, 9), 0);
    assert_eq!(p.len(), 2);
    assert_eq!(p.get(deviator_key(0, 9)), Some(0));
    assert_eq!(p.get(deviator_key(0, 1)), Some(1));
    assert_eq!(p.get(deviator_key(0, 5)), None);
    let entries = p.entries();
    assert!(entries[0].key < entries[1].key);
}

#[test]
fn deviator_validation_checks_seats_and_preflop_keys() {
    let mut a = DeviatorPolicy::new(0);
    a.insert(deviator_key(0, 3), 1);
    let mut b = DeviatorPolicy::new(1);
    b.insert(deviator_key(1, 4), 0);
    assert_eq!(validate_policies(2, &vec![a, b]), Ok(()));
    assert_eq!(
        validate_policies(3, &vec![DeviatorPolicy::new(0)]),
        Err(SolverError::InvalidState(
            "preflop deviators must contain one policy per seat"
        ))
    );
    let mut wrong = DeviatorPolicy::new(1);
    let mut flop = deviator_key(1, 4);
    flop.street = 1;
    wrong.insert(flop, 0);
    assert_eq!(
        validate_policies(2, &vec![DeviatorPolicy::new(0), wrong]),
        Err(SolverError::InvalidState(
            "preflop deviator contains an invalid seat or non-preflop key"
        ))
    );
    let mut unreached = DeviatorPolicy::new(0);
    unreached.insert(deviator_key(0, UNREACHED_BUCKET), 0);
    assert!(validate_policies(2, &vec![unreached, DeviatorPolicy::new(1)]).is_err());
}

#[test]
fn deviator_fingerprint_frames_policies_in_key_order() {
    let mut p = DeviatorPolicy::new(0);
    p.insert(deviator_key(0, 9), 2);
    p.insert(deviator_key(0, 1), 1);
    let mut frame = b"solvers.multiway.preflop-deviator-actions.v1\0".to_vec();
    frame.extend_from_slice(&1u64.to_le_bytes());
    frame.extend_from_slice(&0u64.to_le_bytes());
    frame.extend_from_slice(&2u64.to_le_bytes());
    for (bucket, action) in [(1u32, 1u16), (9, 2)] {
        let key = deviator_key(0, bucket);
        frame.extend_from_slice(&key.history.0);
        frame.extend_from_slice(&[key.player, key.street, key.active_opponents]);
        for b in key.bucket_path {
            frame.extend_from_slice(&b.to_le_bytes());
        }
        frame.extend_from_slice(&action.to_le_bytes());
    }
    assert_eq!(policy_fingerprint(&vec![p]), blake3::hash(&frame).to_hex().to_string());
}

#[test]
fn training_coverage_keeps_keys_with_enough_visits() {
    let c = training_coverage(100, &vec![1, 8, 20, 7]);
    assert_eq!(c.traversals, 100);
    assert_eq!(c.visited_infosets, 4);
    assert_eq!(c.retained_infosets, 2);
    assert_eq!(c.total_visits, 36);
    assert_eq!(c.retained_visits, 28);
}

fn endpoint_config() -> EndpointDeviationConfig {
    EndpointDeviationConfig {
        fit_samples: 2,
        fit_seed: 1,
        held_out_samples: 2,
        held_out_seeds: vec![2, 3],
        min_fit_ess_bits: 2.0f64.to_bits(),
    }
}

#[test]
fn endpoint_configuration_bounds() {
    assert_eq!(validate_config(&endpoint_config(), 1), Ok(()));
    let rejects = |c: EndpointDeviationConfig, threads: usize| validate_config(&c, threads).is_err();
    assert!(rejects(endpoint_config(), 0));
    let mut c = endpoint_config();
    c.fit_samples = 1;
    assert!(rejects(c, 1));
    let mut c = endpoint_config();
    c.min_fit_ess_bits = 1.999f64.to_bits();
    assert!(rejects(c, 1));
    let mut c = endpoint_config();
    c.min_fit_ess_bits = f64::NAN.to_bits();
    assert!(rejects(c, 1));
    let mut c = endpoint_config();
    c.min_fit_ess_bits = (-3.0f64).to_bits();
    assert!(rejects(c, 1));
    let mut c = endpoint_config();
    c.held_out_seeds = vec![2, 2];
    assert!(rejects(c, 1));
    let mut c = endpoint_config();
    c.held_out_seeds = vec![1];
    assert!(rejects(c, 1));
    let mut c = endpoint_config();
    c.held_out_seeds = (10..75).collect();
    assert!(rejects(c, 1));
    let key = endpoint_key(HistoryKey::root(), 1, Street::Preflop, 1, 6);
    assert_eq!(key.bucket_path, [6, UNREACHED_BUCKET, UNREACHED_BUCKET, UNREACHED_BUCKET]);
    assert_eq!(key.player, 1);
}

#[test]
fn preflop_deviation_configuration_and_chunks() {
    let ok = PreflopDeviationConfig {
        fit_traversals_per_seat: 1,
        fit_seed: 1,
        held_out_samples: 2,
        held_out_seeds: vec![2],
    };
    assert_eq!(ok.validate(), Ok(()));
    let mut bad = ok.clone();
    bad.held_out_seeds = vec![];
    assert_eq!(
        bad.validate(),
        Err(SolverError::InvalidState("preflop deviation needs one to 64 held-out seeds"))
    );
    assert_eq!(max_buffered_samples(10), 10);
    assert_eq!(max_buffered_samples(10_000), 4096);
    assert_eq!(held_out_chunk(0, 10_000), (0, 4096));
    assert_eq!(held_out_chunk(8192, 10_000), (8192, 10_000));
}

#[test]
fn schedule_partitions_traversals_and_batches() {
    let per_seat: Vec<u64> = (0..3).map(|p| traversals_for_player(10, 3, p)).collect();
    assert_eq!(per_seat, vec![4, 3, 3]);
    assert_eq!(per_seat.iter().sum::<u64>(), 10);
    assert_eq!(batch_plan(10, 4), vec![4, 4, 2]);
    let task = sweep_task(100, 7, 3, 5).unwrap();
    assert_eq!((task.sweep_offset, task.traverser, task.sample_id, task.linear_weight), (1, 2, 105, 9));
    assert_eq!(discount_event(10, 5, 100), Some(2));
    assert_eq!(discount_event(11, 5, 100), None);
    assert_eq!(discount_event(100, 5, 100), None);
    assert_eq!(discount_event(10, 5, 0), None);
}

#[test]
fn endpoint_path_and_menu_checks() {
    assert_eq!(path_history(&vec![]), HistoryKey::root());
    assert_eq!(
        path_history(&vec![(0, 1), (1, 0)]),
        HistoryKey::root().child(0, 1).child(1, 0)
    );
    let menu = |names: &[&str]| names.iter().map(|s| s.to_string()).collect::<Vec<_>>();
    assert_eq!(check_endpoint_menu(&menu(&["fold", "call"]), 3), Ok(()));
    assert_eq!(
        check_endpoint_menu(&menu(&[]), 3),
        Err(SolverError::InvalidState(
            "endpoint deviation supports 1..=8 legal endpoint actions"
        ))
    );
    assert_eq!(
        check_endpoint_menu(&menu(&["a", "b", "c", "d", "e", "f", "g", "h", "i"]), 3),
        Err(SolverError::InvalidState(
            "endpoint deviation supports 1..=8 legal endpoint actions"
        ))
    );
    assert_eq!(
        check_endpoint_menu(&menu(&["fold", "fold"]), 3),
        Err(SolverError::InvalidActionLabels("duplicate action label"))
    );
    assert_eq!(
        check_endpoint_menu(&menu(&["fold"]), 0),
        Err(SolverError::InvalidState("endpoint has no configured buckets"))
    );
}

#[test]
fn purify_threshold_must_be_a_finite_probability() {
    for ok in [0.0f32, -0.0, 0.25, 1.0] {
        assert_eq!(validate_purify_threshold(ok.to_bits()), Ok(()));
    }
    for bad in [-0.1f32, 1.0001, f32::NAN, f32::INFINITY] {
        assert_eq!(
            validate_purify_threshold(bad.to_bits()),
            Err(SolverError::InvalidState(
                "purify_threshold must be finite and within [0.0, 1.0]"
            ))
        );
    }
}
