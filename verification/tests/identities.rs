use multiway::digest::to_hex_lower;
use multiway::keys::{HistoryKey, PrivateInfo};
use multiway::streams::{
    evaluation_action_rng, evaluation_action_seed, evaluation_deal_seed, traversal_action_rng,
    traversal_action_seed, traversal_deal_rng, traversal_deal_seed,
};
use multiway::types::{Street, UNREACHED_BUCKET};
use rand::RngCore;

#[test]
fn independent_action_substream_ignores_deal_rng_consumption() {
    let mut short_deal = traversal_deal_rng(41, 19, 1);
    let mut long_deal = traversal_deal_rng(41, 19, 1);
    let _ = short_deal.next_u64();
    for _ in 0..10_000 {
        let _ = long_deal.next_u64();
    }

    let mut after_short = traversal_action_rng(41, 19, 1);
    let mut after_long = traversal_action_rng(41, 19, 1);
    let left: Vec<_> = (0..32).map(|_| after_short.next_u64()).collect();
    let right: Vec<_> = (0..32).map(|_| after_long.next_u64()).collect();
    assert_eq!(left, right);
}

#[test]
fn history_keys_are_stable_and_action_sensitive() {
    assert_eq!(HistoryKey::root().child(0, 1), HistoryKey::root().child(0, 1));
    assert_ne!(HistoryKey::root().child(0, 0), HistoryKey::root().child(0, 1));
    assert_ne!(HistoryKey::root().child(0, 1), HistoryKey::root().child(1, 1));
}

fn frame(domain: &str, words: &[u64]) -> Vec<u8> {
    let mut bytes = domain.as_bytes().to_vec();
    for word in words {
        bytes.extend_from_slice(&word.to_le_bytes());
    }
    bytes
}

#[test]
fn history_child_key_is_the_framed_blake3_prefix() {
    let parent = HistoryKey::root().child(1, 2);
    let mut bytes = b"solvers.multiway.history.v1".to_vec();
    bytes.extend_from_slice(&parent.0);
    bytes.extend_from_slice(&3u64.to_le_bytes());
    bytes.extend_from_slice(&4u64.to_le_bytes());
    let digest = blake3::hash(&bytes);
    assert_eq!(parent.child(3, 4).0[..], digest.as_bytes()[..16]);
}

#[test]
fn stream_seeds_frame_domain_seed_sample_and_seat() {
    assert_eq!(
        traversal_deal_seed(41, 19, 1),
        *blake3::hash(&frame("solvers.multiway.mccfr-deal.v1", &[41, 19, 1])).as_bytes()
    );
    assert_eq!(
        traversal_action_seed(41, 19, 1),
        *blake3::hash(&frame("solvers.multiway.mccfr-actions.v1", &[41, 19, 1])).as_bytes()
    );
    assert_eq!(
        evaluation_deal_seed(5, 6),
        *blake3::hash(&frame("solvers.multiway.profile-evaluation-deal.v1", &[5, 6])).as_bytes()
    );
    assert_eq!(
        evaluation_action_seed(5, 6, Some(2)),
        *blake3::hash(&frame("solvers.multiway.profile-evaluation-deviation.v1", &[2, 5, 6]))
            .as_bytes()
    );
    assert_eq!(
        evaluation_action_seed(5, 6, None),
        *blake3::hash(&frame("solvers.multiway.profile-evaluation-baseline.v1", &[5, 6])).as_bytes()
    );
    assert_ne!(traversal_deal_seed(41, 19, 1), traversal_action_seed(41, 19, 1));
}

#[test]
fn evaluation_streams_separate_baseline_and_deviators() {
    let mut baseline = evaluation_action_rng(9, 3, None);
    let mut deviator = evaluation_action_rng(9, 3, Some(0));
    let mut again = evaluation_action_rng(9, 3, Some(0));
    let a = deviator.next_u64();
    assert_eq!(a, again.next_u64());
    assert_ne!(baseline.next_u64(), a);
}

#[test]
fn hex_rendering_is_lowercase_two_digits_per_byte() {
    assert_eq!(to_hex_lower(&[0x00, 0x0f, 0xa5, 0xff]), "000fa5ff");
    let digest = blake3::hash(b"abc");
    assert_eq!(to_hex_lower(digest.as_bytes()), digest.to_hex().to_string());
}

#[test]
fn private_info_keeps_the_buckets_recall_allows() {
    let street = PrivateInfo::from_current_bucket(Street::Turn, 2, 17);
    assert_eq!(street.street, 2);
    assert_eq!(street.active_opponents, 2);
    assert_eq!(
        street.bucket_path,
        [UNREACHED_BUCKET, UNREACHED_BUCKET, 17, UNREACHED_BUCKET]
    );
    assert_eq!(street.current_bucket(), 17);
    let full = PrivateInfo::from_path(Street::Flop, 1, [4, 5, 6, 7]);
    assert_eq!(full.bucket_path, [4, 5, UNREACHED_BUCKET, UNREACHED_BUCKET]);
    assert_eq!(full.current_bucket(), 5);
}
