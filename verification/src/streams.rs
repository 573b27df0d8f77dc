//! Independent random streams.  Every traversal and every evaluation sample
//! draws from ChaCha20 streams keyed by the BLAKE3 digest of a domain tag,
//! the run seed, the sample id and (where it applies) the seat, so a stream
//! depends on those values alone: how much another stream was consumed
//! never shifts it.
use vstd::prelude::*;

use rand::SeedableRng;
use rand_chacha::ChaCha20Rng;

use crate::digest::{blake3_digest, blake3_hash, le_bytes, push_le};
use crate::domains::{
    action_domain, action_domain_bytes, deal_domain, deal_domain_bytes,
    evaluation_baseline_domain, evaluation_baseline_domain_bytes, evaluation_deal_domain,
    evaluation_deal_domain_bytes, evaluation_deviation_domain, evaluation_deviation_domain_bytes,
};

verus! {

/// The ChaCha20 stream that `ChaCha20Rng::from_seed` builds from a 32-byte key.
pub uninterp spec fn chacha_seeded(seed: Seq<u8>) -> ChaCha20Rng;

/// Calls `ChaCha20Rng::from_seed`.  The contract claims only that the
/// stream is a function of the 32 key bytes; what it yields is not
/// modelled.
#[verifier::external_body]
fn chacha_from_seed(seed: [u8; 32]) -> (r: ChaCha20Rng)
    ensures
        r == chacha_seeded(seed@),
{
    ChaCha20Rng::from_seed(seed)
}

/// Frame hashed for a per-traversal stream: domain tag, then seed, sample
/// id and traverser as little-endian 64-bit words.
pub open spec fn traversal_frame(domain: Seq<u8>, seed: u64, sample_id: u64, traverser: nat) -> Seq<
    u8,
> {
    domain + le_bytes(seed as nat, 8) + le_bytes(sample_id as nat, 8) + le_bytes(traverser, 8)
}

/// Frame hashed for a profile-evaluation deal stream.
pub open spec fn evaluation_deal_frame(seed: u64, sample_id: u64) -> Seq<u8> {
    evaluation_deal_domain() + le_bytes(seed as nat, 8) + le_bytes(sample_id as nat, 8)
}

/// Frame hashed for a profile-evaluation action stream: the deviating
/// seat's tag and number, or the baseline tag, then seed and sample id.
pub open spec fn evaluation_action_frame(seed: u64, sample_id: u64, deviator: Option<usize>) -> Seq<
    u8,
> {
    let head = match deviator {
        Some(p) => evaluation_deviation_domain() + le_bytes(p as nat, 8),
        None => evaluation_baseline_domain(),
    };
    head + le_bytes(seed as nat, 8) + le_bytes(sample_id as nat, 8)
}

/// Key of the deal stream of traversal `sample_id` by `traverser`.
pub fn traversal_deal_seed(seed: u64, sample_id: u64, traverser: usize) -> (r: [u8; 32])
    ensures
        r@ == blake3_digest(traversal_frame(deal_domain(), seed, sample_id, traverser as nat)),
{
    let mut frame = deal_domain_bytes();
    push_le(&mut frame, seed, 8);
    push_le(&mut frame, sample_id, 8);
    push_le(&mut frame, traverser as u64, 8);
    blake3_hash(frame.as_slice())
}

/// Key of the action stream of traversal `sample_id` by `traverser`.
pub fn traversal_action_seed(seed: u64, sample_id: u64, traverser: usize) -> (r: [u8; 32])
    ensures
        r@ == blake3_digest(traversal_frame(action_domain(), seed, sample_id, traverser as nat)),
{
    let mut frame = action_domain_bytes();
    push_le(&mut frame, seed, 8);
    push_le(&mut frame, sample_id, 8);
    push_le(&mut frame, traverser as u64, 8);
    blake3_hash(frame.as_slice())
}

/// Key of the deal stream of evaluation sample `sample_id`.
pub fn evaluation_deal_seed(seed: u64, sample_id: u64) -> (r: [u8; 32])
    ensures
        r@ == blake3_digest(evaluation_deal_frame(seed, sample_id)),
{
    let mut frame = evaluation_deal_domain_bytes();
    push_le(&mut frame, seed, 8);
    push_le(&mut frame, sample_id, 8);
    blake3_hash(frame.as_slice())
}

/// Key of the action stream of evaluation sample `sample_id`, for one
/// deviating seat or for the baseline profile.
pub fn evaluation_action_seed(seed: u64, sample_id: u64, deviator: Option<usize>) -> (r: [u8; 32])
    ensures
        r@ == blake3_digest(evaluation_action_frame(seed, sample_id, deviator)),
{
    let mut frame = match deviator {
        Some(player) => {
            let mut f = evaluation_deviation_domain_bytes();
            push_le(&mut f, player as u64, 8);
            f
        },
        None => evaluation_baseline_domain_bytes(),
    };
    push_le(&mut frame, seed, 8);
    push_le(&mut frame, sample_id, 8);
    blake3_hash(frame.as_slice())
}

/// The deal stream of traversal `sample_id` by `traverser`.
pub fn traversal_deal_rng(seed: u64, sample_id: u64, traverser: usize) -> (r: ChaCha20Rng)
    ensures
        r == chacha_seeded(
            blake3_digest(traversal_frame(deal_domain(), seed, sample_id, traverser as nat)),
        ),
{
    chacha_from_seed(traversal_deal_seed(seed, sample_id, traverser))
}

/// The action stream of traversal `sample_id` by `traverser`; it shares
/// nothing with the deal stream, so however many draws the deal consumed,
/// the actions come out the same.
pub fn traversal_action_rng(seed: u64, sample_id: u64, traverser: usize) -> (r: ChaCha20Rng)
    ensures
        r == chacha_seeded(
            blake3_digest(traversal_frame(action_domain(), seed, sample_id, traverser as nat)),
        ),
{
    chacha_from_seed(traversal_action_seed(seed, sample_id, traverser))
}

/// The deal stream of evaluation sample `sample_id`.
pub fn evaluation_deal_rng(seed: u64, sample_id: u64) -> (r: ChaCha20Rng)
    ensures
        r == chacha_seeded(blake3_digest(evaluation_deal_frame(seed, sample_id))),
{
    chacha_from_seed(evaluation_deal_seed(seed, sample_id))
}

/// The action stream of evaluation sample `sample_id`, for one deviating
/// seat or for the baseline profile.
pub fn evaluation_action_rng(seed: u64, sample_id: u64, deviator: Option<usize>) -> (r: ChaCha20Rng)
    ensures
        r == chacha_seeded(blake3_digest(evaluation_action_frame(seed, sample_id, deviator))),
{
    chacha_from_seed(evaluation_action_seed(seed, sample_id, deviator))
}

} // verus!
