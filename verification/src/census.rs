//! Numeric core of the preflop support census: the canonical framing of a
//! materialized preflop decision and of its bucket columns, the finiteness
//! checks and support counts over those columns, the checked totals and the
//! census fingerprint.  Counts describe storage and numeric support only,
//! never visits or quality.
use vstd::prelude::*;

use crate::digest::{blake3_digest, blake3_hash, hex_lower, le_bytes, push_all, push_le, to_hex_lower};
use crate::domains::{census_domain, census_domain_bytes, census_node_domain, census_node_domain_bytes};
use crate::errors::SolverError;
use crate::float_bits::{
    f32_finite, f32_is_finite, f32_is_negative, f32_is_nonzero, f32_is_positive, f32_negative,
    f32_nonzero, f32_positive,
};
use crate::keys::HistoryKey;

verus! {

/// Compact support summary for one materialized preflop decision.  Numeric
/// counts concern touched columns only.
#[derive(Debug)]
pub struct PreflopSupportNode {
    pub node_id: u32,
    pub history: HistoryKey,
    pub parent_history: Option<HistoryKey>,
    pub parent_action_index: Option<u32>,
    pub actor: u8,
    pub active_opponents: u8,
    pub bucket_active_opponents: u8,
    pub aggressive_actions: u8,
    pub preflop_limpers: u8,
    pub preflop_flats: u8,
    pub action_labels: Vec<String>,
    pub expected_buckets: u64,
    pub stored_buckets: u64,
    pub nonzero_regret_buckets: u64,
    pub positive_regret_buckets: u64,
    pub positive_average_buckets: u64,
    pub average_and_nonzero_regret_buckets: u64,
    /// Lowercase hex of the node digest.
    pub raw_state_fingerprint: String,
}

/// All materialized preflop decisions with their totals.
#[derive(Debug)]
pub struct PreflopSupportCensus {
    pub schema_version: &'static str,
    pub total_materialized_nodes: u64,
    pub total_materialized_columns: u64,
    pub preflop_nodes: u64,
    pub total_expected_buckets: u64,
    pub total_stored_buckets: u64,
    pub total_nonzero_regret_buckets: u64,
    pub total_positive_regret_buckets: u64,
    pub total_positive_average_buckets: u64,
    pub total_average_and_nonzero_regret_buckets: u64,
    /// Lowercase hex of the census digest.
    pub raw_state_fingerprint: String,
    /// In increasing node id (public-action preorder).
    pub nodes: Vec<PreflopSupportNode>,
}

/// One bucket's raw column at a node: whether it was touched, and its
/// regret and average-strategy slots as binary32 bits.
#[derive(Debug)]
pub struct CensusColumn {
    pub bucket: u32,
    pub touched: bool,
    pub regrets: Vec<u32>,
    pub average: Vec<u32>,
}

/// Adds `value` to a counter; overflow is an error and leaves it unchanged.
pub fn add(total: &mut u64, value: u64) -> (r: Result<(), SolverError>)
    ensures
        *old(total) + value <= u64::MAX ==> r is Ok && *final(total) == *old(total) + value,
        *old(total) + value > u64::MAX ==> r == Err::<(), SolverError>(SolverError::CounterOverflow)
            && *final(total) == *old(total),
{
    match total.checked_add(value) {
        Some(v) => {
            *total = v;
            Ok(())
        },
        None => Err(SolverError::CounterOverflow),
    }
}

/// Each label as its UTF-8 byte length (eight bytes) and bytes.
pub open spec fn labels_frame(labels: Seq<String>) -> Seq<u8>
    decreases labels.len(),
{
    if labels.len() == 0 {
        Seq::empty()
    } else {
        let last = vstd::utf8::encode_utf8(labels.last()@);
        labels_frame(labels.drop_last()) + le_bytes(last.len(), 8) + last
    }
}

/// The parent part of a node frame: a present byte, then the parent
/// history and the action taken from it; or a single zero byte.
pub open spec fn parent_frame(parent: Option<HistoryKey>, action: Option<u32>) -> Seq<u8> {
    match (parent, action) {
        (Some(p), Some(a)) => seq![1u8] + p.0@ + le_bytes(a as nat, 4),
        _ => seq![0u8],
    }
}

/// Canonical framing of a node's public metadata: domain, node id, history,
/// parent, the six context bytes, expected bucket count, action count and
/// the labels.  Integers are little-endian.
pub open spec fn node_header_frame(n: PreflopSupportNode) -> Seq<u8> {
    census_node_domain() + le_bytes(n.node_id as nat, 4) + n.history.0@ + parent_frame(
        n.parent_history,
        n.parent_action_index,
    ) + seq![
        n.actor,
        n.active_opponents,
        n.bucket_active_opponents,
        n.aggressive_actions,
        n.preflop_limpers,
        n.preflop_flats,
    ] + le_bytes(n.expected_buckets as nat, 8) + le_bytes(n.action_labels@.len(), 8) + labels_frame(
        n.action_labels@,
    )
}

/// Every value's four little-endian bytes, in order.
pub open spec fn bits_frame(values: Seq<u32>) -> Seq<u8>
    decreases values.len(),
{
    if values.len() == 0 {
        Seq::empty()
    } else {
        bits_frame(values.drop_last()) + le_bytes(values.last() as nat, 4)
    }
}

/// One bucket's framing: bucket id, touched byte, regret bits, average bits.
pub open spec fn bucket_frame(c: CensusColumn) -> Seq<u8> {
    le_bytes(c.bucket as nat, 4) + seq![if c.touched {
        1u8
    } else {
        0u8
    }] + bits_frame(c.regrets@) + bits_frame(c.average@)
}

/// The framing of the first `n` buckets.
pub open spec fn columns_frame(cs: Seq<CensusColumn>, n: nat) -> Seq<u8>
    decreases n,
{
    if n == 0 || n > cs.len() {
        Seq::empty()
    } else {
        columns_frame(cs, (n - 1) as nat) + bucket_frame(cs[n - 1])
    }
}

/// Outcome of checking one column of a node with `width` actions: both
/// sides must have `width` slots, every regret must be finite, and every
/// average must be finite and not negative.
pub open spec fn column_census_verdict(c: CensusColumn, width: nat) -> Result<(), SolverError> {
    if c.regrets@.len() != width || c.average@.len() != width {
        Err(SolverError::InvalidState("preflop census column width mismatch"))
    } else if exists|i: int| 0 <= i < c.regrets@.len() && !f32_is_finite(#[trigger] c.regrets@[i]) {
        Err(SolverError::InvalidState("preflop census nonfinite regret"))
    } else if exists|i: int|
        0 <= i < c.average@.len() && (!f32_is_finite(#[trigger] c.average@[i]) || f32_is_negative(
            c.average@[i],
        )) {
        Err(SolverError::InvalidState("preflop census invalid average mass"))
    } else {
        Ok(())
    }
}

/// Outcome of checking the first `n` columns: the first rejection wins.
pub open spec fn columns_census_verdict(cs: Seq<CensusColumn>, width: nat, n: nat) -> Result<
    (),
    SolverError,
>
    decreases n,
{
    if n == 0 || n > cs.len() {
        Ok(())
    } else {
        match columns_census_verdict(cs, width, (n - 1) as nat) {
            Err(e) => Err(e),
            Ok(()) => column_census_verdict(cs[n - 1], width),
        }
    }
}

/// Some regret of the column is nonzero.
pub open spec fn has_nonzero_regret(c: CensusColumn) -> bool {
    exists|i: int| 0 <= i < c.regrets@.len() && f32_is_nonzero(#[trigger] c.regrets@[i])
}

/// Some regret of the column is positive.
pub open spec fn has_positive_regret(c: CensusColumn) -> bool {
    exists|i: int| 0 <= i < c.regrets@.len() && f32_is_positive(#[trigger] c.regrets@[i])
}

/// Some average slot of the column is positive.
pub open spec fn has_positive_average(c: CensusColumn) -> bool {
    exists|i: int| 0 <= i < c.average@.len() && f32_is_positive(#[trigger] c.average@[i])
}

/// Which support count a column contributes to (touched columns only):
/// 0 stored, 1 nonzero regret, 2 positive regret, 3 positive average,
/// 4 positive average together with nonzero regret.
pub open spec fn column_counts(c: CensusColumn, which: nat) -> bool {
    c.touched && if which == 0 {
        true
    } else if which == 1 {
        has_nonzero_regret(c)
    } else if which == 2 {
        has_positive_regret(c)
    } else if which == 3 {
        has_positive_average(c)
    } else {
        has_positive_average(c) && has_nonzero_regret(c)
    }
}

/// How many of the first `n` columns count toward support count `which`.
pub open spec fn count_columns(cs: Seq<CensusColumn>, which: nat, n: nat) -> nat
    decreases n,
{
    if n == 0 || n > cs.len() {
        0
    } else {
        count_columns(cs, which, (n - 1) as nat) + if column_counts(cs[n - 1], which) {
            1nat
        } else {
            0nat
        }
    }
}

/// The parent history and the parent action are given together.
pub open spec fn parent_consistent(n: PreflopSupportNode) -> bool {
    n.parent_history is Some <==> n.parent_action_index is Some
}

fn push_bits(out: &mut Vec<u8>, values: &Vec<u32>)
    ensures
        final(out)@ == old(out)@ + bits_frame(values@),
{
    let ghost start = out@;
    let mut i: usize = 0;
    while i < values.len()
        invariant
            i <= values@.len(),
            out@ == start + bits_frame(values@.subrange(0, i as int)),
        decreases values@.len() - i,
    {
        push_le(out, values[i] as u64, 4);
        proof {
            let next = values@.subrange(0, i + 1);
            assert(next.drop_last() =~= values@.subrange(0, i as int));
            assert(out@ =~= start + bits_frame(next));
        }
        i = i + 1;
    }
    assert(values@.subrange(0, values@.len() as int) =~= values@);
}

/// The canonical framing of a node's public metadata.
pub fn census_node_frame(node: &PreflopSupportNode) -> (r: Vec<u8>)
    requires
        parent_consistent(*node),
    ensures
        r@ == node_header_frame(*node),
{
    let mut out = census_node_domain_bytes();
    push_le(&mut out, node.node_id as u64, 4);
    push_all(&mut out, node.history.0.as_slice());
    match (node.parent_history, node.parent_action_index) {
        (Some(parent), Some(action)) => {
            out.push(1u8);
            push_all(&mut out, parent.0.as_slice());
            push_le(&mut out, action as u64, 4);
        },
        _ => {
            out.push(0u8);
        },
    }
    let ghost before_context = out@;
    out.push(node.actor);
    out.push(node.active_opponents);
    out.push(node.bucket_active_opponents);
    out.push(node.aggressive_actions);
    out.push(node.preflop_limpers);
    out.push(node.preflop_flats);
    proof {
        assert(out@ =~= before_context + seq![
            node.actor,
            node.active_opponents,
            node.bucket_active_opponents,
            node.aggressive_actions,
            node.preflop_limpers,
            node.preflop_flats,
        ]);
    }
    push_le(&mut out, node.expected_buckets, 8);
    push_le(&mut out, node.action_labels.len() as u64, 8);
    let ghost labels_start = out@;
    let mut i: usize = 0;
    while i < node.action_labels.len()
        invariant
            i <= node.action_labels@.len(),
            out@ == labels_start + labels_frame(node.action_labels@.subrange(0, i as int)),
        decreases node.action_labels@.len() - i,
    {
        let bytes = node.action_labels[i].as_str().as_bytes();
        push_le(&mut out, bytes.len() as u64, 8);
        push_all(&mut out, bytes);
        proof {
            let next = node.action_labels@.subrange(0, i + 1);
            assert(next.drop_last() =~= node.action_labels@.subrange(0, i as int));
            assert(next.last() == node.action_labels@[i as int]);
            assert(out@ =~= labels_start + labels_frame(next));
        }
        i = i + 1;
    }
    proof {
        assert(node.action_labels@.subrange(0, node.action_labels@.len() as int)
            =~= node.action_labels@);
        assert(out@ =~= node_header_frame(*node));
    }
    out
}

/// Checks one column and reports, for a valid one, whether some regret is
/// nonzero, some regret positive and some average positive.
fn check_column(c: &CensusColumn, width: usize) -> (r: Result<(bool, bool, bool), SolverError>)
    ensures
        match column_census_verdict(*c, width as nat) {
            Err(e) => r == Err::<(bool, bool, bool), SolverError>(e),
            Ok(()) => r == Ok::<(bool, bool, bool), SolverError>(
                (has_nonzero_regret(*c), has_positive_regret(*c), has_positive_average(*c)),
            ),
        },
{
    if c.regrets.len() != width || c.average.len() != width {
        return Err(SolverError::InvalidState("preflop census column width mismatch"));
    }
    let mut nonzero = false;
    let mut positive = false;
    let mut i: usize = 0;
    while i < c.regrets.len()
        invariant
            i <= c.regrets@.len(),
            c.regrets@.len() == width,
            c.average@.len() == width,
            forall|k: int| 0 <= k < i ==> f32_is_finite(#[trigger] c.regrets@[k]),
            nonzero == exists|k: int| 0 <= k < i && f32_is_nonzero(#[trigger] c.regrets@[k]),
            positive == exists|k: int| 0 <= k < i && f32_is_positive(#[trigger] c.regrets@[k]),
        decreases c.regrets@.len() - i,
    {
        let v = c.regrets[i];
        if !f32_finite(v) {
            assert(!f32_is_finite(c.regrets@[i as int]));
            return Err(SolverError::InvalidState("preflop census nonfinite regret"));
        }
        let z = f32_nonzero(v);
        let p = f32_positive(v);
        proof {
            if z {
                assert(f32_is_nonzero(c.regrets@[i as int]));
            }
            if p {
                assert(f32_is_positive(c.regrets@[i as int]));
            }
        }
        nonzero = nonzero || z;
        positive = positive || p;
        i = i + 1;
    }
    let mut positive_average = false;
    let mut j: usize = 0;
    while j < c.average.len()
        invariant
            j <= c.average@.len(),
            c.regrets@.len() == width,
            c.average@.len() == width,
            forall|k: int| 0 <= k < c.regrets@.len() ==> f32_is_finite(#[trigger] c.regrets@[k]),
            nonzero == has_nonzero_regret(*c),
            positive == has_positive_regret(*c),
            forall|k: int|
                0 <= k < j ==> f32_is_finite(#[trigger] c.average@[k]) && !f32_is_negative(
                    c.average@[k],
                ),
            positive_average == exists|k: int|
                0 <= k < j && f32_is_positive(#[trigger] c.average@[k]),
        decreases c.average@.len() - j,
    {
        let v = c.average[j];
        if !f32_finite(v) || f32_negative(v) {
            assert(!f32_is_finite(c.average@[j as int]) || f32_is_negative(c.average@[j as int]));
            return Err(SolverError::InvalidState("preflop census invalid average mass"));
        }
        let p = f32_positive(v);
        proof {
            if p {
                assert(f32_is_positive(c.average@[j as int]));
            }
        }
        positive_average = positive_average || p;
        j = j + 1;
    }
    Ok((nonzero, positive, positive_average))
}

/// Finishes one node's summary from its bucket columns, in bucket order:
/// every column is checked and framed after the node's metadata, the
/// support counts are taken over touched columns, and the node digest is
/// the BLAKE3 of the whole frame.  Returns the summary and its digest.
#[verifier::loop_isolation(false)]
pub fn census_node(node: PreflopSupportNode, columns: &Vec<CensusColumn>) -> (r: Result<
    (PreflopSupportNode, [u8; 32]),
    SolverError,
>)
    requires
        parent_consistent(node),
    ensures
        match columns_census_verdict(columns@, node.action_labels@.len(), columns@.len()) {
            Err(e) => r == Err::<(PreflopSupportNode, [u8; 32]), SolverError>(e),
            Ok(()) => r matches Ok((n, d)) && {
                &&& d@ == blake3_digest(
                    node_header_frame(node) + columns_frame(columns@, columns@.len()),
                )
                &&& n.raw_state_fingerprint@ == hex_lower(d@)
                &&& n.stored_buckets == count_columns(columns@, 0, columns@.len())
                &&& n.nonzero_regret_buckets == count_columns(columns@, 1, columns@.len())
                &&& n.positive_regret_buckets == count_columns(columns@, 2, columns@.len())
                &&& n.positive_average_buckets == count_columns(columns@, 3, columns@.len())
                &&& n.average_and_nonzero_regret_buckets == count_columns(
                    columns@,
                    4,
                    columns@.len(),
                )
                &&& n.node_id == node.node_id
                &&& n.history == node.history
                &&& n.parent_history == node.parent_history
                &&& n.parent_action_index == node.parent_action_index
                &&& n.actor == node.actor
                &&& n.active_opponents == node.active_opponents
                &&& n.bucket_active_opponents == node.bucket_active_opponents
                &&& n.aggressive_actions == node.aggressive_actions
                &&& n.preflop_limpers == node.preflop_limpers
                &&& n.preflop_flats == node.preflop_flats
                &&& n.action_labels@ == node.action_labels@
                &&& n.expected_buckets == node.expected_buckets
            },
        },
{
    let width = node.action_labels.len();
    let mut frame = census_node_frame(&node);
    let ghost header = frame@;
    let mut stored: u64 = 0;
    let mut nonzero_count: u64 = 0;
    let mut positive_count: u64 = 0;
    let mut average_count: u64 = 0;
    let mut both_count: u64 = 0;
    let mut b: usize = 0;
    while b < columns.len()
        invariant
            b <= columns@.len(),
            width == node.action_labels@.len(),
            header == node_header_frame(node),
            columns_census_verdict(columns@, width as nat, b as nat) is Ok,
            frame@ == header + columns_frame(columns@, b as nat),
            stored == count_columns(columns@, 0, b as nat),
            nonzero_count == count_columns(columns@, 1, b as nat),
            positive_count == count_columns(columns@, 2, b as nat),
            average_count == count_columns(columns@, 3, b as nat),
            both_count == count_columns(columns@, 4, b as nat),
            stored <= b && nonzero_count <= b && positive_count <= b && average_count <= b && both_count <= b,
        decreases columns@.len() - b,
    {
        let c = &columns[b];
        let flags = check_column(c, width);
        let (nonzero, positive, positive_average) = match flags {
            Err(e) => {
                proof {
                    lemma_census_verdict_sticks(columns@, width as nat, (b + 1) as nat, columns@.len());
                }
                return Err(e);
            },
            Ok(f) => f,
        };
        push_le(&mut frame, c.bucket as u64, 4);
        frame.push(if c.touched {
            1u8
        } else {
            0u8
        });
        push_bits(&mut frame, &c.regrets);
        push_bits(&mut frame, &c.average);
        proof {
            assert(frame@ =~= header + columns_frame(columns@, (b + 1) as nat));
        }
        if c.touched {
            stored = stored + 1;
            if nonzero {
                nonzero_count = nonzero_count + 1;
            }
            if positive {
                positive_count = positive_count + 1;
            }
            if positive_average {
                average_count = average_count + 1;
            }
            if positive_average && nonzero {
                both_count = both_count + 1;
            }
        }
        proof {
            assert(columns@[b as int] == *c);
        }
        b = b + 1;
    }
    let digest = blake3_hash(frame.as_slice());
    let fingerprint = to_hex_lower(&digest);
    let summary = PreflopSupportNode {
        node_id: node.node_id,
        history: node.history,
        parent_history: node.parent_history,
        parent_action_index: node.parent_action_index,
        actor: node.actor,
        active_opponents: node.active_opponents,
        bucket_active_opponents: node.bucket_active_opponents,
        aggressive_actions: node.aggressive_actions,
        preflop_limpers: node.preflop_limpers,
        preflop_flats: node.preflop_flats,
        action_labels: node.action_labels,
        expected_buckets: node.expected_buckets,
        stored_buckets: stored,
        nonzero_regret_buckets: nonzero_count,
        positive_regret_buckets: positive_count,
        positive_average_buckets: average_count,
        average_and_nonzero_regret_buckets: both_count,
        raw_state_fingerprint: fingerprint,
    };
    Ok((summary, digest))
}

/// Once a column is rejected, later columns do not change the verdict.
proof fn lemma_census_verdict_sticks(cs: Seq<CensusColumn>, width: nat, k: nat, m: nat)
    requires
        k <= m,
        columns_census_verdict(cs, width, k) is Err,
        k <= cs.len(),
        m <= cs.len(),
    ensures
        columns_census_verdict(cs, width, m) == columns_census_verdict(cs, width, k),
    decreases m,
{
    if k < m {
        lemma_census_verdict_sticks(cs, width, k, (m - 1) as nat);
    }
}

/// Adds a finished node to the census totals (each with an overflow check,
/// in the order expected, stored, nonzero regret, positive regret, positive
/// average, average with nonzero regret) and appends it.
pub fn record_census_node(census: &mut PreflopSupportCensus, node: PreflopSupportNode) -> (r: Result<
    (),
    SolverError,
>)
    ensures
        r is Err <==> (old(census).total_expected_buckets + node.expected_buckets > u64::MAX
            || old(census).total_stored_buckets + node.stored_buckets > u64::MAX
            || old(census).total_nonzero_regret_buckets + node.nonzero_regret_buckets > u64::MAX
            || old(census).total_positive_regret_buckets + node.positive_regret_buckets > u64::MAX
            || old(census).total_positive_average_buckets + node.positive_average_buckets
            > u64::MAX || old(census).total_average_and_nonzero_regret_buckets
            + node.average_and_nonzero_regret_buckets > u64::MAX),
        r is Err ==> r == Err::<(), SolverError>(SolverError::CounterOverflow),
        r is Ok ==> {
            &&& final(census).total_expected_buckets == old(census).total_expected_buckets
                + node.expected_buckets
            &&& final(census).total_stored_buckets == old(census).total_stored_buckets
                + node.stored_buckets
            &&& final(census).total_nonzero_regret_buckets
                == old(census).total_nonzero_regret_buckets + node.nonzero_regret_buckets
            &&& final(census).total_positive_regret_buckets
                == old(census).total_positive_regret_buckets + node.positive_regret_buckets
            &&& final(census).total_positive_average_buckets
                == old(census).total_positive_average_buckets + node.positive_average_buckets
            &&& final(census).total_average_and_nonzero_regret_buckets
                == old(census).total_average_and_nonzero_regret_buckets
                + node.average_and_nonzero_regret_buckets
            &&& final(census).nodes@ == old(census).nodes@.push(node)
            &&& final(census).total_materialized_nodes == old(census).total_materialized_nodes
            &&& final(census).total_materialized_columns == old(census).total_materialized_columns
            &&& final(census).preflop_nodes == old(census).preflop_nodes
        },
{
    let ghost n = node;
    crate::census::add(&mut census.total_expected_buckets, node.expected_buckets)?;
    crate::census::add(&mut census.total_stored_buckets, node.stored_buckets)?;
    crate::census::add(&mut census.total_nonzero_regret_buckets, node.nonzero_regret_buckets)?;
    crate::census::add(&mut census.total_positive_regret_buckets, node.positive_regret_buckets)?;
    crate::census::add(&mut census.total_positive_average_buckets, node.positive_average_buckets)?;
    crate::census::add(
        &mut census.total_average_and_nonzero_regret_buckets,
        node.average_and_nonzero_regret_buckets,
    )?;
    census.nodes.push(node);
    Ok(())
}

/// The census frame: domain, node count (eight bytes), then each node's
/// 32-byte digest in order.
pub open spec fn census_frame(digests: Seq<[u8; 32]>) -> Seq<u8> {
    census_domain() + le_bytes(digests.len(), 8) + digests_frame(digests)
}

/// The node digests, concatenated.
pub open spec fn digests_frame(digests: Seq<[u8; 32]>) -> Seq<u8>
    decreases digests.len(),
{
    if digests.len() == 0 {
        Seq::empty()
    } else {
        digests_frame(digests.drop_last()) + digests.last()@
    }
}

/// The census fingerprint: lowercase hex of the BLAKE3 of [`census_frame`].
pub fn census_fingerprint(digests: &Vec<[u8; 32]>) -> (r: String)
    ensures
        r@ == hex_lower(blake3_digest(census_frame(digests@))),
{
    let mut frame = census_domain_bytes();
    push_le(&mut frame, digests.len() as u64, 8);
    let ghost start = frame@;
    let mut i: usize = 0;
    while i < digests.len()
        invariant
            i <= digests@.len(),
            start == census_domain() + le_bytes(digests@.len(), 8),
            frame@ == start + digests_frame(digests@.subrange(0, i as int)),
        decreases digests@.len() - i,
    {
        push_all(&mut frame, digests[i].as_slice());
        proof {
            let next = digests@.subrange(0, i + 1);
            assert(next.drop_last() =~= digests@.subrange(0, i as int));
            assert(frame@ =~= start + digests_frame(next));
        }
        i = i + 1;
    }
    assert(digests@.subrange(0, digests@.len() as int) =~= digests@);
    let digest = blake3_hash(frame.as_slice());
    to_hex_lower(&digest)
}

/// The support counts nest: a column counted for nonzero regret, positive
/// regret or positive average is a stored (touched) one, and one counted
/// for positive average with nonzero regret is counted for both; no count
/// exceeds the number of columns.
pub proof fn law_census_counts_nest(cs: Seq<CensusColumn>, n: nat)
    ensures
        count_columns(cs, 0, n) <= n,
        count_columns(cs, 1, n) <= count_columns(cs, 0, n),
        count_columns(cs, 2, n) <= count_columns(cs, 0, n),
        count_columns(cs, 3, n) <= count_columns(cs, 0, n),
        count_columns(cs, 4, n) <= count_columns(cs, 1, n),
        count_columns(cs, 4, n) <= count_columns(cs, 3, n),
    decreases n,
{
    if n > 0 {
        law_census_counts_nest(cs, (n - 1) as nat);
    }
}

} // verus!
