//! Fixed per-seat deviation policies: for each information set visited often
//! enough in training, the one action index the seat deviates to.  The
//! table is kept sorted by key, so each key occurs once and every walk over
//! it is in key order.
use vstd::prelude::*;

use crate::digest::{blake3_digest, blake3_hash, hex_lower, le_bytes, push_all, push_le, to_hex_lower};
use crate::domains::{deviator_domain, deviator_domain_bytes};
use crate::errors::SolverError;
use crate::keys::{same_info_key, InfoKey};
use crate::order::{info_less, info_lt, lemma_info_total, lemma_lex_irreflexive, lemma_lex_transitive};
use crate::types::{MIN_DEVIATOR_POLICY_VISITS, UNREACHED_BUCKET};

verus! {

/// One fitted decision: at `key`, take action `action`.
#[derive(Clone, Copy, Debug, PartialEq, Eq)]
pub struct DeviatorAction {
    pub key: InfoKey,
    pub action: u16,
}

/// A fixed deviation policy of one seat.
#[derive(Debug)]
pub struct DeviatorPolicy {
    seat: usize,
    actions: Vec<DeviatorAction>,
}

/// Entries appear in strictly increasing key order.
pub open spec fn actions_sorted(s: Seq<DeviatorAction>) -> bool {
    forall|i: int, j: int| 0 <= i < j < s.len() ==> info_lt(#[trigger] s[i].key, #[trigger] s[j].key)
}

/// The action fitted at `key`, if any.
pub open spec fn fitted_action(s: Seq<DeviatorAction>, key: InfoKey) -> Option<u16>
    decreases s.len(),
{
    if s.len() == 0 {
        None
    } else if s[0].key == key {
        Some(s[0].action)
    } else {
        fitted_action(s.drop_first(), key)
    }
}

proof fn lemma_fitted_at(s: Seq<DeviatorAction>, key: InfoKey)
    requires
        actions_sorted(s),
    ensures
        forall|i: int| 0 <= i < s.len() && #[trigger] s[i].key == key ==> fitted_action(s, key) == Some(
            s[i].action,
        ),
        (forall|i: int| 0 <= i < s.len() ==> #[trigger] s[i].key != key) ==> fitted_action(s, key)
            is None,
    decreases s.len(),
{
    if s.len() > 0 {
        let t = s.drop_first();
        assert(actions_sorted(t)) by {
            assert forall|i: int, j: int| 0 <= i < j < t.len() implies info_lt(
                #[trigger] t[i].key,
                #[trigger] t[j].key,
            ) by {
                assert(t[i] == s[i + 1] && t[j] == s[j + 1]);
            }
        }
        lemma_fitted_at(t, key);
        assert forall|i: int| 0 <= i < s.len() && #[trigger] s[i].key == key implies fitted_action(
            s,
            key,
        ) == Some(s[i].action) by {
            if i > 0 {
                if s[0].key == key {
                    assert(info_lt(s[0].key, s[i].key));
                    lemma_lex_irreflexive(crate::order::info_digits(key));
                }
                assert(t[i - 1] == s[i]);
            }
        }
        if forall|i: int| 0 <= i < s.len() ==> #[trigger] s[i].key != key {
            assert(s[0].key != key);
            assert forall|i: int| 0 <= i < t.len() implies #[trigger] t[i].key != key by {
                assert(t[i] == s[i + 1]);
            }
        }
    }
}

impl DeviatorPolicy {
    /// The fitted entries, in key order.
    pub closed spec fn spec_actions(&self) -> Seq<DeviatorAction> {
        self.actions@
    }

    /// The seat this policy deviates for.
    pub closed spec fn spec_seat(&self) -> usize {
        self.seat
    }

    /// The entries are sorted by key.
    pub open spec fn wf(&self) -> bool {
        actions_sorted(self.spec_actions())
    }

    /// An empty policy for `seat`.
    pub fn new(seat: usize) -> (r: Self)
        ensures
            r.wf(),
            r.spec_seat() == seat,
            r.spec_actions() == Seq::<DeviatorAction>::empty(),
    {
        DeviatorPolicy { seat, actions: Vec::new() }
    }

    /// The seat this policy deviates for.
    pub fn seat(&self) -> (r: usize)
        ensures
            r == self.spec_seat(),
    {
        self.seat
    }

    /// Number of fitted information sets.
    pub fn len(&self) -> (r: usize)
        ensures
            r == self.spec_actions().len(),
    {
        self.actions.len()
    }

    /// The fitted entries, in key order.
    pub fn entries(&self) -> (r: Vec<DeviatorAction>)
        ensures
            r@ == self.spec_actions(),
    {
        let r = self.actions.clone();
        proof {
            assert(r@ =~= self.actions@);
        }
        r
    }

    /// The action fitted at `key`, if any.
    pub fn get(&self, key: InfoKey) -> (r: Option<u16>)
        requires
            self.wf(),
        ensures
            r == fitted_action(self.spec_actions(), key),
    {
        let (p, found) = locate_action(&self.actions, &key);
        proof {
            lemma_fitted_at(self.actions@, key);
        }
        if found {
            Some(self.actions[p].action)
        } else {
            None
        }
    }

    /// Fits `action` at `key`, replacing an earlier fit there.
    pub fn insert(&mut self, key: InfoKey, action: u16)
        requires
            old(self).wf(),
        ensures
            final(self).wf(),
            final(self).spec_seat() == old(self).spec_seat(),
            forall|k: InfoKey| #[trigger]
                fitted_action(final(self).spec_actions(), k) == if k == key {
                    Some(action)
                } else {
                    fitted_action(old(self).spec_actions(), k)
                },
            fitted_action(old(self).spec_actions(), key) is Some ==> final(self).spec_actions().len()
                == old(self).spec_actions().len(),
            fitted_action(old(self).spec_actions(), key) is None ==> final(self).spec_actions().len()
                == old(self).spec_actions().len() + 1,
    {
        let ghost before = self.actions@;
        let entry = DeviatorAction { key, action };
        let (p, found) = locate_action(&self.actions, &key);
        proof {
            lemma_fitted_at(before, key);
        }
        if found {
            self.actions.set(p, entry);
        } else {
            self.actions.insert(p, entry);
        }
        let ghost after = self.actions@;
        proof {
            assert forall|i: int, j: int| 0 <= i < j < after.len() implies info_lt(
                #[trigger] after[i].key,
                #[trigger] after[j].key,
            ) by {
                if found {
                    assert(after[i].key == before[i].key && after[j].key == before[j].key);
                } else if j < p {
                    assert(after[i] == before[i] && after[j] == before[j]);
                } else if j == p {
                    assert(after[i] == before[i]);
                } else if i < p {
                    assert(after[i] == before[i] && after[j] == before[j - 1]);
                    lemma_lex_transitive(
                        crate::order::info_digits(before[i].key),
                        crate::order::info_digits(key),
                        crate::order::info_digits(before[j - 1].key),
                    );
                } else if i == p {
                    assert(after[j] == before[j - 1]);
                } else {
                    assert(after[i] == before[i - 1] && after[j] == before[j - 1]);
                }
            }
            lemma_fitted_at(after, key);
            assert(after[p as int].key == key);
            assert forall|k: InfoKey| #[trigger]
                fitted_action(after, k) == if k == key {
                    Some(action)
                } else {
                    fitted_action(before, k)
                } by {
                lemma_fitted_at(after, k);
                lemma_fitted_at(before, k);
                if k != key {
                    if exists|i: int| 0 <= i < before.len() && #[trigger] before[i].key == k {
                        let i = choose|i: int| 0 <= i < before.len() && #[trigger] before[i].key == k;
                        if found || i < p {
                            assert(after[i] == before[i]);
                        } else {
                            assert(after[i + 1] == before[i]);
                        }
                    } else {
                        assert forall|i: int| 0 <= i < after.len() implies #[trigger] after[i].key
                            != k by {
                            if found || i < p {
                                assert(after[i] == before[i] || i == p);
                            } else if i > p {
                                assert(after[i] == before[i - 1]);
                            }
                        }
                    }
                }
            }
        }
    }
}

/// Position of `key` among sorted entries: everything before it sorts
/// before `key`; `found` says whether the entry there has that key.
fn locate_action(s: &Vec<DeviatorAction>, key: &InfoKey) -> (r: (usize, bool))
    requires
        actions_sorted(s@),
    ensures
        r.0 <= s@.len(),
        forall|i: int| 0 <= i < r.0 ==> info_lt(#[trigger] s@[i].key, *key),
        r.1 <==> (r.0 < s@.len() && s@[r.0 as int].key == *key),
        !r.1 ==> forall|i: int| r.0 <= i < s@.len() ==> info_lt(*key, #[trigger] s@[i].key),
        !r.1 ==> forall|i: int| 0 <= i < s@.len() ==> #[trigger] s@[i].key != *key,
{
    let mut i: usize = 0;
    while i < s.len()
        invariant
            i <= s@.len(),
            actions_sorted(s@),
            forall|k: int| 0 <= k < i ==> info_lt(#[trigger] s@[k].key, *key),
        ensures
            i <= s@.len(),
            forall|k: int| 0 <= k < i ==> info_lt(#[trigger] s@[k].key, *key),
            i < s@.len() ==> !info_lt(s@[i as int].key, *key),
        decreases s@.len() - i,
    {
        if !info_less(&s[i].key, key) {
            break;
        }
        i = i + 1;
    }
    let found = i < s.len() && same_info_key(&s[i].key, key);
    proof {
        if !found {
            assert forall|k: int| i <= k < s@.len() implies info_lt(*key, #[trigger] s@[k].key) by {
                lemma_info_total(s@[i as int].key, *key);
                if k > i {
                    assert(info_lt(s@[i as int].key, s@[k].key));
                    lemma_lex_transitive(
                        crate::order::info_digits(*key),
                        crate::order::info_digits(s@[i as int].key),
                        crate::order::info_digits(s@[k].key),
                    );
                }
            }
            assert forall|k: int| 0 <= k < s@.len() implies #[trigger] s@[k].key != *key by {
                if s@[k].key == *key {
                    lemma_lex_irreflexive(crate::order::info_digits(*key));
                }
            }
        }
    }
    (i, found)
}

/// A fitted key is a preflop key of `seat` with a reached preflop bucket,
/// no later buckets, and between one and `players - 1` active opponents.
pub open spec fn deviator_key_valid(key: InfoKey, seat: nat, players: nat) -> bool {
    &&& key.player == seat
    &&& key.street == 0
    &&& key.bucket_path[0] != UNREACHED_BUCKET
    &&& key.bucket_path[1] == UNREACHED_BUCKET
    &&& key.bucket_path[2] == UNREACHED_BUCKET
    &&& key.bucket_path[3] == UNREACHED_BUCKET
    &&& key.active_opponents != 0
    &&& key.active_opponents < players
}

/// A policy is fitted for seat `seat` and holds valid keys only.
pub open spec fn policy_valid(p: DeviatorPolicy, seat: nat, players: nat) -> bool {
    &&& p.spec_seat() == seat
    &&& forall|i: int|
        0 <= i < p.spec_actions().len() ==> deviator_key_valid(
            #[trigger] p.spec_actions()[i].key,
            seat,
            players,
        )
}

/// Outcome of validating preflop deviators: one policy per seat, in seat
/// order, each with valid keys only.
pub open spec fn policies_verdict(players: nat, policies: Seq<DeviatorPolicy>) -> Result<(), SolverError> {
    if policies.len() != players {
        Err(SolverError::InvalidState("preflop deviators must contain one policy per seat"))
    } else if exists|s: int| 0 <= s < policies.len() && !policy_valid(#[trigger] policies[s], s as nat, players) {
        Err(SolverError::InvalidState("preflop deviator contains an invalid seat or non-preflop key"))
    } else {
        Ok(())
    }
}

fn key_valid(key: &InfoKey, seat: usize, players: usize) -> (r: bool)
    ensures
        r == deviator_key_valid(*key, seat as nat, players as nat),
{
    key.player as usize == seat && key.street == 0 && key.bucket_path[0] != UNREACHED_BUCKET
        && key.bucket_path[1] == UNREACHED_BUCKET && key.bucket_path[2] == UNREACHED_BUCKET
        && key.bucket_path[3] == UNREACHED_BUCKET && key.active_opponents != 0
        && (key.active_opponents as usize) < players
}

/// Preflop deviators must hold one policy per seat, in seat order, whose
/// keys are that seat's preflop keys with a reached preflop bucket.
pub fn validate_policies(players: usize, policies: &Vec<DeviatorPolicy>) -> (r: Result<(), SolverError>)
    ensures
        r == policies_verdict(players as nat, policies@),
{
    if policies.len() != players {
        return Err(SolverError::InvalidState("preflop deviators must contain one policy per seat"));
    }
    let mut s: usize = 0;
    while s < policies.len()
        invariant
            s <= policies@.len(),
            policies@.len() == players,
            forall|t: int| 0 <= t < s ==> policy_valid(#[trigger] policies@[t], t as nat, players as nat),
        decreases policies@.len() - s,
    {
        let policy = &policies[s];
        let mut ok = policy.seat == s;
        let mut i: usize = 0;
        while i < policy.actions.len()
            invariant
                i <= policy.actions@.len(),
                ok == (policy.seat == s && forall|k: int|
                    0 <= k < i ==> deviator_key_valid(
                        #[trigger] policy.actions@[k].key,
                        s as nat,
                        players as nat,
                    )),
            decreases policy.actions@.len() - i,
        {
            ok = ok && key_valid(&policy.actions[i].key, s, players);
            i = i + 1;
        }
        if !ok {
            proof {
                assert(policies@[s as int] == *policy);
                if policy.seat == s {
                    let k = choose|k: int|
                        0 <= k < policy.actions@.len() && !deviator_key_valid(
                            #[trigger] policy.actions@[k].key,
                            s as nat,
                            players as nat,
                        );
                    assert(policy.spec_actions()[k] == policy.actions@[k]);
                }
                assert(!policy_valid(policies@[s as int], s as nat, players as nat));
            }
            return Err(
                SolverError::InvalidState(
                    "preflop deviator contains an invalid seat or non-preflop key",
                ),
            );
        }
        s = s + 1;
    }
    Ok(())
}

/// Framing of one fitted entry: history, player, street, active opponents,
/// the four buckets (four bytes each) and the action (two bytes).
pub open spec fn action_frame(a: DeviatorAction) -> Seq<u8> {
    a.key.history.0@ + seq![a.key.player, a.key.street, a.key.active_opponents] + le_bytes(
        a.key.bucket_path[0] as nat,
        4,
    ) + le_bytes(a.key.bucket_path[1] as nat, 4) + le_bytes(a.key.bucket_path[2] as nat, 4)
        + le_bytes(a.key.bucket_path[3] as nat, 4) + le_bytes(a.action as nat, 2)
}

/// The framings of the first `n` entries.
pub open spec fn actions_frame(s: Seq<DeviatorAction>, n: nat) -> Seq<u8>
    decreases n,
{
    if n == 0 || n > s.len() {
        Seq::empty()
    } else {
        actions_frame(s, (n - 1) as nat) + action_frame(s[n - 1])
    }
}

/// Framing of one policy: seat and entry count (eight bytes each), then its
/// entries in key order.
pub open spec fn policy_frame(p: DeviatorPolicy) -> Seq<u8> {
    le_bytes(p.spec_seat() as nat, 8) + le_bytes(p.spec_actions().len(), 8) + actions_frame(
        p.spec_actions(),
        p.spec_actions().len(),
    )
}

/// The framings of the first `n` policies.
pub open spec fn policies_frame(ps: Seq<DeviatorPolicy>, n: nat) -> Seq<u8>
    decreases n,
{
    if n == 0 || n > ps.len() {
        Seq::empty()
    } else {
        policies_frame(ps, (n - 1) as nat) + policy_frame(ps[n - 1])
    }
}

/// The frame hashed into a deviator fingerprint.
pub open spec fn deviators_frame(ps: Seq<DeviatorPolicy>) -> Seq<u8> {
    deviator_domain() + le_bytes(ps.len(), 8) + policies_frame(ps, ps.len())
}

/// Identity of fitted preflop deviators: lowercase hex of the BLAKE3 of
/// [`deviators_frame`].
pub fn policy_fingerprint(policies: &Vec<DeviatorPolicy>) -> (r: String)
    ensures
        r@ == hex_lower(blake3_digest(deviators_frame(policies@))),
{
    let mut frame = deviator_domain_bytes();
    push_le(&mut frame, policies.len() as u64, 8);
    let ghost start = frame@;
    let mut p: usize = 0;
    while p < policies.len()
        invariant
            p <= policies@.len(),
            start == deviator_domain() + le_bytes(policies@.len(), 8),
            frame@ == start + policies_frame(policies@, p as nat),
        decreases policies@.len() - p,
    {
        let policy = &policies[p];
        let ghost before = frame@;
        push_le(&mut frame, policy.seat as u64, 8);
        push_le(&mut frame, policy.actions.len() as u64, 8);
        let ghost head = frame@;
        let mut i: usize = 0;
        while i < policy.actions.len()
            invariant
                i <= policy.actions@.len(),
                frame@ == head + actions_frame(policy.actions@, i as nat),
            decreases policy.actions@.len() - i,
        {
            let a = policy.actions[i];
            let ghost mark = frame@;
            push_all(&mut frame, a.key.history.0.as_slice());
            frame.push(a.key.player);
            frame.push(a.key.street);
            frame.push(a.key.active_opponents);
            push_le(&mut frame, a.key.bucket_path[0] as u64, 4);
            push_le(&mut frame, a.key.bucket_path[1] as u64, 4);
            push_le(&mut frame, a.key.bucket_path[2] as u64, 4);
            push_le(&mut frame, a.key.bucket_path[3] as u64, 4);
            push_le(&mut frame, a.action as u64, 2);
            proof {
                assert(frame@ =~= mark + action_frame(a));
                assert(policy.actions@[i as int] == a);
            }
            i = i + 1;
        }
        proof {
            assert(frame@ =~= before + policy_frame(policies@[p as int]));
        }
        p = p + 1;
    }
    let digest = blake3_hash(frame.as_slice());
    to_hex_lower(&digest)
}

/// How much of a deviator's training survives into its policy.
#[derive(Clone, Copy, Debug, PartialEq, Eq)]
pub struct DeviatorTrainingCoverage {
    pub traversals: u64,
    pub visited_infosets: u64,
    pub retained_infosets: u64,
    pub total_visits: u64,
    pub retained_visits: u64,
}

/// Sum of the first `n` visit counts, those below `floor` left out.
pub open spec fn visits_sum(visits: Seq<u32>, floor: nat, n: nat) -> nat
    decreases n,
{
    if n == 0 || n > visits.len() {
        0
    } else {
        visits_sum(visits, floor, (n - 1) as nat) + if visits[n - 1] >= floor {
            visits[n - 1] as nat
        } else {
            0nat
        }
    }
}

/// Number of the first `n` visit counts at or above `floor`.
pub open spec fn visits_count(visits: Seq<u32>, floor: nat, n: nat) -> nat
    decreases n,
{
    if n == 0 || n > visits.len() {
        0
    } else {
        visits_count(visits, floor, (n - 1) as nat) + if visits[n - 1] >= floor {
            1nat
        } else {
            0nat
        }
    }
}

/// `v` capped at `u64::MAX`.
pub open spec fn saturated(v: nat) -> u64 {
    if v > u64::MAX {
        u64::MAX
    } else {
        v as u64
    }
}

/// Coverage of one training run: every visited information set, those with
/// at least the minimum visits, and the visit totals (saturating).
pub fn training_coverage(traversals: u64, visits: &Vec<u32>) -> (r: DeviatorTrainingCoverage)
    ensures
        r.traversals == traversals,
        r.visited_infosets == visits@.len(),
        r.retained_infosets == visits_count(visits@, MIN_DEVIATOR_POLICY_VISITS as nat, visits@.len()),
        r.total_visits == saturated(visits_sum(visits@, 0, visits@.len())),
        r.retained_visits == saturated(
            visits_sum(visits@, MIN_DEVIATOR_POLICY_VISITS as nat, visits@.len()),
        ),
{
    let mut retained: u64 = 0;
    let mut total: u64 = 0;
    let mut kept: u64 = 0;
    let mut i: usize = 0;
    while i < visits.len()
        invariant
            i <= visits@.len(),
            retained == visits_count(visits@, MIN_DEVIATOR_POLICY_VISITS as nat, i as nat),
            retained <= i,
            total == saturated(visits_sum(visits@, 0, i as nat)),
            kept == saturated(visits_sum(visits@, MIN_DEVIATOR_POLICY_VISITS as nat, i as nat)),
        decreases visits@.len() - i,
    {
        let v = visits[i];
        total = total.saturating_add(v as u64);
        if v >= MIN_DEVIATOR_POLICY_VISITS {
            retained = retained + 1;
            kept = kept.saturating_add(v as u64);
        }
        i = i + 1;
    }
    DeviatorTrainingCoverage {
        traversals,
        visited_infosets: visits.len() as u64,
        retained_infosets: retained,
        total_visits: total,
        retained_visits: kept,
    }
}

/// Preflop deviators are accepted exactly when there is one policy per
/// seat and the policy at position `s` is fitted for seat `s` and holds
/// only keys of seat `s` at the preflop street, with a real preflop bucket,
/// the sentinel on every later street and one to `players - 1` active
/// opponents.  The wrong number of policies is refused for its count; a
/// policy out of seat order is refused as an invalid seat.
pub proof fn law_deviators_accepted_exactly(players: nat, policies: Seq<DeviatorPolicy>)
    ensures
        policies_verdict(players, policies) is Ok <==> {
            &&& policies.len() == players
            &&& forall|s: int| 0 <= s < policies.len() ==> (#[trigger] policies[s]).spec_seat() == s
            &&& forall|s: int, i: int|
                0 <= s < policies.len() && 0 <= i < policies[s].spec_actions().len() ==> {
                    let key = (#[trigger] policies[s].spec_actions()[i]).key;
                    &&& key.player == s
                    &&& key.street == 0
                    &&& key.bucket_path[0] != UNREACHED_BUCKET
                    &&& key.bucket_path[1] == UNREACHED_BUCKET
                    &&& key.bucket_path[2] == UNREACHED_BUCKET
                    &&& key.bucket_path[3] == UNREACHED_BUCKET
                    &&& 1 <= key.active_opponents < players
                }
        },
        policies.len() != players ==> policies_verdict(players, policies) == Err::<(), SolverError>(
            SolverError::InvalidState("preflop deviators must contain one policy per seat"),
        ),
        policies.len() == players && (exists|s: int| 0 <= s < policies.len() && policies[s].spec_seat() != s)
            ==> policies_verdict(players, policies) == Err::<(), SolverError>(
            SolverError::InvalidState("preflop deviator contains an invalid seat or non-preflop key"),
        ),
{
    if policies.len() == players {
        if exists|s: int| 0 <= s < policies.len() && policies[s].spec_seat() != s {
            let s = choose|s: int| 0 <= s < policies.len() && policies[s].spec_seat() != s;
            assert(!policy_valid(policies[s], s as nat, players));
        }
        if forall|s: int| 0 <= s < policies.len() ==> policy_valid(#[trigger] policies[s], s as nat, players) {
            assert forall|s: int, i: int|
                0 <= s < policies.len() && 0 <= i < policies[s].spec_actions().len() implies {
                    let key = (#[trigger] policies[s].spec_actions()[i]).key;
                    &&& key.player == s
                    &&& key.street == 0
                    &&& key.bucket_path[0] != UNREACHED_BUCKET
                    &&& key.bucket_path[1] == UNREACHED_BUCKET
                    &&& key.bucket_path[2] == UNREACHED_BUCKET
                    &&& key.bucket_path[3] == UNREACHED_BUCKET
                    &&& 1 <= key.active_opponents < players
                } by {
                assert(policy_valid(policies[s], s as nat, players));
                assert(deviator_key_valid(policies[s].spec_actions()[i].key, s as nat, players));
            }
        } else {
            let s = choose|s: int| 0 <= s < policies.len() && !policy_valid(#[trigger] policies[s], s as nat, players);
            if policies[s].spec_seat() == s {
                let i = choose|i: int|
                    0 <= i < policies[s].spec_actions().len() && !deviator_key_valid(
                        #[trigger] policies[s].spec_actions()[i].key,
                        s as nat,
                        players,
                    );
                assert(policies[s].spec_actions()[i] == policies[s].spec_actions()[i]);
            }
        }
    }
}

} // verus!
