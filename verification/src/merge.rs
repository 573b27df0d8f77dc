//! Merging one sweep: the per-seat traversal deltas are checked against the
//! store and staged, in seat order, into a plan of new or touched columns,
//! new history entries and counters.  The plan is committed by
//! `MultiwaySolver::commit_sweep`; staging never changes the store, so a sweep
//! that fails leaves no partial state behind.
use vstd::prelude::*;

use crate::errors::SolverError;
use crate::keys::{HistoryEntry, HistoryKey, InfoKey};
use crate::storage::{
    entry_memory, entry_memory_bytes, history_memory, history_memory_bytes, label_views,
    PolicyColumn, PolicyEntry,
};
use crate::store::{
    column_widths_agree, find_history, find_policy, histories_sorted, insert_history,
    insert_policy, lemma_sorted_histories_unique, lemma_sorted_policies_unique,
    lemma_stored_history_at, lemma_stored_policy_at, policies_sorted, replace_column_values,
    replace_verdict, stored_history, stored_policy, has_history, has_policy,
};

verus! {

/// One bookkeeping event recorded by a traversal.  The values that an add
/// carries stay with the caller; the event records how many there are.
#[derive(Debug)]
pub enum TraversalEvent {
    /// The traverser reached this information set with this action menu.
    EnsurePolicy { key: InfoKey, action_labels: Vec<String> },
    /// The traverser took this public edge.
    EnsureHistory(HistoryEntry),
    /// `width` regret increments for the column under `key`.
    AddRegret { key: InfoKey, width: usize },
    /// `width` strategy-sum increments for the column under `key`.
    AddStrategy { key: InfoKey, width: usize },
}

/// Everything one seat's traversal hands back to the merge.
#[derive(Debug)]
pub struct TraversalDelta {
    pub sample_id: u64,
    pub traverser: usize,
    pub deal_attempts: u64,
    pub terminal_evaluations: u64,
    pub hand_updates: u64,
    pub events: Vec<TraversalEvent>,
}

/// An accepted add: the seat and event index it came from, the column it
/// targets and whether it adds to regrets (else to strategy sums).
#[derive(Clone, Copy, Debug, PartialEq, Eq)]
pub struct SweepAdd {
    pub seat: usize,
    pub event: usize,
    pub key: InfoKey,
    pub regret: bool,
}

/// What the merge has staged so far: columns created or touched in this
/// sweep, new history entries, the memory charge and the running counters,
/// and the adds accepted in order.
pub struct SweepState {
    pub policies: Map<InfoKey, (Seq<String>, Seq<u32>, Seq<u32>)>,
    pub histories: Map<HistoryKey, HistoryEntry>,
    pub memory: int,
    pub deal_attempts: int,
    pub terminal_evaluations: int,
    pub hand_updates: int,
    pub adds: Seq<SweepAdd>,
}

/// `m[k]`, if `k` is in the domain.
pub open spec fn map_lookup<K, V>(m: Map<K, V>, k: K) -> Option<V> {
    if m.dom().contains(k) {
        Some(m[k])
    } else {
        None
    }
}

/// The column the merge sees under `key`: the staged one, else the stored one.
pub open spec fn staged_policy(base: Seq<PolicyEntry>, st: SweepState, key: InfoKey) -> Option<
    (Seq<String>, Seq<u32>, Seq<u32>),
> {
    if st.policies.dom().contains(key) {
        Some(st.policies[key])
    } else {
        stored_policy(base, key)
    }
}

/// The history entry the merge sees under `key`: the staged one, else the
/// stored one.
pub open spec fn staged_history(base: Seq<HistoryEntry>, st: SweepState, key: HistoryKey) -> Option<
    HistoryEntry,
> {
    if st.histories.dom().contains(key) {
        Some(st.histories[key])
    } else {
        stored_history(base, key)
    }
}

/// Two history entries describe the same edge.
pub open spec fn entries_match(a: HistoryEntry, b: HistoryEntry) -> bool {
    &&& a.key == b.key
    &&& a.parent == b.parent
    &&& a.actor == b.actor
    &&& a.action_index == b.action_index
    &&& a.action_label@ == b.action_label@
}

/// `n` binary32 zeros.
pub open spec fn zero_bits(n: nat) -> Seq<u32> {
    Seq::new(n, |i: int| 0u32)
}

/// `st` with the memory charge and the staged columns replaced.
pub open spec fn with_policies(
    st: SweepState,
    policies: Map<InfoKey, (Seq<String>, Seq<u32>, Seq<u32>)>,
    memory: int,
    adds: Seq<SweepAdd>,
) -> SweepState {
    SweepState {
        policies,
        histories: st.histories,
        memory,
        deal_attempts: st.deal_attempts,
        terminal_evaluations: st.terminal_evaluations,
        hand_updates: st.hand_updates,
        adds,
    }
}

/// `st` with one more staged history entry and its memory charge.
pub open spec fn with_history(st: SweepState, entry: HistoryEntry, memory: int) -> SweepState {
    SweepState {
        policies: st.policies,
        histories: st.histories.insert(entry.key, entry),
        memory,
        deal_attempts: st.deal_attempts,
        terminal_evaluations: st.terminal_evaluations,
        hand_updates: st.hand_updates,
        adds: st.adds,
    }
}

/// An add of `width` values into one side of the column under `key`.
pub open spec fn add_step(
    base: Seq<PolicyEntry>,
    st: SweepState,
    seat: nat,
    index: nat,
    key: InfoKey,
    width: nat,
    regret: bool,
) -> Result<SweepState, SolverError> {
    match staged_policy(base, st, key) {
        None => if regret {
            Err(SolverError::InvalidState("regret delta refers to an uninitialized policy"))
        } else {
            Err(SolverError::InvalidState("strategy delta refers to an uninitialized policy"))
        },
        Some(c) => {
            let stored = if regret {
                c.1.len()
            } else {
                c.2.len()
            };
            if stored != width {
                Err(
                    SolverError::ActionCountChanged {
                        key,
                        stored: stored as usize,
                        current: width as usize,
                    },
                )
            } else {
                Ok(
                    with_policies(
                        st,
                        st.policies.insert(key, c),
                        st.memory,
                        st.adds.push(
                            SweepAdd { seat: seat as usize, event: index as usize, key, regret },
                        ),
                    ),
                )
            }
        },
    }
}

/// One event of seat `seat`, at position `index` of its delta.
pub open spec fn event_step(
    base_policies: Seq<PolicyEntry>,
    base_histories: Seq<HistoryEntry>,
    limit: u64,
    st: SweepState,
    seat: nat,
    index: nat,
    ev: TraversalEvent,
) -> Result<SweepState, SolverError> {
    match ev {
        TraversalEvent::EnsurePolicy { key, action_labels } => match staged_policy(
            base_policies,
            st,
            key,
        ) {
            Some(c) => if c.1.len() != action_labels@.len() {
                Err(
                    SolverError::ActionCountChanged {
                        key,
                        stored: c.1.len() as usize,
                        current: action_labels@.len() as usize,
                    },
                )
            } else if label_views(c.0) != label_views(action_labels@) {
                Err(SolverError::ActionLabelsChanged { key })
            } else {
                Ok(st)
            },
            None => {
                let needed = st.memory + entry_memory(action_labels@);
                let n = action_labels@.len();
                if needed > u64::MAX {
                    Err(SolverError::MemoryAccountingOverflow)
                } else if needed > limit {
                    Err(SolverError::MemoryLimit { limit, needed: needed as u64 })
                } else {
                    Ok(
                        with_policies(
                            st,
                            st.policies.insert(key, (action_labels@, zero_bits(n), zero_bits(n))),
                            needed,
                            st.adds,
                        ),
                    )
                }
            },
        },
        TraversalEvent::EnsureHistory(entry) => match staged_history(base_histories, st, entry.key) {
            Some(h) => if !entries_match(h, entry) {
                Err(SolverError::HistoryCollision(entry.key))
            } else {
                Ok(st)
            },
            None => {
                let needed = st.memory + history_memory(entry.action_label@);
                if needed > u64::MAX {
                    Err(SolverError::MemoryAccountingOverflow)
                } else if needed > limit {
                    Err(SolverError::MemoryLimit { limit, needed: needed as u64 })
                } else {
                    Ok(with_history(st, entry, needed))
                }
            },
        },
        TraversalEvent::AddRegret { key, width } => add_step(
            base_policies,
            st,
            seat,
            index,
            key,
            width as nat,
            true,
        ),
        TraversalEvent::AddStrategy { key, width } => add_step(
            base_policies,
            st,
            seat,
            index,
            key,
            width as nat,
            false,
        ),
    }
}

/// The first `n` events of one seat, stopping at the first rejected event;
/// the state is the one before that event.
pub open spec fn events_fold(
    base_policies: Seq<PolicyEntry>,
    base_histories: Seq<HistoryEntry>,
    limit: u64,
    st: SweepState,
    seat: nat,
    events: Seq<TraversalEvent>,
    n: nat,
) -> (SweepState, Option<SolverError>)
    decreases n,
{
    if n == 0 {
        (st, None)
    } else {
        let prev = events_fold(base_policies, base_histories, limit, st, seat, events, (n - 1) as nat);
        if prev.1 is Some {
            prev
        } else {
            match event_step(
                base_policies,
                base_histories,
                limit,
                prev.0,
                seat,
                (n - 1) as nat,
                events[n - 1],
            ) {
                Ok(next) => (next, None),
                Err(e) => (prev.0, Some(e)),
            }
        }
    }
}

/// The per-seat header: seat `seat`'s delta must carry the next sample id
/// and name the seat as traverser; its counters are added with overflow
/// checks.
pub open spec fn seat_header(next_sample_id: u64, st: SweepState, seat: nat, delta: TraversalDelta) -> Result<
    SweepState,
    SolverError,
> {
    let expected = next_sample_id + seat;
    let deal = st.deal_attempts + delta.deal_attempts;
    let terminal = st.terminal_evaluations + delta.terminal_evaluations;
    let hands = st.hand_updates + delta.hand_updates;
    if expected > u64::MAX {
        Err(SolverError::CounterOverflow)
    } else if delta.sample_id != expected || delta.traverser != seat {
        Err(SolverError::InvalidState("parallel traversal deltas are not in sample-id order"))
    } else if deal > u64::MAX || terminal > u64::MAX || hands > u64::MAX {
        Err(SolverError::CounterOverflow)
    } else {
        Ok(
            SweepState {
                policies: st.policies,
                histories: st.histories,
                memory: st.memory,
                deal_attempts: deal,
                terminal_evaluations: terminal,
                hand_updates: hands,
                adds: st.adds,
            },
        )
    }
}

/// The first `n` seats' deltas, each header then its events, stopping at the
/// first rejection.
pub open spec fn seats_fold(
    base_policies: Seq<PolicyEntry>,
    base_histories: Seq<HistoryEntry>,
    limit: u64,
    next_sample_id: u64,
    st: SweepState,
    deltas: Seq<TraversalDelta>,
    n: nat,
) -> (SweepState, Option<SolverError>)
    decreases n,
{
    if n == 0 {
        (st, None)
    } else {
        let prev = seats_fold(
            base_policies,
            base_histories,
            limit,
            next_sample_id,
            st,
            deltas,
            (n - 1) as nat,
        );
        if prev.1 is Some {
            prev
        } else {
            match seat_header(next_sample_id, prev.0, (n - 1) as nat, deltas[n - 1]) {
                Err(e) => (prev.0, Some(e)),
                Ok(h) => events_fold(
                    base_policies,
                    base_histories,
                    limit,
                    h,
                    (n - 1) as nat,
                    deltas[n - 1].events@,
                    deltas[n - 1].events@.len(),
                ),
            }
        }
    }
}

/// The state a sweep starts from: nothing staged, the store's memory charge
/// and counters.
pub open spec fn sweep_start(counters: (u64, u64, u64, u64, u64, u64), memory: u64) -> SweepState {
    SweepState {
        policies: Map::empty(),
        histories: Map::empty(),
        memory: memory as int,
        deal_attempts: counters.3 as int,
        terminal_evaluations: counters.4 as int,
        hand_updates: counters.5 as int,
        adds: Seq::empty(),
    }
}

/// The whole sweep: one delta per seat, merged in seat order; then the
/// traversal, sample-id and sweep counters advance, with overflow checks.
/// Counters are (traversals, completed sweeps, next sample id, deal
/// attempts, terminal evaluations, hand updates).
pub open spec fn sweep_outcome(
    base_policies: Seq<PolicyEntry>,
    base_histories: Seq<HistoryEntry>,
    limit: u64,
    num_players: nat,
    counters: (u64, u64, u64, u64, u64, u64),
    memory: u64,
    deltas: Seq<TraversalDelta>,
) -> (SweepState, Option<SolverError>) {
    let start = sweep_start(counters, memory);
    if deltas.len() != num_players {
        (start, Some(SolverError::InvalidState("parallel sweep did not produce one delta per seat")))
    } else {
        let r = seats_fold(
            base_policies,
            base_histories,
            limit,
            counters.2,
            start,
            deltas,
            deltas.len(),
        );
        if r.1 is Some {
            r
        } else if counters.0 + num_players > u64::MAX || counters.2 + num_players > u64::MAX
            || counters.1 + 1 > u64::MAX {
            (r.0, Some(SolverError::CounterOverflow))
        } else {
            r
        }
    }
}

/// Counters after a sweep that merged `st` from `counters` with
/// `num_players` seats.
pub open spec fn swept_counters(
    counters: (u64, u64, u64, u64, u64, u64),
    num_players: nat,
    st: SweepState,
) -> (int, int, int, int, int, int) {
    (
        counters.0 + num_players,
        counters.1 + 1,
        counters.2 + num_players,
        st.deal_attempts,
        st.terminal_evaluations,
        st.hand_updates,
    )
}

/// A staged sweep, ready to take the added values and be committed.
pub struct SweepPlan {
    policies: Vec<PolicyEntry>,
    histories: Vec<HistoryEntry>,
    adds: Vec<SweepAdd>,
    memory: u64,
    counters: (u64, u64, u64, u64, u64, u64),
    failure: Option<SolverError>,
}

impl SweepPlan {
    /// Staged columns, in key order.
    pub closed spec fn spec_policies(&self) -> Seq<PolicyEntry> {
        self.policies@
    }

    /// Staged new history entries, in key order.
    pub closed spec fn spec_histories(&self) -> Seq<HistoryEntry> {
        self.histories@
    }

    /// Accepted adds, in merge order.
    pub closed spec fn spec_adds(&self) -> Seq<SweepAdd> {
        self.adds@
    }

    /// Memory charge after the sweep.
    pub closed spec fn spec_memory(&self) -> u64 {
        self.memory
    }

    /// Counters after the sweep (meaningful when nothing was rejected).
    pub closed spec fn spec_counters(&self) -> (u64, u64, u64, u64, u64, u64) {
        self.counters
    }

    /// The rejection that stopped the merge, if any.
    pub closed spec fn spec_failure(&self) -> Option<SolverError> {
        self.failure
    }

    /// Staged columns and histories are sorted, and every staged column's
    /// widths agree with its menu.
    pub open spec fn wf(&self) -> bool {
        &&& policies_sorted(self.spec_policies())
        &&& histories_sorted(self.spec_histories())
        &&& forall|i: int|
            0 <= i < self.spec_policies().len() ==> column_widths_agree(
                #[trigger] self.spec_policies()[i].column,
            )
    }

    /// The plan holds exactly the staged state `st`, the rejection `failure`
    /// and, when nothing was rejected, the advanced counters.
    pub open spec fn holds(
        &self,
        st: SweepState,
        failure: Option<SolverError>,
        counters: (int, int, int, int, int, int),
    ) -> bool {
        &&& forall|k: InfoKey| #[trigger]
            stored_policy(self.spec_policies(), k) == map_lookup(st.policies, k)
        &&& forall|k: HistoryKey| #[trigger]
            stored_history(self.spec_histories(), k) == map_lookup(st.histories, k)
        &&& self.spec_adds() == st.adds
        &&& self.spec_memory() == st.memory
        &&& self.spec_failure() == failure
        &&& failure is None ==> {
            &&& self.spec_counters().0 == counters.0
            &&& self.spec_counters().1 == counters.1
            &&& self.spec_counters().2 == counters.2
            &&& self.spec_counters().3 == counters.3
            &&& self.spec_counters().4 == counters.4
            &&& self.spec_counters().5 == counters.5
        }
    }

    /// The rejection that stopped the merge, if any.
    pub fn failure(&self) -> (r: Option<SolverError>)
        ensures
            r == self.spec_failure(),
    {
        match &self.failure {
            Some(e) => Some(clone_error(e)),
            None => None,
        }
    }

    /// The accepted adds, in merge order.
    pub fn adds(&self) -> (r: Vec<SweepAdd>)
        ensures
            r@ == self.spec_adds(),
    {
        let r = self.adds.clone();
        proof {
            assert(r@ =~= self.adds@);
        }
        r
    }

    /// The staged column under `key`, if any.
    pub fn column(&self, key: InfoKey) -> (r: Option<PolicyColumn>)
        requires
            self.wf(),
        ensures
            r matches Some(c) ==> stored_policy(self.spec_policies(), key) == Some(c@),
            r is None ==> stored_policy(self.spec_policies(), key) is None,
    {
        match find_policy(&self.policies, &key) {
            Some(i) => Some(self.policies[i].column.clone()),
            None => None,
        }
    }

    /// Replaces the values of a staged column (after the caller has added
    /// the sweep's increments to them).
    pub fn set_column_values(&mut self, key: InfoKey, regrets: Vec<u32>, strategy_sum: Vec<u32>) -> (r:
        Result<(), SolverError>)
        requires
            old(self).wf(),
        ensures
            final(self).wf(),
            r == replace_verdict(
                stored_policy(old(self).spec_policies(), key),
                key,
                regrets@.len(),
                strategy_sum@.len(),
            ),
            r is Err ==> final(self).spec_policies() == old(self).spec_policies(),
            r is Ok ==> stored_policy(final(self).spec_policies(), key) == Some(
                (stored_policy(old(self).spec_policies(), key)->Some_0.0, regrets@, strategy_sum@),
            ),
            forall|k: InfoKey|
                k != key ==> #[trigger] stored_policy(final(self).spec_policies(), k)
                    == stored_policy(old(self).spec_policies(), k),
            final(self).spec_histories() == old(self).spec_histories(),
            final(self).spec_adds() == old(self).spec_adds(),
            final(self).spec_memory() == old(self).spec_memory(),
            final(self).spec_counters() == old(self).spec_counters(),
            final(self).spec_failure() == old(self).spec_failure(),
    {
        replace_column_values(&mut self.policies, key, regrets, strategy_sum)
    }

    /// Takes the plan apart: columns, histories, memory charge, counters and
    /// rejection.
    pub fn into_parts(self) -> (r: (
        Vec<PolicyEntry>,
        Vec<HistoryEntry>,
        u64,
        (u64, u64, u64, u64, u64, u64),
        Option<SolverError>,
    ))
        ensures
            r.0@ == self.spec_policies(),
            r.1@ == self.spec_histories(),
            r.2 == self.spec_memory(),
            r.3 == self.spec_counters(),
            r.4 == self.spec_failure(),
    {
        (self.policies, self.histories, self.memory, self.counters, self.failure)
    }
}

/// The exec state of a merge in progress agrees with the staged state `st`.
spec fn staged_agrees(
    pol: Seq<PolicyEntry>,
    hist: Seq<HistoryEntry>,
    adds: Seq<SweepAdd>,
    mem: u64,
    deal: u64,
    term: u64,
    hand: u64,
    st: SweepState,
) -> bool {
    &&& policies_sorted(pol)
    &&& histories_sorted(hist)
    &&& forall|i: int| 0 <= i < pol.len() ==> column_widths_agree(#[trigger] pol[i].column)
    &&& forall|k: InfoKey| #[trigger] stored_policy(pol, k) == map_lookup(st.policies, k)
    &&& forall|k: HistoryKey| #[trigger] stored_history(hist, k) == map_lookup(st.histories, k)
    &&& adds == st.adds
    &&& mem == st.memory
    &&& deal == st.deal_attempts
    &&& term == st.terminal_evaluations
    &&& hand == st.hand_updates
}

/// Once a seat's merge has stopped, later events change nothing.
proof fn lemma_events_fold_sticks(
    bp: Seq<PolicyEntry>,
    bh: Seq<HistoryEntry>,
    limit: u64,
    st: SweepState,
    seat: nat,
    events: Seq<TraversalEvent>,
    k: nat,
    m: nat,
)
    requires
        k <= m,
        events_fold(bp, bh, limit, st, seat, events, k).1 is Some,
    ensures
        events_fold(bp, bh, limit, st, seat, events, m) == events_fold(
            bp,
            bh,
            limit,
            st,
            seat,
            events,
            k,
        ),
    decreases m,
{
    if k < m {
        lemma_events_fold_sticks(bp, bh, limit, st, seat, events, k, (m - 1) as nat);
    }
}

/// Once the merge has stopped, later seats change nothing.
proof fn lemma_seats_fold_sticks(
    bp: Seq<PolicyEntry>,
    bh: Seq<HistoryEntry>,
    limit: u64,
    next: u64,
    st: SweepState,
    deltas: Seq<TraversalDelta>,
    k: nat,
    m: nat,
)
    requires
        k <= m,
        seats_fold(bp, bh, limit, next, st, deltas, k).1 is Some,
    ensures
        seats_fold(bp, bh, limit, next, st, deltas, m) == seats_fold(
            bp,
            bh,
            limit,
            next,
            st,
            deltas,
            k,
        ),
    decreases m,
{
    if k < m {
        lemma_seats_fold_sticks(bp, bh, limit, next, st, deltas, k, (m - 1) as nat);
    }
}

/// Inserting an entry under a new key adds exactly that key to the lookups.
pub proof fn lemma_insert_policy_lookup(old: Seq<PolicyEntry>, new: Seq<PolicyEntry>, p: int, e: PolicyEntry)
    requires
        policies_sorted(old),
        policies_sorted(new),
        !has_policy(old, e.key),
        0 <= p <= old.len(),
        new == old.insert(p, e),
    ensures
        forall|k: InfoKey| #[trigger]
            stored_policy(new, k) == if k == e.key {
                Some(e.column@)
            } else {
                stored_policy(old, k)
            },
{
    lemma_sorted_policies_unique(old);
    lemma_sorted_policies_unique(new);
    assert forall|k: InfoKey| #[trigger]
        stored_policy(new, k) == if k == e.key {
            Some(e.column@)
        } else {
            stored_policy(old, k)
        } by {
        lemma_stored_policy_at(old, k);
        lemma_stored_policy_at(new, k);
        assert(new[p] == e);
        if k != e.key {
            if has_policy(old, k) {
                let j = choose|j: int| 0 <= j < old.len() && #[trigger] old[j].key == k;
                if j < p {
                    assert(new[j] == old[j]);
                } else {
                    assert(new[j + 1] == old[j]);
                }
            }
            if has_policy(new, k) {
                let j = choose|j: int| 0 <= j < new.len() && #[trigger] new[j].key == k;
                if j < p {
                    assert(old[j] == new[j]);
                } else if j > p {
                    assert(old[j - 1] == new[j]);
                }
            }
        }
    }
}

/// Inserting a history entry under a new key adds exactly that key to the
/// lookups.
pub proof fn lemma_insert_history_lookup(old: Seq<HistoryEntry>, new: Seq<HistoryEntry>, p: int, e: HistoryEntry)
    requires
        histories_sorted(old),
        histories_sorted(new),
        !has_history(old, e.key),
        0 <= p <= old.len(),
        new == old.insert(p, e),
    ensures
        forall|k: HistoryKey| #[trigger]
            stored_history(new, k) == if k == e.key {
                Some(e)
            } else {
                stored_history(old, k)
            },
{
    lemma_sorted_histories_unique(old);
    lemma_sorted_histories_unique(new);
    assert forall|k: HistoryKey| #[trigger]
        stored_history(new, k) == if k == e.key {
            Some(e)
        } else {
            stored_history(old, k)
        } by {
        lemma_stored_history_at(old, k);
        lemma_stored_history_at(new, k);
        assert(new[p] == e);
        if k != e.key {
            if has_history(old, k) {
                let j = choose|j: int| 0 <= j < old.len() && #[trigger] old[j].key == k;
                if j < p {
                    assert(new[j] == old[j]);
                } else {
                    assert(new[j + 1] == old[j]);
                }
            }
            if has_history(new, k) {
                let j = choose|j: int| 0 <= j < new.len() && #[trigger] new[j].key == k;
                if j < p {
                    assert(old[j] == new[j]);
                } else if j > p {
                    assert(old[j - 1] == new[j]);
                }
            }
        }
    }
}

/// Two action menus name the same actions in the same order.
fn labels_equal(a: &Vec<String>, b: &Vec<String>) -> (r: bool)
    ensures
        r == (label_views(a@) == label_views(b@)),
{
    if a.len() != b.len() {
        proof {
            assert(label_views(a@).len() != label_views(b@).len());
        }
        return false;
    }
    let mut i: usize = 0;
    while i < a.len()
        invariant
            i <= a@.len(),
            a@.len() == b@.len(),
            forall|k: int| 0 <= k < i ==> #[trigger] a@[k]@ == b@[k]@,
        decreases a@.len() - i,
    {
        if a[i] != b[i] {
            proof {
                assert(label_views(a@)[i as int] != label_views(b@)[i as int]);
            }
            return false;
        }
        i = i + 1;
    }
    proof {
        assert(label_views(a@) =~= label_views(b@));
    }
    true
}

/// Two history entries describe the same edge.
fn entries_equal(a: &HistoryEntry, b: &HistoryEntry) -> (r: bool)
    ensures
        r == entries_match(*a, *b),
{
    crate::keys::same_history(&a.key, &b.key) && crate::keys::same_history(&a.parent, &b.parent)
        && a.actor == b.actor && a.action_index == b.action_index && a.action_label
        == b.action_label
}

/// A copy of an action menu.
fn clone_labels(v: &Vec<String>) -> (r: Vec<String>)
    ensures
        r@ == v@,
{
    let r = v.clone();
    proof {
        assert(r@ =~= v@);
    }
    r
}

/// Where the merge finds the column under `key`: in the staged columns
/// (`true`) or in the store (`false`), at the given index.
fn locate_column(pol: &Vec<PolicyEntry>, base: &Vec<PolicyEntry>, key: &InfoKey) -> (r: Option<
    (bool, usize),
>)
    requires
        policies_sorted(pol@),
        policies_sorted(base@),
    ensures
        r matches Some((true, i)) ==> i < pol@.len() && pol@[i as int].key == *key
            && stored_policy(pol@, *key) == Some(pol@[i as int].column@),
        r matches Some((false, i)) ==> i < base@.len() && base@[i as int].key == *key
            && stored_policy(pol@, *key) is None && stored_policy(base@, *key) == Some(
            base@[i as int].column@,
        ),
        r is None ==> stored_policy(pol@, *key) is None && stored_policy(base@, *key) is None,
{
    match find_policy(pol, key) {
        Some(i) => Some((true, i)),
        None => match find_policy(base, key) {
            Some(j) => Some((false, j)),
            None => None,
        },
    }
}

/// Merges one event into the staged state; on rejection nothing changes.
#[verifier::rlimit(40)]
fn apply_event(
    base_policies: &Vec<PolicyEntry>,
    base_histories: &Vec<HistoryEntry>,
    limit: u64,
    pol: &mut Vec<PolicyEntry>,
    hist: &mut Vec<HistoryEntry>,
    adds: &mut Vec<SweepAdd>,
    mem: &mut u64,
    seat: usize,
    index: usize,
    ev: &TraversalEvent,
    deal: u64,
    term: u64,
    hand: u64,
    Ghost(st): Ghost<SweepState>,
) -> (r: Result<(), SolverError>)
    requires
        policies_sorted(base_policies@),
        histories_sorted(base_histories@),
        forall|i: int|
            0 <= i < base_policies@.len() ==> column_widths_agree(#[trigger] base_policies@[i].column),
        staged_agrees(old(pol)@, old(hist)@, old(adds)@, *old(mem), deal, term, hand, st),
    ensures
        match event_step(base_policies@, base_histories@, limit, st, seat as nat, index as nat, *ev) {
            Ok(next) => r is Ok && staged_agrees(
                final(pol)@,
                final(hist)@,
                final(adds)@,
                *final(mem),
                deal,
                term,
                hand,
                next,
            ),
            Err(e) => r == Err::<(), SolverError>(e) && final(pol)@ == old(pol)@ && final(hist)@
                == old(hist)@ && final(adds)@ == old(adds)@ && *final(mem) == *old(mem),
        },
{
    match ev {
        TraversalEvent::EnsurePolicy { key, action_labels } => {
            let verdict: Option<Result<(), SolverError>> = match locate_column(pol, base_policies, key) {
                Some((in_stage, i)) => {
                    let c: &PolicyColumn = if in_stage {
                        &pol[i].column
                    } else {
                        &base_policies[i].column
                    };
                    if c.regrets.len() != action_labels.len() {
                        Some(
                            Err(
                                SolverError::ActionCountChanged {
                                    key: *key,
                                    stored: c.regrets.len(),
                                    current: action_labels.len(),
                                },
                            ),
                        )
                    } else if !labels_equal(&c.action_labels, action_labels) {
                        Some(Err(SolverError::ActionLabelsChanged { key: *key }))
                    } else {
                        Some(Ok(()))
                    }
                },
                None => None,
            };
            match verdict {
                Some(v) => v,
                None => {
                    let charge = match entry_memory_bytes(action_labels.as_slice()) {
                        Ok(v) => v,
                        Err(e) => {
                            return Err(e);
                        },
                    };
                    let needed = match mem.checked_add(charge) {
                        Some(v) => v,
                        None => {
                            return Err(SolverError::MemoryAccountingOverflow);
                        },
                    };
                    if needed > limit {
                        return Err(SolverError::MemoryLimit { limit, needed });
                    }
                    let column = PolicyColumn::zeroed(clone_labels(action_labels));
                    let entry = PolicyEntry { key: *key, column };
                    let ghost before = pol@;
                    let ghost e = entry;
                    let ghost n = action_labels@.len();
                    proof {
                        lemma_sorted_policies_unique(before);
                        lemma_stored_policy_at(before, *key);
                    }
                    insert_policy(pol, entry);
                    proof {
                        let p = choose|p: int|
                            0 <= p <= before.len() && pol@ == before.insert(p, e);
                        lemma_insert_policy_lookup(before, pol@, p, e);
                        assert(e.column@ == (action_labels@, zero_bits(n), zero_bits(n))) by {
                            assert(e.column.regrets@ =~= zero_bits(n));
                            assert(e.column.strategy_sum@ =~= zero_bits(n));
                        }
                        assert forall|i: int| 0 <= i < pol@.len() implies column_widths_agree(
                            #[trigger] pol@[i].column,
                        ) by {
                            if i < p {
                                assert(pol@[i] == before[i]);
                            } else if i > p {
                                assert(pol@[i] == before[i - 1]);
                            }
                        }
                    }
                    *mem = needed;
                    Ok(())
                },
            }
        },
        TraversalEvent::EnsureHistory(entry) => {
            let found = find_history(hist, &entry.key);
            let verdict: Option<bool> = match found {
                Some(i) => Some(entries_equal(&hist[i], entry)),
                None => match find_history(base_histories, &entry.key) {
                    Some(j) => Some(entries_equal(&base_histories[j], entry)),
                    None => None,
                },
            };
            match verdict {
                Some(true) => Ok(()),
                Some(false) => Err(SolverError::HistoryCollision(entry.key)),
                None => {
                    let charge = match history_memory_bytes(entry.action_label.as_str()) {
                        Ok(v) => v,
                        Err(e) => {
                            return Err(e);
                        },
                    };
                    let needed = match mem.checked_add(charge) {
                        Some(v) => v,
                        None => {
                            return Err(SolverError::MemoryAccountingOverflow);
                        },
                    };
                    if needed > limit {
                        return Err(SolverError::MemoryLimit { limit, needed });
                    }
                    let copy = entry.clone();
                    let ghost before = hist@;
                    let ghost e = copy;
                    proof {
                        lemma_sorted_histories_unique(before);
                        lemma_stored_history_at(before, entry.key);
                    }
                    insert_history(hist, copy);
                    proof {
                        let p = choose|p: int|
                            0 <= p <= before.len() && hist@ == before.insert(p, e);
                        lemma_insert_history_lookup(before, hist@, p, e);
                    }
                    *mem = needed;
                    Ok(())
                },
            }
        },
        TraversalEvent::AddRegret { key, width } => {
            stage_add(base_policies, pol, adds, seat, index, key, *width, true, Ghost(st))
        },
        TraversalEvent::AddStrategy { key, width } => {
            stage_add(base_policies, pol, adds, seat, index, key, *width, false, Ghost(st))
        },
    }
}

/// Merges one add: the column must exist and have the add's width; it is
/// copied into the staged columns if not there yet.
fn stage_add(
    base_policies: &Vec<PolicyEntry>,
    pol: &mut Vec<PolicyEntry>,
    adds: &mut Vec<SweepAdd>,
    seat: usize,
    index: usize,
    key: &InfoKey,
    width: usize,
    regret: bool,
    Ghost(st): Ghost<SweepState>,
) -> (r: Result<(), SolverError>)
    requires
        policies_sorted(base_policies@),
        forall|i: int|
            0 <= i < base_policies@.len() ==> column_widths_agree(#[trigger] base_policies@[i].column),
        policies_sorted(old(pol)@),
        forall|i: int| 0 <= i < old(pol)@.len() ==> column_widths_agree(#[trigger] old(pol)@[i].column),
        forall|k: InfoKey| #[trigger] stored_policy(old(pol)@, k) == map_lookup(st.policies, k),
        old(adds)@ == st.adds,
    ensures
        match add_step(base_policies@, st, seat as nat, index as nat, *key, width as nat, regret) {
            Ok(next) => {
                &&& r is Ok
                &&& policies_sorted(final(pol)@)
                &&& forall|i: int|
                    0 <= i < final(pol)@.len() ==> column_widths_agree(#[trigger] final(pol)@[i].column)
                &&& forall|k: InfoKey| #[trigger]
                    stored_policy(final(pol)@, k) == map_lookup(next.policies, k)
                &&& final(adds)@ == next.adds
            },
            Err(e) => r == Err::<(), SolverError>(e) && final(pol)@ == old(pol)@ && final(adds)@
                == old(adds)@,
        },
{
    match locate_column(pol, base_policies, key) {
        None => {
            if regret {
                Err(SolverError::InvalidState("regret delta refers to an uninitialized policy"))
            } else {
                Err(SolverError::InvalidState("strategy delta refers to an uninitialized policy"))
            }
        },
        Some((true, i)) => {
            let stored = if regret {
                pol[i].column.regrets.len()
            } else {
                pol[i].column.strategy_sum.len()
            };
            if stored != width {
                return Err(SolverError::ActionCountChanged { key: *key, stored, current: width });
            }
            adds.push(SweepAdd { seat, event: index, key: *key, regret });
            proof {
                let c = st.policies[*key];
                assert forall|k: InfoKey| #[trigger]
                    stored_policy(pol@, k) == map_lookup(st.policies.insert(*key, c), k) by {
                    assert(map_lookup(st.policies, *key) == Some(c));
                }
            }
            Ok(())
        },
        Some((false, j)) => {
            let stored = if regret {
                base_policies[j].column.regrets.len()
            } else {
                base_policies[j].column.strategy_sum.len()
            };
            if stored != width {
                return Err(SolverError::ActionCountChanged { key: *key, stored, current: width });
            }
            let column = base_policies[j].column.clone();
            let entry = PolicyEntry { key: *key, column };
            let ghost before = pol@;
            let ghost e = entry;
            proof {
                assert(!has_policy(before, *key)) by {
                    lemma_sorted_policies_unique(before);
                    lemma_stored_policy_at(before, *key);
                }
                assert(column_widths_agree(base_policies@[j as int].column));
            }
            insert_policy(pol, entry);
            proof {
                let p = choose|p: int| 0 <= p <= before.len() && pol@ == before.insert(p, e);
                lemma_insert_policy_lookup(before, pol@, p, e);
                assert forall|i: int| 0 <= i < pol@.len() implies column_widths_agree(
                    #[trigger] pol@[i].column,
                ) by {
                    if i < p {
                        assert(pol@[i] == before[i]);
                    } else if i > p {
                        assert(pol@[i] == before[i - 1]);
                    } else {
                        assert(pol@[i].column@ == base_policies@[j as int].column@);
                    }
                }
            }
            adds.push(SweepAdd { seat, event: index, key: *key, regret });
            Ok(())
        },
    }
}

/// Stages one sweep against the stored columns and histories: one delta per
/// seat, in seat order, each with the next sample id; every event checked
/// against what is staged or stored; memory charged against `limit`;
/// counters advanced with overflow checks.  The plan records the first
/// rejection and the state staged before it.
#[verifier::loop_isolation(false)]
#[verifier::rlimit(40)]
pub fn stage_sweep(
    base_policies: &Vec<PolicyEntry>,
    base_histories: &Vec<HistoryEntry>,
    limit: u64,
    num_players: usize,
    counters: (u64, u64, u64, u64, u64, u64),
    memory: u64,
    deltas: &Vec<TraversalDelta>,
) -> (plan: SweepPlan)
    requires
        policies_sorted(base_policies@),
        histories_sorted(base_histories@),
        forall|i: int|
            0 <= i < base_policies@.len() ==> column_widths_agree(#[trigger] base_policies@[i].column),
    ensures
        plan.wf(),
        ({
            let o = sweep_outcome(
                base_policies@,
                base_histories@,
                limit,
                num_players as nat,
                counters,
                memory,
                deltas@,
            );
            plan.holds(o.0, o.1, swept_counters(counters, num_players as nat, o.0))
        }),
{
    let ghost bp = base_policies@;
    let ghost bh = base_histories@;
    let ghost start = sweep_start(counters, memory);
    let mut pol: Vec<PolicyEntry> = Vec::new();
    let mut hist: Vec<HistoryEntry> = Vec::new();
    let mut adds: Vec<SweepAdd> = Vec::new();
    let mut mem: u64 = memory;
    let mut deal: u64 = counters.3;
    let mut term: u64 = counters.4;
    let mut hand: u64 = counters.5;
    proof {
        assert(pol@ =~= Seq::<PolicyEntry>::empty());
        assert(hist@ =~= Seq::<HistoryEntry>::empty());
        assert forall|k: InfoKey| #[trigger] stored_policy(pol@, k) == map_lookup(start.policies, k) by {}
        assert forall|k: HistoryKey| #[trigger] stored_history(hist@, k) == map_lookup(
            start.histories,
            k,
        ) by {}
        assert(adds@ =~= start.adds);
    }
    let n = deltas.len();
    if n != num_players {
        return SweepPlan {
            policies: pol,
            histories: hist,
            adds,
            memory: mem,
            counters,
            failure: Some(
                SolverError::InvalidState("parallel sweep did not produce one delta per seat"),
            ),
        };
    }
    let mut s: usize = 0;
    while s < n
        invariant
            s <= n,
            n == deltas@.len(),
            n == num_players,
            seats_fold(bp, bh, limit, counters.2, start, deltas@, s as nat).1 is None,
            staged_agrees(
                pol@,
                hist@,
                adds@,
                mem,
                deal,
                term,
                hand,
                seats_fold(bp, bh, limit, counters.2, start, deltas@, s as nat).0,
            ),
        decreases n - s,
    {
        let ghost before = seats_fold(bp, bh, limit, counters.2, start, deltas@, s as nat).0;
        let ghost o = sweep_outcome(bp, bh, limit, num_players as nat, counters, memory, deltas@);
        let delta = &deltas[s];
        let expected = counters.2.checked_add(s as u64);
        let header: Result<(u64, u64, u64), SolverError> = match expected {
            None => Err(SolverError::CounterOverflow),
            Some(x) => if delta.sample_id != x || delta.traverser != s {
                Err(SolverError::InvalidState("parallel traversal deltas are not in sample-id order"))
            } else {
                match (
                    deal.checked_add(delta.deal_attempts),
                    term.checked_add(delta.terminal_evaluations),
                    hand.checked_add(delta.hand_updates),
                ) {
                    (Some(a), Some(b), Some(c)) => Ok((a, b, c)),
                    _ => Err(SolverError::CounterOverflow),
                }
            },
        };
        match header {
            Err(e) => {
                proof {
                    assert(seats_fold(bp, bh, limit, counters.2, start, deltas@, (s + 1) as nat) == (
                        before,
                        Some(e),
                    ));
                    lemma_seats_fold_sticks(bp, bh, limit, counters.2, start, deltas@, (s + 1) as nat, n as nat);
                    assert(o == (before, Some(e)));
                }
                return SweepPlan {
                    policies: pol,
                    histories: hist,
                    adds,
                    memory: mem,
                    counters,
                    failure: Some(e),
                };
            },
            Ok((a, b, c)) => {
                deal = a;
                term = b;
                hand = c;
            },
        }
        let ghost h = seat_header(counters.2, before, s as nat, deltas@[s as int])->Ok_0;
        let ghost evs = deltas@[s as int].events@;
        let m = delta.events.len();
        let mut e: usize = 0;
        while e < m
            invariant
                e <= m,
                m == evs.len(),
                evs == delta.events@,
                events_fold(bp, bh, limit, h, s as nat, evs, e as nat).1 is None,
                staged_agrees(
                    pol@,
                    hist@,
                    adds@,
                    mem,
                    deal,
                    term,
                    hand,
                    events_fold(bp, bh, limit, h, s as nat, evs, e as nat).0,
                ),
            decreases m - e,
        {
            let ghost cur = events_fold(bp, bh, limit, h, s as nat, evs, e as nat).0;
            let r = apply_event(
                base_policies,
                base_histories,
                limit,
                &mut pol,
                &mut hist,
                &mut adds,
                &mut mem,
                s,
                e,
                &delta.events[e],
                deal,
                term,
                hand,
                Ghost(cur),
            );
            match r {
                Err(err) => {
                    proof {
                        assert(events_fold(bp, bh, limit, h, s as nat, evs, (e + 1) as nat) == (
                            cur,
                            Some(err),
                        ));
                        lemma_events_fold_sticks(bp, bh, limit, h, s as nat, evs, (e + 1) as nat, m as nat);
                        assert(seats_fold(bp, bh, limit, counters.2, start, deltas@, (s + 1) as nat)
                            == (cur, Some(err)));
                        lemma_seats_fold_sticks(
                            bp,
                            bh,
                            limit,
                            counters.2,
                            start,
                            deltas@,
                            (s + 1) as nat,
                            n as nat,
                        );
                        assert(o == (cur, Some(err)));
                    }
                    return SweepPlan {
                        policies: pol,
                        histories: hist,
                        adds,
                        memory: mem,
                        counters,
                        failure: Some(err),
                    };
                },
                Ok(()) => {},
            }
            e = e + 1;
        }
        s = s + 1;
    }
    let ghost fin = seats_fold(bp, bh, limit, counters.2, start, deltas@, n as nat);
    let added = n as u64;
    let totals = (
        counters.0.checked_add(added),
        counters.2.checked_add(added),
        counters.1.checked_add(1),
    );
    match totals {
        (Some(traversals), Some(next), Some(sweeps)) => SweepPlan {
            policies: pol,
            histories: hist,
            adds,
            memory: mem,
            counters: (traversals, sweeps, next, deal, term, hand),
            failure: None,
        },
        _ => SweepPlan {
            policies: pol,
            histories: hist,
            adds,
            memory: mem,
            counters,
            failure: Some(SolverError::CounterOverflow),
        },
    }
}

/// A staged column under `key` is the stored column unchanged, or, for a
/// key the store does not hold, a column of zeros as wide as its menu.
pub open spec fn staged_column_faithful(
    base: Seq<PolicyEntry>,
    key: InfoKey,
    c: (Seq<String>, Seq<u32>, Seq<u32>),
) -> bool {
    match stored_policy(base, key) {
        Some(d) => c == d,
        None => c.1 == zero_bits(c.0.len()) && c.2 == zero_bits(c.0.len()),
    }
}

/// Every staged column is faithful, and every staged history entry is a
/// new key stored under itself.
pub open spec fn staged_faithful(base_policies: Seq<PolicyEntry>, base_histories: Seq<HistoryEntry>, st: SweepState) -> bool {
    &&& forall|k: InfoKey|
        #[trigger] st.policies.dom().contains(k) ==> staged_column_faithful(
            base_policies,
            k,
            st.policies[k],
        )
    &&& forall|k: HistoryKey|
        #[trigger] st.histories.dom().contains(k) ==> stored_history(base_histories, k) is None
            && st.histories[k].key == k
}

pub(crate) proof fn lemma_event_step_faithful(
    bp: Seq<PolicyEntry>,
    bh: Seq<HistoryEntry>,
    limit: u64,
    st: SweepState,
    seat: nat,
    index: nat,
    ev: TraversalEvent,
)
    requires
        staged_faithful(bp, bh, st),
        event_step(bp, bh, limit, st, seat, index, ev) is Ok,
    ensures
        staged_faithful(bp, bh, event_step(bp, bh, limit, st, seat, index, ev)->Ok_0),
{
    let next = event_step(bp, bh, limit, st, seat, index, ev)->Ok_0;
    match ev {
        TraversalEvent::EnsurePolicy { key, action_labels } => {
            assert forall|k: InfoKey| #[trigger] next.policies.dom().contains(k) implies staged_column_faithful(
                bp,
                k,
                next.policies[k],
            ) by {
                if k == key && !st.policies.dom().contains(k) {
                    assert(zero_bits(action_labels@.len()).len() == action_labels@.len());
                }
            }
        },
        TraversalEvent::EnsureHistory(entry) => {},
        TraversalEvent::AddRegret { key, width } => {
            assert forall|k: InfoKey| #[trigger] next.policies.dom().contains(k) implies staged_column_faithful(
                bp,
                k,
                next.policies[k],
            ) by {
                if k == key && !st.policies.dom().contains(k) {
                    assert(next.policies[k] == stored_policy(bp, k)->Some_0);
                }
            }
        },
        TraversalEvent::AddStrategy { key, width } => {
            assert forall|k: InfoKey| #[trigger] next.policies.dom().contains(k) implies staged_column_faithful(
                bp,
                k,
                next.policies[k],
            ) by {
                if k == key && !st.policies.dom().contains(k) {
                    assert(next.policies[k] == stored_policy(bp, k)->Some_0);
                }
            }
        },
    }
}

proof fn lemma_events_fold_faithful(
    bp: Seq<PolicyEntry>,
    bh: Seq<HistoryEntry>,
    limit: u64,
    st: SweepState,
    seat: nat,
    events: Seq<TraversalEvent>,
    n: nat,
)
    requires
        staged_faithful(bp, bh, st),
    ensures
        staged_faithful(bp, bh, events_fold(bp, bh, limit, st, seat, events, n).0),
    decreases n,
{
    if n > 0 {
        lemma_events_fold_faithful(bp, bh, limit, st, seat, events, (n - 1) as nat);
        let prev = events_fold(bp, bh, limit, st, seat, events, (n - 1) as nat);
        if prev.1 is None {
            if event_step(bp, bh, limit, prev.0, seat, (n - 1) as nat, events[n - 1]) is Ok {
                lemma_event_step_faithful(bp, bh, limit, prev.0, seat, (n - 1) as nat, events[n - 1]);
            }
        }
    }
}

proof fn lemma_seats_fold_faithful(
    bp: Seq<PolicyEntry>,
    bh: Seq<HistoryEntry>,
    limit: u64,
    next_sample_id: u64,
    st: SweepState,
    deltas: Seq<TraversalDelta>,
    n: nat,
)
    requires
        staged_faithful(bp, bh, st),
    ensures
        staged_faithful(bp, bh, seats_fold(bp, bh, limit, next_sample_id, st, deltas, n).0),
    decreases n,
{
    if n > 0 {
        lemma_seats_fold_faithful(bp, bh, limit, next_sample_id, st, deltas, (n - 1) as nat);
        let prev = seats_fold(bp, bh, limit, next_sample_id, st, deltas, (n - 1) as nat);
        if prev.1 is None {
            match seat_header(next_sample_id, prev.0, (n - 1) as nat, deltas[n - 1]) {
                Err(e) => {},
                Ok(h) => {
                    assert(staged_faithful(bp, bh, h));
                    lemma_events_fold_faithful(
                        bp,
                        bh,
                        limit,
                        h,
                        (n - 1) as nat,
                        deltas[n - 1].events@,
                        deltas[n - 1].events@.len(),
                    );
                },
            }
        }
    }
}

/// Staging a sweep never alters a stored column or history entry: every
/// column it stages under a key the store holds is exactly the stored
/// column, every column under a new key starts at zero across its menu,
/// and every history entry it stages is new to the store.
pub proof fn law_staging_never_rewrites_the_store(
    base_policies: Seq<PolicyEntry>,
    base_histories: Seq<HistoryEntry>,
    limit: u64,
    num_players: nat,
    counters: (u64, u64, u64, u64, u64, u64),
    memory: u64,
    deltas: Seq<TraversalDelta>,
)
    ensures
        staged_faithful(
            base_policies,
            base_histories,
            sweep_outcome(
                base_policies,
                base_histories,
                limit,
                num_players,
                counters,
                memory,
                deltas,
            ).0,
        ),
{
    let start = sweep_start(counters, memory);
    assert(staged_faithful(base_policies, base_histories, start));
    if deltas.len() == num_players {
        lemma_seats_fold_faithful(
            base_policies,
            base_histories,
            limit,
            counters.2,
            start,
            deltas,
            deltas.len(),
        );
    }
}

/// A sweep keeps the counters resumable: if the next sample id equals the
/// traversal count and the completed sweeps are the whole rotations of the
/// table before a sweep, the same holds after it.
pub proof fn law_sweep_keeps_counters_resumable(
    counters: (u64, u64, u64, u64, u64, u64),
    num_players: nat,
    st: SweepState,
)
    requires
        num_players >= 1,
        counters.2 == counters.0,
        counters.1 == counters.0 as nat / num_players,
    ensures
        ({
            let after = swept_counters(counters, num_players, st);
            &&& after.2 == after.0
            &&& after.1 == after.0 / (num_players as int)
        }),
{
    let t = counters.0 as int;
    let n = num_players as int;
    assert((t + n) / n == t / n + 1) by {
        vstd::arithmetic::div_mod::lemma_div_plus_one(t, n);
    }
}

/// `a` is merged before `b`: an earlier seat, or an earlier event of the
/// same seat.
pub open spec fn add_precedes(a: SweepAdd, b: SweepAdd) -> bool {
    a.seat < b.seat || (a.seat == b.seat && a.event < b.event)
}

/// The adds are listed in merge order.
pub open spec fn adds_in_merge_order(adds: Seq<SweepAdd>) -> bool {
    forall|i: int, j: int| 0 <= i < j < adds.len() ==> add_precedes(#[trigger] adds[i], #[trigger] adds[j])
}

proof fn lemma_events_fold_ordered(
    bp: Seq<PolicyEntry>,
    bh: Seq<HistoryEntry>,
    limit: u64,
    st: SweepState,
    seat: nat,
    events: Seq<TraversalEvent>,
    n: nat,
)
    requires
        adds_in_merge_order(st.adds),
        forall|i: int| 0 <= i < st.adds.len() ==> (#[trigger] st.adds[i]).seat < seat,
        seat <= usize::MAX,
        n <= events.len() <= usize::MAX,
    ensures
        adds_in_merge_order(events_fold(bp, bh, limit, st, seat, events, n).0.adds),
        forall|i: int|
            0 <= i < events_fold(bp, bh, limit, st, seat, events, n).0.adds.len() ==> {
                let a = #[trigger] events_fold(bp, bh, limit, st, seat, events, n).0.adds[i];
                a.seat < seat || (a.seat == seat && a.event < n)
            },
    decreases n,
{
    if n > 0 {
        lemma_events_fold_ordered(bp, bh, limit, st, seat, events, (n - 1) as nat);
        let prev = events_fold(bp, bh, limit, st, seat, events, (n - 1) as nat);
        if prev.1 is None {
            let step = event_step(bp, bh, limit, prev.0, seat, (n - 1) as nat, events[n - 1]);
            if step is Ok {
                let next = step->Ok_0;
                let adds = next.adds;
                assert(adds == prev.0.adds || adds == prev.0.adds.push(
                    SweepAdd {
                        seat: seat as usize,
                        event: (n - 1) as usize,
                        key: adds.last().key,
                        regret: adds.last().regret,
                    },
                ));
            }
        }
    }
}

proof fn lemma_seats_fold_ordered(
    bp: Seq<PolicyEntry>,
    bh: Seq<HistoryEntry>,
    limit: u64,
    next_sample_id: u64,
    st: SweepState,
    deltas: Seq<TraversalDelta>,
    n: nat,
)
    requires
        st.adds.len() == 0,
        n <= deltas.len() <= usize::MAX,
        forall|i: int| 0 <= i < deltas.len() ==> (#[trigger] deltas[i]).events@.len() <= usize::MAX,
    ensures
        adds_in_merge_order(seats_fold(bp, bh, limit, next_sample_id, st, deltas, n).0.adds),
        forall|i: int|
            0 <= i < seats_fold(bp, bh, limit, next_sample_id, st, deltas, n).0.adds.len()
                ==> (#[trigger] seats_fold(bp, bh, limit, next_sample_id, st, deltas, n).0.adds[i]).seat
                < n,
    decreases n,
{
    if n > 0 {
        lemma_seats_fold_ordered(bp, bh, limit, next_sample_id, st, deltas, (n - 1) as nat);
        let prev = seats_fold(bp, bh, limit, next_sample_id, st, deltas, (n - 1) as nat);
        if prev.1 is None {
            match seat_header(next_sample_id, prev.0, (n - 1) as nat, deltas[n - 1]) {
                Err(e) => {},
                Ok(h) => {
                    assert(h.adds == prev.0.adds);
                    lemma_events_fold_ordered(
                        bp,
                        bh,
                        limit,
                        h,
                        (n - 1) as nat,
                        deltas[n - 1].events@,
                        deltas[n - 1].events@.len(),
                    );
                },
            }
        }
    }
}

/// The accepted adds of a sweep, the order in which their values are
/// accumulated, come seat by seat and, within a seat, in the order of its
/// events; so the accumulation order depends on the deltas alone, never on
/// which worker finished first.
pub proof fn law_adds_follow_seat_then_event_order(
    base_policies: Seq<PolicyEntry>,
    base_histories: Seq<HistoryEntry>,
    limit: u64,
    num_players: nat,
    counters: (u64, u64, u64, u64, u64, u64),
    memory: u64,
    deltas: Seq<TraversalDelta>,
)
    requires
        deltas.len() <= usize::MAX,
        forall|i: int| 0 <= i < deltas.len() ==> (#[trigger] deltas[i]).events@.len() <= usize::MAX,
    ensures
        adds_in_merge_order(
            sweep_outcome(
                base_policies,
                base_histories,
                limit,
                num_players,
                counters,
                memory,
                deltas,
            ).0.adds,
        ),
{
    let start = sweep_start(counters, memory);
    if deltas.len() == num_players {
        lemma_seats_fold_ordered(
            base_policies,
            base_histories,
            limit,
            counters.2,
            start,
            deltas,
            deltas.len(),
        );
    }
}

/// A copy of an error value.
pub fn clone_error(e: &SolverError) -> (r: SolverError)
    ensures
        r == *e,
{
    match e {
        SolverError::PlayerCount { found } => SolverError::PlayerCount { found: *found },
        SolverError::SamplerPlayerCount { game, sampler } => SolverError::SamplerPlayerCount {
            game: *game,
            sampler: *sampler,
        },
        SolverError::ZeroMemoryLimit => SolverError::ZeroMemoryLimit,
        SolverError::ZeroDepthLimit => SolverError::ZeroDepthLimit,
        SolverError::InvalidExploration { epsilon_bits } => SolverError::InvalidExploration {
            epsilon_bits: *epsilon_bits,
        },
        SolverError::InvalidPrivateInfo(m) => SolverError::InvalidPrivateInfo(*m),
        SolverError::InvalidActionLabels(m) => SolverError::InvalidActionLabels(*m),
        SolverError::ActionLabelsChanged { key } => SolverError::ActionLabelsChanged { key: *key },
        SolverError::InvalidActor { actor, num_players } => SolverError::InvalidActor {
            actor: *actor,
            num_players: *num_players,
        },
        SolverError::NoActions { actor } => SolverError::NoActions { actor: *actor },
        SolverError::DepthLimit { limit } => SolverError::DepthLimit { limit: *limit },
        SolverError::ActionCountChanged { key, stored, current } => SolverError::ActionCountChanged {
            key: *key,
            stored: *stored,
            current: *current,
        },
        SolverError::MemoryLimit { limit, needed } => SolverError::MemoryLimit {
            limit: *limit,
            needed: *needed,
        },
        SolverError::ZeroDiscountCadence => SolverError::ZeroDiscountCadence,
        SolverError::ZeroSweepBatch => SolverError::ZeroSweepBatch,
        SolverError::ZeroThreads => SolverError::ZeroThreads,
        SolverError::ThreadPoolBuild(m) => SolverError::ThreadPoolBuild(m.clone()),
        SolverError::ResumeConfigurationMismatch => SolverError::ResumeConfigurationMismatch,
        SolverError::IncompleteSweepState => SolverError::IncompleteSweepState,
        SolverError::ZeroEvaluationSamples => SolverError::ZeroEvaluationSamples,
        SolverError::NumericOverflow => SolverError::NumericOverflow,
        SolverError::CounterOverflow => SolverError::CounterOverflow,
        SolverError::TraversalCountOverflow => SolverError::TraversalCountOverflow,
        SolverError::MemoryAccountingOverflow => SolverError::MemoryAccountingOverflow,
        SolverError::StateVersion { found, expected } => SolverError::StateVersion {
            found: *found,
            expected: *expected,
        },
        SolverError::InvalidState(m) => SolverError::InvalidState(*m),
        SolverError::DuplicatePolicy(k) => SolverError::DuplicatePolicy(*k),
        SolverError::DuplicateHistory(k) => SolverError::DuplicateHistory(*k),
        SolverError::HistoryCollision(k) => SolverError::HistoryCollision(*k),
        SolverError::HistoryIndexOverflow => SolverError::HistoryIndexOverflow,
        SolverError::VectorTraverserRequiresStreetRecall => SolverError::VectorTraverserRequiresStreetRecall,
        SolverError::PruneRequiresVector => SolverError::PruneRequiresVector,
        SolverError::PruneThresholdNotNegative { threshold_bits } => SolverError::PruneThresholdNotNegative {
            threshold_bits: *threshold_bits,
        },
        SolverError::PruneSkipProbabilityOutOfRange { probability_bits } => SolverError::PruneSkipProbabilityOutOfRange {
            probability_bits: *probability_bits,
        },
        SolverError::PreallocatedStorageRequiresStreetRecall => SolverError::PreallocatedStorageRequiresStreetRecall,
    }
}

} // verus!
