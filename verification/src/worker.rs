//! Bookkeeping of one traversal worker.  A worker reads the store as it was
//! at the start of the sweep, keeps the menus and history edges it meets
//! for the first time in local tables, and records every change it wants as
//! an event; the ordered merge applies the events after all seats finish.
use vstd::prelude::*;

use crate::errors::SolverError;
use crate::keys::{child_key, HistoryEntry, HistoryKey, InfoKey};
use crate::merge::{TraversalDelta, TraversalEvent};
use crate::storage::{label_views, labels_verdict, validate_action_labels, PolicyColumn, PolicyEntry};
use crate::store::{
    column_widths_agree, find_history, find_policy, histories_sorted, insert_history,
    insert_policy, lemma_sorted_histories_unique, lemma_sorted_policies_unique,
    lemma_stored_history_at, lemma_stored_policy_at, policies_sorted, stored_history,
    stored_policy, MultiwaySolver,
};

verus! {

/// What a worker records while it traverses.
pub struct TraversalLog {
    local_policies: Vec<PolicyEntry>,
    local_histories: Vec<HistoryEntry>,
    events: Vec<TraversalEvent>,
    terminal_evaluations: u64,
}

/// Outcome of resolving the menu at `key`: against the stored column (its
/// regrets are returned), else against a menu this worker already met,
/// else the menu must be a valid one (and the policy starts uniform).
pub open spec fn menu_verdict(
    stored: Option<(Seq<String>, Seq<u32>, Seq<u32>)>,
    local: Option<(Seq<String>, Seq<u32>, Seq<u32>)>,
    key: InfoKey,
    labels: Seq<String>,
) -> Result<Option<Seq<u32>>, SolverError> {
    match stored {
        Some(c) => if c.1.len() != labels.len() {
            Err(
                SolverError::ActionCountChanged {
                    key,
                    stored: c.1.len() as usize,
                    current: labels.len() as usize,
                },
            )
        } else if label_views(c.0) != label_views(labels) {
            Err(SolverError::ActionLabelsChanged { key })
        } else {
            Ok(Some(c.1))
        },
        None => match local {
            Some(m) => if label_views(m.0) != label_views(labels) {
                Err(SolverError::ActionLabelsChanged { key })
            } else {
                Ok(None)
            },
            None => match labels_verdict(label_views(labels)) {
                Err(e) => Err(e),
                Ok(()) => Ok(None),
            },
        },
    }
}

/// A recorded edge is the one taken from `parent` by `actor` with action
/// `action` and this label.
pub open spec fn edge_matches(e: HistoryEntry, parent: HistoryKey, actor: nat, action: nat, label: Seq<char>) -> bool {
    &&& e.parent == parent
    &&& e.actor == actor
    &&& e.action_index == action
    &&& e.action_label@ == label
}

/// Outcome of recording the edge to `key`: a stored or already recorded
/// edge must match; a new one must fit the entry's field widths.
pub open spec fn edge_verdict(
    stored: Option<HistoryEntry>,
    local: Option<HistoryEntry>,
    key: HistoryKey,
    parent: HistoryKey,
    actor: nat,
    action: nat,
    label: Seq<char>,
) -> Result<HistoryKey, SolverError> {
    match stored {
        Some(e) => if edge_matches(e, parent, actor, action, label) {
            Ok(key)
        } else {
            Err(SolverError::HistoryCollision(key))
        },
        None => match local {
            Some(e) => if edge_matches(e, parent, actor, action, label) {
                Ok(key)
            } else {
                Err(SolverError::HistoryCollision(key))
            },
            None => if actor > u8::MAX || action > u32::MAX {
                Err(SolverError::HistoryIndexOverflow)
            } else {
                Ok(key)
            },
        },
    }
}

impl TraversalLog {
    /// Menus first met by this worker (with zero values), in key order.
    pub closed spec fn spec_local_policies(&self) -> Seq<PolicyEntry> {
        self.local_policies@
    }

    /// Edges first met by this worker, in key order.
    pub closed spec fn spec_local_histories(&self) -> Seq<HistoryEntry> {
        self.local_histories@
    }

    /// Recorded events, in order.
    pub closed spec fn spec_events(&self) -> Seq<TraversalEvent> {
        self.events@
    }

    /// Terminal payoffs evaluated so far.
    pub closed spec fn spec_terminal_evaluations(&self) -> u64 {
        self.terminal_evaluations
    }

    /// Local tables are sorted and their columns' widths agree.
    pub open spec fn wf(&self) -> bool {
        &&& policies_sorted(self.spec_local_policies())
        &&& histories_sorted(self.spec_local_histories())
        &&& forall|i: int|
            0 <= i < self.spec_local_policies().len() ==> column_widths_agree(
                #[trigger] self.spec_local_policies()[i].column,
            )
    }

    /// A log with nothing recorded.
    pub fn new() -> (r: Self)
        ensures
            r.wf(),
            r.spec_local_policies() == Seq::<PolicyEntry>::empty(),
            r.spec_local_histories() == Seq::<HistoryEntry>::empty(),
            r.spec_events() == Seq::<TraversalEvent>::empty(),
            r.spec_terminal_evaluations() == 0,
    {
        TraversalLog {
            local_policies: Vec::new(),
            local_histories: Vec::new(),
            events: Vec::new(),
            terminal_evaluations: 0,
        }
    }

    /// Terminal payoffs evaluated so far.
    pub fn terminal_evaluations(&self) -> (r: u64)
        ensures
            r == self.spec_terminal_evaluations(),
    {
        self.terminal_evaluations
    }

    /// Number of recorded events.
    pub fn event_count(&self) -> (r: usize)
        ensures
            r == self.spec_events().len(),
    {
        self.events.len()
    }

    /// Resolves the menu `labels` met at `key`.  A stored column must have
    /// the same menu; its regrets come back.  Otherwise a menu this worker
    /// met before must be the same; a menu met for the first time must be
    /// valid, is kept locally and recorded as an `EnsurePolicy` event, and
    /// the policy there is uniform (`None`).
    pub fn resolve_policy(&mut self, store: &MultiwaySolver, key: InfoKey, labels: Vec<String>) -> (r:
        Result<Option<Vec<u32>>, SolverError>)
        requires
            old(self).wf(),
            store.wf(),
        ensures
            final(self).wf(),
            final(self).spec_terminal_evaluations() == old(self).spec_terminal_evaluations(),
            final(self).spec_local_histories() == old(self).spec_local_histories(),
            ({
                let v = menu_verdict(
                    stored_policy(store.spec_policies(), key),
                    stored_policy(old(self).spec_local_policies(), key),
                    key,
                    labels@,
                );
                &&& r matches Ok(Some(g)) ==> v == Ok::<Option<Seq<u32>>, SolverError>(Some(g@))
                &&& r matches Ok(None) ==> v == Ok::<Option<Seq<u32>>, SolverError>(None)
                &&& r matches Err(e) ==> v == Err::<Option<Seq<u32>>, SolverError>(e)
            }),
            ({
                let fresh = stored_policy(store.spec_policies(), key) is None && stored_policy(
                    old(self).spec_local_policies(),
                    key,
                ) is None && r is Ok;
                &&& fresh ==> final(self).spec_events() == old(self).spec_events().push(
                    TraversalEvent::EnsurePolicy { key, action_labels: labels },
                )
                &&& fresh ==> forall|k: InfoKey| #[trigger]
                    stored_policy(final(self).spec_local_policies(), k) == if k == key {
                        Some(
                            (
                                labels@,
                                Seq::new(labels@.len(), |i: int| 0u32),
                                Seq::new(labels@.len(), |i: int| 0u32),
                            ),
                        )
                    } else {
                        stored_policy(old(self).spec_local_policies(), k)
                    }
                &&& !fresh ==> final(self).spec_events() == old(self).spec_events()
                &&& !fresh ==> final(self).spec_local_policies() == old(self).spec_local_policies()
            }),
    {
        match store.column_ref(key) {
            Some(column) => {
                if column.regrets.len() != labels.len() {
                    return Err(
                        SolverError::ActionCountChanged {
                            key,
                            stored: column.regrets.len(),
                            current: labels.len(),
                        },
                    );
                }
                if !labels_match(&column.action_labels, &labels) {
                    return Err(SolverError::ActionLabelsChanged { key });
                }
                let regrets = column.regrets.clone();
                proof {
                    assert(regrets@ =~= column.regrets@);
                }
                return Ok(Some(regrets));
            },
            None => {},
        }
        match find_policy(&self.local_policies, &key) {
            Some(i) => {
                if !labels_match(&self.local_policies[i].column.action_labels, &labels) {
                    return Err(SolverError::ActionLabelsChanged { key });
                }
                Ok(None)
            },
            None => {
                match validate_action_labels(labels.as_slice()) {
                    Err(e) => {
                        return Err(e);
                    },
                    Ok(()) => {},
                }
                let copy = labels.clone();
                proof {
                    assert(copy@ =~= labels@);
                }
                let column = PolicyColumn::zeroed(copy);
                let entry = PolicyEntry { key, column };
                let ghost before = self.local_policies@;
                let ghost e = entry;
                let ghost n = labels@.len();
                proof {
                    lemma_sorted_policies_unique(before);
                    lemma_stored_policy_at(before, key);
                }
                insert_policy(&mut self.local_policies, entry);
                proof {
                    let p = choose|p: int|
                        0 <= p <= before.len() && self.local_policies@ == before.insert(p, e);
                    crate::merge::lemma_insert_policy_lookup(before, self.local_policies@, p, e);
                    assert forall|i: int| 0 <= i < self.local_policies@.len() implies column_widths_agree(
                        #[trigger] self.local_policies@[i].column,
                    ) by {
                        if i < p {
                            assert(self.local_policies@[i] == before[i]);
                        } else if i > p {
                            assert(self.local_policies@[i] == before[i - 1]);
                        }
                    }
                    assert(e.column.regrets@ =~= Seq::new(n, |i: int| 0u32));
                    assert(e.column.strategy_sum@ =~= Seq::new(n, |i: int| 0u32));
                }
                self.events.push(TraversalEvent::EnsurePolicy { key, action_labels: labels });
                Ok(None)
            },
        }
    }

    /// Records (or checks a repeat of) the edge taken from `parent` by
    /// `actor` with action `action_index` and label `label`, and returns the
    /// child key.  An edge met for the first time is kept locally and
    /// recorded as an `EnsureHistory` event.
    pub fn record_history(
        &mut self,
        store: &MultiwaySolver,
        parent: HistoryKey,
        actor: usize,
        action_index: usize,
        label: &String,
    ) -> (r: Result<HistoryKey, SolverError>)
        requires
            old(self).wf(),
            store.wf(),
        ensures
            final(self).wf(),
            final(self).spec_terminal_evaluations() == old(self).spec_terminal_evaluations(),
            final(self).spec_local_policies() == old(self).spec_local_policies(),
            ({
                let key = child_key(parent, actor as nat, action_index as nat);
                &&& r == edge_verdict(
                    stored_history(store.spec_histories(), key),
                    stored_history(old(self).spec_local_histories(), key),
                    key,
                    parent,
                    actor as nat,
                    action_index as nat,
                    label@,
                )
                &&& (stored_history(store.spec_histories(), key) is None && stored_history(
                    old(self).spec_local_histories(),
                    key,
                ) is None && r is Ok) ==> {
                    &&& final(self).spec_events().len() == old(self).spec_events().len() + 1
                    &&& final(self).spec_events().drop_last() == old(self).spec_events()
                    &&& final(self).spec_events().last() == TraversalEvent::EnsureHistory(
                        stored_history(final(self).spec_local_histories(), key)->Some_0,
                    )
                    &&& stored_history(final(self).spec_local_histories(), key) matches Some(e)
                        && e.key == key && edge_matches(
                        e,
                        parent,
                        actor as nat,
                        action_index as nat,
                        label@,
                    )
                    &&& forall|k: HistoryKey|
                        k != key ==> #[trigger] stored_history(final(self).spec_local_histories(), k)
                            == stored_history(old(self).spec_local_histories(), k)
                }
                &&& !(stored_history(store.spec_histories(), key) is None && stored_history(
                    old(self).spec_local_histories(),
                    key,
                ) is None && r is Ok) ==> final(self).spec_events() == old(self).spec_events()
                    && final(self).spec_local_histories() == old(self).spec_local_histories()
            }),
    {
        let key = parent.child(actor, action_index);
        match store.history_ref(key) {
            Some(existing) => {
                if !edge_equal(existing, &parent, actor, action_index, label) {
                    return Err(SolverError::HistoryCollision(key));
                }
                return Ok(key);
            },
            None => {},
        }
        match find_history(&self.local_histories, &key) {
            Some(i) => {
                if !edge_equal(&self.local_histories[i], &parent, actor, action_index, label) {
                    return Err(SolverError::HistoryCollision(key));
                }
                Ok(key)
            },
            None => {
                if actor > 255 || action_index > 0xffff_ffff {
                    return Err(SolverError::HistoryIndexOverflow);
                }
                let entry = HistoryEntry {
                    key,
                    parent,
                    actor: actor as u8,
                    action_index: action_index as u32,
                    action_label: label.clone(),
                };
                let copy = entry.clone();
                let ghost before = self.local_histories@;
                let ghost e = copy;
                proof {
                    lemma_sorted_histories_unique(before);
                    lemma_stored_history_at(before, key);
                }
                insert_history(&mut self.local_histories, copy);
                proof {
                    let p = choose|p: int|
                        0 <= p <= before.len() && self.local_histories@ == before.insert(p, e);
                    crate::merge::lemma_insert_history_lookup(before, self.local_histories@, p, e);
                }
                self.events.push(TraversalEvent::EnsureHistory(entry));
                Ok(key)
            },
        }
    }

    /// Records `width` regret increments for the column under `key`.
    pub fn record_regret(&mut self, key: InfoKey, width: usize)
        ensures
            final(self).spec_events() == old(self).spec_events().push(
                TraversalEvent::AddRegret { key, width },
            ),
            final(self).spec_local_policies() == old(self).spec_local_policies(),
            final(self).spec_local_histories() == old(self).spec_local_histories(),
            final(self).spec_terminal_evaluations() == old(self).spec_terminal_evaluations(),
    {
        self.events.push(TraversalEvent::AddRegret { key, width });
    }

    /// Records `width` strategy-sum increments for the column under `key`.
    pub fn record_strategy(&mut self, key: InfoKey, width: usize)
        ensures
            final(self).spec_events() == old(self).spec_events().push(
                TraversalEvent::AddStrategy { key, width },
            ),
            final(self).spec_local_policies() == old(self).spec_local_policies(),
            final(self).spec_local_histories() == old(self).spec_local_histories(),
            final(self).spec_terminal_evaluations() == old(self).spec_terminal_evaluations(),
    {
        self.events.push(TraversalEvent::AddStrategy { key, width });
    }

    /// Counts one terminal payoff evaluation.
    pub fn record_terminal(&mut self)
        requires
            old(self).spec_terminal_evaluations() < u64::MAX,
        ensures
            final(self).spec_terminal_evaluations() == old(self).spec_terminal_evaluations() + 1,
            final(self).spec_events() == old(self).spec_events(),
            final(self).spec_local_policies() == old(self).spec_local_policies(),
            final(self).spec_local_histories() == old(self).spec_local_histories(),
    {
        self.terminal_evaluations = self.terminal_evaluations + 1;
    }

    /// The traversal's delta: its sample id, traverser and deal attempts,
    /// the terminal evaluations counted, one sampled hand update, and the
    /// recorded events in order.
    pub fn finish(self, sample_id: u64, traverser: usize, deal_attempts: u64) -> (r: TraversalDelta)
        ensures
            r.sample_id == sample_id,
            r.traverser == traverser,
            r.deal_attempts == deal_attempts,
            r.terminal_evaluations == self.spec_terminal_evaluations(),
            r.hand_updates == 1,
            r.events@ == self.spec_events(),
    {
        TraversalDelta {
            sample_id,
            traverser,
            deal_attempts,
            terminal_evaluations: self.terminal_evaluations,
            hand_updates: 1,
            events: self.events,
        }
    }
}

/// Meeting a menu again answers the same way and records nothing: once a
/// worker kept a menu for a key the store does not hold, the same menu at
/// that key resolves to the uniform policy.
pub proof fn law_menu_met_again_is_uniform(
    local: (Seq<String>, Seq<u32>, Seq<u32>),
    key: InfoKey,
    labels: Seq<String>,
)
    requires
        local.0 == labels,
    ensures
        menu_verdict(None, Some(local), key, labels) == Ok::<Option<Seq<u32>>, SolverError>(None),
{
}

/// Taking an edge again answers with the same key: once a worker recorded
/// the edge from `parent` by `actor` with `action` and `label` under a key
/// the store does not hold, the same edge resolves to that key.
pub proof fn law_edge_taken_again_same_key(
    local: HistoryEntry,
    key: HistoryKey,
    parent: HistoryKey,
    actor: nat,
    action: nat,
    label: Seq<char>,
)
    requires
        edge_matches(local, parent, actor, action, label),
    ensures
        edge_verdict(None, Some(local), key, parent, actor, action, label) == Ok::<
            HistoryKey,
            SolverError,
        >(key),
{
}

/// Two menus name the same actions in the same order.
fn labels_match(a: &Vec<String>, b: &Vec<String>) -> (r: bool)
    ensures
        r == (label_views(a@) == label_views(b@)),
{
    if a.len() != b.len() {
        proof {
            assert(label_views(a@).len() != label_views(b@).len());
        }
        return false;
    }
    let mut i: usize = 0;
    while i < a.len()
        invariant
            i <= a@.len(),
            a@.len() == b@.len(),
            forall|k: int| 0 <= k < i ==> #[trigger] a@[k]@ == b@[k]@,
        decreases a@.len() - i,
    {
        if a[i] != b[i] {
            proof {
                assert(label_views(a@)[i as int] != label_views(b@)[i as int]);
            }
            return false;
        }
        i = i + 1;
    }
    proof {
        assert(label_views(a@) =~= label_views(b@));
    }
    true
}

/// The recorded edge is the one described.
fn edge_equal(e: &HistoryEntry, parent: &HistoryKey, actor: usize, action: usize, label: &String) -> (r:
    bool)
    ensures
        r == edge_matches(*e, *parent, actor as nat, action as nat, label@),
{
    crate::keys::same_history(&e.parent, parent) && e.actor as usize == actor && e.action_index
        as usize == action && e.action_label == *label
}

} // verus!
