//! Why a store reached by creating it and merging sweeps can always be
//! checkpointed and resumed: the resume checks hold of a fresh store, and a
//! committed sweep whose traversal events describe valid edges and menus
//! (each edge and menu hanging off a known history) keeps them.
use vstd::prelude::*;

use crate::keys::{history_entry_valid, key_private_info, private_info_verdict, HistoryEntry, HistoryKey, InfoKey};
use crate::merge::{
    event_step, events_fold, seat_header, seats_fold, staged_faithful, staged_history, staged_policy,
    sweep_outcome, sweep_start, SweepState, TraversalDelta, TraversalEvent,
};
use crate::errors::SolverError;
use crate::merge::{map_lookup, swept_counters, SweepPlan};
use crate::storage::{all_finite, column_verdict, entry_memory, history_memory, label_views, labels_verdict, none_negative};
use crate::store::{
    has_history, history_charges, lemma_sorted_histories_unique, lemma_sorted_policies_unique,
    lemma_wf_facts, overlay, parent_ranked_before, ranked_histories, resumable, MultiwaySolver, history_keys_unique, lemma_stored_history_at, lemma_stored_policy_at,
    policy_charges, policy_keys_unique, stored_history, stored_policy,
};
use crate::types::RecallMode;

verus! {

/// Sum of `f` over a sequence.
pub open spec fn seq_sum<A>(s: Seq<A>, f: spec_fn(A) -> int) -> int
    decreases s.len(),
{
    if s.len() == 0 {
        0
    } else {
        seq_sum(s.drop_last(), f) + f(s.last())
    }
}

/// Memory charged for a history entry.
pub open spec fn history_charge(e: HistoryEntry) -> int {
    history_memory(e.action_label@)
}

/// Memory charged for a policy column, by its key and menu.
pub open spec fn menu_charge(m: (InfoKey, Seq<String>)) -> int {
    entry_memory(m.1)
}

proof fn lemma_sum_concat<A>(a: Seq<A>, b: Seq<A>, f: spec_fn(A) -> int)
    ensures
        seq_sum(a + b, f) == seq_sum(a, f) + seq_sum(b, f),
    decreases b.len(),
{
    if b.len() == 0 {
        assert(a + b =~= a);
    } else {
        lemma_sum_concat(a, b.drop_last(), f);
        assert((a + b).drop_last() =~= a + b.drop_last());
    }
}

proof fn lemma_sum_remove<A>(s: Seq<A>, i: int, f: spec_fn(A) -> int)
    requires
        0 <= i < s.len(),
    ensures
        seq_sum(s, f) == seq_sum(s.remove(i), f) + f(s[i]),
{
    let pre = s.subrange(0, i);
    let post = s.subrange(i + 1, s.len() as int);
    assert(s =~= pre + seq![s[i]] + post);
    assert(s.remove(i) =~= pre + post);
    lemma_sum_concat(pre + seq![s[i]], post, f);
    lemma_sum_concat(pre, seq![s[i]], f);
    lemma_sum_concat(pre, post, f);
    assert(seq![s[i]].drop_last() =~= Seq::<A>::empty());
    assert(seq_sum(seq![s[i]], f) == seq_sum(Seq::<A>::empty(), f) + f(s[i]));
    assert(seq_sum(s, f) == seq_sum(pre + seq![s[i]] + post, f));
}

/// Two duplicate-free sequences with the same elements have the same sum.
proof fn lemma_sum_same_elements<A>(a: Seq<A>, b: Seq<A>, f: spec_fn(A) -> int)
    requires
        a.no_duplicates(),
        b.no_duplicates(),
        forall|x: A| a.contains(x) <==> b.contains(x),
    ensures
        seq_sum(a, f) == seq_sum(b, f),
    decreases a.len(),
{
    if a.len() == 0 {
        if b.len() > 0 {
            assert(b.contains(b[0]));
        }
    } else {
        let x = a.last();
        assert(a.contains(x));
        let i = choose|i: int| 0 <= i < b.len() && b[i] == x;
        let a1 = a.drop_last();
        let b1 = b.remove(i);
        assert forall|y: A| a1.contains(y) <==> b1.contains(y) by {
            if a1.contains(y) {
                let k = choose|k: int| 0 <= k < a1.len() && a1[k] == y;
                assert(a[k] == y);
                assert(y != x);
                assert(b.contains(y));
                let m = choose|m: int| 0 <= m < b.len() && b[m] == y;
                assert(m != i);
                if m < i {
                    assert(b1[m] == y);
                } else {
                    assert(b1[m - 1] == y);
                }
            }
            if b1.contains(y) {
                let m = choose|m: int| 0 <= m < b1.len() && b1[m] == y;
                let mb = if m < i { m } else { m + 1 };
                assert(b[mb] == y);
                assert(mb != i);
                assert(y != x);
                assert(a.contains(y));
                let k = choose|k: int| 0 <= k < a.len() && a[k] == y;
                assert(k != a.len() - 1);
                assert(a1[k] == y);
            }
        }
        assert(a1.no_duplicates()) by {
            assert forall|p: int, q: int| 0 <= p < a1.len() && 0 <= q < a1.len() && p != q implies a1[p]
                != a1[q] by {
                assert(a[p] == a1[p] && a[q] == a1[q]);
            }
        }
        assert(b1.no_duplicates()) by {
            assert forall|p: int, q: int| 0 <= p < b1.len() && 0 <= q < b1.len() && p != q implies b1[p]
                != b1[q] by {
                let pb = if p < i { p } else { p + 1 };
                let qb = if q < i { q } else { q + 1 };
                assert(b[pb] == b1[p] && b[qb] == b1[q]);
            }
        }
        lemma_sum_same_elements(a1, b1, f);
        lemma_sum_remove(b, i, f);
    }
}

/// `ev` records the public edge `key`.
pub open spec fn records_history(ev: TraversalEvent, key: HistoryKey) -> bool {
    match ev {
        TraversalEvent::EnsureHistory(f) => f.key == key,
        _ => false,
    }
}

/// `key` is the root, a stored history, or an edge recorded by an earlier
/// event of the same delta.
pub open spec fn known_before(
    bh: Seq<HistoryEntry>,
    events: Seq<TraversalEvent>,
    j: int,
    key: HistoryKey,
) -> bool {
    key.is_root() || stored_history(bh, key) is Some || exists|k: int|
        0 <= k < j && #[trigger] records_history(events[k], key)
}

/// A menu that a fresh column may be created for: a seat in range, private
/// information the game's recall mode accepts, and a valid nonempty menu.
pub open spec fn menu_valid(key: InfoKey, labels: Seq<String>, np: nat, recall: RecallMode) -> bool {
    &&& key.player < np
    &&& private_info_verdict(key_private_info(key), np, recall) is Ok
    &&& labels_verdict(label_views(labels)) is Ok
    &&& labels.len() > 0
}

/// Event `j` of a delta describes a valid edge off a known history, or a
/// valid menu at a known history.
pub open spec fn event_sound(bh: Seq<HistoryEntry>, np: nat, recall: RecallMode, events: Seq<TraversalEvent>, j: int) -> bool {
    match events[j] {
        TraversalEvent::EnsureHistory(e) => history_entry_valid(e, np) && known_before(
            bh,
            events,
            j,
            e.parent,
        ),
        TraversalEvent::EnsurePolicy { key, action_labels } => menu_valid(key, action_labels@, np, recall)
            && known_before(bh, events, j, key.history),
        _ => true,
    }
}

/// Every event of every seat's delta is sound against the stored histories.
pub open spec fn deltas_sound(bh: Seq<HistoryEntry>, np: nat, recall: RecallMode, deltas: Seq<TraversalDelta>) -> bool {
    forall|s: int, j: int|
        0 <= s < deltas.len() && 0 <= j < deltas[s].events@.len() ==> #[trigger] event_sound(
            bh,
            np,
            recall,
            deltas[s].events@,
            j,
        )
}

/// The edges recorded by the first `n` events are known to the merge.
pub open spec fn recorded_known(
    bh: Seq<HistoryEntry>,
    st: SweepState,
    events: Seq<TraversalEvent>,
    n: int,
) -> bool {
    forall|k: int, key: HistoryKey|
        0 <= k < n && #[trigger] records_history(events[k], key) ==> staged_history(bh, st, key) is Some
}

/// The staged state accounts for itself: `hs` lists its new history entries
/// and `ps` the menus of its new columns, each once and in the order they
/// were created; the memory charge grew by exactly their charges and stays
/// within `limit`; every new entry and menu is valid; every new entry's
/// parent is the root, stored, or created before it; every new column sits
/// at a known history.
pub open spec fn stage_accounted(
    bp: Seq<crate::storage::PolicyEntry>,
    bh: Seq<HistoryEntry>,
    np: nat,
    recall: RecallMode,
    limit: u64,
    mem0: int,
    st: SweepState,
    hs: Seq<HistoryEntry>,
    ps: Seq<(InfoKey, Seq<String>)>,
) -> bool {
    &&& staged_faithful(bp, bh, st)
    &&& forall|i: int, j: int| 0 <= i < j < hs.len() ==> #[trigger] hs[i].key != #[trigger] hs[j].key
    &&& forall|i: int|
        0 <= i < hs.len() ==> st.histories.dom().contains(#[trigger] hs[i].key) && st.histories[hs[i].key]
            == hs[i]
    &&& forall|k: HistoryKey|
        #[trigger] st.histories.dom().contains(k) ==> exists|i: int| 0 <= i < hs.len() && hs[i].key == k
    &&& forall|i: int, j: int| 0 <= i < j < ps.len() ==> #[trigger] ps[i].0 != #[trigger] ps[j].0
    &&& forall|i: int|
        0 <= i < ps.len() ==> st.policies.dom().contains(#[trigger] ps[i].0) && stored_policy(
            bp,
            ps[i].0,
        ) is None && st.policies[ps[i].0].0 == ps[i].1
    &&& forall|k: InfoKey|
        #[trigger] st.policies.dom().contains(k) && stored_policy(bp, k) is None ==> exists|i: int|
            0 <= i < ps.len() && ps[i].0 == k
    &&& st.memory == mem0 + seq_sum(hs, |e: HistoryEntry| history_charge(e)) + seq_sum(
        ps,
        |m: (InfoKey, Seq<String>)| menu_charge(m),
    )
    &&& st.memory <= limit
    &&& forall|i: int| 0 <= i < hs.len() ==> history_entry_valid(#[trigger] hs[i], np)
    &&& forall|i: int|
        0 <= i < hs.len() ==> (#[trigger] hs[i]).parent.is_root() || stored_history(bh, hs[i].parent)
            is Some || exists|j: int| 0 <= j < i && hs[j].key == hs[i].parent
    &&& forall|i: int| 0 <= i < ps.len() ==> menu_valid(#[trigger] ps[i].0, ps[i].1, np, recall)
    &&& forall|i: int|
        0 <= i < ps.len() ==> (#[trigger] ps[i].0).history.is_root() || staged_history(
            bh,
            st,
            ps[i].0.history,
        ) is Some
}

proof fn lemma_sum_push<A>(s: Seq<A>, x: A, f: spec_fn(A) -> int)
    ensures
        seq_sum(s.push(x), f) == seq_sum(s, f) + f(x),
{
    assert(s.push(x).drop_last() =~= s);
}

/// One sound event keeps the staged state accounted for.
proof fn lemma_event_accounted(
    bp: Seq<crate::storage::PolicyEntry>,
    bh: Seq<HistoryEntry>,
    np: nat,
    recall: RecallMode,
    limit: u64,
    mem0: int,
    st: SweepState,
    hs: Seq<HistoryEntry>,
    ps: Seq<(InfoKey, Seq<String>)>,
    seat: nat,
    events: Seq<TraversalEvent>,
    j: int,
) -> (w: (Seq<HistoryEntry>, Seq<(InfoKey, Seq<String>)>))
    requires
        stage_accounted(bp, bh, np, recall, limit, mem0, st, hs, ps),
        0 <= j < events.len(),
        event_sound(bh, np, recall, events, j),
        recorded_known(bh, st, events, j),
        event_step(bp, bh, limit, st, seat, j as nat, events[j]) is Ok,
    ensures
        stage_accounted(
            bp,
            bh,
            np,
            recall,
            limit,
            mem0,
            event_step(bp, bh, limit, st, seat, j as nat, events[j])->Ok_0,
            w.0,
            w.1,
        ),
        recorded_known(bh, event_step(bp, bh, limit, st, seat, j as nat, events[j])->Ok_0, events, j + 1),
{
    let next = event_step(bp, bh, limit, st, seat, j as nat, events[j])->Ok_0;
    crate::merge::lemma_event_step_faithful(bp, bh, limit, st, seat, j as nat, events[j]);
    let hf = |e: HistoryEntry| history_charge(e);
    let mf = |m: (InfoKey, Seq<String>)| menu_charge(m);
    match events[j] {
        TraversalEvent::EnsurePolicy { key, action_labels } => {
            if staged_policy(bp, st, key) is Some {
                assert(next == st);
                (hs, ps)
            } else {
                let m = (key, action_labels@);
                let ps2 = ps.push(m);
                lemma_sum_push(ps, m, mf);
                assert(!st.policies.dom().contains(key));
                assert forall|i: int, k: int| 0 <= i < k < ps2.len() implies #[trigger] ps2[i].0
                    != #[trigger] ps2[k].0 by {
                    if k == ps.len() {
                        assert(st.policies.dom().contains(ps[i].0));
                    } else {
                        assert(ps2[i] == ps[i] && ps2[k] == ps[k]);
                    }
                }
                assert forall|i: int| 0 <= i < ps2.len() implies next.policies.dom().contains(
                    #[trigger] ps2[i].0,
                ) && stored_policy(bp, ps2[i].0) is None && next.policies[ps2[i].0].0 == ps2[i].1 by {
                    if i < ps.len() {
                        assert(ps2[i] == ps[i]);
                        assert(st.policies.dom().contains(ps[i].0));
                    }
                }
                assert forall|k: InfoKey| #[trigger] next.policies.dom().contains(k) && stored_policy(
                    bp,
                    k,
                ) is None implies exists|i: int| 0 <= i < ps2.len() && ps2[i].0 == k by {
                    if k == key {
                        assert(ps2[ps.len() as int].0 == k);
                    } else {
                        let i = choose|i: int| 0 <= i < ps.len() && ps[i].0 == k;
                        assert(ps2[i].0 == k);
                    }
                }
                assert forall|i: int| 0 <= i < ps2.len() implies menu_valid(
                    #[trigger] ps2[i].0,
                    ps2[i].1,
                    np, recall) by {
                    if i < ps.len() {
                        assert(ps2[i] == ps[i]);
                    }
                }
                assert(key.history.is_root() || staged_history(bh, st, key.history) is Some) by {
                    if !key.history.is_root() && stored_history(bh, key.history) is None {
                        let k = choose|k: int|
                            0 <= k < j && #[trigger] records_history(events[k], key.history);
                    }
                }
                assert forall|i: int| 0 <= i < ps2.len() implies (#[trigger] ps2[i].0).history.is_root()
                    || staged_history(bh, next, ps2[i].0.history) is Some by {
                    if i < ps.len() {
                        assert(ps2[i] == ps[i]);
                    }
                }
                (hs, ps2)
            }
        },
        TraversalEvent::EnsureHistory(entry) => {
            if staged_history(bh, st, entry.key) is Some {
                assert(next == st);
                (hs, ps)
            } else {
                let hs2 = hs.push(entry);
                lemma_sum_push(hs, entry, hf);
                assert(!st.histories.dom().contains(entry.key));
                assert forall|i: int, k: int| 0 <= i < k < hs2.len() implies #[trigger] hs2[i].key
                    != #[trigger] hs2[k].key by {
                    if k == hs.len() {
                        assert(st.histories.dom().contains(hs[i].key));
                    } else {
                        assert(hs2[i] == hs[i] && hs2[k] == hs[k]);
                    }
                }
                assert forall|i: int| 0 <= i < hs2.len() implies next.histories.dom().contains(
                    #[trigger] hs2[i].key,
                ) && next.histories[hs2[i].key] == hs2[i] by {
                    if i < hs.len() {
                        assert(hs2[i] == hs[i]);
                        assert(st.histories.dom().contains(hs[i].key));
                    }
                }
                assert forall|k: HistoryKey| #[trigger] next.histories.dom().contains(k) implies exists|
                    i: int,
                | 0 <= i < hs2.len() && hs2[i].key == k by {
                    if k == entry.key {
                        assert(hs2[hs.len() as int].key == k);
                    } else {
                        let i = choose|i: int| 0 <= i < hs.len() && hs[i].key == k;
                        assert(hs2[i].key == k);
                    }
                }
                assert forall|i: int| 0 <= i < hs2.len() implies history_entry_valid(
                    #[trigger] hs2[i],
                    np,
                ) by {
                    if i < hs.len() {
                        assert(hs2[i] == hs[i]);
                    }
                }
                assert forall|i: int| 0 <= i < hs2.len() implies (#[trigger] hs2[i]).parent.is_root()
                    || stored_history(bh, hs2[i].parent) is Some || exists|k: int|
                    0 <= k < i && hs2[k].key == hs2[i].parent by {
                    if i < hs.len() {
                        assert(hs2[i] == hs[i]);
                        if !hs[i].parent.is_root() && stored_history(bh, hs[i].parent) is None {
                            let k = choose|k: int| 0 <= k < i && hs[k].key == hs[i].parent;
                            assert(hs2[k] == hs[k]);
                        }
                    } else {
                        assert(hs2[i] == entry);
                        if !entry.parent.is_root() && stored_history(bh, entry.parent) is None {
                            let k = choose|k: int|
                                0 <= k < j && #[trigger] records_history(events[k], entry.parent);
                            assert(staged_history(bh, st, entry.parent) is Some);
                            assert(st.histories.dom().contains(entry.parent));
                            let m = choose|m: int| 0 <= m < hs.len() && hs[m].key == entry.parent;
                            assert(hs2[m] == hs[m]);
                        }
                    }
                }
                assert forall|i: int| 0 <= i < ps.len() implies (#[trigger] ps[i].0).history.is_root()
                    || staged_history(bh, next, ps[i].0.history) is Some by {
                    if !ps[i].0.history.is_root() && st.histories.dom().contains(ps[i].0.history) {
                        assert(next.histories.dom().contains(ps[i].0.history));
                    }
                }
                assert forall|k: int, key: HistoryKey|
                    0 <= k < j + 1 && #[trigger] records_history(events[k], key) implies staged_history(
                    bh,
                    next,
                    key,
                ) is Some by {
                    if k < j && st.histories.dom().contains(key) {
                        assert(next.histories.dom().contains(key));
                    }
                }
                (hs2, ps)
            }
        },
        TraversalEvent::AddRegret { key, width } => {
            assert forall|i: int| 0 <= i < ps.len() implies next.policies.dom().contains(
                #[trigger] ps[i].0,
            ) && stored_policy(bp, ps[i].0) is None && next.policies[ps[i].0].0 == ps[i].1 by {
                assert(st.policies.dom().contains(ps[i].0));
            }
            (hs, ps)
        },
        TraversalEvent::AddStrategy { key, width } => {
            assert forall|i: int| 0 <= i < ps.len() implies next.policies.dom().contains(
                #[trigger] ps[i].0,
            ) && stored_policy(bp, ps[i].0) is None && next.policies[ps[i].0].0 == ps[i].1 by {
                assert(st.policies.dom().contains(ps[i].0));
            }
            (hs, ps)
        },
    }
}

proof fn lemma_events_accounted(
    bp: Seq<crate::storage::PolicyEntry>,
    bh: Seq<HistoryEntry>,
    np: nat,
    recall: RecallMode,
    limit: u64,
    mem0: int,
    st: SweepState,
    hs: Seq<HistoryEntry>,
    ps: Seq<(InfoKey, Seq<String>)>,
    seat: nat,
    events: Seq<TraversalEvent>,
    n: nat,
) -> (w: (Seq<HistoryEntry>, Seq<(InfoKey, Seq<String>)>))
    requires
        stage_accounted(bp, bh, np, recall, limit, mem0, st, hs, ps),
        n <= events.len(),
        forall|j: int| 0 <= j < events.len() ==> #[trigger] event_sound(bh, np, recall, events, j),
    ensures
        events_fold(bp, bh, limit, st, seat, events, n).1 is None ==> stage_accounted(
            bp,
            bh,
            np,
            recall,
            limit,
            mem0,
            events_fold(bp, bh, limit, st, seat, events, n).0,
            w.0,
            w.1,
        ) && recorded_known(bh, events_fold(bp, bh, limit, st, seat, events, n).0, events, n as int),
    decreases n,
{
    if n == 0 {
        (hs, ps)
    } else {
        let w1 = lemma_events_accounted(bp, bh, np, recall, limit, mem0, st, hs, ps, seat, events, (n - 1) as nat);
        let prev = events_fold(bp, bh, limit, st, seat, events, (n - 1) as nat);
        if prev.1 is None && event_step(bp, bh, limit, prev.0, seat, (n - 1) as nat, events[n - 1]) is Ok {
            assert(event_sound(bh, np, recall, events, n - 1));
            lemma_event_accounted(bp, bh, np, recall, limit, mem0, prev.0, w1.0, w1.1, seat, events, n - 1)
        } else {
            w1
        }
    }
}

proof fn lemma_seats_accounted(
    bp: Seq<crate::storage::PolicyEntry>,
    bh: Seq<HistoryEntry>,
    np: nat,
    recall: RecallMode,
    limit: u64,
    mem0: int,
    next_sample_id: u64,
    st: SweepState,
    hs: Seq<HistoryEntry>,
    ps: Seq<(InfoKey, Seq<String>)>,
    deltas: Seq<TraversalDelta>,
    n: nat,
) -> (w: (Seq<HistoryEntry>, Seq<(InfoKey, Seq<String>)>))
    requires
        stage_accounted(bp, bh, np, recall, limit, mem0, st, hs, ps),
        n <= deltas.len(),
        deltas_sound(bh, np, recall, deltas),
    ensures
        seats_fold(bp, bh, limit, next_sample_id, st, deltas, n).1 is None ==> stage_accounted(
            bp,
            bh,
            np,
            recall,
            limit,
            mem0,
            seats_fold(bp, bh, limit, next_sample_id, st, deltas, n).0,
            w.0,
            w.1,
        ),
    decreases n,
{
    if n == 0 {
        (hs, ps)
    } else {
        let w1 = lemma_seats_accounted(
            bp,
            bh,
            np,
            recall,
            limit,
            mem0,
            next_sample_id,
            st,
            hs,
            ps,
            deltas,
            (n - 1) as nat,
        );
        let prev = seats_fold(bp, bh, limit, next_sample_id, st, deltas, (n - 1) as nat);
        if prev.1 is None {
            match seat_header(next_sample_id, prev.0, (n - 1) as nat, deltas[n - 1]) {
                Err(e) => w1,
                Ok(h) => {
                    assert(h.policies == prev.0.policies && h.histories == prev.0.histories
                        && h.memory == prev.0.memory);
                    assert(staged_faithful(bp, bh, h));
                    assert forall|i: int| 0 <= i < w1.1.len() implies (#[trigger] w1.1[i].0).history.is_root()
                        || staged_history(bh, h, w1.1[i].0.history) is Some by {
                        assert(staged_history(bh, h, w1.1[i].0.history) == staged_history(
                            bh,
                            prev.0,
                            w1.1[i].0.history,
                        ));
                    }
                    assert(stage_accounted(bp, bh, np, recall, limit, mem0, h, w1.0, w1.1));
                    let events = deltas[n - 1].events@;
                    assert forall|j: int| 0 <= j < events.len() implies #[trigger] event_sound(
                        bh,
                        np,
                        recall,
                        events,
                        j,
                    ) by {
                        assert(event_sound(bh, np, recall, deltas[n - 1].events@, j));
                    }
                    lemma_events_accounted(
                        bp,
                        bh,
                        np,
                        recall,
                        limit,
                        mem0,
                        h,
                        w1.0,
                        w1.1,
                        (n - 1) as nat,
                        events,
                        events.len(),
                    )
                },
            }
        } else {
            w1
        }
    }
}

/// A sweep whose deltas are sound, merged from a store charged `memory`
/// within `limit`, stages only what it accounts for: witnesses `hs` (new
/// history entries) and `ps` (menus of new columns) exist as in
/// `stage_accounted` whenever the merge rejects nothing.
pub proof fn lemma_sweep_accounted(
    bp: Seq<crate::storage::PolicyEntry>,
    bh: Seq<HistoryEntry>,
    limit: u64,
    np: nat,
    recall: RecallMode,
    counters: (u64, u64, u64, u64, u64, u64),
    memory: u64,
    deltas: Seq<TraversalDelta>,
) -> (w: (Seq<HistoryEntry>, Seq<(InfoKey, Seq<String>)>))
    requires
        memory <= limit,
        deltas_sound(bh, np, recall, deltas),
    ensures
        sweep_outcome(bp, bh, limit, np, counters, memory, deltas).1 is None ==> stage_accounted(
            bp,
            bh,
            np,
            recall,
            limit,
            memory as int,
            sweep_outcome(bp, bh, limit, np, counters, memory, deltas).0,
            w.0,
            w.1,
        ),
{
    let start = sweep_start(counters, memory);
    let hs = Seq::<HistoryEntry>::empty();
    let ps = Seq::<(InfoKey, Seq<String>)>::empty();
    assert(staged_faithful(bp, bh, start));
    assert(seq_sum(hs, |e: HistoryEntry| history_charge(e)) == 0);
    assert(seq_sum(ps, |m: (InfoKey, Seq<String>)| menu_charge(m)) == 0);
    assert(stage_accounted(bp, bh, np, recall, limit, memory as int, start, hs, ps));
    if deltas.len() == np {
        lemma_seats_accounted(bp, bh, np, recall, limit, memory as int, counters.2, start, hs, ps, deltas, deltas.len())
    } else {
        (hs, ps)
    }
}

/// Each column's key with its menu.
pub open spec fn menus(p: Seq<crate::storage::PolicyEntry>) -> Seq<(InfoKey, Seq<String>)> {
    p.map_values(|e: crate::storage::PolicyEntry| (e.key, e.column.action_labels@))
}

proof fn lemma_history_charges_sum(h: Seq<HistoryEntry>, n: nat)
    requires
        n <= h.len(),
    ensures
        history_charges(h, n) == seq_sum(h.subrange(0, n as int), |e: HistoryEntry| history_charge(e)),
    decreases n,
{
    if n > 0 {
        lemma_history_charges_sum(h, (n - 1) as nat);
        assert(h.subrange(0, n as int).drop_last() =~= h.subrange(0, n - 1));
    } else {
        assert(h.subrange(0, 0) =~= Seq::<HistoryEntry>::empty());
    }
}

proof fn lemma_policy_charges_sum(p: Seq<crate::storage::PolicyEntry>, n: nat)
    requires
        n <= p.len(),
    ensures
        policy_charges(p, n) == seq_sum(menus(p).subrange(0, n as int), |m: (InfoKey, Seq<String>)| menu_charge(m)),
    decreases n,
{
    if n > 0 {
        lemma_policy_charges_sum(p, (n - 1) as nat);
        assert(menus(p).subrange(0, n as int).drop_last() =~= menus(p).subrange(0, n - 1));
    } else {
        assert(menus(p).subrange(0, 0) =~= Seq::<(InfoKey, Seq<String>)>::empty());
    }
}

proof fn lemma_history_member(h: Seq<HistoryEntry>, x: HistoryEntry)
    requires
        history_keys_unique(h),
    ensures
        h.contains(x) <==> stored_history(h, x.key) == Some(x),
{
    lemma_stored_history_at(h, x.key);
    if stored_history(h, x.key) == Some(x) {
        let i = choose|i: int| 0 <= i < h.len() && #[trigger] h[i].key == x.key;
        assert(h[i] == x);
    }
}

proof fn lemma_menu_member(p: Seq<crate::storage::PolicyEntry>, x: (InfoKey, Seq<String>))
    requires
        policy_keys_unique(p),
    ensures
        menus(p).contains(x) <==> (stored_policy(p, x.0) is Some && stored_policy(p, x.0)->Some_0.0
            == x.1),
{
    lemma_stored_policy_at(p, x.0);
    if menus(p).contains(x) {
        let i = choose|i: int| 0 <= i < menus(p).len() && menus(p)[i] == x;
        assert(p[i].key == x.0);
    }
    if stored_policy(p, x.0) is Some && stored_policy(p, x.0)->Some_0.0 == x.1 {
        let i = choose|i: int| 0 <= i < p.len() && #[trigger] p[i].key == x.0;
        assert(menus(p)[i] == x);
    }
}

/// `plan` commits the staged state `st`: exactly its new history entries,
/// a column under each staged key with the staged menu (the caller may have
/// replaced the values), and its memory charge.
pub open spec fn plan_carries(plan: SweepPlan, st: SweepState) -> bool {
    &&& forall|k: HistoryKey| #[trigger]
        stored_history(plan.spec_histories(), k) == map_lookup(st.histories, k)
    &&& forall|k: InfoKey| #[trigger]
        stored_policy(plan.spec_policies(), k) is Some <==> st.policies.dom().contains(k)
    &&& forall|k: InfoKey|
        st.policies.dom().contains(k) ==> (#[trigger] stored_policy(plan.spec_policies(), k))->Some_0.0
            == st.policies[k].0
    &&& plan.spec_memory() == st.memory
}

/// Every column of `plan` holds finite values and non-negative strategy sums.
pub open spec fn plan_values_valid(plan: SweepPlan) -> bool {
    forall|i: int|
        0 <= i < plan.spec_policies().len() ==> {
            let c = (#[trigger] plan.spec_policies()[i]).column;
            &&& all_finite(c.regrets@)
            &&& all_finite(c.strategy_sum@)
            &&& none_negative(c.strategy_sum@)
        }
}

/// `s1` is `s0` after committing `plan`, as `MultiwaySolver::commit_sweep`
/// states it.
pub open spec fn committed(s0: MultiwaySolver, plan: SweepPlan, s1: MultiwaySolver) -> bool {
    &&& s1.wf()
    &&& forall|k: InfoKey| #[trigger]
        stored_policy(s1.spec_policies(), k) == overlay(
            stored_policy(plan.spec_policies(), k),
            stored_policy(s0.spec_policies(), k),
        )
    &&& forall|k: HistoryKey| #[trigger]
        stored_history(s1.spec_histories(), k) == overlay(
            stored_history(plan.spec_histories(), k),
            stored_history(s0.spec_histories(), k),
        )
    &&& s1.spec_memory() == plan.spec_memory()
    &&& s1.spec_counters() == plan.spec_counters()
    &&& s1.spec_config() == s0.spec_config()
    &&& s1.spec_num_players() == s0.spec_num_players()
    &&& s1.spec_recall() == s0.spec_recall()
}

/// The merge of `deltas` against `s0`.
pub open spec fn merged(s0: MultiwaySolver, deltas: Seq<TraversalDelta>) -> (SweepState, Option<SolverError>) {
    sweep_outcome(
        s0.spec_policies(),
        s0.spec_histories(),
        s0.spec_config().max_memory_bytes,
        s0.spec_num_players(),
        s0.spec_counters(),
        s0.spec_memory(),
        deltas,
    )
}

spec fn sweep_context(
    s0: MultiwaySolver,
    sampler_players: nat,
    deltas: Seq<TraversalDelta>,
    plan: SweepPlan,
    s1: MultiwaySolver,
    hs: Seq<HistoryEntry>,
    ps: Seq<(InfoKey, Seq<String>)>,
) -> bool {
    &&& s0.wf()
    &&& resumable(s0, sampler_players)
    &&& merged(s0, deltas).1 is None
    &&& plan_carries(plan, merged(s0, deltas).0)
    &&& plan.wf()
    &&& plan_values_valid(plan)
    &&& committed(s0, plan, s1)
    &&& stage_accounted(
        s0.spec_policies(),
        s0.spec_histories(),
        s0.spec_num_players(),
        s0.spec_recall(),
        s0.spec_config().max_memory_bytes,
        s0.spec_memory() as int,
        merged(s0, deltas).0,
        hs,
        ps,
    )
}

proof fn lemma_committed_histories(
    s0: MultiwaySolver,
    sampler_players: nat,
    deltas: Seq<TraversalDelta>,
    plan: SweepPlan,
    s1: MultiwaySolver,
    hs: Seq<HistoryEntry>,
    ps: Seq<(InfoKey, Seq<String>)>,
)
    requires
        sweep_context(s0, sampler_players, deltas, plan, s1, hs, ps),
    ensures
        forall|i: int|
            0 <= i < s1.spec_histories().len() ==> history_entry_valid(
                #[trigger] s1.spec_histories()[i],
                s1.spec_num_players(),
            ),
        exists|order: Seq<HistoryKey>| ranked_histories(s1.spec_histories(), order),
        forall|x: HistoryEntry| s1.spec_histories().contains(x) <==> (s0.spec_histories() + hs).contains(x),
        (s0.spec_histories() + hs).no_duplicates(),
        s1.spec_histories().no_duplicates(),
{
    let st = merged(s0, deltas).0;
    let h0 = s0.spec_histories();
    let h1 = s1.spec_histories();
    let np = s0.spec_num_players();
    lemma_wf_facts(s0);
    lemma_wf_facts(s1);
    lemma_sorted_histories_unique(h0);
    lemma_sorted_histories_unique(h1);
    assert forall|k: HistoryKey| #[trigger] stored_history(h1, k) == if st.histories.dom().contains(k) {
        Some(st.histories[k])
    } else {
        stored_history(h0, k)
    } by {
        assert(stored_history(plan.spec_histories(), k) == map_lookup(st.histories, k));
    }
    // Entries of the new store are old entries or staged ones.
    assert forall|x: HistoryEntry| h1.contains(x) <==> (h0 + hs).contains(x) by {
        lemma_history_member(h1, x);
        lemma_history_member(h0, x);
        if st.histories.dom().contains(x.key) {
            let m = choose|m: int| 0 <= m < hs.len() && hs[m].key == x.key;
            assert(st.histories[hs[m].key] == hs[m]);
            assert(stored_history(h0, x.key) is None);
            if h1.contains(x) {
                assert(stored_history(h1, x.key) == Some(st.histories[x.key]));
                assert(hs[m] == x);
                assert((h0 + hs)[h0.len() + m] == x);
            }
            if (h0 + hs).contains(x) {
                let q = choose|q: int| 0 <= q < (h0 + hs).len() && (h0 + hs)[q] == x;
                if q < h0.len() {
                    assert(h0[q] == x);
                    assert(h0.contains(x));
                } else {
                    let r = q - h0.len();
                    assert(hs[r] == x);
                    if r != m {
                        if r < m {
                            assert(hs[r].key != hs[m].key);
                        } else {
                            assert(hs[m].key != hs[r].key);
                        }
                    }
                }
            }
        } else {
            assert(stored_history(h1, x.key) == stored_history(h0, x.key));
            if h1.contains(x) {
                assert(h0.contains(x));
                let i = choose|i: int| 0 <= i < h0.len() && h0[i] == x;
                assert((h0 + hs)[i] == x);
            }
            if (h0 + hs).contains(x) {
                let q = choose|q: int| 0 <= q < (h0 + hs).len() && (h0 + hs)[q] == x;
                if q >= h0.len() {
                    assert(hs[q - h0.len()] == x);
                    assert(st.histories.dom().contains(hs[q - h0.len()].key));
                } else {
                    assert(h0[q] == x);
                    assert(h0.contains(x));
                }
            }
        }
    }
    assert((h0 + hs).no_duplicates()) by {
        assert forall|a: int, b: int| 0 <= a < (h0 + hs).len() && 0 <= b < (h0 + hs).len() && a != b implies (
        h0 + hs)[a] != (h0 + hs)[b] by {
            let u = h0 + hs;
            if a < h0.len() && b < h0.len() {
                if a < b {
                    assert(h0[a].key != h0[b].key);
                } else {
                    assert(h0[b].key != h0[a].key);
                }
            } else if a >= h0.len() && b >= h0.len() {
                let ra = a - h0.len();
                let rb = b - h0.len();
                if ra < rb {
                    assert(hs[ra].key != hs[rb].key);
                } else {
                    assert(hs[rb].key != hs[ra].key);
                }
            } else {
                let (i, r) = if a < h0.len() { (a, b - h0.len()) } else { (b, a - h0.len()) };
                assert(st.histories.dom().contains(hs[r].key));
                assert(stored_history(h0, hs[r].key) is None);
                lemma_stored_history_at(h0, h0[i].key);
                assert(h0[i].key != hs[r].key);
            }
        }
    }
    assert(h1.no_duplicates()) by {
        assert forall|a: int, b: int| 0 <= a < h1.len() && 0 <= b < h1.len() && a != b implies h1[a]
            != h1[b] by {
            if a < b {
                assert(h1[a].key != h1[b].key);
            } else {
                assert(h1[b].key != h1[a].key);
            }
        }
    }
    assert forall|i: int| 0 <= i < h1.len() implies history_entry_valid(#[trigger] h1[i], np) by {
        assert(h1.contains(h1[i]));
        let q = choose|q: int| 0 <= q < (h0 + hs).len() && (h0 + hs)[q] == h1[i];
        if q < h0.len() {
            assert(h0[q] == h1[i]);
        } else {
            assert(hs[q - h0.len()] == h1[i]);
        }
    }
    // Ranks: the old order, then the new entries in creation order.
    let order0 = choose|order: Seq<HistoryKey>| ranked_histories(h0, order);
    let fresh = hs.map_values(|e: HistoryEntry| e.key);
    let order1 = order0 + fresh;
    assert forall|a: int| 0 <= a < order0.len() implies stored_history(h0, #[trigger] order0[a]) is Some by {
        assert(parent_ranked_before(h0, order0, a));
    }
    assert forall|a: int, b: int| 0 <= a < order1.len() && 0 <= b < order1.len() && a != b implies order1[a]
        != order1[b] by {
        if a < order0.len() && b < order0.len() {
        } else if a >= order0.len() && b >= order0.len() {
            let ra = a - order0.len();
            let rb = b - order0.len();
            if ra < rb {
                assert(hs[ra].key != hs[rb].key);
            } else {
                assert(hs[rb].key != hs[ra].key);
            }
        } else {
            let (i, r) = if a < order0.len() { (a, b - order0.len()) } else { (b, a - order0.len()) };
            assert(st.histories.dom().contains(hs[r].key));
            assert(stored_history(h0, order0[i]) is Some);
            assert(order1[order0.len() + r] == hs[r].key);
        }
    }
    assert forall|a: int| 0 <= a < order1.len() implies #[trigger] parent_ranked_before(h1, order1, a) by {
        if a < order0.len() {
            assert(parent_ranked_before(h0, order0, a));
            let k = order0[a];
            assert(stored_history(h0, k) is Some);
            assert(!st.histories.dom().contains(k));
            assert(stored_history(h1, k) == stored_history(h0, k));
            let e = stored_history(h0, k)->Some_0;
            if !e.parent.is_root() {
                let b = choose|b: int| 0 <= b < a && order0[b] == e.parent;
                assert(order1[b] == e.parent);
            }
        } else {
            let m = a - order0.len();
            let k = hs[m].key;
            assert(order1[a] == k);
            assert(st.histories.dom().contains(k));
            assert(stored_history(h1, k) == Some(hs[m]));
            let e = hs[m];
            if !e.parent.is_root() {
                if stored_history(h0, e.parent) is Some {
                    lemma_stored_history_at(h0, e.parent);
                    let i = choose|i: int| 0 <= i < h0.len() && #[trigger] h0[i].key == e.parent;
                    assert(order0.contains(h0[i].key));
                    let b = choose|b: int| 0 <= b < order0.len() && order0[b] == h0[i].key;
                    assert(order1[b] == e.parent);
                } else {
                    let j = choose|j: int| 0 <= j < m && hs[j].key == e.parent;
                    assert(order1[order0.len() + j] == e.parent);
                }
            }
        }
    }
    assert forall|i: int| 0 <= i < h1.len() implies order1.contains(#[trigger] h1[i].key) by {
        let k = h1[i].key;
        if st.histories.dom().contains(k) {
            let m = choose|m: int| 0 <= m < hs.len() && hs[m].key == k;
            assert(order1[order0.len() + m] == k);
        } else {
            lemma_stored_history_at(h1, k);
            assert(stored_history(h1, k) is Some);
            assert(stored_history(h0, k) is Some);
            lemma_stored_history_at(h0, k);
            let j = choose|j: int| 0 <= j < h0.len() && #[trigger] h0[j].key == k;
            assert(order0.contains(h0[j].key));
            let b = choose|b: int| 0 <= b < order0.len() && order0[b] == k;
            assert(order1[b] == k);
        }
    }
    assert(ranked_histories(h1, order1));
}

proof fn lemma_concat_contains<A>(a: Seq<A>, b: Seq<A>, x: A)
    ensures
        (a + b).contains(x) <==> a.contains(x) || b.contains(x),
{
    if (a + b).contains(x) {
        let q = choose|q: int| 0 <= q < (a + b).len() && (a + b)[q] == x;
        if q < a.len() {
            assert(a[q] == x);
        } else {
            assert(b[q - a.len()] == x);
        }
    }
    if a.contains(x) {
        let q = choose|q: int| 0 <= q < a.len() && a[q] == x;
        assert((a + b)[q] == x);
    }
    if b.contains(x) {
        let q = choose|q: int| 0 <= q < b.len() && b[q] == x;
        assert((a + b)[a.len() + q] == x);
    }
}

proof fn lemma_committed_policies(
    s0: MultiwaySolver,
    sampler_players: nat,
    deltas: Seq<TraversalDelta>,
    plan: SweepPlan,
    s1: MultiwaySolver,
    hs: Seq<HistoryEntry>,
    ps: Seq<(InfoKey, Seq<String>)>,
)
    requires
        sweep_context(s0, sampler_players, deltas, plan, s1, hs, ps),
    ensures
        forall|i: int|
            0 <= i < s1.spec_policies().len() ==> column_verdict(
                #[trigger] s1.spec_policies()[i].key,
                s1.spec_policies()[i].column,
                s1.spec_num_players(),
                s1.spec_recall(),
            ) is Ok,
        forall|i: int|
            0 <= i < s1.spec_policies().len() ==> (#[trigger] s1.spec_policies()[i].key).history.is_root()
                || has_history(s1.spec_histories(), s1.spec_policies()[i].key.history),
        forall|x: (InfoKey, Seq<String>)|
            menus(s1.spec_policies()).contains(x) <==> (menus(s0.spec_policies()) + ps).contains(x),
        (menus(s0.spec_policies()) + ps).no_duplicates(),
        menus(s1.spec_policies()).no_duplicates(),
{
    let st = merged(s0, deltas).0;
    let h0 = s0.spec_histories();
    let h1 = s1.spec_histories();
    let p0 = s0.spec_policies();
    let p1 = s1.spec_policies();
    let pp = plan.spec_policies();
    let np = s0.spec_num_players();
    let recall = s0.spec_recall();
    lemma_wf_facts(s0);
    lemma_wf_facts(s1);
    lemma_sorted_histories_unique(h0);
    lemma_sorted_histories_unique(h1);
    lemma_sorted_policies_unique(p0);
    lemma_sorted_policies_unique(p1);
    lemma_sorted_policies_unique(pp);
    assert forall|k: HistoryKey| stored_history(h0, k) is Some || st.histories.dom().contains(k) implies has_history(
        h1,
        k,
    ) by {
        assert(stored_history(plan.spec_histories(), k) == map_lookup(st.histories, k));
        assert(stored_history(h1, k) is Some);
        lemma_stored_history_at(h1, k);
    }
    assert forall|k: InfoKey| #[trigger] stored_policy(p0, k) is Some implies has_history(h0, k.history)
        || k.history.is_root() by {
        lemma_stored_policy_at(p0, k);
        let j = choose|j: int| 0 <= j < p0.len() && #[trigger] p0[j].key == k;
        assert(p0[j].key.history.is_root() || has_history(h0, p0[j].key.history));
    }
    assert forall|i: int| 0 <= i < p1.len() implies column_verdict(
        #[trigger] p1[i].key,
        p1[i].column,
        np,
        recall,
    ) is Ok && ((p1[i].key).history.is_root() || has_history(h1, p1[i].key.history)) by {
        let k = p1[i].key;
        lemma_stored_policy_at(p1, k);
        lemma_stored_policy_at(p0, k);
        lemma_stored_policy_at(pp, k);
        assert(stored_policy(p1, k) == Some(p1[i].column@));
        if st.policies.dom().contains(k) {
            let q = choose|q: int| 0 <= q < pp.len() && #[trigger] pp[q].key == k;
            assert(stored_policy(pp, k) == Some(pp[q].column@));
            assert(pp[q].column@ == p1[i].column@);
            assert(plan_values_valid(plan) ==> all_finite(pp[q].column.regrets@));
            assert(crate::store::column_widths_agree(pp[q].column));
            assert(pp[q].column@.0 == st.policies[k].0);
            if stored_policy(p0, k) is Some {
                let j = choose|j: int| 0 <= j < p0.len() && #[trigger] p0[j].key == k;
                assert(st.policies[k] == p0[j].column@);
                assert(column_verdict(p0[j].key, p0[j].column, np, recall) is Ok);
                assert(has_history(h0, k.history) || k.history.is_root());
                if !k.history.is_root() {
                    lemma_stored_history_at(h0, k.history);
                }
            } else {
                let m = choose|m: int| 0 <= m < ps.len() && ps[m].0 == k;
                assert(menu_valid(ps[m].0, ps[m].1, np, recall));
                assert(st.policies[ps[m].0].0 == ps[m].1);
                assert(ps[m].0.history.is_root() || staged_history(h0, st, ps[m].0.history) is Some);
            }
        } else {
            assert(stored_policy(pp, k) is None);
            let j = choose|j: int| 0 <= j < p0.len() && #[trigger] p0[j].key == k;
            assert(p0[j].column@ == p1[i].column@);
            assert(column_verdict(p0[j].key, p0[j].column, np, recall) is Ok);
            if !k.history.is_root() {
                lemma_stored_history_at(h0, k.history);
            }
        }
    }
    let m0 = menus(p0);
    let m1 = menus(p1);
    assert forall|x: (InfoKey, Seq<String>)| m1.contains(x) <==> (m0 + ps).contains(x) by {
        lemma_menu_member(p1, x);
        lemma_menu_member(p0, x);
        lemma_concat_contains(m0, ps, x);
        let k = x.0;
        assert(stored_policy(p1, k) == overlay(stored_policy(pp, k), stored_policy(p0, k)));
        if st.policies.dom().contains(k) {
            assert(stored_policy(pp, k)->Some_0.0 == st.policies[k].0);
            if stored_policy(p0, k) is Some {
                assert(st.policies[k] == stored_policy(p0, k)->Some_0);
                if ps.contains(x) {
                    let m = choose|m: int| 0 <= m < ps.len() && ps[m] == x;
                    assert(stored_policy(p0, ps[m].0) is None);
                }
            } else {
                let m = choose|m: int| 0 <= m < ps.len() && ps[m].0 == k;
                assert(st.policies[ps[m].0].0 == ps[m].1);
                if m1.contains(x) {
                    assert(ps[m] == x);
                }
                if ps.contains(x) {
                    let r = choose|r: int| 0 <= r < ps.len() && ps[r] == x;
                    if r != m {
                        if r < m {
                            assert(ps[r].0 != ps[m].0);
                        } else {
                            assert(ps[m].0 != ps[r].0);
                        }
                    }
                }
            }
        } else {
            assert(stored_policy(pp, k) is None);
            if ps.contains(x) {
                let m = choose|m: int| 0 <= m < ps.len() && ps[m] == x;
                assert(st.policies.dom().contains(ps[m].0));
            }
        }
    }
    assert((m0 + ps).no_duplicates()) by {
        assert forall|a: int, b: int| 0 <= a < (m0 + ps).len() && 0 <= b < (m0 + ps).len() && a != b implies (
        m0 + ps)[a] != (m0 + ps)[b] by {
            if a < m0.len() && b < m0.len() {
                if a < b {
                    assert(p0[a].key != p0[b].key);
                } else {
                    assert(p0[b].key != p0[a].key);
                }
            } else if a >= m0.len() && b >= m0.len() {
                let ra = a - m0.len();
                let rb = b - m0.len();
                if ra < rb {
                    assert(ps[ra].0 != ps[rb].0);
                } else {
                    assert(ps[rb].0 != ps[ra].0);
                }
            } else {
                let (i, r) = if a < m0.len() { (a, b - m0.len()) } else { (b, a - m0.len()) };
                assert(stored_policy(p0, ps[r].0) is None);
                lemma_stored_policy_at(p0, p0[i].key);
                assert(m0[i].0 == p0[i].key);
            }
        }
    }
    assert(m1.no_duplicates()) by {
        assert forall|a: int, b: int| 0 <= a < m1.len() && 0 <= b < m1.len() && a != b implies m1[a]
            != m1[b] by {
            if a < b {
                assert(p1[a].key != p1[b].key);
            } else {
                assert(p1[b].key != p1[a].key);
            }
        }
    }
}

/// Committing a merged sweep keeps a store resumable.  If `s0` meets
/// `resumable`, every event of `deltas` describes a valid edge or menu off a
/// known history, the merge rejects nothing, and `s1` is `s0` after
/// committing a plan that carries the merge's staged state and counters,
/// with finite values and non-negative strategy sums, then `s1` meets
/// `resumable` as well.
pub proof fn law_sweep_keeps_resumable(
    s0: MultiwaySolver,
    sampler_players: nat,
    deltas: Seq<TraversalDelta>,
    plan: SweepPlan,
    s1: MultiwaySolver,
)
    requires
        s0.wf(),
        resumable(s0, sampler_players),
        deltas_sound(s0.spec_histories(), s0.spec_num_players(), s0.spec_recall(), deltas),
        merged(s0, deltas).1 is None,
        plan_carries(plan, merged(s0, deltas).0),
        ({
            let c = swept_counters(s0.spec_counters(), s0.spec_num_players(), merged(s0, deltas).0);
            &&& plan.spec_counters().0 == c.0
            &&& plan.spec_counters().1 == c.1
            &&& plan.spec_counters().2 == c.2
        }),
        plan.wf(),
        plan_values_valid(plan),
        committed(s0, plan, s1),
    ensures
        resumable(s1, sampler_players),
{
    let np = s0.spec_num_players();
    let h0 = s0.spec_histories();
    let p0 = s0.spec_policies();
    let h1 = s1.spec_histories();
    let p1 = s1.spec_policies();
    let st = merged(s0, deltas).0;
    lemma_wf_facts(s0);
    let w = lemma_sweep_accounted(
        p0,
        h0,
        s0.spec_config().max_memory_bytes,
        np,
        s0.spec_recall(),
        s0.spec_counters(),
        s0.spec_memory(),
        deltas,
    );
    let hs = w.0;
    let ps = w.1;
    assert(sweep_context(s0, sampler_players, deltas, plan, s1, hs, ps));
    lemma_committed_histories(s0, sampler_players, deltas, plan, s1, hs, ps);
    lemma_committed_policies(s0, sampler_players, deltas, plan, s1, hs, ps);
    crate::merge::law_sweep_keeps_counters_resumable(s0.spec_counters(), np, st);
    let hf = |e: HistoryEntry| history_charge(e);
    let mf = |m: (InfoKey, Seq<String>)| menu_charge(m);
    lemma_history_charges_sum(h0, h0.len());
    lemma_history_charges_sum(h1, h1.len());
    lemma_policy_charges_sum(p0, p0.len());
    lemma_policy_charges_sum(p1, p1.len());
    assert(h0.subrange(0, h0.len() as int) =~= h0);
    assert(h1.subrange(0, h1.len() as int) =~= h1);
    assert(menus(p0).subrange(0, p0.len() as int) =~= menus(p0));
    assert(menus(p1).subrange(0, p1.len() as int) =~= menus(p1));
    lemma_sum_same_elements(h1, h0 + hs, hf);
    lemma_sum_concat(h0, hs, hf);
    lemma_sum_same_elements(menus(p1), menus(p0) + ps, mf);
    lemma_sum_concat(menus(p0), ps, mf);
    assert(history_charges(h1, h1.len()) + policy_charges(p1, p1.len()) == s1.spec_memory());
}

/// A plan staged without rejection carries the staged state it holds.
pub proof fn lemma_staged_plan_carries(plan: SweepPlan, st: SweepState, c: (int, int, int, int, int, int))
    requires
        plan.holds(st, None, c),
    ensures
        plan_carries(plan, st),
        plan.spec_counters().0 == c.0,
        plan.spec_counters().1 == c.1,
        plan.spec_counters().2 == c.2,
{
    assert forall|k: InfoKey| #[trigger] stored_policy(plan.spec_policies(), k) is Some
        <==> st.policies.dom().contains(k) by {
        assert(stored_policy(plan.spec_policies(), k) == map_lookup(st.policies, k));
    }
    assert forall|k: InfoKey| st.policies.dom().contains(k) implies (#[trigger] stored_policy(
        plan.spec_policies(),
        k,
    ))->Some_0.0 == st.policies[k].0 by {
        assert(stored_policy(plan.spec_policies(), k) == map_lookup(st.policies, k));
    }
}

} // verus!
