//! Sparse solver storage: the visited public-history trie,
//! the lazily created policy columns and the run counters, kept in vectors
//! sorted by key.
use vstd::prelude::*;

use crate::config::{configs_resumable, resume_configs_match, setup_verdict, validate_setup, SolverConfig};
use crate::errors::SolverError;
use crate::keys::{
    history_entry_valid, is_root_key, same_history, same_info_key, validate_history_entry,
    HistoryEntry, HistoryKey, InfoKey,
};
use crate::storage::{
    column_verdict, entry_memory, entry_memory_bytes, history_memory, history_memory_bytes,
    validate_column,
};
use crate::types::{RecallMode, SOLVER_STATE_VERSION};
use crate::order::{
    history_less, history_lt, info_less, info_lt, lemma_history_total, lemma_info_total,
    lemma_lex_asymmetric, lemma_lex_irreflexive, lemma_lex_transitive,
};
use crate::storage::{PolicyColumn, PolicyEntry};
use crate::merge::{sweep_outcome, swept_counters, SweepPlan, TraversalDelta};

verus! {

/// History entries appear in strictly increasing key order (so each key
/// occurs once).
pub open spec fn histories_sorted(s: Seq<HistoryEntry>) -> bool {
    forall|i: int, j: int| 0 <= i < j < s.len() ==> history_lt(#[trigger] s[i].key, #[trigger] s[j].key)
}

/// Policy entries appear in strictly increasing key order (so each key
/// occurs once).
pub open spec fn policies_sorted(s: Seq<PolicyEntry>) -> bool {
    forall|i: int, j: int| 0 <= i < j < s.len() ==> info_lt(#[trigger] s[i].key, #[trigger] s[j].key)
}

/// Some entry is stored under `key`.
pub open spec fn has_history(s: Seq<HistoryEntry>, key: HistoryKey) -> bool {
    exists|i: int| 0 <= i < s.len() && #[trigger] s[i].key == key
}

/// Some policy is stored under `key`.
pub open spec fn has_policy(s: Seq<PolicyEntry>, key: InfoKey) -> bool {
    exists|i: int| 0 <= i < s.len() && #[trigger] s[i].key == key
}

/// The entry stored under `key`, if any.
pub open spec fn stored_history(s: Seq<HistoryEntry>, key: HistoryKey) -> Option<HistoryEntry>
    decreases s.len(),
{
    if s.len() == 0 {
        None
    } else if s[0].key == key {
        Some(s[0])
    } else {
        stored_history(s.drop_first(), key)
    }
}

/// The column stored under `key`, if any.
pub open spec fn stored_policy(s: Seq<PolicyEntry>, key: InfoKey) -> Option<
    (Seq<String>, Seq<u32>, Seq<u32>),
>
    decreases s.len(),
{
    if s.len() == 0 {
        None
    } else if s[0].key == key {
        Some(s[0].column@)
    } else {
        stored_policy(s.drop_first(), key)
    }
}

/// No two history entries share a key.
pub open spec fn history_keys_unique(s: Seq<HistoryEntry>) -> bool {
    forall|i: int, j: int| 0 <= i < j < s.len() ==> #[trigger] s[i].key != #[trigger] s[j].key
}

/// No two policy entries share a key.
pub open spec fn policy_keys_unique(s: Seq<PolicyEntry>) -> bool {
    forall|i: int, j: int| 0 <= i < j < s.len() ==> #[trigger] s[i].key != #[trigger] s[j].key
}

/// Sorted history entries have unique keys.
pub proof fn lemma_sorted_histories_unique(s: Seq<HistoryEntry>)
    requires
        histories_sorted(s),
    ensures
        history_keys_unique(s),
{
    assert forall|i: int, j: int| 0 <= i < j < s.len() implies #[trigger] s[i].key
        != #[trigger] s[j].key by {
        assert(history_lt(s[i].key, s[j].key));
        if s[i].key == s[j].key {
            lemma_lex_irreflexive(crate::order::history_digits(s[i].key));
        }
    }
}

/// Sorted policy entries have unique keys.
pub proof fn lemma_sorted_policies_unique(s: Seq<PolicyEntry>)
    requires
        policies_sorted(s),
    ensures
        policy_keys_unique(s),
{
    assert forall|i: int, j: int| 0 <= i < j < s.len() implies #[trigger] s[i].key
        != #[trigger] s[j].key by {
        assert(info_lt(s[i].key, s[j].key));
        if s[i].key == s[j].key {
            lemma_lex_irreflexive(crate::order::info_digits(s[i].key));
        }
    }
}

/// With unique keys, the stored entry is the one at the key's position.
pub proof fn lemma_stored_history_at(s: Seq<HistoryEntry>, key: HistoryKey)
    requires
        history_keys_unique(s),
    ensures
        stored_history(s, key) is None <==> !has_history(s, key),
        forall|i: int| 0 <= i < s.len() && #[trigger] s[i].key == key ==> stored_history(s, key)
            == Some(s[i]),
    decreases s.len(),
{
    if s.len() > 0 {
        let t = s.drop_first();
        assert(history_keys_unique(t)) by {
            assert forall|i: int, j: int| 0 <= i < j < t.len() implies #[trigger] t[i].key
                != #[trigger] t[j].key by {
                assert(t[i] == s[i + 1] && t[j] == s[j + 1]);
            }
        }
        lemma_stored_history_at(t, key);
        assert forall|i: int| 0 <= i < s.len() && #[trigger] s[i].key == key implies stored_history(
            s,
            key,
        ) == Some(s[i]) by {
            if i > 0 {
                assert(t[i - 1] == s[i]);
            }
        }
        if has_history(s, key) {
            let i = choose|i: int| 0 <= i < s.len() && #[trigger] s[i].key == key;
            if i > 0 {
                assert(t[i - 1].key == key);
            }
        }
        if has_history(t, key) {
            let i = choose|i: int| 0 <= i < t.len() && #[trigger] t[i].key == key;
            assert(s[i + 1].key == key);
        }
    }
}

/// With unique keys, the stored column is the one at the key's position.
pub proof fn lemma_stored_policy_at(s: Seq<PolicyEntry>, key: InfoKey)
    requires
        policy_keys_unique(s),
    ensures
        stored_policy(s, key) is None <==> !has_policy(s, key),
        forall|i: int| 0 <= i < s.len() && #[trigger] s[i].key == key ==> stored_policy(s, key)
            == Some(s[i].column@),
    decreases s.len(),
{
    if s.len() > 0 {
        let t = s.drop_first();
        assert(policy_keys_unique(t)) by {
            assert forall|i: int, j: int| 0 <= i < j < t.len() implies #[trigger] t[i].key
                != #[trigger] t[j].key by {
                assert(t[i] == s[i + 1] && t[j] == s[j + 1]);
            }
        }
        lemma_stored_policy_at(t, key);
        assert forall|i: int| 0 <= i < s.len() && #[trigger] s[i].key == key implies stored_policy(
            s,
            key,
        ) == Some(s[i].column@) by {
            if i > 0 {
                assert(t[i - 1] == s[i]);
            }
        }
        if has_policy(s, key) {
            let i = choose|i: int| 0 <= i < s.len() && #[trigger] s[i].key == key;
            if i > 0 {
                assert(t[i - 1].key == key);
            }
        }
        if has_policy(t, key) {
            let i = choose|i: int| 0 <= i < t.len() && #[trigger] t[i].key == key;
            assert(s[i + 1].key == key);
        }
    }
}

/// Position of `key` among sorted history entries: the first entry whose
/// key does not sort before it, and whether that entry holds `key`.
pub fn locate_history(s: &Vec<HistoryEntry>, key: &HistoryKey) -> (r: (usize, bool))
    requires
        histories_sorted(s@),
    ensures
        r.0 <= s@.len(),
        forall|i: int| 0 <= i < r.0 ==> history_lt(#[trigger] s@[i].key, *key),
        forall|i: int| r.0 <= i < s@.len() ==> !history_lt(#[trigger] s@[i].key, *key),
        r.1 <==> (r.0 < s@.len() && s@[r.0 as int].key == *key),
        r.1 <==> has_history(s@, *key),
        !r.1 ==> forall|i: int| r.0 <= i < s@.len() ==> history_lt(*key, #[trigger] s@[i].key),
{
    let mut i: usize = 0;
    while i < s.len()
        invariant
            i <= s@.len(),
            histories_sorted(s@),
            forall|k: int| 0 <= k < i ==> history_lt(#[trigger] s@[k].key, *key),
        ensures
            i <= s@.len(),
            forall|k: int| 0 <= k < i ==> history_lt(#[trigger] s@[k].key, *key),
            i < s@.len() ==> !history_lt(s@[i as int].key, *key),
        decreases s@.len() - i,
    {
        if !history_less(&s[i].key, key) {
            break;
        }
        i = i + 1;
    }
    let found = i < s.len() && same_history(&s[i].key, key);
    proof {
        assert forall|k: int| i <= k < s@.len() implies !history_lt(#[trigger] s@[k].key, *key) by {
            if k > i {
                assert(history_lt(s@[i as int].key, s@[k].key));
                if history_lt(s@[k].key, *key) {
                    lemma_lex_transitive(
                        crate::order::history_digits(s@[i as int].key),
                        crate::order::history_digits(s@[k].key),
                        crate::order::history_digits(*key),
                    );
                }
            }
        }
        if !found {
            assert forall|k: int| i <= k < s@.len() implies history_lt(*key, #[trigger] s@[k].key) by {
                if s@[i as int].key == *key {
                } else {
                    lemma_history_total(s@[i as int].key, *key);
                }
                if k > i {
                    assert(history_lt(s@[i as int].key, s@[k].key));
                    lemma_lex_transitive(
                        crate::order::history_digits(*key),
                        crate::order::history_digits(s@[i as int].key),
                        crate::order::history_digits(s@[k].key),
                    );
                }
            }
        }
        if has_history(s@, *key) {
            let j = choose|j: int| 0 <= j < s@.len() && #[trigger] s@[j].key == *key;
            if j < i {
                lemma_lex_irreflexive(crate::order::history_digits(*key));
            } else if !found {
                lemma_lex_irreflexive(crate::order::history_digits(*key));
            }
        }
    }
    (i, found)
}

/// Position of `key` among sorted policy entries, as for histories.
pub fn locate_policy(s: &Vec<PolicyEntry>, key: &InfoKey) -> (r: (usize, bool))
    requires
        policies_sorted(s@),
    ensures
        r.0 <= s@.len(),
        forall|i: int| 0 <= i < r.0 ==> info_lt(#[trigger] s@[i].key, *key),
        forall|i: int| r.0 <= i < s@.len() ==> !info_lt(#[trigger] s@[i].key, *key),
        r.1 <==> (r.0 < s@.len() && s@[r.0 as int].key == *key),
        r.1 <==> has_policy(s@, *key),
        !r.1 ==> forall|i: int| r.0 <= i < s@.len() ==> info_lt(*key, #[trigger] s@[i].key),
{
    let mut i: usize = 0;
    while i < s.len()
        invariant
            i <= s@.len(),
            policies_sorted(s@),
            forall|k: int| 0 <= k < i ==> info_lt(#[trigger] s@[k].key, *key),
        ensures
            i <= s@.len(),
            forall|k: int| 0 <= k < i ==> info_lt(#[trigger] s@[k].key, *key),
            i < s@.len() ==> !info_lt(s@[i as int].key, *key),
        decreases s@.len() - i,
    {
        if !info_less(&s[i].key, key) {
            break;
        }
        i = i + 1;
    }
    let found = i < s.len() && same_info_key(&s[i].key, key);
    proof {
        assert forall|k: int| i <= k < s@.len() implies !info_lt(#[trigger] s@[k].key, *key) by {
            if k > i {
                assert(info_lt(s@[i as int].key, s@[k].key));
                if info_lt(s@[k].key, *key) {
                    lemma_lex_transitive(
                        crate::order::info_digits(s@[i as int].key),
                        crate::order::info_digits(s@[k].key),
                        crate::order::info_digits(*key),
                    );
                }
            }
        }
        if !found {
            assert forall|k: int| i <= k < s@.len() implies info_lt(*key, #[trigger] s@[k].key) by {
                if s@[i as int].key == *key {
                } else {
                    lemma_info_total(s@[i as int].key, *key);
                }
                if k > i {
                    assert(info_lt(s@[i as int].key, s@[k].key));
                    lemma_lex_transitive(
                        crate::order::info_digits(*key),
                        crate::order::info_digits(s@[i as int].key),
                        crate::order::info_digits(s@[k].key),
                    );
                }
            }
        }
        if has_policy(s@, *key) {
            let j = choose|j: int| 0 <= j < s@.len() && #[trigger] s@[j].key == *key;
            if j < i {
                lemma_lex_irreflexive(crate::order::info_digits(*key));
            } else if !found {
                lemma_lex_irreflexive(crate::order::info_digits(*key));
            }
        }
    }
    (i, found)
}

/// Inserts `entry` at its sorted position unless its key is already stored.
pub fn insert_history(s: &mut Vec<HistoryEntry>, entry: HistoryEntry) -> (inserted: bool)
    requires
        histories_sorted(old(s)@),
    ensures
        histories_sorted(final(s)@),
        inserted <==> !has_history(old(s)@, entry.key),
        !inserted ==> final(s)@ == old(s)@,
        inserted ==> exists|p: int| 0 <= p <= old(s)@.len() && final(s)@ == old(s)@.insert(p, entry),
{
    let (p, found) = locate_history(s, &entry.key);
    if found {
        return false;
    }
    let ghost before = s@;
    let ghost e = entry;
    s.insert(p, entry);
    proof {
        let after = s@;
        assert(after == before.insert(p as int, e));
        assert forall|i: int, j: int| 0 <= i < j < after.len() implies history_lt(
            #[trigger] after[i].key,
            #[trigger] after[j].key,
        ) by {
            if j < p {
                assert(after[i] == before[i] && after[j] == before[j]);
            } else if j == p {
                assert(after[i] == before[i]);
            } else if i < p {
                assert(after[i] == before[i] && after[j] == before[j - 1]);
                assert(history_lt(before[i].key, e.key));
                lemma_lex_transitive(
                    crate::order::history_digits(before[i].key),
                    crate::order::history_digits(e.key),
                    crate::order::history_digits(before[j - 1].key),
                );
            } else if i == p {
                assert(after[j] == before[j - 1]);
            } else {
                assert(after[i] == before[i - 1] && after[j] == before[j - 1]);
            }
        }
    }
    true
}

/// Inserts `entry` at its sorted position unless its key is already stored.
pub fn insert_policy(s: &mut Vec<PolicyEntry>, entry: PolicyEntry) -> (inserted: bool)
    requires
        policies_sorted(old(s)@),
    ensures
        policies_sorted(final(s)@),
        inserted <==> !has_policy(old(s)@, entry.key),
        !inserted ==> final(s)@ == old(s)@,
        inserted ==> exists|p: int| 0 <= p <= old(s)@.len() && final(s)@ == old(s)@.insert(p, entry),
{
    let (p, found) = locate_policy(s, &entry.key);
    if found {
        return false;
    }
    let ghost before = s@;
    let ghost e = entry;
    s.insert(p, entry);
    proof {
        let after = s@;
        assert(after == before.insert(p as int, e));
        assert forall|i: int, j: int| 0 <= i < j < after.len() implies info_lt(
            #[trigger] after[i].key,
            #[trigger] after[j].key,
        ) by {
            if j < p {
                assert(after[i] == before[i] && after[j] == before[j]);
            } else if j == p {
                assert(after[i] == before[i]);
            } else if i < p {
                assert(after[i] == before[i] && after[j] == before[j - 1]);
                assert(info_lt(before[i].key, e.key));
                lemma_lex_transitive(
                    crate::order::info_digits(before[i].key),
                    crate::order::info_digits(e.key),
                    crate::order::info_digits(before[j - 1].key),
                );
            } else if i == p {
                assert(after[j] == before[j - 1]);
            } else {
                assert(after[i] == before[i - 1] && after[j] == before[j - 1]);
            }
        }
    }
    true
}

/// Index of the entry stored under `key`, if any.
pub fn find_history(s: &Vec<HistoryEntry>, key: &HistoryKey) -> (r: Option<usize>)
    requires
        histories_sorted(s@),
    ensures
        r is None <==> !has_history(s@, *key),
        r matches Some(i) ==> i < s@.len() && s@[i as int].key == *key && stored_history(s@, *key)
            == Some(s@[i as int]),
        r is None ==> stored_history(s@, *key) is None,
{
    let (p, found) = locate_history(s, key);
    proof {
        lemma_sorted_histories_unique(s@);
        lemma_stored_history_at(s@, *key);
    }
    if found {
        Some(p)
    } else {
        None
    }
}

/// Index of the policy stored under `key`, if any.
pub fn find_policy(s: &Vec<PolicyEntry>, key: &InfoKey) -> (r: Option<usize>)
    requires
        policies_sorted(s@),
    ensures
        r is None <==> !has_policy(s@, *key),
        r matches Some(i) ==> i < s@.len() && s@[i as int].key == *key && stored_policy(s@, *key)
            == Some(s@[i as int].column@),
        r is None ==> stored_policy(s@, *key) is None,
{
    let (p, found) = locate_policy(s, key);
    proof {
        lemma_sorted_policies_unique(s@);
        lemma_stored_policy_at(s@, *key);
    }
    if found {
        Some(p)
    } else {
        None
    }
}

/// Two unique-keyed entry sequences with the same members answer every
/// lookup alike.
pub proof fn lemma_same_history_lookup(a: Seq<HistoryEntry>, b: Seq<HistoryEntry>, key: HistoryKey)
    requires
        history_keys_unique(a),
        history_keys_unique(b),
        forall|x: HistoryEntry| a.contains(x) <==> b.contains(x),
    ensures
        stored_history(a, key) == stored_history(b, key),
        has_history(a, key) == has_history(b, key),
{
    lemma_stored_history_at(a, key);
    lemma_stored_history_at(b, key);
    if has_history(a, key) {
        let i = choose|i: int| 0 <= i < a.len() && #[trigger] a[i].key == key;
        assert(a.contains(a[i]));
        assert(b.contains(a[i]));
        let j = choose|j: int| 0 <= j < b.len() && b[j] == a[i];
        assert(b[j].key == key);
    }
    if has_history(b, key) {
        let j = choose|j: int| 0 <= j < b.len() && #[trigger] b[j].key == key;
        assert(b.contains(b[j]));
        assert(a.contains(b[j]));
        let i = choose|i: int| 0 <= i < a.len() && a[i] == b[j];
        assert(a[i].key == key);
    }
}

/// Two unique-keyed policy sequences with the same members answer every
/// lookup alike.
pub proof fn lemma_same_policy_lookup(a: Seq<PolicyEntry>, b: Seq<PolicyEntry>, key: InfoKey)
    requires
        policy_keys_unique(a),
        policy_keys_unique(b),
        forall|x: PolicyEntry| a.contains(x) <==> b.contains(x),
    ensures
        stored_policy(a, key) == stored_policy(b, key),
        has_policy(a, key) == has_policy(b, key),
{
    lemma_stored_policy_at(a, key);
    lemma_stored_policy_at(b, key);
    if has_policy(a, key) {
        let i = choose|i: int| 0 <= i < a.len() && #[trigger] a[i].key == key;
        assert(a.contains(a[i]));
        assert(b.contains(a[i]));
        let j = choose|j: int| 0 <= j < b.len() && b[j] == a[i];
        assert(b[j].key == key);
    }
    if has_policy(b, key) {
        let j = choose|j: int| 0 <= j < b.len() && #[trigger] b[j].key == key;
        assert(b.contains(b[j]));
        assert(a.contains(b[j]));
        let i = choose|i: int| 0 <= i < a.len() && a[i] == b[j];
        assert(a[i].key == key);
    }
}

/// Walks agree on unique-keyed sequences with the same members.
pub proof fn lemma_same_root_walk(a: Seq<HistoryEntry>, b: Seq<HistoryEntry>, key: HistoryKey, fuel: nat)
    requires
        history_keys_unique(a),
        history_keys_unique(b),
        forall|x: HistoryEntry| a.contains(x) <==> b.contains(x),
    ensures
        root_walk(a, key, fuel) == root_walk(b, key, fuel),
    decreases fuel,
{
    lemma_same_history_lookup(a, b, key);
    if !key.is_root() && fuel > 0 {
        if let Some(e) = stored_history(a, key) {
            lemma_same_root_walk(a, b, e.parent, (fuel - 1) as nat);
        }
    }
}

/// Membership after inserting into a sequence.
pub proof fn lemma_insert_contains<A>(s: Seq<A>, p: int, e: A, x: A)
    requires
        0 <= p <= s.len(),
    ensures
        s.insert(p, e).contains(x) <==> (s.contains(x) || x == e),
{
    let t = s.insert(p, e);
    if s.contains(x) {
        let i = choose|i: int| 0 <= i < s.len() && s[i] == x;
        if i < p {
            assert(t[i] == x);
        } else {
            assert(t[i + 1] == x);
        }
    }
    if x == e {
        assert(t[p] == e);
    }
    if t.contains(x) {
        let j = choose|j: int| 0 <= j < t.len() && t[j] == x;
        if j < p {
            assert(s[j] == x);
        } else if j > p {
            assert(s[j - 1] == x);
        }
    }
}

/// Membership in a prefix grown by one element.
pub proof fn lemma_prefix_contains<A>(s: Seq<A>, i: int, x: A)
    requires
        0 <= i < s.len(),
    ensures
        s.subrange(0, i + 1).contains(x) <==> (s.subrange(0, i).contains(x) || x == s[i]),
{
    assert(s.subrange(0, i + 1) =~= s.subrange(0, i).insert(i, s[i]));
    lemma_insert_contains(s.subrange(0, i), i, s[i], x);
}

/// The elements of a vector in reverse order.
fn reversed<T>(v: Vec<T>) -> (r: Vec<T>)
    ensures
        r@ == v@.reverse(),
{
    let ghost orig = v@;
    let mut v = v;
    let mut r: Vec<T> = Vec::new();
    while v.len() > 0
        invariant
            v@ == orig.subrange(0, v@.len() as int),
            r@ == orig.subrange(v@.len() as int, orig.len() as int).reverse(),
            v@.len() <= orig.len(),
        decreases v@.len(),
    {
        let x = v.pop().unwrap();
        r.push(x);
        assert(r@ =~= orig.subrange(v@.len() as int, orig.len() as int).reverse());
        assert(v@ =~= orig.subrange(0, v@.len() as int));
    }
    assert(orig.subrange(0, orig.len() as int) =~= orig);
    r
}

/// Walks up the stored ancestry of `start` for at most `len + 1` steps.
fn walk_to_root(s: &Vec<HistoryEntry>, start: HistoryKey) -> (r: u8)
    requires
        histories_sorted(s@),
    ensures
        r == root_walk(s@, start, s@.len() + 1),
{
    let mut key = start;
    let mut steps_left: usize = s.len();
    loop
        invariant
            histories_sorted(s@),
            steps_left <= s@.len(),
            root_walk(s@, key, (steps_left + 1) as nat) == root_walk(s@, start, s@.len() + 1),
        decreases steps_left,
    {
        if is_root_key(&key) {
            return 0;
        }
        let ghost old_key = key;
        match find_history(s, &key) {
            None => {
                return 1;
            },
            Some(i) => {
                key = s[i].parent;
            },
        }
        assert(root_walk(s@, old_key, (steps_left + 1) as nat) == root_walk(
            s@,
            key,
            steps_left as nat,
        ));
        if steps_left == 0 {
            assert(root_walk(s@, key, 0) == if key.is_root() {
                0u8
            } else {
                2u8
            });
            if is_root_key(&key) {
                return 0;
            }
            return 2;
        }
        steps_left = steps_left - 1;
    }
}

/// Checks that every checkpointed history's ancestry reaches the root,
/// looking entries up in their sorted copy `store`.
fn validate_history_graph(h: &Vec<HistoryEntry>, store: &Vec<HistoryEntry>) -> (r: Result<
    (),
    SolverError,
>)
    requires
        histories_sorted(store@),
        history_keys_unique(h@),
        h@.len() == store@.len(),
        forall|x: HistoryEntry| h@.contains(x) <==> store@.contains(x),
    ensures
        r == graph_verdict(h@, h@.len()),
{
    proof {
        lemma_sorted_histories_unique(store@);
    }
    let mut i: usize = 0;
    while i < h.len()
        invariant
            i <= h@.len(),
            histories_sorted(store@),
            history_keys_unique(store@),
            history_keys_unique(h@),
            h@.len() == store@.len(),
            forall|x: HistoryEntry| h@.contains(x) <==> store@.contains(x),
            graph_verdict(h@, i as nat) == Ok::<(), SolverError>(()),
        decreases h@.len() - i,
    {
        let w = walk_to_root(store, h[i].parent);
        proof {
            lemma_same_root_walk(store@, h@, h@[i as int].parent, store@.len() + 1);
            let ghost n1 = (i + 1) as nat;
            assert((n1 - 1) as nat == i as nat);
            assert(h@[n1 - 1] == h@[i as int]);
            assert(w == root_walk(h@, h@[n1 - 1].parent, h@.len() + 1));
            if w == 1 || w == 2 {
                assert(graph_verdict(h@, n1) is Err);
                lemma_graph_error_sticks(h@, n1, h@.len());
            }
        }
        if w == 1 {
            return Err(SolverError::InvalidState("public history has an unknown parent"));
        }
        if w == 2 {
            return Err(SolverError::InvalidState("public history contains a cycle"));
        }
        i = i + 1;
    }
    Ok(())
}

/// Once a prefix of the history graph check fails, the whole check fails
/// with the same error.
proof fn lemma_graph_error_sticks(s: Seq<HistoryEntry>, k: nat, n: nat)
    requires
        k <= n <= s.len(),
        graph_verdict(s, k) is Err,
    ensures
        graph_verdict(s, n) == graph_verdict(s, k),
    decreases n - k,
{
    if n > k {
        lemma_graph_error_sticks(s, k, (n - 1) as nat);
    }
}

/// Once a prefix of the history replay fails, the whole replay fails with
/// the same error.
proof fn lemma_histories_error_sticks(h: Seq<HistoryEntry>, players: nat, k: nat, n: nat)
    requires
        k <= n <= h.len(),
        histories_verdict(h, players, k) is Err,
    ensures
        histories_verdict(h, players, n) == histories_verdict(h, players, k),
    decreases n - k,
{
    if n > k {
        lemma_histories_error_sticks(h, players, k, (n - 1) as nat);
    }
}

/// Once a prefix of the policy replay fails, the whole replay fails with
/// the same error.
proof fn lemma_policies_error_sticks(
    p: Seq<PolicyEntry>,
    stored: Seq<HistoryEntry>,
    players: nat,
    recall: RecallMode,
    base: int,
    k: nat,
    n: nat,
)
    requires
        k <= n <= p.len(),
        policies_verdict(p, stored, players, recall, base, k) is Err,
    ensures
        policies_verdict(p, stored, players, recall, base, n) == policies_verdict(p, stored, players, recall, base, k),
    decreases n - k,
{
    if n > k {
        lemma_policies_error_sticks(p, stored, players, recall, base, k, (n - 1) as nat);
    }
}

/// A checkpoint of the sparse solver: configuration, counters, the visited
/// public-history trie and every policy column, both sorted by key.
#[derive(Clone, Debug, PartialEq, Eq)]
pub struct SolverState {
    pub schema_version: u16,
    pub config: SolverConfig,
    pub traversals: u64,
    pub completed_sweeps: u64,
    pub next_sample_id: u64,
    pub total_deal_attempts: u64,
    pub terminal_evaluations: u64,
    /// Individual hand updates over all traversals so far.
    pub hand_updates: u64,
    pub histories: Vec<HistoryEntry>,
    pub policies: Vec<PolicyEntry>,
}

/// Checks a checkpoint header against the current setup, in the solver's
/// order: setup, schema version, algorithm configuration, then the
/// consistency of its counters.
pub open spec fn resume_header_verdict(
    state: SolverState,
    current: SolverConfig,
    num_players: nat,
    sampler_players: nat,
    recall: RecallMode,
) -> Result<(), SolverError> {
    if setup_verdict(num_players, sampler_players, recall, current) is Err {
        setup_verdict(num_players, sampler_players, recall, current)
    } else if state.schema_version != SOLVER_STATE_VERSION {
        Err(SolverError::StateVersion { found: state.schema_version, expected: SOLVER_STATE_VERSION })
    } else if !configs_resumable(state.config, current) {
        Err(SolverError::ResumeConfigurationMismatch)
    } else if state.completed_sweeps != (state.traversals as nat) / num_players {
        Err(SolverError::InvalidState("completed sweep count is inconsistent with traversals"))
    } else if state.next_sample_id != state.traversals {
        Err(SolverError::InvalidState("next sample id is inconsistent with traversals"))
    } else {
        Ok(())
    }
}

/// Replays the checkpoint's history entries in order: each must be valid,
/// its memory charge must keep the running total within `u64`, and its key
/// must be new.  On success the result is the total charge.
pub open spec fn histories_verdict(h: Seq<HistoryEntry>, num_players: nat, n: nat) -> Result<
    int,
    SolverError,
>
    decreases n,
{
    if n == 0 || n > h.len() {
        Ok(0)
    } else {
        match histories_verdict(h, num_players, (n - 1) as nat) {
            Err(e) => Err(e),
            Ok(m) => {
                let e = h[n - 1];
                if !history_entry_valid(e, num_players) {
                    Err(SolverError::InvalidState("invalid public history entry"))
                } else if m + history_memory(e.action_label@) > u64::MAX {
                    Err(SolverError::MemoryAccountingOverflow)
                } else if exists|j: int| 0 <= j < n - 1 && #[trigger] h[j].key == e.key {
                    Err(SolverError::DuplicateHistory(e.key))
                } else {
                    Ok(m + history_memory(e.action_label@))
                }
            },
        }
    }
}

/// Walking up from `key` through stored parents: `0` when the root is
/// reached, `1` when a key is missing, `2` when `fuel` steps do not suffice.
pub open spec fn root_walk(s: Seq<HistoryEntry>, key: HistoryKey, fuel: nat) -> u8
    decreases fuel,
{
    if key.is_root() {
        0
    } else if fuel == 0 {
        2
    } else {
        match stored_history(s, key) {
            None => 1,
            Some(e) => root_walk(s, e.parent, (fuel - 1) as nat),
        }
    }
}

/// Every stored entry's ancestry reaches the root within `len + 1` steps;
/// otherwise the first failing entry (in key order) names the defect.
pub open spec fn graph_verdict(s: Seq<HistoryEntry>, n: nat) -> Result<(), SolverError>
    decreases n,
{
    if n == 0 || n > s.len() {
        Ok(())
    } else if graph_verdict(s, (n - 1) as nat) is Err {
        graph_verdict(s, (n - 1) as nat)
    } else {
        let w = root_walk(s, s[n - 1].parent, s.len() + 1);
        if w == 1 {
            Err(SolverError::InvalidState("public history has an unknown parent"))
        } else if w == 2 {
            Err(SolverError::InvalidState("public history contains a cycle"))
        } else {
            Ok(())
        }
    }
}

/// Replays the checkpoint's policy entries in order after `base` bytes of
/// history charges: each column must be valid, refer to the root or a
/// stored history, keep the charge within `u64`, and have a new key.
pub open spec fn policies_verdict(
    p: Seq<PolicyEntry>,
    stored: Seq<HistoryEntry>,
    num_players: nat,
    recall: RecallMode,
    base: int,
    n: nat,
) -> Result<int, SolverError>
    decreases n,
{
    if n == 0 || n > p.len() {
        Ok(base)
    } else {
        match policies_verdict(p, stored, num_players, recall, base, (n - 1) as nat) {
            Err(e) => Err(e),
            Ok(m) => {
                let e = p[n - 1];
                if column_verdict(e.key, e.column, num_players, recall) is Err {
                    Err(column_verdict(e.key, e.column, num_players, recall)->Err_0)
                } else if !e.key.history.is_root() && !has_history(stored, e.key.history) {
                    Err(SolverError::InvalidState("policy refers to an unknown public history"))
                } else if m + entry_memory(e.column.action_labels@) > u64::MAX {
                    Err(SolverError::MemoryAccountingOverflow)
                } else if exists|j: int| 0 <= j < n - 1 && #[trigger] p[j].key == e.key {
                    Err(SolverError::DuplicatePolicy(e.key))
                } else {
                    Ok(m + entry_memory(e.column.action_labels@))
                }
            },
        }
    }
}

/// The whole outcome of resuming a checkpoint into sparse storage: header
/// checks, the history replay, the history graph, the policy replay, and
/// finally the memory cap of the current configuration.  On success the
/// result is the total memory charge.
pub open spec fn restore_verdict(
    state: SolverState,
    current: SolverConfig,
    num_players: nat,
    sampler_players: nat,
    recall: RecallMode,
) -> Result<int, SolverError> {
    let h = state.histories@;
    let p = state.policies@;
    if resume_header_verdict(state, current, num_players, sampler_players, recall) is Err {
        Err(resume_header_verdict(state, current, num_players, sampler_players, recall)->Err_0)
    } else {
        match histories_verdict(h, num_players, h.len()) {
            Err(e) => Err(e),
            Ok(mh) => {
                if graph_verdict(h, h.len()) is Err {
                    Err(graph_verdict(h, h.len())->Err_0)
                } else {
                    match policies_verdict(p, h, num_players, recall, mh, p.len()) {
                        Err(e) => Err(e),
                        Ok(m) => {
                            if m > current.max_memory_bytes {
                                Err(
                                    SolverError::MemoryLimit {
                                        limit: current.max_memory_bytes,
                                        needed: m as u64,
                                    },
                                )
                            } else {
                                Ok(m)
                            }
                        },
                    }
                }
            },
        }
    }
}

/// The checkpoint's configuration with the current memory cap adopted.
pub open spec fn adopted_config(stored: SolverConfig, current: SolverConfig) -> SolverConfig {
    SolverConfig { max_memory_bytes: current.max_memory_bytes, ..stored }
}

/// A column's labels, regrets and strategy sums have one common width.
pub open spec fn column_widths_agree(c: PolicyColumn) -> bool {
    c.regrets@.len() == c.action_labels@.len() && c.strategy_sum@.len() == c.action_labels@.len()
}

/// `a` comes no later than `b` in the (actor, action index) order.
pub open spec fn child_order_le(a: HistoryEntry, b: HistoryEntry) -> bool {
    a.actor < b.actor || (a.actor == b.actor && a.action_index <= b.action_index)
}

/// The root-to-node action labels of `key`, following stored parents for
/// at most `fuel` steps.
pub open spec fn label_path(s: Seq<HistoryEntry>, key: HistoryKey, fuel: nat) -> Option<Seq<String>>
    decreases fuel,
{
    if key.is_root() {
        Some(Seq::empty())
    } else if fuel == 0 {
        None
    } else {
        match stored_history(s, key) {
            None => None,
            Some(e) => match label_path(s, e.parent, (fuel - 1) as nat) {
                None => None,
                Some(p) => Some(p.push(e.action_label)),
            },
        }
    }
}

/// `st` is a checkpoint of `s`: current schema, the store's configuration
/// and counters, its history entries as stored, and its policy entries in
/// key order with the same columns.
pub open spec fn snapshot_of(s: MultiwaySolver, st: SolverState) -> bool {
    &&& st.schema_version == SOLVER_STATE_VERSION
    &&& st.config == s.spec_config()
    &&& (
        st.traversals,
        st.completed_sweeps,
        st.next_sample_id,
        st.total_deal_attempts,
        st.terminal_evaluations,
        st.hand_updates,
    ) == s.spec_counters()
    &&& st.histories@ == s.spec_histories()
    &&& st.policies@.len() == s.spec_policies().len()
    &&& forall|i: int|
        0 <= i < st.policies@.len() ==> #[trigger] st.policies@[i].key == s.spec_policies()[i].key
            && st.policies@[i].column@ == s.spec_policies()[i].column@
}

/// `r` is the store restored from checkpoint `st` under the current
/// configuration: well formed, the checkpoint's configuration with the
/// current memory cap, exactly the checkpoint's entries, the replayed
/// memory charge and the checkpoint's counters.
pub open spec fn restored_from(
    st: SolverState,
    current: SolverConfig,
    num_players: nat,
    sampler_players: nat,
    recall: RecallMode,
    r: MultiwaySolver,
) -> bool {
    &&& r.wf()
    &&& r.spec_recall() == recall
    &&& r.spec_config() == adopted_config(st.config, current)
    &&& r.spec_num_players() == num_players
    &&& forall|x: HistoryEntry| #[trigger] r.spec_histories().contains(x) <==> st.histories@.contains(x)
    &&& forall|x: PolicyEntry| #[trigger] r.spec_policies().contains(x) <==> st.policies@.contains(x)
    &&& r.spec_memory() == restore_verdict(st, current, num_players, sampler_players, recall)->Ok_0
    &&& r.spec_counters() == (
        st.traversals,
        st.completed_sweeps,
        st.next_sample_id,
        st.total_deal_attempts,
        st.terminal_evaluations,
        st.hand_updates,
    )
}

/// The solver's sparse state: configuration, table size, the game's recall
/// mode, the visited public-history trie, the policy columns and the run
/// counters.
pub struct MultiwaySolver {
    config: SolverConfig,
    num_players: usize,
    recall: RecallMode,
    histories: Vec<HistoryEntry>,
    policies: Vec<PolicyEntry>,
    approx_memory_bytes: u64,
    traversals: u64,
    completed_sweeps: u64,
    next_sample_id: u64,
    total_deal_attempts: u64,
    terminal_evaluations: u64,
    hand_updates: u64,
}

impl MultiwaySolver {
    /// The configuration in force.
    pub closed spec fn spec_config(&self) -> SolverConfig {
        self.config
    }

    /// Number of seats.
    pub closed spec fn spec_num_players(&self) -> nat {
        self.num_players as nat
    }

    /// How much private history the game's information sets remember.
    pub closed spec fn spec_recall(&self) -> RecallMode {
        self.recall
    }

    /// Stored history entries, in key order.
    pub closed spec fn spec_histories(&self) -> Seq<HistoryEntry> {
        self.histories@
    }

    /// Stored policy entries, in key order.
    pub closed spec fn spec_policies(&self) -> Seq<PolicyEntry> {
        self.policies@
    }

    /// Memory charged so far.
    pub closed spec fn spec_memory(&self) -> u64 {
        self.approx_memory_bytes
    }

    /// Counters: traversals, completed sweeps, next sample id, deal
    /// attempts, terminal evaluations and hand updates.
    pub closed spec fn spec_counters(&self) -> (u64, u64, u64, u64, u64, u64) {
        (
            self.traversals,
            self.completed_sweeps,
            self.next_sample_id,
            self.total_deal_attempts,
            self.terminal_evaluations,
            self.hand_updates,
        )
    }

    /// Storage invariant: keys sorted and unique, a valid table size and a
    /// positive discount cadence.
    pub closed spec fn wf(&self) -> bool {
        &&& histories_sorted(self.histories@)
        &&& policies_sorted(self.policies@)
        &&& 2 <= self.num_players <= 9
        &&& self.config.discount_every > 0
        &&& forall|i: int| 0 <= i < self.policies@.len() ==> column_widths_agree(
            #[trigger] self.policies@[i].column,
        )
    }
}

impl MultiwaySolver {
    /// Restores sparse storage from a checkpoint under its own configuration.
    pub fn from_state(
        state: SolverState,
        num_players: usize,
        sampler_players: usize,
        recall: RecallMode,
    ) -> (r: Result<
        MultiwaySolver,
        SolverError,
    >)
        ensures
            r is Err <==> restore_verdict(
                state,
                state.config,
                num_players as nat,
                sampler_players as nat,
                recall,
            ) is Err,
            r is Err ==> r->Err_0 == restore_verdict(
                state,
                state.config,
                num_players as nat,
                sampler_players as nat,
                recall,
            )->Err_0,
            r matches Ok(st) ==> restored_from(
                state,
                state.config,
                num_players as nat,
                sampler_players as nat,
                recall,
                st,
            ),
    {
        let config = state.config;
        MultiwaySolver::from_state_with_config(state, config, num_players, sampler_players, recall)
    }

    /// Restores sparse storage from a checkpoint while adopting the current
    /// operational memory cap.  Every setting that affects sampling or
    /// updates must match the checkpoint exactly.
    #[verifier::rlimit(50)]
    #[verifier::loop_isolation(false)]
    pub fn from_state_with_config(
        state: SolverState,
        current: SolverConfig,
        num_players: usize,
        sampler_players: usize,
        recall: RecallMode,
    ) -> (r: Result<MultiwaySolver, SolverError>)
        ensures
            r is Err <==> restore_verdict(
                state,
                current,
                num_players as nat,
                sampler_players as nat,
                recall,
            ) is Err,
            r is Err ==> r->Err_0 == restore_verdict(
                state,
                current,
                num_players as nat,
                sampler_players as nat,
                recall,
            )->Err_0,
            r matches Ok(st) ==> restored_from(
                state,
                current,
                num_players as nat,
                sampler_players as nat,
                recall,
                st,
            ),
    {
        let ghost gstate = state;
        let ghost players = num_players as nat;
        if let Err(e) = validate_setup(num_players, sampler_players, recall, current) {
            return Err(e);
        }
        if state.schema_version != SOLVER_STATE_VERSION {
            return Err(
                SolverError::StateVersion {
                    found: state.schema_version,
                    expected: SOLVER_STATE_VERSION,
                },
            );
        }
        if !resume_configs_match(state.config, current) {
            return Err(SolverError::ResumeConfigurationMismatch);
        }
        if state.completed_sweeps != state.traversals / (num_players as u64) {
            return Err(
                SolverError::InvalidState("completed sweep count is inconsistent with traversals"),
            );
        }
        if state.next_sample_id != state.traversals {
            return Err(SolverError::InvalidState("next sample id is inconsistent with traversals"));
        }
        let mut config = state.config;
        config.max_memory_bytes = current.max_memory_bytes;
        let SolverState {
            schema_version: _,
            config: _,
            traversals,
            completed_sweeps,
            next_sample_id,
            total_deal_attempts,
            terminal_evaluations,
            hand_updates,
            histories: hvec,
            policies: pvec,
        } = state;
        let ghost h = hvec@;
        let ghost p = pvec@;
        // Histories, in checkpoint order.
        let mut histories: Vec<HistoryEntry> = Vec::new();
        let mut memory: u64 = 0;
        let mut i: usize = 0;
        while i < hvec.len()
            invariant
                h == hvec@,
                i <= h.len(),
                histories_sorted(histories@),
                histories@.len() == i,
                forall|x: HistoryEntry| histories@.contains(x) <==> h.subrange(0, i as int).contains(x),
                history_keys_unique(h.subrange(0, i as int)),
                histories_verdict(h, players, i as nat) == Ok::<int, SolverError>(memory as int),
                players == num_players,
            decreases h.len() - i,
        {
            let entry = hvec[i].clone();
            let ghost n1 = (i + 1) as nat;
            proof {
                assert((n1 - 1) as nat == i as nat);
                assert(h[n1 - 1] == entry);
            }
            if let Err(e) = validate_history_entry(&entry, num_players) {
                proof {
                    assert(!history_entry_valid(h[n1 - 1], players));
                    assert(histories_verdict(h, players, n1) == Err::<int, SolverError>(
                        SolverError::InvalidState("invalid public history entry"),
                    ));
                    lemma_histories_error_sticks(h, players, n1, h.len());
                }
                return Err(e);
            }
            let charge = match history_memory_bytes(entry.action_label.as_str()) {
                Ok(c) => c,
                Err(e) => {
                    proof {
                        lemma_histories_error_sticks(h, players, n1, h.len());
                    }
                    return Err(e);
                },
            };
            memory = match memory.checked_add(charge) {
                Some(m) => m,
                None => {
                    proof {
                        lemma_histories_error_sticks(h, players, n1, h.len());
                    }
                    return Err(SolverError::MemoryAccountingOverflow);
                },
            };
            let key = entry.key;
            let ghost before = histories@;
            proof {
                lemma_sorted_histories_unique(histories@);
                lemma_same_history_lookup(histories@, h.subrange(0, i as int), key);
                if has_history(h.subrange(0, i as int), key) {
                    let j = choose|j: int| 0 <= j < i && #[trigger] h.subrange(0, i as int)[j].key
                        == key;
                    assert(h[j].key == key);
                }
                if exists|j: int| 0 <= j < n1 - 1 && #[trigger] h[j].key == key {
                    let j = choose|j: int| 0 <= j < n1 - 1 && #[trigger] h[j].key == key;
                    assert(h.subrange(0, i as int)[j].key == key);
                }
            }
            if !insert_history(&mut histories, entry) {
                proof {
                    lemma_histories_error_sticks(h, players, n1, h.len());
                }
                return Err(SolverError::DuplicateHistory(key));
            }
            proof {
                let pos = choose|pos: int| 0 <= pos <= before.len() && histories@ == before.insert(
                    pos,
                    h[i as int],
                );
                assert forall|x: HistoryEntry| histories@.contains(x) <==> h.subrange(
                    0,
                    n1 as int,
                ).contains(x) by {
                    lemma_insert_contains(before, pos, h[i as int], x);
                    lemma_prefix_contains(h, i as int, x);
                }
                let q = h.subrange(0, n1 as int);
                assert forall|a: int, b: int| 0 <= a < b < q.len() implies #[trigger] q[a].key
                    != #[trigger] q[b].key by {
                    if b < i {
                        assert(h.subrange(0, i as int)[a] == q[a]);
                        assert(h.subrange(0, i as int)[b] == q[b]);
                    } else {
                        assert(q[b] == h[i as int]);
                        assert(q[a] == h[a]);
                    }
                }
            }
            i = i + 1;
        }
        proof {
            assert(h.subrange(0, h.len() as int) =~= h);
        }
        if let Err(e) = validate_history_graph(&hvec, &histories) {
            return Err(e);
        }
        let ghost mh = memory as int;
        // Policies, in checkpoint order.
        let policy_count = pvec.len();
        let mut rest = reversed(pvec);
        let mut policies: Vec<PolicyEntry> = Vec::new();
        let mut k: usize = 0;
        proof {
            lemma_sorted_histories_unique(histories@);
        }
        while rest.len() > 0
            invariant
                h == hvec@,
                rest@ == p.subrange(k as int, p.len() as int).reverse(),
                k <= p.len(),
                histories_sorted(histories@),
                history_keys_unique(histories@),
                history_keys_unique(h),
                forall|x: HistoryEntry| histories@.contains(x) <==> h.contains(x),
                policies_sorted(policies@),
                policies@.len() == k,
                forall|x: PolicyEntry| policies@.contains(x) <==> p.subrange(0, k as int).contains(x),
                forall|x: PolicyEntry| #[trigger] policies@.contains(x) ==> column_widths_agree(x.column),
                policy_keys_unique(p.subrange(0, k as int)),
                policies_verdict(p, h, players, recall, mh, k as nat) == Ok::<int, SolverError>(memory as int),
                players == num_players,
            decreases rest@.len(),
        {
            let entry = rest.pop().unwrap();
            let ghost n1 = (k + 1) as nat;
            proof {
                assert(k < p.len()) by {
                    assert(rest@.len() + 1 == p.len() - k);
                }
                assert(p.len() == policy_count);
                assert((n1 - 1) as nat == k as nat);
                assert(entry == p[k as int]);
                assert(rest@ =~= p.subrange(n1 as int, p.len() as int).reverse());
            }
            if let Err(e) = validate_column(entry.key, &entry.column, num_players, recall) {
                proof {
                    assert(column_verdict(p[n1 - 1].key, p[n1 - 1].column, players, recall)
                        == Err::<(), SolverError>(e));
                    assert(policies_verdict(p, h, players, recall, mh, n1) == Err::<int, SolverError>(e));
                    lemma_policies_error_sticks(p, h, players, recall, mh, n1, p.len());
                }
                return Err(e);
            }
            let known = is_root_key(&entry.key.history) || find_history(
                &histories,
                &entry.key.history,
            ).is_some();
            proof {
                lemma_same_history_lookup(histories@, h, entry.key.history);
            }
            if !known {
                proof {
                    lemma_policies_error_sticks(p, h, players, recall, mh, n1, p.len());
                }
                return Err(SolverError::InvalidState("policy refers to an unknown public history"));
            }
            let charge = match entry_memory_bytes(entry.column.action_labels.as_slice()) {
                Ok(c) => c,
                Err(e) => {
                    proof {
                        lemma_policies_error_sticks(p, h, players, recall, mh, n1, p.len());
                    }
                    return Err(e);
                },
            };
            memory = match memory.checked_add(charge) {
                Some(m) => m,
                None => {
                    proof {
                        lemma_policies_error_sticks(p, h, players, recall, mh, n1, p.len());
                    }
                    return Err(SolverError::MemoryAccountingOverflow);
                },
            };
            let key = entry.key;
            let ghost before = policies@;
            proof {
                lemma_sorted_policies_unique(policies@);
                lemma_same_policy_lookup(policies@, p.subrange(0, k as int), key);
                if has_policy(p.subrange(0, k as int), key) {
                    let j = choose|j: int| 0 <= j < k && #[trigger] p.subrange(0, k as int)[j].key
                        == key;
                    assert(p[j].key == key);
                }
                if exists|j: int| 0 <= j < n1 - 1 && #[trigger] p[j].key == key {
                    let j = choose|j: int| 0 <= j < n1 - 1 && #[trigger] p[j].key == key;
                    assert(p.subrange(0, k as int)[j].key == key);
                }
            }
            if !insert_policy(&mut policies, entry) {
                proof {
                    lemma_policies_error_sticks(p, h, players, recall, mh, n1, p.len());
                }
                return Err(SolverError::DuplicatePolicy(key));
            }
            proof {
                let pos = choose|pos: int| 0 <= pos <= before.len() && policies@ == before.insert(
                    pos,
                    p[k as int],
                );
                assert forall|x: PolicyEntry| policies@.contains(x) <==> p.subrange(
                    0,
                    n1 as int,
                ).contains(x) by {
                    lemma_insert_contains(before, pos, p[k as int], x);
                    lemma_prefix_contains(p, k as int, x);
                }
                assert forall|x: PolicyEntry| #[trigger] policies@.contains(x) implies column_widths_agree(
                    x.column,
                ) by {
                    lemma_insert_contains(before, pos, p[k as int], x);
                }
                let q = p.subrange(0, n1 as int);
                assert forall|a: int, b: int| 0 <= a < b < q.len() implies #[trigger] q[a].key
                    != #[trigger] q[b].key by {
                    if b < k {
                        assert(p.subrange(0, k as int)[a] == q[a]);
                        assert(p.subrange(0, k as int)[b] == q[b]);
                    } else {
                        assert(q[b] == p[k as int]);
                        assert(q[a] == p[a]);
                    }
                }
            }
            k = k + 1;
        }
        proof {
            assert(k == p.len()) by {
                assert(rest@.len() == p.len() - k);
            }
            assert(p.subrange(0, p.len() as int) =~= p);
        }
        if memory > current.max_memory_bytes {
            return Err(SolverError::MemoryLimit { limit: current.max_memory_bytes, needed: memory });
        }
        proof {
            assert forall|i: int| 0 <= i < policies@.len() implies column_widths_agree(
                #[trigger] policies@[i].column,
            ) by {
                assert(policies@.contains(policies@[i]));
            }
        }
        Ok(
            MultiwaySolver {
                config,
                num_players,
                recall,
                histories,
                policies,
                approx_memory_bytes: memory,
                traversals,
                completed_sweeps,
                next_sample_id,
                total_deal_attempts,
                terminal_evaluations,
                hand_updates,
            },
        )
    }
}

impl MultiwaySolver {
    /// Empty storage for a game with `num_players` seats and recall mode
    /// `recall`, a deal sampler for `sampler_players` seats and `config`.
    pub fn new(
        num_players: usize,
        sampler_players: usize,
        recall: RecallMode,
        config: SolverConfig,
    ) -> (r: Result<
        MultiwaySolver,
        SolverError,
    >)
        ensures
            r is Err <==> setup_verdict(
                num_players as nat,
                sampler_players as nat,
                recall,
                config,
            ) is Err,
            r is Err ==> r->Err_0 == setup_verdict(
                num_players as nat,
                sampler_players as nat,
                recall,
                config,
            )->Err_0,
            r matches Ok(st) ==> {
                &&& st.wf()
                &&& st.spec_config() == config
                &&& st.spec_num_players() == num_players
                &&& st.spec_recall() == recall
                &&& st.spec_histories().len() == 0
                &&& st.spec_policies().len() == 0
                &&& st.spec_memory() == 0
                &&& st.spec_counters() == (0u64, 0u64, 0u64, 0u64, 0u64, 0u64)
            },
            r matches Ok(st) ==> (!crate::float_bits::f64_is_nan(config.prune_threshold_bits)
                && !crate::float_bits::f64_is_nan(config.prune_skip_probability_bits) ==> resumable(
                st,
                sampler_players as nat,
            )),
    {
        validate_setup(num_players, sampler_players, recall, config)?;
        proof {
            assert(ranked_histories(Seq::<HistoryEntry>::empty(), Seq::<HistoryKey>::empty()));
        }
        Ok(
            MultiwaySolver {
                config,
                num_players,
                recall,
                histories: Vec::new(),
                policies: Vec::new(),
                approx_memory_bytes: 0,
                traversals: 0,
                completed_sweeps: 0,
                next_sample_id: 0,
                total_deal_attempts: 0,
                terminal_evaluations: 0,
                hand_updates: 0,
            },
        )
    }

    /// The configuration in force.
    pub fn config(&self) -> (r: SolverConfig)
        ensures
            r == self.spec_config(),
    {
        self.config
    }

    /// Number of seats.
    pub fn num_players(&self) -> (r: usize)
        ensures
            r == self.spec_num_players(),
    {
        self.num_players
    }

    /// Completed sweeps so far.
    pub fn completed_sweeps(&self) -> (r: u64)
        ensures
            r == self.spec_counters().1,
    {
        self.completed_sweeps
    }

    /// Individual player traversals so far.
    pub fn traversals(&self) -> (r: u64)
        ensures
            r == self.spec_counters().0,
    {
        self.traversals
    }

    /// Sample id the next traversal reads.
    pub fn next_sample_id(&self) -> (r: u64)
        ensures
            r == self.spec_counters().2,
    {
        self.next_sample_id
    }

    /// Deal attempts over all traversals so far.
    pub fn total_deal_attempts(&self) -> (r: u64)
        ensures
            r == self.spec_counters().3,
    {
        self.total_deal_attempts
    }

    /// Terminal evaluations over all traversals so far.
    pub fn terminal_evaluations(&self) -> (r: u64)
        ensures
            r == self.spec_counters().4,
    {
        self.terminal_evaluations
    }

    /// Individual hand updates over all traversals so far.
    pub fn hand_updates(&self) -> (r: u64)
        ensures
            r == self.spec_counters().5,
    {
        self.hand_updates
    }

    /// Number of stored information sets.
    pub fn infosets(&self) -> (r: u64)
        ensures
            r == self.spec_policies().len(),
    {
        self.policies.len() as u64
    }

    /// Memory charged for stored columns and histories.
    pub fn memory_bytes(&self) -> (r: u64)
        ensures
            r == self.spec_memory(),
    {
        self.approx_memory_bytes
    }

    /// The stored public-history entry for `key`, if visited.
    pub fn history_entry(&self, key: HistoryKey) -> (r: Option<HistoryEntry>)
        requires
            self.wf(),
        ensures
            r == stored_history(self.spec_histories(), key),
    {
        match find_history(&self.histories, &key) {
            Some(i) => Some(self.histories[i].clone()),
            None => None,
        }
    }

    /// A copy of the stored policy column for `key`, if visited.
    pub fn policy(&self, key: InfoKey) -> (r: Option<PolicyColumn>)
        requires
            self.wf(),
        ensures
            r is Some <==> has_policy(self.spec_policies(), key),
            r matches Some(c) ==> stored_policy(self.spec_policies(), key) == Some(c@),
    {
        match find_policy(&self.policies, &key) {
            Some(i) => Some(self.policies[i].column.clone()),
            None => None,
        }
    }

    /// Every stored policy key, in key order.
    pub fn policy_keys(&self) -> (r: Vec<InfoKey>)
        ensures
            r@.len() == self.spec_policies().len(),
            forall|i: int| 0 <= i < r@.len() ==> #[trigger] r@[i] == self.spec_policies()[i].key,
    {
        let mut keys: Vec<InfoKey> = Vec::new();
        let mut i: usize = 0;
        while i < self.policies.len()
            invariant
                i <= self.policies@.len(),
                keys@.len() == i,
                forall|j: int| 0 <= j < i ==> #[trigger] keys@[j] == self.policies@[j].key,
            decreases self.policies@.len() - i,
        {
            keys.push(self.policies[i].key);
            i = i + 1;
        }
        keys
    }

    /// The stored column under `key`, borrowed.
    pub fn column_ref(&self, key: InfoKey) -> (r: Option<&PolicyColumn>)
        requires
            self.wf(),
        ensures
            r matches Some(c) ==> stored_policy(self.spec_policies(), key) == Some(c@),
            r is None ==> stored_policy(self.spec_policies(), key) is None,
    {
        match find_policy(&self.policies, &key) {
            Some(i) => Some(&self.policies[i].column),
            None => None,
        }
    }

    /// The stored history entry under `key`, borrowed.
    pub fn history_ref(&self, key: HistoryKey) -> (r: Option<&HistoryEntry>)
        requires
            self.wf(),
        ensures
            r matches Some(e) ==> stored_history(self.spec_histories(), key) == Some(*e),
            r is None ==> stored_history(self.spec_histories(), key) is None,
    {
        match find_history(&self.histories, &key) {
            Some(i) => Some(&self.histories[i]),
            None => None,
        }
    }

    /// Every stored policy at public history `history`, in key order.
    pub fn policies_at(&self, history: HistoryKey) -> (r: Vec<PolicyEntry>)
        ensures
            r@.len() == self.spec_policies().filter(|e: PolicyEntry| e.key.history == history).len(),
            forall|i: int|
                0 <= i < r@.len() ==> #[trigger] r@[i].key == self.spec_policies().filter(
                    |e: PolicyEntry| e.key.history == history,
                )[i].key && r@[i].column@ == self.spec_policies().filter(
                    |e: PolicyEntry| e.key.history == history,
                )[i].column@,
    {
        let ghost pred = |e: PolicyEntry| e.key.history == history;
        let mut out: Vec<PolicyEntry> = Vec::new();
        let mut i: usize = 0;
        while i < self.policies.len()
            invariant
                i <= self.policies@.len(),
                pred == (|e: PolicyEntry| e.key.history == history),
                out@.len() == self.policies@.subrange(0, i as int).filter(pred).len(),
                forall|j: int|
                    0 <= j < out@.len() ==> #[trigger] out@[j].key == self.policies@.subrange(
                        0,
                        i as int,
                    ).filter(pred)[j].key && out@[j].column@ == self.policies@.subrange(
                        0,
                        i as int,
                    ).filter(pred)[j].column@,
            decreases self.policies@.len() - i,
        {
            let ghost prefix = self.policies@.subrange(0, i as int);
            let ghost next = self.policies@.subrange(0, i + 1);
            let ghost old_out = out@;
            assert(next.drop_last() =~= prefix);
            assert(next.last() == self.policies@[i as int]);
            reveal_with_fuel(Seq::filter, 1);
            assert(next.filter(pred) == if pred(next.last()) {
                prefix.filter(pred).push(next.last())
            } else {
                prefix.filter(pred)
            });
            if same_history(&self.policies[i].key.history, &history) {
                let e = self.policies[i].clone();
                out.push(e);
                assert(pred(next.last()));
                assert forall|j: int| 0 <= j < out@.len() implies #[trigger] out@[j].key
                    == next.filter(pred)[j].key && out@[j].column@ == next.filter(pred)[j].column@ by {
                    if j < old_out.len() {
                        assert(out@[j] == old_out[j]);
                    }
                }
            } else {
                assert(!pred(next.last()));
            }
            i = i + 1;
        }
        assert(self.policies@.subrange(0, self.policies@.len() as int) =~= self.policies@);
        out
    }

    /// The checkpoint of this storage: schema version, configuration,
    /// counters, and every history and policy in key order.
    pub fn snapshot_state(&self) -> (r: SolverState)
        ensures
            snapshot_of(*self, r),
    {
        let histories = self.histories.clone();
        proof {
            assert forall|i: int| 0 <= i < histories@.len() implies histories@[i]
                == self.histories@[i] by {
                assert(vstd::pervasive::cloned(self.histories@[i], histories@[i]));
            }
            assert(histories@ =~= self.histories@);
        }
        let mut policies: Vec<PolicyEntry> = Vec::new();
        let mut i: usize = 0;
        while i < self.policies.len()
            invariant
                i <= self.policies@.len(),
                policies@.len() == i,
                forall|j: int|
                    0 <= j < i ==> #[trigger] policies@[j].key == self.policies@[j].key
                        && policies@[j].column@ == self.policies@[j].column@,
            decreases self.policies@.len() - i,
        {
            policies.push(self.policies[i].clone());
            i = i + 1;
        }
        SolverState {
            schema_version: SOLVER_STATE_VERSION,
            config: self.config,
            traversals: self.traversals,
            completed_sweeps: self.completed_sweeps,
            next_sample_id: self.next_sample_id,
            total_deal_attempts: self.total_deal_attempts,
            terminal_evaluations: self.terminal_evaluations,
            hand_updates: self.hand_updates,
            histories,
            policies,
        }
    }
}

impl MultiwaySolver {
    /// Every stored history entry whose parent is `parent`, ordered by
    /// (actor, action index).
    pub fn node_children(&self, parent: HistoryKey) -> (r: Vec<HistoryEntry>)
        ensures
            r@.to_multiset() == self.spec_histories().filter(
                |e: HistoryEntry| e.parent == parent,
            ).to_multiset(),
            forall|i: int, j: int| 0 <= i < j < r@.len() ==> child_order_le(r@[i], r@[j]),
    {
        let ghost pred = |e: HistoryEntry| e.parent == parent;
        let mut out: Vec<HistoryEntry> = Vec::new();
        let mut i: usize = 0;
        proof {
            reveal_with_fuel(Seq::filter, 1);
            assert(self.histories@.subrange(0, 0).filter(pred) =~= Seq::<HistoryEntry>::empty());
            assert(out@ =~= Seq::<HistoryEntry>::empty());
        }
        while i < self.histories.len()
            invariant
                i <= self.histories@.len(),
                pred == (|e: HistoryEntry| e.parent == parent),
                out@.to_multiset() == self.histories@.subrange(0, i as int).filter(pred).to_multiset(),
                forall|a: int, b: int| 0 <= a < b < out@.len() ==> child_order_le(out@[a], out@[b]),
            decreases self.histories@.len() - i,
        {
            let ghost prefix = self.histories@.subrange(0, i as int);
            let ghost next = self.histories@.subrange(0, i + 1);
            assert(next.drop_last() =~= prefix);
            assert(next.last() == self.histories@[i as int]);
            reveal_with_fuel(Seq::filter, 1);
            assert(next.filter(pred) == if pred(next.last()) {
                prefix.filter(pred).push(next.last())
            } else {
                prefix.filter(pred)
            });
            if same_history(&self.histories[i].parent, &parent) {
                let e = self.histories[i].clone();
                let mut p: usize = 0;
                while p < out.len()
                    invariant
                        p <= out@.len(),
                        forall|a: int| 0 <= a < p ==> child_order_le(#[trigger] out@[a], e),
                    ensures
                        p <= out@.len(),
                        forall|a: int| 0 <= a < p ==> child_order_le(#[trigger] out@[a], e),
                        p < out@.len() ==> !child_order_le(out@[p as int], e),
                    decreases out@.len() - p,
                {
                    if out[p].actor > e.actor || (out[p].actor == e.actor && out[p].action_index
                        > e.action_index) {
                        break;
                    }
                    p = p + 1;
                }
                let ghost before = out@;
                out.insert(p, e);
                proof {
                    vstd::seq_lib::to_multiset_insert(before, p as int, e);
                    vstd::seq_lib::to_multiset_build(prefix.filter(pred), next.last());
                    assert forall|a: int, b: int| 0 <= a < b < out@.len() implies child_order_le(
                        out@[a],
                        out@[b],
                    ) by {
                        if b < p {
                            assert(out@[a] == before[a] && out@[b] == before[b]);
                        } else if b == p {
                            assert(out@[a] == before[a]);
                        } else if a < p {
                            assert(out@[a] == before[a] && out@[b] == before[b - 1]);
                            assert(child_order_le(before[a], e));
                            if p < before.len() {
                                assert(!child_order_le(before[p as int], e));
                                if b - 1 > p {
                                    assert(child_order_le(before[p as int], before[b - 1]));
                                }
                            }
                        } else if a == p {
                            assert(out@[b] == before[b - 1]);
                            assert(!child_order_le(before[p as int], e));
                            if b - 1 > p {
                                assert(child_order_le(before[p as int], before[b - 1]));
                            }
                        } else {
                            assert(out@[a] == before[a - 1] && out@[b] == before[b - 1]);
                        }
                    }
                }
            }
            i = i + 1;
        }
        assert(self.histories@.subrange(0, self.histories@.len() as int) =~= self.histories@);
        out
    }

    /// The root-to-node action labels of a public-history key.  The walk is
    /// bounded by the number of stored entries plus one, so a trie that
    /// contains a cycle answers `None` instead of looping.
    pub fn resolve_history(&self, key: HistoryKey) -> (r: Option<Vec<String>>)
        requires
            self.wf(),
        ensures
            r is Some <==> label_path(self.spec_histories(), key, self.spec_histories().len() + 1)
                is Some,
            r matches Some(v) ==> v@ == label_path(
                self.spec_histories(),
                key,
                self.spec_histories().len() + 1,
            )->Some_0,
    {
        let ghost s = self.histories@;
        let ghost total = (s.len() + 1) as nat;
        let mut current = key;
        let mut reversed_labels: Vec<String> = Vec::new();
        let mut steps_left: usize = self.histories.len();
        loop
            invariant
                s == self.histories@,
                histories_sorted(s),
                total == s.len() + 1,
                steps_left <= s.len(),
                label_path(s, key, total) == match label_path(s, current, (steps_left + 1) as nat) {
                    None => None,
                    Some(p) => Some(p + reversed_labels@.reverse()),
                },
            decreases steps_left,
        {
            if is_root_key(&current) {
                assert(Seq::<String>::empty() + reversed_labels@.reverse() =~= reversed_labels@.reverse());
                let labels = reversed(reversed_labels);
                return Some(labels);
            }
            let i = match find_history(&self.histories, &current) {
                None => {
                    return None;
                },
                Some(i) => i,
            };
            let ghost old_current = current;
            let ghost old_rev = reversed_labels@;
            let label = self.histories[i].action_label.clone();
            current = self.histories[i].parent;
            reversed_labels.push(label);
            proof {
                assert(reversed_labels@.reverse() =~= seq![label] + old_rev.reverse());
                assert forall|p: Seq<String>| p.push(label) + old_rev.reverse() =~= p
                    + reversed_labels@.reverse() by {}
                assert(label_path(s, old_current, (steps_left + 1) as nat) == match label_path(
                    s,
                    current,
                    steps_left as nat,
                ) {
                    None => None,
                    Some(p) => Some(p.push(label)),
                });
            }
            if steps_left == 0 {
                assert(label_path(s, current, 0) == if current.is_root() {
                    Some(Seq::<String>::empty())
                } else {
                    None
                });
                if is_root_key(&current) {
                    assert(Seq::<String>::empty() + reversed_labels@.reverse() =~= reversed_labels@.reverse());
                    let labels = reversed(reversed_labels);
                    return Some(labels);
                }
                return None;
            }
            steps_left = steps_left - 1;
        }
    }
}

/// Replaces the regret and strategy-sum bits of the column stored under
/// `key` in a sorted policy vector; both widths must equal the column's
/// action count.
pub fn replace_column_values(
    policies: &mut Vec<PolicyEntry>,
    key: InfoKey,
    regrets: Vec<u32>,
    strategy_sum: Vec<u32>,
) -> (r: Result<(), SolverError>)
    requires
        policies_sorted(old(policies)@),
        forall|i: int| 0 <= i < old(policies)@.len() ==> column_widths_agree(#[trigger] old(policies)@[i].column),
    ensures
        policies_sorted(final(policies)@),
        forall|i: int| 0 <= i < final(policies)@.len() ==> column_widths_agree(#[trigger] final(policies)@[i].column),
        r == replace_verdict(stored_policy(old(policies)@, key), key, regrets@.len(), strategy_sum@.len()),
        r is Err ==> *final(policies) == *old(policies),
        r is Ok ==> {
            &&& final(policies)@.len() == old(policies)@.len()
            &&& forall|i: int| 0 <= i < final(policies)@.len() ==> #[trigger] final(policies)@[i].key == old(policies)@[i].key
            &&& stored_policy(final(policies)@, key) == Some((stored_policy(old(policies)@, key)->Some_0.0, regrets@, strategy_sum@))
            &&& forall|k: InfoKey| k != key ==> #[trigger] stored_policy(final(policies)@, k) == stored_policy(old(policies)@, k)
        },
{
    proof {
        lemma_sorted_policies_unique(policies@);
        lemma_stored_policy_at(policies@, key);
    }
    let i = match find_policy(policies, &key) {
        None => {
            return Err(
                SolverError::InvalidState("column update refers to an uninitialized policy"),
            );
        },
        Some(i) => i,
    };
    let width = policies[i].column.action_labels.len();
    if regrets.len() != width {
        return Err(
            SolverError::ActionCountChanged { key, stored: width, current: regrets.len() },
        );
    }
    if strategy_sum.len() != width {
        return Err(
            SolverError::ActionCountChanged { key, stored: width, current: strategy_sum.len() },
        );
    }
    let ghost before = policies@;
    let entry = &mut policies[i];
    entry.column.regrets = regrets;
    entry.column.strategy_sum = strategy_sum;
    proof {
        let after = policies@;
        assert forall|a: int, b: int| 0 <= a < b < after.len() implies info_lt(
            #[trigger] after[a].key,
            #[trigger] after[b].key,
        ) by {
            assert(after[a].key == before[a].key && after[b].key == before[b].key);
        }
        assert forall|a: int| 0 <= a < after.len() implies column_widths_agree(
            #[trigger] after[a].column,
        ) by {
            if a != i {
                assert(after[a] == before[a]);
            }
        }
        lemma_sorted_policies_unique(after);
        lemma_stored_policy_at(after, key);
        assert(after[i as int].key == key && before[i as int].key == key);
        assert(after[i as int].column@ == (
            before[i as int].column@.0,
            after[i as int].column.regrets@,
            after[i as int].column.strategy_sum@,
        ));
        assert forall|k: InfoKey| k != key implies #[trigger] stored_policy(after, k)
            == stored_policy(before, k) by {
            lemma_stored_policy_at(after, k);
            lemma_stored_policy_at(before, k);
            if has_policy(before, k) {
                let j = choose|j: int| 0 <= j < before.len() && #[trigger] before[j].key == k;
                assert(after[j].key == k);
                assert(j != i);
                assert(after[j] == before[j]);
            }
            if has_policy(after, k) {
                let j = choose|j: int| 0 <= j < after.len() && #[trigger] after[j].key == k;
                assert(before[j].key == k);
            }
        }
    }
    Ok(())
}

/// Outcome of replacing a column's values: the key must be stored, and both
/// new widths must equal the stored action count.
pub open spec fn replace_verdict(
    stored: Option<(Seq<String>, Seq<u32>, Seq<u32>)>,
    key: InfoKey,
    regrets: nat,
    strategy_sum: nat,
) -> Result<(), SolverError> {
    match stored {
        None => Err(SolverError::InvalidState("column update refers to an uninitialized policy")),
        Some(c) => if regrets != c.0.len() {
            Err(
                SolverError::ActionCountChanged {
                    key,
                    stored: c.0.len() as usize,
                    current: regrets as usize,
                },
            )
        } else if strategy_sum != c.0.len() {
            Err(
                SolverError::ActionCountChanged {
                    key,
                    stored: c.0.len() as usize,
                    current: strategy_sum as usize,
                },
            )
        } else {
            Ok(())
        },
    }
}

/// Stores `entry` under its key, replacing what was stored there.
pub fn upsert_policy(s: &mut Vec<PolicyEntry>, entry: PolicyEntry)
    requires
        policies_sorted(old(s)@),
        forall|i: int| 0 <= i < old(s)@.len() ==> column_widths_agree(#[trigger] old(s)@[i].column),
        column_widths_agree(entry.column),
    ensures
        policies_sorted(final(s)@),
        forall|i: int| 0 <= i < final(s)@.len() ==> column_widths_agree(#[trigger] final(s)@[i].column),
        forall|k: InfoKey| #[trigger]
            stored_policy(final(s)@, k) == if k == entry.key {
                Some(entry.column@)
            } else {
                stored_policy(old(s)@, k)
            },
{
    let ghost before = s@;
    let ghost e = entry;
    let (p, found) = locate_policy(s, &entry.key);
    if found {
        s.set(p, entry);
        proof {
            let after = s@;
            assert(after == before.update(p as int, e));
            assert forall|a: int, b: int| 0 <= a < b < after.len() implies info_lt(
                #[trigger] after[a].key,
                #[trigger] after[b].key,
            ) by {
                assert(after[a].key == before[a].key && after[b].key == before[b].key);
            }
            assert forall|a: int| 0 <= a < after.len() implies column_widths_agree(
                #[trigger] after[a].column,
            ) by {
                if a != p {
                    assert(after[a] == before[a]);
                }
            }
            lemma_sorted_policies_unique(before);
            lemma_sorted_policies_unique(after);
            assert forall|k: InfoKey| #[trigger]
                stored_policy(after, k) == if k == e.key {
                    Some(e.column@)
                } else {
                    stored_policy(before, k)
                } by {
                lemma_stored_policy_at(after, k);
                lemma_stored_policy_at(before, k);
                assert(after[p as int] == e);
                if k != e.key {
                    if has_policy(before, k) {
                        let j = choose|j: int| 0 <= j < before.len() && #[trigger] before[j].key == k;
                        assert(after[j] == before[j]);
                    }
                    if has_policy(after, k) {
                        let j = choose|j: int| 0 <= j < after.len() && #[trigger] after[j].key == k;
                        assert(after[j] == before[j]);
                    }
                }
            }
        }
    } else {
        proof {
            lemma_sorted_policies_unique(before);
        }
        insert_policy(s, entry);
        proof {
            let p = choose|p: int| 0 <= p <= before.len() && s@ == before.insert(p, e);
            crate::merge::lemma_insert_policy_lookup(before, s@, p, e);
            assert forall|a: int| 0 <= a < s@.len() implies column_widths_agree(
                #[trigger] s@[a].column,
            ) by {
                if a < p {
                    assert(s@[a] == before[a]);
                } else if a > p {
                    assert(s@[a] == before[a - 1]);
                }
            }
        }
    }
}

/// Stores `entry` under its key, replacing what was stored there.
pub fn upsert_history(s: &mut Vec<HistoryEntry>, entry: HistoryEntry)
    requires
        histories_sorted(old(s)@),
    ensures
        histories_sorted(final(s)@),
        forall|k: HistoryKey| #[trigger]
            stored_history(final(s)@, k) == if k == entry.key {
                Some(entry)
            } else {
                stored_history(old(s)@, k)
            },
{
    let ghost before = s@;
    let ghost e = entry;
    let (p, found) = locate_history(s, &entry.key);
    if found {
        s.set(p, entry);
        proof {
            let after = s@;
            assert(after == before.update(p as int, e));
            assert forall|a: int, b: int| 0 <= a < b < after.len() implies history_lt(
                #[trigger] after[a].key,
                #[trigger] after[b].key,
            ) by {
                assert(after[a].key == before[a].key && after[b].key == before[b].key);
            }
            lemma_sorted_histories_unique(before);
            lemma_sorted_histories_unique(after);
            assert forall|k: HistoryKey| #[trigger]
                stored_history(after, k) == if k == e.key {
                    Some(e)
                } else {
                    stored_history(before, k)
                } by {
                lemma_stored_history_at(after, k);
                lemma_stored_history_at(before, k);
                assert(after[p as int] == e);
                if k != e.key {
                    if has_history(before, k) {
                        let j = choose|j: int| 0 <= j < before.len() && #[trigger] before[j].key == k;
                        assert(after[j] == before[j]);
                    }
                    if has_history(after, k) {
                        let j = choose|j: int| 0 <= j < after.len() && #[trigger] after[j].key == k;
                        assert(after[j] == before[j]);
                    }
                }
            }
        }
    } else {
        proof {
            lemma_sorted_histories_unique(before);
        }
        insert_history(s, entry);
        proof {
            let p = choose|p: int| 0 <= p <= before.len() && s@ == before.insert(p, e);
            crate::merge::lemma_insert_history_lookup(before, s@, p, e);
        }
    }
}

/// What a lookup gives after `staged` is laid over `stored`.
pub open spec fn overlay<V>(staged: Option<V>, stored: Option<V>) -> Option<V> {
    match staged {
        Some(v) => Some(v),
        None => stored,
    }
}

impl MultiwaySolver {
    /// Replaces the regret and strategy-sum bits of the column stored under
    /// `key`; the widths must match the column's action count.
    pub fn set_column_values(&mut self, key: InfoKey, regrets: Vec<u32>, strategy_sum: Vec<u32>) -> (r:
        Result<(), SolverError>)
        requires
            old(self).wf(),
        ensures
            final(self).wf(),
            r == replace_verdict(stored_policy(old(self).spec_policies(), key), key, regrets@.len(), strategy_sum@.len()),
            r is Err ==> *final(self) == *old(self),
            r is Ok ==> {
                &&& final(self).spec_policies().len() == old(self).spec_policies().len()
                &&& forall|i: int| 0 <= i < final(self).spec_policies().len() ==> #[trigger] final(self).spec_policies()[i].key == old(self).spec_policies()[i].key
                &&& stored_policy(final(self).spec_policies(), key) == Some(
                    (stored_policy(old(self).spec_policies(), key)->Some_0.0, regrets@, strategy_sum@),
                )
                &&& forall|k: InfoKey|
                    k != key ==> #[trigger] stored_policy(final(self).spec_policies(), k)
                        == stored_policy(old(self).spec_policies(), k)
                &&& final(self).spec_histories() == old(self).spec_histories()
                &&& final(self).spec_counters() == old(self).spec_counters()
                &&& final(self).spec_memory() == old(self).spec_memory()
                &&& final(self).spec_config() == old(self).spec_config()
                &&& final(self).spec_num_players() == old(self).spec_num_players()
                &&& final(self).spec_recall() == old(self).spec_recall()
            },
    {
        replace_column_values(&mut self.policies, key, regrets, strategy_sum)
    }

    /// Stages one sweep of per-seat deltas against this store (see
    /// `merge::stage_sweep`); the store is not changed.
    pub fn stage_sweep(&self, deltas: &Vec<TraversalDelta>) -> (plan: SweepPlan)
        requires
            self.wf(),
        ensures
            plan.wf(),
            ({
                let o = sweep_outcome(
                    self.spec_policies(),
                    self.spec_histories(),
                    self.spec_config().max_memory_bytes,
                    self.spec_num_players(),
                    self.spec_counters(),
                    self.spec_memory(),
                    deltas@,
                );
                plan.holds(o.0, o.1, swept_counters(self.spec_counters(), self.spec_num_players(), o.0))
            }),
    {
        crate::merge::stage_sweep(
            &self.policies,
            &self.histories,
            self.config.max_memory_bytes,
            self.num_players,
            (
                self.traversals,
                self.completed_sweeps,
                self.next_sample_id,
                self.total_deal_attempts,
                self.terminal_evaluations,
                self.hand_updates,
            ),
            self.approx_memory_bytes,
            deltas,
        )
    }

    /// Commits a staged sweep: a plan that recorded a rejection returns it
    /// and leaves the store unchanged; otherwise every staged column and
    /// history entry is stored under its key, the others stay, and the
    /// memory charge and counters become the plan's.
    #[verifier::loop_isolation(false)]
    pub fn commit_sweep(&mut self, plan: SweepPlan) -> (r: Result<(), SolverError>)
        requires
            old(self).wf(),
            plan.wf(),
        ensures
            match plan.spec_failure() {
                Some(e) => r == Err::<(), SolverError>(e) && *final(self) == *old(self),
                None => {
                    &&& r is Ok
                    &&& final(self).wf()
                    &&& forall|k: InfoKey| #[trigger]
                        stored_policy(final(self).spec_policies(), k) == overlay(
                            stored_policy(plan.spec_policies(), k),
                            stored_policy(old(self).spec_policies(), k),
                        )
                    &&& forall|k: HistoryKey| #[trigger]
                        stored_history(final(self).spec_histories(), k) == overlay(
                            stored_history(plan.spec_histories(), k),
                            stored_history(old(self).spec_histories(), k),
                        )
                    &&& final(self).spec_memory() == plan.spec_memory()
                    &&& final(self).spec_counters() == plan.spec_counters()
                    &&& final(self).spec_config() == old(self).spec_config()
                    &&& final(self).spec_num_players() == old(self).spec_num_players()
                    &&& final(self).spec_recall() == old(self).spec_recall()
                },
            },
    {
        let ghost plan_pols = plan.spec_policies();
        let ghost plan_hists = plan.spec_histories();
        let (pols, hists, memory, counters, failure) = plan.into_parts();
        match failure {
            Some(e) => {
                return Err(e);
            },
            None => {},
        }
        let ghost old_pols = self.policies@;
        let ghost old_hists = self.histories@;
        proof {
            lemma_sorted_policies_unique(pols@);
            lemma_sorted_histories_unique(hists@);
        }
        let mut i: usize = 0;
        while i < pols.len()
            invariant
                i <= pols@.len(),
                pols@ == plan_pols,
                policies_sorted(self.policies@),
                forall|a: int|
                    0 <= a < self.policies@.len() ==> column_widths_agree(
                        #[trigger] self.policies@[a].column,
                    ),
                forall|k: InfoKey| #[trigger]
                    stored_policy(self.policies@, k) == if exists|j: int|
                        0 <= j < i && #[trigger] pols@[j].key == k {
                        stored_policy(pols@, k)
                    } else {
                        stored_policy(old_pols, k)
                    },
                self.histories@ == old_hists,
                self.config == old(self).config,
                self.num_players == old(self).num_players,
                self.recall == old(self).recall,
            decreases pols@.len() - i,
        {
            let entry = pols[i].clone();
            let ghost e = pols@[i as int];
            proof {
                assert(column_widths_agree(e.column));
                assert(entry.column.regrets@.len() == e.column.regrets@.len());
            }
            let ghost before = self.policies@;
            upsert_policy(&mut self.policies, entry);
            proof {
                assert forall|k: InfoKey| #[trigger]
                    stored_policy(self.policies@, k) == if exists|j: int|
                        0 <= j < i + 1 && #[trigger] pols@[j].key == k {
                        stored_policy(pols@, k)
                    } else {
                        stored_policy(old_pols, k)
                    } by {
                    lemma_stored_policy_at(pols@, k);
                    if k == e.key {
                        assert(pols@[i as int].key == k);
                    } else {
                        if exists|j: int| 0 <= j < i + 1 && #[trigger] pols@[j].key == k {
                            let j = choose|j: int| 0 <= j < i + 1 && #[trigger] pols@[j].key == k;
                            assert(j < i);
                        }
                    }
                }
            }
            i = i + 1;
        }
        let ghost mid_pols = self.policies@;
        let mut h: usize = 0;
        while h < hists.len()
            invariant
                h <= hists@.len(),
                self.policies@ == mid_pols,
                self.config == old(self).config,
                self.num_players == old(self).num_players,
                self.recall == old(self).recall,
                hists@ == plan_hists,
                histories_sorted(self.histories@),
                forall|k: HistoryKey| #[trigger]
                    stored_history(self.histories@, k) == if exists|j: int|
                        0 <= j < h && #[trigger] hists@[j].key == k {
                        stored_history(hists@, k)
                    } else {
                        stored_history(old_hists, k)
                    },
            decreases hists@.len() - h,
        {
            let entry = hists[h].clone();
            let ghost e = hists@[h as int];
            upsert_history(&mut self.histories, entry);
            proof {
                assert forall|k: HistoryKey| #[trigger]
                    stored_history(self.histories@, k) == if exists|j: int|
                        0 <= j < h + 1 && #[trigger] hists@[j].key == k {
                        stored_history(hists@, k)
                    } else {
                        stored_history(old_hists, k)
                    } by {
                    lemma_stored_history_at(hists@, k);
                    if k == e.key {
                        assert(hists@[h as int].key == k);
                    } else {
                        if exists|j: int| 0 <= j < h + 1 && #[trigger] hists@[j].key == k {
                            let j = choose|j: int| 0 <= j < h + 1 && #[trigger] hists@[j].key == k;
                            assert(j < h);
                        }
                    }
                }
            }
            h = h + 1;
        }
        proof {
            assert forall|k: InfoKey| #[trigger]
                stored_policy(self.policies@, k) == overlay(
                    stored_policy(pols@, k),
                    stored_policy(old_pols, k),
                ) by {
                lemma_stored_policy_at(pols@, k);
                if has_policy(pols@, k) {
                    let j = choose|j: int| 0 <= j < pols@.len() && #[trigger] pols@[j].key == k;
                    assert(pols@[j].key == k);
                }
            }
            assert forall|k: HistoryKey| #[trigger]
                stored_history(self.histories@, k) == overlay(
                    stored_history(hists@, k),
                    stored_history(old_hists, k),
                ) by {
                lemma_stored_history_at(hists@, k);
                if has_history(hists@, k) {
                    let j = choose|j: int| 0 <= j < hists@.len() && #[trigger] hists@[j].key == k;
                    assert(hists@[j].key == k);
                }
            }
        }
        self.approx_memory_bytes = memory;
        self.traversals = counters.0;
        self.completed_sweeps = counters.1;
        self.next_sample_id = counters.2;
        self.total_deal_attempts = counters.3;
        self.terminal_evaluations = counters.4;
        self.hand_updates = counters.5;
        Ok(())
    }

    /// The discount event due after the latest completed sweep, if any.
    pub fn discount_due(&self) -> (r: Option<u64>)
        requires
            self.wf(),
        ensures
            r == match crate::schedule::discount_event_spec(
                self.spec_counters().1 as nat,
                self.spec_config().discount_every as nat,
                self.spec_config().discount_until as nat,
            ) {
                Some(e) => Some(e as u64),
                None => None::<u64>,
            },
    {
        crate::schedule::discount_event(
            self.completed_sweeps,
            self.config.discount_every,
            self.config.discount_until,
        )
    }

    /// Preconditions of running `sweeps` more complete sweeps on `threads`
    /// workers from this state.
    pub fn check_run(&self, threads: usize, sweeps: u64) -> (r: Result<(), SolverError>)
        requires
            self.wf(),
        ensures
            r == crate::schedule::run_request_verdict(
                threads as nat,
                self.spec_counters().0 as nat,
                self.spec_num_players(),
                sweeps as nat,
            ),
    {
        crate::schedule::check_run_request(threads, self.traversals, self.num_players, sweeps)
    }
}

/// Two sorted history sequences with the same members are equal.
proof fn lemma_sorted_histories_equal(a: Seq<HistoryEntry>, b: Seq<HistoryEntry>)
    requires
        histories_sorted(a),
        histories_sorted(b),
        forall|x: HistoryEntry| a.contains(x) <==> b.contains(x),
    ensures
        a == b,
    decreases a.len(),
{
    if a.len() == 0 {
        if b.len() > 0 {
            assert(b.contains(b[0]));
        }
        assert(a =~= b);
    } else {
        assert(a.contains(a[0]));
        assert(b.len() > 0);
        assert(b.contains(b[0]));
        let j = choose|j: int| 0 <= j < b.len() && b[j] == a[0];
        let i = choose|i: int| 0 <= i < a.len() && a[i] == b[0];
        if j > 0 {
            assert(history_lt(b[0].key, b[j].key));
            if i > 0 {
                assert(history_lt(a[0].key, a[i].key));
                lemma_lex_asymmetric(
                    crate::order::history_digits(b[0].key),
                    crate::order::history_digits(a[0].key),
                );
            } else {
                lemma_lex_irreflexive(crate::order::history_digits(b[0].key));
            }
        }
        assert(a[0] == b[0]);
        let a1 = a.drop_first();
        let b1 = b.drop_first();
        assert(histories_sorted(a1)) by {
            assert forall|p: int, q: int| 0 <= p < q < a1.len() implies history_lt(
                #[trigger] a1[p].key,
                #[trigger] a1[q].key,
            ) by {
                assert(a1[p] == a[p + 1] && a1[q] == a[q + 1]);
            }
        }
        assert(histories_sorted(b1)) by {
            assert forall|p: int, q: int| 0 <= p < q < b1.len() implies history_lt(
                #[trigger] b1[p].key,
                #[trigger] b1[q].key,
            ) by {
                assert(b1[p] == b[p + 1] && b1[q] == b[q + 1]);
            }
        }
        assert forall|x: HistoryEntry| a1.contains(x) <==> b1.contains(x) by {
            if a1.contains(x) {
                let p = choose|p: int| 0 <= p < a1.len() && a1[p] == x;
                assert(a[p + 1] == x);
                assert(history_lt(a[0].key, x.key));
                assert(b.contains(x));
                let q = choose|q: int| 0 <= q < b.len() && b[q] == x;
                if q == 0 {
                    lemma_lex_irreflexive(crate::order::history_digits(x.key));
                }
                assert(b1[q - 1] == x);
            }
            if b1.contains(x) {
                let q = choose|q: int| 0 <= q < b1.len() && b1[q] == x;
                assert(b[q + 1] == x);
                assert(history_lt(b[0].key, x.key));
                assert(a.contains(x));
                let p = choose|p: int| 0 <= p < a.len() && a[p] == x;
                if p == 0 {
                    lemma_lex_irreflexive(crate::order::history_digits(x.key));
                }
                assert(a1[p - 1] == x);
            }
        }
        lemma_sorted_histories_equal(a1, b1);
        assert(a =~= seq![a[0]] + a1);
        assert(b =~= seq![b[0]] + b1);
    }
}

/// Two sorted policy sequences with the same members are equal.
proof fn lemma_sorted_policies_equal(a: Seq<PolicyEntry>, b: Seq<PolicyEntry>)
    requires
        policies_sorted(a),
        policies_sorted(b),
        forall|x: PolicyEntry| a.contains(x) <==> b.contains(x),
    ensures
        a == b,
    decreases a.len(),
{
    if a.len() == 0 {
        if b.len() > 0 {
            assert(b.contains(b[0]));
        }
        assert(a =~= b);
    } else {
        assert(a.contains(a[0]));
        assert(b.len() > 0);
        assert(b.contains(b[0]));
        let j = choose|j: int| 0 <= j < b.len() && b[j] == a[0];
        let i = choose|i: int| 0 <= i < a.len() && a[i] == b[0];
        if j > 0 {
            assert(info_lt(b[0].key, b[j].key));
            if i > 0 {
                assert(info_lt(a[0].key, a[i].key));
                lemma_lex_asymmetric(
                    crate::order::info_digits(b[0].key),
                    crate::order::info_digits(a[0].key),
                );
            } else {
                lemma_lex_irreflexive(crate::order::info_digits(b[0].key));
            }
        }
        assert(a[0] == b[0]);
        let a1 = a.drop_first();
        let b1 = b.drop_first();
        assert(policies_sorted(a1)) by {
            assert forall|p: int, q: int| 0 <= p < q < a1.len() implies info_lt(
                #[trigger] a1[p].key,
                #[trigger] a1[q].key,
            ) by {
                assert(a1[p] == a[p + 1] && a1[q] == a[q + 1]);
            }
        }
        assert(policies_sorted(b1)) by {
            assert forall|p: int, q: int| 0 <= p < q < b1.len() implies info_lt(
                #[trigger] b1[p].key,
                #[trigger] b1[q].key,
            ) by {
                assert(b1[p] == b[p + 1] && b1[q] == b[q + 1]);
            }
        }
        assert forall|x: PolicyEntry| a1.contains(x) <==> b1.contains(x) by {
            if a1.contains(x) {
                let p = choose|p: int| 0 <= p < a1.len() && a1[p] == x;
                assert(a[p + 1] == x);
                assert(info_lt(a[0].key, x.key));
                assert(b.contains(x));
                let q = choose|q: int| 0 <= q < b.len() && b[q] == x;
                if q == 0 {
                    lemma_lex_irreflexive(crate::order::info_digits(x.key));
                }
                assert(b1[q - 1] == x);
            }
            if b1.contains(x) {
                let q = choose|q: int| 0 <= q < b1.len() && b1[q] == x;
                assert(b[q + 1] == x);
                assert(info_lt(b[0].key, x.key));
                assert(a.contains(x));
                let p = choose|p: int| 0 <= p < a.len() && a[p] == x;
                if p == 0 {
                    lemma_lex_irreflexive(crate::order::info_digits(x.key));
                }
                assert(a1[p - 1] == x);
            }
        }
        lemma_sorted_policies_equal(a1, b1);
        assert(a =~= seq![a[0]] + a1);
        assert(b =~= seq![b[0]] + b1);
    }
}

/// Resuming from a store's own checkpoint, under the store's own
/// configuration, rebuilds the same store: the same history entries in the
/// same order, the same policy columns under the same keys, the same
/// counters, configuration and table size.
pub proof fn law_resume_reproduces_store(
    s: MultiwaySolver,
    st: SolverState,
    sampler_players: nat,
    r: MultiwaySolver,
)
    requires
        s.wf(),
        snapshot_of(s, st),
        restored_from(st, s.spec_config(), s.spec_num_players(), sampler_players, s.spec_recall(), r),
    ensures
        r.spec_histories() == s.spec_histories(),
        r.spec_policies().len() == s.spec_policies().len(),
        forall|i: int|
            0 <= i < r.spec_policies().len() ==> #[trigger] r.spec_policies()[i].key
                == s.spec_policies()[i].key && r.spec_policies()[i].column@
                == s.spec_policies()[i].column@,
        r.spec_counters() == s.spec_counters(),
        r.spec_config() == s.spec_config(),
        r.spec_num_players() == s.spec_num_players(),
        r.spec_recall() == s.spec_recall(),
{
    assert forall|x: HistoryEntry| r.histories@.contains(x) <==> st.histories@.contains(x) by {
        assert(r.spec_histories().contains(x) <==> st.histories@.contains(x));
    }
    assert forall|x: PolicyEntry| r.policies@.contains(x) <==> st.policies@.contains(x) by {
        assert(r.spec_policies().contains(x) <==> st.policies@.contains(x));
    }
    lemma_sorted_histories_equal(r.histories@, st.histories@);
    assert(policies_sorted(st.policies@)) by {
        assert forall|i: int, j: int| 0 <= i < j < st.policies@.len() implies info_lt(
            #[trigger] st.policies@[i].key,
            #[trigger] st.policies@[j].key,
        ) by {
            assert(st.policies@[i].key == s.policies@[i].key);
            assert(st.policies@[j].key == s.policies@[j].key);
        }
    }
    lemma_sorted_policies_equal(r.policies@, st.policies@);
    assert(adopted_config(st.config, s.spec_config()) == s.spec_config());
}

/// A checkpoint that loads saves back with exactly its history entries,
/// its policy columns under the same keys, its counters, and its
/// configuration with the current memory cap.
pub proof fn law_checkpoint_survives_resume(
    st: SolverState,
    current: SolverConfig,
    num_players: nat,
    sampler_players: nat,
    recall: RecallMode,
    r: MultiwaySolver,
    back: SolverState,
)
    requires
        restored_from(st, current, num_players, sampler_players, recall, r),
        snapshot_of(r, back),
    ensures
        forall|x: HistoryEntry| #[trigger] back.histories@.contains(x) <==> st.histories@.contains(x),
        forall|i: int|
            0 <= i < back.policies@.len() ==> exists|j: int|
                0 <= j < st.policies@.len() && #[trigger] st.policies@[j].key
                    == #[trigger] back.policies@[i].key && st.policies@[j].column@
                    == back.policies@[i].column@,
        forall|j: int|
            0 <= j < st.policies@.len() ==> exists|i: int|
                0 <= i < back.policies@.len() && #[trigger] st.policies@[j].key
                    == #[trigger] back.policies@[i].key && st.policies@[j].column@
                    == back.policies@[i].column@,
        back.config == adopted_config(st.config, current),
        (
            back.traversals,
            back.completed_sweeps,
            back.next_sample_id,
            back.total_deal_attempts,
            back.terminal_evaluations,
            back.hand_updates,
        ) == (
            st.traversals,
            st.completed_sweeps,
            st.next_sample_id,
            st.total_deal_attempts,
            st.terminal_evaluations,
            st.hand_updates,
        ),
{
    assert forall|i: int| 0 <= i < back.policies@.len() implies exists|j: int|
        0 <= j < st.policies@.len() && #[trigger] st.policies@[j].key
            == #[trigger] back.policies@[i].key && st.policies@[j].column@
            == back.policies@[i].column@ by {
        assert(r.policies@.contains(r.policies@[i]));
        assert(st.policies@.contains(r.policies@[i]));
        let j = choose|j: int| 0 <= j < st.policies@.len() && st.policies@[j] == r.policies@[i];
        assert(st.policies@[j].key == back.policies@[i].key);
    }
    assert forall|j: int| 0 <= j < st.policies@.len() implies exists|i: int|
        0 <= i < back.policies@.len() && #[trigger] st.policies@[j].key
            == #[trigger] back.policies@[i].key && st.policies@[j].column@
            == back.policies@[i].column@ by {
        assert(st.policies@.contains(st.policies@[j]));
        assert(r.policies@.contains(st.policies@[j]));
        let i = choose|i: int| 0 <= i < r.policies@.len() && r.policies@[i] == st.policies@[j];
        assert(back.policies@[i].key == st.policies@[j].key);
    }
}

/// A freshly created store's checkpoint resumes under the same
/// configuration with a zero memory charge.  (Resume compares the pruning
/// threshold and skip probability as numbers, so a NaN there, which setup
/// accepts while pruning is off, never matches itself.)
pub proof fn law_fresh_store_resumes(s: MultiwaySolver, st: SolverState, sampler_players: nat)
    requires
        setup_verdict(s.spec_num_players(), sampler_players, s.spec_recall(), s.spec_config()) is Ok,
        s.spec_histories().len() == 0,
        s.spec_policies().len() == 0,
        s.spec_counters() == (0u64, 0u64, 0u64, 0u64, 0u64, 0u64),
        !crate::float_bits::f64_is_nan(s.spec_config().prune_threshold_bits),
        !crate::float_bits::f64_is_nan(s.spec_config().prune_skip_probability_bits),
        snapshot_of(s, st),
    ensures
        restore_verdict(st, s.spec_config(), s.spec_num_players(), sampler_players, s.spec_recall())
            == Ok::<int, SolverError>(0),
{
    let c = s.spec_config();
    let recall = s.spec_recall();
    assert(configs_resumable(c, c));
    assert(st.histories@.len() == 0);
    assert(st.policies@.len() == 0);
    assert(resume_header_verdict(st, c, s.spec_num_players(), sampler_players, recall) is Ok);
}

/// What well-formedness promises about a solver's visible state: a table
/// of two to nine seats, a positive discount cadence, history and policy
/// entries in strictly increasing key order, and every column's widths in
/// agreement.
pub proof fn lemma_wf_facts(s: MultiwaySolver)
    requires
        s.wf(),
    ensures
        2 <= s.spec_num_players() <= 9,
        s.spec_config().discount_every > 0,
        histories_sorted(s.spec_histories()),
        policies_sorted(s.spec_policies()),
        forall|i: int|
            0 <= i < s.spec_policies().len() ==> column_widths_agree(#[trigger] s.spec_policies()[i].column),
{
}

/// Memory charged for the first `n` history entries of `h`.
pub open spec fn history_charges(h: Seq<HistoryEntry>, n: nat) -> int
    decreases n,
{
    if n == 0 || n > h.len() {
        0
    } else {
        history_charges(h, (n - 1) as nat) + history_memory(h[n - 1].action_label@)
    }
}

/// Memory charged for the first `n` policy columns of `p`.
pub open spec fn policy_charges(p: Seq<PolicyEntry>, n: nat) -> int
    decreases n,
{
    if n == 0 || n > p.len() {
        0
    } else {
        policy_charges(p, (n - 1) as nat) + entry_memory(p[n - 1].column.action_labels@)
    }
}

/// The entry stored under `order[a]` has the root, or a key ranked before
/// it, as parent.
pub open spec fn parent_ranked_before(h: Seq<HistoryEntry>, order: Seq<HistoryKey>, a: int) -> bool {
    match stored_history(h, order[a]) {
        Some(e) => e.parent.is_root() || exists|b: int| 0 <= b < a && order[b] == e.parent,
        None => false,
    }
}

/// `order` ranks every stored history key once, each after its parent: the
/// history trie is rooted and free of cycles.
pub open spec fn ranked_histories(h: Seq<HistoryEntry>, order: Seq<HistoryKey>) -> bool {
    &&& order.no_duplicates()
    &&& forall|a: int| 0 <= a < order.len() ==> #[trigger] parent_ranked_before(h, order, a)
    &&& forall|i: int| 0 <= i < h.len() ==> order.contains(#[trigger] h[i].key)
}

/// What a store must hold for its checkpoint to resume: a setup that
/// passes (pruning threshold and skip probability not NaN, since resume
/// compares them as numbers), counters that agree with the traversal
/// count, valid history entries whose ancestry reaches the root, policy
/// columns valid under the store's recall mode at the root or at a stored
/// history, and a memory charge
/// that is exactly the entries' charges and within the configured cap.
pub open spec fn resumable(s: MultiwaySolver, sampler_players: nat) -> bool {
    let h = s.spec_histories();
    let p = s.spec_policies();
    let np = s.spec_num_players();
    let recall = s.spec_recall();
    &&& setup_verdict(np, sampler_players, recall, s.spec_config()) is Ok
    &&& !crate::float_bits::f64_is_nan(s.spec_config().prune_threshold_bits)
    &&& !crate::float_bits::f64_is_nan(s.spec_config().prune_skip_probability_bits)
    &&& s.spec_counters().1 == (s.spec_counters().0 as nat) / np
    &&& s.spec_counters().2 == s.spec_counters().0
    &&& forall|i: int| 0 <= i < h.len() ==> history_entry_valid(#[trigger] h[i], np)
    &&& exists|order: Seq<HistoryKey>| ranked_histories(h, order)
    &&& forall|i: int|
        0 <= i < p.len() ==> column_verdict(#[trigger] p[i].key, p[i].column, np, recall)
            is Ok
    &&& forall|i: int|
        0 <= i < p.len() ==> (#[trigger] p[i].key).history.is_root() || has_history(
            h,
            p[i].key.history,
        )
    &&& history_charges(h, h.len()) + policy_charges(p, p.len()) == s.spec_memory()
    &&& s.spec_memory() <= s.spec_config().max_memory_bytes
}

proof fn lemma_history_charges_grow(h: Seq<HistoryEntry>, k: nat, n: nat)
    requires
        k <= n <= h.len(),
    ensures
        0 <= history_charges(h, k) <= history_charges(h, n),
    decreases n,
{
    if n > k {
        lemma_history_charges_grow(h, k, (n - 1) as nat);
    } else if k > 0 {
        lemma_history_charges_grow(h, (k - 1) as nat, (k - 1) as nat);
    }
}

proof fn lemma_policy_charges_grow(p: Seq<PolicyEntry>, k: nat, n: nat)
    requires
        k <= n <= p.len(),
    ensures
        0 <= policy_charges(p, k) <= policy_charges(p, n),
    decreases n,
{
    if n > k {
        lemma_policy_charges_grow(p, k, (n - 1) as nat);
    } else if k > 0 {
        lemma_policy_charges_grow(p, (k - 1) as nat, (k - 1) as nat);
    }
}

proof fn lemma_histories_replay(h: Seq<HistoryEntry>, np: nat, n: nat)
    requires
        n <= h.len(),
        histories_sorted(h),
        forall|i: int| 0 <= i < h.len() ==> history_entry_valid(#[trigger] h[i], np),
        history_charges(h, h.len()) <= u64::MAX,
    ensures
        histories_verdict(h, np, n) == Ok::<int, SolverError>(history_charges(h, n)),
    decreases n,
{
    if n > 0 {
        lemma_histories_replay(h, np, (n - 1) as nat);
        lemma_history_charges_grow(h, n, h.len());
        lemma_sorted_histories_unique(h);
        assert(history_entry_valid(h[n - 1], np));
        assert(!exists|j: int| 0 <= j < n - 1 && #[trigger] h[j].key == h[n - 1].key);
    }
}

proof fn lemma_graph_replay(h: Seq<HistoryEntry>, n: nat)
    requires
        n <= h.len(),
        forall|i: int| 0 <= i < h.len() ==> root_walk(h, #[trigger] h[i].parent, h.len() + 1) == 0,
    ensures
        graph_verdict(h, n) is Ok,
    decreases n,
{
    if n > 0 {
        lemma_graph_replay(h, (n - 1) as nat);
        assert(root_walk(h, h[n - 1].parent, h.len() + 1) == 0);
    }
}

proof fn lemma_policies_replay(
    p: Seq<PolicyEntry>,
    h: Seq<HistoryEntry>,
    np: nat,
    recall: RecallMode,
    base: int,
    n: nat,
)
    requires
        n <= p.len(),
        policies_sorted(p),
        0 <= base,
        forall|i: int|
            0 <= i < p.len() ==> column_verdict(#[trigger] p[i].key, p[i].column, np, recall)
                is Ok,
        forall|i: int|
            0 <= i < p.len() ==> (#[trigger] p[i].key).history.is_root() || has_history(
                h,
                p[i].key.history,
            ),
        base + policy_charges(p, p.len()) <= u64::MAX,
    ensures
        policies_verdict(p, h, np, recall, base, n) == Ok::<int, SolverError>(base + policy_charges(p, n)),
    decreases n,
{
    if n > 0 {
        lemma_policies_replay(p, h, np, recall, base, (n - 1) as nat);
        lemma_policy_charges_grow(p, n, p.len());
        lemma_sorted_policies_unique(p);
        assert(column_verdict(p[n - 1].key, p[n - 1].column, np, recall) is Ok);
        assert(p[n - 1].key.history.is_root() || has_history(h, p[n - 1].key.history));
        assert(!exists|j: int| 0 <= j < n - 1 && #[trigger] p[j].key == p[n - 1].key);
    }
}

proof fn lemma_ranked_walk(h: Seq<HistoryEntry>, order: Seq<HistoryKey>, a: int, fuel: nat)
    requires
        ranked_histories(h, order),
        0 <= a < order.len(),
        a < fuel,
    ensures
        root_walk(h, order[a], fuel) == 0,
    decreases a,
{
    assert(parent_ranked_before(h, order, a));
    if !order[a].is_root() {
        let e = stored_history(h, order[a])->Some_0;
        if !e.parent.is_root() {
            let b = choose|b: int| 0 <= b < a && order[b] == e.parent;
            lemma_ranked_walk(h, order, b, (fuel - 1) as nat);
        }
        assert(root_walk(h, e.parent, (fuel - 1) as nat) == 0);
        assert(root_walk(h, order[a], fuel) == root_walk(h, e.parent, (fuel - 1) as nat));
    }
}

proof fn lemma_ranked_graph(h: Seq<HistoryEntry>, order: Seq<HistoryKey>)
    requires
        histories_sorted(h),
        ranked_histories(h, order),
    ensures
        forall|i: int| 0 <= i < h.len() ==> root_walk(h, #[trigger] h[i].parent, h.len() + 1) == 0,
{
    let keys = h.map_values(|e: HistoryEntry| e.key);
    lemma_sorted_histories_unique(h);
    assert(order.len() <= h.len()) by {
        order.unique_seq_to_set();
        keys.lemma_cardinality_of_set();
        assert forall|x: HistoryKey| order.to_set().contains(x) implies keys.to_set().contains(x) by {
            let a = choose|a: int| 0 <= a < order.len() && order[a] == x;
            assert(parent_ranked_before(h, order, a));
            lemma_stored_history_at(h, x);
            let i = choose|i: int| 0 <= i < h.len() && #[trigger] h[i].key == x;
            assert(keys[i] == x);
        }
        vstd::set_lib::lemma_len_subset(order.to_set(), keys.to_set());
    }
    assert forall|i: int| 0 <= i < h.len() implies root_walk(h, #[trigger] h[i].parent, h.len() + 1)
        == 0 by {
        assert(order.contains(h[i].key));
        let a = choose|a: int| 0 <= a < order.len() && order[a] == h[i].key;
        assert(parent_ranked_before(h, order, a));
        lemma_sorted_histories_unique(h);
        lemma_stored_history_at(h, h[i].key);
        assert(stored_history(h, h[i].key) == Some(h[i]));
        if !h[i].parent.is_root() {
            let b = choose|b: int| 0 <= b < a && order[b] == h[i].parent;
            lemma_ranked_walk(h, order, b, h.len() + 1);
        }
    }
}

/// A store that meets `resumable` saves a checkpoint that resumes under the
/// store's own configuration and recall mode, with exactly the store's
/// memory charge.
pub proof fn law_resumable_store_resumes(s: MultiwaySolver, st: SolverState, sampler_players: nat)
    requires
        s.wf(),
        resumable(s, sampler_players),
        snapshot_of(s, st),
    ensures
        restore_verdict(st, s.spec_config(), s.spec_num_players(), sampler_players, s.spec_recall())
            == Ok::<int, SolverError>(s.spec_memory() as int),
{
    let c = s.spec_config();
    let recall = s.spec_recall();
    let np = s.spec_num_players();
    let h = st.histories@;
    let sp = s.spec_policies();
    let p = st.policies@;
    assert(configs_resumable(c, c));
    assert(resume_header_verdict(st, c, np, sampler_players, recall) is Ok);
    lemma_history_charges_grow(h, h.len(), h.len());
    lemma_policy_charges_grow(sp, sp.len(), sp.len());
    lemma_histories_replay(h, np, h.len());
    let order = choose|order: Seq<HistoryKey>| ranked_histories(h, order);
    lemma_ranked_graph(h, order);
    lemma_graph_replay(h, h.len());
    assert(policy_charges(p, p.len()) == policy_charges(sp, sp.len())) by {
        assert forall|i: int| 0 <= i < p.len() implies (#[trigger] p[i]).column@ == sp[i].column@ by {
            assert(p[i].key == sp[i].key);
        }
        assert forall|n: nat| n <= p.len() implies policy_charges(p, n) == policy_charges(sp, n) by {
            lemma_policy_charges_agree(p, sp, n);
        }
    }
    assert(policies_sorted(p)) by {
        assert forall|i: int, j: int| 0 <= i < j < p.len() implies info_lt(
            #[trigger] p[i].key,
            #[trigger] p[j].key,
        ) by {
            assert(p[i].key == sp[i].key);
            assert(p[j].key == sp[j].key);
        }
    }
    assert forall|i: int| 0 <= i < p.len() implies column_verdict(
        #[trigger] p[i].key,
        p[i].column,
        np,
        recall,
    ) is Ok by {
        assert(p[i].key == sp[i].key && p[i].column@ == sp[i].column@);
        assert(column_verdict(sp[i].key, sp[i].column, np, recall) is Ok);
    }
    assert forall|i: int| 0 <= i < p.len() implies (#[trigger] p[i].key).history.is_root()
        || has_history(h, p[i].key.history) by {
        assert(p[i].key == sp[i].key);
        assert(sp[i].key.history.is_root() || has_history(h, sp[i].key.history));
    }
    lemma_policies_replay(p, h, np, recall, history_charges(h, h.len()), p.len());
}

proof fn lemma_policy_charges_agree(p: Seq<PolicyEntry>, q: Seq<PolicyEntry>, n: nat)
    requires
        n <= p.len(),
        p.len() == q.len(),
        forall|i: int| 0 <= i < p.len() ==> (#[trigger] p[i]).column@ == q[i].column@,
    ensures
        policy_charges(p, n) == policy_charges(q, n),
    decreases n,
{
    if n > 0 {
        lemma_policy_charges_agree(p, q, (n - 1) as nat);
        assert(p[n - 1].column@ == q[n - 1].column@);
    }
}

} // verus!
