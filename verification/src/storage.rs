//! Policy columns, action menus and memory accounting.
use vstd::prelude::*;

use crate::errors::SolverError;
use crate::float_bits::{f32_finite, f32_is_finite, f32_is_negative, f32_negative};
use crate::keys::{
    key_private_info, private_info_verdict, validate_private_info, HistoryEntry, HistoryKey, InfoKey,
};
use crate::types::RecallMode;

verus! {

/// Fixed per-column hash-entry overhead charged by the memory accounting.
pub const ENTRY_OVERHEAD_BYTES: u64 = 64;

/// Fixed per-history hash-entry overhead charged by the memory accounting.
pub const HISTORY_OVERHEAD_BYTES: u64 = 48;

/// One information set's stored policy.  Regrets and strategy sums are
/// binary32 values held as their bit patterns.
#[derive(Debug, PartialEq, Eq)]
pub struct PolicyColumn {
    /// Stable index-to-action mapping persisted with checkpoints.
    pub action_labels: Vec<String>,
    /// Cumulative sampled counterfactual regrets (binary32 bits).
    pub regrets: Vec<u32>,
    /// Cumulative reach-weighted strategy numerators (binary32 bits).
    pub strategy_sum: Vec<u32>,
}

/// A policy column together with its information-set key.
#[derive(Debug, PartialEq, Eq)]
pub struct PolicyEntry {
    pub key: InfoKey,
    pub column: PolicyColumn,
}

impl View for PolicyColumn {
    /// Labels, regret bits and strategy-sum bits.
    type V = (Seq<String>, Seq<u32>, Seq<u32>);

    open spec fn view(&self) -> (Seq<String>, Seq<u32>, Seq<u32>) {
        (self.action_labels@, self.regrets@, self.strategy_sum@)
    }
}

impl Clone for PolicyColumn {
    fn clone(&self) -> (r: Self)
        ensures
            r@ == self@,
    {
        let action_labels = self.action_labels.clone();
        let regrets = self.regrets.clone();
        let strategy_sum = self.strategy_sum.clone();
        assert(action_labels@ =~= self.action_labels@);
        assert(regrets@ =~= self.regrets@);
        assert(strategy_sum@ =~= self.strategy_sum@);
        PolicyColumn { action_labels, regrets, strategy_sum }
    }
}

impl Clone for PolicyEntry {
    fn clone(&self) -> (r: Self)
        ensures
            r.key == self.key,
            r.column@ == self.column@,
    {
        PolicyEntry { key: self.key, column: self.column.clone() }
    }
}

/// The characters of each label.
pub open spec fn label_views(labels: Seq<String>) -> Seq<Seq<char>> {
    labels.map_values(|s: String| s@)
}

/// Every label is non-empty.
pub open spec fn labels_nonempty(labels: Seq<Seq<char>>) -> bool {
    forall|i: int| 0 <= i < labels.len() ==> #[trigger] labels[i].len() > 0
}

/// No label occurs twice.
pub open spec fn labels_distinct(labels: Seq<Seq<char>>) -> bool {
    forall|i: int, j: int| 0 <= i < j < labels.len() ==> labels[i] != labels[j]
}

/// Outcome of validating an action menu: empty labels are reported before
/// duplicates.
pub open spec fn labels_verdict(labels: Seq<Seq<char>>) -> Result<(), SolverError> {
    if !labels_nonempty(labels) {
        Err(SolverError::InvalidActionLabels("empty action label"))
    } else if !labels_distinct(labels) {
        Err(SolverError::InvalidActionLabels("duplicate action label"))
    } else {
        Ok(())
    }
}

/// Action labels at an information set must be non-empty and unique.
#[verifier::loop_isolation(false)]
pub fn validate_action_labels(labels: &[String]) -> (r: Result<(), SolverError>)
    ensures
        r == labels_verdict(label_views(labels@)),
{
    let ghost views = label_views(labels@);
    let mut i: usize = 0;
    while i < labels.len()
        invariant
            i <= labels@.len(),
            views == label_views(labels@),
            forall|k: int| 0 <= k < i ==> #[trigger] views[k].len() > 0,
        decreases labels@.len() - i,
    {
        if labels[i].as_str().is_empty() {
            assert(views[i as int].len() == 0);
            return Err(SolverError::InvalidActionLabels("empty action label"));
        }
        i = i + 1;
    }
    let mut j: usize = 0;
    while j < labels.len()
        invariant
            j <= labels@.len(),
            views == label_views(labels@),
            labels_nonempty(views),
            forall|a: int, b: int| 0 <= a < b < j ==> views[a] != views[b],
        decreases labels@.len() - j,
    {
        let mut k: usize = 0;
        while k < j
            invariant
                k <= j < labels@.len(),
                views == label_views(labels@),
                forall|a: int| 0 <= a < k ==> views[a] != views[j as int],
            decreases j - k,
        {
            if labels[k] == labels[j] {
                assert(views[k as int] == views[j as int]);
                return Err(SolverError::InvalidActionLabels("duplicate action label"));
            }
            k = k + 1;
        }
        j = j + 1;
    }
    Ok(())
}

/// Number of UTF-8 bytes of a label.
pub open spec fn utf8_len(s: Seq<char>) -> nat {
    vstd::utf8::encode_utf8(s).len()
}

/// Sum over the first `n` labels of a `String` header plus its UTF-8 bytes.
pub open spec fn label_payload(labels: Seq<String>, n: nat) -> nat
    decreases n,
{
    if n == 0 || n > labels.len() {
        0
    } else {
        label_payload(labels, (n - 1) as nat) + vstd::layout::size_of::<String>() + utf8_len(
            labels[n - 1]@,
        )
    }
}

/// Bytes charged for a new policy column with these labels.
pub open spec fn entry_memory(labels: Seq<String>) -> int {
    vstd::layout::size_of::<InfoKey>() + vstd::layout::size_of::<PolicyColumn>()
        + ENTRY_OVERHEAD_BYTES + 8 * labels.len() + label_payload(labels, labels.len())
}

/// Bytes charged for a new public-history entry with this label.
pub open spec fn history_memory(label: Seq<char>) -> int {
    vstd::layout::size_of::<HistoryKey>() + vstd::layout::size_of::<HistoryEntry>()
        + HISTORY_OVERHEAD_BYTES + utf8_len(label)
}

/// Memory charged for a new policy column; fails when the charge does not
/// fit in a `u64`.
pub fn entry_memory_bytes(action_labels: &[String]) -> (r: Result<u64, SolverError>)
    ensures
        match r {
            Ok(v) => v == entry_memory(action_labels@),
            Err(e) => e == SolverError::MemoryAccountingOverflow && entry_memory(action_labels@)
                > u64::MAX,
        },
{
    let overflow = Err(SolverError::MemoryAccountingOverflow);
    let string_header = core::mem::size_of::<String>() as u64;
    let mut labels: u64 = 0;
    let mut i: usize = 0;
    while i < action_labels.len()
        invariant
            i <= action_labels@.len(),
            string_header == vstd::layout::size_of::<String>(),
            labels == label_payload(action_labels@, i as nat),
        decreases action_labels@.len() - i,
    {
        let len = action_labels[i].as_str().as_bytes().len() as u64;
        assert(label_payload(action_labels@, (i + 1) as nat) == labels + string_header + len);
        match labels.checked_add(string_header) {
            Some(v) => match v.checked_add(len) {
                Some(w) => labels = w,
                None => {
                    proof { lemma_payload_monotone(action_labels@, (i + 1) as nat); }
                    return Err(SolverError::MemoryAccountingOverflow);
                },
            },
            None => {
                proof { lemma_payload_monotone(action_labels@, (i + 1) as nat); }
                return Err(SolverError::MemoryAccountingOverflow);
            },
        }
        i = i + 1;
    }
    let count = action_labels.len() as u64;
    let vector_bytes = match count.checked_mul(8) {
        Some(v) => v,
        None => return overflow,
    };
    let key_bytes = core::mem::size_of::<InfoKey>() as u64;
    let column_bytes = core::mem::size_of::<PolicyColumn>() as u64;
    let total = match key_bytes.checked_add(column_bytes) {
        Some(v) => v,
        None => return overflow,
    };
    let total = match total.checked_add(ENTRY_OVERHEAD_BYTES) {
        Some(v) => v,
        None => return overflow,
    };
    let total = match total.checked_add(vector_bytes) {
        Some(v) => v,
        None => return overflow,
    };
    match total.checked_add(labels) {
        Some(v) => Ok(v),
        None => overflow,
    }
}

/// The label payload only grows as labels are added.
proof fn lemma_payload_monotone(labels: Seq<String>, n: nat)
    requires
        n <= labels.len(),
    ensures
        label_payload(labels, n) <= label_payload(labels, labels.len()),
    decreases labels.len() - n,
{
    if n < labels.len() {
        lemma_payload_monotone(labels, n + 1);
    }
}

/// Memory charged for a new public-history entry; fails when the charge
/// does not fit in a `u64`.
pub fn history_memory_bytes(action_label: &str) -> (r: Result<u64, SolverError>)
    ensures
        match r {
            Ok(v) => v == history_memory(action_label@),
            Err(e) => e == SolverError::MemoryAccountingOverflow && history_memory(action_label@)
                > u64::MAX,
        },
{
    let overflow = Err(SolverError::MemoryAccountingOverflow);
    let key_bytes = core::mem::size_of::<HistoryKey>() as u64;
    let entry_bytes = core::mem::size_of::<HistoryEntry>() as u64;
    let total = match key_bytes.checked_add(entry_bytes) {
        Some(v) => v,
        None => return overflow,
    };
    let total = match total.checked_add(HISTORY_OVERHEAD_BYTES) {
        Some(v) => v,
        None => return overflow,
    };
    match total.checked_add(action_label.as_bytes().len() as u64) {
        Some(v) => Ok(v),
        None => overflow,
    }
}

/// Every bit pattern in the slice is a finite binary32 value.
pub open spec fn all_finite(values: Seq<u32>) -> bool {
    forall|i: int| 0 <= i < values.len() ==> f32_is_finite(#[trigger] values[i])
}

/// No bit pattern in the slice is a binary32 value below zero.
pub open spec fn none_negative(values: Seq<u32>) -> bool {
    forall|i: int| 0 <= i < values.len() ==> !f32_is_negative(#[trigger] values[i])
}

/// Outcome of validating a checkpointed policy column, in the solver's
/// check order.
pub open spec fn column_verdict(
    key: InfoKey,
    column: PolicyColumn,
    num_players: nat,
    recall: RecallMode,
) -> Result<(), SolverError> {
    let labels = column.action_labels@;
    let regrets = column.regrets@;
    let sums = column.strategy_sum@;
    if key.player >= num_players {
        Err(SolverError::InvalidState("policy player is out of range"))
    } else if private_info_verdict(key_private_info(key), num_players, recall) is Err {
        private_info_verdict(key_private_info(key), num_players, recall)
    } else if labels_verdict(label_views(labels)) is Err {
        labels_verdict(label_views(labels))
    } else if regrets.len() == 0 || regrets.len() != sums.len() || regrets.len() != labels.len() {
        Err(SolverError::InvalidState("policy vectors are empty or have different lengths"))
    } else if !all_finite(regrets) || !all_finite(sums) {
        Err(SolverError::InvalidState("policy contains a non-finite value"))
    } else if !none_negative(sums) {
        Err(SolverError::InvalidState("strategy sums must be non-negative"))
    } else {
        Ok(())
    }
}

fn check_finite(values: &[u32]) -> (r: bool)
    ensures
        r == all_finite(values@),
{
    let mut i: usize = 0;
    while i < values.len()
        invariant
            i <= values@.len(),
            forall|k: int| 0 <= k < i ==> f32_is_finite(#[trigger] values@[k]),
        decreases values@.len() - i,
    {
        if !f32_finite(values[i]) {
            assert(!f32_is_finite(values@[i as int]));
            return false;
        }
        i = i + 1;
    }
    true
}

fn check_none_negative(values: &[u32]) -> (r: bool)
    ensures
        r == none_negative(values@),
{
    let mut i: usize = 0;
    while i < values.len()
        invariant
            i <= values@.len(),
            forall|k: int| 0 <= k < i ==> !f32_is_negative(#[trigger] values@[k]),
        decreases values@.len() - i,
    {
        if f32_negative(values[i]) {
            assert(f32_is_negative(values@[i as int]));
            return false;
        }
        i = i + 1;
    }
    true
}

/// Checks a checkpointed policy column against the table size and the
/// game's recall mode.
pub fn validate_column(key: InfoKey, column: &PolicyColumn, num_players: usize, recall: RecallMode) -> (r:
    Result<(), SolverError>)
    ensures
        r == column_verdict(key, *column, num_players as nat, recall),
{
    if key.player as usize >= num_players {
        return Err(SolverError::InvalidState("policy player is out of range"));
    }
    let info = crate::keys::PrivateInfo {
        street: key.street,
        active_opponents: key.active_opponents,
        bucket_path: key.bucket_path,
    };
    assert(info == key_private_info(key));
    validate_private_info(info, num_players, recall)?;
    validate_action_labels(column.action_labels.as_slice())?;
    let n = column.regrets.len();
    if n == 0 || n != column.strategy_sum.len() || n != column.action_labels.len() {
        return Err(SolverError::InvalidState("policy vectors are empty or have different lengths"));
    }
    if !check_finite(column.regrets.as_slice()) || !check_finite(column.strategy_sum.as_slice()) {
        return Err(SolverError::InvalidState("policy contains a non-finite value"));
    }
    if !check_none_negative(column.strategy_sum.as_slice()) {
        return Err(SolverError::InvalidState("strategy sums must be non-negative"));
    }
    Ok(())
}

impl PolicyColumn {
    /// A fresh column: the given labels, all regrets and sums `+0.0`.
    pub fn zeroed(action_labels: Vec<String>) -> (r: Self)
        ensures
            r.action_labels@ == action_labels@,
            r.regrets@ == Seq::new(action_labels@.len(), |i: int| 0u32),
            r.strategy_sum@ == Seq::new(action_labels@.len(), |i: int| 0u32),
    {
        let n = action_labels.len();
        let mut regrets: Vec<u32> = Vec::new();
        let mut i: usize = 0;
        while i < n
            invariant
                i <= n,
                regrets@ == Seq::new(i as nat, |k: int| 0u32),
            decreases n - i,
        {
            regrets.push(0);
            assert(regrets@ =~= Seq::new((i + 1) as nat, |k: int| 0u32));
            i = i + 1;
        }
        let strategy_sum = regrets.clone();
        PolicyColumn { action_labels, regrets, strategy_sum }
    }

    /// Number of actions, read from the regret vector.
    pub fn num_actions(&self) -> (r: usize)
        ensures
            r == self.regrets@.len(),
    {
        self.regrets.len()
    }
}

} // verus!
