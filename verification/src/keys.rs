//! Information-set and public-history keys.
use vstd::prelude::*;

use crate::digest::{blake3_digest, blake3_hash, le_bytes, push_all, push_le};
use crate::domains::{history_domain, history_domain_bytes};
use crate::errors::SolverError;
use crate::types::{BucketId, RecallMode, Street, UNREACHED_BUCKET};

verus! {

broadcast use vstd::array::group_array_axioms;

/// Chained public-history hash; the root is all zeros.
#[derive(Clone, Copy, Debug, PartialEq, Eq, Hash, PartialOrd, Ord)]
pub struct HistoryKey(pub [u8; 16]);

/// Key of one information set.
#[derive(Clone, Copy, Debug, PartialEq, Eq, Hash, PartialOrd, Ord)]
pub struct InfoKey {
    pub history: HistoryKey,
    pub player: u8,
    pub street: u8,
    pub active_opponents: u8,
    pub bucket_path: [BucketId; 4],
}

/// Private information of the acting seat: its street, how many opponents
/// are still active, and its bucket on each street.
#[derive(Clone, Copy, Debug, PartialEq, Eq, Hash, PartialOrd, Ord)]
pub struct PrivateInfo {
    pub street: u8,
    pub active_opponents: u8,
    pub bucket_path: [BucketId; 4],
}

/// One edge in the compact visited public-history trie. The root is implicit.
#[derive(Debug, PartialEq, Eq)]
pub struct HistoryEntry {
    pub key: HistoryKey,
    pub parent: HistoryKey,
    pub actor: u8,
    pub action_index: u32,
    pub action_label: String,
}

impl Clone for HistoryEntry {
    fn clone(&self) -> (r: Self)
        ensures
            r == *self,
    {
        HistoryEntry {
            key: self.key,
            parent: self.parent,
            actor: self.actor,
            action_index: self.action_index,
            action_label: self.action_label.clone(),
        }
    }
}

/// Bytes hashed to derive a child history key: the domain, the parent key,
/// then the actor and the action index as little-endian `u64`s.
pub open spec fn history_child_frame(parent: Seq<u8>, actor: nat, action: nat) -> Seq<u8> {
    history_domain() + parent + le_bytes(actor, 8) + le_bytes(action, 8)
}

/// The first 16 digest bytes of [`history_child_frame`].
pub open spec fn history_child_bytes(parent: Seq<u8>, actor: nat, action: nat) -> Seq<u8> {
    blake3_digest(history_child_frame(parent, actor, action)).subrange(0, 16)
}

impl HistoryKey {
    /// The implicit root of every public history: sixteen zero bytes.
    pub fn root() -> (r: HistoryKey)
        ensures
            r.is_root(),
    {
        let r = HistoryKey([0u8; 16]);
        assert(r.0@ =~= Seq::new(16, |i: int| 0u8));
        r
    }

    /// The root key is sixteen zero bytes.
    pub open spec fn is_root(self) -> bool {
        self.0@ == Seq::new(16, |i: int| 0u8)
    }

    /// The key reached from `self` when `actor` takes action `action_index`.
    pub fn child(self, actor: usize, action_index: usize) -> (r: HistoryKey)
        ensures
            r.0@ == history_child_bytes(self.0@, actor as nat, action_index as nat),
            r == child_key(self, actor as nat, action_index as nat),
    {
        let mut frame = history_domain_bytes();
        push_all(&mut frame, self.0.as_slice());
        push_le(&mut frame, actor as u64, 8);
        push_le(&mut frame, action_index as u64, 8);
        let d = blake3_hash(frame.as_slice());
        let r = HistoryKey(
            [
                d[0],
                d[1],
                d[2],
                d[3],
                d[4],
                d[5],
                d[6],
                d[7],
                d[8],
                d[9],
                d[10],
                d[11],
                d[12],
                d[13],
                d[14],
                d[15],
            ],
        );
        assert(r.0@ =~= d@.subrange(0, 16));
        proof {
            let a = choose|a: [u8; 16]| #[trigger]
                a@ == history_child_bytes(self.0@, actor as nat, action_index as nat);
            assert(a =~= r.0);
        }
        r
    }
}

/// The key reached from `parent` when `actor` takes action `action`: the
/// key whose bytes are [`history_child_bytes`].
pub open spec fn child_key(parent: HistoryKey, actor: nat, action: nat) -> HistoryKey {
    HistoryKey(choose|a: [u8; 16]| #[trigger] a@ == history_child_bytes(parent.0@, actor, action))
}

/// `true` iff both keys hold the same bytes.
pub fn same_history(a: &HistoryKey, b: &HistoryKey) -> (r: bool)
    ensures
        r == (*a == *b),
{
    let mut i: usize = 0;
    while i < 16
        invariant
            i <= 16,
            forall|k: int| 0 <= k < i ==> a.0@[k] == b.0@[k],
        decreases 16 - i,
    {
        if a.0[i] != b.0[i] {
            return false;
        }
        i = i + 1;
    }
    assert(a.0 =~= b.0);
    true
}

/// `true` iff the key is the root key.
pub fn is_root_key(key: &HistoryKey) -> (r: bool)
    ensures
        r == key.is_root(),
{
    let root = HistoryKey::root();
    let r = same_history(key, &root);
    proof {
        if key.is_root() {
            assert(key.0 =~= root.0);
        }
    }
    r
}

/// `true` iff both information-set keys are identical.
pub fn same_info_key(a: &InfoKey, b: &InfoKey) -> (r: bool)
    ensures
        r == (*a == *b),
{
    if !same_history(&a.history, &b.history) || a.player != b.player || a.street != b.street
        || a.active_opponents != b.active_opponents {
        return false;
    }
    let mut i: usize = 0;
    while i < 4
        invariant
            i <= 4,
            forall|k: int| 0 <= k < i ==> a.bucket_path@[k] == b.bucket_path@[k],
        decreases 4 - i,
    {
        if a.bucket_path[i] != b.bucket_path[i] {
            return false;
        }
        i = i + 1;
    }
    assert(a.bucket_path =~= b.bucket_path);
    true
}

/// Bucket path that keeps `path` on streets `0..=street` and hides the rest.
pub open spec fn path_through(street: nat, path: Seq<BucketId>) -> Seq<BucketId> {
    Seq::new(4, |i: int| if i <= street { path[i] } else { UNREACHED_BUCKET })
}

/// Bucket path that holds `bucket` on `street` only.
pub open spec fn path_only(street: nat, bucket: BucketId) -> Seq<BucketId> {
    Seq::new(4, |i: int| if i == street { bucket } else { UNREACHED_BUCKET })
}

/// Street-recall private information keeps exactly one bucket: the one it
/// was built from, on its own street; every other street is unreached.
pub proof fn law_street_recall_keeps_one_bucket(street: Street, bucket: BucketId)
    ensures
        path_only(street.spec_index(), bucket)[street.spec_index() as int] == bucket,
        forall|i: int|
            0 <= i < 4 && i != street.spec_index() ==> #[trigger] path_only(
                street.spec_index(),
                bucket,
            )[i] == UNREACHED_BUCKET,
{
}

/// Full-recall private information keeps the path's buckets through its own
/// street (so its current bucket is the path's bucket there) and hides every
/// later street.
pub proof fn law_full_recall_keeps_prefix(street: Street, path: Seq<BucketId>)
    requires
        path.len() == 4,
    ensures
        path_through(street.spec_index(), path)[street.spec_index() as int] == path[street.spec_index() as int],
        forall|i: int|
            0 <= i <= street.spec_index() ==> #[trigger] path_through(street.spec_index(), path)[i]
                == path[i],
        forall|i: int|
            street.spec_index() < i < 4 ==> #[trigger] path_through(street.spec_index(), path)[i]
                == UNREACHED_BUCKET,
{
}

impl PrivateInfo {
    /// Full-recall constructor: every street up to and including `street`
    /// keeps its bucket from `path`; later streets are unreached.
    pub fn from_path(street: Street, active_opponents: u8, path: [BucketId; 4]) -> (r: Self)
        ensures
            r.street == street.spec_index(),
            r.active_opponents == active_opponents,
            r.bucket_path@ == path_through(street.spec_index(), path@),
    {
        let s = street.index();
        let r = PrivateInfo {
            street: s as u8,
            active_opponents,
            bucket_path: [
                path[0],
                if s >= 1 { path[1] } else { UNREACHED_BUCKET },
                if s >= 2 { path[2] } else { UNREACHED_BUCKET },
                if s >= 3 { path[3] } else { UNREACHED_BUCKET },
            ],
        };
        assert(r.bucket_path@ =~= path_through(street.spec_index(), path@));
        r
    }

    /// The bucket on the current street.
    pub fn current_bucket(self) -> (r: BucketId)
        requires
            self.street < 4,
        ensures
            r == self.bucket_path@[self.street as int],
    {
        self.bucket_path[self.street as usize]
    }

    /// Street-recall constructor: only the current street's bucket is
    /// populated, every other street (earlier ones included) is unreached.
    pub fn from_current_bucket(street: Street, active_opponents: u8, bucket: BucketId) -> (r: Self)
        ensures
            r.street == street.spec_index(),
            r.active_opponents == active_opponents,
            r.bucket_path@ == path_only(street.spec_index(), bucket),
    {
        let s = street.index();
        let r = PrivateInfo {
            street: s as u8,
            active_opponents,
            bucket_path: [
                if s == 0 { bucket } else { UNREACHED_BUCKET },
                if s == 1 { bucket } else { UNREACHED_BUCKET },
                if s == 2 { bucket } else { UNREACHED_BUCKET },
                if s == 3 { bucket } else { UNREACHED_BUCKET },
            ],
        };
        assert(r.bucket_path@ =~= path_only(street.spec_index(), bucket));
        r
    }
}

/// The outcome the solver assigns to a private-information record:
/// the first failed check, in the order the solver performs them.
pub open spec fn private_info_verdict(info: PrivateInfo, num_players: nat, recall: RecallMode) -> Result<
    (),
    SolverError,
> {
    let path = info.bucket_path@;
    if info.street > 3 {
        Err(SolverError::InvalidPrivateInfo("street is outside 0..=3"))
    } else if info.active_opponents == 0 || info.active_opponents >= num_players {
        Err(SolverError::InvalidPrivateInfo("active opponents is outside 1..players"))
    } else {
        match recall {
            RecallMode::Full => {
                if exists|i: int| 0 <= i <= info.street && path[i] == UNREACHED_BUCKET {
                    Err(SolverError::InvalidPrivateInfo("reached street has sentinel bucket"))
                } else if exists|i: int| info.street < i < 4 && path[i] != UNREACHED_BUCKET {
                    Err(SolverError::InvalidPrivateInfo("future street bucket was exposed"))
                } else {
                    Ok(())
                }
            },
            RecallMode::Street => {
                if path[info.street as int] == UNREACHED_BUCKET {
                    Err(SolverError::InvalidPrivateInfo("current street has sentinel bucket"))
                } else if exists|i: int| 0 <= i < 4 && i != info.street && path[i] != UNREACHED_BUCKET {
                    Err(
                        SolverError::InvalidPrivateInfo(
                            "non-current street bucket was exposed under street recall",
                        ),
                    )
                } else {
                    Ok(())
                }
            },
        }
    }
}

/// Checks that a private-information record is well formed for a table of
/// `num_players` seats under the given recall mode.
#[verifier::loop_isolation(false)]
pub fn validate_private_info(info: PrivateInfo, num_players: usize, recall: RecallMode) -> (r:
    Result<(), SolverError>)
    ensures
        r == private_info_verdict(info, num_players as nat, recall),
{
    if info.street > 3 {
        return Err(SolverError::InvalidPrivateInfo("street is outside 0..=3"));
    }
    if info.active_opponents == 0 || info.active_opponents as usize >= num_players {
        return Err(SolverError::InvalidPrivateInfo("active opponents is outside 1..players"));
    }
    let s = info.street as usize;
    match recall {
        RecallMode::Full => {
            let mut i: usize = 0;
            while i <= s
                invariant
                    s == info.street,
                    s <= 3,
                    i <= s + 1,
                    forall|k: int| 0 <= k < i ==> info.bucket_path@[k] != UNREACHED_BUCKET,
                decreases s + 1 - i,
            {
                if info.bucket_path[i] == UNREACHED_BUCKET {
                    assert(info.bucket_path@[i as int] == UNREACHED_BUCKET);
                    return Err(SolverError::InvalidPrivateInfo("reached street has sentinel bucket"));
                }
                i = i + 1;
            }
            let mut j: usize = s + 1;
            while j < 4
                invariant
                    s == info.street,
                    s + 1 <= j <= 4,
                    forall|k: int| 0 <= k <= s ==> info.bucket_path@[k] != UNREACHED_BUCKET,
                    forall|k: int| s < k < j ==> info.bucket_path@[k] == UNREACHED_BUCKET,
                decreases 4 - j,
            {
                if info.bucket_path[j] != UNREACHED_BUCKET {
                    assert(info.bucket_path@[j as int] != UNREACHED_BUCKET);
                    return Err(SolverError::InvalidPrivateInfo("future street bucket was exposed"));
                }
                j = j + 1;
            }
            Ok(())
        },
        RecallMode::Street => {
            if info.bucket_path[s] == UNREACHED_BUCKET {
                return Err(SolverError::InvalidPrivateInfo("current street has sentinel bucket"));
            }
            let mut j: usize = 0;
            while j < 4
                invariant
                    j <= 4,
                    s == info.street,
                    s <= 3,
                    forall|k: int| 0 <= k < j && k != s ==> info.bucket_path@[k] == UNREACHED_BUCKET,
                decreases 4 - j,
            {
                if j != s && info.bucket_path[j] != UNREACHED_BUCKET {
                    assert(info.bucket_path@[j as int] != UNREACHED_BUCKET);
                    return Err(
                        SolverError::InvalidPrivateInfo(
                            "non-current street bucket was exposed under street recall",
                        ),
                    );
                }
                j = j + 1;
            }
            Ok(())
        },
    }
}

/// The private information an information-set key carries.
pub open spec fn key_private_info(key: InfoKey) -> PrivateInfo {
    PrivateInfo {
        street: key.street,
        active_opponents: key.active_opponents,
        bucket_path: key.bucket_path,
    }
}

/// A stored history entry is well formed: it is not the root, its actor is
/// a seat, its label is non-empty, and its key is the child of its parent.
pub open spec fn history_entry_valid(entry: HistoryEntry, num_players: nat) -> bool {
    &&& !entry.key.is_root()
    &&& entry.actor < num_players
    &&& entry.action_label@.len() > 0
    &&& entry.key.0@ == history_child_bytes(
        entry.parent.0@,
        entry.actor as nat,
        entry.action_index as nat,
    )
}

/// Checks one checkpointed public-history entry.
pub fn validate_history_entry(entry: &HistoryEntry, num_players: usize) -> (r: Result<
    (),
    SolverError,
>)
    ensures
        r is Ok <==> history_entry_valid(*entry, num_players as nat),
        r is Err ==> r == Err::<(), SolverError>(
            SolverError::InvalidState("invalid public history entry"),
        ),
{
    let invalid = Err(SolverError::InvalidState("invalid public history entry"));
    if is_root_key(&entry.key) {
        assert(entry.key.is_root());
        return invalid;
    }
    if entry.actor as usize >= num_players {
        return invalid;
    }
    if entry.action_label.as_str().is_empty() {
        assert(entry.action_label@.len() == 0);
        return invalid;
    }
    let expected = entry.parent.child(entry.actor as usize, entry.action_index as usize);
    if !same_history(&entry.key, &expected) {
        proof {
            if history_entry_valid(*entry, num_players as nat) {
                assert(entry.key.0 =~= expected.0);
            }
        }
        return invalid;
    }
    assert(!entry.key.is_root());
    assert(entry.action_label@.len() > 0);
    Ok(())
}

/// Private information is accepted exactly when its street is one of the
/// four, between one and `num_players - 1` opponents are active, and its
/// buckets fit the recall mode: under full recall every street up to the
/// current one has a real bucket and every later street the sentinel;
/// under street recall only the current street has a real bucket.  A record
/// with a valid street but an active-opponent count outside that range is
/// refused for its opponent count.
pub proof fn law_private_info_accepted_exactly(info: PrivateInfo, num_players: nat, recall: RecallMode)
    ensures
        private_info_verdict(info, num_players, recall) is Ok <==> {
            &&& info.street <= 3
            &&& 1 <= info.active_opponents < num_players
            &&& match recall {
                RecallMode::Full => forall|i: int|
                    0 <= i < 4 ==> (info.bucket_path[i] == UNREACHED_BUCKET <==> i > info.street),
                RecallMode::Street => forall|i: int|
                    0 <= i < 4 ==> (info.bucket_path[i] == UNREACHED_BUCKET <==> i != info.street),
            }
        },
        info.street <= 3 && !(1 <= info.active_opponents < num_players) ==> private_info_verdict(
            info,
            num_players,
            recall,
        ) == Err::<(), SolverError>(
            SolverError::InvalidPrivateInfo("active opponents is outside 1..players"),
        ),
{
    let path = info.bucket_path@;
    assert forall|i: int| 0 <= i < 4 implies path[i] == info.bucket_path[i] by {}
}

} // verus!
