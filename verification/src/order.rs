//! The total order on history and information-set keys: lexicographic over
//! the keys' fields in declaration order, arrays element by element.
use vstd::prelude::*;

use crate::keys::{HistoryKey, InfoKey};

verus! {

/// Strict lexicographic order on equal-length integer sequences.
pub open spec fn lex_lt(a: Seq<int>, b: Seq<int>) -> bool
    decreases a.len(),
{
    if a.len() == 0 || b.len() == 0 {
        false
    } else {
        a[0] < b[0] || (a[0] == b[0] && lex_lt(a.drop_first(), b.drop_first()))
    }
}

/// The fields of a history key, in order.
pub open spec fn history_digits(k: HistoryKey) -> Seq<int> {
    k.0@.map_values(|b: u8| b as int)
}

/// The fields of an information-set key, in order.
pub open spec fn info_digits(k: InfoKey) -> Seq<int> {
    history_digits(k.history) + seq![k.player as int, k.street as int, k.active_opponents as int]
        + k.bucket_path@.map_values(|b: u32| b as int)
}

/// `a` sorts strictly before `b`.
pub open spec fn history_lt(a: HistoryKey, b: HistoryKey) -> bool {
    lex_lt(history_digits(a), history_digits(b))
}

/// `a` sorts strictly before `b`.
pub open spec fn info_lt(a: InfoKey, b: InfoKey) -> bool {
    lex_lt(info_digits(a), info_digits(b))
}

/// Lexicographic order is irreflexive.
pub proof fn lemma_lex_irreflexive(a: Seq<int>)
    ensures
        !lex_lt(a, a),
    decreases a.len(),
{
    if a.len() > 0 {
        lemma_lex_irreflexive(a.drop_first());
    }
}

/// Lexicographic order is transitive.
pub proof fn lemma_lex_transitive(a: Seq<int>, b: Seq<int>, c: Seq<int>)
    requires
        lex_lt(a, b),
        lex_lt(b, c),
    ensures
        lex_lt(a, c),
    decreases a.len(),
{
    if a[0] == b[0] && b[0] == c[0] {
        lemma_lex_transitive(a.drop_first(), b.drop_first(), c.drop_first());
    }
}

/// Lexicographic order is total on distinct sequences of equal length.
pub proof fn lemma_lex_total(a: Seq<int>, b: Seq<int>)
    requires
        a.len() == b.len(),
        a != b,
    ensures
        lex_lt(a, b) || lex_lt(b, a),
    decreases a.len(),
{
    if a.len() == 0 {
        assert(a =~= b);
    } else if a[0] == b[0] {
        if a.drop_first() == b.drop_first() {
            assert(a =~= seq![a[0]] + a.drop_first());
            assert(b =~= seq![b[0]] + b.drop_first());
        }
        lemma_lex_total(a.drop_first(), b.drop_first());
    }
}

/// Lexicographic order is asymmetric.
pub proof fn lemma_lex_asymmetric(a: Seq<int>, b: Seq<int>)
    requires
        lex_lt(a, b),
    ensures
        !lex_lt(b, a),
{
    if lex_lt(b, a) {
        lemma_lex_transitive(a, b, a);
        lemma_lex_irreflexive(a);
    }
}

/// Equal prefixes leave the comparison to the suffixes.
proof fn lemma_lex_skip(a: Seq<int>, b: Seq<int>, i: int)
    requires
        0 <= i <= a.len(),
        a.len() == b.len(),
        a.subrange(0, i) == b.subrange(0, i),
    ensures
        lex_lt(a, b) == lex_lt(a.subrange(i, a.len() as int), b.subrange(i, b.len() as int)),
    decreases i,
{
    if i > 0 {
        assert(a[0] == a.subrange(0, i)[0]);
        assert(b[0] == b.subrange(0, i)[0]);
        let a1 = a.drop_first();
        let b1 = b.drop_first();
        assert(a1.subrange(0, i - 1) =~= a.subrange(0, i).drop_first());
        assert(b1.subrange(0, i - 1) =~= b.subrange(0, i).drop_first());
        lemma_lex_skip(a1, b1, i - 1);
        assert(a1.subrange(i - 1, a1.len() as int) =~= a.subrange(i, a.len() as int));
        assert(b1.subrange(i - 1, b1.len() as int) =~= b.subrange(i, b.len() as int));
    } else {
        assert(a.subrange(0, a.len() as int) =~= a);
        assert(b.subrange(0, b.len() as int) =~= b);
    }
}

/// Comparison of two digit sequences of equal length: `-1`, `0` or `1`.
fn compare_digits(a: &Vec<u32>, b: &Vec<u32>) -> (r: i8)
    requires
        a@.len() == b@.len(),
    ensures
        r == -1 <==> lex_lt(a@.map_values(|x: u32| x as int), b@.map_values(|x: u32| x as int)),
        r == 1 <==> lex_lt(b@.map_values(|x: u32| x as int), a@.map_values(|x: u32| x as int)),
        r == 0 <==> a@ == b@,
{
    let ghost da = a@.map_values(|x: u32| x as int);
    let ghost db = b@.map_values(|x: u32| x as int);
    let mut i: usize = 0;
    while i < a.len()
        invariant
            i <= a@.len() == b@.len(),
            da == a@.map_values(|x: u32| x as int),
            db == b@.map_values(|x: u32| x as int),
            a@.subrange(0, i as int) == b@.subrange(0, i as int),
        decreases a@.len() - i,
    {
        if a[i] != b[i] {
            proof {
                assert(da.subrange(0, i as int) =~= db.subrange(0, i as int)) by {
                    assert forall|k: int| 0 <= k < i implies da.subrange(0, i as int)[k]
                        == db.subrange(0, i as int)[k] by {
                        assert(a@.subrange(0, i as int)[k] == b@.subrange(0, i as int)[k]);
                    }
                }
                lemma_lex_skip(da, db, i as int);
                lemma_lex_skip(db, da, i as int);
                let sa = da.subrange(i as int, da.len() as int);
                let sb = db.subrange(i as int, db.len() as int);
                assert(sa[0] == a@[i as int] as int);
                assert(sb[0] == b@[i as int] as int);
            }
            if a[i] < b[i] {
                proof {
                    let sa = da.subrange(i as int, da.len() as int);
                    let sb = db.subrange(i as int, db.len() as int);
                    assert(lex_lt(sa, sb));
                    lemma_lex_asymmetric(sa, sb);
                }
                return -1;
            } else {
                proof {
                    let sa = da.subrange(i as int, da.len() as int);
                    let sb = db.subrange(i as int, db.len() as int);
                    assert(lex_lt(sb, sa));
                    lemma_lex_asymmetric(sb, sa);
                }
                return 1;
            }
        }
        assert(a@.subrange(0, i + 1) =~= a@.subrange(0, i as int).push(a@[i as int]));
        assert(b@.subrange(0, i + 1) =~= b@.subrange(0, i as int).push(b@[i as int]));
        i = i + 1;
    }
    assert(a@ =~= a@.subrange(0, a@.len() as int));
    assert(b@ =~= b@.subrange(0, b@.len() as int));
    assert(da =~= db);
    proof {
        lemma_lex_irreflexive(da);
    }
    0
}

fn history_digit_vec(k: &HistoryKey) -> (r: Vec<u32>)
    ensures
        r@.map_values(|x: u32| x as int) == history_digits(*k),
        r@.len() == 16,
{
    let mut out: Vec<u32> = Vec::new();
    let mut i: usize = 0;
    while i < 16
        invariant
            i <= 16,
            out@.len() == i,
            forall|j: int| 0 <= j < i ==> out@[j] == k.0@[j] as u32,
        decreases 16 - i,
    {
        out.push(k.0[i] as u32);
        i = i + 1;
    }
    assert(out@.map_values(|x: u32| x as int) =~= history_digits(*k));
    out
}

fn info_digit_vec(k: &InfoKey) -> (r: Vec<u32>)
    ensures
        r@.map_values(|x: u32| x as int) == info_digits(*k),
        r@.len() == 23,
{
    let mut out = history_digit_vec(&k.history);
    let ghost h = out@;
    out.push(k.player as u32);
    out.push(k.street as u32);
    out.push(k.active_opponents as u32);
    out.push(k.bucket_path[0]);
    out.push(k.bucket_path[1]);
    out.push(k.bucket_path[2]);
    out.push(k.bucket_path[3]);
    assert(out@.map_values(|x: u32| x as int) =~= info_digits(*k)) by {
        assert(h.map_values(|x: u32| x as int) == history_digits(k.history));
        assert forall|j: int| 0 <= j < 16 implies out@.map_values(|x: u32| x as int)[j]
            == history_digits(k.history)[j] by {
            assert(out@[j] == h[j]);
        }
    }
    out
}

/// Distinct history keys have distinct digits.
pub proof fn lemma_history_digits_injective(a: HistoryKey, b: HistoryKey)
    requires
        history_digits(a) == history_digits(b),
    ensures
        a == b,
{
    assert forall|i: int| 0 <= i < 16 implies a.0[i] == b.0[i] by {
        assert(history_digits(a)[i] == a.0@[i] as int);
        assert(history_digits(b)[i] == b.0@[i] as int);
    }
    assert(a.0 =~= b.0);
}

/// Distinct information-set keys have distinct digits.
pub proof fn lemma_info_digits_injective(a: InfoKey, b: InfoKey)
    requires
        info_digits(a) == info_digits(b),
    ensures
        a == b,
{
    let da = info_digits(a);
    let db = info_digits(b);
    assert forall|i: int| 0 <= i < 16 implies a.history.0[i] == b.history.0[i] by {
        assert(da[i] == history_digits(a.history)[i]);
        assert(db[i] == history_digits(b.history)[i]);
        assert(history_digits(a.history)[i] == a.history.0@[i] as int);
        assert(history_digits(b.history)[i] == b.history.0@[i] as int);
    }
    assert(a.history.0 =~= b.history.0);
    assert(da[16] == db[16] && da[17] == db[17] && da[18] == db[18]);
    assert forall|i: int| 0 <= i < 4 implies a.bucket_path[i] == b.bucket_path[i] by {
        assert(da[19 + i] == a.bucket_path@[i] as int);
        assert(db[19 + i] == b.bucket_path@[i] as int);
    }
    assert(a.bucket_path =~= b.bucket_path);
}

/// `true` iff `a` sorts strictly before `b`.
pub fn history_less(a: &HistoryKey, b: &HistoryKey) -> (r: bool)
    ensures
        r == history_lt(*a, *b),
{
    let da = history_digit_vec(a);
    let db = history_digit_vec(b);
    compare_digits(&da, &db) == -1
}

/// `true` iff `a` sorts strictly before `b`.
pub fn info_less(a: &InfoKey, b: &InfoKey) -> (r: bool)
    ensures
        r == info_lt(*a, *b),
{
    let da = info_digit_vec(a);
    let db = info_digit_vec(b);
    compare_digits(&da, &db) == -1
}

/// Distinct history keys are ordered one way or the other.
pub proof fn lemma_history_total(a: HistoryKey, b: HistoryKey)
    requires
        a != b,
    ensures
        history_lt(a, b) || history_lt(b, a),
{
    if history_digits(a) == history_digits(b) {
        lemma_history_digits_injective(a, b);
    }
    lemma_lex_total(history_digits(a), history_digits(b));
}

/// Distinct information-set keys are ordered one way or the other.
pub proof fn lemma_info_total(a: InfoKey, b: InfoKey)
    requires
        a != b,
    ensures
        info_lt(a, b) || info_lt(b, a),
{
    if info_digits(a) == info_digits(b) {
        lemma_info_digits_injective(a, b);
    }
    lemma_lex_total(info_digits(a), info_digits(b));
}

} // verus!
