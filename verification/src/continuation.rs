//! Card-independent public proposal for the postflop continuation of an
//! average-policy walk: at a non-averager decision after the flop, passive
//! continuations (check or call) share three quarters of the proposal mass
//! and every other action shares the remaining quarter.  Preflop, and any
//! menu without both kinds of action, falls back to one uniform draw.
use vstd::prelude::*;

use rand::Rng;
use rand_chacha::ChaCha20Rng;

use crate::errors::SolverError;
use crate::storage::{label_views, labels_verdict, validate_action_labels};
use crate::types::Street;

verus! {

/// The ChaCha20 stream that drives every sampled decision.
#[verifier::external_type_specification]
#[verifier::external_body]
pub struct ExChaCha20Rng(ChaCha20Rng);

/// What one call of `rng.gen_range(0..n)` on a `u64` range gives for a
/// stream in a given state: the value drawn and the stream after the draw.
/// Both are fixed by the stream's state and the bound alone.
pub uninterp spec fn stream_draw(rng: ChaCha20Rng, n: u64) -> (u64, ChaCha20Rng);

/// Calls `rng.gen_range(0..n)` over `u64`: one uniform draw below `n`.  The
/// contract states that the value is below `n` and names both the value and
/// the stream's next state by `stream_draw`; which value a given state
/// yields is not modelled.
#[verifier::external_body]
fn uniform_below(rng: &mut ChaCha20Rng, n: u64) -> (r: u64)
    requires
        n > 0,
    ensures
        r < n,
        r == stream_draw(*old(rng), n).0,
        *final(rng) == stream_draw(*old(rng), n).1,
{
    rng.gen_range(0..n)
}

/// UTF-8 bytes of `check`.
pub open spec fn check_bytes() -> Seq<u8> {
    seq![99u8, 104u8, 101u8, 99u8, 107u8]
}

/// UTF-8 bytes of `call:`.
pub open spec fn call_bytes() -> Seq<u8> {
    seq![99u8, 97u8, 108u8, 108u8, 58u8]
}

/// A passive continuation: exactly `check`, or any label starting `call:`.
pub open spec fn is_passive_label(bytes: Seq<u8>) -> bool {
    bytes == check_bytes() || (bytes.len() >= 5 && bytes.subrange(0, 5) == call_bytes())
}

/// Which labels of a menu are passive continuations.
pub open spec fn passive_flags(labels: Seq<String>) -> Seq<bool> {
    Seq::new(labels.len(), |i: int| is_passive_label(vstd::utf8::encode_utf8(labels[i]@)))
}

/// How many entries of `flags` equal `target`.
pub open spec fn count_matching(flags: Seq<bool>, target: bool) -> nat
    decreases flags.len(),
{
    if flags.len() == 0 {
        0
    } else {
        count_matching(flags.drop_last(), target) + if flags.last() == target {
            1nat
        } else {
            0nat
        }
    }
}

/// `index` holds the `k`-th (from zero) entry of `flags` equal to `target`.
pub open spec fn is_kth_matching(flags: Seq<bool>, target: bool, k: nat, index: int) -> bool {
    &&& 0 <= index < flags.len()
    &&& flags[index] == target
    &&& count_matching(flags.subrange(0, index), target) == k
}

/// The proposal mixes passive and other actions only after the flop and
/// only when the menu holds both kinds.
pub open spec fn uses_mixture(street: Street, flags: Seq<bool>) -> bool {
    street != Street::Preflop && 0 < count_matching(flags, true) < flags.len()
}

/// The action chosen from the draws: without the mixture the first draw is
/// the action; with it, a first draw below three picks the `second`-th
/// passive action and any other first draw the `second`-th other action.
pub open spec fn continuation_outcome(
    street: Street,
    flags: Seq<bool>,
    first: nat,
    second: nat,
    action: int,
) -> bool {
    if !uses_mixture(street, flags) {
        action == first
    } else {
        is_kth_matching(flags, first < 3, second, action)
    }
}

/// The draws are in range: without the mixture one draw below the menu
/// size (the second unused); with it a draw below four, then one below the
/// size of the class it picked.
pub open spec fn draws_in_range(street: Street, flags: Seq<bool>, first: nat, second: nat) -> bool {
    if !uses_mixture(street, flags) {
        first < flags.len() && second == 0
    } else {
        first < 4 && second < count_matching(flags, first < 3)
    }
}

/// Some pair of in-range draws selects `action`.
pub open spec fn continuation_reachable(street: Street, flags: Seq<bool>, action: int) -> bool {
    exists|first: nat, second: nat|
        draws_in_range(street, flags, first, second) && continuation_outcome(
            street,
            flags,
            first,
            second,
            action,
        )
}

/// The continuation drawn from a stream that starts in `start`: without
/// the mixture one draw below the menu size is the action; with it a draw
/// below four picks the class (below three: passive), then a draw below the
/// size of that class picks the action within it.  `end` is the stream
/// after exactly those draws.
pub open spec fn drawn_continuation(
    street: Street,
    flags: Seq<bool>,
    start: ChaCha20Rng,
    action: int,
    end: ChaCha20Rng,
) -> bool {
    if !uses_mixture(street, flags) {
        let d = stream_draw(start, flags.len() as u64);
        action == d.0 && end == d.1
    } else {
        let coin = stream_draw(start, 4);
        let size = count_matching(flags, coin.0 < 3) as u64;
        let pick = stream_draw(coin.1, size);
        continuation_outcome(street, flags, coin.0 as nat, pick.0 as nat, action) && end == pick.1
    }
}

proof fn lemma_count_bound(flags: Seq<bool>, target: bool)
    ensures
        count_matching(flags, target) <= flags.len(),
    decreases flags.len(),
{
    if flags.len() > 0 {
        lemma_count_bound(flags.drop_last(), target);
    }
}

proof fn lemma_count_split(flags: Seq<bool>)
    ensures
        count_matching(flags, true) + count_matching(flags, false) == flags.len(),
    decreases flags.len(),
{
    if flags.len() > 0 {
        lemma_count_split(flags.drop_last());
    }
}

fn passive_label(label: &String) -> (r: bool)
    ensures
        r == is_passive_label(vstd::utf8::encode_utf8(label@)),
{
    let bytes = label.as_str().as_bytes();
    let check: [u8; 5] = [99u8, 104u8, 101u8, 99u8, 107u8];
    let call: [u8; 5] = [99u8, 97u8, 108u8, 108u8, 58u8];
    assert(check@ =~= check_bytes());
    assert(call@ =~= call_bytes());
    if bytes.len() == 5 {
        let mut same = true;
        let mut i: usize = 0;
        while i < 5
            invariant
                i <= 5,
                bytes@.len() == 5,
                same == (forall|k: int| 0 <= k < i ==> bytes@[k] == check@[k]),
            decreases 5 - i,
        {
            same = same && bytes[i] == check[i];
            i = i + 1;
        }
        if same {
            assert(bytes@ =~= check_bytes());
            return true;
        }
        assert(bytes@ != check_bytes());
    } else {
        assert(bytes@.len() != check_bytes().len());
    }
    if bytes.len() < 5 {
        return false;
    }
    let mut prefix = true;
    let mut j: usize = 0;
    while j < 5
        invariant
            j <= 5,
            bytes@.len() >= 5,
            prefix == (forall|k: int| 0 <= k < j ==> bytes@[k] == call@[k]),
        decreases 5 - j,
    {
        prefix = prefix && bytes[j] == call[j];
        j = j + 1;
    }
    if prefix {
        assert(bytes@.subrange(0, 5) =~= call_bytes());
    } else {
        assert(bytes@.subrange(0, 5) != call_bytes()) by {
            let k = choose|k: int| 0 <= k < 5 && bytes@[k] != call@[k];
            assert(bytes@.subrange(0, 5)[k] != call_bytes()[k]);
        }
    }
    prefix
}

fn passive_flags_of(labels: &[String]) -> (r: Vec<bool>)
    ensures
        r@ == passive_flags(labels@),
{
    let mut out: Vec<bool> = Vec::new();
    let mut i: usize = 0;
    while i < labels.len()
        invariant
            i <= labels@.len(),
            out@ =~= passive_flags(labels@).subrange(0, i as int),
        decreases labels@.len() - i,
    {
        out.push(passive_label(&labels[i]));
        i = i + 1;
    }
    out
}

fn count_of(flags: &[bool], target: bool) -> (r: usize)
    ensures
        r == count_matching(flags@, target),
{
    let mut count: usize = 0;
    let mut i: usize = 0;
    while i < flags.len()
        invariant
            i <= flags@.len(),
            count == count_matching(flags@.subrange(0, i as int), target),
            count <= i,
        decreases flags@.len() - i,
    {
        assert(flags@.subrange(0, i + 1).drop_last() =~= flags@.subrange(0, i as int));
        if flags[i] == target {
            count = count + 1;
        }
        i = i + 1;
    }
    assert(flags@.subrange(0, flags@.len() as int) =~= flags@);
    count
}

/// Index of the `k`-th entry of `flags` equal to `target`.
fn kth_matching(flags: &[bool], target: bool, k: usize) -> (r: usize)
    requires
        k < count_matching(flags@, target),
    ensures
        is_kth_matching(flags@, target, k as nat, r as int),
{
    let mut seen: usize = 0;
    let mut i: usize = 0;
    while i < flags.len()
        invariant
            i <= flags@.len(),
            seen == count_matching(flags@.subrange(0, i as int), target),
            seen <= k,
            k < count_matching(flags@, target),
        decreases flags@.len() - i,
    {
        assert(flags@.subrange(0, i + 1).drop_last() =~= flags@.subrange(0, i as int));
        if flags[i] == target {
            if seen == k {
                return i;
            }
            seen = seen + 1;
        }
        i = i + 1;
    }
    assert(flags@.subrange(0, flags@.len() as int) =~= flags@);
    0
}

/// The continuation action selected by given draws.  `first` is the draw
/// below the menu size (no mixture) or below four (mixture); `second` is
/// the draw below the size of the chosen class.
pub fn continuation_choice(street: Street, labels: &[String], first: usize, second: usize) -> (r:
    usize)
    requires
        labels@.len() > 0,
        !uses_mixture(street, passive_flags(labels@)) ==> first < labels@.len(),
        uses_mixture(street, passive_flags(labels@)) ==> second < count_matching(
            passive_flags(labels@),
            first < 3,
        ),
    ensures
        continuation_outcome(street, passive_flags(labels@), first as nat, second as nat, r as int),
        r < labels@.len(),
{
    let flags = passive_flags_of(labels);
    let passive = count_of(flags.as_slice(), true);
    proof {
        lemma_count_bound(flags@, true);
    }
    if street == Street::Preflop || passive == 0 || passive == flags.len() {
        first
    } else {
        kth_matching(flags.as_slice(), first < 3, second)
    }
}

/// Draws the proposal action at a postflop continuation decision.  An empty
/// or invalid menu is rejected before the stream is touched.
pub fn postflop_continuation_action(street: Street, labels: &[String], rng: &mut ChaCha20Rng) -> (r:
    Result<usize, SolverError>)
    ensures
        r is Err <==> (labels@.len() == 0 || labels_verdict(label_views(labels@)) is Err),
        labels@.len() == 0 ==> r == Err::<usize, SolverError>(
            SolverError::InvalidActionLabels("empty action menu"),
        ),
        labels@.len() > 0 && labels_verdict(label_views(labels@)) is Err ==> r == Err::<
            usize,
            SolverError,
        >(labels_verdict(label_views(labels@))->Err_0),
        r is Err ==> *final(rng) == *old(rng),
        r is Ok ==> r->Ok_0 < labels@.len(),
        r is Ok ==> continuation_reachable(street, passive_flags(labels@), r->Ok_0 as int),
        r is Ok ==> drawn_continuation(
            street,
            passive_flags(labels@),
            *old(rng),
            r->Ok_0 as int,
            *final(rng),
        ),
{
    if labels.len() == 0 {
        return Err(SolverError::InvalidActionLabels("empty action menu"));
    }
    validate_action_labels(labels)?;
    let n = labels.len();
    let flags = passive_flags_of(labels);
    let passive = count_of(flags.as_slice(), true);
    proof {
        lemma_count_bound(flags@, true);
        lemma_count_split(flags@);
    }
    if street == Street::Preflop || passive == 0 || passive == n {
        let first = uniform_below(rng, n as u64) as usize;
        let a = continuation_choice(street, labels, first, 0);
        assert(draws_in_range(street, passive_flags(labels@), first as nat, 0));
        assert(continuation_outcome(street, passive_flags(labels@), first as nat, 0, a as int));
        assert(continuation_reachable(street, passive_flags(labels@), a as int));
        return Ok(a);
    }
    let coin = uniform_below(rng, 4) as usize;
    let class_size = if coin < 3 { passive } else { n - passive };
    let second = uniform_below(rng, class_size as u64) as usize;
    let a = continuation_choice(street, labels, coin, second);
    assert(draws_in_range(street, passive_flags(labels@), coin as nat, second as nat));
    assert(continuation_outcome(street, passive_flags(labels@), coin as nat, second as nat, a as int));
    assert(continuation_reachable(street, passive_flags(labels@), a as int));
    Ok(a)
}

/// After the flop, on a menu holding both passive and other actions, the
/// proposal mixes: the action drawn is passive exactly when the first draw,
/// taken below four, is below three; it is the action of that class whose
/// rank among the class, in menu order, is the second draw, taken below the
/// size of the class; and the stream advances by exactly those two draws.  Preflop, or on a
/// menu of one kind only, the action is the single draw below the menu size
/// and the stream advances by that one draw.
pub proof fn law_continuation_draws(
    street: Street,
    labels: Seq<String>,
    start: ChaCha20Rng,
    action: int,
    end: ChaCha20Rng,
)
    requires
        drawn_continuation(street, passive_flags(labels), start, action, end),
    ensures
        street != Street::Preflop && 0 < count_matching(passive_flags(labels), true) < labels.len() ==> {
            let coin = stream_draw(start, 4);
            &&& 0 <= action < labels.len()
            &&& is_passive_label(vstd::utf8::encode_utf8(labels[action]@)) == (coin.0 < 3)
            &&& count_matching(passive_flags(labels).subrange(0, action), coin.0 < 3) == stream_draw(
                coin.1,
                count_matching(passive_flags(labels), coin.0 < 3) as u64,
            ).0
            &&& end == stream_draw(
                coin.1,
                count_matching(passive_flags(labels), coin.0 < 3) as u64,
            ).1
        },
        street == Street::Preflop || count_matching(passive_flags(labels), true) == 0 || count_matching(
            passive_flags(labels),
            true,
        ) == labels.len() ==> {
            &&& action == stream_draw(start, labels.len() as u64).0
            &&& end == stream_draw(start, labels.len() as u64).1
        },
{
}

} // verus!
