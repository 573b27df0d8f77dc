//! Sweep scheduling: per-seat traversal counts, the task layout of a sweep
//! batch, run preconditions and the early-discount cadence.
use vstd::prelude::*;

use crate::errors::SolverError;

verus! {

/// Traversals that seat `player` has performed after `traversals` rotating
/// traversals: one per completed rotation plus one if the partial rotation
/// already reached the seat.
pub open spec fn player_traversals(traversals: nat, num_players: nat, player: nat) -> nat {
    traversals / num_players + if player < traversals % num_players { 1nat } else { 0nat }
}

/// Number of traversals seat `player` has performed.
pub fn traversals_for_player(traversals: u64, num_players: usize, player: usize) -> (r: u64)
    requires
        num_players > 0,
    ensures
        r == player_traversals(traversals as nat, num_players as nat, player as nat),
{
    let n = num_players as u64;
    let full = traversals / n;
    let extra: u64 = if (player as u64) < traversals % n { 1 } else { 0 };
    proof {
        vstd::arithmetic::div_mod::lemma_fundamental_div_mod(traversals as int, n as int);
        let q = full as int;
        let m = n as int;
        let t = traversals as int;
        assert(m * q <= t);
        if m >= 2 {
            assert(2 * q <= m * q) by (nonlinear_arith)
                requires
                    m >= 2,
                    q >= 0,
            ;
        } else {
            assert(traversals % n == 0);
        }
    }
    full + extra
}

/// Sum of the per-seat traversal counts over seats `0..count`.
pub open spec fn sum_player_traversals(traversals: nat, num_players: nat, count: nat) -> nat
    decreases count,
{
    if count == 0 {
        0
    } else {
        sum_player_traversals(traversals, num_players, (count - 1) as nat) + player_traversals(
            traversals,
            num_players,
            (count - 1) as nat,
        )
    }
}

proof fn lemma_partial_sum(traversals: nat, num_players: nat, count: nat)
    requires
        num_players > 0,
        count <= num_players,
    ensures
        sum_player_traversals(traversals, num_players, count) == count * (traversals / num_players)
            + if count <= traversals % num_players { count } else { traversals % num_players },
    decreases count,
{
    if count > 0 {
        lemma_partial_sum(traversals, num_players, (count - 1) as nat);
        let q = (traversals / num_players) as int;
        let c = count as int;
        assert(c * q == (c - 1) * q + q) by (nonlinear_arith);
        let r = (traversals % num_players) as int;
        assert(sum_player_traversals(traversals, num_players, count) == sum_player_traversals(
            traversals,
            num_players,
            (count - 1) as nat,
        ) + player_traversals(traversals, num_players, (count - 1) as nat));
        assert(player_traversals(traversals, num_players, (count - 1) as nat) == q + if c - 1 < r {
            1int
        } else {
            0int
        });
    } else {
        let q = (traversals / num_players) as int;
        assert(0 * q == 0);
    }
}

/// The per-seat traversal counts of a table add up to the total number of
/// traversals.
pub proof fn player_traversals_partition_total(traversals: nat, num_players: nat)
    requires
        num_players > 0,
    ensures
        sum_player_traversals(traversals, num_players, num_players) == traversals,
{
    lemma_partial_sum(traversals, num_players, num_players);
    vstd::arithmetic::div_mod::lemma_fundamental_div_mod(traversals as int, num_players as int);
    vstd::arithmetic::mul::lemma_mul_is_commutative(
        num_players as int,
        (traversals / num_players) as int,
    );
}

/// Checks that a request for `sweeps` more complete sweeps may start: a
/// positive thread count, a state on a sweep boundary, and a traversal count
/// that stays within `u64`.
pub open spec fn run_request_verdict(
    threads: nat,
    traversals: nat,
    num_players: nat,
    sweeps: nat,
) -> Result<(), SolverError> {
    if threads == 0 {
        Err(SolverError::ZeroThreads)
    } else if traversals % num_players != 0 {
        Err(SolverError::IncompleteSweepState)
    } else if sweeps * num_players > u64::MAX || traversals + sweeps * num_players > u64::MAX {
        Err(SolverError::TraversalCountOverflow)
    } else {
        Ok(())
    }
}

/// Preconditions of a parallel sweep run.
pub fn check_run_request(threads: usize, traversals: u64, num_players: usize, sweeps: u64) -> (r:
    Result<(), SolverError>)
    requires
        num_players > 0,
    ensures
        r == run_request_verdict(threads as nat, traversals as nat, num_players as nat, sweeps as nat),
{
    if threads == 0 {
        return Err(SolverError::ZeroThreads);
    }
    let n = num_players as u64;
    if traversals % n != 0 {
        return Err(SolverError::IncompleteSweepState);
    }
    let additional = match sweeps.checked_mul(n) {
        Some(v) => v,
        None => return Err(SolverError::TraversalCountOverflow),
    };
    match traversals.checked_add(additional) {
        Some(_) => Ok(()),
        None => Err(SolverError::TraversalCountOverflow),
    }
}

/// Sweeps dispatched in the next batch: the configured batch size, capped
/// by what remains.
pub fn batch_size(sweep_batch: u64, remaining: u64) -> (r: u64)
    ensures
        r == if sweep_batch < remaining { sweep_batch } else { remaining },
{
    if sweep_batch < remaining {
        sweep_batch
    } else {
        remaining
    }
}

/// Batch sizes of an uninterrupted run of `sweeps` sweeps.
pub open spec fn batch_plan_spec(sweeps: nat, sweep_batch: nat) -> Seq<u64>
    decreases sweeps,
{
    if sweeps == 0 || sweep_batch == 0 {
        Seq::empty()
    } else if sweeps <= sweep_batch {
        seq![sweeps as u64]
    } else {
        seq![sweep_batch as u64] + batch_plan_spec((sweeps - sweep_batch) as nat, sweep_batch)
    }
}

/// Sum of a sequence of batch sizes.
pub open spec fn total_sweeps(batches: Seq<u64>) -> nat
    decreases batches.len(),
{
    if batches.len() == 0 {
        0
    } else {
        batches[0] as nat + total_sweeps(batches.drop_first())
    }
}

/// The batch sizes of an uninterrupted run, in dispatch order.
pub fn batch_plan(sweeps: u64, sweep_batch: u64) -> (r: Vec<u64>)
    requires
        sweep_batch > 0,
    ensures
        r@ == batch_plan_spec(sweeps as nat, sweep_batch as nat),
{
    let mut out: Vec<u64> = Vec::new();
    let mut remaining = sweeps;
    while remaining > 0
        invariant
            out@ + batch_plan_spec(remaining as nat, sweep_batch as nat) == batch_plan_spec(
                sweeps as nat,
                sweep_batch as nat,
            ),
            sweep_batch > 0,
        decreases remaining,
    {
        let batch = batch_size(sweep_batch, remaining);
        let ghost before = out@;
        out.push(batch);
        if remaining > sweep_batch {
            assert(batch_plan_spec(remaining as nat, sweep_batch as nat) == seq![sweep_batch]
                + batch_plan_spec((remaining - sweep_batch) as nat, sweep_batch as nat));
            assert(out@ + batch_plan_spec((remaining - batch) as nat, sweep_batch as nat) =~= before
                + batch_plan_spec(remaining as nat, sweep_batch as nat));
        } else {
            assert(batch_plan_spec((remaining - batch) as nat, sweep_batch as nat) =~= Seq::<
                u64,
            >::empty());
            assert(out@ + batch_plan_spec((remaining - batch) as nat, sweep_batch as nat) =~= before
                + batch_plan_spec(remaining as nat, sweep_batch as nat));
        }
        remaining = remaining - batch;
    }
    assert(batch_plan_spec(0, sweep_batch as nat) =~= Seq::<u64>::empty());
    assert(out@ + Seq::<u64>::empty() =~= out@);
    out
}

/// An uninterrupted run dispatches exactly the requested sweeps, in
/// non-empty batches no larger than the configured batch size.
pub proof fn batch_plan_covers_request(sweeps: nat, sweep_batch: nat)
    requires
        sweep_batch > 0,
        sweeps <= u64::MAX,
        sweep_batch <= u64::MAX,
    ensures
        total_sweeps(batch_plan_spec(sweeps, sweep_batch)) == sweeps,
        forall|i: int|
            0 <= i < batch_plan_spec(sweeps, sweep_batch).len() ==> 0 < #[trigger] batch_plan_spec(
                sweeps,
                sweep_batch,
            )[i] <= sweep_batch,
    decreases sweeps,
{
    if sweeps > sweep_batch {
        batch_plan_covers_request((sweeps - sweep_batch) as nat, sweep_batch);
        let rest = batch_plan_spec((sweeps - sweep_batch) as nat, sweep_batch);
        let all = seq![sweep_batch as u64] + rest;
        assert(all.drop_first() =~= rest);
        assert(total_sweeps(all) == sweep_batch + total_sweeps(rest));
        assert forall|i: int| 0 <= i < all.len() implies 0 < #[trigger] all[i] <= sweep_batch by {
            if i > 0 {
                assert(all[i] == rest[i - 1]);
            }
        }
    } else if sweeps > 0 {
        let all = seq![sweeps as u64];
        assert(all.drop_first() =~= Seq::<u64>::empty());
        assert(total_sweeps(Seq::<u64>::empty()) == 0);
        assert(total_sweeps(all) == sweeps);
    }
}

/// One traversal task of a sweep batch: which sweep of the batch and which
/// seat it belongs to, the sample id it reads, and the linear CFR weight of
/// its sweep.
#[derive(Clone, Copy, Debug, PartialEq, Eq, Structural)]
pub struct SweepTask {
    pub sweep_offset: u64,
    pub traverser: usize,
    pub sample_id: u64,
    pub linear_weight: u64,
}

/// Number of traversal tasks in a batch of `batch` sweeps.
pub fn batch_task_count(batch: u64, num_players: usize) -> (r: Result<u64, SolverError>)
    ensures
        match r {
            Ok(v) => v == batch * num_players,
            Err(e) => e == SolverError::CounterOverflow && batch * num_players > u64::MAX,
        },
{
    match batch.checked_mul(num_players as u64) {
        Some(v) => Ok(v),
        None => Err(SolverError::CounterOverflow),
    }
}

/// Task `task` of a batch that starts at sample id `first_sample_id` after
/// `completed_at_start` completed sweeps.
pub fn sweep_task(first_sample_id: u64, completed_at_start: u64, num_players: usize, task: u64) -> (r:
    Result<SweepTask, SolverError>)
    requires
        num_players > 0,
    ensures
        match r {
            Ok(t) => {
                &&& t.sweep_offset == (task as nat) / (num_players as nat)
                &&& t.traverser == (task as nat) % (num_players as nat)
                &&& t.sample_id == first_sample_id + task
                &&& t.linear_weight == completed_at_start + (task as nat) / (num_players as nat) + 1
            },
            Err(e) => e == SolverError::CounterOverflow && (first_sample_id + task > u64::MAX
                || completed_at_start + (task as nat) / (num_players as nat) + 1 > u64::MAX),
        },
{
    let n = num_players as u64;
    let sweep_offset = task / n;
    let traverser = (task % n) as usize;
    let sample_id = match first_sample_id.checked_add(task) {
        Some(v) => v,
        None => return Err(SolverError::CounterOverflow),
    };
    let linear_weight = match completed_at_start.checked_add(sweep_offset) {
        Some(v) => match v.checked_add(1) {
            Some(w) => w,
            None => return Err(SolverError::CounterOverflow),
        },
        None => return Err(SolverError::CounterOverflow),
    };
    Ok(SweepTask { sweep_offset, traverser, sample_id, linear_weight })
}

/// Every task of a batch belongs to exactly one (sweep, seat) slot, and
/// distinct tasks read distinct, consecutive sample ids.
pub proof fn sweep_tasks_are_seat_major(task: nat, num_players: nat)
    requires
        num_players > 0,
    ensures
        task == (task / num_players) * num_players + task % num_players,
        task % num_players < num_players,
{
    vstd::arithmetic::div_mod::lemma_fundamental_div_mod(task as int, num_players as int);
    vstd::arithmetic::mul::lemma_mul_is_commutative(num_players as int, (task / num_players) as int);
}

/// The batched early discount fires after completed sweep `sweep` when
/// discounting is enabled, `sweep` is before the cutoff and on the cadence;
/// the result is the discount event number.
pub open spec fn discount_event_spec(sweep: nat, every: nat, until: nat) -> Option<nat> {
    if until == 0 || sweep >= until || sweep % every != 0 {
        None
    } else {
        Some(sweep / every)
    }
}

/// Which discount event, if any, follows completed sweep `sweep`.  The
/// event number `e` scales every regret and strategy sum by `e / (e + 1)`.
pub fn discount_event(sweep: u64, every: u64, until: u64) -> (r: Option<u64>)
    requires
        every > 0,
    ensures
        r == match discount_event_spec(sweep as nat, every as nat, until as nat) {
            Some(e) => Some(e as u64),
            None => None::<u64>,
        },
{
    if until == 0 || sweep >= until || sweep % every != 0 {
        None
    } else {
        Some(sweep / every)
    }
}

} // verus!
