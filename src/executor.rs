//! The decisions of the workers that run units: which unit to take next, when
//! to stop, and what a finished unit yields.
//!
//! Units are handed out by a shared atomic counter of unit numbers, so each
//! number is taken once; a shared flag, set by the first worker whose
//! accelerator command fails, makes the others stop before their next unit.

use crate::divisor_cache::{merge_result, DivisorCache};
use crate::filter::{flagged, map_gpu_prime_result};
use crate::partition::{
    candidate_at, first_candidate, lemma_unit_starts_below_stop, lemma_units_cover_exactly_once,
    unit_count_spec, Partition, WorkUnit,
};
use crate::primality::is_prime_spec;
use crate::profiled::ProfiledResult;
use crate::stream::{ChannelClosed, DeviceError, ResultSink};
use std::sync::atomic::{AtomicBool, AtomicU64, Ordering};
use std::time::Duration;
use vstd::prelude::*;

verus! {

/// What a worker does after a claim.
pub enum Claim {
    /// Another worker has failed: stop without taking a unit.
    Abort,
    /// Every unit has been taken: stop cleanly.
    Drain,
    /// Run this unit.
    Work(WorkUnit),
}

/// What the accelerator reported for one unit: a flag per candidate, 1 for a
/// prime, and the device-measured time.
pub struct DeviceOutput {
    pub flags: Vec<u8>,
    pub duration: Duration,
}

/// What a worker does with the unit number `claimed`, given whether the
/// failure flag was set.
pub fn decide_claim(partition: &Partition, failed: bool, claimed: u64) -> (r: Claim)
    requires
        partition.wf(),
    ensures
        failed ==> r is Abort,
        !failed && claimed >= partition.count() ==> r is Drain,
        !failed && claimed < partition.count() ==> (r matches Claim::Work(u) && partition.holds_unit(
            claimed as int,
            u,
        )),
{
    if failed {
        return Claim::Abort;
    }
    match partition.unit(claimed) {
        None => Claim::Drain,
        Some(u) => Claim::Work(u),
    }
}

/// The units of a partition, shared by all workers, with the failure flag.
pub struct WorkQueue {
    partition: Partition,
    next_unit: AtomicU64,
    failed: AtomicBool,
}

impl WorkQueue {
    /// The partition whose units are handed out.
    pub closed spec fn partition(&self) -> Partition {
        self.partition
    }

    /// A queue that hands out the units of `partition` from the first.
    pub fn new(partition: Partition) -> (r: WorkQueue)
        requires
            partition.wf(),
        ensures
            r.partition() == partition,
    {
        WorkQueue { partition, next_unit: AtomicU64::new(0), failed: AtomicBool::new(false) }
    }

    /// Sets the failure flag: the other workers stop before their next unit.
    pub fn signal_failure(&self) {
        self.failed.store(true, Ordering::SeqCst);
    }

    /// Whether some worker has set the failure flag.
    pub fn has_failed(&self) -> bool {
        self.failed.load(Ordering::SeqCst)
    }

    /// Takes the next unit, unless a worker has failed or none is left. A
    /// unit handed out is one of the partition's.
    pub fn claim(&self) -> (r: Claim)
        requires
            self.partition().wf(),
        ensures
            r matches Claim::Work(u) ==> exists|k: int|
                0 <= k < self.partition().count() && self.partition().holds_unit(k, u),
    {
        if self.has_failed() {
            return Claim::Abort;
        }
        let claimed = self.next_unit.fetch_add(1, Ordering::SeqCst);
        decide_claim(&self.partition, false, claimed)
    }
}

/// What a unit yields: on success the candidates that the accelerator flagged,
/// with the device time; the device's error as it came; and an error when the
/// accelerator gave fewer flags than the unit has candidates.
pub fn finish_unit(unit: WorkUnit, outcome: Result<DeviceOutput, DeviceError>) -> (r: Result<
    ProfiledResult<Vec<u64>>,
    DeviceError,
>)
    ensures
        outcome matches Err(e) ==> r == Err::<ProfiledResult<Vec<u64>>, DeviceError>(e),
        outcome matches Ok(out) ==> (r is Ok <==> out.flags@.len() >= unit.candidates@.len()),
        outcome matches Ok(out) ==> (r matches Ok(p) ==> p.spec_value()@ == flagged(
            unit.candidates@,
            out.flags@,
        ) && p.spec_duration() == out.duration),
{
    match outcome {
        Err(e) => Err(e),
        Ok(out) => {
            if out.flags.len() < unit.candidates.len() {
                let message = "the accelerator returned fewer flags than candidates".to_owned();
                Err(DeviceError { message })
            } else {
                let primes = map_gpu_prime_result(unit.candidates, out.flags);
                Ok(ProfiledResult::new(out.duration, primes))
            }
        },
    }
}

/// Where a worker stands after a step.
pub enum WorkerState {
    /// It goes on to claim the next unit.
    Running,
    /// It stops cleanly: no more units, or nobody reads the results.
    Draining,
    /// Its accelerator command failed: it has raised the failure flag and
    /// passed the error on.
    Failed,
}

/// Merges what a finished unit found into the divisor cache, under the
/// cache's budget; a failed unit leaves the cache as it was.
pub fn merge_unit_result(
    cache: &mut DivisorCache,
    finished: &Result<ProfiledResult<Vec<u64>>, DeviceError>,
)
    requires
        old(cache).wf(),
    ensures
        final(cache).wf(),
        final(cache).budget() == old(cache).budget(),
        finished is Err ==> final(cache)@ == old(cache)@,
        finished matches Ok(p) ==> final(cache)@.to_set() == merge_result(
            old(cache)@.to_set(),
            p.spec_value()@.to_set(),
            old(cache).budget(),
        ),
{
    match finished {
        Ok(p) => cache.merge(p.value()),
        Err(_) => {},
    }
}

/// Where a worker stands after pushing a unit's result: running on when the
/// result was delivered, draining when nobody reads the stream any more.
pub fn state_after_push(pushed: Result<(), ChannelClosed>) -> (r: WorkerState)
    ensures
        pushed is Ok ==> r is Running,
        pushed is Err ==> r is Draining,
{
    match pushed {
        Ok(()) => WorkerState::Running,
        Err(_) => WorkerState::Draining,
    }
}

/// Passes a finished unit on: a result is pushed to the stream, and when
/// nobody reads it any more the failure flag stops the other workers too; a
/// device error raises the failure flag and is pushed as the stream's error.
/// The worker goes on only after a delivered result.
pub fn publish_unit(
    queue: &WorkQueue,
    sink: &ResultSink<ProfiledResult<Vec<u64>>>,
    finished: Result<ProfiledResult<Vec<u64>>, DeviceError>,
) -> (r: WorkerState)
    ensures
        finished is Err ==> r is Failed,
        finished is Ok ==> (r is Running || r is Draining),
{
    match finished {
        Ok(p) => {
            let state = state_after_push(sink.push(p));
            if let WorkerState::Draining = state {
                queue.signal_failure();
            }
            state
        },
        Err(e) => {
            queue.signal_failure();
            let _ = sink.push_error(e);
            WorkerState::Failed
        },
    }
}

/// Every value a unit yields is one of its candidates: odd, and within the
/// span of that unit, `[offset, offset + 2 * unit_size)`, whatever flags the
/// accelerator returned.
pub proof fn lemma_unit_results_in_range(p: Partition, k: int, u: WorkUnit, flags: Seq<u8>, x: u64)
    requires
        p.wf(),
        p.holds_unit(k, u),
        0 <= k,
        flags.len() >= u.candidates@.len(),
        flagged(u.candidates@, flags).contains(x),
    ensures
        x % 2 == 1,
        x >= p.first(),
        candidate_at(p.first(), p.unit_size(), k, 0) <= x < candidate_at(
            p.first(),
            p.unit_size(),
            k,
            p.unit_size(),
        ),
{
    lemma_flagged_within(u.candidates@, flags, x);
    let i = choose|i: int| 0 <= i < u.candidates@.len() && u.candidates@[i] == x;
    assert(x == candidate_at(p.first(), p.unit_size(), k, i));
    assert(2 * p.unit_size() * k >= 0) by (nonlinear_arith)
        requires p.unit_size() > 0, k >= 0;
    let m = p.unit_size() * k + i;
    assert(2 * p.unit_size() * k + 2 * i == 2 * m) by (nonlinear_arith)
        requires m == p.unit_size() * k + i;
    assert((p.first() + 2 * m) % 2 == 1);
}

/// The predicate "is prime" on candidates.
pub open spec fn prime_candidate() -> spec_fn(u64) -> bool {
    |x: u64| is_prime_spec(x as int)
}

/// With an accelerator that flags exactly the primes, a unit yields exactly
/// its prime candidates, in order: every value passes a check of primality on
/// the CPU, and no prime candidate is lost.
pub proof fn lemma_correct_flags_yield_primes(input: Seq<u64>, flags: Seq<u8>)
    requires
        flags.len() >= input.len(),
        forall|i: int|
            0 <= i < input.len() ==> flags[i] == (if is_prime_spec(input[i] as int) {
                1u8
            } else {
                0u8
            }),
    ensures
        flagged(input, flags) == input.filter(prime_candidate()),
        forall|x: u64| #[trigger]
            flagged(input, flags).contains(x) ==> is_prime_spec(x as int) && input.contains(x),
    decreases input.len(),
{
    reveal(Seq::filter);
    if input.len() > 0 {
        lemma_correct_flags_yield_primes(input.drop_last(), flags);
    }
    assert forall|x: u64| #[trigger] flagged(input, flags).contains(x) implies is_prime_spec(
        x as int,
    ) && input.contains(x) by {
        lemma_flagged_within(input, flags, x);
        let f = input.filter(prime_candidate());
        let i = choose|i: int| 0 <= i < f.len() && f[i] == x;
        input.lemma_filter_pred(prime_candidate(), i);
    }
}

/// The candidates of unit `k` of `p`.
pub open spec fn unit_candidates_of(p: Partition, k: int) -> Seq<u64> {
    Seq::new(p.unit_size() as nat, |i: int| candidate_at(p.first(), p.unit_size(), k, i) as u64)
}

/// A unit handed out by the partition holds exactly those candidates.
pub proof fn lemma_held_unit_candidates(p: Partition, k: int, u: WorkUnit)
    requires
        p.holds_unit(k, u),
    ensures
        u.candidates@ == unit_candidates_of(p, k),
{
    assert(u.candidates@ =~= unit_candidates_of(p, k));
}

/// A run whose workers took every unit number exactly once, in any order, as
/// the shared counter hands them out, offers each odd number of
/// `[start, stop)` to the accelerator exactly once: in exactly one of the
/// units it ran, at exactly one place.
pub proof fn lemma_run_covers_exactly_once(p: Partition, start: int, order: Seq<int>, n: u64)
    requires
        p.wf(),
        p.first() == first_candidate(start),
        order.no_duplicates(),
        forall|k: int| order.contains(k) <==> 0 <= k < p.count(),
        start <= n < p.stop(),
        n % 2 == 1,
    ensures
        exists|j: int, i: int|
            0 <= j < order.len() && 0 <= i < p.unit_size() && #[trigger] unit_candidates_of(
                p,
                order[j],
            )[i] == n,
        forall|j1: int, i1: int, j2: int, i2: int|
            0 <= j1 < order.len() && 0 <= i1 < p.unit_size() && 0 <= j2 < order.len() && 0 <= i2
                < p.unit_size() && #[trigger] unit_candidates_of(p, order[j1])[i1] == n
                && #[trigger] unit_candidates_of(p, order[j2])[i2] == n ==> j1 == j2 && i1 == i2,
{
    let size = p.unit_size();
    lemma_units_cover_exactly_once(start, p.stop(), size, n as int);
    let first = p.first();
    let k = (n - first) / (2 * size);
    let i = ((n - first) % (2 * size)) / 2;
    assert(order.contains(k));
    let j = choose|j: int| 0 <= j < order.len() && order[j] == k;
    assert(unit_candidates_of(p, order[j])[i] == n);
    assert forall|j1: int, i1: int, j2: int, i2: int|
        0 <= j1 < order.len() && 0 <= i1 < size && 0 <= j2 < order.len() && 0 <= i2 < size
            && #[trigger] unit_candidates_of(p, order[j1])[i1] == n && #[trigger] unit_candidates_of(
            p,
            order[j2],
        )[i2] == n implies j1 == j2 && i1 == i2 by {
        assert(order.contains(order[j1]));
        assert(order.contains(order[j2]));
        lemma_candidate_fits(p, order[j1], i1);
        lemma_candidate_fits(p, order[j2], i2);
        assert(order[j1] == k && i1 == i);
        assert(order[j2] == k && i2 == i);
    }
}

/// The candidates of a unit before the count fit in a `u64`.
proof fn lemma_candidate_fits(p: Partition, k: int, i: int)
    requires
        p.wf(),
        0 <= k < p.count(),
        0 <= i < p.unit_size(),
    ensures
        0 <= candidate_at(p.first(), p.unit_size(), k, i) < 0x1_0000_0000_0000_0000,
        unit_candidates_of(p, k)[i] == candidate_at(p.first(), p.unit_size(), k, i),
{
    let c = candidate_at(p.first(), p.unit_size(), k, i);
    lemma_unit_starts_below_stop(p.first(), p.stop(), p.unit_size(), k);
    assert(2 * p.unit_size() * k >= 0) by (nonlinear_arith)
        requires p.unit_size() > 0, k >= 0;
    assert(p.first() + 2 * p.unit_size() * k < p.stop());
    assert(c == p.first() + 2 * p.unit_size() * k + 2 * i);
    assert(c < p.stop() + 2 * p.unit_size());
    assert(0 <= c < 0x1_0000_0000_0000_0000);
    assert(unit_candidates_of(p, k)[i] == c as u64);
}

/// The values a run yields when its workers finished the units numbered
/// `order`, in that order, and the accelerator answered unit `k` with the flags
/// `flags_of(k)`.
pub open spec fn run_values(p: Partition, order: Seq<int>, flags_of: spec_fn(int) -> Seq<u8>) -> Set<
    u64,
> {
    Set::new(
        |x: u64|
            exists|j: int|
                0 <= j < order.len() && #[trigger] flagged(
                    unit_candidates_of(p, order[j]),
                    flags_of(order[j]),
                ).contains(x),
    )
}

/// Two complete runs over the same partition with a deterministic
/// accelerator, each finishing every unit, yield the same values, whatever
/// order their workers took the units in: one worker or several, only the
/// order of arrival differs.
pub proof fn lemma_runs_agree(
    p: Partition,
    order1: Seq<int>,
    order2: Seq<int>,
    flags_of: spec_fn(int) -> Seq<u8>,
)
    requires
        forall|k: int| order1.contains(k) <==> 0 <= k < p.count(),
        forall|k: int| order2.contains(k) <==> 0 <= k < p.count(),
    ensures
        run_values(p, order1, flags_of) == run_values(p, order2, flags_of),
{
    assert forall|x: u64| run_values(p, order1, flags_of).contains(x) implies run_values(
        p,
        order2,
        flags_of,
    ).contains(x) by {
        let j = choose|j: int|
            0 <= j < order1.len() && #[trigger] flagged(
                unit_candidates_of(p, order1[j]),
                flags_of(order1[j]),
            ).contains(x);
        assert(order1.contains(order1[j]));
        assert(order2.contains(order1[j]));
        let j2 = choose|j2: int| 0 <= j2 < order2.len() && order2[j2] == order1[j];
        assert(flagged(unit_candidates_of(p, order2[j2]), flags_of(order2[j2])).contains(x));
    }
    assert forall|x: u64| run_values(p, order2, flags_of).contains(x) implies run_values(
        p,
        order1,
        flags_of,
    ).contains(x) by {
        let j = choose|j: int|
            0 <= j < order2.len() && #[trigger] flagged(
                unit_candidates_of(p, order2[j]),
                flags_of(order2[j]),
            ).contains(x);
        assert(order2.contains(order2[j]));
        assert(order1.contains(order2[j]));
        let j1 = choose|j1: int| 0 <= j1 < order1.len() && order1[j1] == order2[j];
        assert(flagged(unit_candidates_of(p, order1[j1]), flags_of(order1[j1])).contains(x));
    }
    assert(run_values(p, order1, flags_of) =~= run_values(p, order2, flags_of));
}

/// The flagged values are taken from the input.
proof fn lemma_flagged_within(input: Seq<u64>, flags: Seq<u8>, x: u64)
    requires
        flagged(input, flags).contains(x),
    ensures
        input.contains(x),
    decreases input.len(),
{
    if input.len() > 0 {
        let rest = flagged(input.drop_last(), flags);
        if rest.contains(x) {
            lemma_flagged_within(input.drop_last(), flags, x);
            let i = choose|i: int| 0 <= i < input.drop_last().len() && input.drop_last()[i] == x;
            assert(input[i] == x);
        } else {
            vstd::seq_lib::lemma_seq_contains_after_push(rest, input.last(), x);
            assert(input[input.len() - 1] == x);
        }
    }
}

} // verus!
