//! Benchmark sweeps: which work sizes a sweep visits, and the statistics that
//! each run reports.

use crate::executor::{state_after_push, WorkerState};
use crate::stream::{DeviceError, ResultSink};
use std::sync::atomic::{AtomicBool, AtomicU64, Ordering};
use std::time::Duration;
use vstd::prelude::*;

verus! {

/// The measurements of one benchmark run.
#[derive(Clone, Debug)]
pub struct BenchStatistics {
    pub calc_count: u32,
    pub global_size: usize,
    pub local_size: usize,
    pub write_duration: Duration,
    pub calc_duration: Duration,
    pub read_duration: Duration,
}

/// What a benchmark worker does after a claim.
pub enum SweepClaim {
    /// Another worker has failed: stop.
    Abort,
    /// Every point has been taken: stop.
    Drain,
    /// Run this point.
    Point(usize),
}

/// What a benchmark worker does with point number `claimed` of `points`,
/// given whether the failure flag was set.
pub fn decide_sweep_claim(points: &Vec<usize>, failed: bool, claimed: u64) -> (r: SweepClaim)
    ensures
        failed ==> r is Abort,
        !failed && claimed >= points@.len() ==> r is Drain,
        !failed && claimed < points@.len() ==> r == SweepClaim::Point(points@[claimed as int]),
{
    if failed {
        return SweepClaim::Abort;
    }
    if claimed >= points.len() as u64 {
        SweepClaim::Drain
    } else {
        SweepClaim::Point(points[claimed as usize])
    }
}

/// The points of a sweep, shared by the benchmark workers, with their failure
/// flag.
pub struct SweepQueue {
    points: Vec<usize>,
    next_point: AtomicU64,
    failed: AtomicBool,
}

impl SweepQueue {
    /// The points handed out.
    pub closed spec fn points(&self) -> Seq<usize> {
        self.points@
    }

    /// A queue that hands out `points` from the first.
    pub fn new(points: Vec<usize>) -> (r: SweepQueue)
        ensures
            r.points() == points@,
    {
        SweepQueue { points, next_point: AtomicU64::new(0), failed: AtomicBool::new(false) }
    }

    /// How many points the sweep has.
    pub fn len(&self) -> (r: usize)
        ensures
            r == self.points().len(),
    {
        self.points.len()
    }

    /// Sets the failure flag: the other workers stop before their next point.
    pub fn signal_failure(&self) {
        self.failed.store(true, Ordering::SeqCst);
    }

    /// Takes the next point, unless a worker has failed or none is left. A
    /// point handed out is one of the sweep's.
    pub fn claim(&self) -> (r: SweepClaim)
        ensures
            r matches SweepClaim::Point(x) ==> self.points().contains(x),
    {
        if self.failed.load(Ordering::SeqCst) {
            return SweepClaim::Abort;
        }
        let claimed = self.next_point.fetch_add(1, Ordering::SeqCst);
        decide_sweep_claim(&self.points, false, claimed)
    }
}

/// Passes one benchmark run on: its statistics are pushed to the stream, and
/// when nobody reads it any more the failure flag stops the other workers too;
/// a device error raises the failure flag and is pushed as the stream's error.
/// The worker goes on only after delivered statistics.
pub fn publish_record(
    queue: &SweepQueue,
    sink: &ResultSink<BenchStatistics>,
    finished: Result<BenchStatistics, DeviceError>,
) -> (r: WorkerState)
    ensures
        finished is Err ==> r is Failed,
        finished is Ok ==> (r is Running || r is Draining),
{
    match finished {
        Ok(stats) => {
            let state = state_after_push(sink.push(stats));
            if let WorkerState::Draining = state {
                queue.signal_failure();
            }
            state
        },
        Err(e) => {
            queue.signal_failure();
            let _ = sink.push_error(e);
            WorkerState::Failed
        },
    }
}

/// The largest work-group size a sweep over local sizes runs.
pub const MAX_LOCAL_SIZE: usize = 1024;

/// `x` is one of `start, start + step, ...` and at most `stop`.
pub open spec fn in_sweep(x: int, start: int, step: int, stop: int) -> bool {
    &&& start <= x <= stop
    &&& (x - start) % step == 0
}

/// A global size can run with a local size that divides it.
pub open spec fn global_size_runnable(global_size: int, local_size: int) -> bool {
    &&& local_size > 0
    &&& global_size % local_size == 0
}

/// A local size can run when it divides the global size and is at most
/// `MAX_LOCAL_SIZE`.
pub open spec fn local_size_runnable(global_size: int, local_size: int) -> bool {
    &&& 0 < local_size <= MAX_LOCAL_SIZE
    &&& global_size % local_size == 0
}

/// Every element of `s` is smaller than the next.
pub open spec fn ascending_sizes(s: Seq<usize>) -> bool {
    forall|i: int, j: int| 0 <= i < j < s.len() ==> s[i] < s[j]
}

/// Two points of one sweep less than a step apart are the same point.
proof fn lemma_sweep_points_apart(start: int, step: int, a: int, b: int)
    requires
        step > 0,
        (a - start) % step == 0,
        (b - start) % step == 0,
        a <= b < a + step,
    ensures
        a == b,
{
    vstd::arithmetic::div_mod::lemma_fundamental_div_mod(a - start, step);
    vstd::arithmetic::div_mod::lemma_fundamental_div_mod(b - start, step);
    let qa = (a - start) / step;
    let qb = (b - start) / step;
    assert(qa == qb) by (nonlinear_arith)
        requires
            a - start == step * qa,
            b - start == step * qb,
            0 <= b - a < step,
            step > 0,
    ;
}

/// The points of the sweep `start, start + step, ... <= stop` for which
/// `runnable(fixed, point)` holds, ascending. A global-size sweep keeps the
/// points that the fixed local size divides; a local-size sweep those that
/// divide the fixed global size.
fn sweep(fixed: usize, start: usize, step: usize, stop: usize, over_local: bool) -> (r: Vec<
    usize,
>)
    requires
        step > 0,
    ensures
        ascending_sizes(r@),
        forall|x: usize|
            #[trigger] r@.contains(x) <==> in_sweep(x as int, start as int, step as int, stop as int) && (if over_local {
                local_size_runnable(fixed as int, x as int)
            } else {
                global_size_runnable(x as int, fixed as int)
            }),
{
    let mut r: Vec<usize> = Vec::new();
    if start > stop {
        return r;
    }
    let mut point: usize = start;
    proof {
        vstd::arithmetic::div_mod::lemma_small_mod(0, step as nat);
    }
    loop
        invariant
            step > 0,
            start <= point <= stop,
            (point - start) % (step as int) == 0,
            ascending_sizes(r@),
            forall|k: int| 0 <= k < r@.len() ==> r@[k] < point,
            forall|x: usize|
                #[trigger] r@.contains(x) <==> in_sweep(x as int, start as int, step as int, stop as int)
                    && x < point && (if over_local {
                    local_size_runnable(fixed as int, x as int)
                } else {
                    global_size_runnable(x as int, fixed as int)
                }),
        decreases stop - point,
    {
        let ghost before = r@;
        let runnable = if over_local {
            point <= MAX_LOCAL_SIZE && point > 0 && fixed % point == 0
        } else {
            fixed > 0 && point % fixed == 0
        };
        if runnable {
            r.push(point);
        }
        proof {
            assert forall|x: usize|
                #[trigger] r@.contains(x) <==> in_sweep(x as int, start as int, step as int, stop as int) && x
                    < point + step && (if over_local {
                    local_size_runnable(fixed as int, x as int)
                } else {
                    global_size_runnable(x as int, fixed as int)
                }) by {
                if runnable {
                    vstd::seq_lib::lemma_seq_contains_after_push(before, point, x);
                }
                if in_sweep(x as int, start as int, step as int, stop as int) && point <= x < point
                    + step {
                    lemma_sweep_points_apart(start as int, step as int, point as int, x as int);
                }
            }
        }
        if stop - point < step {
            proof {
                assert forall|x: usize|
                    in_sweep(x as int, start as int, step as int, stop as int) implies x < point
                    + step by {}
            }
            return r;
        }
        point = point + step;
        assert((point - start) % (step as int) == 0) by {
            vstd::arithmetic::div_mod::lemma_mod_add_multiples_vanish(
                (point - step - start) as int,
                step as int,
            );
        }
    }
}

/// The global sizes from `start` by `step` up to `stop` that `local_size`
/// divides, ascending: those a global-size sweep runs.
pub fn sweep_global_sizes(local_size: usize, start: usize, step: usize, stop: usize) -> (r: Vec<
    usize,
>)
    requires
        step > 0,
    ensures
        ascending_sizes(r@),
        forall|x: usize|
            #[trigger] r@.contains(x) <==> in_sweep(x as int, start as int, step as int, stop as int)
                && global_size_runnable(x as int, local_size as int),
{
    sweep(local_size, start, step, stop, false)
}

/// The local sizes from `start` by `step` up to `stop` that divide
/// `global_size` and are at most `MAX_LOCAL_SIZE`, ascending: those a
/// local-size sweep runs.
pub fn sweep_local_sizes(global_size: usize, start: usize, step: usize, stop: usize) -> (r: Vec<
    usize,
>)
    requires
        step > 0,
    ensures
        ascending_sizes(r@),
        forall|x: usize|
            #[trigger] r@.contains(x) <==> in_sweep(x as int, start as int, step as int, stop as int)
                && local_size_runnable(global_size as int, x as int),
{
    sweep(global_size, start, step, stop, true)
}

} // verus!
