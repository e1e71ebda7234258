//! The run options of each command, as plain values.

use crate::bench::{
    global_size_runnable, in_sweep, local_size_runnable, sweep_global_sizes, sweep_local_sizes,
};
use crate::divisor_cache::{bootstrap_divisors, merge_result, DivisorCache, DEFAULT_BYTE_BUDGET};
use crate::partition::{first_candidate, u64_limit, Partition};
use vstd::prelude::*;

verus! {

/// The local size used when none is given.
pub const DEFAULT_LOCAL_SIZE: usize = 128;

/// The end of the first unit of a run from `start` with `numbers_per_step`
/// candidates a unit, or `u64::MAX` when that does not fit.
pub open spec fn seed_bound(start: int, numbers_per_step: int) -> int {
    if start + 2 * numbers_per_step <= u64::MAX {
        start + 2 * numbers_per_step
    } else {
        u64::MAX as int
    }
}

/// Whether output is colored.
#[derive(Clone, Copy, Debug, PartialEq, Eq)]
pub enum UseColors {
    Off,
    On,
    Auto,
}

/// The command to run.
#[derive(Clone, Debug)]
pub enum Opts {
    /// Calculates primes on the accelerator.
    CalculatePrimes(CalculatePrimes),
    /// Benchmarks the local size.
    BenchLocalSize(BenchLocalSize),
    /// Benchmarks the global size (number of tasks).
    BenchGlobalSize(BenchGlobalSize),
    /// Prints information on the accelerator.
    Info,
}

/// Options of a prime calculation.
#[derive(Clone, Debug)]
pub struct CalculatePrimes {
    pub general_options: GeneralOptions,
    /// The number to start with.
    pub start_offset: u64,
    /// The end of the range, exclusive.
    pub max_number: u64,
    /// Where the primes are written.
    pub output_file: String,
    /// Where the timings are written.
    pub timings_file: String,
    /// The local size of the kernel; `DEFAULT_LOCAL_SIZE` when not given.
    pub local_size: Option<usize>,
    /// How many odd numbers each unit checks.
    pub numbers_per_step: usize,
    /// Whether to check without the divisor cache.
    pub no_cache: bool,
    /// Whether to check every result again on the CPU.
    pub cpu_validate: bool,
}

/// Options of a local-size sweep.
#[derive(Clone, Debug)]
pub struct BenchLocalSize {
    pub bench_options: BenchOptions,
    pub local_size_start: usize,
    pub local_size_step: usize,
    pub local_size_stop: usize,
    /// The fixed number of tasks.
    pub global_size: usize,
}

/// Options of a global-size sweep.
#[derive(Clone, Debug)]
pub struct BenchGlobalSize {
    pub bench_options: BenchOptions,
    pub global_size_start: usize,
    pub global_size_step: usize,
    pub global_size_stop: usize,
    /// The fixed local size.
    pub local_size: usize,
}

/// Options shared by the benchmarks.
#[derive(Clone, Debug)]
pub struct BenchOptions {
    pub general_options: GeneralOptions,
    /// How many calculation steps each task does.
    pub calculation_steps: u32,
    /// Where the results are written; a name is made up when not given.
    pub benchmark_file: Option<String>,
    /// How many times each size is run.
    pub repetitions: usize,
}

/// Options shared by all commands.
#[derive(Clone, Debug)]
pub struct GeneralOptions {
    pub color: UseColors,
    /// How many workers run at once.
    pub threads: usize,
}

impl CalculatePrimes {
    /// The local size, or `DEFAULT_LOCAL_SIZE` when none was given.
    pub fn local_size_or_default(&self) -> (r: usize)
        ensures
            r == match self.local_size {
                Some(l) => l,
                None => DEFAULT_LOCAL_SIZE,
            },
    {
        match self.local_size {
            Some(l) => l,
            None => DEFAULT_LOCAL_SIZE,
        }
    }

    /// Whether the divisor cache is used.
    pub fn use_cache(&self) -> (r: bool)
        ensures
            r == !self.no_cache,
    {
        !self.no_cache
    }

    /// The range to check, cut into units of `numbers_per_step` candidates;
    /// `None` where `Partition::new` has none.
    pub fn partition(&self) -> (r: Option<Partition>)
        ensures
            r is Some <==> (self.numbers_per_step > 0 && self.max_number + 2
                * self.numbers_per_step <= u64_limit()),
            r matches Some(p) ==> {
                &&& p.wf()
                &&& p.first() == first_candidate(self.start_offset as int)
                &&& p.stop() == self.max_number
                &&& p.unit_size() == self.numbers_per_step
            },
    {
        Partition::new(self.start_offset, self.max_number, self.numbers_per_step as u64)
    }
}

impl CalculatePrimes {
    /// The bound the divisor cache is seeded for: the end of the first unit,
    /// `start_offset + 2 * numbers_per_step`, or `u64::MAX` past it.
    pub fn bootstrap_bound(&self) -> (r: u64)
        ensures
            r == seed_bound(self.start_offset as int, self.numbers_per_step as int),
    {
        let end = self.start_offset as u128 + 2 * (self.numbers_per_step as u128);
        if end > u64::MAX as u128 {
            u64::MAX
        } else {
            end as u64
        }
    }

    /// The divisor cache for the run: none without caching, else one with the
    /// default budget, seeded with the odd primes up to the square root of
    /// `bootstrap_bound`.
    pub fn divisor_cache(&self) -> (r: Option<DivisorCache>)
        ensures
            r is Some <==> !self.no_cache,
            r matches Some(c) ==> {
                &&& c.wf()
                &&& c.budget() == DEFAULT_BYTE_BUDGET
                &&& c@.to_set() == merge_result(
                    Set::empty(),
                    bootstrap_divisors(seed_bound(self.start_offset as int, self.numbers_per_step as int)),
                    DEFAULT_BYTE_BUDGET as int,
                )
            },
    {
        if self.no_cache {
            return None;
        }
        let mut cache = DivisorCache::new(DEFAULT_BYTE_BUDGET);
        assert(cache@.to_set() =~= Set::<u64>::empty());
        cache.bootstrap(self.bootstrap_bound());
        Some(cache)
    }
}

impl BenchLocalSize {
    /// The local sizes the sweep runs, ascending; `None` for a step of zero.
    pub fn sizes(&self) -> (r: Option<Vec<usize>>)
        ensures
            r is Some <==> self.local_size_step > 0,
            r matches Some(v) ==> forall|x: usize|
                #[trigger] v@.contains(x) <==> in_sweep(
                    x as int,
                    self.local_size_start as int,
                    self.local_size_step as int,
                    self.local_size_stop as int,
                ) && local_size_runnable(self.global_size as int, x as int),
    {
        if self.local_size_step == 0 {
            return None;
        }
        Some(
            sweep_local_sizes(
                self.global_size,
                self.local_size_start,
                self.local_size_step,
                self.local_size_stop,
            ),
        )
    }
}

impl BenchGlobalSize {
    /// The global sizes the sweep runs, ascending; `None` for a step of zero.
    pub fn sizes(&self) -> (r: Option<Vec<usize>>)
        ensures
            r is Some <==> self.global_size_step > 0,
            r matches Some(v) ==> forall|x: usize|
                #[trigger] v@.contains(x) <==> in_sweep(
                    x as int,
                    self.global_size_start as int,
                    self.global_size_step as int,
                    self.global_size_stop as int,
                ) && global_size_runnable(x as int, self.local_size as int),
    {
        if self.global_size_step == 0 {
            return None;
        }
        Some(
            sweep_global_sizes(
                self.local_size,
                self.global_size_start,
                self.global_size_step,
                self.global_size_stop,
            ),
        )
    }
}

} // verus!
