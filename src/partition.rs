//! Splits a half-open range into work units of odd candidates.
//!
//! Unit `k` starts at `first + 2 * unit_size * k`, where `first` is the range's
//! start moved up to the next odd number, and holds `unit_size` odd numbers two
//! apart. The units are numbered `0 .. count`; the last one may run past the
//! end of the range.

use vstd::arithmetic::div_mod::{lemma_fundamental_div_mod, lemma_fundamental_div_mod_converse};
use vstd::prelude::*;

verus! {

/// One past the largest `u64`.
pub open spec fn u64_limit() -> int {
    0x1_0000_0000_0000_0000
}

/// The first candidate of a range that begins at `start`: `start` when it is
/// odd, else the odd number after it.
pub open spec fn first_candidate(start: int) -> int {
    if start % 2 == 0 {
        start + 1
    } else {
        start
    }
}

/// How many units of `unit_size` candidates it takes, from `first`, to pass
/// `stop`.
pub open spec fn unit_count_spec(first: int, stop: int, unit_size: int) -> int {
    if first >= stop {
        0
    } else {
        (stop - first + 2 * unit_size - 1) / (2 * unit_size)
    }
}

/// The `i`-th candidate of unit `k`.
pub open spec fn candidate_at(first: int, unit_size: int, k: int, i: int) -> int {
    first + 2 * unit_size * k + 2 * i
}

/// A unit of work: the odd numbers `offset, offset + 2, ...` that one
/// accelerator submission checks.
pub struct WorkUnit {
    pub offset: u64,
    pub candidates: Vec<u64>,
}

/// Lists `unit_size` numbers from `offset`, two apart.
pub fn unit_candidates(offset: u64, unit_size: u64) -> (r: Vec<u64>)
    requires
        offset + 2 * unit_size <= u64_limit(),
    ensures
        r@.len() == unit_size,
        forall|i: int| 0 <= i < unit_size ==> r@[i] == offset + 2 * i,
{
    let mut r: Vec<u64> = Vec::new();
    let mut i: u64 = 0;
    while i < unit_size
        invariant
            i <= unit_size,
            offset + 2 * unit_size <= u64_limit(),
            r@.len() == i,
            forall|j: int| 0 <= j < i ==> r@[j] == offset + 2 * j,
        decreases unit_size - i,
    {
        r.push(offset + 2 * i);
        i = i + 1;
    }
    r
}

/// A range `[start, stop)` cut into units of `unit_size` odd candidates.
pub struct Partition {
    first: u64,
    stop: u64,
    unit_size: u64,
}

impl Partition {
    /// The first candidate.
    pub closed spec fn first(&self) -> int {
        self.first as int
    }

    /// The end of the range, exclusive.
    pub closed spec fn stop(&self) -> int {
        self.stop as int
    }

    /// How many candidates each unit holds.
    pub closed spec fn unit_size(&self) -> int {
        self.unit_size as int
    }

    /// The first candidate is odd, units are not empty, and every candidate of
    /// every unit fits in a `u64`.
    pub open spec fn wf(&self) -> bool {
        &&& 0 <= self.first()
        &&& self.first() % 2 == 1
        &&& self.unit_size() > 0
        &&& self.stop() + 2 * self.unit_size() <= u64_limit()
    }

    /// How many units the range takes.
    pub open spec fn count(&self) -> int {
        unit_count_spec(self.first(), self.stop(), self.unit_size())
    }

    /// `u` is unit `k` of this partition.
    pub open spec fn holds_unit(&self, k: int, u: WorkUnit) -> bool {
        &&& u.offset == candidate_at(self.first(), self.unit_size(), k, 0)
        &&& u.candidates@.len() == self.unit_size()
        &&& forall|i: int|
            0 <= i < self.unit_size() ==> u.candidates@[i] == candidate_at(
                self.first(),
                self.unit_size(),
                k,
                i,
            )
    }

    /// Cuts `[start, stop)` into units of `unit_size` candidates. There is no
    /// partition when units would be empty, or when the candidates of the last
    /// unit would not fit in a `u64`.
    pub fn new(start: u64, stop: u64, unit_size: u64) -> (r: Option<Partition>)
        ensures
            r is Some <==> (unit_size > 0 && stop + 2 * unit_size <= u64_limit()),
            r matches Some(p) ==> {
                &&& p.wf()
                &&& p.first() == first_candidate(start as int)
                &&& p.stop() == stop
                &&& p.unit_size() == unit_size
            },
    {
        if unit_size == 0 || (stop as u128) + 2 * (unit_size as u128) > 0x1_0000_0000_0000_0000u128 {
            return None;
        }
        let first = if start % 2 == 0 {
            start + 1
        } else {
            start
        };
        Some(Partition { first, stop, unit_size })
    }

    /// The number of units.
    pub fn unit_count(&self) -> (r: u64)
        requires
            self.wf(),
        ensures
            r == self.count(),
    {
        if self.first >= self.stop {
            0
        } else {
            (self.stop - self.first + 2 * self.unit_size - 1) / (2 * self.unit_size)
        }
    }

    /// Unit `k`, or `None` past the last one.
    pub fn unit(&self, k: u64) -> (r: Option<WorkUnit>)
        requires
            self.wf(),
        ensures
            r is Some <==> k < self.count(),
            r matches Some(u) ==> self.holds_unit(k as int, u),
    {
        let count = self.unit_count();
        if k >= count {
            return None;
        }
        proof {
            lemma_unit_starts_below_stop(self.first(), self.stop(), self.unit_size(), k as int);
        }
        let offset = self.first + 2 * self.unit_size * k;
        let candidates = unit_candidates(offset, self.unit_size);
        Some(WorkUnit { offset, candidates })
    }
}

/// Every unit before the count starts below `stop`.
pub proof fn lemma_unit_starts_below_stop(first: int, stop: int, unit_size: int, k: int)
    requires
        unit_size > 0,
        0 <= k < unit_count_spec(first, stop, unit_size),
    ensures
        first + 2 * unit_size * k < stop,
{
    let d = 2 * unit_size;
    let x = stop - first + d - 1;
    lemma_fundamental_div_mod(x, d);
    let q = x / d;
    assert(d * k <= d * q - d) by (nonlinear_arith)
        requires k < q, d > 0;
}

/// Every odd number of `[start, stop)` is a candidate of exactly one unit, at
/// exactly one place in it.
pub proof fn lemma_units_cover_exactly_once(start: int, stop: int, unit_size: int, n: int)
    requires
        unit_size > 0,
        start <= n < stop,
        n % 2 == 1,
    ensures
        ({
            let first = first_candidate(start);
            let k = (n - first) / (2 * unit_size);
            let i = ((n - first) % (2 * unit_size)) / 2;
            &&& 0 <= k < unit_count_spec(first, stop, unit_size)
            &&& 0 <= i < unit_size
            &&& n == candidate_at(first, unit_size, k, i)
            &&& forall|k2: int, i2: int|
                0 <= k2 < unit_count_spec(first, stop, unit_size) && 0 <= i2 < unit_size && n
                    == candidate_at(first, unit_size, k2, i2) ==> k2 == k && i2 == i
        }),
{
    let first = first_candidate(start);
    let d = 2 * unit_size;
    let x = n - first;
    assert(x >= 0 && x % 2 == 0);
    lemma_fundamental_div_mod(x, d);
    let k = x / d;
    let m = x % d;
    assert(m % 2 == 0) by {
        assert(x == d * k + m);
        assert(d * k == 2 * (unit_size * k)) by (nonlinear_arith)
            requires d == 2 * unit_size;
    }
    let i = m / 2;
    assert(n == candidate_at(first, unit_size, k, i)) by (nonlinear_arith)
        requires x == d * k + m, m == 2 * i, x == n - first, d == 2 * unit_size;
    let y = stop - first + d - 1;
    lemma_fundamental_div_mod(y, d);
    assert(k < y / d) by {
        lemma_fundamental_div_mod_converse(x, d, k, m);
        assert(k * d <= x);
        if k >= y / d {
            assert(k * d >= (y / d) * d) by (nonlinear_arith)
                requires k >= y / d, d > 0;
            assert(y < (y / d) * d + d);
        }
    }
    assert forall|k2: int, i2: int|
        0 <= k2 < unit_count_spec(first, stop, unit_size) && 0 <= i2 < unit_size && n
            == candidate_at(first, unit_size, k2, i2) implies k2 == k && i2 == i by {
        assert(x == k2 * d + 2 * i2) by (nonlinear_arith)
            requires n == candidate_at(first, unit_size, k2, i2), x == n - first, d == 2
                * unit_size;
        lemma_fundamental_div_mod_converse(x, d, k2, 2 * i2);
    }
}

} // verus!
