//! A sorted, duplicate-free set of known odd primes, reused as trial divisors
//! by later units, and bounded by a memory budget.

use crate::primality::{
    floor_sqrt, get_primes, is_odd_prime_below, is_prime_spec, strictly_ascending,
};
use vstd::prelude::*;

verus! {

/// Bytes that one cached divisor is counted for.
pub const DIVISOR_BYTES: u64 = 8;

/// The budget used when none is given: one GiB.
pub const DEFAULT_BYTE_BUDGET: u64 = 1073741824;

/// Estimated memory of `n` cached divisors.
pub open spec fn estimated_bytes(n: int) -> int {
    n * 8
}

/// The cache's contents after `found` is merged into `current`: the union when
/// its estimated size stays strictly under the budget, else `current`
/// unchanged.
pub open spec fn merge_result(current: Set<u64>, found: Set<u64>, budget: int) -> Set<u64> {
    let union = current.union(found);
    if estimated_bytes(union.len() as int) < budget {
        union
    } else {
        current
    }
}

/// The contents after merging each set of `steps` in turn.
pub open spec fn merge_all(current: Set<u64>, steps: Seq<Set<u64>>, budget: int) -> Set<u64>
    decreases steps.len(),
{
    if steps.len() == 0 {
        current
    } else {
        merge_all(merge_result(current, steps[0], budget), steps.drop_first(), budget)
    }
}

/// The divisors that a bootstrap for `upper_bound` brings: the odd primes whose
/// square is at most `upper_bound`.
pub open spec fn bootstrap_divisors(upper_bound: int) -> Set<u64> {
    Set::new(|p: u64| p * p <= upper_bound && p % 2 == 1 && is_prime_spec(p as int))
}

/// Relies on `slice::sort`: afterwards the vector holds the same values, in
/// ascending order.
#[verifier::external_body]
fn sort_ascending(v: &mut Vec<u64>)
    ensures
        final(v)@.to_multiset() == old(v)@.to_multiset(),
        forall|i: int, j: int| 0 <= i < j < final(v)@.len() ==> final(v)@[i] <= final(v)@[j],
{
    v.sort();
}

/// Copies `a` followed by `b` into a new vector.
fn concat(a: &Vec<u64>, b: &Vec<u64>) -> (r: Vec<u64>)
    ensures
        r@ == a@ + b@,
{
    let mut r: Vec<u64> = Vec::new();
    let mut i: usize = 0;
    while i < a.len()
        invariant
            i <= a@.len(),
            r@ == a@.take(i as int),
        decreases a@.len() - i,
    {
        r.push(a[i]);
        i = i + 1;
        assert(r@ == a@.take(i as int));
    }
    let mut j: usize = 0;
    while j < b.len()
        invariant
            j <= b@.len(),
            r@ == a@ + b@.take(j as int),
        decreases b@.len() - j,
    {
        r.push(b[j]);
        j = j + 1;
        assert(r@ == a@ + b@.take(j as int));
    }
    assert(b@.take(b@.len() as int) == b@);
    r
}

/// Keeps the first of each run of equal values of an ascending vector.
fn dedup_sorted(v: &Vec<u64>) -> (r: Vec<u64>)
    requires
        forall|i: int, j: int| 0 <= i < j < v@.len() ==> v@[i] <= v@[j],
    ensures
        strictly_ascending(r@),
        r@.to_set() == v@.to_set(),
{
    let mut r: Vec<u64> = Vec::new();
    let mut i: usize = 0;
    while i < v.len()
        invariant
            i <= v@.len(),
            forall|a: int, b: int| 0 <= a < b < v@.len() ==> v@[a] <= v@[b],
            strictly_ascending(r@),
            i > 0 ==> r@.len() > 0 && r@.last() == v@[i - 1],
            r@.len() <= i,
            forall|x: u64| r@.contains(x) <==> v@.take(i as int).contains(x),
        decreases v@.len() - i,
    {
        let ghost before = r@;
        let x = v[i];
        proof {
            assert(v@.take(i + 1) == v@.take(i as int).push(x));
        }
        if r.len() == 0 || r[r.len() - 1] != x {
            r.push(x);
            proof {
                assert(r@ == before.push(x));
                assert forall|y: u64| r@.contains(y) <==> v@.take(i + 1).contains(y) by {
                    vstd::seq_lib::lemma_seq_contains_after_push(before, x, y);
                    vstd::seq_lib::lemma_seq_contains_after_push(v@.take(i as int), x, y);
                }
                assert forall|a: int, b: int| 0 <= a < b < r@.len() implies r@[a] < r@[b] by {
                    if b == r@.len() - 1 {
                        assert(r@[a] == before[a]);
                        if a < before.len() - 1 {
                            assert(before[a] < before[before.len() - 1]);
                        }
                        assert(v@[i - 1] <= v@[i as int]);
                    } else {
                        assert(r@[a] == before[a] && r@[b] == before[b]);
                    }
                }
            }
        } else {
            proof {
                assert forall|y: u64| r@.contains(y) <==> v@.take(i + 1).contains(y) by {
                    vstd::seq_lib::lemma_seq_contains_after_push(v@.take(i as int), x, y);
                    if y == x {
                        assert(r@[r@.len() - 1] == y);
                    }
                }
            }
        }
        i = i + 1;
    }
    assert(v@.take(v@.len() as int) == v@);
    assert(r@.to_set() =~= v@.to_set());
    r
}

/// A strictly ascending sequence has as many distinct elements as entries.
proof fn lemma_ascending_set_len(s: Seq<u64>)
    requires
        strictly_ascending(s),
    ensures
        s.to_set().len() == s.len(),
        s.to_set().finite(),
{
    assert(s.no_duplicates());
    s.unique_seq_to_set();
    vstd::seq_lib::seq_to_set_is_finite(s);
}

/// Known odd primes used as trial divisors, kept sorted and without repeats,
/// whose estimated size never exceeds the byte budget.
pub struct DivisorCache {
    divisors: Vec<u64>,
    byte_budget: u64,
}

impl View for DivisorCache {
    type V = Seq<u64>;

    closed spec fn view(&self) -> Seq<u64> {
        self.divisors@
    }
}

impl DivisorCache {
    /// The budget, in bytes, that the cache stays within.
    pub closed spec fn budget(&self) -> int {
        self.byte_budget as int
    }

    /// Sorted, without repeats, and within the budget.
    pub open spec fn wf(&self) -> bool {
        &&& strictly_ascending(self@)
        &&& estimated_bytes(self@.len() as int) <= self.budget()
    }

    /// An empty cache with the given budget.
    pub fn new(byte_budget: u64) -> (r: DivisorCache)
        ensures
            r.wf(),
            r@ == Seq::<u64>::empty(),
            r.budget() == byte_budget,
    {
        DivisorCache { divisors: Vec::new(), byte_budget }
    }

    /// The budget, in bytes.
    pub fn byte_budget(&self) -> (r: u64)
        ensures
            r == self.budget(),
    {
        self.byte_budget
    }

    /// The number of cached divisors.
    pub fn len(&self) -> (r: usize)
        ensures
            r == self@.len(),
    {
        self.divisors.len()
    }

    /// A copy of the cached divisors, in ascending order, to hand to one
    /// submission without holding the cache.
    pub fn snapshot(&self) -> (r: Vec<u64>)
        ensures
            r@ == self@,
    {
        let r = self.divisors.clone();
        assert(r@ =~= self@);
        r
    }

    /// Adds `found` to the cache when the union's estimated size stays
    /// strictly under the budget; otherwise leaves the cache as it was.
    pub fn merge(&mut self, found: &Vec<u64>)
        requires
            old(self).wf(),
        ensures
            final(self).wf(),
            final(self).budget() == old(self).budget(),
            final(self)@.to_set() == merge_result(
                old(self)@.to_set(),
                found@.to_set(),
                old(self).budget(),
            ),
    {
        broadcast use vstd::seq_lib::group_to_multiset_ensures;

        let mut combined = concat(&self.divisors, found);
        let ghost joined = combined@;
        sort_ascending(&mut combined);
        let unique = dedup_sorted(&combined);
        proof {
            assert forall|x: u64| combined@.contains(x) <==> joined.contains(x) by {
                assert(combined@.to_multiset().count(x) == joined.to_multiset().count(x));
            }
            assert(unique@.to_set() =~= self@.to_set().union(found@.to_set())) by {
                assert forall|x: u64| unique@.to_set().contains(x) <==> self@.to_set().union(
                    found@.to_set(),
                ).contains(x) by {
                    assert(unique@.to_set().contains(x) <==> combined@.to_set().contains(x));
                    assert(combined@.to_set().contains(x) <==> combined@.contains(x));
                    assert(self@.to_set().contains(x) <==> self@.contains(x));
                    assert(found@.to_set().contains(x) <==> found@.contains(x));
                    if joined.contains(x) {
                        let k = choose|k: int| 0 <= k < joined.len() && joined[k] == x;
                        if k >= self@.len() {
                            assert(found@[k - self@.len()] == x);
                        }
                    }
                    if self@.contains(x) {
                        let k = choose|k: int| 0 <= k < self@.len() && self@[k] == x;
                        assert(joined[k] == x);
                    }
                    if found@.contains(x) {
                        let k = choose|k: int| 0 <= k < found@.len() && found@[k] == x;
                        assert(joined[self@.len() + k] == x);
                    }
                }
            }
            lemma_ascending_set_len(unique@);
        }
        if (unique.len() as u128) * (DIVISOR_BYTES as u128) < self.byte_budget as u128 {
            self.divisors = unique;
        }
    }

    /// Adds the odd primes whose square is at most `upper_bound`, found on the
    /// CPU, as one merge under the budget.
    pub fn bootstrap(&mut self, upper_bound: u64)
        requires
            old(self).wf(),
        ensures
            final(self).wf(),
            final(self).budget() == old(self).budget(),
            final(self)@.to_set() == merge_result(
                old(self)@.to_set(),
                bootstrap_divisors(upper_bound as int),
                old(self).budget(),
            ),
    {
        let root = floor_sqrt(upper_bound);
        let bound = root + 1;
        let primes = get_primes(bound);
        proof {
            assert(primes@.to_set() =~= bootstrap_divisors(upper_bound as int)) by {
                assert forall|p: u64| #[trigger] primes@.contains(p) <==> (p * p <= upper_bound
                    && p % 2 == 1 && is_prime_spec(p as int)) by {
                    let pi = p as int;
                    let ri = root as int;
                    assert(primes@.contains(p) <==> is_odd_prime_below(pi, bound as int));
                    assert(ri * ri <= upper_bound < (ri + 1) * (ri + 1));
                    if pi <= ri {
                        assert(pi * pi <= ri * ri) by (nonlinear_arith)
                            requires 0 <= pi <= ri;
                    } else {
                        assert(pi * pi >= (ri + 1) * (ri + 1)) by (nonlinear_arith)
                            requires pi >= ri + 1, ri >= 0;
                    }
                }
            }
        }
        self.merge(&primes);
    }
}

/// Merging the same divisors a second time leaves the cache as the first merge
/// left it.
pub proof fn lemma_merge_idempotent(current: Set<u64>, found: Set<u64>, budget: int)
    requires
        current.finite(),
        found.finite(),
    ensures
        merge_result(merge_result(current, found, budget), found, budget) == merge_result(
            current,
            found,
            budget,
        ),
{
    let union = current.union(found);
    assert(union.union(found) =~= union);
}

/// Whatever sets are merged, one after another, into a cache within its
/// budget, the cache stays within the budget; and a cache strictly under its
/// budget stays strictly under it.
pub proof fn lemma_merges_stay_within_budget(
    current: Set<u64>,
    steps: Seq<Set<u64>>,
    budget: int,
)
    requires
        current.finite(),
        estimated_bytes(current.len() as int) <= budget,
        forall|i: int| 0 <= i < steps.len() ==> (#[trigger] steps[i]).finite(),
    ensures
        merge_all(current, steps, budget).finite(),
        estimated_bytes(merge_all(current, steps, budget).len() as int) <= budget,
        estimated_bytes(current.len() as int) < budget ==> estimated_bytes(
            merge_all(current, steps, budget).len() as int,
        ) < budget,
    decreases steps.len(),
{
    if steps.len() > 0 {
        let next = merge_result(current, steps[0], budget);
        assert(current.union(steps[0]).finite());
        assert forall|i: int| 0 <= i < steps.drop_first().len() implies (
        #[trigger] steps.drop_first()[i]).finite() by {
            assert(steps.drop_first()[i] == steps[i + 1]);
        }
        lemma_merges_stay_within_budget(next, steps.drop_first(), budget);
    }
}

} // verus!
