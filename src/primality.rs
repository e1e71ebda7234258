//! Primality on the CPU: a trial-division test over the 6k±1 wheel, and the
//! list of odd primes below a bound that seeds the divisor cache.

use vstd::prelude::*;

verus! {

/// `n` is prime: greater than one, and no number strictly between one and
/// `n` divides it.
pub open spec fn is_prime_spec(n: int) -> bool {
    &&& n > 1
    &&& forall|d: int| 1 < d < n ==> #[trigger] (n % d) != 0
}

/// `r` is the integer square root of `n`, rounded down.
pub open spec fn is_floor_sqrt(r: int, n: int) -> bool {
    r * r <= n < (r + 1) * (r + 1)
}

/// A divisor of a divisor of `n` divides `n`.
proof fn lemma_divisor_chain(a: int, b: int, n: int)
    requires
        a > 0,
        b > 0,
        n % b == 0,
        b % a == 0,
    ensures
        n % a == 0,
{
    let k = n / b;
    let m = b / a;
    assert(n == b * k) by (nonlinear_arith)
        requires b > 0, n % b == 0, k == n / b;
    assert(b == a * m) by (nonlinear_arith)
        requires a > 0, b % a == 0, m == b / a;
    assert(n == a * (m * k)) by (nonlinear_arith)
        requires n == b * k, b == a * m;
    assert((a * (m * k)) % a == 0) by (nonlinear_arith)
        requires a > 0;
}

/// A number that has a divisor `d` with `1 < d < i`, and none below `i`, is
/// impossible; so when `i * i > n` and no divisor lies below `i`, `n` is prime.
proof fn lemma_prime_from_small_divisors(n: int, i: int)
    requires
        n > 1,
        i > 1,
        i * i > n,
        forall|d: int| 1 < d < i ==> #[trigger] (n % d) != 0,
    ensures
        is_prime_spec(n),
{
    assert forall|d: int| 1 < d < n implies #[trigger] (n % d) != 0 by {
        if n % d == 0 && d >= i {
            let e = n / d;
            assert(n == d * e) by (nonlinear_arith)
                requires d > 0, n % d == 0, e == n / d;
            assert(e > 1) by (nonlinear_arith)
                requires n == d * e, d < n, n > 1, d > 1;
            assert(e < i) by (nonlinear_arith)
                requires n == d * e, d >= i, i * i > n, i > 1, e > 1;
            assert(n % e == 0) by (nonlinear_arith)
                requires n == d * e, e > 0;
        }
    }
}

/// Checks whether `num` is prime: 2 and 3 are handled first, then only the
/// divisors of the form 6k-1 and 6k+1 are tried, up to the square root.
pub fn is_prime(num: u64) -> (r: bool)
    ensures
        r == is_prime_spec(num as int),
{
    if num == 2 || num == 3 {
        return true;
    }
    if num < 2 {
        return false;
    }
    if num % 2 == 0 {
        assert(!is_prime_spec(num as int) || (num as int) % 2 != 0);
        return false;
    }
    if num % 3 == 0 {
        assert(!is_prime_spec(num as int) || (num as int) % 3 != 0);
        return false;
    }
    assert forall|d: int| 1 < d < 5 implies #[trigger] ((num as int) % d) != 0 by {
        if d == 4 && (num as int) % d == 0 {
            lemma_divisor_chain(2, 4, num as int);
        }
    }
    let mut i: u64 = 5;
    while i <= num / i
        invariant
            5 <= i,
            i % 6 == 5,
            num >= 5,
            num % 2 != 0,
            num % 3 != 0,
            forall|d: int| 1 < d < i ==> #[trigger] ((num as int) % d) != 0,
        decreases num - i,
    {
        assert(i * i <= num) by (nonlinear_arith)
            requires i <= num / i, i > 0;
        assert(i + 2 < num) by (nonlinear_arith)
            requires i * i <= num, i >= 5;
        if num % i == 0 {
            assert(!is_prime_spec(num as int) || (num as int) % (i as int) != 0);
            return false;
        }
        if num % (i + 2) == 0 {
            assert(!is_prime_spec(num as int) || (num as int) % ((i + 2) as int) != 0);
            return false;
        }
        assert forall|d: int| 1 < d < i + 6 implies #[trigger] ((num as int) % d) != 0 by {
            if d >= i && (num as int) % d == 0 {
                if d == i + 1 || d == i + 3 || d == i + 5 {
                    assert(d % 2 == 0);
                    lemma_divisor_chain(2, d, num as int);
                } else if d == i + 4 {
                    assert(d % 3 == 0);
                    lemma_divisor_chain(3, d, num as int);
                }
            }
        }
        i = i + 6;
    }
    assert(i * i > num) by (nonlinear_arith)
        requires i > num / i, i > 0, num > 0;
    proof {
        lemma_prime_from_small_divisors(num as int, i as int);
    }
    true
}

/// `n` is an odd prime below `bound`.
pub open spec fn is_odd_prime_below(n: int, bound: int) -> bool {
    &&& n < bound
    &&& n % 2 == 1
    &&& is_prime_spec(n)
}

/// Every element of `s` is smaller than the next: ascending, without repeats.
pub open spec fn strictly_ascending(s: Seq<u64>) -> bool {
    forall|i: int, j: int| 0 <= i < j < s.len() ==> s[i] < s[j]
}

/// Lists the odd primes below `max_number`, in ascending order.
pub fn get_primes(max_number: u64) -> (r: Vec<u64>)
    ensures
        strictly_ascending(r@),
        forall|n: u64| r@.contains(n) <==> is_odd_prime_below(n as int, max_number as int),
{
    let mut primes: Vec<u64> = Vec::new();
    let mut num: u64 = 1;
    while num < max_number
        invariant
            num % 2 == 1,
            num <= max_number as int + 1,
            strictly_ascending(primes@),
            forall|k: int| 0 <= k < primes@.len() ==> primes@[k] < num,
            forall|n: u64| primes@.contains(n) <==> is_odd_prime_below(n as int, num as int),
        decreases max_number as int + 1 - num,
    {
        let ghost before = primes@;
        let found = is_prime(num);
        if found {
            primes.push(num);
            assert(primes@ == before.push(num));
        }
        assert forall|n: u64| primes@.contains(n) <==> is_odd_prime_below(
            n as int,
            num + 2,
        ) by {
            assert(before.contains(n) <==> is_odd_prime_below(n as int, num as int));
            if found {
                vstd::seq_lib::lemma_seq_contains_after_push(before, num, n);
                assert(primes@.contains(n) <==> (n == num || before.contains(n)));
            }
            if n == num + 1 {
                assert((n as int) % 2 == 0);
            }
        }
        num = num + 2;
    }
    assert forall|n: u64| primes@.contains(n) <==> is_odd_prime_below(
        n as int,
        max_number as int,
    ) by {
        assert(primes@.contains(n) <==> is_odd_prime_below(n as int, num as int));
        if n == max_number && (n as int) % 2 == 1 {
            assert(num == max_number);
        }
    }
    primes
}

/// Computes the integer square root of `n`, rounded down.
pub fn floor_sqrt(n: u64) -> (r: u64)
    ensures
        is_floor_sqrt(r as int, n as int),
        r < 0x1_0000_0000,
{
    let mut lo: u64 = 0;
    let mut hi: u64 = 0x1_0000_0000;
    assert(hi * hi > n);
    while hi - lo > 1
        invariant
            lo < hi <= 0x1_0000_0000,
            lo * lo <= n,
            hi * hi > n,
        decreases hi - lo,
    {
        let mid: u64 = lo + (hi - lo) / 2;
        assert((mid as u128) * (mid as u128) < 0x1_0000_0000_0000_0000u128) by (nonlinear_arith)
            requires mid < 0x1_0000_0000u64;
        if (mid as u128) * (mid as u128) <= n as u128 {
            lo = mid;
        } else {
            hi = mid;
        }
    }
    assert(hi == lo + 1);
    lo
}

} // verus!
