//! Turns the flags that the accelerator wrote back into the candidates it
//! found prime, and checks such a list again on the CPU.

use crate::primality::{is_prime, is_prime_spec};
use vstd::prelude::*;

verus! {

/// The elements of `input` whose flag, at the same place in `flags`, is 1, in
/// the order of `input`.
pub open spec fn flagged(input: Seq<u64>, flags: Seq<u8>) -> Seq<u64>
    decreases input.len(),
{
    if input.len() == 0 {
        Seq::empty()
    } else {
        let rest = flagged(input.drop_last(), flags);
        if flags[input.len() - 1] == 1 {
            rest.push(input.last())
        } else {
            rest
        }
    }
}

/// The elements of `s` that are not prime, in order.
pub open spec fn not_prime(s: Seq<u64>) -> Seq<u64>
    decreases s.len(),
{
    if s.len() == 0 {
        Seq::empty()
    } else {
        let rest = not_prime(s.drop_last());
        if is_prime_spec(s.last() as int) {
            rest
        } else {
            rest.push(s.last())
        }
    }
}

/// Keeps the candidates of `input` whose flag in `output` is 1.
pub fn map_gpu_prime_result(input: Vec<u64>, output: Vec<u8>) -> (r: Vec<u64>)
    requires
        output@.len() >= input@.len(),
    ensures
        r@ == flagged(input@, output@),
{
    let mut r: Vec<u64> = Vec::new();
    let mut i: usize = 0;
    while i < input.len()
        invariant
            i <= input@.len(),
            output@.len() >= input@.len(),
            r@ == flagged(input@.take(i as int), output@),
        decreases input@.len() - i,
    {
        proof {
            assert(input@.take(i + 1).drop_last() == input@.take(i as int));
        }
        if output[i] == 1 {
            r.push(input[i]);
        }
        i = i + 1;
    }
    assert(input@.take(input@.len() as int) == input@);
    r
}

/// Flags each candidate on the CPU: 1 for a prime, 0 otherwise, as the
/// accelerator's kernel does.
pub fn primality_flags(candidates: &Vec<u64>) -> (r: Vec<u8>)
    ensures
        r@.len() == candidates@.len(),
        forall|i: int|
            0 <= i < candidates@.len() ==> r@[i] == (if is_prime_spec(candidates@[i] as int) {
                1u8
            } else {
                0u8
            }),
{
    let mut r: Vec<u8> = Vec::new();
    let mut i: usize = 0;
    while i < candidates.len()
        invariant
            i <= candidates@.len(),
            r@.len() == i,
            forall|j: int|
                0 <= j < i ==> r@[j] == (if is_prime_spec(candidates@[j] as int) {
                    1u8
                } else {
                    0u8
                }),
        decreases candidates@.len() - i,
    {
        let flag: u8 = if is_prime(candidates[i]) {
            1
        } else {
            0
        };
        r.push(flag);
        i = i + 1;
    }
    r
}

/// Lists the values of `primes` that are not prime, as a check of the
/// accelerator's output on the CPU.
pub fn invalid_primes(primes: &Vec<u64>) -> (r: Vec<u64>)
    ensures
        r@ == not_prime(primes@),
{
    let mut r: Vec<u64> = Vec::new();
    let mut i: usize = 0;
    while i < primes.len()
        invariant
            i <= primes@.len(),
            r@ == not_prime(primes@.take(i as int)),
        decreases primes@.len() - i,
    {
        proof {
            assert(primes@.take(i + 1).drop_last() == primes@.take(i as int));
        }
        if !is_prime(primes[i]) {
            r.push(primes[i]);
        }
        i = i + 1;
    }
    assert(primes@.take(primes@.len() as int) == primes@);
    r
}

} // verus!
