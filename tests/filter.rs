use ocl_primes::filter::{invalid_primes, map_gpu_prime_result, primality_flags};

#[test]
fn keeps_flagged_candidates() {
    let r = map_gpu_prime_result(vec![1, 3, 5, 7, 9], vec![0, 1, 1, 1, 0]);
    assert_eq!(r, vec![3, 5, 7]);
}

#[test]
fn only_flag_one_counts() {
    let r = map_gpu_prime_result(vec![11, 13, 15], vec![2, 1, 255]);
    assert_eq!(r, vec![13]);
}

#[test]
fn extra_flags_are_ignored() {
    let r = map_gpu_prime_result(vec![11, 13], vec![1, 1, 1, 1]);
    assert_eq!(r, vec![11, 13]);
    assert_eq!(map_gpu_prime_result(vec![], vec![]), Vec::<u64>::new());
}

#[test]
fn cpu_check_lists_non_primes() {
    assert_eq!(invalid_primes(&vec![3, 9, 11, 25, 1]), vec![9, 25, 1]);
    assert_eq!(invalid_primes(&vec![2, 3, 5]), Vec::<u64>::new());
}

#[test]
fn cpu_flags_mark_primes() {
    assert_eq!(primality_flags(&vec![1, 2, 3, 9, 11, 25, 29]), vec![0, 1, 1, 0, 1, 0, 1]);
    assert_eq!(primality_flags(&vec![]), Vec::<u8>::new());
    let c = vec![91u64, 93, 95, 97, 99];
    assert_eq!(map_gpu_prime_result(c.clone(), primality_flags(&c)), vec![97]);
}
