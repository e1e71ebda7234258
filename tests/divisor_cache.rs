use ocl_primes::divisor_cache::{DivisorCache, DEFAULT_BYTE_BUDGET};

#[test]
fn merge_sorts_and_removes_repeats() {
    let mut c = DivisorCache::new(DEFAULT_BYTE_BUDGET);
    c.merge(&vec![7, 3, 5, 3]);
    assert_eq!(c.snapshot(), vec![3, 5, 7]);
    c.merge(&vec![11, 5, 2]);
    assert_eq!(c.snapshot(), vec![2, 3, 5, 7, 11]);
    assert_eq!(c.len(), 5);
}

#[test]
fn merging_twice_equals_merging_once() {
    let mut once = DivisorCache::new(64);
    once.merge(&vec![3, 5, 7]);
    let mut twice = DivisorCache::new(64);
    twice.merge(&vec![3, 5, 7]);
    twice.merge(&vec![3, 5, 7]);
    assert_eq!(once.snapshot(), twice.snapshot());
}

#[test]
fn merge_over_budget_is_skipped() {
    let mut c = DivisorCache::new(24);
    c.merge(&vec![3, 5]);
    assert_eq!(c.snapshot(), vec![3, 5]);
    c.merge(&vec![7, 11]);
    assert_eq!(c.snapshot(), vec![3, 5]);
    c.merge(&vec![5, 7]);
    assert_eq!(c.snapshot(), vec![3, 5], "a merge reaching the budget exactly is skipped");
    let mut d = DivisorCache::new(25);
    d.merge(&vec![3, 5, 7]);
    assert_eq!(d.snapshot(), vec![3, 5, 7]);
    assert!(c.len() * 8 < c.byte_budget() as usize);
}

#[test]
fn budget_holds_after_many_merges() {
    let mut c = DivisorCache::new(80);
    for k in 0..50u64 {
        c.merge(&vec![2 * k + 1, 4 * k + 3]);
        assert!(c.len() * 8 < 80);
    }
    assert_eq!(c.len(), 9);
}

#[test]
fn zero_budget_keeps_the_cache_empty() {
    let mut c = DivisorCache::new(0);
    c.merge(&vec![3]);
    assert_eq!(c.len(), 0);
}

#[test]
fn bootstrap_adds_primes_up_to_square_root() {
    let mut c = DivisorCache::new(DEFAULT_BYTE_BUDGET);
    c.bootstrap(100);
    assert_eq!(c.snapshot(), vec![3, 5, 7]);
    let mut d = DivisorCache::new(DEFAULT_BYTE_BUDGET);
    d.bootstrap(48);
    assert_eq!(d.snapshot(), vec![3, 5]);
    let mut e = DivisorCache::new(DEFAULT_BYTE_BUDGET);
    e.bootstrap(1_000_000);
    assert_eq!(e.len(), 167);
}
