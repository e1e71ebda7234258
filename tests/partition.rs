use ocl_primes::partition::{unit_candidates, Partition};
use std::collections::BTreeSet;

fn all_candidates(p: &Partition) -> Vec<u64> {
    let mut out = Vec::new();
    let mut k = 0u64;
    while let Some(u) = p.unit(k) {
        out.extend(u.candidates);
        k += 1;
    }
    out
}

#[test]
fn unit_candidates_are_two_apart() {
    assert_eq!(unit_candidates(7, 4), vec![7, 9, 11, 13]);
    assert_eq!(unit_candidates(7, 0), Vec::<u64>::new());
}

#[test]
fn units_cover_each_odd_number_once() {
    for (start, stop, size) in [(1u64, 100u64, 10u64), (0, 37, 4), (10, 11, 3), (5, 6, 1), (2, 1000, 7)] {
        let p = Partition::new(start, stop, size).unwrap();
        let got = all_candidates(&p);
        let unique: BTreeSet<u64> = got.iter().copied().collect();
        assert_eq!(unique.len(), got.len(), "no duplicates");
        for n in start..stop {
            assert_eq!(unique.contains(&n), n % 2 == 1, "n = {}", n);
        }
        assert!(got.iter().all(|n| n % 2 == 1));
    }
}

#[test]
fn even_start_moves_to_next_odd() {
    let p = Partition::new(10, 20, 2).unwrap();
    let first = p.unit(0).unwrap();
    assert_eq!(first.offset, 11);
    assert_eq!(first.candidates, vec![11, 13]);
    assert_eq!(p.unit_count(), 3);
    assert_eq!(p.unit(2).unwrap().candidates, vec![19, 21]);
    assert!(p.unit(3).is_none());
}

#[test]
fn empty_range_has_no_units() {
    let p = Partition::new(50, 50, 4).unwrap();
    assert_eq!(p.unit_count(), 0);
    assert!(p.unit(0).is_none());
    let q = Partition::new(60, 50, 4).unwrap();
    assert_eq!(q.unit_count(), 0);
}

#[test]
fn unusable_partitions_are_refused() {
    assert!(Partition::new(1, 100, 0).is_none());
    assert!(Partition::new(1, u64::MAX, 1).is_none());
    assert!(Partition::new(1, u64::MAX - 1, 1).is_some());
    assert!(Partition::new(1, u64::MAX - 9, 5).is_some());
    assert!(Partition::new(1, u64::MAX - 9, 6).is_none());
}

#[test]
fn last_unit_may_run_past_stop() {
    let p = Partition::new(1, 10, 4).unwrap();
    assert_eq!(p.unit_count(), 2);
    assert_eq!(p.unit(1).unwrap().candidates, vec![9, 11, 13, 15]);
}
