use ocl_primes::divisor_cache::{DivisorCache, DEFAULT_BYTE_BUDGET};
use ocl_primes::executor::{
    decide_claim, finish_unit, merge_unit_result, publish_unit, state_after_push, Claim,
    DeviceOutput, WorkQueue, WorkerState,
};
use ocl_primes::partition::{Partition, WorkUnit};
use ocl_primes::primality::is_prime;
use ocl_primes::stream::{result_channel, ChannelClosed, DeviceError, StreamError};
use std::collections::BTreeSet;
use std::time::Duration;

fn all_prime(unit: &WorkUnit) -> Result<DeviceOutput, DeviceError> {
    Ok(DeviceOutput { flags: vec![1; unit.candidates.len()], duration: Duration::from_nanos(5) })
}

fn cpu_device(unit: &WorkUnit) -> Result<DeviceOutput, DeviceError> {
    let flags = unit.candidates.iter().map(|n| is_prime(*n) as u8).collect();
    Ok(DeviceOutput { flags, duration: Duration::from_nanos(7) })
}

/// Runs `workers` simulated workers in turn over the queue, each taking one unit
/// per round, and returns every value the stream delivered.
fn run(start: u64, stop: u64, size: u64, workers: usize) -> Vec<u64> {
    let queue = WorkQueue::new(Partition::new(start, stop, size).unwrap());
    let (sink, mut stream) = result_channel(1024);
    let mut active = vec![true; workers];
    while active.iter().any(|a| *a) {
        let mut pending = Vec::new();
        for w in 0..workers {
            if !active[w] {
                continue;
            }
            match queue.claim() {
                Claim::Work(u) => pending.push(u),
                _ => active[w] = false,
            }
        }
        for u in pending.into_iter().rev() {
            let out = cpu_device(&u);
            let finished = finish_unit(u, out);
            assert!(matches!(publish_unit(&queue, &sink, finished), WorkerState::Running));
        }
    }
    drop(sink);
    let mut values = Vec::new();
    while let Ok(r) = stream.next() {
        values.extend(r.value().iter().copied());
    }
    values
}

#[test]
fn all_flagged_range_yields_every_odd_number() {
    let queue = WorkQueue::new(Partition::new(1, 100, 10).unwrap());
    let mut values = Vec::new();
    loop {
        match queue.claim() {
            Claim::Work(u) => {
                let out = all_prime(&u);
                let r = finish_unit(u, out).unwrap();
                assert_eq!(*r.duration(), Duration::from_nanos(5));
                values.extend(r.value().iter().copied());
            }
            Claim::Drain => break,
            Claim::Abort => panic!("no worker failed"),
        }
    }
    assert_eq!(values.len(), 50);
    let unique: BTreeSet<u64> = values.iter().copied().collect();
    assert_eq!(unique.len(), 50);
    assert_eq!(unique, (1..100).filter(|n| n % 2 == 1).collect());
}

#[test]
fn one_and_three_workers_find_the_same_primes() {
    let one: BTreeSet<u64> = run(1, 500, 16, 1).into_iter().collect();
    let three: BTreeSet<u64> = run(1, 500, 16, 3).into_iter().collect();
    assert_eq!(one, three);
    // The last unit runs on to 511, past the end of the range: 503 and 509 come too.
    assert_eq!(one.len(), 96);
    assert_eq!(one.iter().filter(|n| **n < 500).count(), 94);
    assert!(one.iter().all(|n| is_prime(*n)));
}

#[test]
fn device_error_on_third_unit_stops_after_two_results() {
    let queue = WorkQueue::new(Partition::new(1, 1000, 10).unwrap());
    let (sink, mut stream) = result_channel(64);
    let mut run_units = 0;
    loop {
        match queue.claim() {
            Claim::Work(u) => {
                run_units += 1;
                let out = if run_units == 3 {
                    Err(DeviceError { message: "kernel build failed".to_string() })
                } else {
                    all_prime(&u)
                };
                match finish_unit(u, out) {
                    Ok(r) => sink.push(r).unwrap(),
                    Err(e) => {
                        queue.signal_failure();
                        sink.push_error(e).unwrap();
                    }
                }
            }
            Claim::Drain => panic!("the range is longer than three units"),
            Claim::Abort => break,
        }
    }
    assert_eq!(run_units, 3);
    assert!(queue.has_failed());
    drop(sink);
    assert!(stream.next().is_ok());
    assert!(stream.next().is_ok());
    assert!(matches!(stream.next(), Err(StreamError::Device(_))));
    assert!(matches!(stream.next(), Err(StreamError::EndOfStream)));
}

#[test]
fn claim_decisions() {
    let p = Partition::new(1, 40, 5).unwrap();
    assert!(matches!(decide_claim(&p, true, 0), Claim::Abort));
    assert!(matches!(decide_claim(&p, false, 4), Claim::Drain));
    match decide_claim(&p, false, 3) {
        Claim::Work(u) => {
            assert_eq!(u.offset, 31);
            assert_eq!(u.candidates, vec![31, 33, 35, 37, 39]);
        }
        _ => panic!("unit 3 exists"),
    }
}

#[test]
fn short_device_output_is_an_error() {
    let p = Partition::new(1, 40, 5).unwrap();
    let u = p.unit(0).unwrap();
    let out = DeviceOutput { flags: vec![1, 1], duration: Duration::from_nanos(1) };
    assert!(finish_unit(u, Ok(out)).is_err());
}

#[test]
fn finished_unit_keeps_flagged_values_and_feeds_the_cache() {
    let p = Partition::new(1, 40, 5).unwrap();
    let u = p.unit(1).unwrap();
    let out = cpu_device(&u);
    let r = finish_unit(u, out).unwrap();
    assert_eq!(*r.value(), vec![11, 13, 17, 19]);
    let mut cache = DivisorCache::new(DEFAULT_BYTE_BUDGET);
    cache.merge(r.value());
    assert_eq!(cache.snapshot(), vec![11, 13, 17, 19]);
}

#[test]
fn publish_passes_results_and_errors_on() {
    let p = Partition::new(1, 100, 10).unwrap();
    let queue = WorkQueue::new(Partition::new(1, 100, 10).unwrap());
    let (sink, mut stream) = result_channel(8);
    let ok = finish_unit(p.unit(0).unwrap(), cpu_device(&p.unit(0).unwrap()));
    assert!(matches!(publish_unit(&queue, &sink, ok), WorkerState::Running));
    assert!(!queue.has_failed());
    let err = finish_unit(
        p.unit(1).unwrap(),
        Err(DeviceError { message: "read failed".to_string() }),
    );
    assert!(matches!(publish_unit(&queue, &sink, err), WorkerState::Failed));
    assert!(queue.has_failed());
    assert!(matches!(queue.claim(), Claim::Abort));
    drop(sink);
    assert_eq!(*stream.next().ok().unwrap().value(), vec![3, 5, 7, 11, 13, 17, 19]);
    assert!(matches!(stream.next(), Err(StreamError::Device(_))));
    assert!(matches!(stream.next(), Err(StreamError::EndOfStream)));
}

#[test]
fn publish_stops_when_nobody_reads() {
    let p = Partition::new(1, 100, 10).unwrap();
    let queue = WorkQueue::new(Partition::new(1, 100, 10).unwrap());
    let (sink, stream) = result_channel(8);
    drop(stream);
    let ok = finish_unit(p.unit(0).unwrap(), all_prime(&p.unit(0).unwrap()));
    assert!(matches!(publish_unit(&queue, &sink, ok), WorkerState::Draining));
    assert!(queue.has_failed());
}

#[test]
fn state_after_push_decisions() {
    assert!(matches!(state_after_push(Ok(())), WorkerState::Running));
    assert!(matches!(state_after_push(Err(ChannelClosed)), WorkerState::Draining));
}

#[test]
fn failed_units_leave_the_cache_alone() {
    let p = Partition::new(1, 100, 10).unwrap();
    let mut cache = DivisorCache::new(DEFAULT_BYTE_BUDGET);
    cache.merge(&vec![3]);
    let err = finish_unit(p.unit(0).unwrap(), Err(DeviceError { message: "x".to_string() }));
    merge_unit_result(&mut cache, &err);
    assert_eq!(cache.snapshot(), vec![3]);
    let ok = finish_unit(p.unit(1).unwrap(), cpu_device(&p.unit(1).unwrap()));
    merge_unit_result(&mut cache, &ok);
    assert_eq!(cache.snapshot(), vec![3, 23, 29, 31, 37]);
}
