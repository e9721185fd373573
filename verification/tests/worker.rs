use tig_benchmarker::accumulator::{SolutionAccumulator, SolutionRecord};
use tig_benchmarker::nonce::NonceIterator;
use tig_benchmarker::worker::{
    after_compute, after_precheck, read_native_code, record_outcome, Computed, Precheck,
    StopReason, TrialOutcome, Worker, WorkerStep, YIELD_INTERVAL_MS,
};

/// A solver that depends on the nonce alone.
fn trial(nonce: u64) -> TrialOutcome {
    match nonce % 5 {
        0 => TrialOutcome::GenerationFailed,
        1 => TrialOutcome::NoSolution,
        2 => TrialOutcome::VerificationFailed,
        _ => TrialOutcome::Solved {
            output: nonce.to_le_bytes().to_vec(),
            signature: ((nonce * 37) % 100) as u32,
        },
    }
}

fn contents(accumulator: &SolutionAccumulator, origin: u64, end: u64) -> Vec<SolutionRecord> {
    let mut records = Vec::new();
    for nonce in origin..end {
        if let Some(r) = accumulator.get(nonce) {
            records.push(r.clone());
        }
    }
    assert_eq!(records.len(), accumulator.len());
    records
}

/// Runs a job to the end of its nonces, one turn per worker in the order
/// that `pick` gives.
fn run_job(count: u32, pick: fn(usize, usize) -> usize) -> Vec<SolutionRecord> {
    let mut shards = NonceIterator::partitions(1000, Some(1400), count);
    let mut workers: Vec<Worker> = (0..count).map(|_| Worker::new(0)).collect();
    let mut stopped = vec![false; count as usize];
    let mut accumulator = SolutionAccumulator::new();
    let mut turn = 0usize;
    while stopped.iter().any(|s| !*s) {
        let w = pick(turn, count as usize);
        turn += 1;
        if stopped[w] {
            continue;
        }
        match workers[w].next_step(turn as u64, u64::MAX, &mut shards[w]) {
            WorkerStep::Stop(reason) => {
                assert_eq!(reason, StopReason::Exhausted);
                stopped[w] = true;
            }
            WorkerStep::Run { nonce, .. } => {
                record_outcome(&mut accumulator, 60, nonce, trial(nonce));
            }
        }
    }
    contents(&accumulator, 1000, 1400)
}

fn round_robin(turn: usize, count: usize) -> usize {
    turn % count
}

fn lopsided(turn: usize, count: usize) -> usize {
    (turn * turn + turn / 3) % count
}

fn backwards(turn: usize, count: usize) -> usize {
    count - 1 - turn % count
}

#[test]
fn deadline_is_looked_at_before_a_nonce_is_drawn() {
    let mut nonces = NonceIterator::from_u64(0);
    let mut worker = Worker::new(0);
    assert_eq!(
        worker.next_step(100, 100, &mut nonces),
        WorkerStep::Stop(StopReason::DeadlineReached)
    );
    assert_eq!(
        worker.next_step(101, 100, &mut nonces),
        WorkerStep::Stop(StopReason::DeadlineReached)
    );
    assert_eq!(nonces.next(), Some(0));
}

#[test]
fn stops_when_the_nonces_are_used_up() {
    let mut nonces = NonceIterator::bounded(4, 5);
    let mut worker = Worker::new(0);
    assert_eq!(
        worker.next_step(1, 100, &mut nonces),
        WorkerStep::Run { nonce: 4, yield_first: false }
    );
    assert_eq!(worker.next_step(2, 100, &mut nonces), WorkerStep::Stop(StopReason::Exhausted));
    assert_eq!(worker.next_step(3, 100, &mut nonces), WorkerStep::Stop(StopReason::Exhausted));
}

#[test]
fn yields_after_the_interval_and_not_before() {
    assert_eq!(YIELD_INTERVAL_MS, 25);
    let mut nonces = NonceIterator::from_u64(0);
    let mut worker = Worker::new(1000);
    assert_eq!(
        worker.next_step(1025, 9000, &mut nonces),
        WorkerStep::Run { nonce: 0, yield_first: false }
    );
    assert_eq!(
        worker.next_step(1026, 9000, &mut nonces),
        WorkerStep::Run { nonce: 1, yield_first: true }
    );
    assert_eq!(
        worker.next_step(1051, 9000, &mut nonces),
        WorkerStep::Run { nonce: 2, yield_first: false }
    );
    assert_eq!(
        worker.next_step(1052, 9000, &mut nonces),
        WorkerStep::Run { nonce: 3, yield_first: true }
    );
}

#[test]
fn a_clock_that_runs_backwards_asks_for_a_yield() {
    let mut nonces = NonceIterator::from_u64(0);
    let mut worker = Worker::new(1000);
    assert_eq!(
        worker.next_step(10, 9000, &mut nonces),
        WorkerStep::Run { nonce: 0, yield_first: true }
    );
    assert_eq!(
        worker.next_step(35, 9000, &mut nonces),
        WorkerStep::Run { nonce: 1, yield_first: false }
    );
    assert_eq!(
        worker.next_step(36, 9000, &mut nonces),
        WorkerStep::Run { nonce: 2, yield_first: true }
    );
}

#[test]
fn only_verified_solutions_under_the_threshold_are_filed() {
    let mut accumulator = SolutionAccumulator::new();
    assert!(!record_outcome(&mut accumulator, 50, 1, TrialOutcome::GenerationFailed));
    assert!(!record_outcome(&mut accumulator, 50, 2, TrialOutcome::SolverFailed));
    assert!(!record_outcome(&mut accumulator, 50, 3, TrialOutcome::NoSolution));
    assert!(!record_outcome(&mut accumulator, 50, 4, TrialOutcome::VerificationFailed));
    assert!(!record_outcome(
        &mut accumulator,
        50,
        5,
        TrialOutcome::Solved { output: vec![5], signature: 51 }
    ));
    assert!(accumulator.is_empty());
    assert!(record_outcome(
        &mut accumulator,
        50,
        6,
        TrialOutcome::Solved { output: vec![6], signature: 50 }
    ));
    assert!(record_outcome(
        &mut accumulator,
        50,
        7,
        TrialOutcome::Solved { output: vec![7], signature: 0 }
    ));
    assert_eq!(accumulator.len(), 2);
    assert_eq!(
        accumulator.get(6),
        Some(&SolutionRecord { nonce: 6, output: vec![6], signature: 50 })
    );
}

#[test]
fn a_second_solution_for_a_nonce_is_dropped() {
    let mut accumulator = SolutionAccumulator::new();
    assert!(record_outcome(
        &mut accumulator,
        50,
        6,
        TrialOutcome::Solved { output: vec![6], signature: 50 }
    ));
    assert!(!record_outcome(
        &mut accumulator,
        50,
        6,
        TrialOutcome::Solved { output: vec![9], signature: 1 }
    ));
    assert_eq!(
        accumulator.get(6),
        Some(&SolutionRecord { nonce: 6, output: vec![6], signature: 50 })
    );
}

#[test]
fn one_worker_and_many_leave_the_same_records() {
    let single = run_job(1, round_robin);
    assert!(!single.is_empty());
    let expected: Vec<u64> = (1000..1400u64)
        .filter(|n| n % 5 >= 3 && (n * 37) % 100 <= 60)
        .collect();
    assert_eq!(single.iter().map(|r| r.nonce).collect::<Vec<u64>>(), expected);
    for count in 2..8u32 {
        assert_eq!(run_job(count, round_robin), single);
        assert_eq!(run_job(count, lopsided), single);
        assert_eq!(run_job(count, backwards), single);
    }
}

#[test]
fn a_round_ends_at_its_deadline() {
    let mut nonces = NonceIterator::from_u64(0);
    let mut accumulator = SolutionAccumulator::new();
    let mut now = 0u64;
    let round_end = 100u64;
    let mut worker = Worker::new(now);
    let mut yields = 0u32;
    let mut last_start = 0u64;
    loop {
        match worker.next_step(now, round_end, &mut nonces) {
            WorkerStep::Stop(reason) => {
                assert_eq!(reason, StopReason::DeadlineReached);
                break;
            }
            WorkerStep::Run { nonce, yield_first } => {
                if yield_first {
                    yields += 1;
                }
                last_start = now;
                now += 7;
                assert!(record_outcome(
                    &mut accumulator,
                    u32::MAX,
                    nonce,
                    TrialOutcome::Solved { output: vec![1], signature: 3 }
                ));
            }
        }
    }
    assert!(last_start < round_end);
    assert!(now >= round_end);
    assert_eq!(accumulator.len(), 15);
    for nonce in 0..15u64 {
        assert!(accumulator.contains(nonce));
    }
    assert!(!accumulator.contains(15));
    assert_eq!(nonces.next(), Some(15));
    assert_eq!(yields, 3);
}

#[test]
fn native_codes() {
    assert_eq!(read_native_code(0), Precheck::Passed);
    assert_eq!(read_native_code(1), Precheck::NoSolution);
    assert_eq!(read_native_code(2), Precheck::SolverFailed);
    assert_eq!(read_native_code(3), Precheck::Rejected);
    assert_eq!(read_native_code(4), Precheck::SolverFailed);
    assert_eq!(read_native_code(u32::MAX), Precheck::SolverFailed);
}

#[test]
fn a_failed_direct_attempt_ends_the_trial() {
    assert_eq!(after_precheck(Precheck::Unavailable), None);
    assert_eq!(after_precheck(Precheck::Passed), None);
    assert_eq!(after_precheck(Precheck::GenerationFailed), Some(TrialOutcome::GenerationFailed));
    assert_eq!(after_precheck(Precheck::SolverFailed), Some(TrialOutcome::SolverFailed));
    assert_eq!(after_precheck(Precheck::NoSolution), Some(TrialOutcome::NoSolution));
    assert_eq!(after_precheck(Precheck::Rejected), Some(TrialOutcome::VerificationFailed));
}

#[test]
fn outcome_of_the_bounded_run() {
    assert_eq!(after_compute(Computed::Failed), TrialOutcome::SolverFailed);
    assert_eq!(after_compute(Computed::NoSolution), TrialOutcome::NoSolution);
    assert_eq!(
        after_compute(Computed::Candidate { output: vec![1, 2], signature: 9, verified: false }),
        TrialOutcome::VerificationFailed
    );
    assert_eq!(
        after_compute(Computed::Candidate { output: vec![1, 2], signature: 9, verified: true }),
        TrialOutcome::Solved { output: vec![1, 2], signature: 9 }
    );
}

#[test]
fn a_trial_from_attempt_to_record() {
    let mut accumulator = SolutionAccumulator::new();
    let threshold = 100;
    let runs = vec![
        (0u64, 0u32, Computed::Candidate { output: vec![0], signature: 100, verified: true }),
        (1, 1, Computed::Candidate { output: vec![1], signature: 1, verified: true }),
        (2, 0, Computed::Candidate { output: vec![2], signature: 101, verified: true }),
        (3, 0, Computed::Candidate { output: vec![3], signature: 3, verified: false }),
        (4, 0, Computed::NoSolution),
        (5, 0, Computed::Failed),
        (6, 0, Computed::Candidate { output: vec![6], signature: 0, verified: true }),
    ];
    for (nonce, code, computed) in runs {
        let outcome = match after_precheck(read_native_code(code)) {
            Some(outcome) => outcome,
            None => after_compute(computed),
        };
        record_outcome(&mut accumulator, threshold, nonce, outcome);
    }
    assert_eq!(accumulator.len(), 2);
    assert_eq!(
        accumulator.get(0),
        Some(&SolutionRecord { nonce: 0, output: vec![0], signature: 100 })
    );
    assert_eq!(accumulator.get(6), Some(&SolutionRecord { nonce: 6, output: vec![6], signature: 0 }));
}
