use tig_benchmarker::job::{
    has_algorithm, has_challenge, standard_catalogue, Job, JobRunner, SetupError,
};
use tig_benchmarker::worker::StopReason;

fn job(challenge: &str, algorithm: &str, workers: u32) -> Job {
    Job {
        challenge_id: challenge.to_string(),
        algorithm_id: algorithm.to_string(),
        difficulty: vec![50, 300],
        seed: [1, 2, 3, 4, 5, 6, 7, 8],
        start: 1_000,
        end: 23_000,
        max_memory: 1_000_000_000,
        max_fuel: 10_000_000_000,
        solution_signature_threshold: 1_000_000,
        num_workers: workers,
    }
}

#[test]
fn standard_catalogue_lists_each_class() {
    let catalogue = standard_catalogue();
    assert_eq!(catalogue.len(), 12);
    assert_eq!(catalogue[0], ("c001".to_string(), "c001_a001".to_string()));
    assert_eq!(catalogue[6], ("c002".to_string(), "c002_a001".to_string()));
    assert_eq!(catalogue[11], ("c004".to_string(), "c004_a026".to_string()));
    for class in ["c001", "c002", "c003", "c004"] {
        assert!(has_challenge(&catalogue, &class.to_string()));
    }
    assert!(!has_challenge(&catalogue, &"c005".to_string()));
    assert!(has_algorithm(&catalogue, &"c003".to_string(), &"c003_a019".to_string()));
    assert!(!has_algorithm(&catalogue, &"c003".to_string(), &"c001_a001".to_string()));
}

#[test]
fn a_known_job_passes() {
    let catalogue = standard_catalogue();
    assert_eq!(job("c001", "c001_a023", 4).check(&catalogue), Ok(()));
    assert_eq!(job("c004", "c004_a014", 1).check(&catalogue), Ok(()));
}

#[test]
fn unknown_class_is_refused() {
    let catalogue = standard_catalogue();
    assert_eq!(job("c009", "c009_a001", 4).check(&catalogue), Err(SetupError::UnknownChallenge));
    assert_eq!(job("", "c001_a001", 0).check(&catalogue), Err(SetupError::UnknownChallenge));
    assert_eq!(job("c001", "c001_a001", 4).check(&Vec::new()), Err(SetupError::UnknownChallenge));
}

#[test]
fn unknown_algorithm_is_refused() {
    let catalogue = standard_catalogue();
    assert_eq!(job("c002", "c002_a036", 4).check(&catalogue), Err(SetupError::UnknownAlgorithm));
    assert_eq!(job("c002", "c001_a001", 0).check(&catalogue), Err(SetupError::UnknownAlgorithm));
}

#[test]
fn a_job_without_workers_is_refused() {
    let catalogue = standard_catalogue();
    assert_eq!(job("c001", "c001_a001", 0).check(&catalogue), Err(SetupError::NoWorkers));
}

#[test]
fn round_is_over_at_its_end() {
    let j = job("c001", "c001_a001", 2);
    assert!(!j.is_over(0));
    assert!(!j.is_over(22_999));
    assert!(j.is_over(23_000));
    assert!(j.is_over(u64::MAX));
}

#[test]
fn one_shard_for_each_worker() {
    let mut shards = job("c001", "c001_a001", 3).nonce_partitions(10);
    assert_eq!(shards.len(), 3);
    assert_eq!(shards[0].next(), Some(10));
    assert_eq!(shards[1].next(), Some(11));
    assert_eq!(shards[2].next(), Some(12));
    assert_eq!(shards[0].next(), Some(13));
    assert!(job("c001", "c001_a001", 0).nonce_partitions(10).is_empty());
}

#[test]
fn a_job_is_complete_when_all_workers_have_stopped() {
    let mut runner = JobRunner::new(3);
    assert!(!runner.is_complete());
    assert_eq!(runner.completion(), None);
    runner.worker_stopped(1, StopReason::Exhausted);
    runner.worker_stopped(0, StopReason::Exhausted);
    assert!(!runner.is_complete());
    assert_eq!(runner.completion(), None);
    runner.worker_stopped(2, StopReason::Exhausted);
    assert!(runner.is_complete());
    assert_eq!(runner.completion(), Some(StopReason::Exhausted));
}

#[test]
fn a_job_ends_at_the_deadline_if_a_worker_met_it() {
    let mut runner = JobRunner::new(2);
    runner.worker_stopped(0, StopReason::DeadlineReached);
    assert_eq!(runner.completion(), None);
    runner.worker_stopped(1, StopReason::Exhausted);
    assert!(runner.is_complete());
    assert_eq!(runner.completion(), Some(StopReason::DeadlineReached));
}

#[test]
fn a_worker_keeps_its_first_reason() {
    let mut runner = JobRunner::new(1);
    runner.worker_stopped(0, StopReason::Exhausted);
    runner.worker_stopped(0, StopReason::DeadlineReached);
    assert_eq!(runner.completion(), Some(StopReason::Exhausted));
}

#[test]
fn a_worker_that_the_job_does_not_have_is_ignored() {
    let mut runner = JobRunner::new(2);
    runner.worker_stopped(2, StopReason::Exhausted);
    runner.worker_stopped(usize::MAX, StopReason::Exhausted);
    assert!(!runner.is_complete());
    runner.worker_stopped(0, StopReason::Exhausted);
    runner.worker_stopped(1, StopReason::Exhausted);
    assert!(runner.is_complete());
}

#[test]
fn a_job_without_workers_is_complete() {
    let runner = JobRunner::new(0);
    assert!(runner.is_complete());
    assert_eq!(runner.completion(), Some(StopReason::Exhausted));
}
