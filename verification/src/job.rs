//! A job: the settings of one round for one problem class, checked once when
//! the round is set up, and the runner that knows when the job is complete.

use crate::nonce::{partition_nonces, NonceIterator};
use crate::worker::StopReason;
use vstd::prelude::*;

verus! {

/// Why a job cannot be set up.
#[derive(Clone, Copy, Debug, PartialEq, Eq, Structural)]
pub enum SetupError {
    /// The catalogue has no such problem class.
    UnknownChallenge,
    /// The catalogue has the class, but not this algorithm for it.
    UnknownAlgorithm,
    /// The job asks for no worker at all.
    NoWorkers,
}

/// The settings of one round. They are fixed when the round starts and
/// copied to each worker.
#[derive(Clone, Debug, PartialEq, Eq)]
pub struct Job {
    pub challenge_id: String,
    pub algorithm_id: String,
    /// Parameters of the problem class, passed on to the instance generator.
    pub difficulty: Vec<i32>,
    pub seed: [u64; 8],
    /// Start of the round, in milliseconds.
    pub start: u64,
    /// End of the round, in milliseconds.
    pub end: u64,
    pub max_memory: u64,
    pub max_fuel: u64,
    /// A solution is kept if its signature is at most this.
    pub solution_signature_threshold: u32,
    pub num_workers: u32,
}

/// Whether `catalogue` lists an algorithm of the class `challenge`.
pub open spec fn knows_challenge(catalogue: Seq<(String, String)>, challenge: Seq<char>) -> bool {
    exists|k: int| 0 <= k < catalogue.len() && (#[trigger] catalogue[k]).0@ == challenge
}

/// Whether `catalogue` lists `algorithm` for the class `challenge`.
pub open spec fn knows_algorithm(
    catalogue: Seq<(String, String)>,
    challenge: Seq<char>,
    algorithm: Seq<char>,
) -> bool {
    exists|k: int|
        0 <= k < catalogue.len() && (#[trigger] catalogue[k]).0@ == challenge && catalogue[k].1@
            == algorithm
}

/// What setting up a job with these settings answers.
pub open spec fn setup_of(
    catalogue: Seq<(String, String)>,
    challenge: Seq<char>,
    algorithm: Seq<char>,
    num_workers: u32,
) -> Result<(), SetupError> {
    if !knows_challenge(catalogue, challenge) {
        Err(SetupError::UnknownChallenge)
    } else if !knows_algorithm(catalogue, challenge, algorithm) {
        Err(SetupError::UnknownAlgorithm)
    } else if num_workers == 0 {
        Err(SetupError::NoWorkers)
    } else {
        Ok(())
    }
}

/// The classes and algorithms of the standard catalogue, as contracts see
/// them.
pub open spec fn standard_algorithms() -> Seq<(Seq<char>, Seq<char>)> {
    seq![
        ("c001"@, "c001_a001"@),
        ("c001"@, "c001_a005"@),
        ("c001"@, "c001_a011"@),
        ("c001"@, "c001_a012"@),
        ("c001"@, "c001_a018"@),
        ("c001"@, "c001_a023"@),
        ("c002"@, "c002_a001"@),
        ("c003"@, "c003_a001"@),
        ("c003"@, "c003_a007"@),
        ("c003"@, "c003_a019"@),
        ("c004"@, "c004_a014"@),
        ("c004"@, "c004_a026"@),
    ]
}

/// One entry of a catalogue.
fn catalogue_entry(challenge: &str, algorithm: &str) -> (entry: (String, String))
    ensures
        entry.0@ == challenge@,
        entry.1@ == algorithm@,
{
    (challenge.to_owned(), algorithm.to_owned())
}

/// The standard catalogue: each problem class with the algorithms that can
/// run for it.
pub fn standard_catalogue() -> (catalogue: Vec<(String, String)>)
    ensures
        catalogue@.len() == standard_algorithms().len(),
        forall|k: int|
            0 <= k < catalogue@.len() ==> (#[trigger] catalogue@[k]).0@ == standard_algorithms()[k].0
                && catalogue@[k].1@ == standard_algorithms()[k].1,
{
    let mut catalogue: Vec<(String, String)> = Vec::new();
    catalogue.push(catalogue_entry("c001", "c001_a001"));
    catalogue.push(catalogue_entry("c001", "c001_a005"));
    catalogue.push(catalogue_entry("c001", "c001_a011"));
    catalogue.push(catalogue_entry("c001", "c001_a012"));
    catalogue.push(catalogue_entry("c001", "c001_a018"));
    catalogue.push(catalogue_entry("c001", "c001_a023"));
    catalogue.push(catalogue_entry("c002", "c002_a001"));
    catalogue.push(catalogue_entry("c003", "c003_a001"));
    catalogue.push(catalogue_entry("c003", "c003_a007"));
    catalogue.push(catalogue_entry("c003", "c003_a019"));
    catalogue.push(catalogue_entry("c004", "c004_a014"));
    catalogue.push(catalogue_entry("c004", "c004_a026"));
    catalogue
}

/// Whether `catalogue` lists an algorithm of the class `challenge_id`.
pub fn has_challenge(catalogue: &Vec<(String, String)>, challenge_id: &String) -> (known: bool)
    ensures
        known == knows_challenge(catalogue@, challenge_id@),
{
    let mut k: usize = 0;
    while k < catalogue.len()
        invariant
            k <= catalogue.len(),
            forall|j: int| 0 <= j < k ==> (#[trigger] catalogue@[j]).0@ != challenge_id@,
        decreases catalogue.len() - k,
    {
        if catalogue[k].0 == *challenge_id {
            return true;
        }
        k = k + 1;
    }
    false
}

/// Whether `catalogue` lists `algorithm_id` for the class `challenge_id`.
pub fn has_algorithm(
    catalogue: &Vec<(String, String)>,
    challenge_id: &String,
    algorithm_id: &String,
) -> (known: bool)
    ensures
        known == knows_algorithm(catalogue@, challenge_id@, algorithm_id@),
{
    let mut k: usize = 0;
    while k < catalogue.len()
        invariant
            k <= catalogue.len(),
            forall|j: int|
                0 <= j < k ==> !((#[trigger] catalogue@[j]).0@ == challenge_id@ && catalogue@[j].1@
                    == algorithm_id@),
        decreases catalogue.len() - k,
    {
        if catalogue[k].0 == *challenge_id && catalogue[k].1 == *algorithm_id {
            return true;
        }
        k = k + 1;
    }
    false
}

impl Job {
    /// Checks the settings against `catalogue` before the round starts. A
    /// job that passes has a known class, a known algorithm of that class,
    /// and at least one worker.
    pub fn check(&self, catalogue: &Vec<(String, String)>) -> (answer: Result<(), SetupError>)
        ensures
            answer == setup_of(catalogue@, self.challenge_id@, self.algorithm_id@, self.num_workers),
    {
        if !has_challenge(catalogue, &self.challenge_id) {
            Err(SetupError::UnknownChallenge)
        } else if !has_algorithm(catalogue, &self.challenge_id, &self.algorithm_id) {
            Err(SetupError::UnknownAlgorithm)
        } else if self.num_workers == 0 {
            Err(SetupError::NoWorkers)
        } else {
            Ok(())
        }
    }

    /// Whether the round is over at `now`.
    pub fn is_over(&self, now: u64) -> (over: bool)
        ensures
            over == (now >= self.end),
    {
        now >= self.end
    }

    /// One shard of nonces for each worker, dealt out from `origin` in turn.
    pub fn nonce_partitions(&self, origin: u64) -> (shards: Vec<NonceIterator>)
        ensures
            shards@.len() == self.num_workers,
            forall|i: int|
                0 <= i < self.num_workers ==> (#[trigger] shards@[i]).wf() && shards@[i]@
                    == partition_nonces(origin, None, self.num_workers as int, i),
    {
        NonceIterator::partitions(origin, None, self.num_workers)
    }
}

/// Whether every worker has stopped.
pub open spec fn all_stopped(stops: Seq<Option<StopReason>>) -> bool {
    forall|i: int| 0 <= i < stops.len() ==> (#[trigger] stops[i]).is_some()
}

/// Whether some worker stopped because the round was over.
pub open spec fn some_deadline(stops: Seq<Option<StopReason>>) -> bool {
    exists|i: int| 0 <= i < stops.len() && #[trigger] stops[i] == Some(StopReason::DeadlineReached)
}

/// How a job ended, once all its workers have stopped: at the deadline if a
/// worker met it, and with its nonces used up if none did.
pub open spec fn completion_of(stops: Seq<Option<StopReason>>) -> Option<StopReason> {
    if !all_stopped(stops) {
        None
    } else if some_deadline(stops) {
        Some(StopReason::DeadlineReached)
    } else {
        Some(StopReason::Exhausted)
    }
}

/// Keeps track of the workers of a job: which of them have stopped, and why.
pub struct JobRunner {
    stops: Vec<Option<StopReason>>,
}

impl View for JobRunner {
    type V = Seq<Option<StopReason>>;

    /// For each worker, why it stopped, if it has.
    closed spec fn view(&self) -> Seq<Option<StopReason>> {
        self.stops@
    }
}

impl JobRunner {
    /// A runner of `num_workers` workers, none of which has stopped.
    pub fn new(num_workers: u32) -> (runner: JobRunner)
        ensures
            runner@ == Seq::new(num_workers as nat, |i: int| None::<StopReason>),
    {
        let mut stops: Vec<Option<StopReason>> = Vec::new();
        let mut i: u32 = 0;
        while i < num_workers
            invariant
                i <= num_workers,
                stops@.len() == i,
                forall|j: int| 0 <= j < i ==> (#[trigger] stops@[j]).is_none(),
            decreases num_workers - i,
        {
            stops.push(None);
            i = i + 1;
        }
        assert(stops@ =~= Seq::new(num_workers as nat, |i: int| None::<StopReason>));
        JobRunner { stops }
    }

    /// Notes that `worker` stopped for `reason`. A worker that has stopped
    /// keeps its first reason; a worker that the job does not have is
    /// ignored.
    pub fn worker_stopped(&mut self, worker: usize, reason: StopReason)
        ensures
            final(self)@ == if worker < old(self)@.len() && old(self)@[worker as int].is_none() {
                old(self)@.update(worker as int, Some(reason))
            } else {
                old(self)@
            },
    {
        if worker < self.stops.len() {
            if self.stops[worker].is_none() {
                self.stops.set(worker, Some(reason));
            }
        }
    }

    /// Whether the job is complete: every worker has stopped.
    pub fn is_complete(&self) -> (complete: bool)
        ensures
            complete == all_stopped(self@),
    {
        let mut i: usize = 0;
        while i < self.stops.len()
            invariant
                i <= self.stops.len(),
                forall|j: int| 0 <= j < i ==> (#[trigger] self.stops@[j]).is_some(),
            decreases self.stops.len() - i,
        {
            if self.stops[i].is_none() {
                return false;
            }
            i = i + 1;
        }
        true
    }

    /// How the job ended, if it is complete.
    pub fn completion(&self) -> (ending: Option<StopReason>)
        ensures
            ending == completion_of(self@),
    {
        let mut deadline = false;
        let mut i: usize = 0;
        while i < self.stops.len()
            invariant
                i <= self.stops.len(),
                forall|j: int| 0 <= j < i ==> (#[trigger] self.stops@[j]).is_some(),
                deadline == (exists|j: int|
                    0 <= j < i && #[trigger] self.stops@[j] == Some(StopReason::DeadlineReached)),
            decreases self.stops.len() - i,
        {
            match self.stops[i] {
                None => {
                    return None;
                },
                Some(StopReason::DeadlineReached) => {
                    deadline = true;
                },
                Some(StopReason::Exhausted) => {},
            }
            i = i + 1;
        }
        if deadline {
            Some(StopReason::DeadlineReached)
        } else {
            Some(StopReason::Exhausted)
        }
    }
}

} // verus!
