//! Worker loop: what one worker decides between two trials, and what a round
//! of trials leaves in the accumulator.
//!
//! A worker looks at the clock, draws a nonce and has a trial run for it; the
//! caller runs the trial and reports how it ended. Nothing here waits or
//! runs a solver, so the caller is free to interleave workers as it likes.

use crate::accumulator::{record_into, SolutionAccumulator, SolutionRecord};
use crate::nonce::NonceIterator;
use vstd::prelude::*;

verus! {

/// A worker lets its siblings run once more than this many milliseconds have
/// passed since it last did.
pub const YIELD_INTERVAL_MS: u64 = 25;

/// How one trial ended.
#[derive(Clone, Debug, PartialEq, Eq)]
pub enum TrialOutcome {
    /// No instance could be built for the nonce.
    GenerationFailed,
    /// The solver failed, or ran out of fuel or memory.
    SolverFailed,
    /// The solver ended without a candidate.
    NoSolution,
    /// The candidate did not pass verification.
    VerificationFailed,
    /// A verified solution, with its signature.
    Solved { output: Vec<u8>, signature: u32 },
}

/// How the direct attempt at a trial ended, which a worker makes before it
/// spends fuel on the nonce.
#[derive(Clone, Copy, Debug, PartialEq, Eq, Structural)]
pub enum Precheck {
    /// No direct solver is at hand for the algorithm.
    Unavailable,
    /// No instance could be built for the nonce.
    GenerationFailed,
    /// The solver failed.
    SolverFailed,
    /// The solver ended without a candidate.
    NoSolution,
    /// The candidate did not pass verification.
    Rejected,
    /// The candidate passed verification.
    Passed,
}

/// What the bounded run of a trial handed back.
#[derive(Clone, Debug, PartialEq, Eq)]
pub enum Computed {
    /// The run failed, or ran out of fuel or memory.
    Failed,
    /// The run ended without a candidate.
    NoSolution,
    /// A candidate with its signature, and whether it passed verification.
    Candidate { output: Vec<u8>, signature: u32, verified: bool },
}

/// Why a worker stopped.
#[derive(Clone, Copy, Debug, PartialEq, Eq, Structural)]
pub enum StopReason {
    /// The round was over when the worker looked at the clock.
    DeadlineReached,
    /// The worker's nonces are used up.
    Exhausted,
}

/// What a worker does next.
#[derive(Clone, Copy, Debug, PartialEq, Eq, Structural)]
pub enum WorkerStep {
    /// Leave the loop.
    Stop(StopReason),
    /// Run the trial of `nonce`, after letting the siblings run if
    /// `yield_first` is set.
    Run { nonce: u64, yield_first: bool },
}

/// The record that the trial of `nonce` leaves when it ended with `outcome`:
/// that of a verified solution whose signature is at most `threshold`, and
/// none otherwise.
pub open spec fn accepted_record(nonce: u64, outcome: TrialOutcome, threshold: u32) -> Option<
    SolutionRecord,
> {
    match outcome {
        TrialOutcome::Solved { output, signature } => if signature <= threshold {
            Some(SolutionRecord { nonce, output, signature })
        } else {
            None
        },
        _ => None,
    }
}

/// The records `held` after the trial of `nonce` ended with `outcome`.
pub open spec fn settle(
    held: Map<u64, SolutionRecord>,
    nonce: u64,
    outcome: TrialOutcome,
    threshold: u32,
) -> Map<u64, SolutionRecord> {
    match accepted_record(nonce, outcome, threshold) {
        Some(record) => record_into(held, record),
        None => held,
    }
}

/// The outcome that a direct attempt settles, if it settles one: the trial
/// goes on only where no direct solver is at hand or the attempt passed.
pub open spec fn settled_by(precheck: Precheck) -> Option<TrialOutcome> {
    match precheck {
        Precheck::Unavailable => None,
        Precheck::Passed => None,
        Precheck::GenerationFailed => Some(TrialOutcome::GenerationFailed),
        Precheck::SolverFailed => Some(TrialOutcome::SolverFailed),
        Precheck::NoSolution => Some(TrialOutcome::NoSolution),
        Precheck::Rejected => Some(TrialOutcome::VerificationFailed),
    }
}

/// How a native solver's return code reads: 0 is a valid solution, 1 no
/// solution, 3 a rejected one, and anything else a failure of the solver.
pub open spec fn precheck_of(code: u32) -> Precheck {
    if code == 0 {
        Precheck::Passed
    } else if code == 1 {
        Precheck::NoSolution
    } else if code == 3 {
        Precheck::Rejected
    } else {
        Precheck::SolverFailed
    }
}

/// The outcome of a trial whose bounded run handed back `computed`.
pub open spec fn outcome_of(computed: Computed) -> TrialOutcome {
    match computed {
        Computed::Failed => TrialOutcome::SolverFailed,
        Computed::NoSolution => TrialOutcome::NoSolution,
        Computed::Candidate { output, signature, verified } => if verified {
            TrialOutcome::Solved { output, signature }
        } else {
            TrialOutcome::VerificationFailed
        },
    }
}

/// Whether a worker that last yielded at `last_yield` is due to yield at
/// `now`: once more than the interval has passed, and also where the clock
/// has gone backwards.
pub open spec fn yield_due(last_yield: u64, now: u64) -> bool {
    now < last_yield || now - last_yield > YIELD_INTERVAL_MS
}

/// The step of a worker that last yielded at `last_yield`, looks at the clock
/// at `now` in a round that ends at `round_end`, and has `pending` left to
/// draw from.
pub open spec fn step_of(last_yield: u64, now: u64, round_end: u64, pending: Seq<u64>) -> WorkerStep {
    if now >= round_end {
        WorkerStep::Stop(StopReason::DeadlineReached)
    } else if pending.len() == 0 {
        WorkerStep::Stop(StopReason::Exhausted)
    } else {
        WorkerStep::Run { nonce: pending[0], yield_first: yield_due(last_yield, now) }
    }
}

/// Reads the return code of a native solver.
pub fn read_native_code(code: u32) -> (precheck: Precheck)
    ensures
        precheck == precheck_of(code),
{
    if code == 0 {
        Precheck::Passed
    } else if code == 1 {
        Precheck::NoSolution
    } else if code == 3 {
        Precheck::Rejected
    } else {
        Precheck::SolverFailed
    }
}

/// Ends the trial after the direct attempt, unless the trial is to go on to
/// its bounded run.
pub fn after_precheck(precheck: Precheck) -> (outcome: Option<TrialOutcome>)
    ensures
        outcome == settled_by(precheck),
{
    match precheck {
        Precheck::Unavailable => None,
        Precheck::Passed => None,
        Precheck::GenerationFailed => Some(TrialOutcome::GenerationFailed),
        Precheck::SolverFailed => Some(TrialOutcome::SolverFailed),
        Precheck::NoSolution => Some(TrialOutcome::NoSolution),
        Precheck::Rejected => Some(TrialOutcome::VerificationFailed),
    }
}

/// Ends the trial after its bounded run.
pub fn after_compute(computed: Computed) -> (outcome: TrialOutcome)
    ensures
        outcome == outcome_of(computed),
{
    match computed {
        Computed::Failed => TrialOutcome::SolverFailed,
        Computed::NoSolution => TrialOutcome::NoSolution,
        Computed::Candidate { output, signature, verified } => {
            if verified {
                TrialOutcome::Solved { output, signature }
            } else {
                TrialOutcome::VerificationFailed
            }
        },
    }
}

/// Files the result of the trial of `nonce` if it is a verified solution
/// whose signature is at most `threshold`; any other outcome is dropped.
/// Says whether a record was filed.
pub fn record_outcome(
    accumulator: &mut SolutionAccumulator,
    threshold: u32,
    nonce: u64,
    outcome: TrialOutcome,
) -> (filed: bool)
    requires
        old(accumulator).wf(),
    ensures
        final(accumulator).wf(),
        final(accumulator)@ == settle(old(accumulator)@, nonce, outcome, threshold),
        filed == (accepted_record(nonce, outcome, threshold).is_some() && !old(accumulator)@.contains_key(
            nonce,
        )),
{
    match outcome {
        TrialOutcome::Solved { output, signature } => {
            if signature <= threshold {
                accumulator.insert(SolutionRecord { nonce, output, signature })
            } else {
                false
            }
        },
        _ => false,
    }
}

/// One worker of a job.
pub struct Worker {
    last_yield: u64,
}

impl Worker {
    /// When the worker last let its siblings run.
    pub closed spec fn last_yield(&self) -> u64 {
        self.last_yield
    }

    /// A worker that starts at `now`.
    pub fn new(now: u64) -> (worker: Worker)
        ensures
            worker.last_yield() == now,
    {
        Worker { last_yield: now }
    }

    /// Decides the next step at time `now`. The deadline is looked at first
    /// and no nonce is drawn once it has passed; a nonce is drawn only for a
    /// trial that is then run.
    pub fn next_step(&mut self, now: u64, round_end: u64, nonces: &mut NonceIterator) -> (step:
        WorkerStep)
        requires
            old(nonces).wf(),
        ensures
            final(nonces).wf(),
            step == step_of(old(self).last_yield(), now, round_end, old(nonces)@),
            match step {
                WorkerStep::Stop(_) => {
                    &&& final(nonces)@ == old(nonces)@
                    &&& final(self).last_yield() == old(self).last_yield()
                },
                WorkerStep::Run { nonce, yield_first } => {
                    &&& final(nonces)@ == old(nonces)@.drop_first()
                    &&& !final(nonces)@.contains(nonce)
                    &&& final(self).last_yield() == if yield_first {
                        now
                    } else {
                        old(self).last_yield()
                    }
                },
            },
    {
        if now >= round_end {
            return WorkerStep::Stop(StopReason::DeadlineReached);
        }
        match nonces.next() {
            None => WorkerStep::Stop(StopReason::Exhausted),
            Some(nonce) => {
                let yield_first = now < self.last_yield || now - self.last_yield > YIELD_INTERVAL_MS;
                if yield_first {
                    self.last_yield = now;
                }
                WorkerStep::Run { nonce, yield_first }
            },
        }
    }
}

} // verus!
