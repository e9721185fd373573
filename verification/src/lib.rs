//! Execution and scheduling engine of a proof-of-work style benchmarker.
//!
//! The engine draws trial identifiers (nonces) for a job, seeds problem
//! instances from a deterministic multi-stream generator, keeps the accepted
//! results of a round, and decides which problem classes a round should work
//! on. Each function states what it returns or changes in a contract that
//! Verus proves; what is taken on trust of the `rand` crate is stated in
//! `rng_array`.

pub mod accumulator;
pub mod algo_selection;
pub mod cache;
pub mod chacha;
pub mod difficulty;
pub mod job;
pub mod nonce;
pub mod rng_array;
pub mod routing;
pub mod round;
pub mod selector;
pub mod vector_search;
pub mod worker;
