//! Solution accumulator: the accepted results of one job, at most one for
//! each nonce.

use std::collections::HashMap;
use vstd::prelude::*;

verus! {

broadcast use vstd::std_specs::hash::group_hash_axioms;

/// An accepted result of one trial.
#[derive(Clone, Debug, PartialEq, Eq)]
pub struct SolutionRecord {
    pub nonce: u64,
    pub output: Vec<u8>,
    pub signature: u32,
}

/// The records `held` after `record` was offered to them: a nonce that has a
/// record keeps it.
pub open spec fn record_into(held: Map<u64, SolutionRecord>, record: SolutionRecord) -> Map<
    u64,
    SolutionRecord,
> {
    if held.contains_key(record.nonce) {
        held
    } else {
        held.insert(record.nonce, record)
    }
}

/// Each record is filed under its own nonce.
pub open spec fn filed_by_nonce(held: Map<u64, SolutionRecord>) -> bool {
    forall|n: u64| held.contains_key(n) ==> (#[trigger] held[n]).nonce == n
}

/// Offering a record for a nonce that has one changes nothing, so offering
/// the same nonce twice is the same as offering it once.
pub proof fn lemma_insert_idempotent(
    held: Map<u64, SolutionRecord>,
    first: SolutionRecord,
    second: SolutionRecord,
)
    requires
        first.nonce == second.nonce,
    ensures
        record_into(record_into(held, first), second) == record_into(held, first),
        held.contains_key(first.nonce) ==> record_into(held, first) == held,
{
}

/// Offering a record keeps every record held before, and keeps each record
/// filed under its own nonce.
pub proof fn lemma_insert_monotone(held: Map<u64, SolutionRecord>, record: SolutionRecord)
    ensures
        forall|n: u64|
            held.contains_key(n) ==> record_into(held, record).contains_key(n) && record_into(
                held,
                record,
            )[n] == held[n],
        filed_by_nonce(held) ==> filed_by_nonce(record_into(held, record)),
{
}

/// The accepted results of one job, by nonce.
pub struct SolutionAccumulator {
    records: HashMap<u64, SolutionRecord>,
}

impl View for SolutionAccumulator {
    type V = Map<u64, SolutionRecord>;

    closed spec fn view(&self) -> Map<u64, SolutionRecord> {
        self.records@
    }
}

impl SolutionAccumulator {
    /// Each record is filed under its own nonce.
    pub open spec fn wf(&self) -> bool {
        filed_by_nonce(self@)
    }

    /// An accumulator without records.
    pub fn new() -> (accumulator: SolutionAccumulator)
        ensures
            accumulator.wf(),
            accumulator@ == Map::<u64, SolutionRecord>::empty(),
    {
        SolutionAccumulator { records: HashMap::new() }
    }

    /// Files `record` under its nonce, unless that nonce has a record
    /// already. Says whether it was filed.
    pub fn insert(&mut self, record: SolutionRecord) -> (inserted: bool)
        requires
            old(self).wf(),
        ensures
            final(self).wf(),
            final(self)@ == record_into(old(self)@, record),
            inserted == !old(self)@.contains_key(record.nonce),
    {
        let nonce = record.nonce;
        if self.records.contains_key(&nonce) {
            false
        } else {
            self.records.insert(nonce, record);
            true
        }
    }

    /// Whether `nonce` has a record.
    pub fn contains(&self, nonce: u64) -> (present: bool)
        ensures
            present == self@.contains_key(nonce),
    {
        self.records.contains_key(&nonce)
    }

    /// The record of `nonce`, if it has one.
    pub fn get(&self, nonce: u64) -> (record: Option<&SolutionRecord>)
        ensures
            match record {
                Some(r) => self@.contains_key(nonce) && *r == self@[nonce],
                None => !self@.contains_key(nonce),
            },
    {
        self.records.get(&nonce)
    }

    /// The number of records.
    pub fn len(&self) -> (count: usize)
        ensures
            count == self@.len(),
    {
        self.records.len()
    }

    /// Whether there is no record.
    pub fn is_empty(&self) -> (empty: bool)
        ensures
            empty == (self@.len() == 0),
    {
        self.records.len() == 0
    }
}

} // verus!
