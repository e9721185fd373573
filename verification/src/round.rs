//! What a round leaves behind, whatever the order in which its workers take
//! their turns.
//!
//! A round is modelled by the shards of nonces that its workers draw from, a
//! schedule that names the worker whose turn it is at each step, and the
//! outcome of each nonce's trial. The records at the end depend on the nonces
//! alone, not on the schedule or on the number of shards.

use crate::accumulator::SolutionRecord;
use crate::nonce::{lemma_partitions_cover, nonce_limit, partition_nonces};
use crate::worker::{accepted_record, settle, TrialOutcome};
use vstd::prelude::*;

verus! {

/// The nonces that some shard still holds.
pub open spec fn pending(shards: Seq<Seq<u64>>) -> Set<u64> {
    Set::new(|n: u64| exists|i: int| 0 <= i < shards.len() && #[trigger] shards[i].contains(n))
}

/// Whether every shard is used up.
pub open spec fn all_drawn(shards: Seq<Seq<u64>>) -> bool {
    forall|i: int| 0 <= i < shards.len() ==> (#[trigger] shards[i]).len() == 0
}

/// Whether `worker` names a shard that still holds a nonce.
pub open spec fn can_draw(shards: Seq<Seq<u64>>, worker: int) -> bool {
    0 <= worker < shards.len() && shards[worker].len() > 0
}

/// The shards after `worker` had its turn: it drew the first nonce of its
/// shard, if there was one.
pub open spec fn after_draw(shards: Seq<Seq<u64>>, worker: int) -> Seq<Seq<u64>> {
    if can_draw(shards, worker) {
        shards.update(worker, shards[worker].drop_first())
    } else {
        shards
    }
}

/// The shards after the turns of `schedule`.
pub open spec fn shards_after(shards: Seq<Seq<u64>>, schedule: Seq<int>) -> Seq<Seq<u64>>
    decreases schedule.len(),
{
    if schedule.len() == 0 {
        shards
    } else {
        shards_after(after_draw(shards, schedule[0]), schedule.drop_first())
    }
}

/// The nonces drawn in the turns of `schedule`.
pub open spec fn drawn(shards: Seq<Seq<u64>>, schedule: Seq<int>) -> Set<u64>
    decreases schedule.len(),
{
    if schedule.len() == 0 {
        Set::empty()
    } else {
        let later = drawn(after_draw(shards, schedule[0]), schedule.drop_first());
        if can_draw(shards, schedule[0]) {
            later.insert(shards[schedule[0]][0])
        } else {
            later
        }
    }
}

/// The records after the turns of `schedule`, when the trial of nonce `n`
/// ends with `trial(n)`: in each turn the worker draws a nonce, and its trial
/// is settled before the next turn.
pub open spec fn records_after(
    held: Map<u64, SolutionRecord>,
    shards: Seq<Seq<u64>>,
    schedule: Seq<int>,
    trial: spec_fn(u64) -> TrialOutcome,
    threshold: u32,
) -> Map<u64, SolutionRecord>
    decreases schedule.len(),
{
    if schedule.len() == 0 {
        held
    } else {
        let worker = schedule[0];
        let settled = if can_draw(shards, worker) {
            settle(held, shards[worker][0], trial(shards[worker][0]), threshold)
        } else {
            held
        };
        records_after(
            settled,
            after_draw(shards, worker),
            schedule.drop_first(),
            trial,
            threshold,
        )
    }
}

/// The records that `held` grows to once the nonces of `tried` have had their
/// trials: what was held stays, and each other nonce of `tried` whose trial
/// is accepted has its record.
pub open spec fn expected_records(
    held: Map<u64, SolutionRecord>,
    tried: Set<u64>,
    trial: spec_fn(u64) -> TrialOutcome,
    threshold: u32,
) -> Map<u64, SolutionRecord> {
    Map::new(
        |n: u64|
            held.contains_key(n) || (tried.contains(n) && accepted_record(
                n,
                trial(n),
                threshold,
            ).is_some()),
        |n: u64|
            if held.contains_key(n) {
                held[n]
            } else {
                accepted_record(n, trial(n), threshold).unwrap()
            },
    )
}

/// The shards that `count` workers draw from when the nonces from `origin`
/// up to `bound` are dealt out to them.
pub open spec fn partition_shards(origin: u64, bound: Option<u64>, count: int) -> Seq<Seq<u64>> {
    Seq::new(count as nat, |i: int| partition_nonces(origin, bound, count, i))
}

/// Settling one more trial extends the set of tried nonces by its nonce.
proof fn lemma_settle_expected(
    held: Map<u64, SolutionRecord>,
    tried: Set<u64>,
    nonce: u64,
    trial: spec_fn(u64) -> TrialOutcome,
    threshold: u32,
)
    ensures
        settle(expected_records(held, tried, trial, threshold), nonce, trial(nonce), threshold)
            == expected_records(held, tried.insert(nonce), trial, threshold),
{
    assert(settle(expected_records(held, tried, trial, threshold), nonce, trial(nonce), threshold)
        =~= expected_records(held, tried.insert(nonce), trial, threshold));
}

/// A turn takes the first nonce of the worker's shard out of the pending
/// nonces, unless it occurs again.
proof fn lemma_pending_after_draw(shards: Seq<Seq<u64>>, worker: int)
    requires
        can_draw(shards, worker),
    ensures
        pending(shards) == pending(after_draw(shards, worker)).insert(shards[worker][0]),
{
    let first = shards[worker][0];
    let left = after_draw(shards, worker);
    assert forall|m: u64| pending(shards).contains(m) implies pending(left).insert(first).contains(
        m,
    ) by {
        let i = choose|i: int| 0 <= i < shards.len() && #[trigger] shards[i].contains(m);
        if i == worker {
            let k = choose|k: int| 0 <= k < shards[worker].len() && shards[worker][k] == m;
            if k > 0 {
                assert(left[worker][k - 1] == m);
                assert(left[worker].contains(m));
            }
        } else {
            assert(left[i].contains(m));
        }
    }
    assert forall|m: u64| pending(left).insert(first).contains(m) implies pending(shards).contains(
        m,
    ) by {
        if m == first {
            assert(shards[worker].contains(first));
        } else {
            let i = choose|i: int| 0 <= i < left.len() && #[trigger] left[i].contains(m);
            if i == worker {
                let k = choose|k: int| 0 <= k < left[worker].len() && left[worker][k] == m;
                assert(shards[worker][k + 1] == m);
                assert(shards[worker].contains(m));
            } else {
                assert(shards[i].contains(m));
            }
        }
    }
    assert(pending(shards) =~= pending(left).insert(first));
}

/// The nonces that were pending at the start are those drawn in the turns
/// and those still pending after them.
pub proof fn lemma_drawn_and_pending(shards: Seq<Seq<u64>>, schedule: Seq<int>)
    ensures
        pending(shards) == drawn(shards, schedule).union(pending(shards_after(shards, schedule))),
    decreases schedule.len(),
{
    if schedule.len() == 0 {
        assert(pending(shards) =~= drawn(shards, schedule).union(
            pending(shards_after(shards, schedule)),
        ));
    } else {
        let worker = schedule[0];
        lemma_drawn_and_pending(after_draw(shards, worker), schedule.drop_first());
        if can_draw(shards, worker) {
            lemma_pending_after_draw(shards, worker);
        }
        assert(pending(shards) =~= drawn(shards, schedule).union(
            pending(shards_after(shards, schedule)),
        ));
    }
}

/// The records after some turns are those expected of the nonces drawn in
/// them.
pub proof fn lemma_records_after_turns(
    held: Map<u64, SolutionRecord>,
    tried: Set<u64>,
    shards: Seq<Seq<u64>>,
    schedule: Seq<int>,
    trial: spec_fn(u64) -> TrialOutcome,
    threshold: u32,
)
    ensures
        records_after(
            expected_records(held, tried, trial, threshold),
            shards,
            schedule,
            trial,
            threshold,
        ) == expected_records(held, tried.union(drawn(shards, schedule)), trial, threshold),
    decreases schedule.len(),
{
    if schedule.len() == 0 {
        assert(tried.union(drawn(shards, schedule)) =~= tried);
    } else {
        let worker = schedule[0];
        let left = after_draw(shards, worker);
        let rest = schedule.drop_first();
        if can_draw(shards, worker) {
            let nonce = shards[worker][0];
            lemma_settle_expected(held, tried, nonce, trial, threshold);
            lemma_records_after_turns(held, tried.insert(nonce), left, rest, trial, threshold);
            assert(tried.insert(nonce).union(drawn(left, rest)) =~= tried.union(
                drawn(shards, schedule),
            ));
        } else {
            lemma_records_after_turns(held, tried, left, rest, trial, threshold);
            assert(tried.union(drawn(left, rest)) =~= tried.union(drawn(shards, schedule)));
        }
    }
}

/// Once every shard is used up, the records are those expected of all the
/// nonces that the shards held, whatever the schedule was.
pub proof fn lemma_records_of_finished_round(
    held: Map<u64, SolutionRecord>,
    shards: Seq<Seq<u64>>,
    schedule: Seq<int>,
    trial: spec_fn(u64) -> TrialOutcome,
    threshold: u32,
)
    requires
        all_drawn(shards_after(shards, schedule)),
    ensures
        records_after(held, shards, schedule, trial, threshold) == expected_records(
            held,
            pending(shards),
            trial,
            threshold,
        ),
{
    let none = Set::<u64>::empty();
    assert(held =~= expected_records(held, none, trial, threshold));
    lemma_records_after_turns(held, none, shards, schedule, trial, threshold);
    lemma_drawn_and_pending(shards, schedule);
    assert(pending(shards_after(shards, schedule)) =~= none);
    assert(none.union(drawn(shards, schedule)) =~= pending(shards));
}

/// A round retracts nothing: every record held before it is held after it,
/// unchanged, whether or not the round has finished.
pub proof fn lemma_round_keeps_records(
    held: Map<u64, SolutionRecord>,
    shards: Seq<Seq<u64>>,
    schedule: Seq<int>,
    trial: spec_fn(u64) -> TrialOutcome,
    threshold: u32,
)
    ensures
        forall|n: u64|
            held.contains_key(n) ==> records_after(
                held,
                shards,
                schedule,
                trial,
                threshold,
            ).contains_key(n) && records_after(held, shards, schedule, trial, threshold)[n]
                == held[n],
{
    let none = Set::<u64>::empty();
    assert(held =~= expected_records(held, none, trial, threshold));
    lemma_records_after_turns(held, none, shards, schedule, trial, threshold);
}

/// A round adds accepted solutions only: a record that was not held before
/// belongs to a nonce that was drawn, is filed under that nonce, and has a
/// signature of at most the threshold.
pub proof fn lemma_round_adds_accepted_only(
    held: Map<u64, SolutionRecord>,
    shards: Seq<Seq<u64>>,
    schedule: Seq<int>,
    trial: spec_fn(u64) -> TrialOutcome,
    threshold: u32,
    n: u64,
)
    requires
        !held.contains_key(n),
        records_after(held, shards, schedule, trial, threshold).contains_key(n),
    ensures
        drawn(shards, schedule).contains(n),
        pending(shards).contains(n),
        records_after(held, shards, schedule, trial, threshold)[n].nonce == n,
        records_after(held, shards, schedule, trial, threshold)[n].signature <= threshold,
        Some(records_after(held, shards, schedule, trial, threshold)[n]) == accepted_record(
            n,
            trial(n),
            threshold,
        ),
{
    let none = Set::<u64>::empty();
    assert(held =~= expected_records(held, none, trial, threshold));
    lemma_records_after_turns(held, none, shards, schedule, trial, threshold);
    lemma_drawn_and_pending(shards, schedule);
}

/// Two rounds that start from the same records and go through the same
/// nonces end with the same records, however the nonces are dealt out to
/// shards and in whatever order the workers take their turns.
pub proof fn lemma_interleaving_independence(
    held: Map<u64, SolutionRecord>,
    shards_a: Seq<Seq<u64>>,
    schedule_a: Seq<int>,
    shards_b: Seq<Seq<u64>>,
    schedule_b: Seq<int>,
    trial: spec_fn(u64) -> TrialOutcome,
    threshold: u32,
)
    requires
        pending(shards_a) == pending(shards_b),
        all_drawn(shards_after(shards_a, schedule_a)),
        all_drawn(shards_after(shards_b, schedule_b)),
    ensures
        records_after(held, shards_a, schedule_a, trial, threshold) == records_after(
            held,
            shards_b,
            schedule_b,
            trial,
            threshold,
        ),
{
    lemma_records_of_finished_round(held, shards_a, schedule_a, trial, threshold);
    lemma_records_of_finished_round(held, shards_b, schedule_b, trial, threshold);
}

/// The shards of a job hold the nonces from its origin up to its bound, for
/// any number of workers.
pub proof fn lemma_partition_shards_pending(origin: u64, bound: Option<u64>, count: int)
    requires
        count >= 1,
    ensures
        pending(partition_shards(origin, bound, count)) == Set::new(
            |n: u64| origin <= n < nonce_limit(bound),
        ),
{
    let shards = partition_shards(origin, bound, count);
    let range = Set::new(|n: u64| origin <= n < nonce_limit(bound));
    assert forall|n: u64| pending(shards).contains(n) <==> range.contains(n) by {
        lemma_partitions_cover(origin, bound, count, n);
        if pending(shards).contains(n) {
            let i = choose|i: int| 0 <= i < shards.len() && #[trigger] shards[i].contains(n);
            assert(partition_nonces(origin, bound, count, i).contains(n));
        }
        if range.contains(n) {
            let i = choose|i: int|
                0 <= i < count && #[trigger] partition_nonces(origin, bound, count, i).contains(n);
            assert(shards[i].contains(n));
        }
    }
    assert(pending(shards) =~= range);
}

/// A job that runs to the end of its nonces leaves the same records with one
/// worker as with any other number of workers.
pub proof fn lemma_worker_count_independence(
    held: Map<u64, SolutionRecord>,
    origin: u64,
    bound: Option<u64>,
    count_a: int,
    schedule_a: Seq<int>,
    count_b: int,
    schedule_b: Seq<int>,
    trial: spec_fn(u64) -> TrialOutcome,
    threshold: u32,
)
    requires
        count_a >= 1,
        count_b >= 1,
        all_drawn(shards_after(partition_shards(origin, bound, count_a), schedule_a)),
        all_drawn(shards_after(partition_shards(origin, bound, count_b), schedule_b)),
    ensures
        records_after(
            held,
            partition_shards(origin, bound, count_a),
            schedule_a,
            trial,
            threshold,
        ) == records_after(
            held,
            partition_shards(origin, bound, count_b),
            schedule_b,
            trial,
            threshold,
        ),
{
    lemma_partition_shards_pending(origin, bound, count_a);
    lemma_partition_shards_pending(origin, bound, count_b);
    lemma_interleaving_independence(
        held,
        partition_shards(origin, bound, count_a),
        schedule_a,
        partition_shards(origin, bound, count_b),
        schedule_b,
        trial,
        threshold,
    );
}

} // verus!
