//! From accepted-solution counts to the work of a round: which classes run,
//! with which algorithm and for how long.

use crate::selector::{
    first_min_index, select_classes, selected_flags, single_pick_index, SelectionPolicy,
};
use std::collections::HashMap;
use vstd::prelude::*;

verus! {

/// One problem class of the configuration: the algorithm that runs for it and
/// the length of its round, in milliseconds.
#[derive(Clone, Debug, PartialEq, Eq)]
pub struct ChallengeConfig {
    pub challenge_id: String,
    pub algorithm_id: String,
    pub duration: u32,
}

/// How many solutions of one class have been accepted so far.
#[derive(Clone, Debug, PartialEq, Eq)]
pub struct ChallengeStatistic {
    pub challenge_id: String,
    pub count: u32,
}

/// The count that `solutions` gives for the class `id`: that of its first
/// entry for the class, and 0 if it has none.
pub open spec fn count_of(solutions: Seq<ChallengeStatistic>, id: Seq<char>) -> u32
    decreases solutions.len(),
{
    if solutions.len() == 0 {
        0
    } else if solutions[0].challenge_id@ == id {
        solutions[0].count
    } else {
        count_of(solutions.drop_first(), id)
    }
}

/// The count of each class of `map`, in the order of `map`.
pub open spec fn counts_of(map: Seq<ChallengeConfig>, solutions: Seq<ChallengeStatistic>) -> Seq<
    u32,
> {
    Seq::new(map.len(), |i: int| count_of(solutions, map[i].challenge_id@))
}

/// The round length that `map` gives for the class `id`: that of its first
/// entry for the class.
pub open spec fn duration_of(map: Seq<ChallengeConfig>, id: Seq<char>) -> Option<u32>
    decreases map.len(),
{
    if map.len() == 0 {
        None
    } else if map[0].challenge_id@ == id {
        Some(map[0].duration)
    } else {
        duration_of(map.drop_first(), id)
    }
}

/// The classes of `map` whose flag is set, in the order of `map`.
pub open spec fn flagged(map: Seq<ChallengeConfig>, flags: Seq<bool>) -> Seq<ChallengeConfig>
    decreases map.len(),
{
    if map.len() == 0 || flags.len() != map.len() {
        Seq::empty()
    } else {
        let before = flagged(map.drop_last(), flags.drop_last());
        if flags.last() {
            before.push(map.last())
        } else {
            before
        }
    }
}

/// The class of `map` with the fewest accepted solutions, the first of them
/// where several have as few: the name it runs under, its count and its
/// round length.
pub open spec fn least_solved(solutions: Seq<ChallengeStatistic>, map: Seq<ChallengeConfig>) -> Option<
    (String, u32, u32),
> {
    if map.len() == 0 {
        None
    } else {
        let counts = counts_of(map, solutions);
        let i = first_min_index(counts);
        Some((map[i].algorithm_id, counts[i], map[i].duration))
    }
}

/// The entries of `selection` that are named `name`, each with the round
/// length `duration`.
pub open spec fn chosen_for(selection: Seq<(String, String)>, name: Seq<char>, duration: u32) -> Seq<
    ChallengeConfig,
>
    decreases selection.len(),
{
    if selection.len() == 0 {
        Seq::empty()
    } else {
        let before = chosen_for(selection.drop_last(), name, duration);
        let last = selection.last();
        if last.0@ == name {
            before.push(
                ChallengeConfig { challenge_id: last.0, algorithm_id: last.1, duration },
            )
        } else {
            before
        }
    }
}

/// Whether `map` has a round length for every entry of `selection`.
pub open spec fn all_configured(selection: Seq<(String, String)>, map: Seq<ChallengeConfig>) -> bool {
    forall|k: int|
        0 <= k < selection.len() ==> duration_of(map, (#[trigger] selection[k]).0@).is_some()
}

/// Every entry of `selection`, with the round length that `map` gives for it.
pub open spec fn everything(selection: Seq<(String, String)>, map: Seq<ChallengeConfig>) -> Seq<
    ChallengeConfig,
> {
    Seq::new(
        selection.len(),
        |k: int|
            ChallengeConfig {
                challenge_id: selection[k].0,
                algorithm_id: selection[k].1,
                duration: duration_of(map, selection[k].0@).unwrap(),
            },
    )
}

/// What `select_algorithms_to_run` picks before it falls back: the entries
/// of `selection` named like the least solved class of `map`.
pub open spec fn preferred(
    solutions: Seq<ChallengeStatistic>,
    map: Seq<ChallengeConfig>,
    selection: Seq<(String, String)>,
) -> Seq<ChallengeConfig> {
    match least_solved(solutions, map) {
        Some(least) => chosen_for(selection, least.0@, least.2),
        None => Seq::empty(),
    }
}

/// The classes that `solutions` has counts for, in its order.
pub open spec fn classes_in(solutions: Seq<ChallengeStatistic>) -> Seq<Seq<char>> {
    Seq::new(solutions.len(), |i: int| solutions[i].challenge_id@)
}

/// The classes that `entries` report on, each once, in the order in which
/// they are first reported.
pub open spec fn classes_reported(entries: Seq<(String, u32)>) -> Seq<Seq<char>>
    decreases entries.len(),
{
    if entries.len() == 0 {
        Seq::empty()
    } else {
        let before = classes_reported(entries.drop_last());
        if before.contains(entries.last().0@) {
            before
        } else {
            before.push(entries.last().0@)
        }
    }
}

/// The sum of the counts that `entries` report for the class `id`.
pub open spec fn total_for(entries: Seq<(String, u32)>, id: Seq<char>) -> int
    decreases entries.len(),
{
    if entries.len() == 0 {
        0
    } else {
        total_for(entries.drop_last(), id) + if entries.last().0@ == id {
            entries.last().1 as int
        } else {
            0
        }
    }
}

/// The reports up to some point sum to no more than all of them.
proof fn lemma_total_for_grows(entries: Seq<(String, u32)>, k: int, id: Seq<char>)
    requires
        0 <= k <= entries.len(),
    ensures
        0 <= total_for(entries.take(k), id) <= total_for(entries, id),
    decreases entries.len() - k,
{
    if k == entries.len() {
        assert(entries.take(k) =~= entries);
        lemma_total_for_nonnegative(entries, id);
    } else {
        lemma_total_for_grows(entries, k + 1, id);
        assert(entries.take(k + 1).drop_last() =~= entries.take(k));
        lemma_total_for_nonnegative(entries.take(k), id);
    }
}

proof fn lemma_total_for_nonnegative(entries: Seq<(String, u32)>, id: Seq<char>)
    ensures
        0 <= total_for(entries, id),
    decreases entries.len(),
{
    if entries.len() > 0 {
        lemma_total_for_nonnegative(entries.drop_last(), id);
    }
}

/// A class added at the end counts for the classes that had no entry.
proof fn lemma_count_of_push(
    solutions: Seq<ChallengeStatistic>,
    added: ChallengeStatistic,
    id: Seq<char>,
)
    requires
        forall|j: int| 0 <= j < solutions.len() ==> (#[trigger] solutions[j]).challenge_id@
            != added.challenge_id@,
    ensures
        count_of(solutions.push(added), id) == if id == added.challenge_id@ {
            added.count
        } else {
            count_of(solutions, id)
        },
    decreases solutions.len(),
{
    let longer = solutions.push(added);
    if solutions.len() == 0 {
        assert(longer[0] == added);
        assert(longer.drop_first().len() == 0);
        assert(count_of(longer.drop_first(), id) == 0);
    } else {
        assert(longer[0] == solutions[0]);
        assert(longer.drop_first() =~= solutions.drop_first().push(added));
        assert forall|j: int| 0 <= j < solutions.drop_first().len() implies (
        #[trigger] solutions.drop_first()[j]).challenge_id@ != added.challenge_id@ by {
            assert(solutions.drop_first()[j] == solutions[j + 1]);
        }
        lemma_count_of_push(solutions.drop_first(), added, id);
    }
}

/// A new count for the first entry of a class changes the count of that
/// class alone.
proof fn lemma_count_of_update(
    solutions: Seq<ChallengeStatistic>,
    i: int,
    changed: ChallengeStatistic,
    id: Seq<char>,
)
    requires
        0 <= i < solutions.len(),
        changed.challenge_id@ == solutions[i].challenge_id@,
        forall|j: int| 0 <= j < i ==> (#[trigger] solutions[j]).challenge_id@
            != changed.challenge_id@,
    ensures
        count_of(solutions.update(i, changed), id) == if id == changed.challenge_id@ {
            changed.count
        } else {
            count_of(solutions, id)
        },
    decreases i,
{
    let after = solutions.update(i, changed);
    if i == 0 {
        assert(after.drop_first() =~= solutions.drop_first());
    } else {
        assert(after[0] == solutions[0]);
        assert(after.drop_first() =~= solutions.drop_first().update(i - 1, changed));
        assert forall|j: int| 0 <= j < i - 1 implies (#[trigger] solutions.drop_first()[j]).challenge_id@
            != changed.challenge_id@ by {
            assert(solutions.drop_first()[j] == solutions[j + 1]);
        }
        lemma_count_of_update(solutions.drop_first(), i - 1, changed, id);
    }
}

/// The round length of each class of the standard configuration, in
/// milliseconds.
pub const DEFAULT_DURATION: u32 = 22000;

/// The standard configuration as contracts see it: the four problem classes
/// in their fixed order, each with the name it runs under.
pub open spec fn default_classes() -> Seq<(Seq<char>, Seq<char>)> {
    seq![
        ("c001"@, "satisfiability"@),
        ("c002"@, "vehicle_routing"@),
        ("c003"@, "knapsack"@),
        ("c004"@, "vector_search"@),
    ]
}

/// One class of the standard configuration.
fn default_class(challenge_id: &str, name: &str) -> (class: ChallengeConfig)
    ensures
        class.challenge_id@ == challenge_id@,
        class.algorithm_id@ == name@,
        class.duration == DEFAULT_DURATION,
{
    ChallengeConfig {
        challenge_id: challenge_id.to_owned(),
        algorithm_id: name.to_owned(),
        duration: DEFAULT_DURATION,
    }
}

/// The standard configuration: the four problem classes in their fixed
/// order.
pub fn default_algo_map() -> (map: Vec<ChallengeConfig>)
    ensures
        map@.len() == default_classes().len(),
        forall|i: int|
            0 <= i < map@.len() ==> {
                &&& (#[trigger] map@[i]).challenge_id@ == default_classes()[i].0
                &&& map@[i].algorithm_id@ == default_classes()[i].1
                &&& map@[i].duration == DEFAULT_DURATION
            },
{
    let mut map: Vec<ChallengeConfig> = Vec::new();
    map.push(default_class("c001", "satisfiability"));
    map.push(default_class("c002", "vehicle_routing"));
    map.push(default_class("c003", "knapsack"));
    map.push(default_class("c004", "vector_search"));
    map
}

/// The count that `solutions` gives for the class `challenge_id`.
pub fn solution_count(solutions: &Vec<ChallengeStatistic>, challenge_id: &String) -> (count: u32)
    ensures
        count == count_of(solutions@, challenge_id@),
{
    let mut i: usize = 0;
    assert(solutions@.skip(0) =~= solutions@);
    while i < solutions.len()
        invariant
            i <= solutions.len(),
            count_of(solutions@, challenge_id@) == count_of(solutions@.skip(i as int), challenge_id@),
        decreases solutions.len() - i,
    {
        assert(solutions@.skip(i as int).drop_first() =~= solutions@.skip(i + 1));
        if solutions[i].challenge_id == *challenge_id {
            return solutions[i].count;
        }
        i = i + 1;
    }
    0
}

/// Adds `num_qualifiers` to the count of the class `challenge_id`, which
/// starts at 0 if the class has no count yet.
pub fn add_qualifiers(
    solutions: &mut Vec<ChallengeStatistic>,
    challenge_id: &String,
    num_qualifiers: u32,
)
    requires
        count_of(old(solutions)@, challenge_id@) + num_qualifiers <= u32::MAX,
    ensures
        forall|id: Seq<char>|
            #[trigger] count_of(final(solutions)@, id) == if id == challenge_id@ {
                count_of(old(solutions)@, id) + num_qualifiers
            } else {
                count_of(old(solutions)@, id) as int
            },
        classes_in(final(solutions)@) == if classes_in(old(solutions)@).contains(challenge_id@) {
            classes_in(old(solutions)@)
        } else {
            classes_in(old(solutions)@).push(challenge_id@)
        },
{
    let mut i: usize = 0;
    assert(solutions@.skip(0) =~= solutions@);
    while i < solutions.len()
        invariant
            i <= solutions.len(),
            *solutions == *old(solutions),
            count_of(solutions@, challenge_id@) + num_qualifiers <= u32::MAX,
            forall|j: int| 0 <= j < i ==> (#[trigger] solutions@[j]).challenge_id@ != challenge_id@,
            count_of(solutions@, challenge_id@) == count_of(
                solutions@.skip(i as int),
                challenge_id@,
            ),
        decreases solutions.len() - i,
    {
        assert(solutions@.skip(i as int).drop_first() =~= solutions@.skip(i + 1));
        if solutions[i].challenge_id == *challenge_id {
            assert(solutions@.skip(i as int)[0] == solutions@[i as int]);
            assert(count_of(solutions@, challenge_id@) == solutions@[i as int].count);
            let changed = ChallengeStatistic {
                challenge_id: challenge_id.clone(),
                count: solutions[i].count + num_qualifiers,
            };
            proof {
                assert forall|id: Seq<char>|
                    count_of(solutions@.update(i as int, changed), id) == if id
                        == changed.challenge_id@ {
                        changed.count
                    } else {
                        count_of(solutions@, id)
                    } by {
                    lemma_count_of_update(solutions@, i as int, changed, id);
                }
            }
            solutions.set(i, changed);
            proof {
                assert(classes_in(old(solutions)@)[i as int] == challenge_id@);
                assert(classes_in(solutions@) =~= classes_in(old(solutions)@));
            }
            return ;
        }
        i = i + 1;
    }
    let added = ChallengeStatistic { challenge_id: challenge_id.clone(), count: num_qualifiers };
    proof {
        assert forall|id: Seq<char>|
            count_of(solutions@.push(added), id) == if id == added.challenge_id@ {
                added.count
            } else {
                count_of(solutions@, id)
            } by {
            lemma_count_of_push(solutions@, added, id);
        }
    }
    solutions.push(added);
    proof {
        assert forall|j: int| 0 <= j < classes_in(old(solutions)@).len() implies classes_in(
            old(solutions)@,
        )[j] != challenge_id@ by {
            assert(old(solutions)@[j].challenge_id@ != challenge_id@);
        }
        assert(classes_in(solutions@) =~= classes_in(old(solutions)@).push(challenge_id@));
    }
}

/// The count of each class from the reports in `entries`, each a class and
/// a number of accepted solutions: a class has the sum of its reports.
/// `None` if the reports of some class sum to more than a count can hold.
pub fn tally_solutions(entries: &Vec<(String, u32)>) -> (tally: Option<Vec<ChallengeStatistic>>)
    ensures
        match tally {
            Some(solutions) => {
                &&& classes_in(solutions@) == classes_reported(entries@)
                &&& forall|id: Seq<char>| #[trigger]
                    count_of(solutions@, id) == total_for(entries@, id)
            },
            None => exists|id: Seq<char>| #[trigger] total_for(entries@, id) > u32::MAX,
        },
{
    let mut solutions: Vec<ChallengeStatistic> = Vec::new();
    let mut i: usize = 0;
    assert(entries@.take(0).len() == 0);
    assert(classes_in(solutions@) =~= classes_reported(entries@.take(0)));
    while i < entries.len()
        invariant
            i <= entries.len(),
            classes_in(solutions@) == classes_reported(entries@.take(i as int)),
            forall|id: Seq<char>|
                #[trigger] count_of(solutions@, id) == total_for(entries@.take(i as int), id),
        decreases entries.len() - i,
    {
        proof {
            assert(entries@.take(i + 1).drop_last() =~= entries@.take(i as int));
            assert(entries@.take(i + 1).last() == entries@[i as int]);
            lemma_total_for_grows(entries@, i + 1, entries@[i as int].0@);
        }
        let held = solution_count(&solutions, &entries[i].0);
        if held > u32::MAX - entries[i].1 {
            assert(total_for(entries@, entries@[i as int].0@) > u32::MAX);
            return None;
        }
        add_qualifiers(&mut solutions, &entries[i].0, entries[i].1);
        i = i + 1;
    }
    assert(entries@.take(i as int) =~= entries@);
    Some(solutions)
}

/// The round length that `map` gives for the class `challenge_id`.
pub fn configured_duration(map: &Vec<ChallengeConfig>, challenge_id: &String) -> (duration: Option<
    u32,
>)
    ensures
        duration == duration_of(map@, challenge_id@),
{
    let mut i: usize = 0;
    assert(map@.skip(0) =~= map@);
    while i < map.len()
        invariant
            i <= map.len(),
            duration_of(map@, challenge_id@) == duration_of(map@.skip(i as int), challenge_id@),
        decreases map.len() - i,
    {
        assert(map@.skip(i as int).drop_first() =~= map@.skip(i + 1));
        if map[i].challenge_id == *challenge_id {
            return Some(map[i].duration);
        }
        i = i + 1;
    }
    None
}

/// The count of each class of `map`; a class without a count has 0.
pub fn class_counts(map: &Vec<ChallengeConfig>, solutions: &Vec<ChallengeStatistic>) -> (counts: Vec<
    u32,
>)
    ensures
        counts@ == counts_of(map@, solutions@),
{
    let mut counts: Vec<u32> = Vec::new();
    let mut i: usize = 0;
    while i < map.len()
        invariant
            i <= map.len(),
            counts@.len() == i,
            forall|j: int| 0 <= j < i ==> counts@[j] == count_of(solutions@, map@[j].challenge_id@),
        decreases map.len() - i,
    {
        counts.push(solution_count(solutions, &map[i].challenge_id));
        i = i + 1;
    }
    assert(counts@ =~= counts_of(map@, solutions@));
    counts
}

/// The work of the next round: the classes of `map` that `policy` picks from
/// the counts in `solutions`, each with its algorithm and round length. If
/// the policy picks none, every class runs.
pub fn plan_round(
    policy: SelectionPolicy,
    map: &Vec<ChallengeConfig>,
    solutions: &Vec<ChallengeStatistic>,
) -> (plan: Vec<ChallengeConfig>)
    ensures
        plan@ == flagged(map@, selected_flags(policy, counts_of(map@, solutions@))),
{
    let counts = class_counts(map, solutions);
    let flags = select_classes(policy, &counts);
    let mut plan: Vec<ChallengeConfig> = Vec::new();
    let mut i: usize = 0;
    while i < map.len()
        invariant
            i <= map.len(),
            flags@.len() == map@.len(),
            plan@ == flagged(map@.take(i as int), flags@.take(i as int)),
        decreases map.len() - i,
    {
        assert(map@.take(i + 1).drop_last() =~= map@.take(i as int));
        assert(flags@.take(i + 1).drop_last() =~= flags@.take(i as int));
        if flags[i] {
            plan.push(
                ChallengeConfig {
                    challenge_id: map[i].challenge_id.clone(),
                    algorithm_id: map[i].algorithm_id.clone(),
                    duration: map[i].duration,
                },
            );
        }
        i = i + 1;
    }
    assert(map@.take(i as int) =~= map@);
    assert(flags@.take(i as int) =~= flags@);
    plan
}

/// The class of `map` with the fewest accepted solutions, the first of them
/// where several have as few; `None` if `map` has no class.
pub fn determine_algorithms_to_run(
    solutions: &Vec<ChallengeStatistic>,
    map: &Vec<ChallengeConfig>,
) -> (least: Option<(String, u32, u32)>)
    ensures
        least == least_solved(solutions@, map@),
{
    if map.len() == 0 {
        return None;
    }
    let counts = class_counts(map, solutions);
    let i = single_pick_index(&counts);
    Some((map[i].algorithm_id.clone(), counts[i], map[i].duration))
}

/// The entries of `algo_selection` that are named like the class in
/// `algos_to_run`, with its round length; `None` if there is no such class.
pub fn generate_algo_map(
    algos_to_run: &Option<(String, u32, u32)>,
    algo_selection: &Vec<(String, String)>,
) -> (config: Option<Vec<ChallengeConfig>>)
    ensures
        match *algos_to_run {
            Some(least) => config.is_some() && config.unwrap()@ == chosen_for(
                algo_selection@,
                least.0@,
                least.2,
            ),
            None => config.is_none(),
        },
{
    match algos_to_run {
        None => None,
        Some(least) => {
            let mut config: Vec<ChallengeConfig> = Vec::new();
            let mut i: usize = 0;
            while i < algo_selection.len()
                invariant
                    i <= algo_selection.len(),
                    config@ == chosen_for(algo_selection@.take(i as int), least.0@, least.2),
                decreases algo_selection.len() - i,
            {
                assert(algo_selection@.take(i + 1).drop_last() =~= algo_selection@.take(i as int));
                if algo_selection[i].0 == least.0 {
                    config.push(
                        ChallengeConfig {
                            challenge_id: algo_selection[i].0.clone(),
                            algorithm_id: algo_selection[i].1.clone(),
                            duration: least.2,
                        },
                    );
                }
                i = i + 1;
            }
            assert(algo_selection@.take(i as int) =~= algo_selection@);
            Some(config)
        },
    }
}

/// `new_duration` if the two maps differ in size, `current_duration` if not.
pub fn calculate_duration(
    config: &HashMap<String, String>,
    algo_map: &HashMap<String, String>,
    current_duration: u32,
    new_duration: u32,
) -> (duration: u32)
    ensures
        duration == if config.len() != algo_map.len() {
            new_duration
        } else {
            current_duration
        },
{
    let mut duration = current_duration;
    if config.len() != algo_map.len() {
        duration = new_duration;
    }
    duration
}

/// Whether `algo_map` has a round length for every entry of
/// `algo_selection`.
pub fn is_all_configured(algo_selection: &Vec<(String, String)>, algo_map: &Vec<ChallengeConfig>) -> (configured:
    bool)
    ensures
        configured == all_configured(algo_selection@, algo_map@),
{
    let mut i: usize = 0;
    while i < algo_selection.len()
        invariant
            i <= algo_selection.len(),
            forall|k: int|
                0 <= k < i ==> duration_of(algo_map@, (#[trigger] algo_selection@[k]).0@).is_some(),
        decreases algo_selection.len() - i,
    {
        if configured_duration(algo_map, &algo_selection[i].0).is_none() {
            return false;
        }
        i = i + 1;
    }
    true
}

/// Every entry of `algo_selection`, with the round length that `algo_map`
/// gives for it.
pub fn run_everything(algo_selection: &Vec<(String, String)>, algo_map: &Vec<ChallengeConfig>) -> (config:
    Vec<ChallengeConfig>)
    requires
        all_configured(algo_selection@, algo_map@),
    ensures
        config@ == everything(algo_selection@, algo_map@),
{
    let mut config: Vec<ChallengeConfig> = Vec::new();
    let mut i: usize = 0;
    while i < algo_selection.len()
        invariant
            i <= algo_selection.len(),
            all_configured(algo_selection@, algo_map@),
            config@.len() == i,
            forall|k: int| 0 <= k < i ==> config@[k] == everything(algo_selection@, algo_map@)[k],
        decreases algo_selection.len() - i,
    {
        let found = configured_duration(algo_map, &algo_selection[i].0);
        assert(duration_of(algo_map@, algo_selection@[i as int].0@).is_some());
        match found {
            Some(duration) => {
                config.push(
                    ChallengeConfig {
                        challenge_id: algo_selection[i].0.clone(),
                        algorithm_id: algo_selection[i].1.clone(),
                        duration,
                    },
                );
            },
            None => {},
        }
        i = i + 1;
    }
    assert(config@ =~= everything(algo_selection@, algo_map@));
    config
}

/// The work of the next round and the count of the class it serves: the
/// entries of `algo_selection` named like the least solved class of
/// `algo_map`. Where there is no such entry, every entry of `algo_selection`
/// runs, and the count is 0.
pub fn select_algorithms_to_run(
    solutions: &Vec<ChallengeStatistic>,
    algo_map: &Vec<ChallengeConfig>,
    algo_selection: &Vec<(String, String)>,
) -> (round: (Vec<ChallengeConfig>, u32))
    requires
        preferred(solutions@, algo_map@, algo_selection@).len() == 0 ==> all_configured(
            algo_selection@,
            algo_map@,
        ),
    ensures
        round.0@ == if preferred(solutions@, algo_map@, algo_selection@).len() > 0 {
            preferred(solutions@, algo_map@, algo_selection@)
        } else {
            everything(algo_selection@, algo_map@)
        },
        round.1 == if preferred(solutions@, algo_map@, algo_selection@).len() > 0 {
            least_solved(solutions@, algo_map@).unwrap().1
        } else {
            0
        },
{
    let least = determine_algorithms_to_run(solutions, algo_map);
    let config = generate_algo_map(&least, algo_selection);
    match (config, least) {
        (Some(config), Some(least)) => {
            if config.len() > 0 {
                (config, least.1)
            } else {
                (run_everything(algo_selection, algo_map), 0)
            }
        },
        _ => (run_everything(algo_selection, algo_map), 0),
    }
}

} // verus!
