use std::collections::HashMap;
use tig_benchmarker::algo_selection::{
    add_qualifiers, calculate_duration, class_counts, configured_duration, default_algo_map,
    determine_algorithms_to_run, generate_algo_map, is_all_configured, plan_round, run_everything,
    select_algorithms_to_run, solution_count, tally_solutions, ChallengeConfig, ChallengeStatistic,
    DEFAULT_DURATION,
};
use tig_benchmarker::selector::SelectionPolicy;

fn stat(id: &str, count: u32) -> ChallengeStatistic {
    ChallengeStatistic { challenge_id: id.to_string(), count }
}

fn class(id: &str, algorithm: &str, duration: u32) -> ChallengeConfig {
    ChallengeConfig {
        challenge_id: id.to_string(),
        algorithm_id: algorithm.to_string(),
        duration,
    }
}

fn choice(name: &str, algorithm: &str) -> (String, String) {
    (name.to_string(), algorithm.to_string())
}

fn four_classes() -> Vec<ChallengeConfig> {
    vec![
        class("A", "a_fast", 1000),
        class("B", "b_fast", 2000),
        class("C", "c_fast", 3000),
        class("D", "d_fast", 4000),
    ]
}

#[test]
fn standard_configuration() {
    let map = default_algo_map();
    assert_eq!(DEFAULT_DURATION, 22000);
    assert_eq!(map, vec![
        class("c001", "satisfiability", 22000),
        class("c002", "vehicle_routing", 22000),
        class("c003", "knapsack", 22000),
        class("c004", "vector_search", 22000),
    ]);
}

#[test]
fn a_class_without_a_count_has_zero() {
    let solutions = vec![stat("c001", 5), stat("c004", 3)];
    assert_eq!(solution_count(&solutions, &"c001".to_string()), 5);
    assert_eq!(solution_count(&solutions, &"c004".to_string()), 3);
    assert_eq!(solution_count(&solutions, &"c002".to_string()), 0);
    assert_eq!(solution_count(&Vec::new(), &"c001".to_string()), 0);
    assert_eq!(class_counts(&default_algo_map(), &solutions), vec![5, 0, 0, 3]);
}

#[test]
fn the_first_entry_of_a_class_counts() {
    let solutions = vec![stat("c001", 5), stat("c001", 9)];
    assert_eq!(solution_count(&solutions, &"c001".to_string()), 5);
    let map = vec![class("x", "one", 10), class("x", "two", 20)];
    assert_eq!(configured_duration(&map, &"x".to_string()), Some(10));
    assert_eq!(configured_duration(&map, &"y".to_string()), None);
}

#[test]
fn baseline_plan_names_the_lagging_class() {
    let solutions = vec![stat("A", 10), stat("B", 10), stat("C", 10), stat("D", 2)];
    let policy = SelectionPolicy::Baseline { cutoff_multiplier_percent: 150 };
    assert_eq!(plan_round(policy, &four_classes(), &solutions), vec![class("D", "d_fast", 4000)]);
}

#[test]
fn relative_plan_falls_back_to_baseline() {
    let solutions = vec![stat("A", 100), stat("B", 100), stat("C", 100), stat("D", 100)];
    let policy = SelectionPolicy::Relative { tolerance_percent: 10, cutoff_multiplier_percent: 150 };
    assert_eq!(plan_round(policy, &four_classes(), &solutions), four_classes());
    let uneven = vec![stat("A", 100), stat("B", 95), stat("C", 100), stat("D", 100)];
    let narrow = SelectionPolicy::Relative { tolerance_percent: 10, cutoff_multiplier_percent: 102 };
    assert_eq!(plan_round(narrow, &four_classes(), &uneven), vec![class("B", "b_fast", 2000)]);
}

#[test]
fn a_failed_fetch_runs_every_class() {
    let nothing: Vec<ChallengeStatistic> = Vec::new();
    let baseline = SelectionPolicy::Baseline { cutoff_multiplier_percent: 150 };
    assert_eq!(plan_round(baseline, &four_classes(), &nothing), four_classes());
    let relative = SelectionPolicy::Relative { tolerance_percent: 10, cutoff_multiplier_percent: 150 };
    assert_eq!(plan_round(relative, &four_classes(), &nothing), four_classes());
    assert_eq!(
        plan_round(SelectionPolicy::SinglePick, &four_classes(), &nothing),
        vec![class("A", "a_fast", 1000)]
    );
}

#[test]
fn single_pick_plan_keeps_the_order_of_the_configuration() {
    let solutions = vec![stat("D", 1), stat("C", 1), stat("B", 4), stat("A", 4)];
    assert_eq!(
        plan_round(SelectionPolicy::SinglePick, &four_classes(), &solutions),
        vec![class("C", "c_fast", 3000)]
    );
    let several = SelectionPolicy::Baseline { cutoff_multiplier_percent: 150 };
    assert_eq!(
        plan_round(several, &four_classes(), &solutions),
        vec![class("C", "c_fast", 3000), class("D", "d_fast", 4000)]
    );
}

#[test]
fn plan_of_no_class_is_empty() {
    let policy = SelectionPolicy::Baseline { cutoff_multiplier_percent: 150 };
    assert_eq!(plan_round(policy, &Vec::new(), &vec![stat("A", 1)]), Vec::new());
}

#[test]
fn least_solved_class() {
    let map = default_algo_map();
    let solutions = vec![stat("c001", 5), stat("c002", 3), stat("c004", 3)];
    assert_eq!(
        determine_algorithms_to_run(&solutions, &map),
        Some(("knapsack".to_string(), 0, 22000))
    );
    let all = vec![stat("c001", 5), stat("c002", 3), stat("c003", 8), stat("c004", 3)];
    assert_eq!(
        determine_algorithms_to_run(&all, &map),
        Some(("vehicle_routing".to_string(), 3, 22000))
    );
    assert_eq!(
        determine_algorithms_to_run(&Vec::new(), &map),
        Some(("satisfiability".to_string(), 0, 22000))
    );
}

#[test]
fn least_solved_of_no_class() {
    assert_eq!(determine_algorithms_to_run(&vec![stat("c001", 5)], &Vec::new()), None);
}

#[test]
fn entries_named_like_the_class() {
    let selection = vec![
        choice("knapsack", "c003_a007"),
        choice("satisfiability", "c001_a001"),
        choice("knapsack", "c003_a019"),
    ];
    let least = Some(("knapsack".to_string(), 4, 9000));
    assert_eq!(
        generate_algo_map(&least, &selection),
        Some(vec![class("knapsack", "c003_a007", 9000), class("knapsack", "c003_a019", 9000)])
    );
    let other = Some(("vector_search".to_string(), 4, 9000));
    assert_eq!(generate_algo_map(&other, &selection), Some(Vec::new()));
    assert_eq!(generate_algo_map(&None, &selection), None);
}

#[test]
fn duration_follows_the_sizes() {
    let mut config: HashMap<String, String> = HashMap::new();
    let mut algo_map: HashMap<String, String> = HashMap::new();
    assert_eq!(calculate_duration(&config, &algo_map, 22000, 5000), 22000);
    config.insert("c001".to_string(), "c001_a001".to_string());
    assert_eq!(calculate_duration(&config, &algo_map, 22000, 5000), 5000);
    algo_map.insert("c002".to_string(), "c002_a001".to_string());
    assert_eq!(calculate_duration(&config, &algo_map, 22000, 5000), 22000);
    algo_map.insert("c003".to_string(), "c003_a001".to_string());
    assert_eq!(calculate_duration(&config, &algo_map, 22000, 5000), 5000);
}

#[test]
fn everything_runs_with_the_configured_durations() {
    let map = vec![class("c001", "satisfiability", 100), class("c002", "vehicle_routing", 200)];
    let selection = vec![choice("c002", "c002_a001"), choice("c001", "c001_a005")];
    assert_eq!(
        run_everything(&selection, &map),
        vec![class("c002", "c002_a001", 200), class("c001", "c001_a005", 100)]
    );
}

#[test]
fn selection_serves_the_least_solved_class() {
    let map = vec![class("sat", "sat", 100), class("knap", "knap", 200)];
    let selection = vec![choice("sat", "c001_a001"), choice("knap", "c003_a007")];
    let solutions = vec![stat("sat", 9), stat("knap", 4)];
    assert_eq!(
        select_algorithms_to_run(&solutions, &map, &selection),
        (vec![class("knap", "c003_a007", 200)], 4)
    );
}

#[test]
fn selection_falls_back_to_everything() {
    let map = default_algo_map();
    let selection = vec![choice("c001", "c001_a001"), choice("c004", "c004_a026")];
    let solutions = vec![stat("c001", 9), stat("c004", 4)];
    assert_eq!(
        select_algorithms_to_run(&solutions, &map, &selection),
        (vec![class("c001", "c001_a001", 22000), class("c004", "c004_a026", 22000)], 0)
    );
    assert_eq!(
        select_algorithms_to_run(&solutions, &Vec::new(), &Vec::new()),
        (Vec::new(), 0)
    );
}

#[test]
fn reports_of_a_class_add_up() {
    let entries = vec![
        ("c001".to_string(), 4),
        ("c002".to_string(), 1),
        ("c001".to_string(), 6),
        ("c004".to_string(), 0),
        ("c002".to_string(), 2),
    ];
    assert_eq!(
        tally_solutions(&entries),
        Some(vec![stat("c001", 10), stat("c002", 3), stat("c004", 0)])
    );
    assert_eq!(tally_solutions(&Vec::new()), Some(Vec::new()));
}

#[test]
fn reports_up_to_the_largest_count() {
    let entries = vec![("c001".to_string(), u32::MAX - 1), ("c001".to_string(), 1)];
    assert_eq!(tally_solutions(&entries), Some(vec![stat("c001", u32::MAX)]));
}

#[test]
fn reports_beyond_the_largest_count() {
    let entries = vec![
        ("c001".to_string(), u32::MAX - 1),
        ("c002".to_string(), 7),
        ("c001".to_string(), 2),
    ];
    assert_eq!(tally_solutions(&entries), None);
}

#[test]
fn configured_classes() {
    let map = default_algo_map();
    let known = vec![choice("c004", "c004_a026"), choice("c001", "c001_a001")];
    assert!(is_all_configured(&known, &map));
    assert!(is_all_configured(&Vec::new(), &map));
    assert!(is_all_configured(&Vec::new(), &Vec::new()));
    let unknown = vec![choice("c004", "c004_a026"), choice("c005", "c005_a001")];
    assert!(!is_all_configured(&unknown, &map));
    assert!(!is_all_configured(&known, &Vec::new()));
}

#[test]
fn qualifiers_are_added_to_their_class() {
    let mut solutions = vec![stat("c001", 5), stat("c002", 7)];
    add_qualifiers(&mut solutions, &"c002".to_string(), 3);
    assert_eq!(solutions, vec![stat("c001", 5), stat("c002", 10)]);
    add_qualifiers(&mut solutions, &"c003".to_string(), 8);
    assert_eq!(solutions, vec![stat("c001", 5), stat("c002", 10), stat("c003", 8)]);
    add_qualifiers(&mut solutions, &"c001".to_string(), 0);
    assert_eq!(solutions, vec![stat("c001", 5), stat("c002", 10), stat("c003", 8)]);
}

#[test]
fn tally_feeds_the_selection() {
    let entries = vec![
        ("c001".to_string(), 10),
        ("c002".to_string(), 4),
        ("c003".to_string(), 6),
        ("c004".to_string(), 1),
        ("c003".to_string(), 4),
        ("c002".to_string(), 6),
        ("c004".to_string(), 1),
    ];
    let solutions = tally_solutions(&entries).unwrap();
    let policy = SelectionPolicy::Baseline { cutoff_multiplier_percent: 150 };
    assert_eq!(
        plan_round(policy, &default_algo_map(), &solutions),
        vec![class("c004", "vector_search", 22000)]
    );
}
