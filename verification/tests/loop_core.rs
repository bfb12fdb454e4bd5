use prompt_fuzz::config::GenerationModeP;
use prompt_fuzz::fuzzer::{Fuzzer, Program, RoundCounter, extract_function_calls, split_checked_programs};
use prompt_fuzz::pairs::{DiscoveredPairSet, extract_2gram_pairs};
use prompt_fuzz::schedule::Schedule;

fn api_fuzzer(catalog: &[&str]) -> Fuzzer {
    let mut schedule = Schedule::new(catalog.iter().map(|s| s.to_string()).collect());
    schedule.initialize_energies_for_api_mode();
    Fuzzer::new(schedule, GenerationModeP::ApiCombination, 1, 10, false, false)
}

#[test]
fn pair_set_insertion_is_idempotent() {
    let mut set = DiscoveredPairSet::new();
    assert_eq!(set.len(), 0);
    let first = set.insert(("a".to_string(), "b".to_string()));
    assert!(first);
    assert_eq!(set.len(), 1);
    let second = set.insert(("a".to_string(), "b".to_string()));
    assert!(!second);
    assert_eq!(set.len(), 1);
    assert!(set.contains("a", "b"));
    assert!(!set.contains("b", "a"));
    assert!(set.insert(("b".to_string(), "a".to_string())));
    assert_eq!(set.len(), 2);
}

#[test]
fn two_grams_follow_program_order() {
    let calls: Vec<String> = ["open", "read", "close"].iter().map(|s| s.to_string()).collect();
    let pairs = extract_2gram_pairs(&calls);
    assert_eq!(
        pairs,
        vec![
            ("open".to_string(), "read".to_string()),
            ("read".to_string(), "close".to_string()),
        ]
    );
    assert_eq!(extract_2gram_pairs(&vec!["solo".to_string()]), vec![]);
    assert_eq!(extract_2gram_pairs(&vec![]), vec![]);
}

#[test]
fn call_extraction_parses_cpp() {
    let source = "int test() {\n  alpha();\n  beta(1, 2);\n  return gamma();\n}\n";
    let calls = extract_function_calls(source);
    assert_eq!(calls, vec!["alpha", "beta", "gamma"]);
}

#[test]
fn absorb_api_programs_collects_novel_pairs_once() {
    let mut fuzzer = api_fuzzer(&["alpha", "beta", "gamma"]);
    let programs = vec![
        Program::new(0, "void f() { alpha(); beta(); }".to_string()),
        Program::new(1, "void g() { alpha(); beta(); gamma(); }".to_string()),
    ];
    let novel = fuzzer.absorb_api_programs(&programs);
    // (alpha, beta) appears in both programs but is novel only once.
    assert_eq!(
        novel,
        vec![
            ("alpha".to_string(), "beta".to_string()),
            ("beta".to_string(), "gamma".to_string()),
        ]
    );
    assert_eq!(fuzzer.discovered_pairs.len(), 2);
    // both members of each novel pair gained energy.
    let alpha = fuzzer.schedule.get_seed_by_name("alpha").unwrap();
    assert_eq!(alpha.energy.num, 2);
    let beta = fuzzer.schedule.get_seed_by_name("beta").unwrap();
    assert_eq!(beta.energy.num, 3);
    // a second absorption of the same programs discovers nothing new.
    let programs2 = vec![Program::new(2, "void h() { alpha(); beta(); }".to_string())];
    let novel2 = fuzzer.absorb_api_programs(&programs2);
    assert_eq!(novel2, vec![]);
    assert_eq!(fuzzer.discovered_pairs.len(), 2);
}

#[test]
fn split_checked_programs_partitions_in_order() {
    let programs = vec![
        Program::new(0, "a".to_string()),
        Program::new(1, "b".to_string()),
        Program::new(2, "c".to_string()),
    ];
    let results = vec![None, Some("boom".to_string()), None];
    let (succ, rej) = split_checked_programs(programs, results);
    assert_eq!(succ.len(), 2);
    assert_eq!(succ[0].id, 0);
    assert_eq!(succ[1].id, 2);
    assert_eq!(rej.len(), 1);
    assert_eq!(rej[0].0.id, 1);
    assert_eq!(rej[0].1, "boom");
}

#[test]
fn ids_are_assigned_monotonically_from_zero() {
    let mut fuzzer = api_fuzzer(&["alpha"]);
    let batch1 = fuzzer.assign_ids(vec![
        Program::new(99, "x".to_string()),
        Program::new(99, "y".to_string()),
    ]);
    assert_eq!(batch1[0].id, 0);
    assert_eq!(batch1[1].id, 1);
    let batch2 = fuzzer.assign_ids(vec![Program::new(99, "z".to_string())]);
    assert_eq!(batch2[0].id, 2);
    assert_eq!(fuzzer.seed_id, 3);
}

#[test]
fn convergence_and_recheck_thresholds() {
    let mut fuzzer = api_fuzzer(&["alpha"]);
    assert!(!fuzzer.is_converge());
    assert!(fuzzer.is_stuck(0));
    assert!(!fuzzer.is_stuck(2));
    for _ in 0..4 {
        fuzzer.record_round_signal(false, false);
    }
    assert_eq!(fuzzer.quiet_round, 4);
    assert!(!fuzzer.should_recheck());
    fuzzer.record_round_signal(false, false);
    assert_eq!(fuzzer.quiet_round, 5);
    // at half the converge threshold, recheck is due only when enabled.
    assert!(!fuzzer.should_recheck());
    let mut rechecking = Fuzzer::new(
        Schedule::new(vec![]),
        GenerationModeP::FuzzDriver,
        1,
        10,
        true,
        false,
    );
    rechecking.quiet_round = 5;
    assert!(rechecking.should_recheck());
    // a stuck round leaves the counter, a new signal clears it.
    fuzzer.record_round_signal(false, true);
    assert_eq!(fuzzer.quiet_round, 5);
    fuzzer.record_round_signal(true, false);
    assert_eq!(fuzzer.quiet_round, 0);
    for _ in 0..10 {
        fuzzer.record_round_signal(false, false);
    }
    assert!(fuzzer.is_converge());
    fuzzer.reset_quiet_round();
    assert_eq!(fuzzer.quiet_round, 0);
}

#[test]
fn round_counter_tracks_rates() {
    let mut counter = RoundCounter::new();
    counter.log_succ();
    counter.log_err();
    counter.log_err();
    assert_eq!(counter.get_rc_succ(), 1);
    assert_eq!(counter.get_rc_total(), 3);
    assert_eq!(counter.get_gc_total(), 3);
    counter.reset_round();
    assert_eq!(counter.get_rc_succ(), 0);
    assert_eq!(counter.get_rc_total(), 0);
    assert_eq!(counter.get_gc_total(), 3);
}

#[test]
fn quiet_round_restores_from_log_text() {
    let mut fuzzer = api_fuzzer(&["alpha"]);
    fuzzer.quiet_round = 99;
    fuzzer.sync_quiet_round("[Mutate Loop]: loop: 12, quiet_round: 7, coverage: 1234");
    assert_eq!(fuzzer.quiet_round, 7);
    // without the round-summary marker the counter is untouched.
    fuzzer.quiet_round = 99;
    fuzzer.sync_quiet_round("quiet_round: 3");
    assert_eq!(fuzzer.quiet_round, 99);
    // the key must follow the marker.
    fuzzer.sync_quiet_round("noise [Mutate Loop]: loop: 1, quiet_round:42");
    assert_eq!(fuzzer.quiet_round, 42);
    // a key without digits changes nothing.
    fuzzer.sync_quiet_round("[Mutate Loop]: loop: quiet_round: none");
    assert_eq!(fuzzer.quiet_round, 42);
}

#[test]
fn seed_metas_records_durations() {
    let mut metas = prompt_fuzz::seed_metas::SeedMetas::new(1_000);
    assert!(metas.add("seeds/id_000000.cc", 1_500, Some(120_000)).is_ok());
    assert!(metas.add("seeds/id_000001.cc", 2_250, None).is_ok());
    assert_eq!(metas.len(), 2);
    assert_eq!(metas.seed_metas[0].duration_since_start_millis, 500);
    assert_eq!(metas.seed_metas[1].duration_since_start_millis, 1_250);
    let rows = metas.seed_metas;
    let loaded = prompt_fuzz::seed_metas::SeedMetas::from_rows(rows);
    let mut loaded = loaded;
    assert!(loaded.add("late.cc", 9_999, None).is_err());
    assert_eq!(loaded.len(), 2);
}
