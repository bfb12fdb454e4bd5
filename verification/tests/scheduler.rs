use prompt_fuzz::energy::{COVERAGE_SCALE, Energy, Seed};
use prompt_fuzz::schedule::Schedule;

fn seed_with_energy(name: &str, num: u64, den: u64) -> Seed {
    Seed {
        name: name.to_string(),
        coverage: 0,
        exec_count: 0,
        prompt_count: 0,
        energy: Energy { num, den },
    }
}

fn two_entry_schedule() -> Schedule {
    Schedule {
        seeds: vec![seed_with_energy("hot", 1, 1), seed_with_energy("cold", 0, 1)],
        exponent: 1,
        catalog: vec!["hot".to_string(), "cold".to_string()],
        exec_counter: vec![],
        prompt_counter: vec![],
    }
}

#[test]
fn compute_energy_full_uncovered_unit_counters() {
    // coverage 0, exec 0, prompt 0, exponent 1: energy is 1.0 exactly,
    // as the rational COVERAGE_SCALE / COVERAGE_SCALE.
    let mut seed = Seed::new("a", 0, 0, 0, 1);
    let e = seed.compute_energy(1);
    assert_eq!(e.num, COVERAGE_SCALE);
    assert_eq!(e.den, COVERAGE_SCALE);
}

#[test]
fn compute_energy_formula_values() {
    // coverage 0.5, exec 1, prompt 0, exponent 1:
    // (1 - 0.5) / ((1+1)*(1+0))^1 = 0.25 as 500000 / 2000000.
    let seed = Seed::new("a", 500_000, 1, 0, 1);
    assert_eq!(seed.energy.num, 500_000);
    assert_eq!(seed.energy.den, 2_000_000);
    // exponent 2 squares the denominator base: ((1+1)*(1+1))^2 = 16.
    let seed = Seed::new("b", 0, 1, 1, 2);
    assert_eq!(seed.energy.num, 1_000_000);
    assert_eq!(seed.energy.den, 16_000_000);
    // exponent 0 leaves only the coverage fraction.
    let seed = Seed::new("c", 250_000, 9, 9, 0);
    assert_eq!(seed.energy.num, 750_000);
    assert_eq!(seed.energy.den, 1_000_000);
}

#[test]
fn compute_energy_decreases_with_counters() {
    // Strictly decreasing in exec_count and prompt_count, other inputs
    // fixed (coverage under 1, exponent 1): compare as exact rationals
    // a/b < c/d by cross multiplication.
    let low = Seed::new("a", 100_000, 5, 2, 1).energy;
    let high = Seed::new("a", 100_000, 4, 2, 1).energy;
    assert!((low.num as u128) * (high.den as u128) < (high.num as u128) * (low.den as u128));
    let low = Seed::new("a", 100_000, 4, 3, 1).energy;
    assert!((low.num as u128) * (high.den as u128) < (high.num as u128) * (low.den as u128));
}

#[test]
fn new_for_api_mode_base_energy() {
    let seed = Seed::new_for_api_mode("api");
    assert_eq!(seed.energy, Energy { num: 1, den: 1 });
    assert_eq!(seed.exec_count, 0);
    assert_eq!(seed.prompt_count, 0);
}

#[test]
fn zero_energy_entry_is_never_drawn() {
    // Over a 2-entry scheduler with energies {1.0, 0.0}, the weighted
    // draw never returns the zero-energy entry.
    let schedule = two_entry_schedule();
    for _ in 0..200 {
        let name = schedule.choose_api_by_energy();
        assert_eq!(name, "hot");
    }
}

#[test]
fn all_zero_energies_fall_back_to_uniform() {
    let schedule = Schedule {
        seeds: vec![seed_with_energy("a", 0, 1), seed_with_energy("b", 0, 1)],
        exponent: 1,
        catalog: vec![],
        exec_counter: vec![],
        prompt_counter: vec![],
    };
    for _ in 0..50 {
        let name = schedule.choose_api_by_energy();
        assert!(name == "a" || name == "b");
    }
}

#[test]
fn assemble_returns_distinct_names_of_full_length() {
    let names = ["w", "x", "y", "z", "v"];
    let seeds: Vec<Seed> = names.iter().map(|n| seed_with_energy(n, 1, 1)).collect();
    let schedule = Schedule {
        seeds,
        exponent: 1,
        catalog: names.iter().map(|n| n.to_string()).collect(),
        exec_counter: vec![],
        prompt_counter: vec![],
    };
    for len in 0..=5usize {
        let comb = schedule.assemble_high_energy_combiantion(len);
        assert_eq!(comb.len(), len);
        for i in 0..comb.len() {
            assert!(names.contains(&comb[i].as_str()));
            for j in 0..i {
                assert_ne!(comb[i], comb[j]);
            }
        }
    }
}

#[test]
fn should_shuffle_cases() {
    let schedule = two_entry_schedule();
    assert_eq!(schedule.should_shuffle(0, 5), false);
    assert_eq!(schedule.should_shuffle(0, 10), true);
    assert_eq!(schedule.should_shuffle(1, 20), true);
    assert_eq!(schedule.should_shuffle(5, 20), false);
    assert_eq!(schedule.should_shuffle(2, 20), false);
    assert_eq!(schedule.should_shuffle(1, 11), true);
}

#[test]
fn should_delete_extremes() {
    let schedule = two_entry_schedule();
    assert!(!schedule.should_delete(0));
    assert!(schedule.should_delete(COVERAGE_SCALE as u32));
}

#[test]
fn update_energies_rebuilds_from_counters() {
    let mut schedule = Schedule {
        seeds: vec![],
        exponent: 1,
        catalog: vec!["f".to_string(), "g".to_string()],
        exec_counter: vec![("f".to_string(), 1)],
        prompt_counter: vec![("g".to_string(), 3)],
    };
    let coverage = vec![("f".to_string(), 0u32), ("g".to_string(), 200_000u32)];
    schedule.update_energies(&coverage);
    assert_eq!(schedule.seeds.len(), 2);
    // f: coverage 0, exec 1, prompt 0 -> 1000000 / (1000000 * 2).
    assert_eq!(schedule.seeds[0].name, "f");
    assert_eq!(schedule.seeds[0].energy, Energy { num: 1_000_000, den: 2_000_000 });
    // g: coverage 0.2, exec 0, prompt 3 -> 800000 / (1000000 * 4).
    assert_eq!(schedule.seeds[1].name, "g");
    assert_eq!(schedule.seeds[1].energy, Energy { num: 800_000, den: 4_000_000 });
}

#[test]
fn update_energies_from_api_pairs_reinforces_both_members() {
    let mut schedule = two_entry_schedule();
    schedule.initialize_energies_for_api_mode();
    assert_eq!(schedule.seeds.len(), 2);
    assert_eq!(schedule.seeds[0].energy, Energy { num: 1, den: 1 });
    let pairs = vec![
        ("hot".to_string(), "cold".to_string()),
        ("cold".to_string(), "unknown".to_string()),
    ];
    schedule.update_energies_from_api_pairs(&pairs);
    // hot gains 1 as a caller; cold gains 1 as callee and 1 as caller.
    assert_eq!(schedule.seeds[0].energy, Energy { num: 2, den: 1 });
    assert_eq!(schedule.seeds[1].energy, Energy { num: 3, den: 1 });
    // an empty set is a no-op.
    schedule.update_energies_from_api_pairs(&vec![]);
    assert_eq!(schedule.seeds[0].energy, Energy { num: 2, den: 1 });
}

#[test]
fn get_seed_by_name_finds_first_match() {
    let schedule = two_entry_schedule();
    let seed = schedule.get_seed_by_name("cold").expect("cold is scheduled");
    assert_eq!(seed.name, "cold");
    assert!(schedule.get_seed_by_name("missing").is_none());
}

#[test]
fn choose_low_energy_api_stays_in_bounds() {
    let schedule = two_entry_schedule();
    let comb = vec!["hot".to_string(), "cold".to_string()];
    for _ in 0..50 {
        let idx = schedule.choose_low_energy_api(&comb);
        assert!(idx < comb.len());
    }
}

#[test]
fn deterministic_mutation_never_fires_on_an_empty_corpus() {
    for _ in 0..50 {
        assert!(!prompt_fuzz::schedule::should_deterministic_mutate(0));
    }
}

#[test]
fn random_draw_helpers_stay_in_range() {
    for _ in 0..50 {
        let i = prompt_fuzz::random::uniform_index(3);
        assert!(i < 3);
        let len = prompt_fuzz::random::rand_comb_len(5);
        assert!((1..=5).contains(&len));
    }
    assert!(!prompt_fuzz::random::prob_coin(0));
    assert!(prompt_fuzz::random::prob_coin(1_000_000));
}

#[test]
fn weighted_choose_picks_a_positive_weight() {
    let weights = vec![0u64, 0, 7, 0];
    for _ in 0..50 {
        let i = prompt_fuzz::random::weighted_choose(&weights);
        assert_eq!(i, 2);
    }
    let zeroes = vec![0u64, 0];
    for _ in 0..20 {
        assert!(prompt_fuzz::random::weighted_choose(&zeroes) < 2);
    }
}

#[test]
fn update_prompt_for_api_mode_installs_a_fresh_combination() {
    let names = ["a", "b", "c", "d", "e", "f"];
    let mut schedule = Schedule::new(names.iter().map(|s| s.to_string()).collect());
    schedule.initialize_energies_for_api_mode();
    let mut prompt = prompt_fuzz::prompt::Prompt::from_combination(vec![]);
    schedule.update_prompt_for_api_mode(&mut prompt);
    let len = prompt.combination_len();
    assert!((1..=5).contains(&len));
    for i in 0..prompt.combination.len() {
        for j in 0..i {
            assert_ne!(prompt.combination[i], prompt.combination[j]);
        }
    }
}

#[test]
fn rand_choose_combination_is_distinct() {
    let catalog: Vec<String> = ["a", "b", "c", "d"].iter().map(|s| s.to_string()).collect();
    let comb = prompt_fuzz::schedule::rand_choose_combination(&catalog, 3);
    assert_eq!(comb.len(), 3);
    for i in 0..comb.len() {
        for j in 0..i {
            assert_ne!(comb[i], comb[j]);
        }
    }
}
