use parameter_estimation::chromosome::{Chromosome, DEFAULT_MAGNITUDE, RATE_SCALE};
use parameter_estimation::error::GaError;
use parameter_estimation::ga::{Evaluator, GA};
use std::cmp::Ordering;

/// Cost is the first gene; every call is recorded.
struct FirstGene {
    seen: Vec<u64>,
}

impl Evaluator for FirstGene {
    fn evaluate(&mut self, values: &Vec<i64>) -> u64 {
        let f = values[0] as u64;
        self.seen.push(f);
        f
    }
}

/// Cost is the sum of the genes.
struct GeneSum;

impl Evaluator for GeneSum {
    fn evaluate(&mut self, values: &Vec<i64>) -> u64 {
        values.iter().map(|v| *v as u64).sum()
    }
}

fn with_fitness(values: Vec<i64>, fitness: u64) -> Chromosome {
    let mut c = Chromosome::new(values);
    c.fitness = fitness;
    c
}

fn engine(bounds: Vec<(i64, i64)>, minimize: bool, seed: u64) -> GA {
    GA::with_seed(1, RATE_SCALE / 2, RATE_SCALE / 2, bounds, minimize, seed)
}

#[test]
fn new_candidate_defaults() {
    let c = Chromosome::new(vec![3, 4]);
    assert_eq!(c.get_values(), vec![3, 4]);
    assert_eq!(c.fitness, 0);
    assert_eq!(c.mutation_percentage, DEFAULT_MAGNITUDE);
    assert_eq!(DEFAULT_MAGNITUDE, RATE_SCALE / 10);
    let e = Chromosome::new_empty();
    assert!(e.get_values().is_empty());
}

#[test]
fn crossover_keeps_length_and_splits() {
    let ga = GA::with_seed(1, 0, RATE_SCALE / 2, vec![(0, 100); 5], true, 1);
    let a = Chromosome::new(vec![1, 2, 3, 4, 5]);
    let b = Chromosome::new(vec![10, 20, 30, 40, 50]);
    let (c1, c2) = ga.crossover((&a, &b));
    // split = floor(0.5 * 5) = 2
    assert_eq!(c1.get_values(), vec![1, 2, 30, 40, 50]);
    assert_eq!(c2.get_values(), vec![10, 20, 3, 4, 5]);
    assert_eq!(c1.get_values().len(), a.get_values().len());
    assert_eq!(c2.get_values().len(), b.get_values().len());
    assert_eq!(c1.fitness, 0);
}

#[test]
fn crossover_at_full_rate_swaps_nothing() {
    let ga = GA::with_seed(1, 0, RATE_SCALE, vec![(0, 100); 3], true, 1);
    let a = Chromosome::new(vec![1, 2, 3]);
    let b = Chromosome::new(vec![7, 8, 9]);
    let (c1, c2) = ga.crossover((&a, &b));
    assert_eq!(c1.get_values(), vec![1, 2, 3]);
    assert_eq!(c2.get_values(), vec![7, 8, 9]);
}

#[test]
fn crossover_with_small_rate_takes_second_parent() {
    // split = floor(0.3 * 3) = 0
    let ga = GA::with_seed(1, 0, 300_000, vec![(0, 100); 3], true, 1);
    let a = Chromosome::new(vec![1, 2, 3]);
    let b = Chromosome::new(vec![7, 8, 9]);
    let (c1, c2) = ga.crossover((&a, &b));
    assert_eq!(c1.get_values(), vec![7, 8, 9]);
    assert_eq!(c2.get_values(), vec![1, 2, 3]);
}

#[test]
fn mutation_decision_exact_values() {
    let mut c = Chromosome::new(vec![50, -30, 7]);
    c.apply_mutation(0, 10, true, 20);
    assert_eq!(c.get_values(), vec![55, -30, 7]);
    c.apply_mutation(1, 10, true, 20);
    assert_eq!(c.get_values(), vec![55, -33, 7]);
    c.apply_mutation(1, 10, false, 20);
    // 10% of 33 rounds down to 3
    assert_eq!(c.get_values(), vec![55, -30, 7]);
    c.apply_mutation(2, 10, false, 20);
    assert_eq!(c.get_values(), vec![55, -30, 7]);
    // a draw at or above the rate changes nothing
    c.apply_mutation(0, 20, true, 20);
    assert_eq!(c.get_values(), vec![55, -30, 7]);
}

#[test]
fn mutation_changes_at_most_one_gene() {
    let mut rng_source = GA::with_seed(1, 0, 0, vec![(0, 1)], true, 42);
    for _ in 0..200 {
        let before = vec![1000, -2000, 3000, 4000];
        let mut c = Chromosome::new(before.clone());
        c.mutation(RATE_SCALE, &mut rng_source.rng);
        let after = c.get_values();
        let changed: Vec<usize> = (0..4).filter(|i| after[*i] != before[*i]).collect();
        assert_eq!(changed.len(), 1);
        let i = changed[0];
        assert_eq!((after[i] - before[i]).abs(), before[i].abs() / 10);
    }
}

#[test]
fn mutation_rate_zero_changes_nothing() {
    let mut g = GA::with_seed(1, 0, 0, vec![(0, 1)], true, 3);
    let mut c = Chromosome::new(vec![10, 20]);
    for _ in 0..50 {
        c.mutation(0, &mut g.rng);
    }
    assert_eq!(c.get_values(), vec![10, 20]);
}

// The validity filter rejects a candidate as soon as one gene lies outside
// its inclusive range; a gene never has to be below the lower bound and above
// the upper bound at once for the candidate to be dropped. Only positions
// that have both a gene and a bound are compared.
#[test]
fn validity_is_inclusive_per_position() {
    let ga = engine(vec![(0, 10), (-5, 5)], true, 1);
    assert!(ga.verify_if_valid(&Chromosome::new(vec![0, 5])));
    assert!(ga.verify_if_valid(&Chromosome::new(vec![10, -5])));
    assert!(!ga.verify_if_valid(&Chromosome::new(vec![11, 0])));
    assert!(!ga.verify_if_valid(&Chromosome::new(vec![3, -6])));
    assert!(ga.verify_if_valid(&Chromosome::new(vec![3])));
    assert!(!ga.verify_if_valid(&Chromosome::new(vec![11])));
    assert!(ga.verify_if_valid(&Chromosome::new(vec![])));
    assert!(ga.verify_if_valid(&Chromosome::new(vec![3, 0, 1000])));
}

#[test]
fn compare_orders_by_cost() {
    let a = with_fitness(vec![1], 3);
    let b = with_fitness(vec![2], 5);
    assert_eq!(GA::compare(&a, &b), Ordering::Less);
    assert_eq!(GA::compare(&b, &a), Ordering::Greater);
    assert_eq!(GA::compare(&a, &a), Ordering::Equal);
}

#[test]
fn random_population_within_bounds() {
    let mut ga = engine(vec![(0, 10), (-3, 3), (7, 7)], true, 9);
    assert_eq!(ga.generate_random_population(50, 3), Ok(()));
    assert_eq!(ga.population.len(), 50);
    for c in ga.population.iter() {
        assert!(ga.verify_if_valid(c));
        assert_eq!(c.get_values()[2], 7);
    }
    let distinct: std::collections::BTreeSet<i64> = ga.population.iter().map(|c| c.get_values()[0]).collect();
    assert!(distinct.len() > 1);
}

#[test]
fn random_population_rejects_bad_configuration() {
    let mut ga = engine(vec![(0, 10), (0, 10)], true, 9);
    assert_eq!(ga.generate_random_population(5, 3), Err(GaError::InvalidConfiguration));
    assert_eq!(ga.generate_random_population(0, 2), Err(GaError::InvalidConfiguration));
    assert!(ga.population.is_empty());
}

#[test]
fn roulette_exact_picks_maximizing() {
    let mut ga = engine(vec![(0, 100)], false, 1);
    for f in [1u64, 2, 3, 4] {
        ga.add_individual(with_fitness(vec![f as i64], f));
    }
    let total = ga.population_fitness();
    assert_eq!(total, 10);
    assert_eq!(ga.roulette_pick(total, (0, 1), 4, 4), (2, 3));
    // a zero first draw keeps the first fallback and scans the second from the start
    assert_eq!(ga.roulette_pick(total, (3, 1), 0, 2), (3, 1));
    // a second draw never reached keeps its fallback
    assert_eq!(ga.roulette_pick(total, (0, 1), 10, 5), (3, 1));
}

#[test]
fn roulette_exact_picks_minimizing() {
    let mut ga = engine(vec![(0, 100)], true, 1);
    for f in [1u64, 2, 3, 4] {
        ga.add_individual(with_fitness(vec![f as i64], f));
    }
    let total = ga.population_fitness();
    // weights 9, 8, 7, 6
    assert_eq!(ga.roulette_pick(total, (3, 3), 4, 10), (0, 2));
    assert_eq!(ga.roulette_pick(total, (3, 1), 9, 8), (0, 1));
}

#[test]
fn roulette_selection_stays_in_range() {
    let mut ga = engine(vec![(0, 100)], true, 5);
    for f in [0u64, 7, 0, 3, 100, 2] {
        ga.add_individual(with_fitness(vec![1], f));
    }
    for _ in 0..500 {
        let (a, b) = ga.select_parents();
        assert!(a < 6 && b < 6);
    }
}

#[test]
fn roulette_with_zero_costs_uses_distinct_fallbacks() {
    let mut ga = engine(vec![(0, 100)], false, 5);
    for _ in 0..3 {
        ga.add_individual(with_fitness(vec![1], 0));
    }
    for _ in 0..100 {
        let (a, b) = ga.select_parents();
        assert!(a != b && a < 3 && b < 3);
    }
}

#[test]
fn rank_sorts_and_best_reads_the_right_end() {
    for minimize in [true, false] {
        let mut ga = engine(vec![(0, 100)], minimize, 1);
        for f in [5u64, 1, 9, 3, 3] {
            ga.add_individual(with_fitness(vec![f as i64], f));
        }
        ga.rank();
        let costs: Vec<u64> = ga.population.iter().map(|c| c.fitness).collect();
        assert_eq!(costs, vec![1, 3, 3, 5, 9]);
        let best = ga.best().unwrap();
        assert_eq!(best.fitness, if minimize { 1 } else { 9 });
    }
}

#[test]
fn best_of_empty_population_fails() {
    let ga = engine(vec![(0, 100)], true, 1);
    assert_eq!(ga.best().err(), Some(GaError::EmptyPopulation));
}

#[test]
fn trim_drops_weakest_end() {
    let mut ga = engine(vec![(0, 100)], true, 1);
    for f in [1u64, 2, 3, 4, 5] {
        ga.add_individual(with_fitness(vec![f as i64], f));
    }
    ga.trim(3);
    let costs: Vec<u64> = ga.population.iter().map(|c| c.fitness).collect();
    assert_eq!(costs, vec![1, 2, 3]);

    let mut ga = engine(vec![(0, 100)], false, 1);
    for f in [1u64, 2, 3, 4, 5] {
        ga.add_individual(with_fitness(vec![f as i64], f));
    }
    ga.trim(3);
    let costs: Vec<u64> = ga.population.iter().map(|c| c.fitness).collect();
    assert_eq!(costs, vec![3, 4, 5]);
    ga.trim(10);
    assert_eq!(ga.population.len(), 3);
}

#[test]
fn best_index_without_ranking() {
    let mut ga = engine(vec![(0, 100)], true, 1);
    for f in [5u64, 1, 9, 1] {
        ga.add_individual(with_fitness(vec![f as i64], f));
    }
    assert_eq!(ga.best_index(), 1);
    ga.minimization = false;
    assert_eq!(ga.best_index(), 2);
}

#[test]
fn breeding_adds_two_children_per_fifth() {
    let mut ga = engine(vec![(0, 10), (0, 10)], true, 11);
    ga.generate_random_population(11, 2).unwrap();
    let mut eval = GeneSum;
    let count = ga.breed(&mut eval);
    assert_eq!(count, 4);
    assert_eq!(ga.population.len(), 15);
    for c in ga.population[11..].iter() {
        assert_eq!(c.fitness, c.get_values().iter().map(|v| *v as u64).sum::<u64>());
        assert!(ga.verify_if_valid(c));
    }
}

#[test]
fn filter_drops_invalid_candidates() {
    let mut ga = GA::with_seed(1, 0, RATE_SCALE / 2, vec![(0, 10)], true, 1);
    ga.add_individual(Chromosome::new(vec![5]));
    ga.add_individual(Chromosome::new(vec![50]));
    ga.add_individual(Chromosome::new(vec![-1]));
    ga.add_individual(Chromosome::new(vec![10]));
    let mut eval = GeneSum;
    ga.mutate_and_filter(&mut eval);
    let kept: Vec<Vec<i64>> = ga.population.iter().map(|c| c.get_values()).collect();
    assert_eq!(kept, vec![vec![5], vec![10]]);
    assert_eq!(ga.population[1].fitness, 10);
}

#[test]
fn size_holds_across_generations() {
    let mut ga = GA::with_seed(25, 0, RATE_SCALE / 2, vec![(0, 1000), (0, 1000)], true, 21);
    ga.generate_random_population(20, 2).unwrap();
    let mut eval = GeneSum;
    let best = ga.optimize(&mut eval).unwrap();
    assert_eq!(ga.population.len(), 20);
    assert_eq!(ga.history.len(), 25);
    assert_eq!(ga.history[24].fitness, best.fitness);
    for w in ga.population.windows(2) {
        assert!(w[0].fitness <= w[1].fitness);
    }
}

#[test]
fn size_never_exceeds_target_with_mutation() {
    let mut ga = GA::with_seed(10, RATE_SCALE, RATE_SCALE / 2, vec![(0, 1000)], false, 4);
    ga.generate_random_population(10, 1).unwrap();
    let mut eval = GeneSum;
    if ga.optimize(&mut eval).is_ok() {
        assert!(ga.population.len() <= 10 && !ga.population.is_empty());
    }
}

#[test]
fn zero_generations_returns_initial_best() {
    let mut ga = GA::with_seed(0, RATE_SCALE, RATE_SCALE / 2, vec![(0, 100)], true, 2);
    for v in [40i64, 7, 90, 12] {
        ga.add_individual(Chromosome::new(vec![v]));
    }
    let mut eval = FirstGene { seen: vec![] };
    let best = ga.optimize(&mut eval).unwrap();
    assert_eq!(best.get_values(), vec![7]);
    assert_eq!(best.fitness, 7);
    assert_eq!(eval.seen, vec![40, 7, 90, 12]);
    let values: Vec<Vec<i64>> = ga.population.iter().map(|c| c.get_values()).collect();
    assert_eq!(values, vec![vec![40], vec![7], vec![90], vec![12]]);
    assert!(ga.history.is_empty());
}

#[test]
fn zero_generations_maximizing() {
    let mut ga = GA::with_seed(0, 0, RATE_SCALE / 2, vec![(0, 100)], false, 2);
    for v in [40i64, 7, 90, 12] {
        ga.add_individual(Chromosome::new(vec![v]));
    }
    let mut eval = FirstGene { seen: vec![] };
    assert_eq!(ga.optimize(&mut eval).unwrap().fitness, 90);
}

#[test]
fn zero_generations_with_no_population_is_invalid() {
    let mut ga = GA::with_seed(0, 0, RATE_SCALE / 2, vec![(0, 100)], true, 2);
    let mut eval = GeneSum;
    assert_eq!(ga.optimize(&mut eval).err(), Some(GaError::InvalidConfiguration));
}

#[test]
fn generations_on_empty_population_fail() {
    let mut ga = GA::with_seed(3, 0, RATE_SCALE / 2, vec![(0, 100)], true, 2);
    let mut eval = GeneSum;
    assert_eq!(ga.optimize(&mut eval).err(), Some(GaError::EmptyPopulation));
}

#[test]
fn everything_filtered_is_empty_population() {
    let mut ga = GA::with_seed(2, 0, RATE_SCALE / 2, vec![(0, 10)], true, 2);
    ga.add_individual(Chromosome::new(vec![20]));
    ga.add_individual(Chromosome::new(vec![30]));
    let mut eval = GeneSum;
    assert_eq!(ga.optimize(&mut eval).err(), Some(GaError::EmptyPopulation));
    assert!(ga.population.is_empty());
}

#[test]
fn end_to_end_single_generation_seeded() {
    let mut ga = GA::with_seed(1, 0, RATE_SCALE / 2, vec![(0, 10)], true, 2024);
    ga.generate_random_population(4, 1).unwrap();
    let initial: Vec<i64> = ga.population.iter().map(|c| c.get_values()[0]).collect();
    let mut eval = FirstGene { seen: vec![] };
    let best = ga.optimize(&mut eval).unwrap();
    for v in initial.iter() {
        assert!(best.fitness <= *v as u64);
    }
    for f in eval.seen.iter() {
        assert!(best.fitness <= *f);
    }
    assert_eq!(ga.population.len(), 4);
    assert_eq!(ga.history.len(), 1);

    let mut again = GA::with_seed(1, 0, RATE_SCALE / 2, vec![(0, 10)], true, 2024);
    again.generate_random_population(4, 1).unwrap();
    let mut eval2 = FirstGene { seen: vec![] };
    assert_eq!(again.optimize(&mut eval2).unwrap().get_values(), best.get_values());
}

#[test]
fn end_to_end_with_breeding_keeps_the_best_seen() {
    let mut ga = GA::with_seed(1, 0, RATE_SCALE / 2, vec![(0, 10), (0, 10)], true, 77);
    ga.generate_random_population(10, 2).unwrap();
    let mut eval = FirstGene { seen: vec![] };
    let best = ga.optimize(&mut eval).unwrap();
    assert_eq!(eval.seen.len(), 10 + 4 + 14);
    assert_eq!(best.fitness, *eval.seen.iter().min().unwrap());
}

#[test]
fn evaluate_all_scores_each_candidate_in_order() {
    let mut ga = engine(vec![(0, 100), (0, 100)], true, 1);
    ga.add_individual(Chromosome::new(vec![1, 2]));
    ga.add_individual(Chromosome::new(vec![30, 4]));
    let mut eval = GeneSum;
    let scores = ga.evaluate_all(&mut eval);
    assert_eq!(scores, vec![3, 34]);
    assert_eq!(ga.population[0].fitness, 3);
    assert_eq!(ga.population[1].fitness, 34);
    assert_eq!(ga.population[1].get_values(), vec![30, 4]);
}

#[test]
fn full_rate_mutation_always_changes_one_gene() {
    let mut g = GA::with_seed(1, 0, 0, vec![(0, 1)], true, 8);
    for _ in 0..100 {
        let mut c = Chromosome::new(vec![100, 200]);
        c.mutation(RATE_SCALE, &mut g.rng);
        assert_ne!(c.get_values(), vec![100, 200]);
    }
}

#[test]
fn history_records_each_generation_best() {
    let mut ga = GA::with_seed(6, RATE_SCALE / 2, RATE_SCALE / 2, vec![(0, 1000), (0, 1000)], true, 31);
    ga.generate_random_population(10, 2).unwrap();
    let mut eval = GeneSum;
    let best = ga.optimize(&mut eval).unwrap();
    assert_eq!(ga.history.len(), 6);
    assert_eq!(ga.history[5].get_values(), best.get_values());
    assert_eq!(ga.population[0].get_values(), best.get_values());
    for c in ga.history.iter() {
        assert_eq!(c.fitness, c.get_values().iter().map(|v| *v as u64).sum::<u64>());
    }
}

#[test]
fn no_children_no_mutation_keeps_initial_candidates() {
    let mut ga = GA::with_seed(1, 0, RATE_SCALE / 2, vec![(0, 10)], true, 2);
    for v in [3i64, 7, 1, 9] {
        ga.add_individual(Chromosome::new(vec![v]));
    }
    let mut eval = FirstGene { seen: vec![] };
    let best = ga.optimize(&mut eval).unwrap();
    assert_eq!(best.get_values(), vec![1]);
    assert_eq!(best.fitness, 1);
    let values: Vec<Vec<i64>> = ga.population.iter().map(|c| c.get_values()).collect();
    assert_eq!(values, vec![vec![1], vec![3], vec![7], vec![9]]);
    let costs: Vec<u64> = ga.population.iter().map(|c| c.fitness).collect();
    assert_eq!(costs, vec![1, 3, 7, 9]);
}
