use timetable_ga::algorithm::{
    calculate_fitness, create_first_population, crossover, mutate, rand_parents,
    sort_indices_by_fitness,
};
use timetable_ga::config::{AlgorithmConfig, ConfigError, MAX_SIZE, PROB_SCALE};
use timetable_ga::datatypes::{Chromosome, Individual, Tuple};
use timetable_ga::driver::evolve;
use timetable_ga::random::rng_from_seed;

fn tuple(id: u32, teacher: u32, room: u32) -> Tuple {
    Tuple { id, teacher, room }
}

fn count_gene(ind: &Individual, g: u32) -> usize {
    ind.chromosomes
        .iter()
        .map(|c| c.genes.iter().filter(|x| **x == g).count())
        .sum()
}

fn individual(gene_lists: Vec<Vec<u32>>) -> Individual {
    let chromosomes = gene_lists
        .into_iter()
        .enumerate()
        .map(|(id, genes)| Chromosome { id, genes })
        .collect();
    Individual { chromosomes, adaptation: 0 }
}

fn four_tuples() -> Vec<Tuple> {
    vec![
        tuple(1, 10, 100),
        tuple(2, 11, 101),
        tuple(3, 12, 102),
        tuple(4, 13, 103),
    ]
}

#[test]
fn config_check_accepts_valid() {
    let config = AlgorithmConfig {
        population_size: 10,
        number_of_periods: 5,
        mutation_probability: PROB_SCALE / 2,
    };
    assert_eq!(config.check(), Ok(()));
}

#[test]
fn config_check_rejects_zero_population() {
    let config = AlgorithmConfig {
        population_size: 0,
        number_of_periods: 5,
        mutation_probability: 0,
    };
    assert_eq!(config.check(), Err(ConfigError::NonPositivePopulation));
}

#[test]
fn config_check_rejects_zero_periods() {
    let config = AlgorithmConfig {
        population_size: 3,
        number_of_periods: 0,
        mutation_probability: 0,
    };
    assert_eq!(config.check(), Err(ConfigError::NonPositivePeriods));
}

#[test]
fn config_check_rejects_probability_above_one() {
    let config = AlgorithmConfig {
        population_size: 3,
        number_of_periods: 2,
        mutation_probability: PROB_SCALE + 1,
    };
    assert_eq!(config.check(), Err(ConfigError::ProbabilityOutOfRange));
}

#[test]
fn config_check_rejects_oversized() {
    let config = AlgorithmConfig {
        population_size: MAX_SIZE + 1,
        number_of_periods: 2,
        mutation_probability: 0,
    };
    assert_eq!(config.check(), Err(ConfigError::Oversized));
}

#[test]
fn initializer_covers_each_tuple_exactly_once() {
    let config = AlgorithmConfig {
        population_size: 5,
        number_of_periods: 4,
        mutation_probability: 0,
    };
    let tuples = four_tuples();
    let mut rng = rng_from_seed(42);
    let pop = create_first_population(&config, &tuples, &mut rng);
    assert_eq!(pop.len(), 5);
    for ind in &pop {
        assert_eq!(ind.chromosomes.len(), 4);
        for (k, c) in ind.chromosomes.iter().enumerate() {
            assert_eq!(c.id, k);
        }
        for t in &tuples {
            assert_eq!(count_gene(ind, t.id), 1);
        }
        assert_eq!(count_gene(ind, 77), 0);
    }
}

#[test]
fn initializer_deterministic_from_seed() {
    let config = AlgorithmConfig {
        population_size: 6,
        number_of_periods: 3,
        mutation_probability: 0,
    };
    let tuples = four_tuples();
    let mut rng_a = rng_from_seed(7);
    let mut rng_b = rng_from_seed(7);
    let pop_a = create_first_population(&config, &tuples, &mut rng_a);
    let pop_b = create_first_population(&config, &tuples, &mut rng_b);
    assert_eq!(pop_a, pop_b);
    let mut rng_c = rng_from_seed(8);
    let pop_c = create_first_population(&config, &tuples, &mut rng_c);
    assert_eq!(pop_c.len(), pop_a.len());
}

#[test]
fn crossover_deterministic_from_seed() {
    let config = AlgorithmConfig {
        population_size: 2,
        number_of_periods: 2,
        mutation_probability: 0,
    };
    let population = vec![
        individual(vec![vec![1, 2], vec![3, 4]]),
        individual(vec![vec![4, 3], vec![2, 1]]),
    ];
    let mut rng_a = rng_from_seed(99);
    let mut rng_b = rng_from_seed(99);
    let child_a = crossover(&config, &population, &mut rng_a);
    let child_b = crossover(&config, &population, &mut rng_b);
    assert_eq!(child_a, child_b);
}

#[test]
fn mutation_deterministic_from_seed() {
    let config = AlgorithmConfig {
        population_size: 2,
        number_of_periods: 3,
        mutation_probability: PROB_SCALE,
    };
    let mut ind_a = individual(vec![vec![1, 2], vec![3], vec![4]]);
    let mut ind_b = individual(vec![vec![1, 2], vec![3], vec![4]]);
    let mut rng_a = rng_from_seed(5);
    let mut rng_b = rng_from_seed(5);
    mutate(&config, &mut ind_a, &mut rng_a);
    mutate(&config, &mut ind_b, &mut rng_b);
    assert_eq!(ind_a, ind_b);
}

#[test]
fn mutation_noop_at_zero_probability() {
    let config = AlgorithmConfig {
        population_size: 2,
        number_of_periods: 3,
        mutation_probability: 0,
    };
    let mut ind = individual(vec![vec![1, 2], vec![3], vec![4]]);
    let before = ind.clone();
    let mut rng = rng_from_seed(1);
    mutate(&config, &mut ind, &mut rng);
    assert_eq!(ind, before);
}

#[test]
fn mutation_noop_with_single_period() {
    let config = AlgorithmConfig {
        population_size: 2,
        number_of_periods: 1,
        mutation_probability: PROB_SCALE,
    };
    let mut ind = individual(vec![vec![1, 2, 3, 4]]);
    let before = ind.clone();
    let mut rng = rng_from_seed(1);
    mutate(&config, &mut ind, &mut rng);
    assert_eq!(ind, before);
}

#[test]
fn mutation_relocates_without_loss() {
    let config = AlgorithmConfig {
        population_size: 2,
        number_of_periods: 4,
        mutation_probability: PROB_SCALE,
    };
    let mut ind = individual(vec![vec![1, 2], vec![3], vec![], vec![4]]);
    let mut rng = rng_from_seed(3);
    mutate(&config, &mut ind, &mut rng);
    assert_eq!(ind.chromosomes.len(), 4);
    for g in 1..=4u32 {
        assert_eq!(count_gene(&ind, g), 1);
    }
}

#[test]
fn fitness_zero_without_conflicts() {
    // two tuples under different teachers in different rooms share a period
    let tuples = vec![tuple(1, 1, 1), tuple(2, 2, 2)];
    let ind = individual(vec![vec![1, 2]]);
    assert_eq!(calculate_fitness(&ind, &tuples), 0);
}

#[test]
fn fitness_counts_teacher_double_booking_twice() {
    // one teacher holds two classes in one room at the same time
    let tuples = vec![tuple(1, 1, 1), tuple(2, 1, 1)];
    let ind = individual(vec![vec![1, 2]]);
    assert_eq!(calculate_fitness(&ind, &tuples), -20);
}

#[test]
fn fitness_counts_room_double_booking_twice() {
    // two teachers share one room at the same time
    let tuples = vec![tuple(1, 1, 1), tuple(2, 2, 1)];
    let ind = individual(vec![vec![1, 2]]);
    assert_eq!(calculate_fitness(&ind, &tuples), -40);
}

#[test]
fn fitness_separated_periods_are_conflict_free() {
    let tuples = vec![tuple(1, 1, 1), tuple(2, 1, 1)];
    let ind = individual(vec![vec![1], vec![2]]);
    assert_eq!(calculate_fitness(&ind, &tuples), 0);
}

#[test]
fn crossover_repairs_and_deduplicates() {
    let config = AlgorithmConfig {
        population_size: 2,
        number_of_periods: 2,
        mutation_probability: 0,
    };
    // both parents cover {1, 2, 3, 4}; recombination can lose and duplicate
    let population = vec![
        individual(vec![vec![1, 2], vec![3, 4]]),
        individual(vec![vec![2, 3], vec![4, 1]]),
    ];
    for seed in 0..20u64 {
        let mut rng = rng_from_seed(seed);
        let child = crossover(&config, &population, &mut rng);
        assert_eq!(child.chromosomes.len(), 2);
        assert_eq!(child.chromosomes[0].id, 0);
        assert_eq!(child.chromosomes[1].id, 1);
        for g in 1..=4u32 {
            assert_eq!(count_gene(&child, g), 1);
        }
        assert_eq!(count_gene(&child, 5), 0);
    }
}

#[test]
fn rand_parents_returns_two_distinct_members() {
    let mut population = vec![
        individual(vec![vec![1]]),
        individual(vec![vec![1]]),
        individual(vec![vec![1]]),
    ];
    population[0].adaptation = -30;
    population[1].adaptation = 0;
    population[2].adaptation = -10;
    for seed in 0..20u64 {
        let mut rng = rng_from_seed(seed);
        let (a, b) = rand_parents(&population, &mut rng);
        assert!(a < population.len());
        assert!(b < population.len());
        assert_ne!(a, b);
    }
}

#[test]
fn sort_indices_orders_by_descending_fitness() {
    let mut population = vec![
        individual(vec![vec![1]]),
        individual(vec![vec![1]]),
        individual(vec![vec![1]]),
    ];
    population[0].adaptation = -5;
    population[1].adaptation = 0;
    population[2].adaptation = -20;
    let perm = sort_indices_by_fitness(&population);
    assert_eq!(perm, vec![1, 0, 2]);
}

#[test]
fn evolve_returns_valid_scored_best() {
    let config = AlgorithmConfig {
        population_size: 6,
        number_of_periods: 2,
        mutation_probability: PROB_SCALE / 5,
    };
    let tuples = vec![tuple(1, 1, 1), tuple(2, 1, 1), tuple(3, 2, 2), tuple(4, 3, 2)];
    let mut rng = rng_from_seed(2024);
    let (best, fitness) = evolve(&config, &tuples, &mut rng, 50, 2);
    assert!(fitness <= 0);
    assert_eq!(fitness, calculate_fitness(&best, &tuples));
    assert_eq!(best.chromosomes.len(), 2);
    for t in &tuples {
        assert_eq!(count_gene(&best, t.id), 1);
    }
}
