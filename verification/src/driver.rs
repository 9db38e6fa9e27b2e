use vstd::prelude::*;
use crate::config::AlgorithmConfig;
use crate::datatypes::{Tuple, Individual, Population};
use crate::datatypes::{
    genes_ms, ids_of, wf_tuples, period_layout, valid_individual, uniform_population,
};
use crate::algorithm::{
    create_first_population, crossover, mutate, calculate_fitness, sort_indices_by_fitness,
    fitness_of, lemma_valid_scorable,
};

verus! {

broadcast use vstd::seq_lib::group_to_multiset_ensures;

/// Every member of the population is a valid timetable carrying its own
/// correct fitness score.
pub open spec fn scored_population(
    pop: Seq<Individual>,
    tuples: Seq<Tuple>,
    periods: nat,
) -> bool {
    forall|i: int|
        0 <= i < pop.len() ==> valid_individual(#[trigger] pop[i], tuples, periods) && pop[i].adaptation
            == fitness_of(pop[i]@, tuples)
}

/// The position of a fittest member of a scored population.
pub fn best_index(pop: &Population) -> (b: usize)
    requires
        pop@.len() >= 1,
    ensures
        b < pop@.len(),
        forall|i: int| 0 <= i < pop@.len() ==> (#[trigger] pop@[i]).adaptation <= pop@[b as int].adaptation,
{
    let mut b: usize = 0;
    let mut i: usize = 1;
    while i < pop.len()
        invariant
            b < i <= pop@.len(),
            forall|j: int| 0 <= j < i ==> (#[trigger] pop@[j]).adaptation <= pop@[b as int].adaptation,
        decreases pop@.len() - i,
    {
        if pop[i].adaptation > pop[b].adaptation {
            b = i;
        }
        i += 1;
    }
    b
}

/// The generational driver: builds and scores a first population, then
/// evolves it generation by generation — the `elite_count` fittest
/// members survive unchanged, the rest of the next generation are
/// selection+crossover children, each mutated and scored — until the
/// generation budget is spent or a conflict-free timetable (fitness 0)
/// appears. Returns a fittest timetable of the final generation and its
/// score; the result always covers the tuple-id set exactly once
/// (invariant I1) and its score is the returned timetable's true fitness.
pub fn evolve(
    config: &AlgorithmConfig,
    tuples: &Vec<Tuple>,
    rng: &mut rand::rngs::StdRng,
    max_generations: usize,
    elite_count: usize,
) -> (r: (Individual, i64))
    requires
        config.valid(),
        config.population_size >= 2,
        wf_tuples(tuples@),
        tuples@.len() <= crate::config::MAX_SIZE,
        1 <= elite_count <= config.population_size,
    ensures
        valid_individual(r.0, tuples@, config.number_of_periods as nat),
        r.1 == fitness_of(r.0@, tuples@),
        r.1 <= 0,
{
    let ghost genome = ids_of(tuples@).to_multiset();
    let population_size = config.population_size;
    let periods = config.number_of_periods;

    // Initializing: build and score the first generation
    let initial = create_first_population(config, tuples, rng);
    let mut pop: Population = Vec::new();
    let mut i: usize = 0;
    while i < initial.len()
        invariant
            i <= initial@.len(),
            initial@.len() == population_size,
            config.valid(),
            periods == config.number_of_periods,
            tuples@.len() <= crate::config::MAX_SIZE,
            wf_tuples(tuples@),
            genome == ids_of(tuples@).to_multiset(),
            forall|j: int|
                0 <= j < initial@.len() ==> period_layout(#[trigger] initial@[j], periods as nat)
                    && genes_ms(initial@[j]@) == genome,
            pop@.len() == i,
            scored_population(pop@, tuples@, periods as nat),
        decreases initial@.len() - i,
    {
        proof {
            lemma_valid_scorable(initial@[i as int], tuples@);
        }
        let f = calculate_fitness(&initial[i], tuples);
        let mut ind = initial[i].clone();
        ind.adaptation = f;
        pop.push(ind);
        i += 1;
    }

    // Evolving: selection, crossover, mutation, scoring, elitist replacement
    let mut gen_i: usize = 0;
    while gen_i < max_generations
        invariant
            gen_i <= max_generations,
            config.valid(),
            config.population_size == population_size,
            population_size >= 2,
            periods == config.number_of_periods,
            1 <= elite_count <= population_size,
            tuples@.len() <= crate::config::MAX_SIZE,
            wf_tuples(tuples@),
            genome == ids_of(tuples@).to_multiset(),
            pop@.len() == population_size,
            scored_population(pop@, tuples@, periods as nat),
        decreases max_generations - gen_i,
    {
        let b = best_index(&pop);
        if pop[b].adaptation == 0 {
            gen_i = max_generations;
        } else {
            let perm = sort_indices_by_fitness(&pop);
            let mut next: Population = Vec::new();
            let mut e: usize = 0;
            while e < elite_count
                invariant
                    e <= elite_count <= population_size,
                    pop@.len() == population_size,
                    perm@.len() == population_size,
                    forall|a: int| 0 <= a < perm@.len() ==> (#[trigger] perm@[a]) < population_size,
                    scored_population(pop@, tuples@, periods as nat),
                    next@.len() == e,
                    scored_population(next@, tuples@, periods as nat),
                decreases elite_count - e,
            {
                let ind = pop[perm[e]].clone();
                next.push(ind);
                e += 1;
            }
            while next.len() < population_size
                invariant
                    config.valid(),
                    config.population_size == population_size,
                    population_size >= 2,
                    periods == config.number_of_periods,
                    tuples@.len() <= crate::config::MAX_SIZE,
                    wf_tuples(tuples@),
                    genome == ids_of(tuples@).to_multiset(),
                    pop@.len() == population_size,
                    scored_population(pop@, tuples@, periods as nat),
                    next@.len() <= population_size,
                    scored_population(next@, tuples@, periods as nat),
                decreases population_size - next@.len(),
            {
                proof {
                    assert(valid_individual(pop@[0], tuples@, periods as nat));
                    assert(genes_ms(pop@[0]@) == genome);
                    assert(uniform_population(pop@, genes_ms(pop@[0]@), periods as nat));
                    ids_of(tuples@).lemma_multiset_has_no_duplicates();
                    assert forall|g: u32| genes_ms(pop@[0]@).count(g) <= 1 by {
                        if genome.count(g) > 0 {
                            assert(ids_of(tuples@).contains(g));
                        }
                    }
                }
                let mut child = crossover(config, &pop, rng);
                mutate(config, &mut child, rng);
                proof {
                    lemma_valid_scorable(child, tuples@);
                }
                let f = calculate_fitness(&child, tuples);
                child.adaptation = f;
                next.push(child);
            }
            pop = next;
            gen_i += 1;
        }
    }

    // Done: hand back a fittest timetable of the final generation
    let b = best_index(&pop);
    let best = pop[b].clone();
    let fit = best.adaptation;
    proof {
        crate::algorithm::lemma_fitness_nonpositive(best@, tuples@);
    }
    (best, fit)
}

} // verus!
