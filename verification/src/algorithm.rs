use vstd::prelude::*;
use vstd::multiset::Multiset;
use crate::config::AlgorithmConfig;
use crate::datatypes::{Tuple, Chromosome, Individual, Population};
use crate::datatypes::{
    genes_ms, ids_of, period_layout, uniform_population, dup_free, covers_exactly, wf_tuples,
    lemma_genes_ms_push, lemma_genes_ms_update, lemma_genes_ms_contains, lemma_genes_ms_part,
    clone_genes, vec_contains, individual_contains,
};
use crate::random::{gen_below, gen_upto, weighted_pick, sum_weights};

verus! {

broadcast use vstd::multiset::group_multiset_axioms, vstd::seq_lib::group_to_multiset_ensures, vstd::seq_lib::group_seq_properties;

/// An empty gene list contributes nothing to a genome multiset.
pub proof fn lemma_to_multiset_empty(s: Seq<u32>)
    requires
        s.len() == 0,
    ensures
        s.to_multiset() =~= Multiset::<u32>::empty(),
{
    assert forall|x: u32| s.to_multiset().count(x) == 0 by {
        assert(!s.contains(x));
    }
}

/// Appending one gene to the k-th period inserts exactly that gene into
/// the genome multiset.
pub proof fn lemma_genes_ms_push_gene(v: Seq<Seq<u32>>, k: int, x: u32)
    requires
        0 <= k < v.len(),
    ensures
        genes_ms(v.update(k, v[k].push(x))) =~= genes_ms(v).insert(x),
{
    lemma_genes_ms_update(v, k, v[k].push(x));
    assert forall|y: u32| genes_ms(v.update(k, v[k].push(x))).count(y) == genes_ms(v).insert(
        x,
    ).count(y) by {
        assert(genes_ms(v.update(k, v[k].push(x))).add(v[k].to_multiset()).count(y) == genes_ms(
            v,
        ).add(v[k].push(x).to_multiset()).count(y));
        assert(v[k].push(x).to_multiset() =~= v[k].to_multiset().insert(x));
    }
}

/// Removing the i-th gene of the k-th period removes exactly that gene
/// from the genome multiset.
pub proof fn lemma_genes_ms_remove_gene(v: Seq<Seq<u32>>, k: int, i: int)
    requires
        0 <= k < v.len(),
        0 <= i < v[k].len(),
    ensures
        genes_ms(v.update(k, v[k].remove(i))) =~= genes_ms(v).remove(v[k][i]),
{
    lemma_genes_ms_update(v, k, v[k].remove(i));
    lemma_genes_ms_part(v, k);
    assert(v[k].remove(i).to_multiset() =~= v[k].to_multiset().remove(v[k][i]));
    assert forall|y: u32| genes_ms(v.update(k, v[k].remove(i))).count(y) == genes_ms(v).remove(
        v[k][i],
    ).count(y) by {
        assert(genes_ms(v.update(k, v[k].remove(i))).add(v[k].to_multiset()).count(y) == genes_ms(
            v,
        ).add(v[k].remove(i).to_multiset()).count(y));
        assert(v[k].to_multiset().count(v[k][i]) >= 1) by {
            assert(v[k].contains(v[k][i]));
        }
    }
}

/// Builds the first generation: for every individual, every tuple id is
/// appended to a uniformly drawn period, so each candidate timetable
/// covers the tuple-id set exactly once (invariant I1) by construction.
pub fn create_first_population(
    config: &AlgorithmConfig,
    tuples: &Vec<Tuple>,
    rng: &mut rand::rngs::StdRng,
) -> (pop: Population)
    requires
        config.valid(),
    ensures
        pop@.len() == config.population_size,
        forall|i: int|
            0 <= i < pop@.len() ==> period_layout(
                #[trigger] pop@[i],
                config.number_of_periods as nat,
            ),
        forall|i: int|
            0 <= i < pop@.len() ==> genes_ms((#[trigger] pop@[i])@) == ids_of(
                tuples@,
            ).to_multiset(),
        forall|i: int| 0 <= i < pop@.len() ==> (#[trigger] pop@[i]).adaptation == 0,
{
    let population_size = config.population_size;
    let number_of_periods = config.number_of_periods;
    let mut population: Population = Vec::new();
    let mut i: usize = 0;
    while i < population_size
        invariant
            i <= population_size,
            config.valid(),
            number_of_periods == config.number_of_periods,
            population@.len() == i,
            forall|j: int|
                0 <= j < i ==> period_layout(
                    #[trigger] population@[j],
                    config.number_of_periods as nat,
                ),
            forall|j: int|
                0 <= j < i ==> genes_ms((#[trigger] population@[j])@) == ids_of(
                    tuples@,
                ).to_multiset(),
            forall|j: int| 0 <= j < i ==> (#[trigger] population@[j]).adaptation == 0,
        decreases population_size - i,
    {
        let mut individual = Individual { chromosomes: Vec::new(), adaptation: 0 };

        // create the periods
        let mut period_id: usize = 0;
        while period_id < number_of_periods
            invariant
                period_id <= number_of_periods,
                individual.chromosomes@.len() == period_id,
                individual.adaptation == 0,
                forall|k: int|
                    0 <= k < period_id ==> (#[trigger] individual.chromosomes@[k]).id == k,
                forall|k: int|
                    0 <= k < period_id ==> (#[trigger] individual.chromosomes@[k])@.len() == 0,
                genes_ms(individual@) =~= Multiset::<u32>::empty(),
            decreases number_of_periods - period_id,
        {
            let ghost prev = individual@;
            individual.chromosomes.push(Chromosome { id: period_id, genes: Vec::new() });
            proof {
                assert(individual@ =~= prev.push(Seq::<u32>::empty()));
                lemma_genes_ms_push(prev, Seq::<u32>::empty());
                lemma_to_multiset_empty(Seq::<u32>::empty());
            }
            period_id += 1;
        }

        // assign every tuple's id to a uniformly random period
        let mut t: usize = 0;
        while t < tuples.len()
            invariant
                t <= tuples@.len(),
                config.valid(),
                number_of_periods == config.number_of_periods,
                individual.chromosomes@.len() == number_of_periods,
                individual.adaptation == 0,
                forall|k: int|
                    0 <= k < number_of_periods ==> (#[trigger] individual.chromosomes@[k]).id == k,
                genes_ms(individual@) =~= ids_of(tuples@.take(t as int)).to_multiset(),
            decreases tuples@.len() - t,
        {
            let random_period_index = gen_below(rng, number_of_periods);
            let ghost prev = individual@;
            let mut g = clone_genes(&individual.chromosomes[random_period_index].genes);
            g.push(tuples[t].id);
            individual.chromosomes.set(
                random_period_index,
                Chromosome { id: random_period_index, genes: g },
            );
            proof {
                let k = random_period_index as int;
                assert(individual@ =~= prev.update(k, prev[k].push(tuples@[t as int].id)));
                lemma_genes_ms_push_gene(prev, k, tuples@[t as int].id);
                assert(ids_of(tuples@.take(t as int)).push(tuples@[t as int].id) =~= ids_of(
                    tuples@.take(t as int + 1),
                ));
                assert(ids_of(tuples@.take(t as int + 1)).to_multiset() =~= ids_of(
                    tuples@.take(t as int),
                ).to_multiset().insert(tuples@[t as int].id));
            }
            t += 1;
        }
        proof {
            assert(tuples@.take(tuples@.len() as int) =~= tuples@);
        }

        population.push(individual);
        i += 1;
    }
    population
}

pub proof fn lemma_sum_weights_push(s: Seq<u64>, x: u64)
    ensures
        sum_weights(s.push(x)) == sum_weights(s) + x,
{
    assert(s.push(x).drop_last() =~= s);
    assert(s.push(x).last() == x);
}

/// Ranks a scored population: returns the population's indices ordered by
/// descending fitness (ties keep an arbitrary order). The result is a
/// permutation: every index below the population's length occurs exactly
/// once.
pub fn sort_indices_by_fitness(pop: &Population) -> (perm: Vec<usize>)
    ensures
        perm@.len() == pop@.len(),
        forall|a: int| 0 <= a < perm@.len() ==> (#[trigger] perm@[a]) < pop@.len(),
        forall|a: int, b: int| 0 <= a < b < perm@.len() ==> perm@[a] != perm@[b],
        forall|a: int, b: int|
            0 <= a < b < perm@.len() ==> pop@[perm@[a] as int].adaptation >= pop@[perm@[b] as int].adaptation,
{
    let n = pop.len();
    let mut perm: Vec<usize> = Vec::new();
    let mut i: usize = 0;
    while i < n
        invariant
            i <= n,
            perm@.len() == i,
            forall|a: int| 0 <= a < i ==> (#[trigger] perm@[a]) == a,
        decreases n - i,
    {
        perm.push(i);
        i += 1;
    }

    let mut s: usize = 0;
    while s < n
        invariant
            s <= n,
            n == pop@.len(),
            perm@.len() == n,
            forall|a: int| 0 <= a < n ==> (#[trigger] perm@[a]) < n,
            forall|a: int, b: int| 0 <= a < b < n ==> perm@[a] != perm@[b],
            forall|a: int, b: int|
                0 <= a < b < s ==> pop@[perm@[a] as int].adaptation >= pop@[perm@[b] as int].adaptation,
            forall|a: int, b: int|
                0 <= a < s <= b < n ==> pop@[perm@[a] as int].adaptation >= pop@[perm@[b] as int].adaptation,
        decreases n - s,
    {
        // find the fittest remaining index
        let mut best: usize = s;
        let mut c: usize = s + 1;
        while c < n
            invariant
                s <= best < c <= n,
                n == pop@.len(),
                perm@.len() == n,
                forall|a: int| 0 <= a < n ==> (#[trigger] perm@[a]) < n,
                forall|l: int|
                    s <= l < c ==> pop@[perm@[best as int] as int].adaptation >= pop@[(
                    #[trigger] perm@[l]) as int].adaptation,
            decreases n - c,
        {
            if pop[perm[c]].adaptation > pop[perm[best]].adaptation {
                best = c;
            }
            c += 1;
        }
        let pa = perm[s];
        let pb = perm[best];
        perm.set(s, pb);
        perm.set(best, pa);
        s += 1;
    }
    perm
}

/// Draws two parents from a scored population by rank weighting: the
/// population is ranked by descending fitness, each rank gets a strictly
/// positive weight that shrinks geometrically (a fixed-point rendering of
/// the exponentially decaying rank weight), and two distinct ranks are
/// drawn from rand's weighted-index distribution. After a bounded number
/// of identical second draws the nearest different rank is taken, so the
/// call always returns two distinct population indices.
pub fn rand_parents(parents: &Population, rng: &mut rand::rngs::StdRng) -> (r: (usize, usize))
    requires
        parents@.len() >= 2,
        parents@.len() <= crate::config::MAX_SIZE,
    ensures
        r.0 < parents@.len(),
        r.1 < parents@.len(),
        r.0 != r.1,
{
    let n = parents.len();
    let perm = sort_indices_by_fitness(parents);

    // weight of the best rank, scaled by a million; each further rank is
    // scaled by 740818/1000000, a fixed-point rendering of exp(-0.3),
    // floored at 1 so that every rank stays reachable.
    let mut weights: Vec<u64> = Vec::new();
    let mut w: u64 = 1_000_000;
    let mut rank: usize = 0;
    while rank < n
        invariant
            rank <= n,
            n <= crate::config::MAX_SIZE,
            1 <= w <= 1_000_000,
            weights@.len() == rank,
            forall|a: int| 0 <= a < rank ==> 1 <= #[trigger] weights@[a] <= 1_000_000,
            sum_weights(weights@) <= rank * 1_000_000,
        decreases n - rank,
    {
        proof {
            lemma_sum_weights_push(weights@, w);
        }
        weights.push(w);
        w = w * 740_818 / 1_000_000;
        if w == 0 {
            w = 1;
        }
        rank += 1;
    }

    let idx1 = weighted_pick(rng, &weights);
    let mut idx2 = weighted_pick(rng, &weights);
    let mut tries: usize = 0;
    while idx2 == idx1 && tries < 32
        invariant
            idx1 < n,
            idx2 < n,
            tries <= 32,
            n == parents@.len(),
            weights@.len() == n,
            1 <= n <= crate::config::MAX_SIZE,
            forall|a: int| 0 <= a < n ==> 1 <= #[trigger] weights@[a] <= 1_000_000,
            sum_weights(weights@) <= n * 1_000_000,
        decreases 32 - tries,
    {
        idx2 = weighted_pick(rng, &weights);
        tries += 1;
    }
    if idx2 == idx1 {
        idx2 = if idx1 == 0 {
            1
        } else {
            idx1 - 1
        };
    }
    (perm[idx1], perm[idx2])
}

/// Whether some tuple of the set carries this id.
pub open spec fn resolves(tuples: Seq<Tuple>, g: u32) -> bool {
    exists|i: int| 0 <= i < tuples.len() && tuples[i].id == g
}

/// The first tuple of the set carrying this id.
pub open spec fn tuple_for(tuples: Seq<Tuple>, g: u32) -> Tuple
    decreases tuples.len(),
{
    if tuples.len() == 0 {
        Tuple { id: 0, teacher: 0, room: 0 }
    } else if tuples.first().id == g {
        tuples.first()
    } else {
        tuple_for(tuples.drop_first(), g)
    }
}

/// The conflict penalty one scheduled tuple charges another in the same
/// period: 10 for a teacher double-booking (same room, same teacher), 20
/// for a room double-booking between distinct teachers, nothing for
/// different rooms or for the tuple itself.
pub open spec fn pair_penalty(other: Tuple, own: Tuple) -> int {
    if other.id == own.id {
        0
    } else if other.room == own.room {
        if other.teacher == own.teacher {
            10
        } else {
            20
        }
    } else {
        0
    }
}

/// Penalty the listed genes charge one tuple.
pub open spec fn penalty_against(others: Seq<u32>, own: Tuple, tuples: Seq<Tuple>) -> int
    decreases others.len(),
{
    if others.len() == 0 {
        0
    } else {
        penalty_against(others.drop_last(), own, tuples) + pair_penalty(
            tuple_for(tuples, others.last()),
            own,
        )
    }
}

/// Penalty of one period, accumulated gene by gene over `upto` against the
/// whole period `genes_all`; each unordered conflicting pair is counted
/// once from either member's side.
pub open spec fn period_penalty(genes_all: Seq<u32>, upto: Seq<u32>, tuples: Seq<Tuple>) -> int
    decreases upto.len(),
{
    if upto.len() == 0 {
        0
    } else {
        period_penalty(genes_all, upto.drop_last(), tuples) + penalty_against(
            genes_all,
            tuple_for(tuples, upto.last()),
            tuples,
        )
    }
}

/// Total conflict penalty of a timetable.
pub open spec fn individual_penalty(v: Seq<Seq<u32>>, tuples: Seq<Tuple>) -> int
    decreases v.len(),
{
    if v.len() == 0 {
        0
    } else {
        individual_penalty(v.drop_last(), tuples) + period_penalty(v.last(), v.last(), tuples)
    }
}

/// The fitness of a timetable: zero when conflict-free, otherwise the
/// negated conflict penalty.
pub open spec fn fitness_of(v: Seq<Seq<u32>>, tuples: Seq<Tuple>) -> int {
    -individual_penalty(v, tuples)
}

/// A timetable the evaluator accepts: every gene resolves to a tuple and
/// no gene occurs twice.
pub open spec fn scorable(ind: Individual, tuples: Seq<Tuple>) -> bool {
    &&& forall|k: int, j: int|
        0 <= k < ind@.len() && 0 <= j < ind@[k].len() ==> resolves(tuples, #[trigger] ind@[k][j])
    &&& dup_free(genes_ms(ind@))
}

pub proof fn lemma_tuple_for_first(tuples: Seq<Tuple>, g: u32, i: int)
    requires
        0 <= i < tuples.len(),
        tuples[i].id == g,
        forall|j: int| 0 <= j < i ==> tuples[j].id != g,
    ensures
        tuple_for(tuples, g) == tuples[i],
    decreases i,
{
    if i > 0 {
        lemma_tuple_for_first(tuples.drop_first(), g, i - 1);
    }
}

pub proof fn lemma_penalty_against_bounds(others: Seq<u32>, own: Tuple, tuples: Seq<Tuple>)
    ensures
        0 <= penalty_against(others, own, tuples) <= 20 * others.len(),
    decreases others.len(),
{
    if others.len() > 0 {
        lemma_penalty_against_bounds(others.drop_last(), own, tuples);
    }
}

pub proof fn lemma_period_penalty_bounds(genes_all: Seq<u32>, upto: Seq<u32>, tuples: Seq<Tuple>)
    ensures
        0 <= period_penalty(genes_all, upto, tuples),
        period_penalty(genes_all, upto, tuples) <= 20 * upto.len() * genes_all.len(),
    decreases upto.len(),
{
    if upto.len() > 0 {
        lemma_period_penalty_bounds(genes_all, upto.drop_last(), tuples);
        lemma_penalty_against_bounds(genes_all, tuple_for(tuples, upto.last()), tuples);
        assert(20 * (upto.len() - 1) * genes_all.len() + 20 * genes_all.len() == 20 * upto.len()
            * genes_all.len()) by (nonlinear_arith);
    }
}

/// Every gene of a scorable timetable is one of the distinct tuple ids,
/// so no period holds more genes than there are tuples.
pub proof fn lemma_scorable_bounds(ind: Individual, tuples: Seq<Tuple>)
    requires
        scorable(ind, tuples),
    ensures
        genes_ms(ind@).len() <= tuples.len(),
        forall|k: int| 0 <= k < ind@.len() ==> (#[trigger] ind@[k]).len() <= tuples.len(),
{
    let m = genes_ms(ind@);
    let ids = ids_of(tuples);
    assert forall|x: u32| m.count(x) <= ids.to_multiset().count(x) by {
        if m.count(x) > 0 {
            lemma_genes_ms_contains(ind@, x);
            let k = choose|k: int| 0 <= k < ind@.len() && (#[trigger] ind@[k]).contains(x);
            let j = choose|j: int| 0 <= j < ind@[k].len() && ind@[k][j] == x;
            assert(resolves(tuples, ind@[k][j]));
            let i = choose|i: int| 0 <= i < tuples.len() && tuples[i].id == x;
            assert(ids[i] == x);
            assert(ids.contains(x));
            assert(ids.to_multiset().count(x) > 0);
        }
    }
    crate::datatypes::lemma_ms_le_len(m, ids.to_multiset());
    assert(ids.to_multiset().len() == ids.len());
    assert forall|k: int| 0 <= k < ind@.len() implies (#[trigger] ind@[k]).len() <= tuples.len() by {
        crate::datatypes::lemma_genes_ms_len(ind@, k);
    }
}

/// Finds the first tuple carrying the given id.
fn find_tuple(tuples: &Vec<Tuple>, g: u32) -> (t: Tuple)
    requires
        resolves(tuples@, g),
    ensures
        t == tuple_for(tuples@, g),
        t.id == g,
{
    let mut i: usize = 0;
    while i < tuples.len()
        invariant
            i <= tuples@.len(),
            resolves(tuples@, g),
            forall|j: int| 0 <= j < i ==> tuples@[j].id != g,
        decreases tuples@.len() - i,
    {
        if tuples[i].id == g {
            proof {
                lemma_tuple_for_first(tuples@, g, i as int);
            }
            return tuples[i];
        }
        i += 1;
    }
    proof {
        let w = choose|w: int| 0 <= w < tuples@.len() && tuples@[w].id == g;
        assert(false);
    }
    Tuple { id: 0, teacher: 0, room: 0 }
}

/// Scores one timetable against the read-only tuple set by counting, for
/// every gene, the same-period genes that share its room: 10 off per one
/// that also shares its teacher, 20 off per one under another teacher.
/// Each conflicting pair is counted from both sides; the score is 0
/// exactly when the timetable is conflict-free.
pub fn calculate_fitness(individual: &Individual, tuples: &Vec<Tuple>) -> (r: i64)
    requires
        scorable(*individual, tuples@),
        tuples@.len() <= crate::config::MAX_SIZE,
        individual@.len() <= crate::config::MAX_SIZE,
    ensures
        r == fitness_of(individual@, tuples@),
        r <= 0,
{
    proof {
        lemma_scorable_bounds(*individual, tuples@);
    }
    let ghost tmax = tuples@.len() as int;
    proof {
        assert(-20 * 0 * tmax * tmax == 0) by (nonlinear_arith);
    }
    let mut total: i64 = 0;
    let mut k: usize = 0;
    let p = individual.chromosomes.len();
    while k < p
        invariant
            k <= p,
            p == individual.chromosomes@.len(),
            p <= crate::config::MAX_SIZE,
            scorable(*individual, tuples@),
            tmax == tuples@.len(),
            tmax <= crate::config::MAX_SIZE,
            forall|kk: int| 0 <= kk < individual@.len() ==> (#[trigger] individual@[kk]).len() <= tmax,
            total == -individual_penalty(individual@.take(k as int), tuples@),
            -20 * (k as int) * tmax * tmax <= total <= 0,
        decreases p - k,
    {
        let genes = &individual.chromosomes[k].genes;
        assert(genes@ == individual@[k as int]);
        let glen = genes.len();
        assert(glen <= tmax);
        let mut ppen: i64 = 0;
        let mut j: usize = 0;
        while j < glen
            invariant
                j <= glen,
                glen == genes@.len(),
                glen <= tmax,
                tmax == tuples@.len(),
                tmax <= crate::config::MAX_SIZE,
                forall|kk: int, jj: int|
                    0 <= kk < individual@.len() && 0 <= jj < individual@[kk].len() ==> resolves(
                        tuples@,
                        #[trigger] individual@[kk][jj],
                    ),
                0 <= k < individual@.len(),
                genes@ == individual@[k as int],
                ppen == period_penalty(genes@, genes@.take(j as int), tuples@),
                0 <= ppen <= 20 * (j as int) * glen,
            decreases glen - j,
        {
            assert(resolves(tuples@, genes@[j as int]));
            let own = find_tuple(tuples, genes[j]);
            let mut gpen: i64 = 0;
            let mut l: usize = 0;
            while l < glen
                invariant
                    l <= glen,
                    glen == genes@.len(),
                    glen <= tmax,
                    tmax == tuples@.len(),
                    tmax <= crate::config::MAX_SIZE,
                    forall|kk: int, jj: int|
                        0 <= kk < individual@.len() && 0 <= jj < individual@[kk].len() ==> resolves(
                            tuples@,
                            #[trigger] individual@[kk][jj],
                        ),
                    0 <= k < individual@.len(),
                    genes@ == individual@[k as int],
                    own == tuple_for(tuples@, genes@[j as int]),
                    gpen == penalty_against(genes@.take(l as int), own, tuples@),
                    0 <= gpen <= 20 * (l as int),
                decreases glen - l,
            {
                assert(resolves(tuples@, genes@[l as int]));
                let other = find_tuple(tuples, genes[l]);
                assert(gpen + 20 <= 20 * 0x4_0000 + 20) by (nonlinear_arith)
                    requires
                        0 <= gpen <= 20 * (l as int),
                        (l as int) < glen,
                        glen <= 0x4_0000;
                if other.id != own.id && other.room == own.room {
                    if other.teacher == own.teacher {
                        gpen += 10;
                    } else {
                        gpen += 20;
                    }
                }
                proof {
                    assert(genes@.take(l as int + 1).drop_last() =~= genes@.take(l as int));
                    assert(genes@.take(l as int + 1).last() == genes@[l as int]);
                }
                l += 1;
            }
            assert(genes@.take(glen as int) =~= genes@);
            proof {
                assert(genes@.take(j as int + 1).drop_last() =~= genes@.take(j as int));
                assert(genes@.take(j as int + 1).last() == genes@[j as int]);
                assert(20 * (j as int) * glen + 20 * glen == 20 * (j as int + 1) * glen)
                    by (nonlinear_arith);
                assert(ppen + gpen <= 20 * 0x4_0000 * 0x4_0000 + 20 * 0x4_0000)
                    by (nonlinear_arith)
                    requires
                        0 <= ppen <= 20 * (j as int) * glen,
                        0 <= gpen <= 20 * glen,
                        (j as int) < glen,
                        glen <= 0x4_0000;
            }
            ppen += gpen;
            j += 1;
        }
        assert(genes@.take(glen as int) =~= genes@);
        proof {
            assert(individual@.take(k as int + 1).drop_last() =~= individual@.take(k as int));
            assert(individual@.take(k as int + 1).last() == individual@[k as int]);
            assert(20 * (j as int) * glen <= 20 * tmax * tmax) by (nonlinear_arith)
                requires
                    0 <= j as int <= glen <= tmax;
            assert(-20 * (k as int) * tmax * tmax - 20 * tmax * tmax == -20 * (k as int + 1) * tmax
                * tmax) by (nonlinear_arith);
            assert(-20 * (k as int + 1) * tmax * tmax >= -20 * 0x4_0000 * 0x4_0000 * 0x4_0000)
                by (nonlinear_arith)
                requires
                    0 <= k as int + 1 <= 0x4_0000,
                    0 <= tmax <= 0x4_0000;
        }
        total -= ppen;
        k += 1;
    }
    proof {
        assert(individual@.take(p as int) =~= individual@);
    }
    total
}

/// Mutates one timetable in place: for every period, with the configured
/// probability, one uniformly chosen gene leaves the period and is
/// appended to a different, uniformly chosen period. A relocation never
/// duplicates or drops a gene, so the gene multiset is unchanged; with a
/// zero probability, or with a single period (no relocation target), the
/// timetable is left exactly as it was.
pub fn mutate(config: &AlgorithmConfig, individual: &mut Individual, rng: &mut rand::rngs::StdRng)
    requires
        config.valid(),
        period_layout(*old(individual), config.number_of_periods as nat),
    ensures
        period_layout(*final(individual), config.number_of_periods as nat),
        genes_ms(final(individual)@) == genes_ms(old(individual)@),
        final(individual).adaptation == old(individual).adaptation,
        config.mutation_probability == 0 ==> *final(individual) == *old(individual),
        config.number_of_periods == 1 ==> *final(individual) == *old(individual),
{
    let number_of_periods = config.number_of_periods;
    if number_of_periods < 2 {
        return ;
    }
    let mut period_id: usize = 0;
    while period_id < number_of_periods
        invariant
            period_id <= number_of_periods,
            2 <= number_of_periods,
            number_of_periods == config.number_of_periods,
            config.valid(),
            period_layout(*individual, number_of_periods as nat),
            genes_ms(individual@) == genes_ms(old(individual)@),
            individual.adaptation == old(individual).adaptation,
            config.mutation_probability == 0 ==> *individual == *old(individual),
        decreases number_of_periods - period_id,
    {
        let draw = gen_below(rng, crate::config::PROB_SCALE as usize);
        if draw < config.mutation_probability as usize {
            let gene_count = individual.chromosomes[period_id].genes.len();
            if gene_count > 0 {
                let gene_index = gen_below(rng, gene_count);
                let ghost prev = individual@;
                let mut g = clone_genes(&individual.chromosomes[period_id].genes);
                let gene = g.remove(gene_index);
                individual.chromosomes.set(
                    period_id,
                    Chromosome { id: period_id, genes: g },
                );
                proof {
                    let k = period_id as int;
                    assert(individual@ =~= prev.update(k, prev[k].remove(gene_index as int)));
                    lemma_genes_ms_remove_gene(prev, k, gene_index as int);
                    assert(gene == prev[k][gene_index as int]);
                }
                // relocate to a uniformly chosen different period
                let t = gen_below(rng, number_of_periods - 1);
                let target = if t < period_id {
                    t
                } else {
                    t + 1
                };
                let ghost prev2 = individual@;
                let mut tg = clone_genes(&individual.chromosomes[target].genes);
                tg.push(gene);
                individual.chromosomes.set(target, Chromosome { id: target, genes: tg });
                proof {
                    let k = period_id as int;
                    let k2 = target as int;
                    assert(individual@ =~= prev2.update(k2, prev2[k2].push(gene)));
                    lemma_genes_ms_push_gene(prev2, k2, gene);
                    assert(prev[k].contains(prev[k][gene_index as int]));
                    lemma_genes_ms_part(prev, k);
                    assert(genes_ms(prev).count(gene) >= 1);
                    assert(genes_ms(individual@) =~= genes_ms(prev));
                }
            }
        }
        period_id += 1;
    }
}

/// Produces one child timetable from two rank-selected parents. Each
/// period is recombined independently at a uniformly drawn cut: the first
/// parent supplies the genes left of the cut, the second parent those
/// from the cut onward, the same roles in every period. Genes of the
/// shared genome that the recombination lost are appended to uniformly
/// drawn periods, then duplicates are dropped, keeping the first
/// occurrence in increasing period order; so the child covers the
/// genome exactly once (invariant I1).
pub fn crossover(
    config: &AlgorithmConfig,
    population: &Population,
    rng: &mut rand::rngs::StdRng,
) -> (child: Individual)
    requires
        config.valid(),
        2 <= population@.len(),
        population@.len() <= crate::config::MAX_SIZE,
        uniform_population(
            population@,
            genes_ms(population@[0]@),
            config.number_of_periods as nat,
        ),
        dup_free(genes_ms(population@[0]@)),
    ensures
        period_layout(child, config.number_of_periods as nat),
        genes_ms(child@) == genes_ms(population@[0]@),
        child.adaptation == 0,
{
    let ghost genome = genes_ms(population@[0]@);
    let number_of_periods = config.number_of_periods;
    let (mi, fi) = rand_parents(population, rng);
    let mother = &population[mi];
    let father = &population[fi];
    assert(period_layout(*mother, number_of_periods as nat) && genes_ms(mother@) == genome);
    assert(period_layout(*father, number_of_periods as nat) && genes_ms(father@) == genome);

    // per-period single-point recombination
    let mut cs: Vec<Chromosome> = Vec::new();
    let mut p: usize = 0;
    while p < number_of_periods
        invariant
            p <= number_of_periods,
            cs@.len() == p,
            number_of_periods == mother.chromosomes@.len(),
            number_of_periods == father.chromosomes@.len(),
            genes_ms(mother@) == genome,
            genes_ms(father@) == genome,
            forall|k: int| 0 <= k < p ==> (#[trigger] cs@[k]).id == k,
            forall|k: int, x: u32| #![trigger cs@[k]@.contains(x)]
                0 <= k < p && cs@[k]@.contains(x) ==> genome.count(x) > 0,
        decreases number_of_periods - p,
    {
        let ga = &mother.chromosomes[p].genes;
        let gb = &father.chromosomes[p].genes;
        assert(ga@ == mother@[p as int] && gb@ == father@[p as int]);
        proof {
            lemma_genes_ms_part(mother@, p as int);
            lemma_genes_ms_part(father@, p as int);
        }
        let bound = if ga.len() < gb.len() {
            ga.len()
        } else {
            gb.len()
        };
        let cut = gen_upto(rng, bound);
        let mut g: Vec<u32> = Vec::new();
        let mut j: usize = 0;
        while j < cut
            invariant
                j <= cut,
                cut <= ga@.len(),
                ga@ == mother@[p as int],
                0 <= p < mother@.len(),
                genes_ms(mother@) == genome,
                g@.len() == j,
                forall|i: int| 0 <= i < j ==> #[trigger] g@[i] == ga@[i],
                forall|i: int| 0 <= i < g@.len() ==> genome.count(#[trigger] g@[i]) > 0,
            decreases cut - j,
        {
            g.push(ga[j]);
            proof {
                lemma_genes_ms_part(mother@, p as int);
                assert(mother@[p as int].contains(ga@[j as int]));
                assert(mother@[p as int].to_multiset().count(ga@[j as int]) > 0);
            }
            j += 1;
        }
        let mut l: usize = cut;
        while l < gb.len()
            invariant
                cut <= l <= gb@.len(),
                gb@ == father@[p as int],
                0 <= p < father@.len(),
                genes_ms(father@) == genome,
                g@.len() == cut + (l - cut),
                forall|i: int| 0 <= i < g@.len() ==> genome.count(#[trigger] g@[i]) > 0,
            decreases gb@.len() - l,
        {
            g.push(gb[l]);
            proof {
                lemma_genes_ms_part(father@, p as int);
                assert(father@[p as int].contains(gb@[l as int]));
                assert(father@[p as int].to_multiset().count(gb@[l as int]) > 0);
            }
            l += 1;
        }
        cs.push(Chromosome { id: p, genes: g });
        p += 1;
    }
    let mut child = Individual { chromosomes: cs, adaptation: 0 };
    assert(period_layout(child, number_of_periods as nat));
    proof {
        assert forall|x: u32| genes_ms(child@).count(x) > 0 implies genome.count(x) > 0 by {
            lemma_genes_ms_contains(child@, x);
            let k = choose|k: int| 0 <= k < child@.len() && (#[trigger] child@[k]).contains(x);
            assert(child@[k] == child.chromosomes@[k]@);
        }
    }

    // collect the reference genome: the first parent's genes, flattened
    let mut all_genes: Vec<u32> = Vec::new();
    let mut k: usize = 0;
    while k < number_of_periods
        invariant
            k <= number_of_periods,
            number_of_periods == mother.chromosomes@.len(),
            all_genes@.to_multiset() == genes_ms(mother@.take(k as int)),
        decreases number_of_periods - k,
    {
        let ghost before = all_genes@;
        let glen = mother.chromosomes[k].genes.len();
        let mut j: usize = 0;
        while j < glen
            invariant
                j <= glen,
                0 <= k < mother.chromosomes@.len(),
                glen == mother@[k as int].len(),
                all_genes@ =~= before + mother@[k as int].take(j as int),
            decreases glen - j,
        {
            all_genes.push(mother.chromosomes[k].genes[j]);
            proof {
                assert(mother@[k as int].take(j as int + 1) =~= mother@[k as int].take(
                    j as int,
                ).push(mother@[k as int][j as int]));
                assert(all_genes@ =~= before + mother@[k as int].take(j as int + 1));
            }
            j += 1;
        }
        proof {
            assert(mother@[k as int].take(glen as int) =~= mother@[k as int]);
            assert(all_genes@ =~= before + mother@[k as int]);
            vstd::seq_lib::lemma_multiset_commutative(before, mother@[k as int]);
            assert(mother@.take(k as int + 1).drop_last() =~= mother@.take(k as int));
            assert(mother@.take(k as int + 1).last() == mother@[k as int]);
            assert(all_genes@.to_multiset() =~= genes_ms(mother@.take(k as int + 1)));
        }
        k += 1;
    }
    proof {
        assert(mother@.take(number_of_periods as int) =~= mother@);
    }
    assert(all_genes@.to_multiset() == genome);

    // repair: re-append every genome gene the recombination lost
    let mut idx: usize = 0;
    while idx < all_genes.len()
        invariant
            idx <= all_genes@.len(),
            all_genes@.to_multiset() == genome,
            config.valid(),
            number_of_periods == config.number_of_periods,
            period_layout(child, number_of_periods as nat),
            child.adaptation == 0,
            forall|x: u32| genes_ms(child@).count(x) > 0 ==> genome.count(x) > 0,
            forall|i: int| 0 <= i < idx ==> genes_ms(child@).count(#[trigger] all_genes@[i]) > 0,
        decreases all_genes@.len() - idx,
    {
        let gx = all_genes[idx];
        if !individual_contains(&child, gx) {
            let r = gen_below(rng, number_of_periods);
            let ghost prev = child@;
            let mut g2 = clone_genes(&child.chromosomes[r].genes);
            g2.push(gx);
            child.chromosomes.set(r, Chromosome { id: r, genes: g2 });
            proof {
                assert(child@ =~= prev.update(r as int, prev[r as int].push(gx)));
                lemma_genes_ms_push_gene(prev, r as int, gx);
                assert(all_genes@.contains(gx));
                assert(genome.count(gx) > 0);
            }
        }
        idx += 1;
    }
    proof {
        assert forall|x: u32| genome.count(x) > 0 implies genes_ms(child@).count(x) > 0 by {
            assert(all_genes@.to_multiset().count(x) > 0);
            assert(all_genes@.contains(x));
            let i = choose|i: int| 0 <= i < all_genes@.len() && all_genes@[i] == x;
            assert(genes_ms(child@).count(all_genes@[i]) > 0);
        }
    }

    // deduplicate: keep the first occurrence in increasing period order
    let ghost v0 = child@;
    let mut seen: Vec<u32> = Vec::new();
    let mut dk: usize = 0;
    while dk < number_of_periods
        invariant
            dk <= number_of_periods,
            v0.len() == number_of_periods,
            child.chromosomes@.len() == number_of_periods,
            forall|i: int|
                0 <= i < number_of_periods ==> (#[trigger] child.chromosomes@[i]).id == i,
            child.adaptation == 0,
            seen@.no_duplicates(),
            genes_ms(child@.take(dk as int)) == seen@.to_multiset(),
            forall|x: u32|
                seen@.contains(x) <==> genes_ms(v0.take(dk as int)).count(x) > 0,
            forall|i: int| dk <= i < number_of_periods ==> child@[i] == v0[i],
        decreases number_of_periods - dk,
    {
        let ghost seen_before = seen@;
        let glen = child.chromosomes[dk].genes.len();
        let mut kept: Vec<u32> = Vec::new();
        let mut j: usize = 0;
        while j < glen
            invariant
                j <= glen,
                0 <= dk < child.chromosomes@.len(),
                v0.len() == child.chromosomes@.len(),
                glen == child.chromosomes@[dk as int]@.len(),
                child@[dk as int] == v0[dk as int],
                child.chromosomes@[dk as int]@ == v0[dk as int],
                seen@.no_duplicates(),
                seen@ =~= seen_before + kept@,
                forall|x: u32|
                    seen@.contains(x) <==> seen_before.contains(x) || v0[dk as int].take(
                        j as int,
                    ).contains(x),
            decreases glen - j,
        {
            let gx = child.chromosomes[dk].genes[j];
            assert(gx == v0[dk as int][j as int]);
            proof {
                assert(v0[dk as int].take(j as int + 1) =~= v0[dk as int].take(j as int).push(
                    v0[dk as int][j as int],
                ));
            }
            if !vec_contains(&seen, gx) {
                kept.push(gx);
                seen.push(gx);
                proof {
                    assert(seen@ =~= seen_before + kept@);
                }
            }
            j += 1;
        }
        proof {
            assert(v0[dk as int].take(glen as int) =~= v0[dk as int]);
        }
        let ghost prevc = child@;
        child.chromosomes.set(dk, Chromosome { id: dk, genes: kept });
        proof {
            assert(child@ =~= prevc.update(dk as int, kept@));
            assert(child@.take(dk as int + 1) =~= prevc.take(dk as int).push(kept@));
            lemma_genes_ms_push(prevc.take(dk as int), kept@);
            vstd::seq_lib::lemma_multiset_commutative(seen_before, kept@);
            assert(genes_ms(child@.take(dk as int + 1)) =~= seen@.to_multiset());
            assert(v0.take(dk as int + 1).drop_last() =~= v0.take(dk as int));
            assert(v0.take(dk as int + 1).last() == v0[dk as int]);
            assert(genes_ms(v0.take(dk as int + 1)) == genes_ms(v0.take(dk as int)).add(
                v0[dk as int].to_multiset(),
            ));
            assert forall|x: u32|
                seen@.contains(x) <==> genes_ms(v0.take(dk as int + 1)).count(x) > 0 by {
                if v0[dk as int].contains(x) {
                    assert(v0[dk as int].to_multiset().count(x) > 0);
                }
                if v0[dk as int].to_multiset().count(x) > 0 {
                    assert(v0[dk as int].contains(x));
                }
            }
        }
        dk += 1;
    }
    proof {
        assert(child@.take(number_of_periods as int) =~= child@);
        assert(v0.take(number_of_periods as int) =~= v0);
        seen@.lemma_multiset_has_no_duplicates();
        assert forall|x: u32| genes_ms(child@).count(x) == genome.count(x) by {
            if genome.count(x) > 0 {
                assert(genome.count(x) == 1);
                assert(genes_ms(v0).count(x) > 0);
                assert(seen@.contains(x));
                assert(seen@.to_multiset().count(x) == 1);
            } else {
                if seen@.contains(x) {
                    assert(genes_ms(v0).count(x) > 0);
                    assert(genome.count(x) > 0);
                }
                assert(seen@.to_multiset().count(x) == 0);
            }
        }
        assert(genes_ms(child@) =~= genome);
    }
    child
}

/// Every timetable that covers a well-formed tuple set exactly once
/// (invariant I1) is accepted by the fitness evaluator: each of its genes
/// resolves to a tuple and no gene occurs twice.
pub proof fn lemma_valid_scorable(ind: Individual, tuples: Seq<Tuple>)
    requires
        wf_tuples(tuples),
        covers_exactly(ind, ids_of(tuples)),
    ensures
        scorable(ind, tuples),
{
    let ids = ids_of(tuples);
    assert(ids.no_duplicates());
    ids.lemma_multiset_has_no_duplicates();
    assert forall|g: u32| genes_ms(ind@).count(g) <= 1 by {
        if ids.to_multiset().count(g) > 0 {
            assert(ids.contains(g));
        }
    }
    assert forall|k: int, j: int|
        0 <= k < ind@.len() && 0 <= j < ind@[k].len() implies resolves(
        tuples,
        #[trigger] ind@[k][j],
    ) by {
        let x = ind@[k][j];
        assert(ind@[k].contains(x));
        lemma_genes_ms_part(ind@, k);
        assert(genes_ms(ind@).count(x) > 0);
        assert(ids.to_multiset().count(x) > 0);
        assert(ids.contains(x));
        let i = choose|i: int| 0 <= i < ids.len() && ids[i] == x;
        assert(tuples[i].id == x);
    }
}

/// Invariant I1, spelled out: a timetable whose genome multiset equals
/// the multiset of a well-formed tuple set's ids holds every tuple id
/// exactly once and nothing else.
pub proof fn lemma_covers_exactly_once(ind: Individual, tuples: Seq<Tuple>)
    requires
        wf_tuples(tuples),
        covers_exactly(ind, ids_of(tuples)),
    ensures
        forall|g: u32| ids_of(tuples).contains(g) ==> genes_ms(ind@).count(g) == 1,
        forall|g: u32| !ids_of(tuples).contains(g) ==> genes_ms(ind@).count(g) == 0,
{
    let ids = ids_of(tuples);
    assert(ids.no_duplicates());
    ids.lemma_multiset_has_no_duplicates();
    assert forall|g: u32| ids.contains(g) implies genes_ms(ind@).count(g) == 1 by {
        assert(ids.to_multiset().count(g) > 0);
    }
    assert forall|g: u32| !ids.contains(g) implies genes_ms(ind@).count(g) == 0 by {
        assert(ids.to_multiset().count(g) == 0);
    }
}

/// Fitness never exceeds zero: the score only subtracts non-negative
/// conflict penalties.
pub proof fn lemma_fitness_nonpositive(v: Seq<Seq<u32>>, tuples: Seq<Tuple>)
    ensures
        fitness_of(v, tuples) <= 0,
    decreases v.len(),
{
    if v.len() > 0 {
        lemma_fitness_nonpositive(v.drop_last(), tuples);
        lemma_period_penalty_bounds(v.last(), v.last(), tuples);
    }
}

} // verus!
