use vstd::prelude::*;
use vstd::multiset::Multiset;

verus! {

broadcast use vstd::multiset::group_multiset_axioms, vstd::seq_lib::group_to_multiset_ensures;

/// One schedulable unit, bound to a teacher and a room and carrying a
/// run-unique positive id. Teachers and rooms are integer identifiers;
/// mapping display names to identifiers is the data-ingestion side's job.
#[derive(Clone, Copy, PartialEq, Eq, Structural, Debug)]
pub struct Tuple {
    pub id: u32,
    pub teacher: u32,
    pub room: u32,
}

/// One period (time slot): its stable period index and the ordered list of
/// tuple ids (genes) scheduled in it.
#[derive(PartialEq, Eq, Debug)]
pub struct Chromosome {
    pub id: usize,
    pub genes: Vec<u32>,
}

/// One candidate timetable: exactly one chromosome per period, plus the
/// most recently computed fitness score. The score is only meaningful
/// until the genes are next changed.
#[derive(PartialEq, Eq, Debug)]
pub struct Individual {
    pub chromosomes: Vec<Chromosome>,
    pub adaptation: i64,
}

/// The current generation's candidate timetables.
pub type Population = Vec<Individual>;

impl View for Chromosome {
    type V = Seq<u32>;

    open spec fn view(&self) -> Seq<u32> {
        self.genes@
    }
}

impl View for Individual {
    type V = Seq<Seq<u32>>;

    open spec fn view(&self) -> Seq<Seq<u32>> {
        Seq::new(self.chromosomes@.len(), |k: int| self.chromosomes@[k]@)
    }
}

/// The multiset union of all genes over a timetable's periods.
pub open spec fn genes_ms(v: Seq<Seq<u32>>) -> Multiset<u32>
    decreases v.len(),
{
    if v.len() == 0 {
        Multiset::empty()
    } else {
        genes_ms(v.drop_last()).add(v.last().to_multiset())
    }
}

/// The ids of a tuple sequence, in order.
pub open spec fn ids_of(tuples: Seq<Tuple>) -> Seq<u32> {
    Seq::new(tuples.len(), |i: int| tuples[i].id)
}

/// A well-formed tuple set: every id positive, no id repeated.
pub open spec fn wf_tuples(tuples: Seq<Tuple>) -> bool {
    &&& forall|i: int| 0 <= i < tuples.len() ==> (#[trigger] tuples[i]).id > 0
    &&& forall|i: int, j: int|
        0 <= i < j < tuples.len() ==> tuples[i].id != tuples[j].id
}

/// Structural shape of a timetable: one chromosome per period, the k-th
/// carrying period id k.
pub open spec fn period_layout(ind: Individual, periods: nat) -> bool {
    &&& ind.chromosomes@.len() == periods
    &&& forall|k: int|
        0 <= k < ind.chromosomes@.len() ==> (#[trigger] ind.chromosomes@[k]).id == k
}

/// Invariant I1: the multiset union of genes across all periods equals the
/// given id set, each id appearing exactly once (the ids are distinct, so
/// equality with their multiset says exactly that).
pub open spec fn covers_exactly(ind: Individual, ids: Seq<u32>) -> bool {
    genes_ms(ind@) == ids.to_multiset()
}

pub open spec fn valid_individual(ind: Individual, tuples: Seq<Tuple>, periods: nat) -> bool {
    &&& period_layout(ind, periods)
    &&& covers_exactly(ind, ids_of(tuples))
}

/// No element occurs more than once in the multiset.
pub open spec fn dup_free(m: Multiset<u32>) -> bool {
    forall|g: u32| m.count(g) <= 1
}

/// Every member of a population has the same period shape and the same
/// gene multiset (the shared genome).
pub open spec fn uniform_population(pop: Seq<Individual>, genome: Multiset<u32>, periods: nat) -> bool {
    forall|i: int|
        0 <= i < pop.len() ==> period_layout(#[trigger] pop[i], periods) && genes_ms(pop[i]@)
            == genome
}

pub proof fn lemma_genes_ms_push(v: Seq<Seq<u32>>, g: Seq<u32>)
    ensures
        genes_ms(v.push(g)) == genes_ms(v).add(g.to_multiset()),
{
    assert(v.push(g).drop_last() =~= v);
    assert(v.push(g).last() == g);
}

/// Replacing the k-th period's gene list exchanges exactly that list's
/// contribution inside the genome multiset.
pub proof fn lemma_genes_ms_update(v: Seq<Seq<u32>>, k: int, g: Seq<u32>)
    requires
        0 <= k < v.len(),
    ensures
        genes_ms(v.update(k, g)).add(v[k].to_multiset()) =~= genes_ms(v).add(g.to_multiset()),
    decreases v.len(),
{
    let w = v.update(k, g);
    assert(w.len() == v.len());
    if k == v.len() - 1 {
        assert(w.drop_last() =~= v.drop_last());
        assert(w.last() == g);
        assert(v.last() == v[k]);
        assert(genes_ms(w) == genes_ms(v.drop_last()).add(g.to_multiset()));
        assert(genes_ms(v) == genes_ms(v.drop_last()).add(v[k].to_multiset()));
        assert forall|x: u32|
            genes_ms(w).add(v[k].to_multiset()).count(x) == genes_ms(v).add(
                g.to_multiset(),
            ).count(x) by {}
    } else {
        assert(w.drop_last() =~= v.drop_last().update(k, g));
        assert(w.last() == v.last());
        lemma_genes_ms_update(v.drop_last(), k, g);
        assert(genes_ms(v.drop_last().update(k, g)).add(v.drop_last()[k].to_multiset())
            =~= genes_ms(v.drop_last()).add(g.to_multiset()));
        assert(v.drop_last()[k] == v[k]);
        assert(genes_ms(w) == genes_ms(v.drop_last().update(k, g)).add(v.last().to_multiset()));
        assert(genes_ms(v) == genes_ms(v.drop_last()).add(v.last().to_multiset()));
        assert forall|x: u32|
            genes_ms(w).add(v[k].to_multiset()).count(x) == genes_ms(v).add(
                g.to_multiset(),
            ).count(x) by {
            assert(genes_ms(v.drop_last().update(k, g)).add(v.drop_last()[k].to_multiset()).count(
                x,
            ) == genes_ms(v.drop_last()).add(g.to_multiset()).count(x));
            assert(genes_ms(v.drop_last().update(k, g)).count(x) + v[k].to_multiset().count(x)
                == genes_ms(v.drop_last()).count(x) + g.to_multiset().count(x));
        }
    }
}

/// A gene occurs in the genome multiset exactly when some period's list
/// contains it.
pub proof fn lemma_genes_ms_contains(v: Seq<Seq<u32>>, x: u32)
    ensures
        genes_ms(v).count(x) > 0 <==> exists|k: int| 0 <= k < v.len() && (#[trigger] v[k]).contains(x),
    decreases v.len(),
{
    if v.len() == 0 {
    } else {
        lemma_genes_ms_contains(v.drop_last(), x);
        if genes_ms(v).count(x) > 0 {
            if genes_ms(v.drop_last()).count(x) > 0 {
                let k = choose|k: int| 0 <= k < v.drop_last().len() && (#[trigger] v.drop_last()[k]).contains(x);
                assert(v[k] == v.drop_last()[k]);
                assert(0 <= k < v.len() && v[k].contains(x));
            } else {
                assert(v.last().to_multiset().count(x) > 0);
                assert(v.last().contains(x));
                assert(v[v.len() - 1].contains(x));
            }
        }
        if exists|k: int| 0 <= k < v.len() && (#[trigger] v[k]).contains(x) {
            let k = choose|k: int| 0 <= k < v.len() && (#[trigger] v[k]).contains(x);
            if k == v.len() - 1 {
                assert(v.last().to_multiset().count(x) > 0);
            } else {
                assert(v.drop_last()[k] == v[k]);
                assert(genes_ms(v.drop_last()).count(x) > 0);
            }
        }
    }
}

/// One period's genes are part of the genome multiset.
pub proof fn lemma_genes_ms_part(v: Seq<Seq<u32>>, k: int)
    requires
        0 <= k < v.len(),
    ensures
        forall|x: u32| v[k].to_multiset().count(x) <= genes_ms(v).count(x),
    decreases v.len(),
{
    assert(genes_ms(v) == genes_ms(v.drop_last()).add(v.last().to_multiset()));
    if k == v.len() - 1 {
        assert(v.last() == v[k]);
        assert forall|x: u32| v[k].to_multiset().count(x) <= genes_ms(v).count(x) by {}
    } else {
        lemma_genes_ms_part(v.drop_last(), k);
        assert(v.drop_last()[k] == v[k]);
        assert forall|x: u32| v[k].to_multiset().count(x) <= genes_ms(v).count(x) by {
            assert(v[k].to_multiset().count(x) <= genes_ms(v.drop_last()).count(x));
        }
    }
}

/// A multiset dominated pointwise by another is no longer than it.
pub proof fn lemma_ms_le_len(a: Multiset<u32>, b: Multiset<u32>)
    requires
        forall|x: u32| a.count(x) <= b.count(x),
    ensures
        a.len() <= b.len(),
{
    assert(b =~= a.add(b.sub(a)));
    assert(b.len() == a.len() + b.sub(a).len());
}

/// The genome multiset is as large as the sum of the period list lengths;
/// in particular each single period list is no longer than it.
pub proof fn lemma_genes_ms_len(v: Seq<Seq<u32>>, k: int)
    requires
        0 <= k < v.len(),
    ensures
        v[k].len() <= genes_ms(v).len(),
{
    lemma_genes_ms_part(v, k);
    lemma_ms_le_len(v[k].to_multiset(), genes_ms(v));
}

/// Whether a gene list contains a given gene, decided by a scan.
pub fn vec_contains(v: &Vec<u32>, g: u32) -> (b: bool)
    ensures
        b == v@.contains(g),
{
    let mut i: usize = 0;
    while i < v.len()
        invariant
            i <= v@.len(),
            forall|j: int| 0 <= j < i ==> v@[j] != g,
        decreases v@.len() - i,
    {
        if v[i] == g {
            return true;
        }
        i += 1;
    }
    false
}

/// Whether any period of the timetable contains a given gene.
pub fn individual_contains(ind: &Individual, g: u32) -> (b: bool)
    ensures
        b == (genes_ms(ind@).count(g) > 0),
{
    let mut k: usize = 0;
    let n = ind.chromosomes.len();
    while k < n
        invariant
            k <= n,
            n == ind.chromosomes@.len(),
            forall|j: int| 0 <= j < k ==> !(#[trigger] ind@[j]).contains(g),
        decreases n - k,
    {
        if vec_contains(&ind.chromosomes[k].genes, g) {
            assert(ind@[k as int].contains(g));
            proof {
                lemma_genes_ms_contains(ind@, g);
            }
            return true;
        }
        assert(!ind@[k as int].contains(g));
        k += 1;
    }
    proof {
        lemma_genes_ms_contains(ind@, g);
    }
    false
}

/// An element-for-element copy of a gene list.
pub fn clone_genes(v: &Vec<u32>) -> (r: Vec<u32>)
    ensures
        r@ == v@,
{
    let mut r: Vec<u32> = Vec::new();
    let mut i: usize = 0;
    while i < v.len()
        invariant
            i <= v@.len(),
            r@ =~= v@.take(i as int),
        decreases v@.len() - i,
    {
        r.push(v[i]);
        assert(r@ =~= v@.take(i as int + 1));
        i += 1;
    }
    assert(r@ =~= v@);
    r
}

impl Clone for Chromosome {
    /// A deep copy: same period id, same gene list.
    fn clone(&self) -> (r: Self)
        ensures
            r.id == self.id,
            r@ == self@,
    {
        Chromosome { id: self.id, genes: clone_genes(&self.genes) }
    }
}

impl Clone for Individual {
    /// A deep copy: same period layout, same gene lists, same cached score.
    fn clone(&self) -> (r: Self)
        ensures
            r@ == self@,
            r.adaptation == self.adaptation,
            r.chromosomes@.len() == self.chromosomes@.len(),
            forall|k: int|
                0 <= k < self.chromosomes@.len() ==> (#[trigger] r.chromosomes@[k]).id
                    == self.chromosomes@[k].id,
    {
        let mut cs: Vec<Chromosome> = Vec::new();
        let mut i: usize = 0;
        let n = self.chromosomes.len();
        while i < n
            invariant
                i <= n,
                n == self.chromosomes@.len(),
                cs@.len() == i,
                forall|k: int|
                    0 <= k < i ==> (#[trigger] cs@[k]).id == self.chromosomes@[k].id,
                forall|k: int| 0 <= k < i ==> (#[trigger] cs@[k])@ == self.chromosomes@[k]@,
            decreases n - i,
        {
            cs.push(self.chromosomes[i].clone());
            i += 1;
        }
        let r = Individual { chromosomes: cs, adaptation: self.adaptation };
        assert(r@ =~= self@);
        r
    }
}

} // verus!
