//! The genetic-algorithm engine.
use crate::chromosome::{gene_in_limit, mutation_outcome, Chromosome, DEFAULT_MAGNITUDE, RATE_SCALE};
use crate::error::GaError;
use crate::random::{draw_below, draw_between, draw_up_to, rng_from_entropy, rng_from_seed};
use std::cmp::Ordering;
use vecshard::ShardExt;
use vstd::prelude::*;

verus! {

/// Bounds the engine can sample from and perturb within: at least one
/// parameter, and for each an inclusive range `lower <= upper` inside the
/// gene limit.
pub open spec fn bounds_wf(bounds: Seq<(i64, i64)>) -> bool {
    &&& bounds.len() > 0
    &&& forall|i: int|
        0 <= i < bounds.len() ==> {
            &&& (#[trigger] bounds[i]).0 <= bounds[i].1
            &&& gene_in_limit(bounds[i].0)
            &&& gene_in_limit(bounds[i].1)
        }
}

/// Every gene lies in the inclusive range of its position.
pub open spec fn within_bounds(values: Seq<i64>, bounds: Seq<(i64, i64)>) -> bool {
    &&& values.len() == bounds.len()
    &&& forall|i: int| 0 <= i < values.len() ==> bounds[i].0 <= #[trigger] values[i] <= bounds[i].1
}

/// Every gene that has a bound at its position lies in that bound's
/// inclusive range; positions past the shorter of the two are not compared.
pub open spec fn genes_within(values: Seq<i64>, bounds: Seq<(i64, i64)>) -> bool {
    forall|i: int|
        0 <= i < values.len() && i < bounds.len() ==> bounds[i].0 <= #[trigger] values[i] <= bounds[i].1
}

/// The sum of the costs of a population.
pub open spec fn total_fitness(pop: Seq<Chromosome>) -> int
    decreases pop.len(),
{
    if pop.len() == 0 {
        0
    } else {
        total_fitness(pop.drop_last()) + pop.last().fitness
    }
}

/// The roulette weight of a candidate of cost `f`: the cost itself when
/// maximizing, and what it leaves of the total when minimizing.
pub open spec fn roulette_weight(f: u64, total: int, minimize: bool) -> int {
    if minimize {
        total - f
    } else {
        f as int
    }
}

/// The first index from `start` at which the weights summed from `start`
/// reach `p`, or the population size when they never do.
pub open spec fn first_crossing(pop: Seq<Chromosome>, total: int, minimize: bool, start: int, p: int) -> int
    decreases pop.len() - start,
{
    if start < 0 || start >= pop.len() {
        pop.len() as int
    } else if roulette_weight(pop[start].fitness, total, minimize) >= p {
        start
    } else {
        first_crossing(pop, total, minimize, start + 1, p - roulette_weight(pop[start].fitness, total, minimize))
    }
}

/// The two parents that one turn of the roulette picks for draws `draw1` and `draw2`:
/// the first draw is resolved from the start of the population, the second
/// only after the first, from the next index on; a draw that is zero or
/// never resolved leaves its fallback index.
pub open spec fn roulette(pop: Seq<Chromosome>, minimize: bool, fallback: (int, int), draw1: int, draw2: int) -> (int, int) {
    let total = total_fitness(pop);
    let n = pop.len() as int;
    let c1 = first_crossing(pop, total, minimize, 0, draw1);
    let first = if draw1 > 0 && c1 < n { c1 } else { fallback.0 };
    let start2 = if draw1 <= 0 { 0 } else if c1 < n { c1 + 1 } else { n };
    let c2 = first_crossing(pop, total, minimize, start2, draw2);
    let second = if draw2 > 0 && c2 < n { c2 } else { fallback.1 };
    (first, second)
}

/// The crossover point for `n` genes at crossover fraction `rate`.
pub open spec fn split_index(rate: int, n: int) -> int {
    rate * n / (RATE_SCALE as int)
}

/// The genes of the first child of parents `a` and `b`: those of `a` before
/// the crossover point, those of `b` from it on.
pub open spec fn first_child(a: Seq<i64>, b: Seq<i64>, rate: int) -> Seq<i64> {
    let s = split_index(rate, a.len() as int);
    a.subrange(0, s) + b.subrange(s, b.len() as int)
}

/// The genes of the second child of parents `a` and `b`: the complement of
/// the first.
pub open spec fn second_child(a: Seq<i64>, b: Seq<i64>, rate: int) -> Seq<i64> {
    let s = split_index(rate, a.len() as int);
    b.subrange(0, s) + a.subrange(s, a.len() as int)
}

/// Costs do not decrease along the population.
pub open spec fn sorted_by_fitness(pop: Seq<Chromosome>) -> bool {
    forall|i: int, j: int| 0 <= i <= j < pop.len() ==> (#[trigger] pop[i]).fitness <= (#[trigger] pop[j]).fitness
}

/// Two candidates hold the same genes, cost and magnitude.
pub open spec fn same_candidate(a: Chromosome, b: Chromosome) -> bool {
    a.values@ == b.values@ && a.fitness == b.fitness && a.mutation_percentage == b.mutation_percentage
}

/// The candidate a ranked population offers as its best: the first (lowest
/// cost) when minimizing, the last (highest cost) when maximizing.
pub open spec fn ranked_best(pop: Seq<Chromosome>, minimize: bool) -> Chromosome
    recommends
        pop.len() > 0,
{
    if minimize {
        pop[0]
    } else {
        pop.last()
    }
}

/// What is left of a ranked population trimmed to `target` candidates: the
/// weakest end goes, the tail when minimizing and the head when maximizing.
pub open spec fn trimmed(pop: Seq<Chromosome>, target: int, minimize: bool) -> Seq<Chromosome> {
    if pop.len() <= target {
        pop
    } else if minimize {
        pop.subrange(0, target)
    } else {
        pop.subrange(pop.len() - target, pop.len() as int)
    }
}

/// Relies on `vecshard::ShardExt::split_inplace_at` for `Vec` (which asserts
/// `at <= len`) and on `Into<Vec>` for its shards: the genes before `at` and
/// those from `at` on.
#[verifier::external_body]
fn split_genes(v: Vec<i64>, at: usize) -> (r: (Vec<i64>, Vec<i64>))
    requires
        at <= v@.len(),
    ensures
        r.0@ == v@.subrange(0, at as int),
        r.1@ == v@.subrange(at as int, v@.len() as int),
{
    let (left, right) = v.split_inplace_at(at);
    (left.into(), right.into())
}

/// Relies on `quicksort::quicksort_by`, which only swaps elements and leaves
/// them in the order of its comparator, here `GA::compare`, a total order on
/// costs.
#[verifier::external_body]
fn sort_by_fitness(pop: &mut Vec<Chromosome>)
    ensures
        final(pop)@.to_multiset() == old(pop)@.to_multiset(),
        sorted_by_fitness(final(pop)@),
{
    quicksort::quicksort_by(pop, GA::compare)
}

/// Every candidate of the population lies within the bounds.
pub open spec fn all_within(pop: Seq<Chromosome>, bounds: Seq<(i64, i64)>) -> bool {
    forall|i: int| 0 <= i < pop.len() ==> within_bounds((#[trigger] pop[i]).values@, bounds)
}

/// The cost of a candidate's genes, computed outside the engine (for
/// instance by simulating a model and comparing it with observations).
pub trait Evaluator {
    /// The cost of `values`.
    fn evaluate(&mut self, values: &Vec<i64>) -> u64;
}

/// The candidates of `pop` that lie within the bounds, in order.
pub open spec fn keep_valid(pop: Seq<Chromosome>, bounds: Seq<(i64, i64)>) -> Seq<Chromosome>
    decreases pop.len(),
{
    if pop.len() == 0 {
        pop
    } else if within_bounds(pop.last().values@, bounds) {
        keep_valid(pop.drop_last(), bounds).push(pop.last())
    } else {
        keep_valid(pop.drop_last(), bounds)
    }
}

/// The candidates at `at` and `at + 1` are the first and second child, at
/// crossover fraction `rate`, of two candidates before `at`.
pub open spec fn is_bred_pair(pop: Seq<Chromosome>, rate: int, at: int) -> bool {
    exists|a: int, b: int|
        0 <= a < at && 0 <= b < at && pop[at].values@ == #[trigger] first_child(pop[a].values@, pop[b].values@, rate)
            && pop[at + 1].values@ == second_child(pop[a].values@, pop[b].values@, rate)
}

/// `m` is `c` after one mutation at rate `rate`, with any cost.
pub open spec fn mutant_of(m: Chromosome, c: Chromosome, rate: int) -> bool {
    &&& m.mutation_percentage == c.mutation_percentage
    &&& exists|i: int, p: int, grow: bool|
        0 <= i < c.values@.len() && 0 <= p < RATE_SCALE && m.values@ == #[trigger] mutation_outcome(
            c.values@,
            c.mutation_percentage as int,
            i,
            p,
            grow,
            rate,
        )
}

/// `bred` is `before` with the children of its breeding appended: two for
/// each fifth of its size (rounded down), each pair the children of two
/// candidates that precede it.
pub open spec fn bred_from(bred: Seq<Chromosome>, before: Seq<Chromosome>, xrate: int) -> bool {
    &&& bred.len() == before.len() + 2 * (before.len() / 5)
    &&& bred.subrange(0, before.len() as int) == before
    &&& forall|at: int|
        before.len() <= at < bred.len() && (at - before.len()) % 2 == 0 ==> #[trigger] is_bred_pair(bred, xrate, at)
}

/// Each candidate of `mutated` is the one at its position in `bred` after
/// one mutation at rate `rate`.
pub open spec fn mutated_from(mutated: Seq<Chromosome>, bred: Seq<Chromosome>, rate: int) -> bool {
    &&& mutated.len() == bred.len()
    &&& forall|i: int| 0 <= i < mutated.len() ==> mutant_of(#[trigger] mutated[i], bred[i], rate)
}

proof fn lemma_permuted_member(a: Seq<Chromosome>, b: Seq<Chromosome>, i: int)
    requires
        a.to_multiset() == b.to_multiset(),
        0 <= i < b.len(),
    ensures
        exists|j: int| 0 <= j < a.len() && a[j] == b[i],
{
    vstd::seq_lib::to_multiset_contains(b, b[i]);
    assert(b.contains(b[i]));
    vstd::seq_lib::to_multiset_contains(a, b[i]);
}

proof fn lemma_children_within_bounds(a: Seq<i64>, b: Seq<i64>, s: int, bounds: Seq<(i64, i64)>)
    requires
        within_bounds(a, bounds),
        within_bounds(b, bounds),
        0 <= s <= a.len(),
    ensures
        within_bounds(a.subrange(0, s) + b.subrange(s, b.len() as int), bounds),
        within_bounds(b.subrange(0, s) + a.subrange(s, a.len() as int), bounds),
{
    let c1 = a.subrange(0, s) + b.subrange(s, b.len() as int);
    let c2 = b.subrange(0, s) + a.subrange(s, a.len() as int);
    assert forall|i: int| 0 <= i < c1.len() implies bounds[i].0 <= #[trigger] c1[i] <= bounds[i].1 by {
        if i < s {
            assert(c1[i] == a[i]);
        } else {
            assert(c1[i] == b[i]);
        }
    }
    assert forall|i: int| 0 <= i < c2.len() implies bounds[i].0 <= #[trigger] c2[i] <= bounds[i].1 by {
        if i < s {
            assert(c2[i] == b[i]);
        } else {
            assert(c2[i] == a[i]);
        }
    }
}

proof fn lemma_total_bounds(pop: Seq<Chromosome>, i: int)
    requires
        0 <= i < pop.len(),
    ensures
        0 <= pop[i].fitness <= total_fitness(pop),
        total_fitness(pop) <= pop.len() * 0xFFFF_FFFF_FFFF_FFFF,
    decreases pop.len(),
{
    lemma_total_nonneg(pop.drop_last());
    if i < pop.len() - 1 {
        lemma_total_bounds(pop.drop_last(), i);
    }
    lemma_total_max(pop);
}

proof fn lemma_total_nonneg(pop: Seq<Chromosome>)
    ensures
        total_fitness(pop) >= 0,
    decreases pop.len(),
{
    if pop.len() > 0 {
        lemma_total_nonneg(pop.drop_last());
    }
}

proof fn lemma_total_max(pop: Seq<Chromosome>)
    ensures
        total_fitness(pop) <= pop.len() * 0xFFFF_FFFF_FFFF_FFFF,
    decreases pop.len(),
{
    if pop.len() > 0 {
        lemma_total_max(pop.drop_last());
    }
}

/// The genetic-algorithm engine: its run configuration, bounds, population,
/// random generator, and the best candidate of each generation run so far.
#[derive(Debug)]
pub struct GA {
    pub max_generations: usize,
    pub mutation_rate: u64,
    pub crossover_rate: u64,
    pub population: Vec<Chromosome>,
    pub bounds: Vec<(i64, i64)>,
    pub minimization: bool,
    pub rng: rand::rngs::StdRng,
    pub history: Vec<Chromosome>,
}

impl GA {
    /// A member of the population has one gene per bound and can be
    /// mutated without overflow.
    pub open spec fn member_wf(&self, c: Chromosome) -> bool {
        c.values@.len() == self.bounds@.len() && c.wf()
    }

    /// `ranked` is, sorted by cost, the population that one generation run
    /// from `before` breeds, mutates and keeps within the bounds.
    pub open spec fn generation_ranking(&self, before: Seq<Chromosome>, ranked: Seq<Chromosome>) -> bool {
        &&& sorted_by_fitness(ranked)
        &&& exists|bred: Seq<Chromosome>, mutated: Seq<Chromosome>|
            bred_from(bred, before, self.crossover_rate as int) && #[trigger] mutated_from(
                mutated,
                bred,
                self.mutation_rate as int,
            ) && ranked.to_multiset() == keep_valid(mutated, self.bounds@).to_multiset()
    }

    /// One generation run from `before` can leave no candidate within the
    /// bounds: every bred and mutated candidate is dropped.
    pub open spec fn failed_generation(&self, before: Seq<Chromosome>) -> bool {
        exists|bred: Seq<Chromosome>, mutated: Seq<Chromosome>|
            bred_from(bred, before, self.crossover_rate as int) && #[trigger] mutated_from(
                mutated,
                bred,
                self.mutation_rate as int,
            ) && keep_valid(mutated, self.bounds@).len() == 0
    }

    /// One generation from `before` to `after`: `ranked` is its ranking,
    /// `best` the best candidate of that ranking, and `after` the ranking
    /// trimmed back to the size of `before` by dropping its weakest end.
    pub open spec fn generation(
        &self,
        before: Seq<Chromosome>,
        after: Seq<Chromosome>,
        ranked: Seq<Chromosome>,
        best: Chromosome,
    ) -> bool {
        &&& self.generation_ranking(before, ranked)
        &&& ranked.len() > 0
        &&& same_candidate(best, ranked_best(ranked, self.minimization))
        &&& after == trimmed(ranked, before.len() as int, self.minimization)
    }

    /// A run of generations: `pops[0]` is where it starts, and generation
    /// `g` goes from `pops[g]` to `pops[g + 1]` through ranking `ranks[g]`,
    /// with `records[g]` its best candidate.
    pub open spec fn run(
        &self,
        pops: Seq<Seq<Chromosome>>,
        ranks: Seq<Seq<Chromosome>>,
        records: Seq<Chromosome>,
    ) -> bool {
        &&& pops.len() == ranks.len() + 1
        &&& records.len() == ranks.len()
        &&& forall|g: int| 0 <= g < ranks.len() ==> self.generation(pops[g], pops[g + 1], #[trigger] ranks[g], records[g])
    }

    /// The engine's invariant.
    pub open spec fn wf(&self) -> bool {
        &&& bounds_wf(self.bounds@)
        &&& self.mutation_rate <= RATE_SCALE
        &&& self.crossover_rate <= RATE_SCALE
        &&& forall|i: int| 0 <= i < self.population@.len() ==> self.member_wf(#[trigger] self.population@[i])
    }

    /// An engine with an empty population and a generator seeded from the
    /// operating system.
    pub fn new(max: usize, mut_rate: u64, cross_rate: u64, bounds: Vec<(i64, i64)>, is_min: bool) -> (r: Self)
        requires
            bounds_wf(bounds@),
            mut_rate <= RATE_SCALE,
            cross_rate <= RATE_SCALE,
        ensures
            r.wf(),
            r.max_generations == max,
            r.mutation_rate == mut_rate,
            r.crossover_rate == cross_rate,
            r.bounds@ == bounds@,
            r.minimization == is_min,
            r.population@.len() == 0,
            r.history@.len() == 0,
    {
        GA {
            max_generations: max,
            mutation_rate: mut_rate,
            crossover_rate: cross_rate,
            population: Vec::new(),
            bounds,
            minimization: is_min,
            rng: rng_from_entropy(),
            history: Vec::new(),
        }
    }

    /// An engine like `new`, whose generator is fixed by `seed`.
    pub fn with_seed(max: usize, mut_rate: u64, cross_rate: u64, bounds: Vec<(i64, i64)>, is_min: bool, seed: u64) -> (r: Self)
        requires
            bounds_wf(bounds@),
            mut_rate <= RATE_SCALE,
            cross_rate <= RATE_SCALE,
        ensures
            r.wf(),
            r.max_generations == max,
            r.mutation_rate == mut_rate,
            r.crossover_rate == cross_rate,
            r.bounds@ == bounds@,
            r.minimization == is_min,
            r.population@.len() == 0,
            r.history@.len() == 0,
    {
        GA {
            max_generations: max,
            mutation_rate: mut_rate,
            crossover_rate: cross_rate,
            population: Vec::new(),
            bounds,
            minimization: is_min,
            rng: rng_from_seed(seed),
            history: Vec::new(),
        }
    }

    /// Appends `p_size` candidates of `c_size` genes, each drawn uniformly
    /// within its bound. Fails, changing nothing, unless `c_size` is the
    /// number of bounds and `p_size` is positive.
    pub fn generate_random_population(&mut self, p_size: usize, c_size: usize) -> (r: Result<(), GaError>)
        requires
            old(self).wf(),
        ensures
            final(self).wf(),
            final(self).bounds == old(self).bounds,
            final(self).minimization == old(self).minimization,
            final(self).mutation_rate == old(self).mutation_rate,
            final(self).crossover_rate == old(self).crossover_rate,
            final(self).max_generations == old(self).max_generations,
            final(self).history == old(self).history,
            r is Ok <==> (c_size == old(self).bounds@.len() && p_size > 0),
            r is Err ==> r == Err::<(), GaError>(GaError::InvalidConfiguration)
                && final(self).population == old(self).population,
            r is Ok ==> {
                &&& final(self).population@.len() == old(self).population@.len() + p_size
                &&& final(self).population@.subrange(0, old(self).population@.len() as int)
                    == old(self).population@
                &&& forall|i: int|
                    old(self).population@.len() <= i < final(self).population@.len() ==> {
                        &&& within_bounds((#[trigger] final(self).population@[i]).values@, old(self).bounds@)
                        &&& final(self).population@[i].fitness == 0
                        &&& final(self).population@[i].mutation_percentage == DEFAULT_MAGNITUDE
                    }
            },
    {
        if c_size != self.bounds.len() || p_size == 0 {
            return Err(GaError::InvalidConfiguration);
        }
        let ghost start = self.population@;
        let mut k: usize = 0;
        while k < p_size
            invariant
                self.wf(),
                self.bounds == old(self).bounds,
                self.minimization == old(self).minimization,
                self.mutation_rate == old(self).mutation_rate,
                self.crossover_rate == old(self).crossover_rate,
                self.max_generations == old(self).max_generations,
                self.history == old(self).history,
                c_size == self.bounds@.len(),
                k <= p_size,
                start == old(self).population@,
                self.population@.len() == start.len() + k,
                self.population@.subrange(0, start.len() as int) == start,
                forall|i: int|
                    start.len() <= i < self.population@.len() ==> {
                        &&& within_bounds((#[trigger] self.population@[i]).values@, self.bounds@)
                        &&& self.population@[i].fitness == 0
                        &&& self.population@[i].mutation_percentage == DEFAULT_MAGNITUDE
                    },
            decreases p_size - k,
        {
            let ghost before = *self;
            let mut values: Vec<i64> = Vec::new();
            let mut j: usize = 0;
            while j < c_size
                invariant
                    self.wf(),
                    self.population == before.population,
                    self.bounds == before.bounds,
                    self.minimization == before.minimization,
                    self.mutation_rate == before.mutation_rate,
                    self.crossover_rate == before.crossover_rate,
                    self.max_generations == before.max_generations,
                    self.history == before.history,
                    c_size == self.bounds@.len(),
                    j <= c_size,
                    values@.len() == j,
                    forall|t: int| 0 <= t < j ==> self.bounds@[t].0 <= #[trigger] values@[t] <= self.bounds@[t].1,
                decreases c_size - j,
            {
                let (lo, hi) = self.bounds[j];
                assert(self.bounds@[j as int].0 <= self.bounds@[j as int].1);
                let v: i64 = draw_between(&mut self.rng, lo, hi);
                values.push(v);
                j = j + 1;
            }
            let c = Chromosome::new(values);
            proof {
                assert forall|t: int| 0 <= t < c.values@.len() implies gene_in_limit(#[trigger] c.values@[t]) by {
                    assert(gene_in_limit(self.bounds@[t].0));
                    assert(gene_in_limit(self.bounds@[t].1));
                }
            }
            self.population.push(c);
            k = k + 1;
            assert(self.population@.subrange(0, start.len() as int) =~= start);
        }
        Ok(())
    }

    /// Adds a candidate supplied by the caller.
    pub fn add_individual(&mut self, c: Chromosome)
        requires
            old(self).wf(),
            old(self).member_wf(c),
        ensures
            final(self).wf(),
            final(self).population@ == old(self).population@.push(c),
            final(self).bounds == old(self).bounds,
            final(self).minimization == old(self).minimization,
            final(self).mutation_rate == old(self).mutation_rate,
            final(self).crossover_rate == old(self).crossover_rate,
            final(self).max_generations == old(self).max_generations,
            final(self).history == old(self).history,
    {
        self.population.push(c);
    }

    /// The sum of the costs of the population.
    pub fn population_fitness(&self) -> (r: u128)
        ensures
            r == total_fitness(self.population@),
    {
        let mut total: u128 = 0;
        let mut i: usize = 0;
        while i < self.population.len()
            invariant
                i <= self.population@.len(),
                total == total_fitness(self.population@.subrange(0, i as int)),
            decreases self.population@.len() - i,
        {
            let ghost pre = self.population@.subrange(0, i as int);
            let ghost next = self.population@.subrange(0, i + 1);
            assert(next.drop_last() =~= pre);
            proof {
                lemma_total_max(next);
                assert(next.len() * 0xFFFF_FFFF_FFFF_FFFF < 0x1_0000_0000_0000_0000 * 0x1_0000_0000_0000_0000) by (nonlinear_arith)
                    requires next.len() <= 0xFFFF_FFFF_FFFF_FFFF;
            }
            total = total + self.population[i].fitness as u128;
            i = i + 1;
        }
        assert(self.population@.subrange(0, i as int) =~= self.population@);
        total
    }

    /// The first index from `start` at which the roulette weights summed
    /// from `start` reach `p`, or the population size.
    pub fn crossing(&self, total: u128, start: usize, p: u128) -> (r: usize)
        requires
            total == total_fitness(self.population@),
            start <= self.population@.len(),
        ensures
            r == first_crossing(self.population@, total as int, self.minimization, start as int, p as int),
    {
        let n: usize = self.population.len();
        let mut i: usize = start;
        let mut q: u128 = p;
        while i < n
            invariant
                n == self.population@.len(),
                total == total_fitness(self.population@),
                start <= i <= n,
                first_crossing(self.population@, total as int, self.minimization, start as int, p as int)
                    == first_crossing(self.population@, total as int, self.minimization, i as int, q as int),
            decreases n - i,
        {
            proof {
                lemma_total_bounds(self.population@, i as int);
            }
            let f: u128 = self.population[i].fitness as u128;
            let w: u128 = if self.minimization { total - f } else { f };
            if w >= q {
                return i;
            }
            q = q - w;
            i = i + 1;
        }
        n
    }

    /// One turn of the roulette for fallback parents and draws `draw1` and `draw2`:
    /// the indices of the two parents it picks.
    pub fn roulette_pick(&self, total: u128, fallback: (usize, usize), draw1: u128, draw2: u128) -> (r: (usize, usize))
        requires
            total == total_fitness(self.population@),
            fallback.0 < self.population@.len(),
            fallback.1 < self.population@.len(),
        ensures
            (r.0 as int, r.1 as int) == roulette(
                self.population@,
                self.minimization,
                (fallback.0 as int, fallback.1 as int),
                draw1 as int,
                draw2 as int,
            ),
            r.0 < self.population@.len(),
            r.1 < self.population@.len(),
    {
        let n: usize = self.population.len();
        let c1: usize = self.crossing(total, 0, draw1);
        let first: usize = if draw1 > 0 && c1 < n { c1 } else { fallback.0 };
        let start2: usize = if draw1 == 0 { 0 } else if c1 < n { c1 + 1 } else { n };
        let c2: usize = self.crossing(total, start2, draw2);
        let second: usize = if draw2 > 0 && c2 < n { c2 } else { fallback.1 };
        (first, second)
    }

    /// Picks two parents by roulette: draws two distinct fallback indices
    /// and two values in `[0, total cost]`, then turns the roulette.
    pub fn select_parents(&mut self) -> (r: (usize, usize))
        requires
            old(self).population@.len() >= 2,
        ensures
            final(self).population == old(self).population,
            final(self).bounds == old(self).bounds,
            final(self).minimization == old(self).minimization,
            final(self).mutation_rate == old(self).mutation_rate,
            final(self).crossover_rate == old(self).crossover_rate,
            final(self).max_generations == old(self).max_generations,
            final(self).history == old(self).history,
            r.0 < old(self).population@.len(),
            r.1 < old(self).population@.len(),
            exists|f0: int, f1: int, draw1: int, draw2: int|
                0 <= f0 < old(self).population@.len() && 0 <= f1 < old(self).population@.len() && f0 != f1
                    && 0 <= draw1 <= total_fitness(old(self).population@)
                    && 0 <= draw2 <= total_fitness(old(self).population@)
                    && (r.0 as int, r.1 as int) == roulette(old(self).population@, old(self).minimization, (f0, f1), draw1, draw2),
    {
        let total: u128 = self.population_fitness();
        let n: usize = self.population.len();
        let index1: usize = draw_below(&mut self.rng, n);
        let k: usize = draw_below(&mut self.rng, n - 1);
        let index2: usize = if k >= index1 { k + 1 } else { k };
        let draw1: u128 = draw_up_to(&mut self.rng, total);
        let draw2: u128 = draw_up_to(&mut self.rng, total);
        self.roulette_pick(total, (index1, index2), draw1, draw2)
    }

    /// Single-point recombination: the first child takes the genes of the
    /// first parent before the crossover point and those of the second from
    /// it on; the second child takes the complement.
    pub fn crossover(&self, parents: (&Chromosome, &Chromosome)) -> (r: (Chromosome, Chromosome))
        requires
            self.crossover_rate <= RATE_SCALE,
            parents.0.values@.len() == parents.1.values@.len(),
        ensures
            0 <= split_index(self.crossover_rate as int, parents.0.values@.len() as int)
                <= parents.0.values@.len(),
            r.0.values@ == first_child(parents.0.values@, parents.1.values@, self.crossover_rate as int),
            r.1.values@ == second_child(parents.0.values@, parents.1.values@, self.crossover_rate as int),
            r.0.fitness == 0,
            r.1.fitness == 0,
            r.0.mutation_percentage == DEFAULT_MAGNITUDE,
            r.1.mutation_percentage == DEFAULT_MAGNITUDE,
    {
        let n: usize = parents.0.values.len();
        proof {
            assert(0 <= (self.crossover_rate as int) * (n as int) <= (RATE_SCALE as int) * (n as int)) by (nonlinear_arith)
                requires 0 <= self.crossover_rate <= RATE_SCALE, 0 <= n;
            assert((self.crossover_rate as int) * (n as int) / (RATE_SCALE as int) <= n) by (nonlinear_arith)
                requires 0 <= (self.crossover_rate as int) * (n as int) <= (RATE_SCALE as int) * (n as int), RATE_SCALE == 1_000_000;
        }
        let at: usize = ((self.crossover_rate as u128) * (n as u128) / (RATE_SCALE as u128)) as usize;
        let (mut left_1, right_2) = split_genes(parents.0.get_values(), at);
        let (right_1, mut left_2) = split_genes(parents.1.get_values(), at);
        let mut tail_1 = left_2;
        let mut tail_2 = right_2;
        let mut head_2 = right_1;
        left_1.append(&mut tail_1);
        head_2.append(&mut tail_2);
        (Chromosome::new(left_1), Chromosome::new(head_2))
    }

    /// A candidate is valid when each of its genes that has a bound lies in
    /// that bound's inclusive range.
    pub fn verify_if_valid(&self, c: &Chromosome) -> (r: bool)
        ensures
            r == genes_within(c.values@, self.bounds@),
    {
        let n: usize = if c.values.len() < self.bounds.len() { c.values.len() } else { self.bounds.len() };
        let mut i: usize = 0;
        while i < n
            invariant
                n <= c.values@.len(),
                n <= self.bounds@.len(),
                n == c.values@.len() || n == self.bounds@.len(),
                i <= n,
                forall|t: int| 0 <= t < i ==> self.bounds@[t].0 <= #[trigger] c.values@[t] <= self.bounds@[t].1,
            decreases n - i,
        {
            let (lo, hi) = self.bounds[i];
            if c.values[i] < lo || c.values[i] > hi {
                return false;
            }
            i = i + 1;
        }
        true
    }

    /// Orders two candidates by cost.
    pub fn compare(c1: &Chromosome, c2: &Chromosome) -> (r: Ordering)
        ensures
            (r == Ordering::Less) == (c1.fitness < c2.fitness),
            (r == Ordering::Greater) == (c1.fitness > c2.fitness),
            (r == Ordering::Equal) == (c1.fitness == c2.fitness),
    {
        if c1.fitness < c2.fitness {
            Ordering::Less
        } else if c1.fitness > c2.fitness {
            Ordering::Greater
        } else {
            Ordering::Equal
        }
    }

    /// Sorts the population by cost, ascending, whatever the direction of
    /// the optimization.
    pub fn rank(&mut self)
        ensures
            final(self).population@.to_multiset() == old(self).population@.to_multiset(),
            final(self).population@.len() == old(self).population@.len(),
            sorted_by_fitness(final(self).population@),
            final(self).bounds == old(self).bounds,
            final(self).minimization == old(self).minimization,
            final(self).mutation_rate == old(self).mutation_rate,
            final(self).crossover_rate == old(self).crossover_rate,
            final(self).max_generations == old(self).max_generations,
            final(self).history == old(self).history,
    {
        sort_by_fitness(&mut self.population);
        proof {
            vstd::seq_lib::to_multiset_len(old(self).population@);
            vstd::seq_lib::to_multiset_len(self.population@);
        }
    }

    /// The best candidate of a ranked population: the first when minimizing,
    /// the last when maximizing; `EmptyPopulation` when there is none.
    pub fn best(&self) -> (r: Result<Chromosome, GaError>)
        ensures
            self.population@.len() == 0 <==> r == Err::<Chromosome, GaError>(GaError::EmptyPopulation),
            self.population@.len() > 0 <==> r is Ok,
            r is Ok ==> same_candidate(r->Ok_0, ranked_best(self.population@, self.minimization)),
    {
        let n: usize = self.population.len();
        if n == 0 {
            return Err(GaError::EmptyPopulation);
        }
        if self.minimization {
            Ok(self.population[0].duplicate())
        } else {
            Ok(self.population[n - 1].duplicate())
        }
    }

    /// Drops the weakest candidates of a ranked population until at most
    /// `target` are left. A generation trims back to its size before
    /// breeding: when its filter dropped nothing, that removes exactly as many
    /// candidates as were bred; when the filter dropped some, fewer are
    /// removed, and none once the population is at or below the target.
    pub fn trim(&mut self, target: usize)
        ensures
            final(self).population@ == trimmed(old(self).population@, target as int, old(self).minimization),
            final(self).bounds == old(self).bounds,
            final(self).minimization == old(self).minimization,
            final(self).mutation_rate == old(self).mutation_rate,
            final(self).crossover_rate == old(self).crossover_rate,
            final(self).max_generations == old(self).max_generations,
            final(self).history == old(self).history,
    {
        let n: usize = self.population.len();
        if n <= target {
            return;
        }
        if self.minimization {
            self.population.truncate(target);
        } else {
            let tail = self.population.split_off(n - target);
            self.population = tail;
        }
    }


    /// The configuration of the run is as in `other`.
    pub open spec fn same_config(&self, other: &Self) -> bool {
        &&& self.bounds == other.bounds
        &&& self.minimization == other.minimization
        &&& self.mutation_rate == other.mutation_rate
        &&& self.crossover_rate == other.crossover_rate
        &&& self.max_generations == other.max_generations
    }

    /// Scores every candidate of the population, in order, through
    /// `evaluator`, and returns the scores, which become the candidates' costs.
    pub fn evaluate_all<E: Evaluator>(&mut self, evaluator: &mut E) -> (scores: Vec<u64>)
        requires
            old(self).wf(),
        ensures
            final(self).wf(),
            scores@.len() == old(self).population@.len(),
            forall|i: int| 0 <= i < scores@.len() ==> (#[trigger] final(self).population@[i]).fitness == scores@[i],
            final(self).same_config(old(self)),
            final(self).history == old(self).history,
            final(self).population@.len() == old(self).population@.len(),
            forall|i: int|
                0 <= i < old(self).population@.len() ==> {
                    &&& (#[trigger] final(self).population@[i]).values@ == old(self).population@[i].values@
                    &&& final(self).population@[i].mutation_percentage
                        == old(self).population@[i].mutation_percentage
                },
    {
        let mut scores: Vec<u64> = Vec::new();
        let mut j: usize = 0;
        while j < self.population.len()
            invariant
                self.wf(),
                scores@.len() == j,
                forall|i: int| 0 <= i < j ==> (#[trigger] self.population@[i]).fitness == scores@[i],
                self.same_config(old(self)),
                self.history == old(self).history,
                j <= self.population@.len(),
                self.population@.len() == old(self).population@.len(),
                forall|i: int|
                    0 <= i < old(self).population@.len() ==> {
                        &&& (#[trigger] self.population@[i]).values@ == old(self).population@[i].values@
                        &&& self.population@[i].mutation_percentage
                            == old(self).population@[i].mutation_percentage
                    },
            decreases self.population@.len() - j,
        {
            let mut c = self.population[j].duplicate();
            let score: u64 = evaluator.evaluate(&c.values);
            c.fitness = score;
            scores.push(score);
            assert(self.member_wf(self.population@[j as int]));
            self.population.set(j, c);
            j = j + 1;
        }
        scores
    }

    /// The index of the best candidate of a non-empty population, ranked or
    /// not: the first of lowest cost when minimizing, the first of highest
    /// cost when maximizing.
    pub fn best_index(&self) -> (r: usize)
        requires
            self.population@.len() > 0,
        ensures
            r < self.population@.len(),
            forall|i: int|
                0 <= i < self.population@.len() ==> if self.minimization {
                    self.population@[r as int].fitness <= (#[trigger] self.population@[i]).fitness
                } else {
                    self.population@[r as int].fitness >= (#[trigger] self.population@[i]).fitness
                },
            forall|i: int|
                0 <= i < r ==> if self.minimization {
                    (#[trigger] self.population@[i]).fitness > self.population@[r as int].fitness
                } else {
                    (#[trigger] self.population@[i]).fitness < self.population@[r as int].fitness
                },
    {
        let mut r: usize = 0;
        let mut i: usize = 1;
        while i < self.population.len()
            invariant
                r < self.population@.len(),
                1 <= i <= self.population@.len(),
                forall|k: int|
                    0 <= k < i ==> if self.minimization {
                        self.population@[r as int].fitness <= (#[trigger] self.population@[k]).fitness
                    } else {
                        self.population@[r as int].fitness >= (#[trigger] self.population@[k]).fitness
                    },
                forall|k: int|
                    0 <= k < r ==> if self.minimization {
                        (#[trigger] self.population@[k]).fitness > self.population@[r as int].fitness
                    } else {
                        (#[trigger] self.population@[k]).fitness < self.population@[r as int].fitness
                    },
                r < i,
            decreases self.population@.len() - i,
        {
            let better: bool = if self.minimization {
                self.population[i].fitness < self.population[r].fitness
            } else {
                self.population[i].fitness > self.population[r].fitness
            };
            if better {
                r = i;
            }
            i = i + 1;
        }
        r
    }

    /// Breeding: for a fifth of the population size (rounded down), picks
    /// two parents, recombines them, scores both children and appends them.
    /// Returns how many children were added.
    pub fn breed<E: Evaluator>(&mut self, evaluator: &mut E) -> (count: usize)
        requires
            old(self).wf(),
        ensures
            final(self).wf(),
            final(self).same_config(old(self)),
            final(self).history == old(self).history,
            count == 2 * (old(self).population@.len() / 5),
            final(self).population@.len() == old(self).population@.len() + count,
            forall|at: int|
                old(self).population@.len() <= at < final(self).population@.len() && (at
                    - old(self).population@.len()) % 2 == 0 ==> #[trigger] is_bred_pair(
                    final(self).population@,
                    old(self).crossover_rate as int,
                    at,
                ),
            final(self).population@.subrange(0, old(self).population@.len() as int) == old(self).population@,
            all_within(old(self).population@, old(self).bounds@) ==> all_within(final(self).population@, old(self).bounds@),
    {
        let target: usize = self.population.len();
        let rounds: usize = target / 5;
        let mut count: usize = 0;
        let mut k: usize = 0;
        while k < rounds
            invariant
                self.wf(),
                self.same_config(old(self)),
                self.history == old(self).history,
                target == old(self).population@.len(),
                rounds == target / 5,
                k <= rounds,
                count == 2 * k,
                self.population@.len() == target + count,
                self.population@.subrange(0, target as int) == old(self).population@,
                all_within(old(self).population@, old(self).bounds@) ==> all_within(self.population@, self.bounds@),
                forall|at: int|
                    target <= at < self.population@.len() && (at - target) % 2 == 0 ==> #[trigger] is_bred_pair(
                        self.population@,
                        self.crossover_rate as int,
                        at,
                    ),
            decreases rounds - k,
        {
            let (a, b) = self.select_parents();
            let ghost pa = self.population@[a as int];
            let ghost pb = self.population@[b as int];
            assert(self.member_wf(pa));
            assert(self.member_wf(pb));
            let (mut c1, mut c2) = self.crossover((&self.population[a], &self.population[b]));
            proof {
                let s = split_index(self.crossover_rate as int, pa.values@.len() as int);
                if all_within(old(self).population@, old(self).bounds@) {
                    lemma_children_within_bounds(pa.values@, pb.values@, s, self.bounds@);
                }
                assert forall|t: int| 0 <= t < c1.values@.len() implies gene_in_limit(#[trigger] c1.values@[t]) by {
                    if t < s {
                        assert(c1.values@[t] == pa.values@[t]);
                    } else {
                        assert(c1.values@[t] == pb.values@[t]);
                    }
                }
                assert forall|t: int| 0 <= t < c2.values@.len() implies gene_in_limit(#[trigger] c2.values@[t]) by {
                    if t < s {
                        assert(c2.values@[t] == pb.values@[t]);
                    } else {
                        assert(c2.values@[t] == pa.values@[t]);
                    }
                }
            }
            c1.fitness = evaluator.evaluate(&c1.values);
            c2.fitness = evaluator.evaluate(&c2.values);
            let ghost mid = self.population@;
            let ghost v1 = c1.values@;
            let ghost v2 = c2.values@;
            self.population.push(c1);
            self.population.push(c2);
            proof {
                let rate = self.crossover_rate as int;
                let pop = self.population@;
                assert(pop[mid.len() as int].values@ == v1 && pop[(mid.len() + 1) as int].values@ == v2);
                assert(pop[a as int] == pa && pop[b as int] == pb);
                assert(is_bred_pair(pop, rate, mid.len() as int));
                assert forall|at: int|
                    target <= at < pop.len() && (at - target) % 2 == 0 implies #[trigger] is_bred_pair(pop, rate, at) by {
                    if at < mid.len() {
                        assert(is_bred_pair(mid, rate, at));
                        let (x, y) = choose|x: int, y: int|
                            0 <= x < at && 0 <= y < at && mid[at].values@ == #[trigger] first_child(
                                mid[x].values@,
                                mid[y].values@,
                                rate,
                            ) && mid[at + 1].values@ == second_child(mid[x].values@, mid[y].values@, rate);
                        assert(pop[x] == mid[x] && pop[y] == mid[y] && pop[at] == mid[at] && pop[at + 1] == mid[at + 1]);
                    }
                }
            }
            assert(self.population@.subrange(0, target as int) =~= mid.subrange(0, target as int));
            count = count + 2;
            k = k + 1;
        }
        count
    }

    /// Mutates and re-scores every candidate once, in order, and keeps only
    /// the valid ones (every gene within its bound), building the surviving
    /// population afresh.
    pub fn mutate_and_filter<E: Evaluator>(&mut self, evaluator: &mut E)
        requires
            old(self).wf(),
        ensures
            final(self).wf(),
            final(self).same_config(old(self)),
            final(self).history == old(self).history,
            final(self).population@.len() <= old(self).population@.len(),
            all_within(final(self).population@, old(self).bounds@),
            exists|mutated: Seq<Chromosome>|
                {
                    &&& mutated.len() == old(self).population@.len()
                    &&& forall|i: int|
                        0 <= i < mutated.len() ==> mutant_of(
                            #[trigger] mutated[i],
                            old(self).population@[i],
                            old(self).mutation_rate as int,
                        )
                    &&& final(self).population@ == keep_valid(mutated, old(self).bounds@)
                },
            (old(self).mutation_rate == 0 && all_within(old(self).population@, old(self).bounds@)) ==> {
                &&& final(self).population@.len() == old(self).population@.len()
                &&& forall|i: int|
                    0 <= i < old(self).population@.len() ==> (#[trigger] final(self).population@[i]).values@
                        == old(self).population@[i].values@
            },
    {
        let mut pool: Vec<Chromosome> = Vec::new();
        std::mem::swap(&mut pool, &mut self.population);
        let n: usize = pool.len();
        let ghost mut mutated: Seq<Chromosome> = Seq::empty();
        let mut j: usize = 0;
        while j < n
            invariant
                self.wf(),
                self.same_config(old(self)),
                self.history == old(self).history,
                old(self).wf(),
                pool@ == old(self).population@,
                n == pool@.len(),
                j <= n,
                self.population@.len() <= j,
                all_within(self.population@, self.bounds@),
                mutated.len() == j,
                forall|i: int| 0 <= i < j ==> mutant_of(#[trigger] mutated[i], pool@[i], self.mutation_rate as int),
                self.population@ == keep_valid(mutated, self.bounds@),
                (self.mutation_rate == 0 && all_within(pool@, self.bounds@)) ==> {
                    &&& self.population@.len() == j
                    &&& forall|i: int| 0 <= i < j ==> (#[trigger] self.population@[i]).values@ == pool@[i].values@
                },
            decreases n - j,
        {
            let mut c = pool[j].duplicate();
            assert(old(self).member_wf(old(self).population@[j as int]));
            assert(self.member_wf(pool@[j as int]));
            c.mutation(self.mutation_rate, &mut self.rng);
            c.fitness = evaluator.evaluate(&c.values);
            let ghost prev = mutated;
            proof {
                mutated = mutated.push(c);
                assert(mutated.drop_last() =~= prev);
                assert(mutant_of(mutated[j as int], pool@[j as int], self.mutation_rate as int));
                if self.mutation_rate == 0 {
                    let (i, p, grow) = choose|i: int, p: int, grow: bool|
                        0 <= i < pool@[j as int].values@.len() && 0 <= p < RATE_SCALE && c.values@
                            == #[trigger] mutation_outcome(
                            pool@[j as int].values@,
                            pool@[j as int].mutation_percentage as int,
                            i,
                            p,
                            grow,
                            0,
                        );
                    assert(c.values@ == pool@[j as int].values@);
                }
            }
            if self.verify_if_valid(&c) {
                proof {
                    assert forall|t: int| 0 <= t < c.values@.len() implies gene_in_limit(#[trigger] c.values@[t]) by {
                        assert(gene_in_limit(self.bounds@[t].0));
                        assert(gene_in_limit(self.bounds@[t].1));
                    }
                }
                self.population.push(c);
            } else {
                assert(self.population@ == keep_valid(mutated, self.bounds@));
                proof {
                    if self.mutation_rate == 0 && all_within(pool@, self.bounds@) {
                        assert(within_bounds(pool@[j as int].values@, self.bounds@));
                        assert(c.values@ == pool@[j as int].values@);
                    }
                }
            }
            assert(forall|i: int| 0 <= i < j ==> mutant_of(#[trigger] mutated[i], pool@[i], self.mutation_rate as int));
            j = j + 1;
        }
    }


    /// One generation: breed, mutate and filter, rank, take the best, trim
    /// back to the size the population had before breeding (dropping the
    /// weakest, see `trim`), and record the best in the history. Fails with
    /// `EmptyPopulation` when the filter keeps no candidate.
    pub fn next_generation<E: Evaluator>(&mut self, evaluator: &mut E) -> (r: Result<Chromosome, GaError>)
        requires
            old(self).wf(),
        ensures
            final(self).wf(),
            final(self).same_config(old(self)),
            r is Err ==> {
                &&& r == Err::<Chromosome, GaError>(GaError::EmptyPopulation)
                &&& final(self).population@.len() == 0
                &&& final(self).history == old(self).history
                &&& old(self).failed_generation(old(self).population@)
            },
            r is Ok ==> {
                &&& 0 < final(self).population@.len() <= old(self).population@.len()
                &&& sorted_by_fitness(final(self).population@)
                &&& all_within(final(self).population@, old(self).bounds@)
                &&& same_candidate(r->Ok_0, ranked_best(final(self).population@, old(self).minimization))
                &&& final(self).history@.len() == old(self).history@.len() + 1
                &&& final(self).history@.subrange(0, old(self).history@.len() as int) == old(self).history@
                &&& same_candidate(final(self).history@.last(), r->Ok_0)
                &&& exists|ranked: Seq<Chromosome>|
                    {
                        &&& old(self).generation(old(self).population@, final(self).population@, ranked, r->Ok_0)
                        &&& all_within(ranked, old(self).bounds@)
                        &&& ranked.len() <= old(self).population@.len() + 2 * (old(self).population@.len() / 5)
                        &&& ranked.len() >= old(self).population@.len() ==> final(self).population@.len()
                            == old(self).population@.len()
                        &&& (old(self).mutation_rate == 0 && all_within(old(self).population@, old(self).bounds@))
                            ==> {
                            &&& ranked.len() == old(self).population@.len() + 2 * (old(self).population@.len() / 5)
                            &&& forall|j: int|
                                0 <= j < old(self).population@.len() ==> exists|k: int|
                                    0 <= k < ranked.len() && (#[trigger] ranked[k]).values@
                                        == (#[trigger] old(self).population@[j]).values@ && (if old(self).minimization {
                                        (r->Ok_0).fitness <= ranked[k].fitness
                                    } else {
                                        (r->Ok_0).fitness >= ranked[k].fitness
                                    })
                        }
                    }
            },
            (old(self).mutation_rate == 0 && old(self).population@.len() > 0
                && all_within(old(self).population@, old(self).bounds@)) ==> {
                &&& r is Ok
                &&& final(self).population@.len() == old(self).population@.len()
            },
    {
        let target: usize = self.population.len();
        let ghost start = self.population@;
        let _bred: usize = self.breed(evaluator);
        let ghost bred = self.population@;
        self.mutate_and_filter(evaluator);
        let ghost filtered = self.population@;
        let ghost mutated = choose|mutated: Seq<Chromosome>|
            {
                &&& mutated.len() == bred.len()
                &&& forall|i: int| 0 <= i < mutated.len() ==> mutant_of(#[trigger] mutated[i], bred[i], self.mutation_rate as int)
                &&& filtered == keep_valid(mutated, self.bounds@)
            };
        assert(bred_from(bred, start, self.crossover_rate as int));
        assert(mutated_from(mutated, bred, self.mutation_rate as int));
        self.rank();
        proof {
            let ranked = self.population@;
            assert forall|i: int| 0 <= i < ranked.len() implies
                self.member_wf(#[trigger] ranked[i]) && within_bounds(ranked[i].values@, self.bounds@) by {
                lemma_permuted_member(filtered, ranked, i);
                let j = choose|j: int| 0 <= j < filtered.len() && filtered[j] == ranked[i];
                assert(within_bounds(filtered[j].values@, self.bounds@));
                assert(self.member_wf(filtered[j]));
            }
        }
        let best = match self.best() {
            Ok(b) => b,
            Err(e) => {
                proof {
                    vstd::seq_lib::to_multiset_len(filtered);
                    vstd::seq_lib::to_multiset_len(self.population@);
                    assert(keep_valid(mutated, self.bounds@).len() == 0);
                }
                return Err(e);
            },
        };
        let ghost ranked = self.population@;
        proof {
            vstd::seq_lib::to_multiset_len(filtered);
            vstd::seq_lib::to_multiset_len(ranked);
            if self.mutation_rate == 0 && all_within(start, self.bounds@) {
                assert forall|j: int| 0 <= j < start.len() implies exists|k: int|
                    0 <= k < ranked.len() && (#[trigger] ranked[k]).values@ == (#[trigger] start[j]).values@ && (if self.minimization {
                        best.fitness <= ranked[k].fitness
                    } else {
                        best.fitness >= ranked[k].fitness
                    }) by {
                    assert(bred[j] == start[j]);
                    assert(filtered[j].values@ == bred[j].values@);
                    lemma_permuted_member(ranked, filtered, j);
                    let k = choose|k: int| 0 <= k < ranked.len() && ranked[k] == filtered[j];
                    assert(ranked[k].values@ == start[j].values@);
                    if self.minimization {
                        assert(ranked[0].fitness <= ranked[k].fitness);
                    } else {
                        assert(ranked[k].fitness <= ranked[ranked.len() - 1].fitness);
                    }
                }
            }
        }
        self.trim(target);
        proof {
            let kept = self.population@;
            assert forall|i: int| 0 <= i < kept.len() implies
                self.member_wf(#[trigger] kept[i]) && within_bounds(kept[i].values@, self.bounds@) by {
                if ranked.len() > target && !self.minimization {
                    assert(kept[i] == ranked[ranked.len() - target + i]);
                } else {
                    assert(kept[i] == ranked[i]);
                }
            }
            if ranked.len() > target && !self.minimization {
                assert(kept.last() == ranked.last());
            }
        }
        let ghost before = self.history@;
        self.history.push(best.duplicate());
        assert(self.history@.subrange(0, before.len() as int) =~= before);
        assert(sorted_by_fitness(ranked) && all_within(ranked, self.bounds@));
        assert(ranked.to_multiset() == keep_valid(mutated, old(self).bounds@).to_multiset());
        assert(mutated_from(mutated, bred, old(self).mutation_rate as int));
        assert(old(self).generation_ranking(start, ranked));
        assert(old(self).generation(start, self.population@, ranked, best));
        Ok(best)
    }

    /// Runs the optimization: scores the population, then runs
    /// `max_generations` generations and returns the best candidate of the
    /// last one. With no generation to run, returns the best of the scored
    /// population as it stands, which is neither bred nor mutated.
    pub fn optimize<E: Evaluator>(&mut self, evaluator: &mut E) -> (r: Result<Chromosome, GaError>)
        requires
            old(self).wf(),
        ensures
            final(self).wf(),
            final(self).same_config(old(self)),
            r == Err::<Chromosome, GaError>(GaError::InvalidConfiguration) <==> (old(self).max_generations == 0
                && old(self).population@.len() == 0),
            r is Err ==> r == Err::<Chromosome, GaError>(GaError::InvalidConfiguration) || (r
                == Err::<Chromosome, GaError>(GaError::EmptyPopulation) && final(self).population@.len() == 0),
            (old(self).max_generations == 0 && old(self).population@.len() > 0) ==> {
                &&& r is Ok
                &&& final(self).history == old(self).history
                &&& final(self).population@.len() == old(self).population@.len()
                &&& forall|i: int|
                    0 <= i < old(self).population@.len() ==> (#[trigger] final(self).population@[i]).values@
                        == old(self).population@[i].values@
                &&& exists|k: int|
                    0 <= k < final(self).population@.len() && same_candidate(r->Ok_0, final(self).population@[k])
                        && forall|i: int|
                        0 <= i < final(self).population@.len() ==> if old(self).minimization {
                            final(self).population@[k].fitness <= (#[trigger] final(self).population@[i]).fitness
                        } else {
                            final(self).population@[k].fitness >= (#[trigger] final(self).population@[i]).fitness
                        }
            },
            (old(self).max_generations > 0 && r is Ok) ==> {
                &&& 0 < final(self).population@.len() <= old(self).population@.len()
                &&& sorted_by_fitness(final(self).population@)
                &&& all_within(final(self).population@, old(self).bounds@)
                &&& same_candidate(r->Ok_0, ranked_best(final(self).population@, old(self).minimization))
                &&& final(self).history@.len() == old(self).history@.len() + old(self).max_generations
                &&& same_candidate(final(self).history@.last(), r->Ok_0)
            },
            old(self).max_generations > 0 ==> exists|pops: Seq<Seq<Chromosome>>, ranks: Seq<Seq<Chromosome>>|
                {
                    &&& #[trigger] old(self).run(
                        pops,
                        ranks,
                        final(self).history@.subrange(
                            old(self).history@.len() as int,
                            final(self).history@.len() as int,
                        ),
                    )
                    &&& pops[0].len() == old(self).population@.len()
                    &&& forall|i: int|
                        0 <= i < old(self).population@.len() ==> (#[trigger] pops[0][i]).values@
                            == old(self).population@[i].values@
                    &&& final(self).history@.subrange(0, old(self).history@.len() as int) == old(self).history@
                    &&& r is Ok ==> {
                        &&& ranks.len() == old(self).max_generations
                        &&& final(self).population@ == pops.last()
                        &&& same_candidate(r->Ok_0, final(self).history@.last())
                    }
                    &&& r is Err ==> {
                        &&& ranks.len() < old(self).max_generations
                        &&& old(self).failed_generation(pops.last())
                    }
                },
            (old(self).mutation_rate == 0 && old(self).population@.len() > 0
                && all_within(old(self).population@, old(self).bounds@)) ==> {
                &&& r is Ok
                &&& final(self).population@.len() == old(self).population@.len()
            },
    {
        if self.max_generations == 0 && self.population.len() == 0 {
            return Err(GaError::InvalidConfiguration);
        }
        let _scores = self.evaluate_all(evaluator);
        assert(all_within(old(self).population@, old(self).bounds@) ==> all_within(self.population@, self.bounds@)) by {
            if all_within(old(self).population@, old(self).bounds@) {
                assert forall|i: int| 0 <= i < self.population@.len() implies
                    within_bounds((#[trigger] self.population@[i]).values@, self.bounds@) by {
                    assert(within_bounds(old(self).population@[i].values@, self.bounds@));
                }
            }
        }
        if self.max_generations == 0 {
            let k: usize = self.best_index();
            return Ok(self.population[k].duplicate());
        }
        let ghost h0 = self.history@.len() as int;
        let ghost mut pops: Seq<Seq<Chromosome>> = seq![self.population@];
        let ghost mut ranks: Seq<Seq<Chromosome>> = Seq::empty();
        assert(self.history@.subrange(h0, h0) =~= Seq::<Chromosome>::empty());
        assert(self.history@.subrange(0, h0) =~= old(self).history@);
        let mut best: Chromosome = Chromosome::new_empty();
        let mut g: usize = 0;
        while g < self.max_generations
            invariant
                self.wf(),
                h0 == old(self).history@.len(),
                ranks.len() == g,
                old(self).run(pops, ranks, self.history@.subrange(h0, self.history@.len() as int)),
                self.population@ == pops.last(),
                pops[0].len() == old(self).population@.len(),
                forall|i: int|
                    0 <= i < old(self).population@.len() ==> (#[trigger] pops[0][i]).values@
                        == old(self).population@[i].values@,
                self.history@.subrange(0, h0) == old(self).history@,
                self.same_config(old(self)),
                0 < self.max_generations,
                g <= self.max_generations,
                self.history@.len() == old(self).history@.len() + g,
                self.population@.len() <= old(self).population@.len(),
                g > 0 ==> {
                    &&& 0 < self.population@.len()
                    &&& sorted_by_fitness(self.population@)
                    &&& all_within(self.population@, old(self).bounds@)
                    &&& same_candidate(best, ranked_best(self.population@, old(self).minimization))
                    &&& same_candidate(self.history@.last(), best)
                },
                (old(self).mutation_rate == 0 && old(self).population@.len() > 0
                    && all_within(old(self).population@, old(self).bounds@)) ==> {
                    &&& self.population@.len() == old(self).population@.len()
                    &&& all_within(self.population@, old(self).bounds@)
                },
            decreases self.max_generations - g,
        {
            let ghost before_pop = self.population@;
            let ghost before_hist = self.history@;
            match self.next_generation(evaluator) {
                Ok(b) => {
                    best = b;
                    proof {
                        let ranked = choose|ranked: Seq<Chromosome>|
                            {
                                &&& old(self).generation(before_pop, self.population@, ranked, best)
                                &&& all_within(ranked, old(self).bounds@)
                                &&& ranked.len() <= before_pop.len() + 2 * (before_pop.len() / 5)
                                &&& ranked.len() >= before_pop.len() ==> self.population@.len() == before_pop.len()
                                &&& (old(self).mutation_rate == 0 && all_within(before_pop, old(self).bounds@))
                                    ==> {
                                    &&& ranked.len() == before_pop.len() + 2 * (before_pop.len() / 5)
                                    &&& forall|j: int|
                                        0 <= j < before_pop.len() ==> exists|k: int|
                                            0 <= k < ranked.len() && (#[trigger] ranked[k]).values@
                                                == (#[trigger] before_pop[j]).values@ && (if old(self).minimization {
                                                best.fitness <= ranked[k].fitness
                                            } else {
                                                best.fitness >= ranked[k].fitness
                                            })
                                }
                            };
                        let old_records = before_hist.subrange(h0, before_hist.len() as int);
                        let records = self.history@.subrange(h0, self.history@.len() as int);
                        let old_pops = pops;
                        let old_ranks = ranks;
                        pops = pops.push(self.population@);
                        ranks = ranks.push(ranked);
                        assert(self.history@.subrange(0, before_hist.len() as int) == before_hist);
                        assert forall|k: int| 0 <= k < old_records.len() implies records[k] == old_records[k] by {
                            assert(records[k] == self.history@[h0 + k]);
                            assert(self.history@[h0 + k] == before_hist[h0 + k]);
                        }
                        assert(records.last() == self.history@.last());
                        assert(old(self).generation(before_pop, self.population@, ranked, records.last()));
                        assert forall|q: int| 0 <= q < ranks.len() implies old(self).generation(
                            pops[q],
                            pops[q + 1],
                            #[trigger] ranks[q],
                            records[q],
                        ) by {
                            if q < old_ranks.len() {
                                assert(old(self).generation(old_pops[q], old_pops[q + 1], old_ranks[q], old_records[q]));
                                assert(pops[q] == old_pops[q] && pops[q + 1] == old_pops[q + 1]);
                            } else {
                                assert(pops[q] == before_pop);
                            }
                        }
                        assert(self.history@.subrange(0, h0) =~= before_hist.subrange(0, h0));
                    }
                },
                Err(e) => {
                    return Err(e);
                },
            }
            g = g + 1;
        }
        Ok(best)
    }

}

} // verus!
