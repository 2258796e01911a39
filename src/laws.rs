//! General properties of the engine, stated over the same spec functions as
//! its contracts.
use crate::chromosome::{abs, mutated_gene, Chromosome, RATE_SCALE};
use crate::ga::{
    first_child, first_crossing, ranked_best, roulette, roulette_weight, second_child,
    sorted_by_fitness, split_index, trimmed, total_fitness, GA,
};
use vstd::prelude::*;

verus! {

/// Both children of a crossover have as many genes as their parents.
pub proof fn law_children_keep_length(a: Seq<i64>, b: Seq<i64>, rate: int)
    requires
        a.len() == b.len(),
        0 <= rate <= RATE_SCALE,
    ensures
        first_child(a, b, rate).len() == a.len(),
        second_child(a, b, rate).len() == a.len(),
{
    lemma_split_in_range(rate, a.len() as int);
}

/// With crossover point `s`, the first child agrees with the first parent
/// before `s` and with the second parent from `s` on; the second child is
/// the exact complement.
pub proof fn law_single_point_crossover(a: Seq<i64>, b: Seq<i64>, rate: int)
    requires
        a.len() == b.len(),
        0 <= rate <= RATE_SCALE,
    ensures
        ({
            let s = split_index(rate, a.len() as int);
            let c1 = first_child(a, b, rate);
            let c2 = second_child(a, b, rate);
            &&& c1.subrange(0, s) == a.subrange(0, s)
            &&& c1.subrange(s, c1.len() as int) == b.subrange(s, b.len() as int)
            &&& c2.subrange(0, s) == b.subrange(0, s)
            &&& c2.subrange(s, c2.len() as int) == a.subrange(s, a.len() as int)
        }),
{
    lemma_split_in_range(rate, a.len() as int);
    let s = split_index(rate, a.len() as int);
    let c1 = first_child(a, b, rate);
    let c2 = second_child(a, b, rate);
    assert(c1.subrange(0, s) =~= a.subrange(0, s));
    assert(c1.subrange(s, c1.len() as int) =~= b.subrange(s, b.len() as int));
    assert(c2.subrange(0, s) =~= b.subrange(0, s));
    assert(c2.subrange(s, c2.len() as int) =~= a.subrange(s, a.len() as int));
}

proof fn lemma_split_in_range(rate: int, n: int)
    requires
        0 <= rate <= RATE_SCALE,
        0 <= n,
    ensures
        0 <= split_index(rate, n) <= n,
{
    assert(0 <= rate * n <= (RATE_SCALE as int) * n) by (nonlinear_arith)
        requires 0 <= rate <= RATE_SCALE, 0 <= n;
    assert(rate * n / (RATE_SCALE as int) <= n) by (nonlinear_arith)
        requires 0 <= rate * n <= (RATE_SCALE as int) * n, RATE_SCALE == 1_000_000;
}

proof fn lemma_crossing_in_range(pop: Seq<Chromosome>, total: int, minimize: bool, start: int, p: int)
    requires
        0 <= start <= pop.len(),
    ensures
        start <= first_crossing(pop, total, minimize, start, p) <= pop.len(),
    decreases pop.len() - start,
{
    if start < pop.len() {
        lemma_crossing_in_range(
            pop,
            total,
            minimize,
            start + 1,
            p - roulette_weight(pop[start].fitness, total, minimize),
        );
    }
}

/// The roulette only ever picks indices of the population, whatever its
/// draws, given fallback indices of the population.
pub proof fn law_roulette_in_range(pop: Seq<Chromosome>, minimize: bool, f0: int, f1: int, draw1: int, draw2: int)
    requires
        0 <= f0 < pop.len(),
        0 <= f1 < pop.len(),
    ensures
        0 <= roulette(pop, minimize, (f0, f1), draw1, draw2).0 < pop.len(),
        0 <= roulette(pop, minimize, (f0, f1), draw1, draw2).1 < pop.len(),
{
    let total = total_fitness(pop);
    let n = pop.len() as int;
    let c1 = first_crossing(pop, total, minimize, 0, draw1);
    lemma_crossing_in_range(pop, total, minimize, 0, draw1);
    let start2 = if draw1 <= 0 { 0 } else if c1 < n { c1 + 1 } else { n };
    lemma_crossing_in_range(pop, total, minimize, start2, draw2);
}

/// A mutation moves a gene by exactly its magnitude times the gene's
/// absolute value (in parts per million, rounded down), in either direction.
pub proof fn law_mutation_magnitude(v: int, m: int, grow: bool)
    requires
        0 <= m,
    ensures
        abs(mutated_gene(v, m, grow) - v) == abs(v) * m / (RATE_SCALE as int),
{
    if v < 0 {
        assert(0 <= (-v) * m) by (nonlinear_arith)
            requires v < 0, 0 <= m;
    } else {
        assert(0 <= v * m) by (nonlinear_arith)
            requires v >= 0, 0 <= m;
    }
}

/// In a population ranked by cost, the best candidate is the one of lowest
/// cost when minimizing and of highest cost when maximizing: only the end
/// that is read differs.
pub proof fn law_ranked_best_is_extreme(pop: Seq<Chromosome>, minimize: bool)
    requires
        sorted_by_fitness(pop),
        pop.len() > 0,
    ensures
        forall|i: int|
            0 <= i < pop.len() ==> if minimize {
                ranked_best(pop, minimize).fitness <= (#[trigger] pop[i]).fitness
            } else {
                ranked_best(pop, minimize).fitness >= (#[trigger] pop[i]).fitness
            },
{
    assert forall|i: int| 0 <= i < pop.len() implies if minimize {
        ranked_best(pop, minimize).fitness <= (#[trigger] pop[i]).fitness
    } else {
        ranked_best(pop, minimize).fitness >= (#[trigger] pop[i]).fitness
    } by {
        if minimize {
            assert(pop[0].fitness <= pop[i].fitness);
        } else {
            assert(pop[i].fitness <= pop[pop.len() - 1].fitness);
        }
    }
}

/// Trimming a ranked population that holds at least `target` candidates
/// leaves exactly `target`, still ranked, with the best one kept.
pub proof fn law_trim_restores_size(pop: Seq<Chromosome>, target: int, minimize: bool)
    requires
        sorted_by_fitness(pop),
        0 < target <= pop.len(),
    ensures
        trimmed(pop, target, minimize).len() == target,
        sorted_by_fitness(trimmed(pop, target, minimize)),
        ranked_best(trimmed(pop, target, minimize), minimize) == ranked_best(pop, minimize),
{
    let t = trimmed(pop, target, minimize);
    if pop.len() > target && !minimize {
        assert forall|i: int, j: int| 0 <= i <= j < t.len() implies (#[trigger] t[i]).fitness <= (#[trigger] t[j]).fitness by {
            assert(t[i] == pop[pop.len() - target + i]);
            assert(t[j] == pop[pop.len() - target + j]);
        }
    } else {
        assert forall|i: int, j: int| 0 <= i <= j < t.len() implies (#[trigger] t[i]).fitness <= (#[trigger] t[j]).fitness by {
            assert(t[i] == pop[i]);
            assert(t[j] == pop[j]);
        }
    }
}

/// The sum of the roulette weights of the candidates from `start` up to,
/// but not including, `end`.
pub open spec fn running_weight(pop: Seq<Chromosome>, total: int, minimize: bool, start: int, end: int) -> int
    decreases end - start,
{
    if start >= end {
        0
    } else {
        roulette_weight(pop[start].fitness, total, minimize) + running_weight(pop, total, minimize, start + 1, end)
    }
}

/// The roulette resolves a draw at the least index from `start` whose
/// running weight reaches it, and at the population size when none does.
pub proof fn law_first_crossing_is_least(pop: Seq<Chromosome>, total: int, minimize: bool, start: int, p: int)
    requires
        0 <= start <= pop.len(),
    ensures
        ({
            let c = first_crossing(pop, total, minimize, start, p);
            &&& start <= c <= pop.len()
            &&& forall|k: int| start <= k < c ==> #[trigger] running_weight(pop, total, minimize, start, k + 1) < p
            &&& c < pop.len() ==> running_weight(pop, total, minimize, start, c + 1) >= p
        }),
    decreases pop.len() - start,
{
    if start < pop.len() {
        let w = roulette_weight(pop[start].fitness, total, minimize);
        if w < p {
            law_first_crossing_is_least(pop, total, minimize, start + 1, p - w);
            let c = first_crossing(pop, total, minimize, start, p);
            assert forall|k: int| start <= k < c implies #[trigger] running_weight(pop, total, minimize, start, k + 1) < p by {
                if k > start {
                    assert(running_weight(pop, total, minimize, start + 1, k + 1) < p - w);
                } else {
                    assert(running_weight(pop, total, minimize, start + 1, start + 1) == 0);
                }
            }
        } else {
            assert(running_weight(pop, total, minimize, start + 1, start + 1) == 0);
        }
    }
}

/// Trimming a ranked population drops its worst candidates: when
/// minimizing, every dropped candidate costs at least as much as every kept
/// one; when maximizing, at most as much.
pub proof fn law_trim_drops_worst(pop: Seq<Chromosome>, target: int, minimize: bool)
    requires
        sorted_by_fitness(pop),
        0 <= target <= pop.len(),
    ensures
        minimize ==> forall|i: int, j: int|
            0 <= i < target <= j < pop.len() ==> (#[trigger] trimmed(pop, target, minimize)[i]).fitness
                <= (#[trigger] pop[j]).fitness,
        !minimize ==> forall|i: int, j: int|
            0 <= j < pop.len() - target && 0 <= i < target ==> (#[trigger] pop[j]).fitness <= (
            #[trigger] trimmed(pop, target, minimize)[i]).fitness,
{
    let t = trimmed(pop, target, minimize);
    if minimize {
        assert forall|i: int, j: int| 0 <= i < target <= j < pop.len() implies (#[trigger] t[i]).fitness
            <= (#[trigger] pop[j]).fitness by {
            assert(t[i] == pop[i]);
        }
    } else {
        assert forall|i: int, j: int| 0 <= j < pop.len() - target && 0 <= i < target implies (
        #[trigger] pop[j]).fitness <= (#[trigger] t[i]).fitness by {
            if pop.len() > target {
                assert(t[i] == pop[pop.len() - target + i]);
            } else {
                assert(t[i] == pop[i]);
            }
        }
    }
}

/// Over a run of generations in which every ranking holds at least as many
/// candidates as the generation started with (no generation's filter drops
/// more than its children), the population ends the size it started.
pub proof fn law_run_keeps_size(
    ga: GA,
    pops: Seq<Seq<Chromosome>>,
    ranks: Seq<Seq<Chromosome>>,
    records: Seq<Chromosome>,
)
    requires
        ga.run(pops, ranks, records),
        forall|g: int| 0 <= g < ranks.len() ==> (#[trigger] ranks[g]).len() >= pops[g].len(),
    ensures
        pops.last().len() == pops[0].len(),
{
    lemma_run_prefix_size(ga, pops, ranks, records, ranks.len() as int);
}

proof fn lemma_run_prefix_size(
    ga: GA,
    pops: Seq<Seq<Chromosome>>,
    ranks: Seq<Seq<Chromosome>>,
    records: Seq<Chromosome>,
    n: int,
)
    requires
        ga.run(pops, ranks, records),
        forall|g: int| 0 <= g < ranks.len() ==> (#[trigger] ranks[g]).len() >= pops[g].len(),
        0 <= n <= ranks.len(),
    ensures
        pops[n].len() == pops[0].len(),
    decreases n,
{
    if n > 0 {
        lemma_run_prefix_size(ga, pops, ranks, records, n - 1);
        assert(ga.generation(pops[n - 1], pops[n], ranks[n - 1], records[n - 1]));
    }
}

} // verus!
