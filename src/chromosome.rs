//! A candidate parameter vector, its cost, and its mutation.
use crate::random::draw_below;
use vstd::prelude::*;

verus! {

/// The fixed-point unit of every rate and fraction: parts per million.
pub const RATE_SCALE: u64 = 1_000_000;

/// The mutation magnitude that a new candidate starts with: one tenth.
pub const DEFAULT_MAGNITUDE: u64 = 100_000;

/// The largest absolute gene value the optimizer works with, so that a gene
/// perturbed by at most its own size still fits in an `i64`.
pub const GENE_LIMIT: i64 = 4_611_686_018_427_387_903;

/// A gene value that the optimizer can perturb without overflow.
pub open spec fn gene_in_limit(v: i64) -> bool {
    -GENE_LIMIT <= v <= GENE_LIMIT
}

/// The absolute value of an integer.
pub open spec fn abs(v: int) -> int {
    if v >= 0 { v } else { -v }
}

/// The change that a mutation of magnitude `m` makes to gene `v`: the
/// fraction `m / RATE_SCALE` of `v`, truncated toward zero.
pub open spec fn perturbation(v: int, m: int) -> int {
    if v >= 0 {
        v * m / (RATE_SCALE as int)
    } else {
        -((-v) * m / (RATE_SCALE as int))
    }
}

/// Gene `v` after a mutation of magnitude `m`, moved away from zero when
/// `grow` holds and toward it otherwise.
pub open spec fn mutated_gene(v: int, m: int, grow: bool) -> int {
    if grow {
        v + perturbation(v, m)
    } else {
        v - perturbation(v, m)
    }
}

/// The genes after one mutation decision: gene `i` is perturbed if and only
/// if the draw `p` lies below `rate`.
pub open spec fn mutation_outcome(values: Seq<i64>, m: int, i: int, p: int, grow: bool, rate: int) -> Seq<i64> {
    if p < rate {
        values.update(i, mutated_gene(values[i] as int, m, grow) as i64)
    } else {
        values
    }
}

/// A candidate: its genes, its cost, and its relative mutation magnitude
/// (in parts per million).
#[derive(Debug, Clone)]
pub struct Chromosome {
    pub values: Vec<i64>,
    pub fitness: u64,
    pub mutation_percentage: u64,
}

impl Chromosome {
    /// The candidate can be mutated without overflow.
    pub open spec fn wf(&self) -> bool {
        &&& self.mutation_percentage <= RATE_SCALE
        &&& forall|i: int| 0 <= i < self.values@.len() ==> gene_in_limit(#[trigger] self.values@[i])
    }

    /// A candidate with no genes.
    pub fn new_empty() -> (r: Self)
        ensures
            r.values@.len() == 0,
            r.fitness == 0,
            r.mutation_percentage == DEFAULT_MAGNITUDE,
    {
        Chromosome { values: Vec::new(), fitness: 0, mutation_percentage: DEFAULT_MAGNITUDE }
    }

    /// A candidate with the given genes, a cost of zero and the default
    /// magnitude.
    pub fn new(v: Vec<i64>) -> (r: Self)
        ensures
            r.values@ == v@,
            r.fitness == 0,
            r.mutation_percentage == DEFAULT_MAGNITUDE,
    {
        Chromosome { values: v, fitness: 0, mutation_percentage: DEFAULT_MAGNITUDE }
    }

    /// A copy of the genes.
    pub fn get_values(&self) -> (r: Vec<i64>)
        ensures
            r@ == self.values@,
    {
        let mut r: Vec<i64> = Vec::new();
        let mut i: usize = 0;
        while i < self.values.len()
            invariant
                i <= self.values@.len(),
                r@ == self.values@.subrange(0, i as int),
            decreases self.values@.len() - i,
        {
            r.push(self.values[i]);
            i = i + 1;
        }
        r
    }

    /// A copy of the whole candidate.
    pub fn duplicate(&self) -> (r: Self)
        ensures
            r.values@ == self.values@,
            r.fitness == self.fitness,
            r.mutation_percentage == self.mutation_percentage,
    {
        Chromosome {
            values: self.get_values(),
            fitness: self.fitness,
            mutation_percentage: self.mutation_percentage,
        }
    }

    /// Applies one mutation decision: gene `index` is perturbed, away from
    /// zero when `grow` holds, if and only if the draw `p` lies below
    /// `mutation_rate`; no other gene changes.
    pub fn apply_mutation(&mut self, index: usize, p: u64, grow: bool, mutation_rate: u64)
        requires
            old(self).wf(),
            index < old(self).values@.len(),
        ensures
            final(self).fitness == old(self).fitness,
            final(self).mutation_percentage == old(self).mutation_percentage,
            p < mutation_rate ==> final(self).values@ == old(self).values@.update(
                index as int,
                mutated_gene(
                    old(self).values@[index as int] as int,
                    old(self).mutation_percentage as int,
                    grow,
                ) as i64,
            ),
            p >= mutation_rate ==> final(self).values@ == old(self).values@,
    {
        if p < mutation_rate {
            let v: i64 = self.values[index];
            let m: u64 = self.mutation_percentage;
            assert(gene_in_limit(self.values@[index as int]));
            let a: i128 = v as i128;
            let d: i128 = if a >= 0 {
                proof {
                    assert(0 <= a * (m as int) <= a * (RATE_SCALE as int)) by (nonlinear_arith)
                        requires 0 <= a, 0 <= m <= RATE_SCALE;
                }
                a * (m as i128) / (RATE_SCALE as i128)
            } else {
                proof {
                    assert(0 <= (-a) * (m as int) <= (-a) * (RATE_SCALE as int)) by (nonlinear_arith)
                        requires 0 <= -a, 0 <= m <= RATE_SCALE;
                }
                -((-a) * (m as i128) / (RATE_SCALE as i128))
            };
            assert(abs(d as int) <= abs(a as int)) by (nonlinear_arith)
                requires
                    a >= 0 ==> d == a * (m as int) / (RATE_SCALE as int),
                    a < 0 ==> d == -((-a) * (m as int) / (RATE_SCALE as int)),
                    0 <= m <= RATE_SCALE,
                    RATE_SCALE == 1_000_000;
            let n: i128 = if grow { a + d } else { a - d };
            self.values.set(index, n as i64);
        }
    }

    /// Mutates the candidate in place: draws a gene, a value `p` below
    /// `RATE_SCALE` and a direction, then applies `apply_mutation`. At most
    /// one gene changes, by exactly its perturbation, and one always does
    /// when the rate is `RATE_SCALE` or more.
    pub fn mutation(&mut self, mutation_rate: u64, rng: &mut rand::rngs::StdRng)
        requires
            old(self).wf(),
            old(self).values@.len() > 0,
        ensures
            final(self).fitness == old(self).fitness,
            final(self).mutation_percentage == old(self).mutation_percentage,
            final(self).values@.len() == old(self).values@.len(),
            exists|i: int, p: int, grow: bool|
                0 <= i < old(self).values@.len() && 0 <= p < RATE_SCALE && final(self).values@
                    == #[trigger] mutation_outcome(
                    old(self).values@,
                    old(self).mutation_percentage as int,
                    i,
                    p,
                    grow,
                    mutation_rate as int,
                ),
            mutation_rate >= RATE_SCALE ==> exists|i: int, grow: bool|
                0 <= i < old(self).values@.len() && final(self).values@ == old(self).values@.update(
                    i,
                    mutated_gene(
                        old(self).values@[i] as int,
                        old(self).mutation_percentage as int,
                        grow,
                    ) as i64,
                ),
            mutation_rate == 0 ==> final(self).values@ == old(self).values@,
    {
        let index: usize = draw_below(rng, self.values.len());
        let p: usize = draw_below(rng, RATE_SCALE as usize);
        let coin: usize = draw_below(rng, 2);
        self.apply_mutation(index, p as u64, coin == 0, mutation_rate);
        assert(0 <= p < RATE_SCALE);
        assert(self.values@ == mutation_outcome(
            old(self).values@,
            old(self).mutation_percentage as int,
            index as int,
            p as int,
            coin == 0,
            mutation_rate as int,
        ));
    }
}

} // verus!
