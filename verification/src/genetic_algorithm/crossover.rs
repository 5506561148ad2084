//! Crossover: how two parent genomes make a child genome.

use crate::genetic_algorithm::chromosome::Chromosome;
use crate::random::draw_ratio;
use rand_chacha::ChaCha8Rng;
use vstd::prelude::*;

verus! {

/// A way to make one child genome of two parent genomes.
pub trait CrossoverMethod {
    /// The pairs of parents that the method can cross.
    spec fn accepts(&self, parent_a: Seq<i64>, parent_b: Seq<i64>) -> bool;

    /// The children that the method may make of the two parents.
    spec fn may_yield(&self, parent_a: Seq<i64>, parent_b: Seq<i64>, child: Seq<i64>) -> bool;

    /// Makes a child of the two parents.
    fn crossover(
        &self,
        rng: &mut ChaCha8Rng,
        parent_a: &Chromosome,
        parent_b: &Chromosome,
    ) -> (child: Chromosome)
        requires
            self.accepts(parent_a@, parent_b@),
        ensures
            self.may_yield(parent_a@, parent_b@, child@),
    ;
}

/// Uniform crossover: every gene of the child is taken from one of the two
/// parents, each with the same probability, independently of the others.
#[derive(Clone, Copy, Debug, Default)]
pub struct UniformCrossover;

/// The child has the length of its parents, and each of its genes is the
/// gene of one of them at the same place.
pub open spec fn mixes(parent_a: Seq<i64>, parent_b: Seq<i64>, child: Seq<i64>) -> bool {
    &&& child.len() == parent_a.len()
    &&& child.len() == parent_b.len()
    &&& forall|k: int|
        0 <= k < child.len() ==> #[trigger] child[k] == parent_a[k] || child[k] == parent_b[k]
}

impl UniformCrossover {
    /// The uniform crossover.
    pub fn new() -> (method: UniformCrossover) {
        UniformCrossover
    }
}

impl CrossoverMethod for UniformCrossover {
    /// Parents of the same length.
    open spec fn accepts(&self, parent_a: Seq<i64>, parent_b: Seq<i64>) -> bool {
        parent_a.len() == parent_b.len()
    }

    open spec fn may_yield(&self, parent_a: Seq<i64>, parent_b: Seq<i64>, child: Seq<i64>) -> bool {
        mixes(parent_a, parent_b, child)
    }

    /// One draw for each gene, in gene order.
    fn crossover(
        &self,
        rng: &mut ChaCha8Rng,
        parent_a: &Chromosome,
        parent_b: &Chromosome,
    ) -> (child: Chromosome) {
        let count: usize = parent_a.len();
        let mut genes: Vec<i64> = Vec::new();
        let mut k: usize = 0;
        while k < count
            invariant
                k <= count,
                count == parent_a@.len(),
                count == parent_b@.len(),
                genes@.len() == k,
                forall|n: int|
                    0 <= n < k ==> #[trigger] genes@[n] == parent_a@[n] || genes@[n]
                        == parent_b@[n],
            decreases count - k,
        {
            let gene: i64 = if draw_ratio(rng, 1, 2) {
                parent_a.gene(k)
            } else {
                parent_b.gene(k)
            };
            genes.push(gene);
            k += 1;
        }
        Chromosome::new(genes)
    }
}

} // verus!
