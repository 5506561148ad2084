//! The genome: an ordered sequence of genes of fixed length.

use vstd::prelude::*;

verus! {

/// A genome. Its view is the sequence of its genes.
#[derive(Clone, Debug)]
pub struct Chromosome {
    genes: Vec<i64>,
}

impl View for Chromosome {
    type V = Seq<i64>;

    closed spec fn view(&self) -> Seq<i64> {
        self.genes@
    }
}

impl Chromosome {
    /// The chromosome with the given genes.
    pub fn new(genes: Vec<i64>) -> (chromosome: Chromosome)
        ensures
            chromosome@ == genes@,
    {
        Chromosome { genes }
    }

    /// The number of genes.
    pub fn len(&self) -> (len: usize)
        ensures
            len == self@.len(),
    {
        self.genes.len()
    }

    /// The gene at `index`.
    pub fn gene(&self, index: usize) -> (gene: i64)
        requires
            index < self@.len(),
        ensures
            gene == self@[index as int],
    {
        self.genes[index]
    }

    /// Replaces the gene at `index` and leaves the others as they are.
    pub fn set_gene(&mut self, index: usize, gene: i64)
        requires
            index < old(self)@.len(),
        ensures
            final(self)@ == old(self)@.update(index as int, gene),
    {
        self.genes[index] = gene;
    }

    /// The genes, in order.
    pub fn genes(&self) -> (genes: &Vec<i64>)
        ensures
            genes@ == self@,
    {
        &self.genes
    }

    /// Gives up the chromosome for its genes.
    pub fn into_genes(self) -> (genes: Vec<i64>)
        ensures
            genes@ == self@,
    {
        self.genes
    }
}

} // verus!
