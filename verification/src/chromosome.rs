//! The genome: a flat, ordered sequence of genes.

use vstd::prelude::*;

verus! {

/// A fixed-order sequence of genes, each the bit pattern of a
/// single-precision value. Its view is that sequence.
#[derive(Debug)]
pub struct Chromosome {
    genes: Vec<u32>,
}

impl View for Chromosome {
    type V = Seq<u32>;

    closed spec fn view(&self) -> Seq<u32> {
        self.genes@
    }
}

impl Clone for Chromosome {
    fn clone(&self) -> (copy: Self)
        ensures
            copy@ == self@,
    {
        let genes = self.genes.clone();
        assert(genes@ =~= self.genes@);
        Chromosome { genes }
    }
}

impl Chromosome {
    /// The chromosome that holds `genes`, in their order.
    pub fn new(genes: Vec<u32>) -> (chromosome: Self)
        ensures
            chromosome@ == genes@,
    {
        Self { genes }
    }

    /// The number of genes.
    pub fn len(&self) -> (count: usize)
        ensures
            count == self@.len(),
    {
        self.genes.len()
    }

    /// Whether there is no gene.
    pub fn is_empty(&self) -> (empty: bool)
        ensures
            empty == (self@.len() == 0),
    {
        self.genes.len() == 0
    }

    /// The gene at `index`.
    pub fn get(&self, index: usize) -> (gene: u32)
        requires
            index < self@.len(),
        ensures
            gene == self@[index as int],
    {
        self.genes[index]
    }

    /// Replaces the gene at `index` and leaves every other in place.
    pub fn set(&mut self, index: usize, gene: u32)
        requires
            index < old(self)@.len(),
        ensures
            final(self)@ == old(self)@.update(index as int, gene),
    {
        self.genes.set(index, gene);
    }

    /// The genes, in their order.
    pub fn genes(&self) -> (genes: &Vec<u32>)
        ensures
            genes@ == self@,
    {
        &self.genes
    }

    /// Gives the genes up, in their order.
    pub fn into_genes(self) -> (genes: Vec<u32>)
        ensures
            genes@ == self@,
    {
        self.genes
    }
}

} // verus!
