//! Recombination of two parent genomes into a child genome.

use vstd::prelude::*;
use crate::chromosome::Chromosome;
use crate::random::{is_place, RandomSource};

verus! {

/// A way to make one child genome out of two parent genomes of one length.
pub trait CrossoverMethod {
    /// What this method promises of a child. Every method keeps the length;
    /// one may promise more.
    open spec fn recombines(&self, parent_a: Seq<u32>, parent_b: Seq<u32>, child: Seq<u32>) -> bool {
        child.len() == parent_a.len()
    }

    /// Makes a child genome out of two parent genomes.
    fn crossover<R: RandomSource>(&self, rng: &mut R, parent_a: &Chromosome, parent_b: &Chromosome) -> (child: Chromosome)
        requires
            parent_a@.len() == parent_b@.len(),
        ensures
            child@.len() == parent_a@.len(),
            self.recombines(parent_a@, parent_b@, child@),
    ;
}

/// Uniform crossover: each gene of the child is that of one parent or of the
/// other at the same place, by the toss of a fair coin.
#[derive(Clone, Copy, Debug, Default)]
pub struct UniformCrossover;

/// Every gene of `child` is the gene of `parent_a` or of `parent_b` at the
/// same place.
pub open spec fn is_mix(parent_a: Seq<u32>, parent_b: Seq<u32>, child: Seq<u32>) -> bool {
    &&& child.len() == parent_a.len()
    &&& child.len() == parent_b.len()
    &&& forall|index: int|
        0 <= index < child.len() ==> #[trigger] child[index] == parent_a[index] || child[index]
            == parent_b[index]
}

/// The gene that a toss picks: the first parent's on heads, the second's on
/// tails.
pub open spec fn picked(heads: bool, gene_a: u32, gene_b: u32) -> u32 {
    if heads {
        gene_a
    } else {
        gene_b
    }
}

impl UniformCrossover {
    /// Uniform crossover: it has no setting.
    pub fn new() -> (method: Self) {
        Self
    }

    /// The gene that a toss picks: the first parent's on heads, the second's
    /// on tails.
    pub fn pick(heads: bool, gene_a: u32, gene_b: u32) -> (gene: u32)
        ensures
            gene == picked(heads, gene_a, gene_b),
    {
        if heads {
            gene_a
        } else {
            gene_b
        }
    }
}

impl CrossoverMethod for UniformCrossover {
    open spec fn recombines(&self, parent_a: Seq<u32>, parent_b: Seq<u32>, child: Seq<u32>) -> bool {
        is_mix(parent_a, parent_b, child)
    }

    /// Tosses the source's coin once for each gene, in order, and for
    /// nothing else: the gene of the child is the first parent's on heads and
    /// the second's on tails.
    fn crossover<R: RandomSource>(&self, rng: &mut R, parent_a: &Chromosome, parent_b: &Chromosome) -> (child: Chromosome)
        ensures
            exists|states: Seq<R>, tosses: Seq<bool>|
                {
                    &&& tosses.len() == parent_a@.len()
                    &&& states.len() == tosses.len() + 1
                    &&& states[0] == *old(rng)
                    &&& states[tosses.len() as int] == *final(rng)
                    &&& forall|at: int|
                        #[trigger] is_place(at, tosses.len()) ==> {
                            &&& child@[at] == picked(tosses[at], parent_a@[at], parent_b@[at])
                            &&& exists|source: &mut R|
                                {
                                    &&& *source == states[at]
                                    &&& *final(source) == states[at + 1]
                                    &&& #[trigger] call_ensures(R::coin, (source,), tosses[at])
                                }
                        }
                },
    {
        let count = parent_a.len();
        let ghost start = *rng;
        let ghost mut states: Seq<R> = seq![start];
        let ghost mut tosses: Seq<bool> = Seq::empty();
        let mut genes: Vec<u32> = Vec::with_capacity(count);
        let mut index: usize = 0;
        while index < count
            invariant
                count == parent_a@.len(),
                count == parent_b@.len(),
                index <= count,
                genes@.len() == index,
                forall|at: int|
                    0 <= at < index ==> #[trigger] genes@[at] == parent_a@[at] || genes@[at]
                        == parent_b@[at],
                tosses.len() == index,
                states.len() == index + 1,
                states[0] == start,
                states[index as int] == *rng,
                forall|at: int|
                    #[trigger] is_place(at, tosses.len()) ==> {
                        &&& genes@[at] == picked(tosses[at], parent_a@[at], parent_b@[at])
                        &&& exists|source: &mut R|
                            {
                                &&& *source == states[at]
                                &&& *final(source) == states[at + 1]
                                &&& #[trigger] call_ensures(R::coin, (source,), tosses[at])
                            }
                    },
            decreases count - index,
        {
            let ghost before = *rng;
            let ghost tossed = tosses;
            let ghost passed = states;
            let ghost kept = genes@;
            let heads = rng.coin();
            genes.push(Self::pick(heads, parent_a.get(index), parent_b.get(index)));
            index += 1;
            proof {
                tosses = tossed.push(heads);
                states = passed.push(*rng);
                assert forall|at: int| #[trigger] is_place(at, tosses.len()) implies {
                    &&& genes@[at] == picked(tosses[at], parent_a@[at], parent_b@[at])
                    &&& exists|source: &mut R|
                        {
                            &&& *source == states[at]
                            &&& *final(source) == states[at + 1]
                            &&& #[trigger] call_ensures(R::coin, (source,), tosses[at])
                        }
                } by {
                    if at < tossed.len() {
                        assert(is_place(at, tossed.len()));
                        assert(tosses[at] == tossed[at]);
                        assert(states[at] == passed[at]);
                        assert(states[at + 1] == passed[at + 1]);
                        assert(genes@[at] == kept[at]);
                    } else {
                        assert(tosses[at] == heads);
                        assert(states[at] == before);
                        assert(states[at + 1] == *rng);
                    }
                };
            }
        }
        Chromosome::new(genes)
    }
}

} // verus!
