//! What the genetic algorithm needs of a member of the population.

use vstd::prelude::*;
use crate::chromosome::Chromosome;

verus! {

/// A member of the population: it bears a fitness and a genome, and one like
/// it can be made from a genome.
///
/// The library promises nothing of an implementation. Its contracts say of
/// which call a value is the result: see [`carries`], [`scores`] and
/// [`created_from`].
pub trait Individual: Sized {
    /// Makes an individual out of a genome.
    fn create(chromosome: Chromosome) -> Self;

    /// The genome of this individual.
    fn chromosome(&self) -> &Chromosome;

    /// The fitness of this individual, the bit pattern of a value that is
    /// not negative: the higher, the better.
    fn fitness(&self) -> u32;
}

/// `genome` is what `individual` hands out, or can hand out, as its genome.
pub open spec fn carries<I: Individual>(individual: &I, genome: Seq<u32>) -> bool {
    exists|chromosome: Chromosome|
        chromosome@ == genome && #[trigger] call_ensures(
            I::chromosome,
            (individual,),
            &chromosome,
        )
}

/// `fitness` is what `individual` reports, or can report, as its fitness.
pub open spec fn scores<I: Individual>(individual: &I, fitness: u32) -> bool {
    call_ensures(I::fitness, (individual,), fitness)
}

/// `individual` is what the type makes, or can make, out of `genome`.
pub open spec fn created_from<I: Individual>(genome: Seq<u32>, individual: I) -> bool {
    exists|chromosome: Chromosome|
        chromosome@ == genome && #[trigger] call_ensures(I::create, (chromosome,), individual)
}

} // verus!
