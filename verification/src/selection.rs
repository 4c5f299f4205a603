//! The choice of a parent from the population.

use vstd::prelude::*;
use crate::individual::{scores, Individual};
use crate::random::{below_of, draw_below, draw_weighted, weighted_of, RandomSource};

verus! {

/// A way to choose one member of a population that is not empty.
pub trait SelectionMethod {
    /// What this method promises of the member that it chooses. Every method
    /// chooses a member of the population; one may promise more.
    open spec fn chooses<I: Individual>(&self, population: Seq<I>, chosen: I) -> bool {
        exists|index: int| 0 <= index < population.len() && chosen == population[index]
    }

    /// Chooses a member of `population`.
    fn select<'a, I: Individual, R: RandomSource>(&self, rng: &mut R, population: &'a [I]) -> (chosen: &'a I)
        requires
            population@.len() > 0,
        ensures
            exists|index: int| 0 <= index < population@.len() && *chosen == population@[index],
            self.chooses(population@, *chosen),
    ;
}

/// Roulette-wheel selection: a member is chosen with a probability
/// proportional to its fitness.
///
/// Where the fitnesses allow no such draw (none is positive, one is negative
/// or no number, or their sum is no finite value), every member is as likely
/// as any other.
#[derive(Clone, Copy, Debug, Default)]
pub struct RouletteWheelSelection;

/// `weights` holds the fitness of each member of `population`, in order.
pub open spec fn are_fitnesses<I: Individual>(population: Seq<I>, weights: Seq<u32>) -> bool {
    &&& weights.len() == population.len()
    &&& forall|index: int|
        0 <= index < population.len() ==> scores(&population[index], #[trigger] weights[index])
}

impl RouletteWheelSelection {
    /// The roulette wheel: it has no setting.
    pub fn new() -> (method: Self) {
        Self
    }

    /// The fitness of each member of `population`, in order: the weights of
    /// the wheel.
    pub fn weights<I: Individual>(population: &[I]) -> (weights: Vec<u32>)
        ensures
            are_fitnesses(population@, weights@),
    {
        let count = population.len();
        let mut weights: Vec<u32> = Vec::with_capacity(count);
        let mut index: usize = 0;
        while index < count
            invariant
                count == population@.len(),
                index <= count,
                weights@.len() == index,
                forall|at: int|
                    0 <= at < index ==> scores(&population@[at], #[trigger] weights@[at]),
            decreases count - index,
        {
            let fitness = population[index].fitness();
            weights.push(fitness);
            index += 1;
        }
        weights
    }
}

impl SelectionMethod for RouletteWheelSelection {
    /// Chooses the member at the index that the source draws by weight, the
    /// weights being the fitnesses of the members in order. Where the source
    /// draws no index, it is asked for an integer below the number of
    /// members, and the member at that index is chosen.
    fn select<'a, I: Individual, R: RandomSource>(&self, rng: &mut R, population: &'a [I]) -> (chosen: &'a I)
        ensures
            exists|weights: Vec<u32>, first: &mut R, raw: Option<usize>|
                {
                    &&& are_fitnesses(population@, weights@)
                    &&& *first == *old(rng)
                    &&& #[trigger] call_ensures(R::weighted, (first, &weights), raw)
                    &&& match weighted_of(raw, weights.len()) {
                        Some(index) => *chosen == population@[index as int] && *final(first) == *final(rng),
                        None => exists|second: &mut R, fallback: usize|
                            {
                                &&& *second == *final(first)
                                &&& *final(second) == *final(rng)
                                &&& #[trigger] call_ensures(
                                    R::below,
                                    (second, population@.len() as usize),
                                    fallback,
                                )
                                &&& *chosen == population@[below_of(
                                    fallback,
                                    population@.len() as usize,
                                ) as int]
                            },
                    }
                },
    {
        let ghost start = *rng;
        let count = population.len();
        let weights = Self::weights(population);
        let picked = draw_weighted(rng, &weights);
        let ghost between = *rng;
        let ghost first = choose|first: &mut R, raw: Option<usize>|
            {
                &&& *first == start
                &&& *final(first) == between
                &&& #[trigger] call_ensures(R::weighted, (first, &weights), raw)
                &&& picked == weighted_of(raw, weights.len())
            };
        assert(count == population@.len() as usize);
        match picked {
            Some(index) => {
                assert(call_ensures(R::weighted, (first.0, &weights), first.1));
                &population[index]
            },
            None => {
                let index = draw_below(rng, count);
                let ghost second = choose|second: &mut R, fallback: usize|
                    {
                        &&& *second == between
                        &&& *final(second) == *rng
                        &&& #[trigger] call_ensures(R::below, (second, count), fallback)
                        &&& index == below_of(fallback, count)
                    };
                assert(call_ensures(R::below, (second.0, population@.len() as usize), second.1));
                assert(exists|second: &mut R, fallback: usize|
                    {
                        &&& *second == *final(first.0)
                        &&& *final(second) == *rng
                        &&& #[trigger] call_ensures(R::below, (second, population@.len() as usize), fallback)
                        &&& population@[index as int] == population@[below_of(
                            fallback,
                            population@.len() as usize,
                        ) as int]
                    });
                assert(call_ensures(R::weighted, (first.0, &weights), first.1));
                &population[index]
            },
        }
    }
}

} // verus!
