//! The generational step: selection, crossover, mutation, re-creation.

use vstd::prelude::*;
use crate::crossover::CrossoverMethod;
use crate::individual::{carries, created_from, Individual};
use crate::mutation::MutationMethod;
use crate::random::RandomSource;
use crate::selection::SelectionMethod;

verus! {

/// A genetic algorithm: one way to select, one to cross over, one to mutate.
pub struct GeneticAlgorithm<S, C, M> {
    selection_method: S,
    crossover_method: C,
    mutation_method: M,
}

/// Any two genomes that members of `population` hand out have one length.
pub open spec fn genomes_agree<I: Individual>(population: Seq<I>) -> bool {
    forall|a: int, b: int, genome_a: Seq<u32>, genome_b: Seq<u32>|
        0 <= a < population.len() && 0 <= b < population.len() && #[trigger] carries(
            &population[a],
            genome_a,
        ) && #[trigger] carries(&population[b], genome_b) ==> genome_a.len() == genome_b.len()
}

impl<S: SelectionMethod, C: CrossoverMethod, M: MutationMethod> GeneticAlgorithm<S, C, M> {
    /// The way this algorithm selects.
    pub closed spec fn selection(&self) -> S {
        self.selection_method
    }

    /// The way this algorithm crosses over.
    pub closed spec fn crossover(&self) -> C {
        self.crossover_method
    }

    /// The way this algorithm mutates.
    pub closed spec fn mutation(&self) -> M {
        self.mutation_method
    }

    /// `individual` descends from `population`: the selection chose a first
    /// parent and a second, which may be one and the same member, and
    /// `individual` was created from a genome that the mutation made of one
    /// that the crossover bred from the genomes of those two.
    pub open spec fn breeds<I: Individual>(&self, population: Seq<I>, individual: I) -> bool {
        exists|a: int, b: int, genome_a: Seq<u32>, genome_b: Seq<u32>, bred: Seq<u32>, child: Seq<u32>|
            #![trigger
                carries(&population[a], genome_a),
                carries(&population[b], genome_b),
                self.crossover().recombines(genome_a, genome_b, bred),
                self.mutation().alters(bred, child),
            ]
            {
                &&& 0 <= a < population.len()
                &&& 0 <= b < population.len()
                &&& self.selection().chooses(population, population[a])
                &&& self.selection().chooses(population, population[b])
                &&& carries(&population[a], genome_a)
                &&& carries(&population[b], genome_b)
                &&& self.crossover().recombines(genome_a, genome_b, bred)
                &&& bred.len() == genome_a.len()
                &&& self.mutation().alters(bred, child)
                &&& child.len() == bred.len()
                &&& created_from(child, individual)
            }
    }

    /// The algorithm that selects, crosses over and mutates in these ways.
    pub fn new(selection_method: S, crossover_method: C, mutation_method: M) -> (algorithm: Self)
        ensures
            algorithm.selection() == selection_method,
            algorithm.crossover() == crossover_method,
            algorithm.mutation() == mutation_method,
    {
        Self { selection_method, crossover_method, mutation_method }
    }

    /// Makes the next generation: as many individuals as `population` holds.
    /// For each of them, in order, the selection chooses a first parent and
    /// a second, the crossover breeds a genome from theirs, the mutation
    /// alters it, and the individual is created from what the mutation left.
    pub fn evolve<I: Individual, R: RandomSource>(&self, rng: &mut R, population: &[I]) -> (next: Vec<I>)
        requires
            population@.len() > 0,
            genomes_agree(population@),
        ensures
            next@.len() == population@.len(),
            forall|slot: int| 0 <= slot < next@.len() ==> self.breeds(population@, #[trigger] next@[slot]),
    {
        let count = population.len();
        let mut next: Vec<I> = Vec::with_capacity(count);
        let mut slot: usize = 0;
        while slot < count
            invariant
                count == population@.len(),
                count > 0,
                genomes_agree(population@),
                slot <= count,
                next@.len() == slot,
                forall|at: int| 0 <= at < slot ==> self.breeds(population@, #[trigger] next@[at]),
            decreases count - slot,
        {
            let parent_a = self.selection_method.select(rng, population);
            let ghost a = choose|index: int| 0 <= index < population@.len() && *parent_a == population@[index];
            let genome_a = parent_a.chromosome();
            assert(carries(&population@[a], genome_a@));

            let parent_b = self.selection_method.select(rng, population);
            let ghost b = choose|index: int| 0 <= index < population@.len() && *parent_b == population@[index];
            let genome_b = parent_b.chromosome();
            assert(carries(&population@[b], genome_b@));

            let mut child = self.crossover_method.crossover(rng, genome_a, genome_b);
            let ghost bred = child@;
            self.mutation_method.mutate(rng, &mut child);
            let ghost mutated = child@;
            let individual = I::create(child);
            assert(created_from(mutated, individual));
            assert(self.crossover().recombines(genome_a@, genome_b@, bred));
            assert(self.mutation().alters(bred, mutated));
            assert(self.selection().chooses(population@, population@[a]));
            assert(self.selection().chooses(population@, population@[b]));
            next.push(individual);
            slot += 1;
        }
        next
    }

    /// Makes the next generation of a population that may be empty: for an
    /// empty one nothing is drawn, nothing is created and there is no next
    /// generation; for any other, the next generation is what
    /// [`GeneticAlgorithm::evolve`] makes.
    pub fn try_evolve<I: Individual, R: RandomSource>(&self, rng: &mut R, population: &[I]) -> (next: Option<
        Vec<I>,
    >)
        requires
            genomes_agree(population@),
        ensures
            next is None <==> population@.len() == 0,
            next is None ==> *final(rng) == *old(rng),
            next matches Some(members) ==> {
                &&& members@.len() == population@.len()
                &&& forall|slot: int|
                    0 <= slot < members@.len() ==> self.breeds(population@, #[trigger] members@[slot])
            },
    {
        if population.len() == 0 {
            None
        } else {
            Some(self.evolve(rng, population))
        }
    }
}

} // verus!
