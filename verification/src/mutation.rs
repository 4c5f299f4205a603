//! Perturbation of a genome in place.

use vstd::prelude::*;
use crate::arithmetic::{is_sum, Arithmetic};
use crate::chromosome::Chromosome;
use crate::gene::{is_probability, negate, negated, ONE, ZERO};
use crate::random::{draw_unit, is_place, unit_of, RandomSource};

verus! {

/// A way to perturb a genome in place.
pub trait MutationMethod {
    /// What this method promises of a genome after the mutation. Every
    /// method keeps the length; one may promise more.
    open spec fn alters(&self, before: Seq<u32>, after: Seq<u32>) -> bool {
        after.len() == before.len()
    }

    /// Perturbs `child` in place.
    fn mutate<R: RandomSource>(&self, rng: &mut R, child: &mut Chromosome)
        ensures
            final(child)@.len() == old(child)@.len(),
            self.alters(old(child)@, final(child)@),
    ;
}

/// Mutation by a step of fixed size: each gene is, with probability
/// `chance`, moved by `coeff` up or down, the direction by the toss of a fair
/// coin. For all its name the step follows no normal distribution.
#[derive(Clone, Debug)]
pub struct GaussianMutation<A> {
    chance: u32,
    coeff: u32,
    arithmetic: A,
}

/// Whether a gene is touched: the draw from `[0, 1)` lies below `chance`.
pub open spec fn is_hit(chance: u32, draw: u32) -> bool {
    draw < chance
}

/// The step that a toss gives: down on heads, up on tails.
pub open spec fn step_of(coeff: u32, heads: bool) -> u32 {
    if heads {
        negated(coeff)
    } else {
        coeff
    }
}

/// `after` is `before` moved by `coeff`, up or down.
pub open spec fn is_moved<A: Arithmetic>(arithmetic: &A, coeff: u32, before: u32, after: u32) -> bool {
    is_sum(arithmetic, before, coeff, after) || is_sum(arithmetic, before, negated(coeff), after)
}

/// What may become of one gene: it stays, unless `chance` is one, or it is
/// moved by `coeff`, unless `chance` is zero.
pub open spec fn is_outcome<A: Arithmetic>(
    arithmetic: &A,
    chance: u32,
    coeff: u32,
    before: u32,
    after: u32,
) -> bool {
    ||| chance < ONE && after == before
    ||| chance > ZERO && is_moved(arithmetic, coeff, before, after)
}

impl<A: Arithmetic> GaussianMutation<A> {
    /// The probability that a gene is touched.
    pub closed spec fn chance_bits(&self) -> u32 {
        self.chance
    }

    /// The size of the step.
    pub closed spec fn coeff_bits(&self) -> u32 {
        self.coeff
    }

    /// The arithmetic that adds the step.
    pub closed spec fn arithmetic_used(&self) -> A {
        self.arithmetic
    }

    /// A mutation that touches a gene with probability `chance`, a value in
    /// `[0, 1]`, and then moves it by `coeff`.
    pub fn new(chance: u32, coeff: u32, arithmetic: A) -> (method: Self)
        requires
            is_probability(chance),
        ensures
            method.chance_bits() == chance,
            method.coeff_bits() == coeff,
            method.arithmetic_used() == arithmetic,
    {
        Self { chance, coeff, arithmetic }
    }

    /// The probability that a gene is touched.
    pub fn chance(&self) -> (chance: u32)
        ensures
            chance == self.chance_bits(),
    {
        self.chance
    }

    /// The size of the step.
    pub fn coeff(&self) -> (coeff: u32)
        ensures
            coeff == self.coeff_bits(),
    {
        self.coeff
    }

    /// Whether a draw from `[0, 1)` touches a gene.
    pub fn hits(chance: u32, draw: u32) -> (hit: bool)
        ensures
            hit == is_hit(chance, draw),
    {
        draw < chance
    }

    /// The step that a toss gives.
    pub fn step(coeff: u32, heads: bool) -> (step: u32)
        ensures
            step == step_of(coeff, heads),
    {
        if heads {
            negate(coeff)
        } else {
            coeff
        }
    }
}

impl<A: Arithmetic> MutationMethod for GaussianMutation<A> {
    open spec fn alters(&self, before: Seq<u32>, after: Seq<u32>) -> bool {
        &&& after.len() == before.len()
        &&& forall|index: int|
            0 <= index < before.len() ==> is_outcome(
                &self.arithmetic_used(),
                self.chance_bits(),
                self.coeff_bits(),
                before[index],
                #[trigger] after[index],
            )
    }

    /// For each gene in order, asks the source for a value from `[0, 1)`;
    /// where that lies below the chance, tosses the source's coin and adds
    /// the step that the toss gives to the gene; else leaves the gene and
    /// the source as they are. The source is asked for nothing else.
    fn mutate<R: RandomSource>(&self, rng: &mut R, child: &mut Chromosome)
        ensures
            exists|states: Seq<R>, draws: Seq<u32>, tosses: Seq<bool>|
                #![trigger states[0], draws.len(), tosses.len()]
                {
                    &&& draws.len() == old(child)@.len()
                    &&& tosses.len() == draws.len()
                    &&& states.len() == 2 * draws.len() + 1
                    &&& states[0] == *old(rng)
                    &&& states[2 * draws.len() as int] == *final(rng)
                    &&& forall|at: int|
                        #[trigger] is_place(at, draws.len()) ==> {
                        &&& exists|source: &mut R|
                            {
                                &&& *source == states[2 * at]
                                &&& *final(source) == states[2 * at + 1]
                                &&& #[trigger] call_ensures(R::unit, (source,), draws[at])
                            }
                        &&& if is_hit(self.chance_bits(), unit_of(draws[at])) {
                            &&& is_sum(
                                &self.arithmetic_used(),
                                old(child)@[at],
                                step_of(self.coeff_bits(), tosses[at]),
                                final(child)@[at],
                            )
                            &&& exists|source: &mut R|
                                {
                                    &&& *source == states[2 * at + 1]
                                    &&& *final(source) == states[2 * at + 2]
                                    &&& #[trigger] call_ensures(R::coin, (source,), tosses[at])
                                }
                        } else {
                            &&& final(child)@[at] == old(child)@[at]
                            &&& states[2 * at + 2] == states[2 * at + 1]
                        }
                        }
                },
    {
        let ghost before = child@;
        let ghost start = *rng;
        let count = child.len();
        let mut index: usize = 0;
        proof {
            let states = seq![start];
            let draws = Seq::<u32>::empty();
            let tosses = Seq::<bool>::empty();
            assert(states[0] == start);
            assert(draws.len() == 0);
            assert(tosses.len() == 0);
            assert(states[2 * draws.len() as int] == *rng);
        }
        while index < count
            invariant
                index <= count,
                count == before.len(),
                child@.len() == count,
                forall|at: int|
                    0 <= at < index ==> is_outcome(
                        &self.arithmetic_used(),
                        self.chance_bits(),
                        self.coeff_bits(),
                        before[at],
                        #[trigger] child@[at],
                    ),
                forall|at: int| index <= at < count ==> #[trigger] child@[at] == before[at],
                exists|states: Seq<R>, draws: Seq<u32>, tosses: Seq<bool>|
                    #![trigger states[0], draws.len(), tosses.len()]
                    {
                        &&& draws.len() == index
                        &&& tosses.len() == draws.len()
                        &&& states.len() == 2 * draws.len() + 1
                        &&& states[0] == start
                        &&& states[2 * draws.len() as int] == *rng
                        &&& forall|at: int|
                            #[trigger] is_place(at, draws.len()) ==> {
                        &&& exists|source: &mut R|
                            {
                                &&& *source == states[2 * at]
                                &&& *final(source) == states[2 * at + 1]
                                &&& #[trigger] call_ensures(R::unit, (source,), draws[at])
                            }
                        &&& if is_hit(self.chance_bits(), unit_of(draws[at])) {
                            &&& is_sum(
                                &self.arithmetic_used(),
                                before[at],
                                step_of(self.coeff_bits(), tosses[at]),
                                child@[at],
                            )
                            &&& exists|source: &mut R|
                                {
                                    &&& *source == states[2 * at + 1]
                                    &&& *final(source) == states[2 * at + 2]
                                    &&& #[trigger] call_ensures(R::coin, (source,), tosses[at])
                                }
                        } else {
                            &&& child@[at] == before[at]
                            &&& states[2 * at + 2] == states[2 * at + 1]
                        }
                            }
                    },
            decreases count - index,
        {
            let ghost entered = *rng;
            let ghost held = child@;
            let ghost mut tossed = false;
            let draw = draw_unit(rng);
            let ghost middle = *rng;
            if Self::hits(self.chance, draw) {
                let heads = rng.coin();
                let step = Self::step(self.coeff, heads);
                let gene = child.get(index);
                let moved = self.arithmetic.sum(gene, step);
                child.set(index, moved);
                proof {
                    tossed = heads;
                }
            }
            proof {
                let run = choose|states: Seq<R>, draws: Seq<u32>, tosses: Seq<bool>|
                    #![trigger states[0], draws.len(), tosses.len()]
                    {
                        &&& draws.len() == index
                        &&& tosses.len() == draws.len()
                        &&& states.len() == 2 * draws.len() + 1
                        &&& states[0] == start
                        &&& states[2 * draws.len() as int] == entered
                        &&& forall|at: int|
                            #[trigger] is_place(at, draws.len()) ==> {
                        &&& exists|source: &mut R|
                            {
                                &&& *source == states[2 * at]
                                &&& *final(source) == states[2 * at + 1]
                                &&& #[trigger] call_ensures(R::unit, (source,), draws[at])
                            }
                        &&& if is_hit(self.chance_bits(), unit_of(draws[at])) {
                            &&& is_sum(
                                &self.arithmetic_used(),
                                before[at],
                                step_of(self.coeff_bits(), tosses[at]),
                                held[at],
                            )
                            &&& exists|source: &mut R|
                                {
                                    &&& *source == states[2 * at + 1]
                                    &&& *final(source) == states[2 * at + 2]
                                    &&& #[trigger] call_ensures(R::coin, (source,), tosses[at])
                                }
                        } else {
                            &&& held[at] == before[at]
                            &&& states[2 * at + 2] == states[2 * at + 1]
                        }
                            }
                    };
                let drawn = choose|source: &mut R, raw: u32|
                    {
                        &&& *source == entered
                        &&& *final(source) == middle
                        &&& #[trigger] call_ensures(R::unit, (source,), raw)
                        &&& draw == unit_of(raw)
                    };
                let old_states = run.0;
                let old_draws = run.1;
                let old_tosses = run.2;
                let states = old_states.push(middle).push(*rng);
                let draws = old_draws.push(drawn.1);
                let tosses = old_tosses.push(tossed);
                assert(call_ensures(R::unit, (drawn.0,), drawn.1));
                assert forall|at: int| #[trigger] is_place(at, draws.len()) implies {
                        &&& exists|source: &mut R|
                            {
                                &&& *source == states[2 * at]
                                &&& *final(source) == states[2 * at + 1]
                                &&& #[trigger] call_ensures(R::unit, (source,), draws[at])
                            }
                        &&& if is_hit(self.chance_bits(), unit_of(draws[at])) {
                            &&& is_sum(
                                &self.arithmetic_used(),
                                before[at],
                                step_of(self.coeff_bits(), tosses[at]),
                                child@[at],
                            )
                            &&& exists|source: &mut R|
                                {
                                    &&& *source == states[2 * at + 1]
                                    &&& *final(source) == states[2 * at + 2]
                                    &&& #[trigger] call_ensures(R::coin, (source,), tosses[at])
                                }
                        } else {
                            &&& child@[at] == before[at]
                            &&& states[2 * at + 2] == states[2 * at + 1]
                        }
                } by {
                    if at < old_draws.len() {
                        assert(is_place(at, old_draws.len()));
                        assert(draws[at] == old_draws[at]);
                        assert(tosses[at] == old_tosses[at]);
                        assert(states[2 * at] == old_states[2 * at]);
                        assert(states[2 * at + 1] == old_states[2 * at + 1]);
                        assert(states[2 * at + 2] == old_states[2 * at + 2]);
                        assert(child@[at] == held[at]);
                    } else {
                        assert(draws[at] == drawn.1);
                        assert(tosses[at] == tossed);
                        assert(states[2 * at] == entered);
                        assert(states[2 * at + 1] == middle);
                        assert(states[2 * at + 2] == *rng);
                        assert(held[at] == before[at]);
                    }
                };
                assert(draws.len() == index + 1);
                assert(tosses.len() == draws.len());
                assert(states.len() == 2 * draws.len() + 1);
                assert(states[0] == start);
                assert(states[2 * draws.len() as int] == *rng);
            }
            index += 1;
        }
    }
}

/// A mutation whose chance is zero never changes a gene.
pub proof fn lemma_no_chance_changes_nothing<A: Arithmetic>(
    method: GaussianMutation<A>,
    before: Seq<u32>,
    after: Seq<u32>,
)
    requires
        method.chance_bits() == ZERO,
        method.alters(before, after),
    ensures
        after == before,
{
    assert forall|index: int| 0 <= index < before.len() implies after[index] == before[index] by {
        assert(is_outcome(
            &method.arithmetic_used(),
            method.chance_bits(),
            method.coeff_bits(),
            before[index],
            after[index],
        ));
    }
    assert(after =~= before);
}

/// A mutation whose chance is one moves every gene by the coefficient, up or
/// down.
pub proof fn lemma_full_chance_moves_every_gene<A: Arithmetic>(
    method: GaussianMutation<A>,
    before: Seq<u32>,
    after: Seq<u32>,
    index: int,
)
    requires
        method.chance_bits() == ONE,
        method.alters(before, after),
        0 <= index < before.len(),
    ensures
        is_moved(&method.arithmetic_used(), method.coeff_bits(), before[index], after[index]),
{
    assert(is_outcome(
        &method.arithmetic_used(),
        method.chance_bits(),
        method.coeff_bits(),
        before[index],
        after[index],
    ));
}

} // verus!
