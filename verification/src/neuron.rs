//! One neuron: a bias and a weight for each input.

use vstd::prelude::*;
use crate::arithmetic::{is_product, is_sum, Arithmetic};
use crate::gene::{is_not_negative, is_symmetric, rectified, rectify, ZERO};
use crate::encoding::neuron_genes;
use crate::random::{draw_symmetric, is_place, symmetric_of, RandomSource};

verus! {

/// A neuron with its bias and one weight for each of its inputs, in the
/// order of the inputs.
#[derive(Debug)]
pub struct Neuron {
    pub bias: u32,
    pub weights: Vec<u32>,
}

/// What a neuron is: its bias and the sequence of its weights.
#[verifier::ext_equal]
pub struct NeuronModel {
    pub bias: u32,
    pub weights: Seq<u32>,
}

impl View for Neuron {
    type V = NeuronModel;

    open spec fn view(&self) -> NeuronModel {
        NeuronModel { bias: self.bias, weights: self.weights@ }
    }
}

impl Clone for Neuron {
    fn clone(&self) -> (copy: Self)
        ensures
            copy@ == self@,
    {
        let weights = self.weights.clone();
        assert(weights@ =~= self.weights@);
        Neuron { bias: self.bias, weights }
    }
}

/// Every parameter of the neuron lies in `[-1, 1]`.
pub open spec fn is_symmetric_neuron(neuron: NeuronModel) -> bool {
    &&& is_symmetric(neuron.bias)
    &&& forall|index: int| 0 <= index < neuron.weights.len() ==> is_symmetric(#[trigger] neuron.weights[index])
}

/// `total` is the sum of the first `count` products of an input and its
/// weight, added up in order from positive zero.
pub open spec fn accumulates<A: Arithmetic>(
    arithmetic: &A,
    inputs: Seq<u32>,
    weights: Seq<u32>,
    count: nat,
    total: u32,
) -> bool
    decreases count,
{
    if count == 0 {
        total == ZERO
    } else {
        exists|before: u32, term: u32|
            {
                &&& accumulates(arithmetic, inputs, weights, (count - 1) as nat, before)
                &&& #[trigger] is_product(arithmetic, inputs[count - 1], weights[count - 1], term)
                &&& #[trigger] is_sum(arithmetic, before, term, total)
            }
    }
}

/// `output` is what the neuron gives for `inputs`: the weighted sum of the
/// inputs, then the bias added, then the larger of zero and that.
pub open spec fn fires<A: Arithmetic>(
    arithmetic: &A,
    neuron: NeuronModel,
    inputs: Seq<u32>,
    output: u32,
) -> bool {
    exists|total: u32, shifted: u32|
        {
            &&& #[trigger] accumulates(arithmetic, inputs, neuron.weights, neuron.weights.len(), total)
            &&& #[trigger] is_sum(arithmetic, total, neuron.bias, shifted)
            &&& output == rectified(shifted)
        }
}

impl Neuron {
    /// The neuron with this bias and these weights, of which there is at
    /// least one.
    pub fn new(bias: u32, weights: Vec<u32>) -> (neuron: Self)
        requires
            weights@.len() > 0,
        ensures
            neuron@ == (NeuronModel { bias, weights: weights@ }),
    {
        Self { bias, weights }
    }

    /// A neuron for `input_size` inputs: its bias is drawn first, then its
    /// weights in their order, each from `[-1, 1]`. The source is asked once
    /// for each of them and for nothing else.
    pub fn random<R: RandomSource>(input_size: usize, rng: &mut R) -> (neuron: Self)
        ensures
            neuron@.weights.len() == input_size,
            is_symmetric_neuron(neuron@),
            exists|states: Seq<R>, raws: Seq<u32>|
                {
                    &&& raws.len() == neuron_genes(neuron@).len()
                    &&& states.len() == raws.len() + 1
                    &&& states[0] == *old(rng)
                    &&& states[raws.len() as int] == *final(rng)
                    &&& forall|at: int|
                        #[trigger] is_place(at, raws.len()) ==> {
                            &&& neuron_genes(neuron@)[at] == symmetric_of(raws[at])
                            &&& exists|source: &mut R|
                                {
                                    &&& *source == states[at]
                                    &&& *final(source) == states[at + 1]
                                    &&& #[trigger] call_ensures(R::symmetric, (source,), raws[at])
                                }
                        }
                },
    {
        let ghost start = *rng;
        let bias = draw_symmetric(rng);
        let ghost first = choose|raw: u32|
            bias == symmetric_of(raw) && exists|source: &mut R|
                {
                    &&& *source == start
                    &&& *final(source) == *rng
                    &&& #[trigger] call_ensures(R::symmetric, (source,), raw)
                };
        let ghost mut states: Seq<R> = seq![start, *rng];
        let ghost mut raws: Seq<u32> = seq![first];
        let mut weights: Vec<u32> = Vec::with_capacity(input_size);
        let mut index: usize = 0;
        while index < input_size
            invariant
                index <= input_size,
                weights@.len() == index,
                forall|at: int| 0 <= at < index ==> is_symmetric(#[trigger] weights@[at]),
                raws.len() == index + 1,
                states.len() == index + 2,
                states[0] == start,
                states[index + 1] == *rng,
                forall|at: int|
                    #[trigger] is_place(at, raws.len()) ==> {
                        &&& (seq![bias] + weights@)[at] == symmetric_of(raws[at])
                        &&& exists|source: &mut R|
                            {
                                &&& *source == states[at]
                                &&& *final(source) == states[at + 1]
                                &&& #[trigger] call_ensures(R::symmetric, (source,), raws[at])
                            }
                    },
            decreases input_size - index,
        {
            let ghost before = *rng;
            let ghost drawn = raws;
            let ghost passed = states;
            let ghost kept = seq![bias] + weights@;
            let weight = draw_symmetric(rng);
            let ghost raw = choose|raw: u32|
                weight == symmetric_of(raw) && exists|source: &mut R|
                    {
                        &&& *source == before
                        &&& *final(source) == *rng
                        &&& #[trigger] call_ensures(R::symmetric, (source,), raw)
                    };
            weights.push(weight);
            index += 1;
            proof {
                raws = drawn.push(raw);
                states = passed.push(*rng);
                assert forall|at: int| #[trigger] is_place(at, raws.len()) implies {
                    &&& (seq![bias] + weights@)[at] == symmetric_of(raws[at])
                    &&& exists|source: &mut R|
                        {
                            &&& *source == states[at]
                            &&& *final(source) == states[at + 1]
                            &&& #[trigger] call_ensures(R::symmetric, (source,), raws[at])
                        }
                } by {
                    if at < drawn.len() {
                        assert(is_place(at, drawn.len()));
                        assert(raws[at] == drawn[at]);
                        assert(states[at] == passed[at]);
                        assert(states[at + 1] == passed[at + 1]);
                        assert((seq![bias] + weights@)[at] == kept[at]);
                    } else {
                        assert(raws[at] == raw);
                        assert(states[at] == before);
                        assert(states[at + 1] == *rng);
                        assert((seq![bias] + weights@)[at] == weight);
                    }
                };
            }
        }
        let neuron = Self { bias, weights };
        assert(neuron_genes(neuron@) =~= seq![bias] + neuron.weights@);
        neuron
    }

    /// What the neuron gives for `inputs`, of which there is one for each
    /// weight.
    pub fn propagate<A: Arithmetic>(&self, arithmetic: &A, inputs: &[u32]) -> (output: u32)
        requires
            inputs@.len() == self@.weights.len(),
        ensures
            fires(arithmetic, self@, inputs@, output),
            is_not_negative(output),
    {
        let count = self.weights.len();
        let mut total: u32 = ZERO;
        let mut index: usize = 0;
        while index < count
            invariant
                count == self.weights@.len(),
                count == inputs@.len(),
                index <= count,
                accumulates(arithmetic, inputs@, self.weights@, index as nat, total),
            decreases count - index,
        {
            let term = arithmetic.product(inputs[index], self.weights[index]);
            let ghost before = total;
            total = arithmetic.sum(total, term);
            index += 1;
            assert(is_product(arithmetic, inputs@[index - 1], self.weights@[index - 1], term));
            assert(is_sum(arithmetic, before, term, total));
        }
        let shifted = arithmetic.sum(total, self.bias);
        let output = rectify(shifted);
        assert(is_sum(arithmetic, total, self@.bias, shifted));
        output
    }
}

} // verus!
