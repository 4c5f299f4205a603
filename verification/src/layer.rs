//! One layer: neurons that all read the same inputs.

use vstd::prelude::*;
use crate::arithmetic::Arithmetic;
use crate::gene::is_not_negative;
use crate::neuron::{fires, is_symmetric_neuron, Neuron, NeuronModel};
use crate::encoding::{layer_genes, neuron_genes};
use crate::random::{is_place, lemma_symmetric_draws_follow, symmetric_of, RandomSource};

verus! {

/// A layer of neurons, in their order.
#[derive(Debug)]
pub struct Layer {
    pub neurons: Vec<Neuron>,
}

impl View for Layer {
    type V = Seq<NeuronModel>;

    open spec fn view(&self) -> Seq<NeuronModel> {
        Seq::new(self.neurons@.len(), |index: int| self.neurons@[index]@)
    }
}

impl Clone for Layer {
    fn clone(&self) -> (copy: Self)
        ensures
            copy@ == self@,
    {
        let neurons = self.neurons.clone();
        let copy = Layer { neurons };
        assert(copy@ =~= self@);
        copy
    }
}

/// Every neuron of the layer has `width` weights.
pub open spec fn has_width(layer: Seq<NeuronModel>, width: nat) -> bool {
    forall|index: int| 0 <= index < layer.len() ==> (#[trigger] layer[index]).weights.len() == width
}

/// Every parameter of the layer lies in `[-1, 1]`.
pub open spec fn is_symmetric_layer(layer: Seq<NeuronModel>) -> bool {
    forall|index: int| 0 <= index < layer.len() ==> is_symmetric_neuron(#[trigger] layer[index])
}

/// `outputs` holds, for each neuron of the layer in order, what it gives for
/// `inputs`.
pub open spec fn layer_fires<A: Arithmetic>(
    arithmetic: &A,
    layer: Seq<NeuronModel>,
    inputs: Seq<u32>,
    outputs: Seq<u32>,
) -> bool {
    &&& outputs.len() == layer.len()
    &&& forall|index: int|
        0 <= index < layer.len() ==> fires(arithmetic, layer[index], inputs, #[trigger] outputs[index])
}

impl Layer {
    /// The layer of these neurons.
    pub fn new(neurons: Vec<Neuron>) -> (layer: Self)
        ensures
            layer.neurons == neurons,
    {
        Self { neurons }
    }

    /// A layer of `output_neurons` neurons for `input_neurons` inputs each,
    /// drawn neuron by neuron in order, each neuron whole before the next.
    /// The source is asked once for each parameter and for nothing else.
    pub fn random<R: RandomSource>(input_neurons: usize, output_neurons: usize, rng: &mut R) -> (layer: Self)
        ensures
            layer@.len() == output_neurons,
            has_width(layer@, input_neurons as nat),
            is_symmetric_layer(layer@),
            exists|states: Seq<R>, raws: Seq<u32>|
                {
                    &&& raws.len() == layer_genes(layer@).len()
                    &&& states.len() == raws.len() + 1
                    &&& states[0] == *old(rng)
                    &&& states[raws.len() as int] == *final(rng)
                    &&& forall|at: int|
                        #[trigger] is_place(at, raws.len()) ==> {
                            &&& layer_genes(layer@)[at] == symmetric_of(raws[at])
                            &&& exists|source: &mut R|
                                {
                                    &&& *source == states[at]
                                    &&& *final(source) == states[at + 1]
                                    &&& #[trigger] call_ensures(R::symmetric, (source,), raws[at])
                                }
                        }
                },
    {
        let ghost start = *rng;
        let ghost mut drawn: Seq<NeuronModel> = Seq::empty();
        let mut neurons: Vec<Neuron> = Vec::with_capacity(output_neurons);
        let mut index: usize = 0;
        proof {
            let states = seq![start];
            let raws = Seq::<u32>::empty();
            assert(states[raws.len() as int] == *rng);
        }
        while index < output_neurons
            invariant
                index <= output_neurons,
                neurons@.len() == index,
                forall|at: int| 0 <= at < index ==> (#[trigger] neurons@[at])@.weights.len() == input_neurons,
                forall|at: int| 0 <= at < index ==> is_symmetric_neuron((#[trigger] neurons@[at])@),
                drawn.len() == index,
                forall|at: int| 0 <= at < index ==> #[trigger] drawn[at] == neurons@[at]@,
                exists|states: Seq<R>, raws: Seq<u32>|
                    {
                        &&& raws.len() == layer_genes(drawn).len()
                        &&& states.len() == raws.len() + 1
                        &&& states[0] == start
                        &&& states[raws.len() as int] == *rng
                        &&& forall|at: int|
                            #[trigger] is_place(at, raws.len()) ==> {
                                &&& layer_genes(drawn)[at] == symmetric_of(raws[at])
                                &&& exists|source: &mut R|
                                    {
                                        &&& *source == states[at]
                                        &&& *final(source) == states[at + 1]
                                        &&& #[trigger] call_ensures(R::symmetric, (source,), raws[at])
                                    }
                            }
                    },
            decreases output_neurons - index,
        {
            let ghost before = *rng;
            let ghost earlier = drawn;
            let neuron = Neuron::random(input_neurons, rng);
            proof {
                let run = choose|states: Seq<R>, raws: Seq<u32>|
                    {
                        &&& raws.len() == layer_genes(earlier).len()
                        &&& states.len() == raws.len() + 1
                        &&& states[0] == start
                        &&& states[raws.len() as int] == before
                        &&& forall|at: int|
                            #[trigger] is_place(at, raws.len()) ==> {
                                &&& layer_genes(earlier)[at] == symmetric_of(raws[at])
                                &&& exists|source: &mut R|
                                    {
                                        &&& *source == states[at]
                                        &&& *final(source) == states[at + 1]
                                        &&& #[trigger] call_ensures(R::symmetric, (source,), raws[at])
                                    }
                            }
                    };
                let more = choose|states: Seq<R>, raws: Seq<u32>|
                    {
                        &&& raws.len() == neuron_genes(neuron@).len()
                        &&& states.len() == raws.len() + 1
                        &&& states[0] == before
                        &&& states[raws.len() as int] == *rng
                        &&& forall|at: int|
                            #[trigger] is_place(at, raws.len()) ==> {
                                &&& neuron_genes(neuron@)[at] == symmetric_of(raws[at])
                                &&& exists|source: &mut R|
                                    {
                                        &&& *source == states[at]
                                        &&& *final(source) == states[at + 1]
                                        &&& #[trigger] call_ensures(R::symmetric, (source,), raws[at])
                                    }
                            }
                    };
                lemma_symmetric_draws_follow(
                    layer_genes(earlier),
                    run.0,
                    run.1,
                    neuron_genes(neuron@),
                    more.0,
                    more.1,
                );
                assert(earlier.push(neuron@).drop_last() =~= earlier);
                drawn = earlier.push(neuron@);
                let states = run.0 + more.0.skip(1);
                let raws = run.1 + more.1;
                assert(layer_genes(drawn) == layer_genes(earlier) + neuron_genes(neuron@));
                assert(raws.len() == layer_genes(drawn).len());
                assert(states.len() == raws.len() + 1);
                assert(states[0] == start);
                assert(states[raws.len() as int] == *rng);
            }
            neurons.push(neuron);
            index += 1;
        }
        let layer = Self { neurons };
        assert(layer@ =~= drawn);
        layer
    }

    /// What each neuron of the layer gives for `inputs`, in the order of the
    /// neurons.
    pub fn propagate<A: Arithmetic>(&self, arithmetic: &A, inputs: Vec<u32>) -> (outputs: Vec<u32>)
        requires
            has_width(self@, inputs@.len()),
        ensures
            layer_fires(arithmetic, self@, inputs@, outputs@),
            forall|index: int| 0 <= index < outputs@.len() ==> is_not_negative(#[trigger] outputs@[index]),
    {
        let count = self.neurons.len();
        let mut outputs: Vec<u32> = Vec::with_capacity(count);
        let mut index: usize = 0;
        while index < count
            invariant
                count == self.neurons@.len(),
                has_width(self@, inputs@.len()),
                index <= count,
                outputs@.len() == index,
                forall|at: int|
                    0 <= at < index ==> fires(arithmetic, self@[at], inputs@, #[trigger] outputs@[at]),
                forall|at: int| 0 <= at < index ==> is_not_negative(#[trigger] outputs@[at]),
            decreases count - index,
        {
            assert(self@[index as int] == self.neurons@[index as int]@);
            let output = self.neurons[index].propagate(arithmetic, inputs.as_slice());
            outputs.push(output);
            index += 1;
        }
        outputs
    }
}

} // verus!
