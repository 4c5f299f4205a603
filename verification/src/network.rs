//! The feedforward network: layers evaluated one after another.

use vstd::prelude::*;
use crate::arithmetic::Arithmetic;
use crate::gene::is_not_negative;
use crate::layer::{has_width, is_symmetric_layer, layer_fires, Layer};
use crate::neuron::NeuronModel;
use crate::encoding::{layer_genes, network_genes};
use crate::random::{is_place, lemma_symmetric_draws_follow, symmetric_of, RandomSource};
use crate::topology::{valid_topology, LayerTopology};

verus! {

/// A network of layers, in the order in which a signal passes them. Its view
/// is the sequence of its layers, each the sequence of its neurons.
#[derive(Debug)]
pub struct Network {
    layers: Vec<Layer>,
}

/// What a sequence of layers is: each layer as the sequence of its neurons.
pub open spec fn layers_model(layers: Seq<Layer>) -> Seq<Seq<NeuronModel>> {
    Seq::new(layers.len(), |index: int| layers[index]@)
}

impl View for Network {
    type V = Seq<Seq<NeuronModel>>;

    closed spec fn view(&self) -> Seq<Seq<NeuronModel>> {
        layers_model(self.layers@)
    }
}

impl Clone for Network {
    fn clone(&self) -> (copy: Self)
        ensures
            copy@ == self@,
    {
        proof {
            use_type_invariant(self);
        }
        let layers = self.layers.clone();
        assert(layers_model(layers@) =~= layers_model(self.layers@));
        Network { layers }
    }
}

/// The number of inputs that the layer `layer` of `network` reads: for the
/// first layer the number of weights of its first neuron, for every other
/// the number of neurons of the layer before it.
pub open spec fn width_at(network: Seq<Seq<NeuronModel>>, layer: int) -> nat {
    if layer == 0 {
        network[0][0].weights.len()
    } else {
        network[layer - 1].len()
    }
}

/// The structure that every network has: at least one layer; in every layer
/// at least one neuron; for every neuron at least one weight, and as many
/// weights as its layer reads inputs.
pub open spec fn is_network(network: Seq<Seq<NeuronModel>>) -> bool {
    &&& network.len() >= 1
    &&& forall|layer: int| 0 <= layer < network.len() ==> (#[trigger] network[layer]).len() >= 1
    &&& network[0][0].weights.len() >= 1
    &&& forall|layer: int|
        0 <= layer < network.len() ==> has_width(#[trigger] network[layer], width_at(network, layer))
}

/// The network has the shape that the topology describes.
pub open spec fn matches_topology(network: Seq<Seq<NeuronModel>>, topology: Seq<LayerTopology>) -> bool {
    &&& network.len() + 1 == topology.len()
    &&& forall|layer: int|
        0 <= layer < network.len() ==> (#[trigger] network[layer]).len() == topology[layer + 1].neurons
    &&& forall|layer: int|
        0 <= layer < network.len() ==> has_width(#[trigger] network[layer], topology[layer].neurons as nat)
}

/// Every parameter of the network lies in `[-1, 1]`.
pub open spec fn is_symmetric_network(network: Seq<Seq<NeuronModel>>) -> bool {
    forall|layer: int| 0 <= layer < network.len() ==> is_symmetric_layer(#[trigger] network[layer])
}

/// `outputs` is what the first `depth` layers of `network` make of `inputs`:
/// what each layer gives is what the next one reads.
pub open spec fn feeds<A: Arithmetic>(
    arithmetic: &A,
    network: Seq<Seq<NeuronModel>>,
    depth: nat,
    inputs: Seq<u32>,
    outputs: Seq<u32>,
) -> bool
    decreases depth,
{
    if depth == 0 {
        outputs == inputs
    } else {
        exists|between: Seq<u32>|
            {
                &&& feeds(arithmetic, network, (depth - 1) as nat, inputs, between)
                &&& #[trigger] layer_fires(arithmetic, network[depth - 1], between, outputs)
            }
    }
}

/// What one more layer makes of what the layers before it made is what the
/// layers up to it make.
pub proof fn lemma_feeds_one_more<A: Arithmetic>(
    arithmetic: &A,
    network: Seq<Seq<NeuronModel>>,
    depth: nat,
    inputs: Seq<u32>,
    between: Seq<u32>,
    outputs: Seq<u32>,
)
    requires
        0 < depth <= network.len(),
        feeds(arithmetic, network, (depth - 1) as nat, inputs, between),
        layer_fires(arithmetic, network[depth - 1], between, outputs),
    ensures
        feeds(arithmetic, network, depth, inputs, outputs),
{
}

/// A network of the shape of a valid topology has the structure of a
/// network, and reads as many inputs as the topology's first entry says.
pub proof fn lemma_shape_is_network(network: Seq<Seq<NeuronModel>>, topology: Seq<LayerTopology>)
    requires
        valid_topology(topology),
        matches_topology(network, topology),
    ensures
        is_network(network),
        width_at(network, 0) == topology[0].neurons,
{
    assert forall|layer: int| 0 <= layer < network.len() implies has_width(
        #[trigger] network[layer],
        width_at(network, layer),
    ) by {
        assert(has_width(network[layer], topology[layer].neurons as nat));
        if layer == 0 {
            assert(network[0].len() == topology[1].neurons);
            assert(network[0][0].weights.len() == topology[0].neurons);
        } else {
            assert(network[layer - 1].len() == topology[layer].neurons);
        }
    }
    assert(network[0].len() == topology[1].neurons);
    assert(has_width(network[0], topology[0].neurons as nat));
}

impl Network {
    #[verifier::type_invariant]
    spec fn well_formed(self) -> bool {
        is_network(layers_model(self.layers@))
    }

    /// The network of these layers, which have the structure of a network.
    pub fn new(layers: Vec<Layer>) -> (network: Self)
        requires
            is_network(layers_model(layers@)),
        ensures
            network@ == layers_model(layers@),
            is_network(network@),
    {
        Self { layers }
    }

    /// The layers, in their order.
    pub fn layers(&self) -> (layers: &Vec<Layer>)
        ensures
            layers_model(layers@) == self@,
            is_network(self@),
    {
        proof {
            use_type_invariant(self);
        }
        &self.layers
    }

    /// Whether the layers have the structure of a network.
    pub fn check(layers: &[Layer]) -> (valid: bool)
        ensures
            valid == is_network(layers_model(layers@)),
    {
        let ghost network = layers_model(layers@);
        let depth = layers.len();
        if depth == 0 {
            return false;
        }
        if layers[0].neurons.len() == 0 {
            assert(network[0].len() == 0);
            return false;
        }
        assert(network[0][0] == layers@[0].neurons@[0]@);
        let mut width = layers[0].neurons[0].weights.len();
        if width == 0 {
            return false;
        }
        let mut layer: usize = 0;
        while layer < depth
            invariant
                network == layers_model(layers@),
                depth == layers@.len(),
                depth >= 1,
                network[0].len() >= 1,
                network[0][0].weights.len() >= 1,
                layer <= depth,
                width == width_at(network, layer as int),
                forall|at: int| 0 <= at < layer ==> (#[trigger] network[at]).len() >= 1,
                forall|at: int| 0 <= at < layer ==> has_width(#[trigger] network[at], width_at(network, at)),
            decreases depth - layer,
        {
            let neurons = &layers[layer].neurons;
            let count = neurons.len();
            assert(network[layer as int].len() == count);
            if count == 0 {
                return false;
            }
            let mut index: usize = 0;
            while index < count
                invariant
                    network == layers_model(layers@),
                    layer < depth,
                    depth == layers@.len(),
                    neurons == layers@[layer as int].neurons,
                    count == neurons@.len(),
                    index <= count,
                    width == width_at(network, layer as int),
                    forall|at: int| 0 <= at < index ==> (#[trigger] network[layer as int][at]).weights.len() == width,
                decreases count - index,
            {
                assert(network[layer as int][index as int] == neurons@[index as int]@);
                if neurons[index].weights.len() != width {
                    assert(!has_width(network[layer as int], width as nat));
                    return false;
                }
                index += 1;
            }
            width = count;
            layer += 1;
        }
        true
    }

    /// A network of the shape of `topology`, drawn layer by layer in order,
    /// in each layer neuron by neuron, for each neuron its bias and then its
    /// weights. The source is asked once for each parameter and for nothing
    /// else, so that two sources in one state give one network.
    pub fn random<R: RandomSource>(topology: &[LayerTopology], rng: &mut R) -> (network: Self)
        requires
            valid_topology(topology@),
        ensures
            matches_topology(network@, topology@),
            is_network(network@),
            is_symmetric_network(network@),
            exists|states: Seq<R>, raws: Seq<u32>|
                {
                    &&& raws.len() == network_genes(network@).len()
                    &&& states.len() == raws.len() + 1
                    &&& states[0] == *old(rng)
                    &&& states[raws.len() as int] == *final(rng)
                    &&& forall|at: int|
                        #[trigger] is_place(at, raws.len()) ==> {
                            &&& network_genes(network@)[at] == symmetric_of(raws[at])
                            &&& exists|source: &mut R|
                                {
                                    &&& *source == states[at]
                                    &&& *final(source) == states[at + 1]
                                    &&& #[trigger] call_ensures(R::symmetric, (source,), raws[at])
                                }
                        }
                },
    {
        let ghost start = *rng;
        let ghost mut drawn: Seq<Seq<NeuronModel>> = Seq::empty();
        let depth = topology.len() - 1;
        let mut layers: Vec<Layer> = Vec::with_capacity(depth);
        let mut index: usize = 0;
        proof {
            let states = seq![start];
            let raws = Seq::<u32>::empty();
            assert(states[raws.len() as int] == *rng);
        }
        while index < depth
            invariant
                depth + 1 == topology@.len(),
                index <= depth,
                layers@.len() == index,
                forall|at: int| 0 <= at < index ==> (#[trigger] layers@[at])@.len() == topology@[at + 1].neurons,
                forall|at: int|
                    0 <= at < index ==> has_width((#[trigger] layers@[at])@, topology@[at].neurons as nat),
                forall|at: int| 0 <= at < index ==> is_symmetric_layer((#[trigger] layers@[at])@),
                drawn.len() == index,
                forall|at: int| 0 <= at < index ==> #[trigger] drawn[at] == layers@[at]@,
                exists|states: Seq<R>, raws: Seq<u32>|
                    {
                        &&& raws.len() == network_genes(drawn).len()
                        &&& states.len() == raws.len() + 1
                        &&& states[0] == start
                        &&& states[raws.len() as int] == *rng
                        &&& forall|at: int|
                            #[trigger] is_place(at, raws.len()) ==> {
                                &&& network_genes(drawn)[at] == symmetric_of(raws[at])
                                &&& exists|source: &mut R|
                                    {
                                        &&& *source == states[at]
                                        &&& *final(source) == states[at + 1]
                                        &&& #[trigger] call_ensures(R::symmetric, (source,), raws[at])
                                    }
                            }
                    },
            decreases depth - index,
        {
            let ghost before = *rng;
            let ghost earlier = drawn;
            let layer = Layer::random(topology[index].neurons, topology[index + 1].neurons, rng);
            proof {
                let run = choose|states: Seq<R>, raws: Seq<u32>|
                    {
                        &&& raws.len() == network_genes(earlier).len()
                        &&& states.len() == raws.len() + 1
                        &&& states[0] == start
                        &&& states[raws.len() as int] == before
                        &&& forall|at: int|
                            #[trigger] is_place(at, raws.len()) ==> {
                                &&& network_genes(earlier)[at] == symmetric_of(raws[at])
                                &&& exists|source: &mut R|
                                    {
                                        &&& *source == states[at]
                                        &&& *final(source) == states[at + 1]
                                        &&& #[trigger] call_ensures(R::symmetric, (source,), raws[at])
                                    }
                            }
                    };
                let more = choose|states: Seq<R>, raws: Seq<u32>|
                    {
                        &&& raws.len() == layer_genes(layer@).len()
                        &&& states.len() == raws.len() + 1
                        &&& states[0] == before
                        &&& states[raws.len() as int] == *rng
                        &&& forall|at: int|
                            #[trigger] is_place(at, raws.len()) ==> {
                                &&& layer_genes(layer@)[at] == symmetric_of(raws[at])
                                &&& exists|source: &mut R|
                                    {
                                        &&& *source == states[at]
                                        &&& *final(source) == states[at + 1]
                                        &&& #[trigger] call_ensures(R::symmetric, (source,), raws[at])
                                    }
                            }
                    };
                lemma_symmetric_draws_follow(
                    network_genes(earlier),
                    run.0,
                    run.1,
                    layer_genes(layer@),
                    more.0,
                    more.1,
                );
                assert(earlier.push(layer@).drop_last() =~= earlier);
                drawn = earlier.push(layer@);
                let states = run.0 + more.0.skip(1);
                let raws = run.1 + more.1;
                assert(network_genes(drawn) == network_genes(earlier) + layer_genes(layer@));
                assert(raws.len() == network_genes(drawn).len());
                assert(states.len() == raws.len() + 1);
                assert(states[0] == start);
                assert(states[raws.len() as int] == *rng);
            }
            layers.push(layer);
            index += 1;
        }
        let network = Self { layers };
        proof {
            assert(network@ =~= drawn);
            assert forall|at: int| 0 <= at < network@.len() implies is_symmetric_layer(#[trigger] network@[at]) by {
                assert(network@[at] == network.layers@[at]@);
            }
            assert forall|at: int| 0 <= at < network@.len() implies has_width(
                #[trigger] network@[at],
                topology@[at].neurons as nat,
            ) by {
                assert(network@[at] == network.layers@[at]@);
            }
            assert forall|at: int| 0 <= at < network@.len() implies (#[trigger] network@[at]).len()
                == topology@[at + 1].neurons by {
                assert(network@[at] == network.layers@[at]@);
            }
            lemma_shape_is_network(network@, topology@);
        }
        network
    }

    /// The number of inputs that the network reads.
    pub fn input_width(&self) -> (width: usize)
        ensures
            width == width_at(self@, 0),
            width >= 1,
    {
        proof {
            use_type_invariant(self);
        }
        assert(self@[0] == self.layers@[0]@);
        assert(self@[0][0] == self.layers@[0].neurons@[0]@);
        self.layers[0].neurons[0].weights.len()
    }

    /// What the network makes of `inputs`, of which there are as many as it
    /// reads: what its last layer gives.
    pub fn propagate<A: Arithmetic>(&self, arithmetic: &A, inputs: Vec<u32>) -> (outputs: Vec<u32>)
        requires
            inputs@.len() == width_at(self@, 0),
        ensures
            feeds(arithmetic, self@, self@.len(), inputs@, outputs@),
            outputs@.len() == self@.last().len(),
            forall|index: int| 0 <= index < outputs@.len() ==> is_not_negative(#[trigger] outputs@[index]),
    {
        proof {
            use_type_invariant(self);
        }
        let depth = self.layers.len();
        let ghost given = inputs@;
        let mut signal = inputs;
        let mut layer: usize = 0;
        while layer < depth
            invariant
                depth == self@.len(),
                depth == self.layers@.len(),
                is_network(self@),
                layer <= depth,
                layer < depth ==> signal@.len() == width_at(self@, layer as int),
                layer > 0 ==> signal@.len() == self@[layer - 1].len(),
                layer > 0 ==> forall|index: int|
                    0 <= index < signal@.len() ==> is_not_negative(#[trigger] signal@[index]),
                feeds(arithmetic, self@, layer as nat, given, signal@),
            decreases depth - layer,
        {
            assert(self@[layer as int] == self.layers@[layer as int]@);
            let ghost between = signal@;
            signal = self.layers[layer].propagate(arithmetic, signal);
            layer += 1;
            proof {
                lemma_feeds_one_more(arithmetic, self@, layer as nat, given, between, signal@);
            }
        }
        signal
    }
}

} // verus!
