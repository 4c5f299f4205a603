//! The conversion between a network and its genome.
//!
//! A genome holds the parameters of a network layer by layer, in each layer
//! neuron by neuron, for each neuron its bias and then its weights in the
//! order of its inputs.

use vstd::prelude::*;
use crate::chromosome::Chromosome;
use crate::layer::{has_width, Layer};
use crate::network::{is_network, layers_model, lemma_shape_is_network, matches_topology, Network};
use crate::neuron::{Neuron, NeuronModel};
use crate::topology::{
    gene_count,
    genes_before,
    layer_size,
    lemma_genes_before_grows,
    required_genes,
    valid_topology,
    LayerTopology,
};

verus! {

/// Why a genome cannot be decoded.
#[derive(Clone, Copy, Debug, PartialEq, Eq)]
pub enum DecodeError {
    /// The genome has fewer genes than the topology asks for.
    GenomeLengthMismatch,
}

/// The genes of a neuron: its bias, then its weights.
pub open spec fn neuron_genes(neuron: NeuronModel) -> Seq<u32> {
    seq![neuron.bias] + neuron.weights
}

/// The genes of a layer: those of its neurons, one neuron after another.
pub open spec fn layer_genes(layer: Seq<NeuronModel>) -> Seq<u32>
    decreases layer.len(),
{
    if layer.len() == 0 {
        Seq::empty()
    } else {
        layer_genes(layer.drop_last()) + neuron_genes(layer.last())
    }
}

/// The genes of a network: those of its layers, one layer after another.
pub open spec fn network_genes(network: Seq<Seq<NeuronModel>>) -> Seq<u32>
    decreases network.len(),
{
    if network.len() == 0 {
        Seq::empty()
    } else {
        network_genes(network.drop_last()) + layer_genes(network.last())
    }
}

/// The neuron with `inputs` weights whose genes begin at `start`.
pub open spec fn neuron_at(genes: Seq<u32>, start: int, inputs: nat) -> NeuronModel {
    NeuronModel { bias: genes[start], weights: genes.subrange(start + 1, start + 1 + inputs) }
}

/// The layer of `outputs` neurons with `inputs` weights each whose genes
/// begin at `start`.
pub open spec fn layer_at(genes: Seq<u32>, start: int, inputs: nat, outputs: nat) -> Seq<NeuronModel> {
    Seq::new(outputs, |index: int| neuron_at(genes, start + index * (inputs + 1), inputs))
}

/// The network of the shape of `topology` whose genes are the first of
/// `genes`.
pub open spec fn network_at(genes: Seq<u32>, topology: Seq<LayerTopology>) -> Seq<Seq<NeuronModel>> {
    Seq::new(
        (topology.len() - 1) as nat,
        |layer: int|
            layer_at(
                genes,
                genes_before(topology, layer as nat) as int,
                topology[layer].neurons as nat,
                topology[layer + 1].neurons as nat,
            ),
    )
}

/// What decoding gives: the network read from the front of the genome, or an
/// error where the genome has too few genes for the topology. Genes beyond
/// those that the topology asks for are not read.
pub open spec fn decoded(topology: Seq<LayerTopology>, genes: Seq<u32>) -> Result<
    Seq<Seq<NeuronModel>>,
    DecodeError,
> {
    if genes.len() < gene_count(topology) {
        Err(DecodeError::GenomeLengthMismatch)
    } else {
        Ok(network_at(genes, topology))
    }
}

/// The genes of the first neurons of a layer and one more are those of the
/// first neurons, then those of the one more.
proof fn lemma_layer_genes_grow(layer: Seq<NeuronModel>, count: int)
    requires
        0 <= count < layer.len(),
    ensures
        layer_genes(layer.take(count + 1)) == layer_genes(layer.take(count)) + neuron_genes(layer[count]),
{
    assert(layer.take(count + 1).drop_last() =~= layer.take(count));
}

/// The genes of the first layers of a network and one more are those of the
/// first layers, then those of the one more.
proof fn lemma_network_genes_grow(network: Seq<Seq<NeuronModel>>, count: int)
    requires
        0 <= count < network.len(),
    ensures
        network_genes(network.take(count + 1)) == network_genes(network.take(count)) + layer_genes(
            network[count],
        ),
{
    assert(network.take(count + 1).drop_last() =~= network.take(count));
}

/// A layer whose neurons have `width` weights each has as many genes as
/// [`layer_size`] says.
pub proof fn lemma_layer_genes_len(layer: Seq<NeuronModel>, width: nat)
    requires
        has_width(layer, width),
    ensures
        layer_genes(layer).len() == layer_size(width, layer.len()),
    decreases layer.len(),
{
    if layer.len() > 0 {
        lemma_layer_genes_len(layer.drop_last(), width);
        let fewer = layer.len() - 1;
        assert(layer.last().weights.len() == width);
        assert((fewer + 1) * (width + 1) == fewer * (width + 1) + (width + 1)) by (nonlinear_arith);
    } else {
        assert(0 * (width + 1) == 0) by (nonlinear_arith);
    }
}

/// Where the genes from `start` on are those of `layer`, reading a layer of
/// its shape at `start` gives `layer`.
proof fn lemma_layer_read_back(genes: Seq<u32>, start: int, layer: Seq<NeuronModel>, width: nat)
    requires
        has_width(layer, width),
        0 <= start,
        start + layer_genes(layer).len() <= genes.len(),
        genes.subrange(start, start + layer_genes(layer).len()) == layer_genes(layer),
    ensures
        layer_at(genes, start, width, layer.len()) == layer,
    decreases layer.len(),
{
    if layer.len() > 0 {
        let fewer = layer.drop_last();
        let last = layer.last();
        let fewer_genes = layer_genes(fewer);
        let all_genes = layer_genes(layer);
        let slice = genes.subrange(start, start + all_genes.len());
        lemma_layer_genes_len(fewer, width);
        lemma_layer_genes_len(layer, width);
        assert(last.weights.len() == width);
        assert(genes.subrange(start, start + fewer_genes.len()) =~= fewer_genes) by {
            assert forall|at: int| 0 <= at < fewer_genes.len() implies genes[start + at] == fewer_genes[at] by {
                assert(slice[at] == all_genes[at]);
            }
        }
        lemma_layer_read_back(genes, start, fewer, width);
        let offset = (fewer.len() * (width + 1)) as int;
        assert(offset == fewer_genes.len());
        let read = neuron_at(genes, start + offset, width);
        assert(read.bias == last.bias) by {
            assert(slice[offset] == all_genes[offset]);
        }
        assert(read.weights =~= last.weights) by {
            assert forall|at: int| 0 <= at < width implies read.weights[at] == last.weights[at] by {
                assert(slice[offset + 1 + at] == all_genes[offset + 1 + at]);
            }
        }
        assert(layer_at(genes, start, width, layer.len()) =~= layer) by {
            assert forall|at: int| 0 <= at < layer.len() implies layer_at(
                genes,
                start,
                width,
                layer.len(),
            )[at] == layer[at] by {
                if at < fewer.len() {
                    assert(layer_at(genes, start, width, fewer.len())[at] == fewer[at]);
                }
            }
        }
    } else {
        assert(layer_at(genes, start, width, layer.len()) =~= layer);
    }
}

/// In the genes of the first `count` layers of a network, the genes of the
/// layer `layer` stand where the topology says.
proof fn lemma_layer_slice(
    network: Seq<Seq<NeuronModel>>,
    topology: Seq<LayerTopology>,
    count: nat,
    layer: nat,
)
    requires
        matches_topology(network, topology),
        layer < count <= network.len(),
    ensures
        network_genes(network.take(count as int)).len() == genes_before(topology, count),
        genes_before(topology, layer + 1) <= genes_before(topology, count),
        layer_genes(network[layer as int]).len() == genes_before(topology, layer + 1) - genes_before(
            topology,
            layer,
        ),
        network_genes(network.take(count as int)).subrange(
            genes_before(topology, layer) as int,
            genes_before(topology, layer + 1) as int,
        ) == layer_genes(network[layer as int]),
    decreases count,
{
    let fewer = (count - 1) as nat;
    let before = network_genes(network.take(fewer as int));
    let added = layer_genes(network[fewer as int]);
    let all = network_genes(network.take(count as int));
    lemma_network_genes_grow(network, fewer as int);
    lemma_layer_genes_len(network[fewer as int], topology[fewer as int].neurons as nat);
    lemma_genes_before_grows(topology, layer + 1, count);
    if fewer == 0 {
        assert(network.take(0) =~= Seq::<Seq<NeuronModel>>::empty());
        assert(before =~= Seq::<u32>::empty());
    } else {
        lemma_layer_slice(network, topology, fewer, 0);
    }
    assert(before.len() == genes_before(topology, fewer));
    if layer < fewer {
        lemma_layer_slice(network, topology, fewer, layer);
        assert(all.subrange(
            genes_before(topology, layer) as int,
            genes_before(topology, layer + 1) as int,
        ) =~= before.subrange(
            genes_before(topology, layer) as int,
            genes_before(topology, layer + 1) as int,
        ));
    } else {
        lemma_genes_before_grows(topology, layer, layer + 1);
        assert(all.subrange(
            genes_before(topology, layer) as int,
            genes_before(topology, layer + 1) as int,
        ) =~= added);
    }
}

/// A network of the shape of a topology has as many genes as the topology
/// asks for.
pub proof fn lemma_network_genes_len(network: Seq<Seq<NeuronModel>>, topology: Seq<LayerTopology>)
    requires
        matches_topology(network, topology),
    ensures
        network_genes(network).len() == gene_count(topology),
{
    assert(network.take(network.len() as int) =~= network);
    if network.len() > 0 {
        lemma_layer_slice(network, topology, network.len(), 0);
    }
}

/// The round trip: decoding the genome of a network by the topology whose
/// shape the network has gives the network back. Genes that follow those of
/// the network change nothing.
pub proof fn lemma_round_trip(
    network: Seq<Seq<NeuronModel>>,
    topology: Seq<LayerTopology>,
    extra: Seq<u32>,
)
    requires
        matches_topology(network, topology),
    ensures
        decoded(topology, network_genes(network) + extra) == Ok::<_, DecodeError>(network),
{
    let own = network_genes(network);
    let genes = own + extra;
    lemma_network_genes_len(network, topology);
    assert(network.take(network.len() as int) =~= network);
    assert(network_at(genes, topology) =~= network) by {
        assert forall|layer: int| 0 <= layer < network.len() implies network_at(genes, topology)[layer]
            == network[layer] by {
            let start = genes_before(topology, layer as nat);
            let end = genes_before(topology, (layer + 1) as nat);
            lemma_layer_slice(network, topology, network.len(), layer as nat);
            assert(genes.subrange(start as int, end as int) =~= own.subrange(start as int, end as int));
            lemma_layer_read_back(genes, start as int, network[layer], topology[layer].neurons as nat);
        }
    }
}

/// The genes of the neuron read at `start` are the genes from `start` on.
proof fn lemma_neuron_genes_read(genes: Seq<u32>, start: int, inputs: nat)
    requires
        0 <= start,
        start + 1 + inputs <= genes.len(),
    ensures
        neuron_genes(neuron_at(genes, start, inputs)) == genes.subrange(start, start + 1 + inputs),
{
    assert(neuron_genes(neuron_at(genes, start, inputs)) =~= genes.subrange(start, start + 1 + inputs));
}

/// The genes of the layer read at `start` are the genes from `start` on.
proof fn lemma_layer_genes_read(genes: Seq<u32>, start: int, inputs: nat, outputs: nat)
    requires
        0 <= start,
        start + layer_size(inputs, outputs) <= genes.len(),
    ensures
        layer_genes(layer_at(genes, start, inputs, outputs)) == genes.subrange(
            start,
            start + layer_size(inputs, outputs),
        ),
    decreases outputs,
{
    let layer = layer_at(genes, start, inputs, outputs);
    if outputs == 0 {
        assert(0 * (inputs + 1) == 0) by (nonlinear_arith);
        assert(layer_genes(layer) =~= genes.subrange(start, start + layer_size(inputs, outputs)));
    } else {
        let fewer = (outputs - 1) as nat;
        let middle = start + layer_size(inputs, fewer);
        let end = start + layer_size(inputs, outputs);
        assert((fewer + 1) * (inputs + 1) == fewer * (inputs + 1) + (inputs + 1)) by (nonlinear_arith);
        assert(layer.drop_last() =~= layer_at(genes, start, inputs, fewer));
        lemma_layer_genes_read(genes, start, inputs, fewer);
        lemma_neuron_genes_read(genes, middle, inputs);
        assert(layer.last() == neuron_at(genes, middle, inputs));
        assert(genes.subrange(start, middle) + genes.subrange(middle, end) =~= genes.subrange(start, end));
    }
}

/// The genes of the first `count` layers of the network read from `genes`
/// are the first genes of `genes`.
proof fn lemma_network_genes_read(genes: Seq<u32>, topology: Seq<LayerTopology>, count: nat)
    requires
        count + 1 <= topology.len(),
        gene_count(topology) <= genes.len(),
    ensures
        network_genes(network_at(genes, topology).take(count as int)) == genes.subrange(
            0,
            genes_before(topology, count) as int,
        ),
    decreases count,
{
    let network = network_at(genes, topology);
    if count == 0 {
        assert(network_genes(network.take(0)) =~= genes.subrange(0, 0));
    } else {
        let fewer = (count - 1) as nat;
        let middle = genes_before(topology, fewer) as int;
        let end = genes_before(topology, count) as int;
        lemma_network_genes_grow(network, fewer as int);
        lemma_network_genes_read(genes, topology, fewer);
        lemma_genes_before_grows(topology, count, (topology.len() - 1) as nat);
        lemma_layer_genes_read(
            genes,
            middle,
            topology[fewer as int].neurons as nat,
            topology[count as int].neurons as nat,
        );
        assert(genes.subrange(0, middle) + genes.subrange(middle, end) =~= genes.subrange(0, end));
    }
}

/// The round trip the other way: the genome of the network that decoding
/// reads from a genome is that genome, as far as the topology asks for genes.
pub proof fn lemma_encode_of_decoded(topology: Seq<LayerTopology>, genes: Seq<u32>)
    requires
        topology.len() >= 1,
        gene_count(topology) <= genes.len(),
    ensures
        decoded(topology, genes) == Ok::<_, DecodeError>(network_at(genes, topology)),
        network_genes(network_at(genes, topology)) == genes.take(gene_count(topology) as int),
{
    let network = network_at(genes, topology);
    lemma_network_genes_read(genes, topology, (topology.len() - 1) as nat);
    assert(network.take(network.len() as int) =~= network);
}

/// Appends the genes of `neuron` to `genes`.
fn append_neuron(genes: &mut Vec<u32>, neuron: &Neuron)
    ensures
        final(genes)@ == old(genes)@ + neuron_genes(neuron@),
{
    let ghost before = genes@;
    genes.push(neuron.bias);
    let count = neuron.weights.len();
    let mut index: usize = 0;
    while index < count
        invariant
            count == neuron.weights@.len(),
            index <= count,
            genes@ == before + seq![neuron.bias] + neuron.weights@.take(index as int),
        decreases count - index,
    {
        genes.push(neuron.weights[index]);
        index += 1;
        assert(genes@ =~= before + seq![neuron.bias] + neuron.weights@.take(index as int));
    }
    assert(neuron.weights@.take(count as int) =~= neuron.weights@);
    assert(genes@ =~= before + neuron_genes(neuron@));
}

/// Appends the genes of `layer` to `genes`.
fn append_layer(genes: &mut Vec<u32>, layer: &Layer)
    ensures
        final(genes)@ == old(genes)@ + layer_genes(layer@),
{
    let ghost before = genes@;
    let count = layer.neurons.len();
    let mut index: usize = 0;
    assert(genes@ =~= before + layer_genes(layer@.take(0)));
    while index < count
        invariant
            count == layer.neurons@.len(),
            count == layer@.len(),
            index <= count,
            genes@ == before + layer_genes(layer@.take(index as int)),
        decreases count - index,
    {
        assert(layer@[index as int] == layer.neurons@[index as int]@);
        append_neuron(genes, &layer.neurons[index]);
        proof {
            lemma_layer_genes_grow(layer@, index as int);
            assert(genes@ =~= before + layer_genes(layer@.take(index + 1)));
        }
        index += 1;
    }
    assert(layer@.take(count as int) =~= layer@);
}

/// Reads the neuron with `inputs` weights whose genes begin at `start`.
fn read_neuron(genome: &Chromosome, start: usize, inputs: usize) -> (neuron: Neuron)
    requires
        start + 1 + inputs <= genome@.len(),
    ensures
        neuron@ == neuron_at(genome@, start as int, inputs as nat),
        neuron@.weights.len() == inputs,
{
    let available = genome.len();
    let bias = genome.get(start);
    let mut weights: Vec<u32> = Vec::with_capacity(inputs);
    let mut index: usize = 0;
    while index < inputs
        invariant
            available == genome@.len(),
            start + 1 + inputs <= available,
            index <= inputs,
            weights@.len() == index,
            forall|at: int| 0 <= at < index ==> #[trigger] weights@[at] == genome@[start + 1 + at],
        decreases inputs - index,
    {
        weights.push(genome.get(start + 1 + index));
        index += 1;
    }
    assert(weights@ =~= genome@.subrange(start + 1, start + 1 + inputs));
    Neuron { bias, weights }
}

/// Reads the layer of `outputs` neurons with `inputs` weights each whose
/// genes begin at `start`, and says where its genes end.
fn read_layer(genome: &Chromosome, start: usize, inputs: usize, outputs: usize) -> (read: (Layer, usize))
    requires
        start + layer_size(inputs as nat, outputs as nat) <= genome@.len(),
    ensures
        read.0@ == layer_at(genome@, start as int, inputs as nat, outputs as nat),
        read.0@.len() == outputs,
        has_width(read.0@, inputs as nat),
        read.1 == start + layer_size(inputs as nat, outputs as nat),
{
    let available = genome.len();
    let mut neurons: Vec<Neuron> = Vec::with_capacity(outputs);
    let mut position: usize = start;
    let mut index: usize = 0;
    assert(0 * (inputs + 1) == 0) by (nonlinear_arith);
    while index < outputs
        invariant
            available == genome@.len(),
            start + outputs * (inputs + 1) <= available,
            index <= outputs,
            position == start + index * (inputs + 1),
            neurons@.len() == index,
            forall|at: int|
                0 <= at < index ==> (#[trigger] neurons@[at])@ == neuron_at(
                    genome@,
                    start + at * (inputs + 1),
                    inputs as nat,
                ),
            forall|at: int| 0 <= at < index ==> (#[trigger] neurons@[at])@.weights.len() == inputs,
        decreases outputs - index,
    {
        assert((index + 1) * (inputs + 1) == index * (inputs + 1) + (inputs + 1)) by (nonlinear_arith);
        assert((index + 1) * (inputs + 1) <= outputs * (inputs + 1)) by (nonlinear_arith)
            requires
                index + 1 <= outputs,
        ;
        let neuron = read_neuron(genome, position, inputs);
        neurons.push(neuron);
        position = position + 1 + inputs;
        index += 1;
    }
    let layer = Layer { neurons };
    assert(layer@ =~= layer_at(genome@, start as int, inputs as nat, outputs as nat));
    (layer, position)
}

impl Network {
    /// The genome of the network: its parameters layer by layer, neuron by
    /// neuron, for each neuron its bias and then its weights.
    pub fn encode(&self) -> (genome: Chromosome)
        ensures
            genome@ == network_genes(self@),
    {
        let layers = self.layers();
        let count = layers.len();
        let mut genes: Vec<u32> = Vec::new();
        let mut index: usize = 0;
        assert(genes@ =~= network_genes(self@.take(0)));
        while index < count
            invariant
                layers_model(layers@) == self@,
                count == layers@.len(),
                index <= count,
                genes@ == network_genes(self@.take(index as int)),
            decreases count - index,
        {
            assert(self@[index as int] == layers@[index as int]@);
            append_layer(&mut genes, &layers[index]);
            proof {
                lemma_network_genes_grow(self@, index as int);
            }
            index += 1;
        }
        assert(self@.take(count as int) =~= self@);
        Chromosome::new(genes)
    }

    /// The network of the shape of `topology` whose parameters are the first
    /// genes of `genome`, read in the order in which [`Network::encode`]
    /// writes them; or, where the genome has fewer genes than the topology
    /// asks for, the error that says so.
    pub fn decode(topology: &[LayerTopology], genome: &Chromosome) -> (result: Result<Network, DecodeError>)
        requires
            valid_topology(topology@),
        ensures
            match result {
                Ok(network) => {
                    &&& decoded(topology@, genome@) == Ok::<_, DecodeError>(network@)
                    &&& matches_topology(network@, topology@)
                    &&& is_network(network@)
                },
                Err(error) => decoded(topology@, genome@) == Err::<Seq<Seq<NeuronModel>>, _>(error),
            },
    {
        let available = genome.len();
        let enough = match required_genes(topology) {
            Some(needed) => available >= needed,
            None => false,
        };
        if !enough {
            return Err(DecodeError::GenomeLengthMismatch);
        }
        let depth = topology.len() - 1;
        let mut layers: Vec<Layer> = Vec::with_capacity(depth);
        let mut start: usize = 0;
        let mut index: usize = 0;
        while index < depth
            invariant
                depth + 1 == topology@.len(),
                gene_count(topology@) <= genome@.len(),
                index <= depth,
                start == genes_before(topology@, index as nat),
                layers@.len() == index,
                forall|at: int|
                    0 <= at < index ==> (#[trigger] layers@[at])@ == layer_at(
                        genome@,
                        genes_before(topology@, at as nat) as int,
                        topology@[at].neurons as nat,
                        topology@[at + 1].neurons as nat,
                    ),
                forall|at: int| 0 <= at < index ==> (#[trigger] layers@[at])@.len() == topology@[at + 1].neurons,
                forall|at: int|
                    0 <= at < index ==> has_width((#[trigger] layers@[at])@, topology@[at].neurons as nat),
            decreases depth - index,
        {
            proof {
                lemma_genes_before_grows(topology@, (index + 1) as nat, depth as nat);
            }
            let (layer, end) = read_layer(genome, start, topology[index].neurons, topology[index + 1].neurons);
            layers.push(layer);
            start = end;
            index += 1;
        }
        proof {
            let model = layers_model(layers@);
            assert(model =~= network_at(genome@, topology@));
            assert forall|at: int| 0 <= at < model.len() implies has_width(
                #[trigger] model[at],
                topology@[at].neurons as nat,
            ) by {
                assert(model[at] == layers@[at]@);
            }
            assert forall|at: int| 0 <= at < model.len() implies (#[trigger] model[at]).len()
                == topology@[at + 1].neurons by {
                assert(model[at] == layers@[at]@);
            }
            lemma_shape_is_network(model, topology@);
        }
        Ok(Network::new(layers))
    }
}

} // verus!
