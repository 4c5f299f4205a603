//! The shape of a network: how many neurons each layer has.

use vstd::prelude::*;

verus! {

/// The number of neurons of one layer. The first entry of a topology is the
/// number of inputs of the network.
#[derive(Clone, Copy, Debug)]
pub struct LayerTopology {
    pub neurons: usize,
}

/// A topology names at least two layers and no layer without a neuron.
pub open spec fn valid_topology(topology: Seq<LayerTopology>) -> bool {
    &&& topology.len() >= 2
    &&& forall|index: int| 0 <= index < topology.len() ==> (#[trigger] topology[index]).neurons >= 1
}

/// The number of genes of a layer of `outputs` neurons with `inputs` inputs
/// each: for every neuron a bias and a weight for each input.
pub open spec fn layer_size(inputs: nat, outputs: nat) -> nat {
    outputs * (inputs + 1)
}

/// The number of genes of all the layers before the layer `layer`, counted
/// from zero at the first layer that has neurons with weights.
pub open spec fn genes_before(topology: Seq<LayerTopology>, layer: nat) -> nat
    decreases layer,
{
    if layer == 0 {
        0
    } else {
        genes_before(topology, (layer - 1) as nat) + layer_size(
            topology[layer - 1].neurons as nat,
            topology[layer as int].neurons as nat,
        )
    }
}

/// The number of genes of a network of this topology.
pub open spec fn gene_count(topology: Seq<LayerTopology>) -> nat {
    if topology.len() == 0 {
        0
    } else {
        genes_before(topology, (topology.len() - 1) as nat)
    }
}

/// The layers up to a later one hold at least as many genes as those up to
/// an earlier one.
pub proof fn lemma_genes_before_grows(topology: Seq<LayerTopology>, low: nat, high: nat)
    requires
        low <= high,
    ensures
        genes_before(topology, low) <= genes_before(topology, high),
    decreases high,
{
    if low < high {
        lemma_genes_before_grows(topology, low, (high - 1) as nat);
    }
}

/// Whether the topology names at least two layers and no layer without a
/// neuron.
pub fn check_topology(topology: &[LayerTopology]) -> (valid: bool)
    ensures
        valid == valid_topology(topology@),
{
    let depth = topology.len();
    if depth < 2 {
        return false;
    }
    let mut index: usize = 0;
    while index < depth
        invariant
            depth == topology@.len(),
            index <= depth,
            forall|at: int| 0 <= at < index ==> (#[trigger] topology@[at]).neurons >= 1,
        decreases depth - index,
    {
        if topology[index].neurons == 0 {
            return false;
        }
        index += 1;
    }
    true
}

/// The number of genes of a network of this topology, or `None` where that
/// number is beyond what a `usize` holds.
pub fn required_genes(topology: &[LayerTopology]) -> (needed: Option<usize>)
    ensures
        match needed {
            Some(count) => count == gene_count(topology@),
            None => gene_count(topology@) > usize::MAX,
        },
{
    let depth = topology.len();
    if depth == 0 {
        return Some(0);
    }
    let mut total: usize = 0;
    let mut layer: usize = 1;
    while layer < depth
        invariant
            depth == topology@.len(),
            1 <= layer <= depth,
            total == genes_before(topology@, (layer - 1) as nat),
        decreases depth - layer,
    {
        let inputs = topology[layer - 1].neurons;
        let outputs = topology[layer].neurons;
        let size = if outputs == 0 {
            Some(0)
        } else {
            match inputs.checked_add(1) {
                Some(width) => outputs.checked_mul(width),
                None => None,
            }
        };
        let grown = match size {
            Some(size) => total.checked_add(size),
            None => None,
        };
        proof {
            assert(outputs >= 1 ==> outputs * (inputs + 1) >= inputs + 1) by (nonlinear_arith);
            assert(outputs == 0 ==> outputs * (inputs + 1) == 0) by (nonlinear_arith);
        }
        match grown {
            Some(grown) => {
                total = grown;
            },
            None => {
                proof {
                    lemma_genes_before_grows(topology@, layer as nat, (depth - 1) as nat);
                }
                return None;
            },
        }
        layer += 1;
    }
    Some(total)
}

} // verus!
