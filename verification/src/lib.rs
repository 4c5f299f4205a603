//! Neuroevolution: feedforward networks whose parameters are evolved by a
//! genetic algorithm.
//!
//! Every real number that the library handles (a gene, a bias, a weight, a
//! fitness, a probability) is held as the bit pattern of an IEEE 754
//! single-precision value, in a `u32`. The library itself never computes in
//! floating point: random draws come from a caller's [`RandomSource`] and
//! sums and products from a caller's [`Arithmetic`], and every contract is
//! stated for whatever those hand back. What can be decided on the bit
//! patterns alone is decided there: whether a draw lies below a probability,
//! the sign of a step, the larger of zero and a value.

pub mod arithmetic;
pub mod chromosome;
pub mod crossover;
pub mod encoding;
pub mod evolution;
pub mod gene;
pub mod individual;
pub mod layer;
pub mod mutation;
pub mod network;
pub mod neuron;
pub mod random;
pub mod selection;
pub mod topology;

pub use crate::arithmetic::Arithmetic;
pub use crate::chromosome::Chromosome;
pub use crate::crossover::{CrossoverMethod, UniformCrossover};
pub use crate::encoding::DecodeError;
pub use crate::evolution::GeneticAlgorithm;
pub use crate::individual::Individual;
pub use crate::layer::Layer;
pub use crate::mutation::{GaussianMutation, MutationMethod};
pub use crate::network::Network;
pub use crate::neuron::{Neuron, NeuronModel};
pub use crate::random::RandomSource;
pub use crate::selection::{RouletteWheelSelection, SelectionMethod};
pub use crate::topology::LayerTopology;
