use neuroevolution::encoding::DecodeError;
use neuroevolution::gene::{check_symmetric, check_unit, negate, rectify, INFINITY, ONE, SIGN, ZERO};
use neuroevolution::random::{settle_below, settle_symmetric, settle_unit, settle_weighted};
use neuroevolution::topology::{check_topology, required_genes};
use neuroevolution::{Arithmetic, Chromosome, Layer, LayerTopology, Network, Neuron, RandomSource};
use rand::seq::SliceRandom;
use rand::{Rng, RngCore, SeedableRng};
use rand_chacha::ChaCha8Rng;

/// Draws from a generator of the `rand` crate.
struct Source<'a>(&'a mut dyn RngCore);

impl<'a> RandomSource for Source<'a> {
    fn coin(&mut self) -> bool {
        self.0.gen_bool(0.5)
    }

    fn unit(&mut self) -> u32 {
        self.0.gen::<f32>().to_bits()
    }

    fn symmetric(&mut self) -> u32 {
        self.0.gen_range(-1.0f32..=1.0).to_bits()
    }

    fn below(&mut self, bound: usize) -> usize {
        self.0.gen_range(0..bound)
    }

    fn weighted(&mut self, weights: &Vec<u32>) -> Option<usize> {
        let total: f32 = weights.iter().map(|&weight| f32::from_bits(weight)).sum();
        if !total.is_finite() {
            return None;
        }
        let indices: Vec<usize> = (0..weights.len()).collect();
        indices
            .choose_weighted(&mut self.0, |&index| f32::from_bits(weights[index]))
            .ok()
            .copied()
    }
}

/// The arithmetic of the machine.
struct Hardware;

impl Arithmetic for Hardware {
    fn sum(&self, a: u32, b: u32) -> u32 {
        (f32::from_bits(a) + f32::from_bits(b)).to_bits()
    }

    fn product(&self, a: u32, b: u32) -> u32 {
        (f32::from_bits(a) * f32::from_bits(b)).to_bits()
    }
}

fn bits(values: &[f32]) -> Vec<u32> {
    values.iter().map(|value| value.to_bits()).collect()
}

fn reals(bits: &[u32]) -> Vec<f32> {
    bits.iter().map(|&pattern| f32::from_bits(pattern)).collect()
}

fn neuron(bias: f32, weights: &[f32]) -> Neuron {
    Neuron::new(bias.to_bits(), bits(weights))
}

fn close(a: f32, b: f32) -> bool {
    approx::RelativeEq::relative_eq(&a, &b, f32::EPSILON, f32::EPSILON)
}

fn all_close(a: &[f32], b: &[f32]) -> bool {
    a.len() == b.len() && a.iter().zip(b).all(|(&x, &y)| close(x, y))
}

fn topology(counts: &[usize]) -> Vec<LayerTopology> {
    counts.iter().map(|&neurons| LayerTopology { neurons }).collect()
}

fn same_network(a: &Network, b: &Network) -> bool {
    a.layers().len() == b.layers().len()
        && a.layers().iter().zip(b.layers()).all(|(x, y)| {
            x.neurons.len() == y.neurons.len()
                && x.neurons
                    .iter()
                    .zip(&y.neurons)
                    .all(|(n, m)| n.bias == m.bias && n.weights == m.weights)
        })
}

#[test]
fn neuron_test() {
    let mut rng = ChaCha8Rng::from_seed(Default::default());
    let neuron_drawn = Neuron::random(4, &mut Source(&mut rng));

    assert!(close(f32::from_bits(neuron_drawn.bias), -0.6255188));
    assert!(all_close(
        &reals(&neuron_drawn.weights),
        &[0.67383957, 0.8181262, 0.26284897, 0.5238807],
    ));

    let neuron = neuron(0.5, &[-0.3, 0.8]);

    assert!(close(
        f32::from_bits(neuron.propagate(&Hardware, &bits(&[-10.0, -10.0]))),
        0.0,
    ));
    assert!(close(
        f32::from_bits(neuron.propagate(&Hardware, &bits(&[0.5, 1.0]))),
        (-0.3 * 0.5) + (0.8 * 1.0) + 0.5,
    ));
}

#[test]
fn layer_test() {
    let mut rng = ChaCha8Rng::from_seed(Default::default());
    let layer = Layer::random(3, 2, &mut Source(&mut rng));

    let actual_biases: Vec<f32> = layer.neurons.iter().map(|neuron| f32::from_bits(neuron.bias)).collect();
    let expected_biases = vec![-0.6255188, 0.5238807];
    let actual_weights: Vec<Vec<f32>> = layer.neurons.iter().map(|neuron| reals(&neuron.weights)).collect();
    let expected_weights: Vec<&[f32]> = vec![
        &[0.67383957, 0.8181262, 0.26284897],
        &[-0.5351684, 0.069369555, -0.7648182],
    ];

    assert!(all_close(&actual_biases, &expected_biases));
    assert_eq!(actual_weights.len(), expected_weights.len());
    assert!(actual_weights.iter().zip(&expected_weights).all(|(actual, expected)| all_close(actual, expected)));

    let neurons = (neuron(0.0, &[0.1, 0.2, 0.3]), neuron(0.0, &[0.4, 0.5, 0.6]));
    let layer = Layer::new(vec![neurons.0.clone(), neurons.1.clone()]);
    let inputs = bits(&[-0.5, 0.0, 0.5]);

    let actual = layer.propagate(&Hardware, inputs.clone());
    let expected = vec![neurons.0.propagate(&Hardware, &inputs), neurons.1.propagate(&Hardware, &inputs)];

    assert!(all_close(&reals(&actual), &reals(&expected)));
}

#[test]
fn lib_test() {
    let mut rng = ChaCha8Rng::from_seed(Default::default());
    let network = Network::random(&topology(&[3, 2, 1]), &mut Source(&mut rng));

    assert_eq!(network.layers().len(), 2);
    assert_eq!(network.layers()[0].neurons.len(), 2);
    assert_eq!(network.layers()[1].neurons.len(), 1);

    let layers = (
        Layer::new(vec![neuron(0.0, &[-0.5, -0.4, -0.3]), neuron(0.0, &[-0.2, -0.1, 0.0])]),
        Layer::new(vec![neuron(0.0, &[-0.5, 0.5])]),
    );
    let network = Network::new(vec![layers.0.clone(), layers.1.clone()]);

    let actual = network.propagate(&Hardware, bits(&[0.5, 0.6, 0.7]));
    let expected = layers.1.propagate(&Hardware, layers.0.propagate(&Hardware, bits(&[0.5, 0.6, 0.7])));

    assert!(all_close(&reals(&actual), &reals(&expected)));
}

#[test]
fn single_neuron_network_rectifies() {
    let network = Network::new(vec![Layer::new(vec![neuron(0.5, &[-0.3])])]);

    let raised = network.propagate(&Hardware, bits(&[1.0]));
    assert_eq!(raised.len(), 1);
    assert!(close(f32::from_bits(raised[0]), 0.2));
    assert_eq!(raised[0], (-0.3f32 * 1.0 + 0.0 + 0.5).max(0.0).to_bits());

    let floored = network.propagate(&Hardware, bits(&[2.0]));
    assert_eq!(floored, bits(&[0.0]));
}

#[test]
fn neuron_sums_in_input_order_from_zero() {
    let neuron = neuron(1.0, &[3.0, 5.0, 7.0]);
    let output = neuron.propagate(&Hardware, &bits(&[2.0, 4.0, 6.0]));
    assert_eq!(output, 69.0f32.to_bits());

    let large = Neuron::new(0.0f32.to_bits(), bits(&[1.0, 1.0, 1.0]));
    let inputs = bits(&[1.0e8, 1.0, -1.0e8]);
    let expected = ((0.0f32 + 1.0e8) + 1.0) + -1.0e8;
    assert_eq!(large.propagate(&Hardware, &inputs), (expected + 0.0).max(0.0).to_bits());
}

#[test]
fn network_output_has_the_size_of_the_last_layer() {
    let mut rng = ChaCha8Rng::seed_from_u64(7);
    let network = Network::random(&topology(&[4, 6, 3]), &mut Source(&mut rng));
    assert_eq!(network.input_width(), 4);
    assert_eq!(network.propagate(&Hardware, bits(&[0.1, 0.2, 0.3, 0.4])).len(), 3);
}

#[test]
fn encode_lists_bias_then_weights_neuron_by_neuron() {
    let network = Network::new(vec![
        Layer::new(vec![neuron(0.1, &[0.2, 0.3, 0.4]), neuron(0.5, &[0.6, 0.7, 0.8])]),
        Layer::new(vec![neuron(0.9, &[1.0, 1.1])]),
    ]);

    let genome = network.encode();

    assert_eq!(genome.len(), 11);
    assert_eq!(
        genome.genes(),
        &bits(&[0.1, 0.2, 0.3, 0.4, 0.5, 0.6, 0.7, 0.8, 0.9, 1.0, 1.1]),
    );
}

#[test]
fn decode_reads_bias_then_weights_neuron_by_neuron() {
    let genome = Chromosome::new(bits(&[0.1, 0.2, 0.3, 0.4, 0.5, 0.6, 0.7, 0.8]));

    let network = Network::decode(&topology(&[3, 2]), &genome).unwrap();

    assert_eq!(network.layers().len(), 1);
    let neurons = &network.layers()[0].neurons;
    assert_eq!(neurons.len(), 2);
    assert_eq!(neurons[0].bias, 0.1f32.to_bits());
    assert_eq!(neurons[0].weights, bits(&[0.2, 0.3, 0.4]));
    assert_eq!(neurons[1].bias, 0.5f32.to_bits());
    assert_eq!(neurons[1].weights, bits(&[0.6, 0.7, 0.8]));
}

#[test]
fn decode_of_encode_is_the_network() {
    for seed in 0..20u64 {
        for counts in [vec![1, 1], vec![3, 2, 1], vec![2, 5, 4, 3], vec![9, 1, 9]] {
            let shape = topology(&counts);
            let mut rng = ChaCha8Rng::seed_from_u64(seed);
            let network = Network::random(&shape, &mut Source(&mut rng));

            let genome = network.encode();
            let decoded = Network::decode(&shape, &genome).unwrap();

            assert_eq!(Some(genome.len()), required_genes(&shape));
            assert!(same_network(&decoded, &network));
            assert_eq!(decoded.encode().genes(), genome.genes());
        }
    }
}

#[test]
fn decode_keeps_every_bit_pattern() {
    let patterns = vec![f32::NAN.to_bits(), 0x7fc0_1234, SIGN, ZERO, f32::INFINITY.to_bits(), 1];
    let network = Network::decode(&topology(&[2, 2]), &Chromosome::new(patterns.clone())).unwrap();
    assert_eq!(network.encode().into_genes(), patterns);
}

#[test]
fn decode_fails_on_a_genome_that_is_too_short() {
    let shape = topology(&[3, 2, 1]);
    let full = bits(&[0.0; 11]);

    assert!(Network::decode(&shape, &Chromosome::new(full.clone())).is_ok());
    for length in 0..11 {
        let short = Chromosome::new(full[..length].to_vec());
        assert_eq!(Network::decode(&shape, &short).err(), Some(DecodeError::GenomeLengthMismatch));
    }
}

#[test]
fn decode_does_not_read_beyond_the_genes_of_the_topology() {
    let shape = topology(&[1, 2]);
    let genes = bits(&[1.0, 2.0, 3.0, 4.0, 5.0, 6.0]);

    let network = Network::decode(&shape, &Chromosome::new(genes.clone())).unwrap();

    assert_eq!(network.encode().genes(), &genes[..4].to_vec());
}

#[test]
fn required_genes_counts_a_bias_and_the_weights_of_each_neuron() {
    assert_eq!(required_genes(&topology(&[3, 2, 1])), Some(2 * (3 + 1) + 1 * (2 + 1)));
    assert_eq!(required_genes(&topology(&[1, 1])), Some(2));
    assert_eq!(required_genes(&topology(&[5])), Some(0));
    assert_eq!(required_genes(&topology(&[])), Some(0));
    assert_eq!(required_genes(&topology(&[usize::MAX, 0])), Some(0));
    assert_eq!(required_genes(&topology(&[usize::MAX, 1])), None);
    assert_eq!(required_genes(&topology(&[usize::MAX - 1, 1])), Some(usize::MAX));
    assert_eq!(required_genes(&topology(&[usize::MAX - 1, 1, 1])), None);
    assert_eq!(required_genes(&topology(&[usize::MAX / 2, 3])), None);
}

#[test]
fn check_topology_wants_two_layers_and_no_empty_one() {
    assert!(check_topology(&topology(&[1, 1])));
    assert!(check_topology(&topology(&[3, 2, 1])));
    assert!(!check_topology(&topology(&[])));
    assert!(!check_topology(&topology(&[3])));
    assert!(!check_topology(&topology(&[3, 0])));
    assert!(!check_topology(&topology(&[0, 3])));
    assert!(!check_topology(&topology(&[3, 0, 2])));
}

#[test]
fn check_wants_layers_that_fit_each_other() {
    let first = Layer::new(vec![neuron(0.0, &[1.0, 2.0]), neuron(0.0, &[3.0, 4.0])]);
    let second = Layer::new(vec![neuron(0.0, &[1.0, 2.0])]);
    let narrow = Layer::new(vec![neuron(0.0, &[1.0])]);
    let ragged = Layer::new(vec![neuron(0.0, &[1.0, 2.0]), neuron(0.0, &[3.0])]);
    let bare = Layer::new(vec![Neuron { bias: 0, weights: vec![] }]);

    assert!(Network::check(&[first.clone()]));
    assert!(Network::check(&[first.clone(), second.clone()]));
    assert!(Network::check(&[first.clone(), second.clone(), narrow.clone()]));
    assert!(!Network::check(&[]));
    assert!(!Network::check(&[Layer::new(vec![])]));
    assert!(!Network::check(&[first.clone(), Layer::new(vec![])]));
    assert!(!Network::check(&[first.clone(), narrow.clone()]));
    assert!(!Network::check(&[ragged]));
    assert!(!Network::check(&[bare]));
    assert!(!Network::check(&[second, first]));
}

#[test]
fn random_networks_of_one_seed_are_identical() {
    let shape = topology(&[4, 3, 2]);
    let mut first = ChaCha8Rng::seed_from_u64(42);
    let mut second = ChaCha8Rng::seed_from_u64(42);
    let mut other = ChaCha8Rng::seed_from_u64(43);

    let a = Network::random(&shape, &mut Source(&mut first));
    let b = Network::random(&shape, &mut Source(&mut second));
    let c = Network::random(&shape, &mut Source(&mut other));

    assert!(same_network(&a, &b));
    assert!(!same_network(&a, &c));
}

#[test]
fn random_network_draws_bias_before_weights_layer_by_layer() {
    let shape = topology(&[3, 2, 1]);
    let mut rng = ChaCha8Rng::from_seed(Default::default());
    let network = Network::random(&shape, &mut Source(&mut rng));

    let mut again = ChaCha8Rng::from_seed(Default::default());
    let drawn: Vec<u32> = (0..11).map(|_| again.gen_range(-1.0f32..=1.0).to_bits()).collect();

    assert_eq!(network.encode().into_genes(), drawn);
}

#[test]
fn random_parameters_lie_between_minus_one_and_one() {
    let mut rng = ChaCha8Rng::seed_from_u64(3);
    let network = Network::random(&topology(&[8, 8, 8]), &mut Source(&mut rng));
    for gene in network.encode().into_genes() {
        assert!(check_symmetric(gene));
        assert!((-1.0..=1.0).contains(&f32::from_bits(gene)));
    }
}

#[test]
fn draws_out_of_range_count_as_zero() {
    assert_eq!(settle_unit(0.25f32.to_bits()), 0.25f32.to_bits());
    assert_eq!(settle_unit(ONE - 1), ONE - 1);
    assert_eq!(settle_unit(ONE), ZERO);
    assert_eq!(settle_unit((-0.25f32).to_bits()), ZERO);
    assert_eq!(settle_unit(f32::NAN.to_bits()), ZERO);

    assert_eq!(settle_symmetric((-1.0f32).to_bits()), (-1.0f32).to_bits());
    assert_eq!(settle_symmetric(ONE), ONE);
    assert_eq!(settle_symmetric((-0.5f32).to_bits()), (-0.5f32).to_bits());
    assert_eq!(settle_symmetric(1.5f32.to_bits()), ZERO);
    assert_eq!(settle_symmetric(f32::NEG_INFINITY.to_bits()), ZERO);

    assert_eq!(settle_below(2, 3), 2);
    assert_eq!(settle_below(3, 3), 0);

    assert_eq!(settle_weighted(Some(2), 3), Some(2));
    assert_eq!(settle_weighted(Some(3), 3), None);
    assert_eq!(settle_weighted(None, 3), None);
}

#[test]
fn rectify_is_the_larger_of_zero_and_the_value() {
    assert_eq!(INFINITY, f32::INFINITY.to_bits());
    for value in [0.0f32, 1.0e-40, 0.2, 1.0, 3.0e38, f32::INFINITY, -1.0e-40, -0.1, -7.0, f32::NEG_INFINITY, f32::NAN] {
        assert_eq!(rectify(value.to_bits()), value.max(0.0).to_bits());
    }
    assert_eq!(rectify((-0.0f32).to_bits()), ZERO);
    assert_eq!(rectify(0xffc0_0001), ZERO);
    assert_eq!(rectify(0x7f80_0001), ZERO);

    let mut rng = ChaCha8Rng::seed_from_u64(13);
    for _ in 0..1000 {
        let value: f32 = rng.gen_range(-2.0f32..=2.0);
        assert_eq!(rectify(value.to_bits()), value.max(0.0).to_bits());
    }
}

#[test]
fn outputs_are_never_negative() {
    let mut rng = ChaCha8Rng::seed_from_u64(17);
    let network = Network::random(&topology(&[3, 4, 2]), &mut Source(&mut rng));
    for _ in 0..100 {
        let inputs: Vec<f32> = (0..3).map(|_| rng.gen_range(-5.0f32..=5.0)).collect();
        for output in network.propagate(&Hardware, bits(&inputs)) {
            assert!(f32::from_bits(output) >= 0.0);
            assert_eq!(output & SIGN, 0);
        }
    }
    let undefined = neuron(f32::NAN, &[1.0]);
    assert_eq!(undefined.propagate(&Hardware, &bits(&[1.0])), ZERO);
}

#[test]
fn bit_patterns_order_and_negate_as_the_values_do() {
    assert_eq!(ZERO, 0.0f32.to_bits());
    assert_eq!(ONE, 1.0f32.to_bits());
    assert_eq!(negate(ONE), (-1.0f32).to_bits());
    assert_eq!(negate(0.5f32.to_bits()), (-0.5f32).to_bits());
    assert_eq!(negate((-0.5f32).to_bits()), 0.5f32.to_bits());
    assert!(check_unit(0.0f32.to_bits()));
    assert!(check_unit(0.99999994f32.to_bits()));
    assert!(!check_unit(1.0f32.to_bits()));
    assert!(!check_unit((-0.0f32).to_bits()));

    let mut rng = ChaCha8Rng::seed_from_u64(11);
    for _ in 0..1000 {
        let a: f32 = rng.gen();
        let b: f32 = rng.gen();
        assert!(check_unit(a.to_bits()));
        assert_eq!(a < b, a.to_bits() < b.to_bits());
    }
}
