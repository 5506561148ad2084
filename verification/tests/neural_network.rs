use rand::SeedableRng;
use rand_chacha::ChaCha8Rng;
use simulation::neural_network::{LayerTopology, Network, Neuron};

/// The fixed-point value, in millionths, nearest to a real number.
fn fixed(real: f64) -> i64 {
    (real * 1_000_000.0).round() as i64
}

fn close(actual: i64, expected: f64) -> bool {
    (actual - fixed(expected)).abs() <= 1
}

fn topology(neurons: &[usize]) -> Vec<LayerTopology> {
    neurons.iter().map(|&neurons| LayerTopology { neurons }).collect()
}

#[test]
fn test_neuron_random() {
    let mut rng = ChaCha8Rng::from_seed(Default::default());
    let neuron = Neuron::random(&mut rng, 4);

    assert!(close(neuron.bias, -0.6255188));
    let expected = [0.67383957, 0.8181262, 0.26284897, 0.5238807];
    assert_eq!(neuron.weights.len(), expected.len());
    for (actual, expected) in neuron.weights.iter().zip(expected) {
        assert!(close(*actual, expected));
    }

    // The same, to the last millionth.
    assert_eq!(neuron.bias, -625_519);
    assert_eq!(neuron.weights, vec![673_839, 818_126, 262_849, 523_880]);
}

#[test]
fn test_neuron_propagate() {
    let neuron = Neuron { bias: fixed(0.5), weights: vec![fixed(-0.3), fixed(0.8)] };

    assert_eq!(neuron.propagate(&[fixed(-10.0), fixed(-10.0)]), fixed(0.0));
    assert_eq!(
        neuron.propagate(&[fixed(0.5), fixed(1.0)]),
        fixed((-0.3 * 0.5) + (0.8 * 1.0) + 0.5)
    );
}

#[test]
fn neuron_propagate_exact_value() {
    let neuron = Neuron { bias: 500_000, weights: vec![-300_000, 800_000] };
    assert_eq!(neuron.propagate(&[500_000, 1_000_000]), 1_150_000);
    // The product is rounded down: -0.3 * 0.000001 is a negative fraction of a millionth.
    let tiny = Neuron { bias: 0, weights: vec![-300_000] };
    assert_eq!(tiny.propagate(&[-1]), 0);
    let up = Neuron { bias: 2, weights: vec![-300_000] };
    assert_eq!(up.propagate(&[1]), 1);
}

#[test]
fn neuron_propagate_saturates() {
    let neuron = Neuron { bias: i64::MAX, weights: vec![1_000_000] };
    assert_eq!(neuron.propagate(&[i64::MAX]), i64::MAX);
    let low = Neuron { bias: i64::MIN, weights: vec![1_000_000] };
    assert_eq!(low.propagate(&[i64::MIN]), 0);
}

#[test]
fn neuron_without_inputs_answers_its_bias() {
    assert_eq!(Neuron { bias: 7, weights: vec![] }.propagate(&[]), 7);
    assert_eq!(Neuron { bias: -7, weights: vec![] }.propagate(&[]), 0);
}

#[test]
fn random_network_has_the_topology() {
    let mut rng = ChaCha8Rng::from_seed(Default::default());
    let network = Network::random(&mut rng, &topology(&[3, 5, 2]));
    let genes = network.weights();
    assert_eq!(genes.len(), (3 + 1) * 5 + (5 + 1) * 2);
    assert!(genes.iter().all(|gene| (-1_000_000..=1_000_000).contains(gene)));
    assert!(genes.iter().any(|gene| *gene != genes[0]));
}

#[test]
fn random_network_draws_in_gene_order() {
    // The first neuron of the network is drawn as a neuron alone is.
    let mut rng = ChaCha8Rng::from_seed(Default::default());
    let network = Network::random(&mut rng, &topology(&[4, 1]));
    let mut rng = ChaCha8Rng::from_seed(Default::default());
    let neuron = Neuron::random(&mut rng, 4);
    let mut expected = vec![neuron.bias];
    expected.extend(neuron.weights.iter());
    assert_eq!(network.weights(), expected);
}

#[test]
fn from_weights_reads_bias_then_weights() {
    // One layer, two neurons of two inputs each.
    let genes = vec![100_000, 1_000_000, 0, -200_000, 0, 2_000_000];
    let network = Network::from_weights(&topology(&[2, 2]), genes.clone());
    assert_eq!(network.weights(), genes);
    // first neuron: 0.1 + 1.0 * 3.0; second: -0.2 + 2.0 * 0.5
    assert_eq!(network.propagate(vec![3_000_000, 500_000]), vec![3_100_000, 800_000]);
}

#[test]
fn from_weights_feeds_each_layer_to_the_next() {
    // 1 input, hidden layer of 2, 1 output.
    let genes = vec![
        0, 1_000_000, // hidden 0: x
        1_000_000, -1_000_000, // hidden 1: 1 - x
        500_000, 2_000_000, 4_000_000, // output: 0.5 + 2 h0 + 4 h1
    ];
    let network = Network::from_weights(&topology(&[1, 2, 1]), genes);
    // x = 0.25: h0 = 0.25, h1 = 0.75, out = 0.5 + 0.5 + 3.0
    assert_eq!(network.propagate(vec![250_000]), vec![4_000_000]);
    // x = 2: h0 = 2, h1 = max(0, -1) = 0, out = 0.5 + 4
    assert_eq!(network.propagate(vec![2_000_000]), vec![4_500_000]);
}

#[test]
fn round_trip_keeps_the_answers() {
    let layers = topology(&[3, 4, 2]);
    let mut rng = ChaCha8Rng::seed_from_u64(7);
    let network = Network::random(&mut rng, &layers);
    let rebuilt = Network::from_weights(&layers, network.weights());
    assert_eq!(rebuilt.weights(), network.weights());
    for inputs in [vec![0, 0, 0], vec![1_000_000, -500_000, 250_000], vec![-3, 8_000_000, 77]] {
        assert_eq!(rebuilt.propagate(inputs.clone()), network.propagate(inputs));
    }
}

#[test]
fn propagate_gives_one_answer_for_each_output_and_none_negative() {
    let layers = topology(&[2, 3, 4]);
    for seed in 0..20 {
        let mut rng = ChaCha8Rng::seed_from_u64(seed);
        let network = Network::random(&mut rng, &layers);
        let outputs = network.propagate(vec![-700_000, 900_000]);
        assert_eq!(outputs.len(), 4);
        assert!(outputs.iter().all(|output| *output >= 0));
    }
}

#[test]
fn layer_without_neurons_is_allowed() {
    let network = Network::from_weights(&topology(&[2, 0]), vec![]);
    assert_eq!(network.weights(), Vec::<i64>::new());
    assert_eq!(network.propagate(vec![1, 2]), Vec::<i64>::new());
}
