//! A feedforward network of rectified linear neurons, and its flat encoding
//! as a sequence of genes.

use crate::fixed::{clamped, product, sum, SCALE};
use crate::random::{draw_signed_unit, is_signed_unit};
use rand_chacha::ChaCha8Rng;
use vstd::prelude::*;

verus! {

/// The number of neurons of one layer of a network.
#[derive(Debug)]
pub struct LayerTopology {
    pub neurons: usize,
}

/// One neuron: a bias and a weight for each input.
#[derive(Debug)]
pub struct Neuron {
    pub bias: i64,
    pub weights: Vec<i64>,
}

/// One layer of neurons that share their inputs.
#[derive(Debug)]
struct Layer {
    neurons: Vec<Neuron>,
}

/// A network: layers, each fed by the one before it.
#[derive(Debug)]
pub struct Network {
    layers: Vec<Layer>,
}

/// What a neuron is: its bias and its weights in input order.
pub ghost struct NeuronModel {
    pub bias: i64,
    pub weights: Seq<i64>,
}

/// What a layer is: its neurons in order.
pub type LayerModel = Seq<NeuronModel>;

/// What a network is: its layers from the input side to the output side.
pub type NetworkModel = Seq<Seq<NeuronModel>>;

impl View for Neuron {
    type V = NeuronModel;

    open spec fn view(&self) -> NeuronModel {
        NeuronModel { bias: self.bias, weights: self.weights@ }
    }
}

spec fn neuron_models(neurons: Seq<Neuron>) -> Seq<NeuronModel> {
    neurons.map_values(|n: Neuron| n@)
}

spec fn layer_models(layers: Seq<Layer>) -> Seq<Seq<NeuronModel>> {
    layers.map_values(|l: Layer| l@)
}

impl View for Layer {
    type V = Seq<NeuronModel>;

    closed spec fn view(&self) -> Seq<NeuronModel> {
        neuron_models(self.neurons@)
    }
}

impl View for Network {
    type V = Seq<Seq<NeuronModel>>;

    closed spec fn view(&self) -> Seq<Seq<NeuronModel>> {
        layer_models(self.layers@)
    }
}

/// The neuron counts that a topology lists.
pub open spec fn widths(layers: Seq<LayerTopology>) -> Seq<usize> {
    layers.map_values(|l: LayerTopology| l.neurons)
}

/// Every neuron of the first layer has `inputs` weights, and every neuron of
/// a later layer has one weight for each neuron of the layer before.
pub open spec fn wired(net: NetworkModel, inputs: nat) -> bool {
    forall|i: int, j: int|
        0 <= i < net.len() && 0 <= j < net[i].len() ==> (#[trigger] net[i][j]).weights.len()
            == (if i == 0 {
            inputs
        } else {
            net[i - 1].len()
        })
}

/// The network has the shape that the topology gives: one layer for each
/// entry after the first, with that many neurons, wired to the entry before.
pub open spec fn fits(net: NetworkModel, topology: Seq<usize>) -> bool {
    &&& topology.len() == net.len() + 1
    &&& wired(net, topology[0] as nat)
    &&& forall|i: int| 0 <= i < net.len() ==> (#[trigger] net[i]).len() == topology[i + 1]
}

/// The sum of the first `n` products of an input and its weight, each step
/// saturating.
pub open spec fn weighted_sum(weights: Seq<i64>, inputs: Seq<i64>, n: nat) -> i64
    decreases n,
{
    if n == 0 {
        0
    } else {
        clamped(
            weighted_sum(weights, inputs, (n - 1) as nat) + clamped(
                inputs[n - 1] * weights[n - 1] / SCALE as int,
            ),
        )
    }
}

/// What a neuron answers to its inputs: the bias plus the weighted sum of the
/// inputs, or zero where that is negative.
pub open spec fn neuron_output(neuron: NeuronModel, inputs: Seq<i64>) -> i64 {
    let raw = clamped(neuron.bias + weighted_sum(neuron.weights, inputs, inputs.len()));
    if raw < 0 {
        0
    } else {
        raw
    }
}

/// What a layer answers: the answer of each of its neurons, in order.
pub open spec fn layer_output(layer: LayerModel, inputs: Seq<i64>) -> Seq<i64> {
    Seq::new(layer.len(), |j: int| neuron_output(layer[j], inputs))
}

/// What a network answers: the inputs passed through every layer in turn.
pub open spec fn network_output(net: NetworkModel, inputs: Seq<i64>) -> Seq<i64>
    decreases net.len(),
{
    if net.len() == 0 {
        inputs
    } else {
        layer_output(net.last(), network_output(net.drop_last(), inputs))
    }
}

/// The genes of a neuron: its bias, then its weights in input order.
pub open spec fn neuron_genes(neuron: NeuronModel) -> Seq<i64> {
    seq![neuron.bias] + neuron.weights
}

/// The genes of a layer: those of its neurons, in order.
pub open spec fn layer_genes(layer: LayerModel) -> Seq<i64>
    decreases layer.len(),
{
    if layer.len() == 0 {
        Seq::empty()
    } else {
        layer_genes(layer.drop_last()) + neuron_genes(layer.last())
    }
}

/// The genes of a network: those of its layers, from the input side on.
pub open spec fn network_genes(net: NetworkModel) -> Seq<i64>
    decreases net.len(),
{
    if net.len() == 0 {
        Seq::empty()
    } else {
        network_genes(net.drop_last()) + layer_genes(net.last())
    }
}

/// The number of genes of a network of the given topology: for each layer,
/// a bias and one weight per input for each of its neurons.
pub open spec fn gene_count(topology: Seq<usize>) -> nat
    decreases topology.len(),
{
    if topology.len() < 2 {
        0
    } else {
        gene_count(topology.drop_last()) + ((topology[topology.len() - 2] + 1)
            * topology.last()) as nat
    }
}

/// Every gene is a number from minus one to one that a word of the random
/// source stands for.
pub open spec fn unit_genes(genes: Seq<i64>) -> bool {
    forall|k: int|
        0 <= k < genes.len() ==> -SCALE <= #[trigger] genes[k] <= SCALE && is_signed_unit(genes[k])
}

/// Every gene of every neuron of the network is a number from minus one to
/// one that a word of the random source stands for.
pub open spec fn unit_network(net: NetworkModel) -> bool {
    forall|i: int, j: int|
        0 <= i < net.len() && 0 <= j < net[i].len() ==> unit_genes(
            neuron_genes(#[trigger] net[i][j]),
        )
}

/// A layer whose neurons all have `inputs` weights has `inputs + 1` genes for
/// each neuron.
pub proof fn lemma_layer_gene_count(layer: LayerModel, inputs: nat)
    requires
        forall|j: int| 0 <= j < layer.len() ==> (#[trigger] layer[j]).weights.len() == inputs,
    ensures
        layer_genes(layer).len() == layer.len() * (inputs + 1),
    decreases layer.len(),
{
    if layer.len() > 0 {
        lemma_layer_gene_count(layer.drop_last(), inputs);
        assert(layer.last() == layer[layer.len() - 1]);
        assert((layer.len() - 1) * (inputs + 1) + (inputs + 1) == layer.len() * (inputs + 1))
            by (nonlinear_arith);
    } else {
        assert(0 * (inputs + 1) == 0) by (nonlinear_arith);
    }
}

/// The gene count of a topology cut after `n` entries grows with `n`, by the
/// genes of one layer for each further entry.
proof fn lemma_gene_count_prefix(topology: Seq<usize>, n: int)
    requires
        1 <= n < topology.len(),
    ensures
        gene_count(topology.take(n + 1)) == gene_count(topology.take(n)) + (topology[n - 1] + 1)
            * topology[n],
        gene_count(topology.take(n + 1)) <= gene_count(topology),
    decreases topology.len() - n,
{
    assert(topology.take(n + 1).drop_last() =~= topology.take(n));
    assert(topology.take(n + 1).last() == topology[n]);
    assert(topology.take(n + 1)[n - 1] == topology[n - 1]);
    assert((topology[n - 1] + 1) * topology[n] >= 0) by (nonlinear_arith)
        requires
            topology[n - 1] >= 0,
            topology[n] >= 0,
    ;
    if n + 1 < topology.len() {
        lemma_gene_count_prefix(topology, n + 1);
        assert((topology[n] + 1) * topology[n + 1] >= 0) by (nonlinear_arith)
            requires
                topology[n] >= 0,
                topology[n + 1] >= 0,
        ;
    } else {
        assert(topology.take(n + 1) =~= topology);
    }
}

/// A network of a given topology has as many genes as the topology counts:
/// for every layer, one bias and one weight per input for each neuron.
pub proof fn lemma_gene_count(net: NetworkModel, topology: Seq<usize>)
    requires
        fits(net, topology),
    ensures
        network_genes(net).len() == gene_count(topology),
    decreases net.len(),
{
    if net.len() > 0 {
        let n = net.len() as int;
        let front = net.drop_last();
        let short = topology.drop_last();
        assert(fits(front, short)) by {
            assert forall|i: int, j: int| 0 <= i < front.len() && 0 <= j < front[i].len() implies (
            #[trigger] front[i][j]).weights.len() == (if i == 0 {
                short[0] as nat
            } else {
                front[i - 1].len()
            }) by {
                assert(front[i][j] == net[i][j]);
            }
            assert forall|i: int| 0 <= i < front.len() implies (#[trigger] front[i]).len()
                == short[i + 1] by {
                assert(front[i] == net[i]);
            }
        }
        lemma_gene_count(front, short);
        let last = net.last();
        assert(last == net[n - 1]);
        assert forall|j: int| 0 <= j < last.len() implies (#[trigger] last[j]).weights.len()
            == topology[n - 1] as nat by {
            assert(last[j] == net[n - 1][j]);
            if n - 1 > 0 {
                assert(net[n - 2].len() == topology[n - 1]);
            }
        }
        lemma_layer_gene_count(last, topology[n - 1] as nat);
        assert(last.len() * (topology[n - 1] + 1) == (topology[n - 1] + 1) * topology[n])
            by (nonlinear_arith)
            requires
                last.len() == topology[n],
        ;
    }
}

proof fn lemma_same_layer(a: LayerModel, b: LayerModel, inputs: nat)
    requires
        a.len() == b.len(),
        forall|j: int| 0 <= j < a.len() ==> (#[trigger] a[j]).weights.len() == inputs,
        forall|j: int| 0 <= j < b.len() ==> (#[trigger] b[j]).weights.len() == inputs,
        layer_genes(a) == layer_genes(b),
    ensures
        a == b,
    decreases a.len(),
{
    if a.len() > 0 {
        let n = a.len() as int;
        lemma_layer_gene_count(a.drop_last(), inputs);
        lemma_layer_gene_count(b.drop_last(), inputs);
        let cut = layer_genes(a.drop_last()).len() as int;
        let ga = layer_genes(a);
        let gb = layer_genes(b);
        assert(a.last() == a[n - 1]);
        assert(b.last() == b[n - 1]);
        assert(layer_genes(a.drop_last()) =~= ga.take(cut));
        assert(layer_genes(b.drop_last()) =~= gb.take(cut));
        assert(neuron_genes(a.last()) =~= ga.skip(cut));
        assert(neuron_genes(b.last()) =~= gb.skip(cut));
        lemma_same_layer(a.drop_last(), b.drop_last(), inputs);
        let na = neuron_genes(a.last());
        let nb = neuron_genes(b.last());
        assert(a.last().bias == na[0]);
        assert(b.last().bias == nb[0]);
        assert(a.last().weights =~= na.skip(1));
        assert(b.last().weights =~= nb.skip(1));
        assert(a.last() == b.last());
        assert(a =~= a.drop_last().push(a.last()));
        assert(b =~= b.drop_last().push(b.last()));
    } else {
        assert(a =~= b);
    }
}

/// The genes determine the network: two networks of one topology with the
/// same genes are the same network.
pub proof fn lemma_same_genes_same_network(
    topology: Seq<usize>,
    a: NetworkModel,
    b: NetworkModel,
)
    requires
        fits(a, topology),
        fits(b, topology),
        network_genes(a) == network_genes(b),
    ensures
        a == b,
    decreases a.len(),
{
    if a.len() > 0 {
        let n = a.len() as int;
        let short = topology.drop_last();
        let fa = a.drop_last();
        let fb = b.drop_last();
        assert(fits(fa, short)) by {
            assert forall|i: int, j: int| 0 <= i < fa.len() && 0 <= j < fa[i].len() implies (
            #[trigger] fa[i][j]).weights.len() == (if i == 0 {
                short[0] as nat
            } else {
                fa[i - 1].len()
            }) by {
                assert(fa[i][j] == a[i][j]);
            }
            assert forall|i: int| 0 <= i < fa.len() implies (#[trigger] fa[i]).len() == short[i
                + 1] by {
                assert(fa[i] == a[i]);
            }
        }
        assert(fits(fb, short)) by {
            assert forall|i: int, j: int| 0 <= i < fb.len() && 0 <= j < fb[i].len() implies (
            #[trigger] fb[i][j]).weights.len() == (if i == 0 {
                short[0] as nat
            } else {
                fb[i - 1].len()
            }) by {
                assert(fb[i][j] == b[i][j]);
            }
            assert forall|i: int| 0 <= i < fb.len() implies (#[trigger] fb[i]).len() == short[i
                + 1] by {
                assert(fb[i] == b[i]);
            }
        }
        lemma_gene_count(fa, short);
        lemma_gene_count(fb, short);
        let cut = gene_count(short) as int;
        let ga = network_genes(a);
        let gb = network_genes(b);
        assert(network_genes(fa) =~= ga.take(cut));
        assert(network_genes(fb) =~= gb.take(cut));
        assert(layer_genes(a.last()) =~= ga.skip(cut));
        assert(layer_genes(b.last()) =~= gb.skip(cut));
        lemma_same_genes_same_network(short, fa, fb);
        let la = a.last();
        let lb = b.last();
        assert(la == a[n - 1]);
        assert(lb == b[n - 1]);
        let inputs = topology[n - 1] as nat;
        assert forall|j: int| 0 <= j < la.len() implies (#[trigger] la[j]).weights.len()
            == inputs by {
            assert(la[j] == a[n - 1][j]);
            if n - 1 > 0 {
                assert(a[n - 2].len() == topology[n - 1]);
            }
        }
        assert forall|j: int| 0 <= j < lb.len() implies (#[trigger] lb[j]).weights.len()
            == inputs by {
            assert(lb[j] == b[n - 1][j]);
            if n - 1 > 0 {
                assert(b[n - 2].len() == topology[n - 1]);
            }
        }
        lemma_same_layer(la, lb, inputs);
        assert(a =~= fa.push(la));
        assert(b =~= fb.push(lb));
    } else {
        assert(a =~= b);
    }
}

/// The round trip: a network rebuilt from the genes of a network of the same
/// topology is that network, and so answers every input as it does.
pub proof fn lemma_round_trip(topology: Seq<usize>, net: NetworkModel, rebuilt: NetworkModel)
    requires
        fits(net, topology),
        fits(rebuilt, topology),
        network_genes(rebuilt) == network_genes(net),
    ensures
        rebuilt == net,
        forall|inputs: Seq<i64>| network_output(rebuilt, inputs) == network_output(net, inputs),
{
    lemma_same_genes_same_network(topology, rebuilt, net);
}

impl Neuron {
    /// A neuron for `input_size` inputs whose bias and weights are drawn
    /// independently and uniformly between minus one and one; the bias is
    /// drawn first, then the weights in input order.
    pub fn random(rng: &mut ChaCha8Rng, input_size: usize) -> (neuron: Neuron)
        ensures
            neuron@.weights.len() == input_size,
            unit_genes(neuron_genes(neuron@)),
    {
        let bias: i64 = draw_signed_unit(rng);
        let mut weights: Vec<i64> = Vec::new();
        let mut k: usize = 0;
        while k < input_size
            invariant
                k <= input_size,
                weights@.len() == k,
                forall|i: int|
                    0 <= i < k ==> -SCALE <= #[trigger] weights@[i] <= SCALE && is_signed_unit(
                        weights@[i],
                    ),
            decreases input_size - k,
        {
            let weight: i64 = draw_signed_unit(rng);
            weights.push(weight);
            k += 1;
        }
        Neuron { bias, weights }
    }

    /// The answer of the neuron to `inputs`, one for each weight.
    pub fn propagate(&self, inputs: &[i64]) -> (output: i64)
        requires
            inputs@.len() == self@.weights.len(),
        ensures
            output == neuron_output(self@, inputs@),
            output >= 0,
    {
        let mut total: i64 = 0;
        let mut k: usize = 0;
        while k < inputs.len()
            invariant
                k <= inputs@.len(),
                inputs@.len() == self.weights@.len(),
                total == weighted_sum(self.weights@, inputs@, k as nat),
            decreases inputs@.len() - k,
        {
            let term: i64 = product(inputs[k], self.weights[k]);
            total = sum(total, term);
            k += 1;
        }
        let raw: i64 = sum(self.bias, total);
        if raw < 0 {
            0
        } else {
            raw
        }
    }
}


impl Layer {
    /// A layer of `output_neurons` random neurons, each for `input_neurons`
    /// inputs, drawn in order.
    fn random(rng: &mut ChaCha8Rng, input_neurons: usize, output_neurons: usize) -> (layer: Layer)
        ensures
            layer@.len() == output_neurons,
            forall|j: int|
                0 <= j < layer@.len() ==> {
                    &&& (#[trigger] layer@[j]).weights.len() == input_neurons
                    &&& unit_genes(neuron_genes(layer@[j]))
                },
    {
        let mut neurons: Vec<Neuron> = Vec::new();
        let mut j: usize = 0;
        while j < output_neurons
            invariant
                j <= output_neurons,
                neurons@.len() == j,
                forall|n: int|
                    0 <= n < j ==> {
                        &&& (#[trigger] neurons@[n])@.weights.len() == input_neurons
                        &&& unit_genes(neuron_genes(neurons@[n]@))
                    },
            decreases output_neurons - j,
        {
            let neuron = Neuron::random(rng, input_neurons);
            neurons.push(neuron);
            j += 1;
        }
        Layer { neurons }
    }

    /// The answers of the neurons of the layer to `inputs`.
    fn propagate(&self, inputs: &[i64]) -> (outputs: Vec<i64>)
        requires
            forall|j: int|
                0 <= j < self@.len() ==> (#[trigger] self@[j]).weights.len() == inputs@.len(),
        ensures
            outputs@ == layer_output(self@, inputs@),
    {
        let mut outputs: Vec<i64> = Vec::new();
        let mut j: usize = 0;
        while j < self.neurons.len()
            invariant
                j <= self.neurons@.len(),
                outputs@.len() == j,
                forall|n: int|
                    0 <= n < self@.len() ==> (#[trigger] self@[n]).weights.len() == inputs@.len(),
                forall|n: int|
                    0 <= n < j ==> #[trigger] outputs@[n] == neuron_output(self@[n], inputs@),
            decreases self.neurons@.len() - j,
        {
            assert(self@[j as int] == self.neurons@[j as int]@);
            let output: i64 = self.neurons[j].propagate(inputs);
            outputs.push(output);
            j += 1;
        }
        assert(outputs@ =~= layer_output(self@, inputs@));
        outputs
    }
}

impl Network {
    /// A network of the given topology whose biases and weights are drawn
    /// independently and uniformly between minus one and one, layer by layer
    /// and neuron by neuron.
    pub fn random(rng: &mut ChaCha8Rng, layers: &[LayerTopology]) -> (network: Network)
        requires
            layers@.len() >= 2,
        ensures
            fits(network@, widths(layers@)),
            unit_network(network@),
    {
        let count: usize = layers.len();
        let mut built: Vec<Layer> = Vec::new();
        let mut i: usize = 0;
        while i + 1 < count
            invariant
                count == layers@.len(),
                i + 1 <= count,
                built@.len() == i,
                forall|a: int|
                    0 <= a < i ==> (#[trigger] built@[a])@.len() == layers@[a + 1].neurons,
                forall|a: int, b: int|
                    0 <= a < i && 0 <= b < built@[a]@.len() ==> {
                        &&& (#[trigger] built@[a]@[b]).weights.len() == layers@[a].neurons
                        &&& unit_genes(neuron_genes(built@[a]@[b]))
                    },
            decreases layers@.len() - i,
        {
            let layer = Layer::random(rng, layers[i].neurons, layers[i + 1].neurons);
            built.push(layer);
            i += 1;
        }
        let network = Network { layers: built };
        proof {
            let topology = widths(layers@);
            assert forall|a: int, b: int|
                0 <= a < network@.len() && 0 <= b < network@[a].len() implies (
            #[trigger] network@[a][b]).weights.len() == (if a == 0 {
                topology[0] as nat
            } else {
                network@[a - 1].len()
            }) by {
                assert(network@[a] == built@[a]@);
                if a > 0 {
                    assert(network@[a - 1] == built@[a - 1]@);
                }
            }
            assert forall|a: int| 0 <= a < network@.len() implies (#[trigger] network@[a]).len()
                == topology[a + 1] by {
                assert(network@[a] == built@[a]@);
            }
            assert forall|a: int, b: int|
                0 <= a < network@.len() && 0 <= b < network@[a].len() implies unit_genes(
                neuron_genes(#[trigger] network@[a][b]),
            ) by {
                assert(network@[a] == built@[a]@);
            }
        }
        network
    }

    /// The answer of the network to `inputs`, one for each input of its first
    /// layer: every neuron answers the larger of zero and its bias plus the
    /// weighted sum of its inputs, and each layer feeds the next.
    pub fn propagate(&self, inputs: Vec<i64>) -> (outputs: Vec<i64>)
        requires
            wired(self@, inputs@.len()),
        ensures
            outputs@ == network_output(self@, inputs@),
            self@.len() > 0 ==> outputs@.len() == self@.last().len(),
            self@.len() > 0 ==> forall|k: int|
                0 <= k < outputs@.len() ==> #[trigger] outputs@[k] >= 0,
    {
        let ghost given = inputs@;
        let mut current: Vec<i64> = inputs;
        let mut i: usize = 0;
        while i < self.layers.len()
            invariant
                i <= self.layers@.len(),
                wired(self@, given.len()),
                current@ == network_output(self@.take(i as int), given),
                i == 0 ==> current@ == given,
                i > 0 ==> current@ == layer_output(
                    self@[i - 1],
                    network_output(self@.take(i - 1), given),
                ),
            decreases self.layers@.len() - i,
        {
            proof {
                assert(self@.take(i + 1).drop_last() =~= self@.take(i as int));
                assert(self@.take(i + 1).last() == self@[i as int]);
                assert(self@[i as int] == self.layers@[i as int]@);
                assert forall|j: int| 0 <= j < self@[i as int].len() implies (
                #[trigger] self@[i as int][j]).weights.len() == current@.len() by {}
            }
            current = self.layers[i].propagate(current.as_slice());
            i += 1;
        }
        proof {
            assert(self@.take(i as int) =~= self@);
        }
        current
    }

    /// The network of the given topology whose genes are `weights`: the
    /// inverse of [`Network::weights`].
    pub fn from_weights(layers: &[LayerTopology], weights: Vec<i64>) -> (network: Network)
        requires
            layers@.len() >= 2,
            weights@.len() == gene_count(widths(layers@)),
        ensures
            fits(network@, widths(layers@)),
            network_genes(network@) == weights@,
    {
        let count: usize = layers.len();
        let total: usize = weights.len();
        let ghost topology = widths(layers@);
        let mut built: Vec<Layer> = Vec::new();
        let mut cursor: usize = 0;
        let mut i: usize = 0;
        proof {
            assert(gene_count(topology.take(1)) == 0);
        }
        while i + 1 < count
            invariant
                count == layers@.len(),
                topology == widths(layers@),
                weights@.len() == gene_count(topology),
                weights@.len() == total,
                i + 1 <= count,
                built@.len() == i,
                forall|a: int|
                    0 <= a < i ==> (#[trigger] built@[a])@.len() == layers@[a + 1].neurons,
                forall|a: int, b: int|
                    0 <= a < i && 0 <= b < built@[a]@.len() ==> (
                    #[trigger] built@[a]@[b]).weights.len() == layers@[a].neurons,
                cursor == gene_count(topology.take(i + 1)),
                cursor <= weights@.len(),
                network_genes(layer_models(built@)) == weights@.take(cursor as int),
            decreases count - i,
        {
            let inputs: usize = layers[i].neurons;
            let outputs: usize = layers[i + 1].neurons;
            let ghost start = cursor as int;
            proof {
                lemma_gene_count_prefix(topology, i + 1);
                assert(topology[i as int] == inputs);
                assert(topology[i + 1] == outputs);
            }
            let mut neurons: Vec<Neuron> = Vec::new();
            let mut j: usize = 0;
            while j < outputs
                invariant
                    j <= outputs,
                    neurons@.len() == j,
                    0 <= start <= cursor,
                    cursor == start + j * (inputs + 1),
                    start + (inputs + 1) * outputs <= weights@.len(),
                    weights@.len() == total,
                    forall|n: int|
                        0 <= n < j ==> (#[trigger] neurons@[n])@.weights.len() == inputs,
                    layer_genes(neuron_models(neurons@)) == weights@.subrange(
                        start,
                        cursor as int,
                    ),
                decreases outputs - j,
            {
                proof {
                    assert(j * (inputs + 1) + (inputs + 1) <= (inputs + 1) * outputs)
                        by (nonlinear_arith)
                        requires
                            j < outputs,
                            inputs >= 0,
                    ;
                    assert((j + 1) * (inputs + 1) == j * (inputs + 1) + (inputs + 1))
                        by (nonlinear_arith);
                    assert(j * (inputs + 1) >= 0) by (nonlinear_arith)
                        requires
                            j >= 0,
                            inputs >= 0,
                    ;
                }
                let bias: i64 = weights[cursor];
                let mut drawn: Vec<i64> = Vec::new();
                let mut k: usize = 0;
                while k < inputs
                    invariant
                        k <= inputs,
                        drawn@.len() == k,
                        cursor + 1 + inputs <= weights@.len(),
                        weights@.len() == total,
                        drawn@ == weights@.subrange(cursor + 1, cursor + 1 + k),
                    decreases inputs - k,
                {
                    drawn.push(weights[cursor + 1 + k]);
                    proof {
                        assert(drawn@ =~= weights@.subrange(cursor + 1, cursor + 1 + k + 1));
                    }
                    k += 1;
                }
                let neuron = Neuron { bias, weights: drawn };
                proof {
                    let before = neuron_models(neurons@);
                    let after = neuron_models(neurons@.push(neuron));
                    assert(after.drop_last() =~= before);
                    assert(after.last() == neuron@);
                    assert(neuron_genes(neuron@) =~= weights@.subrange(
                        cursor as int,
                        cursor + 1 + inputs,
                    ));
                    assert(layer_genes(after) =~= weights@.subrange(
                        start,
                        cursor + 1 + inputs,
                    ));
                }
                neurons.push(neuron);
                cursor = cursor + 1 + inputs;
                j += 1;
            }
            let layer = Layer { neurons };
            proof {
                let before = layer_models(built@);
                let after = layer_models(built@.push(layer));
                assert(after.drop_last() =~= before);
                assert(after.last() == layer@);
                assert(outputs * (inputs + 1) == (inputs + 1) * outputs) by (nonlinear_arith);
                assert(network_genes(after) =~= weights@.take(cursor as int));
            }
            built.push(layer);
            i += 1;
        }
        let network = Network { layers: built };
        proof {
            assert(topology.take(count as int) =~= topology);
            assert(weights@.take(cursor as int) =~= weights@);
            assert forall|a: int, b: int|
                0 <= a < network@.len() && 0 <= b < network@[a].len() implies (
            #[trigger] network@[a][b]).weights.len() == (if a == 0 {
                topology[0] as nat
            } else {
                network@[a - 1].len()
            }) by {
                assert(network@[a] == built@[a]@);
                if a > 0 {
                    assert(network@[a - 1] == built@[a - 1]@);
                }
            }
            assert forall|a: int| 0 <= a < network@.len() implies (#[trigger] network@[a]).len()
                == topology[a + 1] by {
                assert(network@[a] == built@[a]@);
            }
        }
        network
    }

    /// The genes of the network: for each layer, for each neuron, the bias
    /// and then the weights in input order.
    pub fn weights(&self) -> (genes: Vec<i64>)
        ensures
            genes@ == network_genes(self@),
    {
        let mut genes: Vec<i64> = Vec::new();
        let mut i: usize = 0;
        while i < self.layers.len()
            invariant
                i <= self.layers@.len(),
                genes@ == network_genes(self@.take(i as int)),
            decreases self.layers@.len() - i,
        {
            let layer = &self.layers[i];
            let ghost before = genes@;
            let mut j: usize = 0;
            while j < layer.neurons.len()
                invariant
                    j <= layer.neurons@.len(),
                    genes@ == before + layer_genes(layer@.take(j as int)),
                decreases layer.neurons@.len() - j,
            {
                let neuron = &layer.neurons[j];
                let ghost base = genes@;
                genes.push(neuron.bias);
                let mut k: usize = 0;
                while k < neuron.weights.len()
                    invariant
                        k <= neuron.weights@.len(),
                        genes@ == base + seq![neuron.bias] + neuron.weights@.take(k as int),
                    decreases neuron.weights@.len() - k,
                {
                    genes.push(neuron.weights[k]);
                    proof {
                        assert(neuron.weights@.take(k + 1) =~= neuron.weights@.take(k as int).push(
                            neuron.weights@[k as int],
                        ));
                    }
                    k += 1;
                }
                proof {
                    assert(neuron.weights@.take(k as int) =~= neuron.weights@);
                    assert(layer@.take(j + 1).drop_last() =~= layer@.take(j as int));
                    assert(layer@.take(j + 1).last() == neuron@);
                    assert(genes@ =~= before + layer_genes(layer@.take(j + 1)));
                }
                j += 1;
            }
            proof {
                assert(layer@.take(j as int) =~= layer@);
                assert(self@.take(i + 1).drop_last() =~= self@.take(i as int));
                assert(self@.take(i + 1).last() == layer@);
            }
            i += 1;
        }
        proof {
            assert(self@.take(i as int) =~= self@);
        }
        genes
    }
}

} // verus!
