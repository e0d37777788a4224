//! The network: topology, parameters, inference and single-sample training.
use vstd::prelude::*;
use crate::activation::{Activation, Relu};
use crate::gradients::{Gradients, GradientsModel};
use crate::layout::{
    all_wf, bias_shapes, layer_shapes, layers_fit, lemma_bias_shape_at, lemma_bias_shapes_kept,
    lemma_layer_shape_at, lemma_layer_shapes_kept, lemma_weight_shape_at, lemma_weight_shapes_kept,
    models, weight_shapes,
};
use crate::matrix::{
    add_model, add_scaled_model, dot_entry, outer_model, transpose_dot_prefix, Matrix, MatrixModel,
};
use crate::scalar::Scalar;

verus! {

broadcast use vstd::arithmetic::mul::lemma_mul_nonnegative;

/// A feed-forward network.
///
/// `weights[i]` and `biases[i]` carry layer `i` to layer `i + 1`. The other
/// matrices are scratch space, one per layer, that every pass overwrites.
pub struct Network<S: Scalar, A: Activation<S>> {
    layers: Vec<usize>,
    weights: Vec<Matrix<S>>,
    biases: Vec<Matrix<S>>,
    learning_rate: S,
    activation: A,
    output_is_linear: bool,
    activations: Vec<Matrix<S>>,
    weighted_sums: Vec<Matrix<S>>,
    errors: Vec<Matrix<S>>,
    gradients: Vec<Matrix<S>>,
}

/// The mathematical value of a [`Network`]: its topology and parameters.
/// Scratch space is no part of it.
pub struct NetworkModel<S, A> {
    pub layers: Seq<usize>,
    pub weights: Seq<MatrixModel<S>>,
    pub biases: Seq<MatrixModel<S>>,
    pub learning_rate: S,
    pub activation: A,
    pub output_is_linear: bool,
}

impl<S: Scalar, A: Activation<S>> NetworkModel<S, A> {
    /// There are at least an input and an output layer, and every parameter
    /// matrix has the shape that its two layers give it.
    pub open spec fn wf(self) -> bool {
        &&& self.layers.len() >= 2
        &&& weight_shapes(self.weights, self.layers)
        &&& bias_shapes(self.biases, self.layers)
        &&& forall|i: int| 0 <= i < self.weights.len() ==> (#[trigger] self.weights[i]).wf()
        &&& forall|i: int| 0 <= i < self.biases.len() ==> (#[trigger] self.biases[i]).wf()
    }

    /// The index of the output layer.
    pub open spec fn last(self) -> nat {
        (self.layers.len() - 1) as nat
    }

    /// What layer `l` makes of its weighted sum `z`: the identity at a
    /// linear output layer, the activation elsewhere.
    pub open spec fn transfer(self, l: nat, z: S) -> S {
        if l == self.last() && self.output_is_linear {
            z
        } else {
            self.activation.function_spec(z)
        }
    }

    /// The weighted sums that enter layer `l >= 1` for the input `x`:
    /// `weights[l - 1] * activation_of(x, l - 1) + biases[l - 1]`. The input
    /// layer has none; `x` stands in for them.
    pub open spec fn weighted_sum(self, x: Seq<S>, l: nat) -> Seq<S>
        decreases l, 0nat,
    {
        if l == 0 {
            x
        } else {
            let below = self.activation_of(x, (l - 1) as nat);
            Seq::new(
                self.layers[l as int] as nat,
                |j: int|
                    dot_entry(self.weights[l - 1], MatrixModel::column(below), j, 0).add_spec(
                        self.biases[l - 1].entries[j],
                    ),
            )
        }
    }

    /// The values that layer `l` puts out for the input `x`; layer 0 puts
    /// out `x` itself.
    pub open spec fn activation_of(self, x: Seq<S>, l: nat) -> Seq<S>
        decreases l, 1nat,
    {
        if l == 0 {
            x
        } else {
            let z = self.weighted_sum(x, l);
            Seq::new(z.len(), |j: int| self.transfer(l, z[j]))
        }
    }

    /// The network's answer to the input `x`.
    pub open spec fn output(self, x: Seq<S>) -> Seq<S> {
        self.activation_of(x, self.last())
    }

    /// The error at the output layer: target minus prediction, times the
    /// activation's slope unless the output layer is linear.
    pub open spec fn output_error(self, x: Seq<S>, t: Seq<S>) -> Seq<S> {
        let a = self.activation_of(x, self.last());
        let z = self.weighted_sum(x, self.last());
        Seq::new(
            self.layers[self.last() as int] as nat,
            |j: int|
                if self.output_is_linear {
                    t[j].sub_spec(a[j])
                } else {
                    t[j].sub_spec(a[j]).mul_spec(self.activation.derivative_spec(z[j]))
                },
        )
    }

    /// The error at layer `l >= 1`: at a hidden layer, the error of the
    /// layer above carried back through the transposed weights, times the
    /// activation's slope at this layer's weighted sums.
    pub open spec fn error_of(self, x: Seq<S>, t: Seq<S>, l: nat) -> Seq<S>
        decreases self.layers.len() - l,
    {
        if l + 1 >= self.layers.len() {
            self.output_error(x, t)
        } else {
            let above = self.error_of(x, t, l + 1);
            let z = self.weighted_sum(x, l);
            Seq::new(
                self.layers[l as int] as nat,
                |j: int|
                    transpose_dot_prefix(
                        self.weights[l as int],
                        MatrixModel::column(above),
                        j,
                        self.weights[l as int].rows,
                    ).mul_spec(self.activation.derivative_spec(z[j])),
            )
        }
    }

    /// The gradient of the sample `(x, t)`: for each step `i`, the outer
    /// product of the error above with the activation below for the
    /// weights, and the error above for the biases.
    pub open spec fn sample_gradient(self, x: Seq<S>, t: Seq<S>) -> GradientsModel<S> {
        GradientsModel {
            d_weights: Seq::new(
                (self.layers.len() - 1) as nat,
                |i: int|
                    outer_model(
                        MatrixModel::column(self.error_of(x, t, (i + 1) as nat)),
                        MatrixModel::column(self.activation_of(x, i as nat)),
                    ),
            ),
            d_biases: Seq::new(
                (self.layers.len() - 1) as nat,
                |i: int| MatrixModel::column(self.error_of(x, t, (i + 1) as nat)),
            ),
        }
    }

    /// The accumulator `g` after the gradient of the sample `(x, t)` has
    /// been added to it.
    pub open spec fn accumulate_sample(
        self,
        g: GradientsModel<S>,
        x: Seq<S>,
        t: Seq<S>,
    ) -> GradientsModel<S> {
        g.add(self.sample_gradient(x, t))
    }

    /// The network after one update: every parameter grows by its
    /// gradient times `learning_rate * scale`.
    pub open spec fn apply(self, g: GradientsModel<S>, scale: S) -> NetworkModel<S, A> {
        let step = self.learning_rate.mul_spec(scale);
        NetworkModel {
            layers: self.layers,
            weights: Seq::new(
                self.weights.len(),
                |i: int| add_scaled_model(self.weights[i], g.d_weights[i], step),
            ),
            biases: Seq::new(
                self.biases.len(),
                |i: int| add_scaled_model(self.biases[i], g.d_biases[i], step),
            ),
            learning_rate: self.learning_rate,
            activation: self.activation,
            output_is_linear: self.output_is_linear,
        }
    }

    /// The network after one training step on the sample `(x, t)`.
    pub open spec fn train(self, x: Seq<S>, t: Seq<S>) -> NetworkModel<S, A> {
        self.apply(self.accumulate_sample(GradientsModel::zero(self.layers), x, t), S::one_spec())
    }

    /// Every weight and bias lies in `[0, 1)`.
    pub open spec fn parameters_in_unit_interval(self) -> bool {
        &&& forall|i: int, k: int|
            0 <= i < self.weights.len() && 0 <= k < self.weights[i].entries.len()
                ==> (#[trigger] self.weights[i].entries[k]).in_unit_interval()
        &&& forall|i: int, k: int|
            0 <= i < self.biases.len() && 0 <= k < self.biases[i].entries.len()
                ==> (#[trigger] self.biases[i].entries[k]).in_unit_interval()
    }
}

impl<S: Scalar, A: Activation<S>> View for Network<S, A> {
    type V = NetworkModel<S, A>;

    closed spec fn view(&self) -> NetworkModel<S, A> {
        NetworkModel {
            layers: self.layers@,
            weights: models(self.weights@),
            biases: models(self.biases@),
            learning_rate: self.learning_rate,
            activation: self.activation,
            output_is_linear: self.output_is_linear,
        }
    }
}

impl<S: Scalar, A: Activation<S>> Network<S, A> {
    /// The parameters and the scratch space all have the shapes that the
    /// layer widths give them.
    pub closed spec fn wf(&self) -> bool {
        &&& self.layers@.len() >= 2
        &&& all_wf(self.weights@)
        &&& all_wf(self.biases@)
        &&& all_wf(self.activations@)
        &&& all_wf(self.weighted_sums@)
        &&& all_wf(self.errors@)
        &&& all_wf(self.gradients@)
        &&& weight_shapes(models(self.weights@), self.layers@)
        &&& bias_shapes(models(self.biases@), self.layers@)
        &&& layer_shapes(models(self.activations@), self.layers@)
        &&& layer_shapes(models(self.weighted_sums@), self.layers@)
        &&& layer_shapes(models(self.errors@), self.layers@)
        &&& weight_shapes(models(self.gradients@), self.layers@)
    }

    /// The shape invariant: in a well-formed network, `weights[i]` has
    /// `layers[i + 1]` rows and `layers[i]` columns, and `biases[i]` is a
    /// column of `layers[i + 1]` entries.
    pub proof fn lemma_wf_shapes(&self)
        requires
            self.wf(),
        ensures
            self@.wf(),
            forall|i: int|
                0 <= i < self@.layers.len() - 1 ==> {
                    &&& (#[trigger] self@.weights[i]).rows == self@.layers[i + 1]
                    &&& self@.weights[i].cols == self@.layers[i]
                    &&& self@.biases[i].rows == self@.layers[i + 1]
                    &&& self@.biases[i].cols == 1
                },
    {
        assert forall|i: int| 0 <= i < self@.weights.len() implies (#[trigger] self@.weights[i]).wf() by {
            assert(self.weights@[i].wf());
        }
        assert forall|i: int| 0 <= i < self@.biases.len() implies (#[trigger] self@.biases[i]).wf() by {
            assert(self.biases@[i].wf());
        }
    }

    /// Builds a network around the given parameters.
    pub fn from_parameters(
        layers: Vec<usize>,
        weights: Vec<Matrix<S>>,
        biases: Vec<Matrix<S>>,
        activation: A,
        output_is_linear: bool,
        learning_rate: S,
    ) -> (net: Network<S, A>)
        requires
            layers@.len() >= 2,
            all_wf(weights@),
            all_wf(biases@),
            weight_shapes(models(weights@), layers@),
            bias_shapes(models(biases@), layers@),
        ensures
            net.wf(),
            net@.wf(),
            net@ == (NetworkModel {
                layers: layers@,
                weights: models(weights@),
                biases: models(biases@),
                learning_rate,
                activation,
                output_is_linear,
            }),
    {
        let count: usize = layers.len();
        let mut activations: Vec<Matrix<S>> = Vec::new();
        let mut weighted_sums: Vec<Matrix<S>> = Vec::new();
        let mut errors: Vec<Matrix<S>> = Vec::new();
        let mut gradients: Vec<Matrix<S>> = Vec::new();
        let mut i: usize = 0;
        while i < count
            invariant
                count == layers@.len(),
                i <= count,
                activations@.len() == i,
                weighted_sums@.len() == i,
                errors@.len() == i,
                forall|p: int|
                    0 <= p < i ==> (#[trigger] activations@[p]).wf() && activations@[p].rows
                        == layers@[p] && activations@[p].cols == 1,
                forall|p: int|
                    0 <= p < i ==> (#[trigger] weighted_sums@[p]).wf() && weighted_sums@[p].rows
                        == layers@[p] && weighted_sums@[p].cols == 1,
                forall|p: int|
                    0 <= p < i ==> (#[trigger] errors@[p]).wf() && errors@[p].rows == layers@[p]
                        && errors@[p].cols == 1,
            decreases count - i,
        {
            let width: usize = layers[i];
            activations.push(Matrix::new(width, 1));
            weighted_sums.push(Matrix::new(width, 1));
            errors.push(Matrix::new(width, 1));
            i += 1;
        }
        let steps: usize = count - 1;
        let mut k: usize = 0;
        while k < steps
            invariant
                steps == layers@.len() - 1,
                all_wf(weights@),
                weight_shapes(models(weights@), layers@),
                k <= steps,
                gradients@.len() == k,
                forall|p: int|
                    0 <= p < k ==> (#[trigger] gradients@[p]).wf() && gradients@[p].rows == layers@[p
                        + 1] && gradients@[p].cols == layers@[p],
            decreases steps - k,
        {
            proof {
                assert(weights@[k as int].wf());
                assert(models(weights@)[k as int].rows == layers@[k + 1]);
            }
            gradients.push(Matrix::new(layers[k + 1], layers[k]));
            k += 1;
        }
        let net = Network {
            layers,
            weights,
            biases,
            learning_rate,
            activation,
            output_is_linear,
            activations,
            weighted_sums,
            errors,
            gradients,
        };
        proof {
            net.lemma_wf_shapes();
        }
        net
    }

    /// The layer widths, input layer first.
    pub fn layers(&self) -> (l: &Vec<usize>)
        ensures
            l@ == self@.layers,
    {
        &self.layers
    }

    /// The weight matrices, one per step between layers.
    pub fn weights(&self) -> (w: &Vec<Matrix<S>>)
        ensures
            models(w@) == self@.weights,
            self.wf() ==> all_wf(w@),
    {
        &self.weights
    }

    /// The bias vectors, one per step between layers.
    pub fn biases(&self) -> (b: &Vec<Matrix<S>>)
        ensures
            models(b@) == self@.biases,
            self.wf() ==> all_wf(b@),
    {
        &self.biases
    }

    /// The step size of every update.
    pub fn learning_rate(&self) -> (r: S)
        ensures
            r == self@.learning_rate,
    {
        self.learning_rate
    }
}

impl<S: Scalar, A: Activation<S>> Network<S, A> {
    /// A network with the given layer widths, activation and step size,
    /// whose weights and biases are drawn independently and uniformly from
    /// `[0, 1)`.
    ///
    /// With `output_is_linear` the output layer puts out its weighted sums
    /// as they are; without it the activation applies to every layer.
    pub fn with_activation(
        layers: Vec<usize>,
        activation: A,
        output_is_linear: bool,
        learning_rate: S,
    ) -> (net: Network<S, A>)
        requires
            layers@.len() >= 2,
            layers_fit(layers@),
        ensures
            net.wf(),
            net@.wf(),
            net@.layers == layers@,
            net@.learning_rate == learning_rate,
            net@.activation == activation,
            net@.output_is_linear == output_is_linear,
            net@.parameters_in_unit_interval(),
    {
        let mut weights: Vec<Matrix<S>> = Vec::new();
        let mut biases: Vec<Matrix<S>> = Vec::new();
        let steps: usize = layers.len() - 1;
        let mut i: usize = 0;
        while i < steps
            invariant
                steps == layers@.len() - 1,
                layers_fit(layers@),
                i <= steps,
                weights@.len() == i,
                biases@.len() == i,
                forall|p: int|
                    0 <= p < i ==> (#[trigger] weights@[p]).wf() && weights@[p].rows == layers@[p + 1]
                        && weights@[p].cols == layers@[p],
                forall|p: int|
                    0 <= p < i ==> (#[trigger] biases@[p]).wf() && biases@[p].rows == layers@[p + 1]
                        && biases@[p].cols == 1,
                forall|p: int, k: int|
                    0 <= p < i && 0 <= k < weights@[p].data@.len() ==> (
                    #[trigger] weights@[p].data@[k]).in_unit_interval(),
                forall|p: int, k: int|
                    0 <= p < i && 0 <= k < biases@[p].data@.len() ==> (
                    #[trigger] biases@[p].data@[k]).in_unit_interval(),
            decreases steps - i,
        {
            let rows: usize = layers[i + 1];
            let cols: usize = layers[i];
            assert(layers@[i + 1] * layers@[i as int] <= usize::MAX);
            weights.push(Matrix::random(rows, cols));
            biases.push(Matrix::random(rows, 1));
            i += 1;
        }
        Network::from_parameters(layers, weights, biases, activation, output_is_linear, learning_rate)
    }

    /// A deep copy: the same parameters, in scratch space of its own.
    pub fn snapshot(&self) -> (copy: Network<S, A>)
        requires
            self.wf(),
        ensures
            copy.wf(),
            copy@ == self@,
    {
        let n: usize = self.layers.len();
        let mut layers: Vec<usize> = Vec::with_capacity(n);
        let mut i: usize = 0;
        while i < n
            invariant
                n == self.layers@.len(),
                i <= n,
                layers@ =~= self.layers@.take(i as int),
            decreases n - i,
        {
            layers.push(self.layers[i]);
            i += 1;
        }
        assert(self.layers@.take(n as int) =~= self.layers@);
        Network {
            layers,
            weights: duplicate_all(&self.weights),
            biases: duplicate_all(&self.biases),
            learning_rate: self.learning_rate,
            activation: self.activation,
            output_is_linear: self.output_is_linear,
            activations: duplicate_all(&self.activations),
            weighted_sums: duplicate_all(&self.weighted_sums),
            errors: duplicate_all(&self.errors),
            gradients: duplicate_all(&self.gradients),
        }
    }
}

impl<S: Scalar> Network<S, Relu> {
    /// A network with rectified-linear hidden layers and a linear output
    /// layer, whose weights and biases are drawn independently and
    /// uniformly from `[0, 1)`.
    pub fn new(layers: Vec<usize>, learning_rate: S) -> (net: Network<S, Relu>)
        requires
            layers@.len() >= 2,
            layers_fit(layers@),
        ensures
            net.wf(),
            net@.wf(),
            net@.layers == layers@,
            net@.learning_rate == learning_rate,
            net@.output_is_linear,
            net@.parameters_in_unit_interval(),
    {
        Network::with_activation(layers, Relu, true, learning_rate)
    }
}

/// Copies a list of matrices, entry for entry.
fn duplicate_all<S: Scalar>(source: &Vec<Matrix<S>>) -> (copy: Vec<Matrix<S>>)
    ensures
        models(copy@) == models(source@),
        all_wf(source@) ==> all_wf(copy@),
{
    let n: usize = source.len();
    let mut copy: Vec<Matrix<S>> = Vec::with_capacity(n);
    let mut i: usize = 0;
    while i < n
        invariant
            n == source@.len(),
            i <= n,
            copy@.len() == i,
            forall|p: int|
                0 <= p < i ==> (#[trigger] copy@[p])@ == source@[p]@ && copy@[p].wf()
                    == source@[p].wf(),
        decreases n - i,
    {
        copy.push(source[i].duplicate());
        i += 1;
    }
    proof {
        assert(models(copy@) =~= models(source@));
        assert(all_wf(source@) ==> all_wf(copy@)) by {
            if all_wf(source@) {
                assert forall|p: int| 0 <= p < copy@.len() implies (#[trigger] copy@[p]).wf() by {
                    assert(source@[p].wf());
                }
            }
        }
    }
    copy
}

/// Adds the bias to each weighted sum and puts the layer's output beside
/// it: the sum itself where `linear` holds, its activation elsewhere.
fn add_bias_and_activate<S: Scalar, A: Activation<S>>(
    sums: &mut Matrix<S>,
    bias: &Matrix<S>,
    outputs: &mut Matrix<S>,
    activation: &A,
    linear: bool,
)
    requires
        old(sums).data@.len() == bias.data@.len(),
        old(outputs).data@.len() == bias.data@.len(),
    ensures
        final(sums).rows == old(sums).rows,
        final(sums).cols == old(sums).cols,
        final(sums).data@.len() == old(sums).data@.len(),
        final(outputs).rows == old(outputs).rows,
        final(outputs).cols == old(outputs).cols,
        final(outputs).data@.len() == old(outputs).data@.len(),
        forall|j: int|
            0 <= j < bias.data@.len() ==> #[trigger] final(sums).data@[j] == old(sums).data@[j].add_spec(
                bias.data@[j],
            ),
        forall|j: int|
            0 <= j < bias.data@.len() ==> #[trigger] final(outputs).data@[j] == (if linear {
                final(sums).data@[j]
            } else {
                activation.function_spec(final(sums).data@[j])
            }),
{
    let n: usize = bias.data.len();
    let mut j: usize = 0;
    while j < n
        invariant
            n == bias.data@.len(),
            sums.rows == old(sums).rows,
            sums.cols == old(sums).cols,
            sums.data@.len() == n,
            old(sums).data@.len() == n,
            outputs.rows == old(outputs).rows,
            outputs.cols == old(outputs).cols,
            outputs.data@.len() == n,
            old(outputs).data@.len() == n,
            j <= n,
            forall|p: int|
                0 <= p < j ==> #[trigger] sums.data@[p] == old(sums).data@[p].add_spec(bias.data@[p]),
            forall|p: int| j <= p < n ==> sums.data@[p] == old(sums).data@[p],
            forall|p: int|
                0 <= p < j ==> #[trigger] outputs.data@[p] == (if linear {
                    sums.data@[p]
                } else {
                    activation.function_spec(sums.data@[p])
                }),
        decreases n - j,
    {
        let z: S = sums.data[j].add(bias.data[j]);
        sums.data[j] = z;
        outputs.data[j] = if linear {
            z
        } else {
            activation.function(z)
        };
        j += 1;
    }
}

/// Writes the output layer's error: target minus prediction, times the
/// activation's slope at the weighted sum unless `linear` holds.
fn write_output_error<S: Scalar, A: Activation<S>>(
    error: &mut Matrix<S>,
    target: &[S],
    outputs: &Matrix<S>,
    sums: &Matrix<S>,
    activation: &A,
    linear: bool,
)
    requires
        old(error).data@.len() == target@.len(),
        outputs.data@.len() == target@.len(),
        sums.data@.len() == target@.len(),
    ensures
        final(error).rows == old(error).rows,
        final(error).cols == old(error).cols,
        final(error).data@.len() == old(error).data@.len(),
        forall|j: int|
            0 <= j < target@.len() ==> #[trigger] final(error).data@[j] == (if linear {
                target@[j].sub_spec(outputs.data@[j])
            } else {
                target@[j].sub_spec(outputs.data@[j]).mul_spec(
                    activation.derivative_spec(sums.data@[j]),
                )
            }),
{
    let n: usize = target.len();
    let mut j: usize = 0;
    while j < n
        invariant
            n == target@.len(),
            outputs.data@.len() == n,
            sums.data@.len() == n,
            error.rows == old(error).rows,
            error.cols == old(error).cols,
            error.data@.len() == n,
            old(error).data@.len() == n,
            j <= n,
            forall|p: int|
                0 <= p < j ==> #[trigger] error.data@[p] == (if linear {
                    target@[p].sub_spec(outputs.data@[p])
                } else {
                    target@[p].sub_spec(outputs.data@[p]).mul_spec(
                        activation.derivative_spec(sums.data@[p]),
                    )
                }),
        decreases n - j,
    {
        let e: S = target[j].sub(outputs.data[j]);
        error.data[j] = if linear {
            e
        } else {
            e.mul(activation.derivative(sums.data[j]))
        };
        j += 1;
    }
}

/// Multiplies each error by the activation's slope at the layer's weighted
/// sum.
fn multiply_by_slope<S: Scalar, A: Activation<S>>(
    error: &mut Matrix<S>,
    sums: &Matrix<S>,
    activation: &A,
)
    requires
        old(error).data@.len() == sums.data@.len(),
    ensures
        final(error).rows == old(error).rows,
        final(error).cols == old(error).cols,
        final(error).data@.len() == old(error).data@.len(),
        forall|j: int|
            0 <= j < sums.data@.len() ==> #[trigger] final(error).data@[j] == old(
                error,
            ).data@[j].mul_spec(activation.derivative_spec(sums.data@[j])),
{
    let n: usize = sums.data.len();
    let mut j: usize = 0;
    while j < n
        invariant
            n == sums.data@.len(),
            error.rows == old(error).rows,
            error.cols == old(error).cols,
            error.data@.len() == n,
            old(error).data@.len() == n,
            j <= n,
            forall|p: int|
                0 <= p < j ==> #[trigger] error.data@[p] == old(error).data@[p].mul_spec(
                    activation.derivative_spec(sums.data@[p]),
                ),
            forall|p: int| j <= p < n ==> error.data@[p] == old(error).data@[p],
        decreases n - j,
    {
        error.data[j] = error.data[j].mul(activation.derivative(sums.data[j]));
        j += 1;
    }
}

impl<S: Scalar, A: Activation<S>> Network<S, A> {
    /// The scratch space of the layers `0..=upto` holds the forward pass of
    /// the input `x`.
    closed spec fn forward_done(&self, x: Seq<S>, upto: int) -> bool {
        &&& forall|l: int|
            0 <= l <= upto ==> (#[trigger] self.activations@[l]).data@ == self@.activation_of(
                x,
                l as nat,
            )
        &&& forall|l: int|
            1 <= l <= upto ==> (#[trigger] self.weighted_sums@[l]).data@ == self@.weighted_sum(
                x,
                l as nat,
            )
    }

    /// Whether `input` has one entry for each unit of the input layer.
    pub fn accepts_input(&self, input: &[S]) -> (b: bool)
        requires
            self.wf(),
        ensures
            b == (input@.len() == self@.layers[0]),
    {
        input.len() == self.layers[0]
    }

    /// Whether `target` has one entry for each unit of the output layer.
    pub fn accepts_target(&self, target: &[S]) -> (b: bool)
        requires
            self.wf(),
        ensures
            b == (target@.len() == self@.layers[self@.last() as int]),
    {
        target.len() == self.layers[self.layers.len() - 1]
    }

    /// Runs the forward pass and leaves every layer's weighted sums and
    /// outputs in the scratch space.
    fn propagate(&mut self, input: &[S])
        requires
            old(self).wf(),
            input@.len() == old(self)@.layers[0],
        ensures
            final(self).wf(),
            final(self)@ == old(self)@,
            final(self).errors == old(self).errors,
            final(self).gradients == old(self).gradients,
            final(self).forward_done(input@, old(self)@.layers.len() - 1),
    {
        let ghost start = *self;
        proof {
            lemma_layer_shape_at(self.activations@, self.layers@, 0);
        }
        self.activations[0].copy_from_slice(input);
        proof {
            lemma_layer_shapes_kept(start.activations@, self.activations@, self.layers@, 0);
        }
        let steps: usize = self.weights.len();
        let ghost model = self@;
        let mut i: usize = 0;
        while i < steps
            invariant
                self.wf(),
                self@ == old(self)@,
                model == self@,
                self.errors == old(self).errors,
                self.gradients == old(self).gradients,
                steps == self.layers@.len() - 1,
                i <= steps,
                self.forward_done(input@, i as int),
            decreases steps - i,
        {
            let ghost before = *self;
            proof {
                lemma_weight_shape_at(self.weights@, self.layers@, i as int);
                lemma_bias_shape_at(self.biases@, self.layers@, i as int);
                lemma_layer_shape_at(self.activations@, self.layers@, i as int);
                lemma_layer_shape_at(self.activations@, self.layers@, i + 1);
                lemma_layer_shape_at(self.weighted_sums@, self.layers@, i + 1);
                assert(self.activations@[i as int]@ == MatrixModel::column(
                    model.activation_of(input@, i as nat),
                ));
            }
            self.weights[i].dot(&self.activations[i], &mut self.weighted_sums[i + 1]);
            let linear: bool = self.output_is_linear && i + 1 == steps;
            add_bias_and_activate(
                &mut self.weighted_sums[i + 1],
                &self.biases[i],
                &mut self.activations[i + 1],
                &self.activation,
                linear,
            );
            proof {
                lemma_layer_shapes_kept(before.activations@, self.activations@, self.layers@, i + 1);
                lemma_layer_shapes_kept(
                    before.weighted_sums@,
                    self.weighted_sums@,
                    self.layers@,
                    i + 1,
                );
                let z = model.weighted_sum(input@, (i + 1) as nat);
                let a = model.activation_of(input@, (i + 1) as nat);
                assert(self.weighted_sums@[i + 1].data@ =~= z);
                assert(self.activations@[i + 1].data@ =~= a);
                assert forall|l: int| 0 <= l <= i + 1 implies (#[trigger] self.activations@[l]).data@
                    == model.activation_of(input@, l as nat) by {
                    if l <= i {
                        assert(self.activations@[l] == before.activations@[l]);
                    }
                }
                assert forall|l: int| 1 <= l <= i + 1 implies (#[trigger] self.weighted_sums@[l]).data@
                    == model.weighted_sum(input@, l as nat) by {
                    if l <= i {
                        assert(self.weighted_sums@[l] == before.weighted_sums@[l]);
                    }
                }
            }
            i += 1;
        }
    }

    /// Computes the network's answer to `input`.
    ///
    /// The answer depends on the parameters and the input alone. The call
    /// overwrites the scratch space and leaves the parameters as they were.
    pub fn forward(&mut self, input: &[S]) -> (output: Vec<S>)
        requires
            old(self).wf(),
            input@.len() == old(self)@.layers[0],
        ensures
            final(self).wf(),
            final(self)@ == old(self)@,
            output@ == old(self)@.output(input@),
    {
        self.propagate(input);
        let last: usize = self.layers.len() - 1;
        proof {
            assert(self.activations@[last as int].data@ == self@.activation_of(input@, last as nat));
        }
        let top: &Matrix<S> = &self.activations[last];
        let n: usize = top.data.len();
        let mut output: Vec<S> = Vec::with_capacity(n);
        let mut k: usize = 0;
        while k < n
            invariant
                n == top.data@.len(),
                k <= n,
                output@ =~= top.data@.take(k as int),
            decreases n - k,
        {
            output.push(top.data[k]);
            k += 1;
        }
        assert(top.data@.take(n as int) =~= top.data@);
        output
    }
}

impl<S: Scalar, A: Activation<S>> Network<S, A> {
    /// The error scratch of the layers `from..` holds the backward pass of
    /// the sample `(x, t)`.
    closed spec fn backward_done(&self, x: Seq<S>, t: Seq<S>, from: int) -> bool {
        forall|l: int|
            1 <= l && from <= l < self.layers@.len() ==> (#[trigger] self.errors@[l]).data@
                == self@.error_of(x, t, l as nat)
    }

    /// The matrices of a well-formed network fit in memory.
    pub proof fn lemma_wf_fits(&self)
        requires
            self.wf(),
        ensures
            layers_fit(self@.layers),
    {
        assert forall|i: int| 0 <= i < self.layers@.len() - 1 implies #[trigger] self.layers@[i + 1]
            * self.layers@[i] <= usize::MAX by {
            lemma_weight_shape_at(self.weights@, self.layers@, i);
            assert(self.weights@[i].data.len() == self.layers@[i + 1] * self.layers@[i]);
        }
    }

    /// Adds the gradient of one sample to `grads`.
    ///
    /// The error at the output is target minus prediction, so adding the
    /// accumulated gradient to the parameters lowers the squared error. The
    /// call overwrites the scratch space and leaves the parameters as they
    /// were.
    pub fn compute_gradients_single(&mut self, input: &[S], target: &[S], grads: &mut Gradients<S>)
        requires
            old(self).wf(),
            input@.len() == old(self)@.layers[0],
            target@.len() == old(self)@.layers[old(self)@.last() as int],
            old(grads).shaped_for(old(self)@.layers),
        ensures
            final(self).wf(),
            final(self)@ == old(self)@,
            final(grads).shaped_for(old(self)@.layers),
            final(grads)@ == old(self)@.accumulate_sample(old(grads)@, input@, target@),
    {
        self.propagate(input);
        let ghost model = self@;
        let ghost x = input@;
        let ghost t = target@;
        let steps: usize = self.weights.len();
        let last: usize = self.layers.len() - 1;
        let ghost start = *self;
        proof {
            lemma_layer_shape_at(self.errors@, self.layers@, last as int);
            lemma_layer_shape_at(self.activations@, self.layers@, last as int);
            lemma_layer_shape_at(self.weighted_sums@, self.layers@, last as int);
        }
        write_output_error(
            &mut self.errors[last],
            target,
            &self.activations[last],
            &self.weighted_sums[last],
            &self.activation,
            self.output_is_linear,
        );
        proof {
            lemma_layer_shapes_kept(start.errors@, self.errors@, self.layers@, last as int);
            assert(self.activations@[last as int].data@ == model.activation_of(x, last as nat));
            assert(self.weighted_sums@[last as int].data@ == model.weighted_sum(x, last as nat));
            assert(self.errors@[last as int].data@ =~= model.output_error(x, t));
        }
        let mut i: usize = steps;
        while i > 0
            invariant
                self.wf(),
                self@ == old(self)@,
                model == self@,
                x == input@,
                t == target@,
                steps == self.layers@.len() - 1,
                i <= steps,
                self.forward_done(x, steps as int),
                self.backward_done(x, t, i as int),
                grads.shaped_for(model.layers),
                forall|l: int|
                    i <= l < steps ==> (#[trigger] grads.d_weights@[l])@ == add_model(
                        old(grads).d_weights@[l]@,
                        outer_model(
                            MatrixModel::column(model.error_of(x, t, (l + 1) as nat)),
                            MatrixModel::column(model.activation_of(x, l as nat)),
                        ),
                    ),
                forall|l: int|
                    i <= l < steps ==> (#[trigger] grads.d_biases@[l])@ == add_model(
                        old(grads).d_biases@[l]@,
                        MatrixModel::column(model.error_of(x, t, (l + 1) as nat)),
                    ),
                forall|l: int| 0 <= l < i ==> grads.d_weights@[l] == old(grads).d_weights@[l],
                forall|l: int| 0 <= l < i ==> grads.d_biases@[l] == old(grads).d_biases@[l],
            decreases i,
        {
            i -= 1;
            let ghost before = *self;
            let ghost grads_before = *grads;
            proof {
                lemma_weight_shape_at(self.weights@, self.layers@, i as int);
                lemma_weight_shape_at(self.gradients@, self.layers@, i as int);
                lemma_layer_shape_at(self.activations@, self.layers@, i as int);
                lemma_layer_shape_at(self.weighted_sums@, self.layers@, i as int);
                lemma_layer_shape_at(self.errors@, self.layers@, i as int);
                lemma_layer_shape_at(self.errors@, self.layers@, i + 1);
                lemma_weight_shape_at(grads.d_weights@, self.layers@, i as int);
                lemma_bias_shape_at(grads.d_biases@, self.layers@, i as int);
                assert(self.errors@[i + 1].data@ == model.error_of(x, t, (i + 1) as nat));
                assert(self.activations@[i as int].data@ == model.activation_of(x, i as nat));
                assert(self.errors@[i + 1]@ == MatrixModel::column(
                    model.error_of(x, t, (i + 1) as nat),
                ));
                assert(self.activations@[i as int]@ == MatrixModel::column(
                    model.activation_of(x, i as nat),
                ));
            }
            self.errors[i + 1].outer_product(&self.activations[i], &mut self.gradients[i]);
            proof {
                lemma_weight_shapes_kept(before.gradients@, self.gradients@, self.layers@, i as int);
            }
            if i > 0 {
                let (lower, upper) = self.errors.as_mut_slice().split_at_mut(i + 1);
                self.weights[i].dot_transpose_self(&upper[0], &mut lower[i]);
                let ghost carried = self.errors@[i as int];
                multiply_by_slope(&mut self.errors[i], &self.weighted_sums[i], &self.activation);
                proof {
                    assert(self.errors@.len() == before.errors@.len());
                    assert forall|l: int| 0 <= l < before.errors@.len() && l != i implies self.errors@[l]
                        == before.errors@[l] by {}
                    lemma_layer_shapes_kept(before.errors@, self.errors@, self.layers@, i as int);
                    assert(self.weighted_sums@[i as int].data@ == model.weighted_sum(x, i as nat));
                    assert(carried@.entries =~= Seq::new(
                        model.weights[i as int].cols,
                        |j: int|
                            transpose_dot_prefix(
                                model.weights[i as int],
                                MatrixModel::column(model.error_of(x, t, (i + 1) as nat)),
                                j,
                                model.weights[i as int].rows,
                            ),
                    ));
                    assert(self.errors@[i as int].data@ =~= model.error_of(x, t, i as nat));
                }
            }
            grads.d_weights[i].accumulate(&self.gradients[i]);
            grads.d_biases[i].accumulate(&self.errors[i + 1]);
            proof {
                lemma_weight_shapes_kept(
                    grads_before.d_weights@,
                    grads.d_weights@,
                    self.layers@,
                    i as int,
                );
                lemma_bias_shapes_kept(
                    grads_before.d_biases@,
                    grads.d_biases@,
                    self.layers@,
                    i as int,
                );
                assert forall|l: int| 1 <= l && i <= l < self.layers@.len() implies (
                #[trigger] self.errors@[l]).data@ == model.error_of(x, t, l as nat) by {
                    if l > i {
                        assert(self.errors@[l] == before.errors@[l]);
                    }
                }
            }
        }
        proof {
            let expected = model.accumulate_sample(old(grads)@, x, t);
            assert(grads@.d_weights =~= expected.d_weights);
            assert(grads@.d_biases =~= expected.d_biases);
        }
    }

    /// Adds to every parameter its gradient times `learning_rate * scale`.
    pub fn apply_gradients(&mut self, grads: &Gradients<S>, scale: S)
        requires
            old(self).wf(),
            grads.shaped_for(old(self)@.layers),
        ensures
            final(self).wf(),
            final(self)@ == old(self)@.apply(grads@, scale),
    {
        let step: S = self.learning_rate.mul(scale);
        let steps: usize = self.weights.len();
        let ghost model = self@;
        let mut i: usize = 0;
        while i < steps
            invariant
                self.wf(),
                old(self).wf(),
                grads.shaped_for(model.layers),
                model == old(self)@,
                self.layers == old(self).layers,
                self.learning_rate == old(self).learning_rate,
                self.activation == old(self).activation,
                self.output_is_linear == old(self).output_is_linear,
                step == model.learning_rate.mul_spec(scale),
                steps == self.layers@.len() - 1,
                i <= steps,
                forall|l: int|
                    0 <= l < i ==> (#[trigger] self.weights@[l])@ == add_scaled_model(
                        model.weights[l],
                        grads@.d_weights[l],
                        step,
                    ),
                forall|l: int|
                    0 <= l < i ==> (#[trigger] self.biases@[l])@ == add_scaled_model(
                        model.biases[l],
                        grads@.d_biases[l],
                        step,
                    ),
                forall|l: int| i <= l < steps ==> self.weights@[l] == old(self).weights@[l],
                forall|l: int| i <= l < steps ==> self.biases@[l] == old(self).biases@[l],
            decreases steps - i,
        {
            let ghost before = *self;
            proof {
                lemma_weight_shape_at(self.weights@, self.layers@, i as int);
                lemma_bias_shape_at(self.biases@, self.layers@, i as int);
                lemma_weight_shape_at(grads.d_weights@, self.layers@, i as int);
                lemma_bias_shape_at(grads.d_biases@, self.layers@, i as int);
            }
            self.weights[i].add_scaled(&grads.d_weights[i], step);
            self.biases[i].add_scaled(&grads.d_biases[i], step);
            proof {
                lemma_weight_shapes_kept(before.weights@, self.weights@, self.layers@, i as int);
                lemma_bias_shapes_kept(before.biases@, self.biases@, self.layers@, i as int);
            }
            i += 1;
        }
        proof {
            let expected = model.apply(grads@, scale);
            assert(self@.weights =~= expected.weights);
            assert(self@.biases =~= expected.biases);
        }
    }

    /// One training step on one sample: the sample's gradient, applied with
    /// scale one.
    pub fn train(&mut self, input: &[S], target: &[S])
        requires
            old(self).wf(),
            input@.len() == old(self)@.layers[0],
            target@.len() == old(self)@.layers[old(self)@.last() as int],
        ensures
            final(self).wf(),
            final(self)@ == old(self)@.train(input@, target@),
    {
        proof {
            self.lemma_wf_fits();
        }
        let mut grads: Gradients<S> = Gradients::new(self.layers.as_slice());
        grads.zero();
        self.compute_gradients_single(input, target, &mut grads);
        self.apply_gradients(&grads, S::one());
    }
}

/// Forward determinism: the answer to an input is a function of the
/// parameters and the input. Two networks with the same parameters give the
/// same answer, whatever their scratch space holds and whatever they
/// computed before.
pub proof fn lemma_forward_deterministic<S: Scalar, A: Activation<S>>(
    first: Network<S, A>,
    second: Network<S, A>,
    x: Seq<S>,
)
    requires
        first@ == second@,
    ensures
        first@.output(x) == second@.output(x),
{
}

/// The direction of a training step, on a single linear unit with weight
/// `w`, bias `b` and rate `r`: with the error `e = t - (w * x + b)`, the
/// weight grows by `e * x * r` and the bias by `e * r`. The step moves the
/// prediction toward the target.
pub proof fn lemma_linear_unit_step<S: Scalar, A: Activation<S>>(
    model: NetworkModel<S, A>,
    x: S,
    t: S,
)
    requires
        model.wf(),
        model.layers.len() == 2,
        model.layers[0] == 1,
        model.layers[1] == 1,
        model.output_is_linear,
    ensures
        ({
            let w = model.weights[0].entries[0];
            let b = model.biases[0].entries[0];
            let prediction = S::zero_spec().add_spec(w.mul_spec(x)).add_spec(b);
            let e = t.sub_spec(prediction);
            let step = model.learning_rate.mul_spec(S::one_spec());
            let after = model.train(seq![x], seq![t]);
            &&& model.output(seq![x]) == seq![prediction]
            &&& after.weights[0].entries == seq![
                w.add_spec(S::zero_spec().add_spec(e.mul_spec(x)).mul_spec(step)),
            ]
            &&& after.biases[0].entries == seq![
                b.add_spec(S::zero_spec().add_spec(e).mul_spec(step)),
            ]
        }),
{
    broadcast use vstd::arithmetic::mul::lemma_mul_nonnegative;

    let xs = seq![x];
    let ts = seq![t];
    let w = model.weights[0].entries[0];
    let b = model.biases[0].entries[0];
    let prediction = S::zero_spec().add_spec(w.mul_spec(x)).add_spec(b);
    let e = t.sub_spec(prediction);
    let column = MatrixModel::column(xs);
    assert(model.weights[0].wf() && model.biases[0].wf());
    assert(model.activation_of(xs, 0) == xs);
    assert(model.weights[0].at(0, 0) == w);
    assert(column.at(0, 0) == x);
    assert(dot_entry(model.weights[0], column, 0, 0) == S::zero_spec().add_spec(w.mul_spec(x))) by {
        reveal_with_fuel(crate::matrix::dot_prefix, 2);
    }
    let z = model.weighted_sum(xs, 1);
    assert(z =~= seq![prediction]);
    let a = model.activation_of(xs, 1);
    assert(a =~= seq![prediction]);
    let error = model.error_of(xs, ts, 1);
    assert(error =~= seq![e]);
    let g = model.sample_gradient(xs, ts);
    assert(g.d_weights[0].entries =~= seq![e.mul_spec(x)]);
    assert(g.d_biases[0].entries =~= seq![e]);
    let sum = GradientsModel::<S>::zero(model.layers).add(g);
    assert(sum.d_weights[0].entries =~= seq![S::zero_spec().add_spec(e.mul_spec(x))]);
    assert(sum.d_biases[0].entries =~= seq![S::zero_spec().add_spec(e)]);
    let after = model.train(xs, ts);
    let step = model.learning_rate.mul_spec(S::one_spec());
    assert(after.weights[0].entries =~= seq![
        w.add_spec(S::zero_spec().add_spec(e.mul_spec(x)).mul_spec(step)),
    ]);
    assert(after.biases[0].entries =~= seq![b.add_spec(S::zero_spec().add_spec(e).mul_spec(step))]);
}

} // verus!
