//! Gradient accumulators: one weight and one bias gradient per layer.
use vstd::prelude::*;
use crate::layout::{
    all_wf, bias_shapes, layers_fit, lemma_bias_shape_at, lemma_weight_shape_at, models,
    weight_shapes,
};
use crate::matrix::{add_model, scale_model, Matrix, MatrixModel};
use crate::scalar::{add_is_associative, zero_is_left_identity, Scalar};

verus! {

/// A running sum of parameter gradients, laid out like the parameters
/// themselves: `d_weights[i]` and `d_biases[i]` belong to the step from
/// layer `i` to layer `i + 1`.
pub struct Gradients<S: Scalar> {
    pub d_weights: Vec<Matrix<S>>,
    pub d_biases: Vec<Matrix<S>>,
}

/// The mathematical value of a [`Gradients`].
pub struct GradientsModel<S> {
    pub d_weights: Seq<MatrixModel<S>>,
    pub d_biases: Seq<MatrixModel<S>>,
}

impl<S: Scalar> View for Gradients<S> {
    type V = GradientsModel<S>;

    open spec fn view(&self) -> GradientsModel<S> {
        GradientsModel { d_weights: models(self.d_weights@), d_biases: models(self.d_biases@) }
    }
}

impl<S: Scalar> GradientsModel<S> {
    /// The all-zero accumulator for the given layer widths.
    pub open spec fn zero(layers: Seq<usize>) -> GradientsModel<S> {
        GradientsModel {
            d_weights: Seq::new(
                (layers.len() - 1) as nat,
                |i: int| MatrixModel::<S>::zeros(layers[i + 1] as nat, layers[i] as nat),
            ),
            d_biases: Seq::new(
                (layers.len() - 1) as nat,
                |i: int| MatrixModel::<S>::zeros(layers[i + 1] as nat, 1),
            ),
        }
    }

    /// The accumulator with every entry replaced by zero.
    pub open spec fn zeroed(self) -> GradientsModel<S> {
        GradientsModel {
            d_weights: Seq::new(
                self.d_weights.len(),
                |i: int|
                    MatrixModel {
                        rows: self.d_weights[i].rows,
                        cols: self.d_weights[i].cols,
                        entries: Seq::new(self.d_weights[i].entries.len(), |k: int| S::zero_spec()),
                    },
            ),
            d_biases: Seq::new(
                self.d_biases.len(),
                |i: int|
                    MatrixModel {
                        rows: self.d_biases[i].rows,
                        cols: self.d_biases[i].cols,
                        entries: Seq::new(self.d_biases[i].entries.len(), |k: int| S::zero_spec()),
                    },
            ),
        }
    }

    /// The entrywise sum `self + other`.
    pub open spec fn add(self, other: GradientsModel<S>) -> GradientsModel<S> {
        GradientsModel {
            d_weights: Seq::new(
                self.d_weights.len(),
                |i: int| add_model(self.d_weights[i], other.d_weights[i]),
            ),
            d_biases: Seq::new(
                self.d_biases.len(),
                |i: int| add_model(self.d_biases[i], other.d_biases[i]),
            ),
        }
    }

    /// Every entry multiplied by `factor`.
    pub open spec fn scale(self, factor: S) -> GradientsModel<S> {
        GradientsModel {
            d_weights: Seq::new(
                self.d_weights.len(),
                |i: int| scale_model(self.d_weights[i], factor),
            ),
            d_biases: Seq::new(self.d_biases.len(), |i: int| scale_model(self.d_biases[i], factor)),
        }
    }

    /// The accumulator has the layout of the parameters of a network with
    /// the given layer widths.
    pub open spec fn shaped_for(self, layers: Seq<usize>) -> bool {
        &&& layers.len() >= 1
        &&& weight_shapes(self.d_weights, layers)
        &&& bias_shapes(self.d_biases, layers)
        &&& forall|i: int| 0 <= i < self.d_weights.len() ==> (#[trigger] self.d_weights[i]).wf()
        &&& forall|i: int| 0 <= i < self.d_biases.len() ==> (#[trigger] self.d_biases[i]).wf()
    }

    /// The sum of `parts`, added one after another to the zero accumulator.
    pub open spec fn merge(layers: Seq<usize>, parts: Seq<GradientsModel<S>>) -> GradientsModel<S>
        decreases parts.len(),
    {
        if parts.len() == 0 {
            GradientsModel::zero(layers)
        } else {
            GradientsModel::merge(layers, parts.drop_last()).add(parts.last())
        }
    }
}

/// Where sums can be regrouped, so can sums of matrices.
pub proof fn lemma_add_model_associative<S: Scalar>(
    a: MatrixModel<S>,
    b: MatrixModel<S>,
    c: MatrixModel<S>,
)
    requires
        add_is_associative::<S>(),
        a.entries.len() == b.entries.len(),
    ensures
        add_model(add_model(a, b), c) == add_model(a, add_model(b, c)),
{
    assert(add_model(add_model(a, b), c).entries =~= add_model(a, add_model(b, c)).entries);
}

/// Where adding to zero changes nothing, adding to the zero matrix changes
/// nothing.
pub proof fn lemma_zeros_add<S: Scalar>(d: MatrixModel<S>)
    requires
        zero_is_left_identity::<S>(),
        d.wf(),
    ensures
        add_model(MatrixModel::<S>::zeros(d.rows, d.cols), d) == d,
{
    assert(add_model(MatrixModel::<S>::zeros(d.rows, d.cols), d).entries =~= d.entries);
}

/// The zero accumulator has the layout it was made for.
pub proof fn lemma_zero_shaped<S: Scalar>(layers: Seq<usize>)
    requires
        layers.len() >= 1,
    ensures
        GradientsModel::<S>::zero(layers).shaped_for(layers),
{
}

/// A sum has the layout of its left operand.
pub proof fn lemma_add_shaped<S: Scalar>(
    g: GradientsModel<S>,
    d: GradientsModel<S>,
    layers: Seq<usize>,
)
    requires
        g.shaped_for(layers),
    ensures
        g.add(d).shaped_for(layers),
{
    assert forall|i: int| 0 <= i < g.add(d).d_weights.len() implies (#[trigger] g.add(
        d,
    ).d_weights[i]).wf() by {
        assert(g.d_weights[i].wf());
    }
    assert forall|i: int| 0 <= i < g.add(d).d_biases.len() implies (#[trigger] g.add(
        d,
    ).d_biases[i]).wf() by {
        assert(g.d_biases[i].wf());
    }
}

/// Where sums can be regrouped, so can sums of accumulators of one layout.
pub proof fn lemma_gradients_add_associative<S: Scalar>(
    a: GradientsModel<S>,
    b: GradientsModel<S>,
    c: GradientsModel<S>,
    layers: Seq<usize>,
)
    requires
        add_is_associative::<S>(),
        a.shaped_for(layers),
        b.shaped_for(layers),
    ensures
        a.add(b).add(c) == a.add(b.add(c)),
{
    let left = a.add(b).add(c);
    let right = a.add(b.add(c));
    assert forall|i: int| 0 <= i < left.d_weights.len() implies left.d_weights[i]
        == right.d_weights[i] by {
        assert(a.d_weights[i].wf() && b.d_weights[i].wf());
        lemma_add_model_associative(a.d_weights[i], b.d_weights[i], c.d_weights[i]);
    }
    assert forall|i: int| 0 <= i < left.d_biases.len() implies left.d_biases[i] == right.d_biases[i] by {
        assert(a.d_biases[i].wf() && b.d_biases[i].wf());
        lemma_add_model_associative(a.d_biases[i], b.d_biases[i], c.d_biases[i]);
    }
    assert(left.d_weights =~= right.d_weights);
    assert(left.d_biases =~= right.d_biases);
}

/// Where adding to zero changes nothing, adding to the zero accumulator
/// changes nothing.
pub proof fn lemma_gradients_zero_add<S: Scalar>(d: GradientsModel<S>, layers: Seq<usize>)
    requires
        zero_is_left_identity::<S>(),
        d.shaped_for(layers),
    ensures
        GradientsModel::<S>::zero(layers).add(d) == d,
{
    let sum = GradientsModel::<S>::zero(layers).add(d);
    assert forall|i: int| 0 <= i < sum.d_weights.len() implies sum.d_weights[i] == d.d_weights[i] by {
        assert(d.d_weights[i].wf());
        lemma_zeros_add(d.d_weights[i]);
    }
    assert forall|i: int| 0 <= i < sum.d_biases.len() implies sum.d_biases[i] == d.d_biases[i] by {
        assert(d.d_biases[i].wf());
        lemma_zeros_add(d.d_biases[i]);
    }
    assert(sum.d_weights =~= d.d_weights);
    assert(sum.d_biases =~= d.d_biases);
}

impl<S: Scalar> Gradients<S> {
    /// The accumulator has the layout of the parameters of a network with
    /// the given layer widths, and each of its matrices is well formed.
    pub open spec fn shaped_for(&self, layers: Seq<usize>) -> bool {
        &&& layers.len() >= 1
        &&& all_wf(self.d_weights@)
        &&& all_wf(self.d_biases@)
        &&& weight_shapes(self@.d_weights, layers)
        &&& bias_shapes(self@.d_biases, layers)
    }

    /// Both accumulators hold the same number of matrices, with buffers of
    /// the same lengths.
    pub open spec fn conforms_to(&self, other: &Gradients<S>) -> bool {
        &&& self.d_weights@.len() == other.d_weights@.len()
        &&& self.d_biases@.len() == other.d_biases@.len()
        &&& forall|i: int|
            0 <= i < self.d_weights@.len() ==> (#[trigger] self.d_weights@[i]).data@.len()
                == other.d_weights@[i].data@.len()
        &&& forall|i: int|
            0 <= i < self.d_biases@.len() ==> (#[trigger] self.d_biases@[i]).data@.len()
                == other.d_biases@[i].data@.len()
    }

    /// Two accumulators for the same layer widths conform to each other.
    pub proof fn lemma_same_layers_conform(&self, other: &Gradients<S>, layers: Seq<usize>)
        requires
            self.shaped_for(layers),
            other.shaped_for(layers),
        ensures
            self.conforms_to(other),
    {
        assert forall|i: int| 0 <= i < self.d_weights@.len() implies (
        #[trigger] self.d_weights@[i]).data@.len() == other.d_weights@[i].data@.len() by {
            lemma_weight_shape_at(self.d_weights@, layers, i);
            lemma_weight_shape_at(other.d_weights@, layers, i);
        }
        assert forall|i: int| 0 <= i < self.d_biases@.len() implies (
        #[trigger] self.d_biases@[i]).data@.len() == other.d_biases@[i].data@.len() by {
            lemma_bias_shape_at(self.d_biases@, layers, i);
            lemma_bias_shape_at(other.d_biases@, layers, i);
        }
    }

    /// A zero-filled accumulator for a network with the given layer widths.
    pub fn new(layers: &[usize]) -> (g: Gradients<S>)
        requires
            layers@.len() >= 1,
            layers_fit(layers@),
        ensures
            g@ == GradientsModel::<S>::zero(layers@),
            g.shaped_for(layers@),
    {
        let mut d_weights: Vec<Matrix<S>> = Vec::new();
        let mut d_biases: Vec<Matrix<S>> = Vec::new();
        let steps: usize = layers.len() - 1;
        let mut i: usize = 0;
        while i < steps
            invariant
                steps == layers@.len() - 1,
                layers_fit(layers@),
                i <= steps,
                d_weights@.len() == i,
                d_biases@.len() == i,
                forall|p: int|
                    0 <= p < i ==> (#[trigger] d_weights@[p]).wf() && d_weights@[p]@
                        == MatrixModel::<S>::zeros(layers@[p + 1] as nat, layers@[p] as nat),
                forall|p: int|
                    0 <= p < i ==> (#[trigger] d_biases@[p]).wf() && d_biases@[p]@
                        == MatrixModel::<S>::zeros(layers@[p + 1] as nat, 1),
            decreases steps - i,
        {
            let rows: usize = layers[i + 1];
            let cols: usize = layers[i];
            assert(layers@[i + 1] * layers@[i as int] <= usize::MAX);
            d_weights.push(Matrix::new(rows, cols));
            d_biases.push(Matrix::new(rows, 1));
            i += 1;
        }
        let g = Gradients { d_weights, d_biases };
        proof {
            assert(g@.d_weights =~= GradientsModel::<S>::zero(layers@).d_weights);
            assert(g@.d_biases =~= GradientsModel::<S>::zero(layers@).d_biases);
        }
        g
    }

    /// Overwrites every entry with zero.
    pub fn zero(&mut self)
        ensures
            final(self)@ == old(self)@.zeroed(),
            forall|layers: Seq<usize>| #[trigger]
                old(self).shaped_for(layers) ==> final(self).shaped_for(layers) && final(self)@
                    == GradientsModel::<S>::zero(layers),
    {
        let n: usize = self.d_weights.len();
        let mut i: usize = 0;
        while i < n
            invariant
                n == self.d_weights@.len(),
                n == old(self).d_weights@.len(),
                self.d_biases == old(self).d_biases,
                i <= n,
                forall|p: int|
                    0 <= p < i ==> (#[trigger] self.d_weights@[p])@ == old(self)@.zeroed().d_weights[p]
                        && (old(self).d_weights@[p].wf() ==> self.d_weights@[p].wf()),
                forall|p: int| i <= p < n ==> self.d_weights@[p] == old(self).d_weights@[p],
            decreases n - i,
        {
            self.d_weights[i].zeros();
            i += 1;
        }
        let m: usize = self.d_biases.len();
        let mut j: usize = 0;
        while j < m
            invariant
                m == self.d_biases@.len(),
                m == old(self).d_biases@.len(),
                n == self.d_weights@.len(),
                n == old(self).d_weights@.len(),
                forall|p: int|
                    0 <= p < n ==> (#[trigger] self.d_weights@[p])@ == old(self)@.zeroed().d_weights[p]
                        && (old(self).d_weights@[p].wf() ==> self.d_weights@[p].wf()),
                j <= m,
                forall|p: int|
                    0 <= p < j ==> (#[trigger] self.d_biases@[p])@ == old(self)@.zeroed().d_biases[p]
                        && (old(self).d_biases@[p].wf() ==> self.d_biases@[p].wf()),
                forall|p: int| j <= p < m ==> self.d_biases@[p] == old(self).d_biases@[p],
            decreases m - j,
        {
            self.d_biases[j].zeros();
            j += 1;
        }
        proof {
            assert(self@.d_weights =~= old(self)@.zeroed().d_weights);
            assert(self@.d_biases =~= old(self)@.zeroed().d_biases);
            assert forall|layers: Seq<usize>| #[trigger] old(self).shaped_for(layers) implies self.shaped_for(
                layers,
            ) && self@ == GradientsModel::<S>::zero(layers) by {
                let z = GradientsModel::<S>::zero(layers);
                assert forall|p: int| 0 <= p < n implies self@.d_weights[p] == z.d_weights[p] by {
                    assert(old(self).d_weights@[p].wf());
                    assert(old(self)@.d_weights[p].rows == layers[p + 1]);
                    assert(self@.d_weights[p].entries =~= z.d_weights[p].entries);
                }
                assert forall|p: int| 0 <= p < m implies self@.d_biases[p] == z.d_biases[p] by {
                    assert(old(self).d_biases@[p].wf());
                    assert(old(self)@.d_biases[p].rows == layers[p + 1]);
                    assert(self@.d_biases[p].entries =~= z.d_biases[p].entries);
                }
                assert(self@.d_weights =~= z.d_weights);
                assert(self@.d_biases =~= z.d_biases);
            }
        }
    }

    /// Adds `other` to `self`, entry by entry.
    pub fn add(&mut self, other: &Gradients<S>)
        requires
            old(self).conforms_to(other),
        ensures
            final(self)@ == old(self)@.add(other@),
            forall|layers: Seq<usize>| #[trigger]
                old(self).shaped_for(layers) ==> final(self).shaped_for(layers),
    {
        let n: usize = self.d_weights.len();
        let mut i: usize = 0;
        while i < n
            invariant
                old(self).conforms_to(other),
                n == self.d_weights@.len(),
                n == old(self).d_weights@.len(),
                self.d_biases == old(self).d_biases,
                i <= n,
                forall|p: int|
                    0 <= p < i ==> (#[trigger] self.d_weights@[p])@ == add_model(
                        old(self).d_weights@[p]@,
                        other.d_weights@[p]@,
                    ) && self.d_weights@[p].wf() == old(self).d_weights@[p].wf(),
                forall|p: int| i <= p < n ==> self.d_weights@[p] == old(self).d_weights@[p],
            decreases n - i,
        {
            self.d_weights[i].accumulate(&other.d_weights[i]);
            i += 1;
        }
        let m: usize = self.d_biases.len();
        let mut j: usize = 0;
        while j < m
            invariant
                old(self).conforms_to(other),
                m == self.d_biases@.len(),
                m == old(self).d_biases@.len(),
                n == self.d_weights@.len(),
                n == old(self).d_weights@.len(),
                forall|p: int|
                    0 <= p < n ==> (#[trigger] self.d_weights@[p])@ == add_model(
                        old(self).d_weights@[p]@,
                        other.d_weights@[p]@,
                    ) && self.d_weights@[p].wf() == old(self).d_weights@[p].wf(),
                j <= m,
                forall|p: int|
                    0 <= p < j ==> (#[trigger] self.d_biases@[p])@ == add_model(
                        old(self).d_biases@[p]@,
                        other.d_biases@[p]@,
                    ) && self.d_biases@[p].wf() == old(self).d_biases@[p].wf(),
                forall|p: int| j <= p < m ==> self.d_biases@[p] == old(self).d_biases@[p],
            decreases m - j,
        {
            self.d_biases[j].accumulate(&other.d_biases[j]);
            j += 1;
        }
        proof {
            assert(self@.d_weights =~= old(self)@.add(other@).d_weights);
            assert(self@.d_biases =~= old(self)@.add(other@).d_biases);
        }
    }

    /// Multiplies every entry by `factor`.
    pub fn scale(&mut self, factor: S)
        ensures
            final(self)@ == old(self)@.scale(factor),
            forall|layers: Seq<usize>| #[trigger]
                old(self).shaped_for(layers) ==> final(self).shaped_for(layers),
    {
        let n: usize = self.d_weights.len();
        let mut i: usize = 0;
        while i < n
            invariant
                n == self.d_weights@.len(),
                n == old(self).d_weights@.len(),
                self.d_biases == old(self).d_biases,
                i <= n,
                forall|p: int|
                    0 <= p < i ==> (#[trigger] self.d_weights@[p])@ == scale_model(
                        old(self).d_weights@[p]@,
                        factor,
                    ) && self.d_weights@[p].wf() == old(self).d_weights@[p].wf(),
                forall|p: int| i <= p < n ==> self.d_weights@[p] == old(self).d_weights@[p],
            decreases n - i,
        {
            self.d_weights[i].scale(factor);
            i += 1;
        }
        let m: usize = self.d_biases.len();
        let mut j: usize = 0;
        while j < m
            invariant
                m == self.d_biases@.len(),
                m == old(self).d_biases@.len(),
                n == self.d_weights@.len(),
                n == old(self).d_weights@.len(),
                forall|p: int|
                    0 <= p < n ==> (#[trigger] self.d_weights@[p])@ == scale_model(
                        old(self).d_weights@[p]@,
                        factor,
                    ) && self.d_weights@[p].wf() == old(self).d_weights@[p].wf(),
                j <= m,
                forall|p: int|
                    0 <= p < j ==> (#[trigger] self.d_biases@[p])@ == scale_model(
                        old(self).d_biases@[p]@,
                        factor,
                    ) && self.d_biases@[p].wf() == old(self).d_biases@[p].wf(),
                forall|p: int| j <= p < m ==> self.d_biases@[p] == old(self).d_biases@[p],
            decreases m - j,
        {
            self.d_biases[j].scale(factor);
            j += 1;
        }
        proof {
            assert(self@.d_weights =~= old(self)@.scale(factor).d_weights);
            assert(self@.d_biases =~= old(self)@.scale(factor).d_biases);
        }
    }
}

} // verus!
