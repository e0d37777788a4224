//! The shapes that a list of layer widths gives to the matrices of a
//! network: one weight matrix and one bias vector for each step between
//! layers, one column vector for each layer.
use vstd::prelude::*;
use crate::matrix::{Matrix, MatrixModel};
use crate::scalar::Scalar;

verus! {

/// The values of a list of matrices.
pub open spec fn models<S: Scalar>(v: Seq<Matrix<S>>) -> Seq<MatrixModel<S>> {
    Seq::new(v.len(), |i: int| v[i]@)
}

/// Every matrix of the list is well formed.
pub open spec fn all_wf<S: Scalar>(v: Seq<Matrix<S>>) -> bool {
    forall|i: int| 0 <= i < v.len() ==> (#[trigger] v[i]).wf()
}

/// The list holds one `layers[i + 1] x layers[i]` matrix for each step
/// between layers.
pub open spec fn weight_shapes<S: Scalar>(v: Seq<MatrixModel<S>>, layers: Seq<usize>) -> bool {
    &&& v.len() == layers.len() - 1
    &&& forall|i: int|
        0 <= i < v.len() ==> (#[trigger] v[i]).rows == layers[i + 1] && v[i].cols == layers[i]
}

/// The list holds one column vector of `layers[i + 1]` entries for each
/// step between layers.
pub open spec fn bias_shapes<S: Scalar>(v: Seq<MatrixModel<S>>, layers: Seq<usize>) -> bool {
    &&& v.len() == layers.len() - 1
    &&& forall|i: int| 0 <= i < v.len() ==> (#[trigger] v[i]).rows == layers[i + 1] && v[i].cols == 1
}

/// The list holds one column vector of `layers[i]` entries for each layer.
pub open spec fn layer_shapes<S: Scalar>(v: Seq<MatrixModel<S>>, layers: Seq<usize>) -> bool {
    &&& v.len() == layers.len()
    &&& forall|i: int| 0 <= i < v.len() ==> (#[trigger] v[i]).rows == layers[i] && v[i].cols == 1
}

/// Each step's weight matrix fits in memory.
pub open spec fn layers_fit(layers: Seq<usize>) -> bool {
    forall|i: int| 0 <= i < layers.len() - 1 ==> #[trigger] layers[i + 1] * layers[i] <= usize::MAX
}

/// Replacing one matrix of a list of per-layer column vectors by a
/// well-formed matrix of the same shape keeps the list in shape.
pub proof fn lemma_layer_shapes_kept<S: Scalar>(
    before: Seq<Matrix<S>>,
    after: Seq<Matrix<S>>,
    layers: Seq<usize>,
    k: int,
)
    requires
        all_wf(before),
        layer_shapes(models(before), layers),
        after.len() == before.len(),
        0 <= k < before.len(),
        forall|l: int| 0 <= l < before.len() && l != k ==> after[l] == before[l],
        after[k].wf(),
        after[k].rows == before[k].rows,
        after[k].cols == before[k].cols,
    ensures
        all_wf(after),
        layer_shapes(models(after), layers),
{
    assert forall|l: int| 0 <= l < after.len() implies (#[trigger] after[l]).wf() by {
        assert(before[l].wf());
    }
    assert forall|l: int| 0 <= l < after.len() implies (#[trigger] models(after)[l]).rows
        == layers[l] && models(after)[l].cols == 1 by {
        assert(models(before)[l].rows == layers[l]);
    }
}

/// Replacing one matrix of a list of per-step weight-shaped matrices by a
/// well-formed matrix of the same shape keeps the list in shape.
pub proof fn lemma_weight_shapes_kept<S: Scalar>(
    before: Seq<Matrix<S>>,
    after: Seq<Matrix<S>>,
    layers: Seq<usize>,
    k: int,
)
    requires
        all_wf(before),
        weight_shapes(models(before), layers),
        after.len() == before.len(),
        0 <= k < before.len(),
        forall|l: int| 0 <= l < before.len() && l != k ==> after[l] == before[l],
        after[k].wf(),
        after[k].rows == before[k].rows,
        after[k].cols == before[k].cols,
    ensures
        all_wf(after),
        weight_shapes(models(after), layers),
{
    assert forall|l: int| 0 <= l < after.len() implies (#[trigger] after[l]).wf() by {
        assert(before[l].wf());
    }
    assert forall|l: int| 0 <= l < after.len() implies (#[trigger] models(after)[l]).rows
        == layers[l + 1] && models(after)[l].cols == layers[l] by {
        assert(models(before)[l].rows == layers[l + 1]);
    }
}

/// Replacing one matrix of a list of per-step bias vectors by a well-formed
/// matrix of the same shape keeps the list in shape.
pub proof fn lemma_bias_shapes_kept<S: Scalar>(
    before: Seq<Matrix<S>>,
    after: Seq<Matrix<S>>,
    layers: Seq<usize>,
    k: int,
)
    requires
        all_wf(before),
        bias_shapes(models(before), layers),
        after.len() == before.len(),
        0 <= k < before.len(),
        forall|l: int| 0 <= l < before.len() && l != k ==> after[l] == before[l],
        after[k].wf(),
        after[k].rows == before[k].rows,
        after[k].cols == before[k].cols,
    ensures
        all_wf(after),
        bias_shapes(models(after), layers),
{
    assert forall|l: int| 0 <= l < after.len() implies (#[trigger] after[l]).wf() by {
        assert(before[l].wf());
    }
    assert forall|l: int| 0 <= l < after.len() implies (#[trigger] models(after)[l]).rows
        == layers[l + 1] && models(after)[l].cols == 1 by {
        assert(models(before)[l].rows == layers[l + 1]);
    }
}

/// What a list of per-layer column vectors in shape says of one of them.
pub proof fn lemma_layer_shape_at<S: Scalar>(v: Seq<Matrix<S>>, layers: Seq<usize>, k: int)
    requires
        all_wf(v),
        layer_shapes(models(v), layers),
        0 <= k < v.len(),
    ensures
        v[k].wf(),
        v[k].rows == layers[k],
        v[k].cols == 1,
        v[k].data@.len() == layers[k],
{
    assert(v[k].wf());
    assert(models(v)[k].rows == layers[k]);
    assert(v[k].rows * v[k].cols == v[k].rows) by (nonlinear_arith)
        requires
            v[k].cols == 1,
    ;
}

/// What a list of per-step weight-shaped matrices in shape says of one of
/// them.
pub proof fn lemma_weight_shape_at<S: Scalar>(v: Seq<Matrix<S>>, layers: Seq<usize>, k: int)
    requires
        all_wf(v),
        weight_shapes(models(v), layers),
        0 <= k < v.len(),
    ensures
        v[k].wf(),
        v[k].rows == layers[k + 1],
        v[k].cols == layers[k],
        v[k].data@.len() == layers[k + 1] * layers[k],
{
    assert(v[k].wf());
    assert(models(v)[k].rows == layers[k + 1]);
}

/// What a list of per-step bias vectors in shape says of one of them.
pub proof fn lemma_bias_shape_at<S: Scalar>(v: Seq<Matrix<S>>, layers: Seq<usize>, k: int)
    requires
        all_wf(v),
        bias_shapes(models(v), layers),
        0 <= k < v.len(),
    ensures
        v[k].wf(),
        v[k].rows == layers[k + 1],
        v[k].cols == 1,
        v[k].data@.len() == layers[k + 1],
{
    assert(v[k].wf());
    assert(models(v)[k].rows == layers[k + 1]);
    assert(v[k].rows * v[k].cols == v[k].rows) by (nonlinear_arith)
        requires
            v[k].cols == 1,
    ;
}

/// Whether the widths describe a network whose matrices fit in memory: at
/// least two layers, and `layers[i + 1] * layers[i]` within `usize` for each
/// step.
pub fn valid_layers(layers: &[usize]) -> (b: bool)
    ensures
        b == (layers@.len() >= 2 && layers_fit(layers@)),
{
    if layers.len() < 2 {
        return false;
    }
    let steps: usize = layers.len() - 1;
    let mut i: usize = 0;
    while i < steps
        invariant
            steps == layers@.len() - 1,
            i <= steps,
            forall|p: int| 0 <= p < i ==> #[trigger] layers@[p + 1] * layers@[p] <= usize::MAX,
        decreases steps - i,
    {
        if layers[i + 1].checked_mul(layers[i]).is_none() {
            assert(!(layers@[i + 1] * layers@[i as int] <= usize::MAX));
            return false;
        }
        i += 1;
    }
    true
}

} // verus!
