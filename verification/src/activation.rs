//! Nonlinearities: a function paired with its derivative.
use vstd::prelude::*;
use crate::scalar::Scalar;

verus! {

/// A nonlinearity that a network applies to its weighted sums, together
/// with the derivative that backpropagation needs.
///
/// As with [`Scalar`], each method returns exactly the value that its
/// specification function names.
pub trait Activation<S: Scalar>: Copy {
    /// The value `g(x)`.
    spec fn function_spec(&self, x: S) -> S;

    /// The slope `g'(x)`, taken at the weighted sum `x`.
    spec fn derivative_spec(&self, x: S) -> S;

    fn function(&self, x: S) -> (y: S)
        ensures
            y == self.function_spec(x),
    ;

    fn derivative(&self, x: S) -> (y: S)
        ensures
            y == self.derivative_spec(x),
    ;
}

/// `max(x, 0)`: `x` where it is positive, zero elsewhere.
pub open spec fn relu_spec<S: Scalar>(x: S) -> S {
    if x.is_positive_spec() {
        x
    } else {
        S::zero_spec()
    }
}

/// The slope of [`relu_spec`]: one where `x` is positive, zero elsewhere.
pub open spec fn relu_derivative_spec<S: Scalar>(x: S) -> S {
    if x.is_positive_spec() {
        S::one_spec()
    } else {
        S::zero_spec()
    }
}

/// The rectified-linear function.
pub fn relu<S: Scalar>(x: S) -> (y: S)
    ensures
        y == relu_spec(x),
{
    if x.is_positive() {
        x
    } else {
        S::zero()
    }
}

/// The derivative of the rectified-linear function.
pub fn relu_derivative<S: Scalar>(x: S) -> (y: S)
    ensures
        y == relu_derivative_spec(x),
{
    if x.is_positive() {
        S::one()
    } else {
        S::zero()
    }
}

/// The rectified-linear activation.
#[derive(Clone, Copy, Debug)]
pub struct Relu;

impl<S: Scalar> Activation<S> for Relu {
    open spec fn function_spec(&self, x: S) -> S {
        relu_spec(x)
    }

    open spec fn derivative_spec(&self, x: S) -> S {
        relu_derivative_spec(x)
    }

    fn function(&self, x: S) -> (y: S) {
        relu(x)
    }

    fn derivative(&self, x: S) -> (y: S) {
        relu_derivative(x)
    }
}

} // verus!
