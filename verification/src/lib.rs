//! A small feed-forward neural network engine with verified kernels.
//!
//! The engine is written over an abstract [`scalar::Scalar`]. Every kernel
//! is proved to stay inside its buffers and to compute exactly the
//! expression that its contract gives, built from the scalar's own
//! operations in the order in which they are evaluated.
//!
//! - [`scalar`]: the arithmetic the engine needs, and [`fixed`], a
//!   fixed-point number that provides it.
//! - [`matrix`]: dense row-major matrices and their kernels.
//! - [`activation`]: nonlinearities with their derivatives.
//! - [`layout`]: the shapes that layer widths give to a network's matrices.
//! - [`gradients`]: gradient accumulators.
//! - [`network`]: inference and single-sample training.
//! - [`batch`]: mini-batch training over chunks of a batch.

pub mod scalar;
pub mod fixed;
pub mod matrix;
pub mod activation;
pub mod layout;
pub mod gradients;
pub mod network;
pub mod batch;
mod random;
