//! A small verified feedforward neural-network engine: dense layers with
//! ReLU hidden activations and a softmax output layer, built by a validating
//! builder, evaluated by forward propagation, and trained by backpropagation
//! with plain gradient descent.
//!
//! Every scalar is an IEEE-754 binary64 value carried as its 64-bit pattern
//! (`u64`), so that the verified code can state exactly which operations are
//! applied to which values while the rounding behaviour itself stays with the
//! hardware.

pub mod network;
pub mod scalar;
