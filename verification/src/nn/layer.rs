//! Layers: modules that are a single step of a model.

use vstd::prelude::*;
use crate::backend::Backend;
use crate::nn::module::Module;
use crate::scalar::Scalar;

verus! {

/// A single-step module, such as a linear map or an activation.
pub trait Layer<E: Scalar, B: Backend<E>>: Module<E, B> {
}

} // verus!
