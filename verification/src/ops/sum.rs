//! Sum of all elements: forward a one-element array; the gradient gives
//! every input element the gradient of the output.

use vstd::prelude::*;
use crate::kernels::{ones_rel, scale_rel};
use crate::backend::Backend;
use crate::ops::{lemma_views, op_error, owned_views, views, Op, OpError, OpId, OpResult};
use crate::scalar::Scalar;
use crate::tensor::Tensor;

verus! {

/// The operator `Sum`.
#[derive(Clone, Copy, Debug)]
pub struct Sum;

impl<E: Scalar, B: Backend<E>> Op<E, B> for Sum {
    open spec fn op_id(&self) -> OpId {
        OpId::Sum
    }

    fn id(&self) -> (id: OpId) {
        OpId::Sum
    }

    fn name(&self) -> &'static str {
        "Sum"
    }

    fn forward(&self, inputs: &[&Tensor<E, B>]) -> (r: OpResult<Tensor<E, B>>) {
        if inputs.len() != 1 {
            return Err(op_error("Sum requires 1 input"));
        }
        proof {
            lemma_views(inputs@);
            assert(views(inputs@)[0] == inputs@[0]@);
        }
        match inputs[0].sum() {
            Ok(y) => Ok(y),
            Err(e) => Err(OpError(e.to_string())),
        }
    }

    fn backward(
        &self,
        grad_out: &Tensor<E, B>,
        inputs: &[&Tensor<E, B>],
        fwd_output: &Tensor<E, B>,
    ) -> (r: OpResult<Vec<Tensor<E, B>>>) {
        if inputs.len() != 1 {
            return Err(op_error("Sum backward requires 1 input"));
        }
        proof {
            lemma_views(inputs@);
            assert(views(inputs@)[0] == inputs@[0]@);
        }
        let input = inputs[0];
        if grad_out.numel() != 1 {
            return Err(op_error("Sum backward: grad_out must be scalar"));
        }
        let scalar = grad_out.data()[0];
        let backend = input.backend();
        let ones = match backend.ones(input.shape()) {
            Ok(t) => t,
            Err(e) => {
                return Err(OpError(e.to_string()));
            },
        };
        let grad = match ones.scale(scalar) {
            Ok(t) => t,
            Err(e) => {
                return Err(OpError(e.to_string()));
            },
        };
        proof {
            assert(ones_rel(input@.dims, ones@) && scale_rel(ones@, scalar, grad@));
        }
        let grads = vec![grad];
        proof {
            assert(owned_views(grads@) =~= seq![grad@]);
        }
        Ok(grads)
    }
}

} // verus!
