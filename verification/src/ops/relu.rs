//! Rectifier: forward `max(0, a)`; the gradient is `g` where `a` is positive.

use vstd::prelude::*;
use crate::backend::Backend;
use crate::ops::{lemma_views, op_error, owned_views, views, Op, OpError, OpId, OpResult};
use crate::scalar::Scalar;
use crate::tensor::Tensor;

verus! {

/// The operator `ReLU`.
#[derive(Clone, Copy, Debug)]
pub struct ReLU;

impl<E: Scalar, B: Backend<E>> Op<E, B> for ReLU {
    open spec fn op_id(&self) -> OpId {
        OpId::ReLU
    }

    fn id(&self) -> (id: OpId) {
        OpId::ReLU
    }

    fn name(&self) -> &'static str {
        "ReLU"
    }

    fn forward(&self, inputs: &[&Tensor<E, B>]) -> (r: OpResult<Tensor<E, B>>) {
        if inputs.len() != 1 {
            return Err(op_error("ReLU requires 1 input"));
        }
        proof {
            lemma_views(inputs@);
            assert(views(inputs@)[0] == inputs@[0]@);
        }
        match inputs[0].relu() {
            Ok(y) => Ok(y),
            Err(e) => Err(OpError(e.to_string())),
        }
    }

    fn backward(
        &self,
        grad_out: &Tensor<E, B>,
        inputs: &[&Tensor<E, B>],
        fwd_output: &Tensor<E, B>,
    ) -> (r: OpResult<Vec<Tensor<E, B>>>) {
        if inputs.len() != 1 {
            return Err(op_error("ReLU backward requires 1 input"));
        }
        proof {
            lemma_views(inputs@);
            assert(views(inputs@)[0] == inputs@[0]@);
        }
        let grad = match inputs[0].relu_backward(grad_out) {
            Ok(t) => t,
            Err(e) => {
                return Err(OpError(e.to_string()));
            },
        };
        let grads = vec![grad];
        proof {
            assert(owned_views(grads@) =~= seq![grad@]);
        }
        Ok(grads)
    }
}

} // verus!
