//! Element-wise multiplication: forward `a * b`; the gradients are `g * b` and `g * a`.

use vstd::prelude::*;
use crate::backend::Backend;
use crate::ops::{lemma_views, op_error, owned_views, views, Op, OpError, OpId, OpResult};
use crate::scalar::Scalar;
use crate::tensor::Tensor;

verus! {

/// The operator `Mul`.
#[derive(Clone, Copy, Debug)]
pub struct Mul;

impl<E: Scalar, B: Backend<E>> Op<E, B> for Mul {
    open spec fn op_id(&self) -> OpId {
        OpId::Mul
    }

    fn id(&self) -> (id: OpId) {
        OpId::Mul
    }

    fn name(&self) -> &'static str {
        "Mul"
    }

    fn forward(&self, inputs: &[&Tensor<E, B>]) -> (r: OpResult<Tensor<E, B>>) {
        if inputs.len() != 2 {
            return Err(op_error("Mul requires 2 inputs"));
        }
        proof {
            lemma_views(inputs@);
            assert(views(inputs@)[0] == inputs@[0]@);
            assert(views(inputs@)[1] == inputs@[1]@);
        }
        match inputs[0].mul(inputs[1]) {
            Ok(y) => Ok(y),
            Err(e) => Err(OpError(e.to_string())),
        }
    }

    fn backward(
        &self,
        grad_out: &Tensor<E, B>,
        inputs: &[&Tensor<E, B>],
        fwd_output: &Tensor<E, B>,
    ) -> (r: OpResult<Vec<Tensor<E, B>>>) {
        if inputs.len() != 2 {
            return Err(op_error("Mul backward requires 2 inputs"));
        }
        proof {
            lemma_views(inputs@);
            assert(views(inputs@)[0] == inputs@[0]@);
            assert(views(inputs@)[1] == inputs@[1]@);
        }
        let grad_a = match grad_out.mul(inputs[1]) {
            Ok(t) => t,
            Err(e) => {
                return Err(OpError(e.to_string()));
            },
        };
        let grad_b = match grad_out.mul(inputs[0]) {
            Ok(t) => t,
            Err(e) => {
                return Err(OpError(e.to_string()));
            },
        };
        let grads = vec![grad_a, grad_b];
        proof {
            assert(owned_views(grads@) =~= seq![grad_a@, grad_b@]);
        }
        Ok(grads)
    }
}

} // verus!
