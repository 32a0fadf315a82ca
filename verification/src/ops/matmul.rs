//! Matrix product: forward `a @ b`; the gradients are `g @ b^T` and `a^T @ g`.

use vstd::prelude::*;
use crate::backend::Backend;
use crate::ops::{lemma_views, op_error, owned_views, views, Op, OpError, OpId, OpResult};
use crate::scalar::Scalar;
use crate::tensor::Tensor;

verus! {

/// The operator `MatMul`.
#[derive(Clone, Copy, Debug)]
pub struct MatMul;

impl<E: Scalar, B: Backend<E>> Op<E, B> for MatMul {
    open spec fn op_id(&self) -> OpId {
        OpId::MatMul
    }

    fn id(&self) -> (id: OpId) {
        OpId::MatMul
    }

    fn name(&self) -> &'static str {
        "MatMul"
    }

    fn forward(&self, inputs: &[&Tensor<E, B>]) -> (r: OpResult<Tensor<E, B>>) {
        if inputs.len() != 2 {
            return Err(op_error("MatMul requires 2 inputs"));
        }
        proof {
            lemma_views(inputs@);
            assert(views(inputs@)[0] == inputs@[0]@);
            assert(views(inputs@)[1] == inputs@[1]@);
        }
        match inputs[0].matmul(inputs[1]) {
            Ok(y) => Ok(y),
            Err(e) => Err(OpError(e.to_string())),
        }
    }

    fn backward(
        &self,
        grad_out: &Tensor<E, B>,
        inputs: &[&Tensor<E, B>],
        fwd_output: &Tensor<E, B>,
    ) -> (r: OpResult<Vec<Tensor<E, B>>>) {
        if inputs.len() != 2 {
            return Err(op_error("MatMul backward requires 2 inputs"));
        }
        proof {
            lemma_views(inputs@);
            assert(views(inputs@)[0] == inputs@[0]@);
            assert(views(inputs@)[1] == inputs@[1]@);
        }
        let a = inputs[0];
        let b = inputs[1];
        let b_t = match b.transpose() {
            Ok(t) => t,
            Err(e) => {
                return Err(OpError(e.to_string()));
            },
        };
        let a_t = match a.transpose() {
            Ok(t) => t,
            Err(e) => {
                return Err(OpError(e.to_string()));
            },
        };
        let grad_a = match grad_out.matmul(&b_t) {
            Ok(t) => t,
            Err(e) => {
                return Err(OpError(e.to_string()));
            },
        };
        let grad_b = match a_t.matmul(grad_out) {
            Ok(t) => t,
            Err(e) => {
                return Err(OpError(e.to_string()));
            },
        };
        let grads = vec![grad_a, grad_b];
        proof {
            assert(owned_views(grads@) =~= seq![grad_a@, grad_b@]);
        }
        Ok(grads)
    }
}

} // verus!
