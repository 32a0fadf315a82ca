//! Element-wise addition: forward `a + b`; each input receives the output gradient.

use vstd::prelude::*;
use crate::backend::Backend;
use crate::ops::{lemma_views, op_error, owned_views, views, Op, OpError, OpId, OpResult};
use crate::scalar::Scalar;
use crate::tensor::Tensor;

verus! {

/// The operator `Add`.
#[derive(Clone, Copy, Debug)]
pub struct Add;

impl<E: Scalar, B: Backend<E>> Op<E, B> for Add {
    open spec fn op_id(&self) -> OpId {
        OpId::Add
    }

    fn id(&self) -> (id: OpId) {
        OpId::Add
    }

    fn name(&self) -> &'static str {
        "Add"
    }

    fn forward(&self, inputs: &[&Tensor<E, B>]) -> (r: OpResult<Tensor<E, B>>) {
        if inputs.len() != 2 {
            return Err(op_error("Add requires 2 inputs"));
        }
        proof {
            lemma_views(inputs@);
            assert(views(inputs@)[0] == inputs@[0]@);
            assert(views(inputs@)[1] == inputs@[1]@);
        }
        match inputs[0].add(inputs[1]) {
            Ok(y) => Ok(y),
            Err(e) => Err(OpError(e.to_string())),
        }
    }

    fn backward(
        &self,
        grad_out: &Tensor<E, B>,
        inputs: &[&Tensor<E, B>],
        fwd_output: &Tensor<E, B>,
    ) -> (r: OpResult<Vec<Tensor<E, B>>>) {
        if inputs.len() != 2 {
            return Err(op_error("Add backward requires 2 inputs"));
        }
        proof {
            lemma_views(inputs@);
            assert(views(inputs@)[0] == inputs@[0]@);
            assert(views(inputs@)[1] == inputs@[1]@);
        }
        if !grad_out.shape().same_as(inputs[0].shape()) || !grad_out.shape().same_as(
            inputs[1].shape(),
        ) {
            return Err(op_error("Add backward: same-shape only"));
        }
        let grads = vec![grad_out.clone(), grad_out.clone()];
        proof {
            assert(owned_views(grads@) =~= seq![grad_out@, grad_out@]);
        }
        Ok(grads)
    }
}

} // verus!
