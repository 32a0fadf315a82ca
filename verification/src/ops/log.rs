//! Natural logarithm: forward `ln(a)`; the gradient is `g / a`.

use vstd::prelude::*;
use crate::backend::Backend;
use crate::ops::{lemma_views, op_error, owned_views, views, Op, OpError, OpId, OpResult};
use crate::scalar::Scalar;
use crate::tensor::Tensor;

verus! {

/// The operator `Log`.
#[derive(Clone, Copy, Debug)]
pub struct Log;

impl<E: Scalar, B: Backend<E>> Op<E, B> for Log {
    open spec fn op_id(&self) -> OpId {
        OpId::Log
    }

    fn id(&self) -> (id: OpId) {
        OpId::Log
    }

    fn name(&self) -> &'static str {
        "Log"
    }

    fn forward(&self, inputs: &[&Tensor<E, B>]) -> (r: OpResult<Tensor<E, B>>) {
        if inputs.len() != 1 {
            return Err(op_error("Log requires 1 input"));
        }
        proof {
            lemma_views(inputs@);
            assert(views(inputs@)[0] == inputs@[0]@);
        }
        match inputs[0].log() {
            Ok(y) => Ok(y),
            Err(e) => Err(OpError(e.to_string())),
        }
    }

    fn backward(
        &self,
        grad_out: &Tensor<E, B>,
        inputs: &[&Tensor<E, B>],
        fwd_output: &Tensor<E, B>,
    ) -> (r: OpResult<Vec<Tensor<E, B>>>) {
        if inputs.len() != 1 {
            return Err(op_error("Log backward requires 1 input"));
        }
        proof {
            lemma_views(inputs@);
            assert(views(inputs@)[0] == inputs@[0]@);
        }
        let input = inputs[0];
        let grad = match grad_out.div(input) {
            Ok(t) => t,
            Err(e) => {
                return Err(OpError(e.to_string()));
            },
        };
        let grads = vec![grad];
        proof {
            assert(owned_views(grads@) =~= seq![grad@]);
        }
        Ok(grads)
    }
}

} // verus!
