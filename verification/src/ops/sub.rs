//! Element-wise subtraction: forward `a - b`; the gradients are `g` and `-g`.

use vstd::prelude::*;
use crate::kernels::scale_rel;
use crate::ops::is_minus_one;
use crate::scalar::{is_neg, is_one};
use crate::backend::Backend;
use crate::ops::{lemma_views, op_error, owned_views, views, Op, OpError, OpId, OpResult};
use crate::scalar::Scalar;
use crate::tensor::Tensor;

verus! {

/// The operator `Sub`.
#[derive(Clone, Copy, Debug)]
pub struct Sub;

impl<E: Scalar, B: Backend<E>> Op<E, B> for Sub {
    open spec fn op_id(&self) -> OpId {
        OpId::Sub
    }

    fn id(&self) -> (id: OpId) {
        OpId::Sub
    }

    fn name(&self) -> &'static str {
        "Sub"
    }

    fn forward(&self, inputs: &[&Tensor<E, B>]) -> (r: OpResult<Tensor<E, B>>) {
        if inputs.len() != 2 {
            return Err(op_error("Sub requires 2 inputs"));
        }
        proof {
            lemma_views(inputs@);
            assert(views(inputs@)[0] == inputs@[0]@);
            assert(views(inputs@)[1] == inputs@[1]@);
        }
        match inputs[0].sub(inputs[1]) {
            Ok(y) => Ok(y),
            Err(e) => Err(OpError(e.to_string())),
        }
    }

    fn backward(
        &self,
        grad_out: &Tensor<E, B>,
        inputs: &[&Tensor<E, B>],
        fwd_output: &Tensor<E, B>,
    ) -> (r: OpResult<Vec<Tensor<E, B>>>) {
        if inputs.len() != 2 {
            return Err(op_error("Sub backward requires 2 inputs"));
        }
        proof {
            lemma_views(inputs@);
            assert(views(inputs@)[0] == inputs@[0]@);
            assert(views(inputs@)[1] == inputs@[1]@);
        }
        let one = E::one();
        let minus_one = one.neg();
        let neg = match grad_out.scale(minus_one) {
            Ok(t) => t,
            Err(e) => {
                return Err(OpError(e.to_string()));
            },
        };
        proof {
            assert(is_one(one) && is_neg(one, minus_one));
            assert(is_minus_one(minus_one) && scale_rel(grad_out@, minus_one, neg@));
        }
        let grads = vec![grad_out.clone(), neg];
        proof {
            assert(owned_views(grads@) =~= seq![grad_out@, neg@]);
        }
        Ok(grads)
    }
}

} // verus!
