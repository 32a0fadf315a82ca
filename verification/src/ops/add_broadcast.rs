//! Addition of a vector to every row of a matrix: forward `a + b`; the
//! gradients are `g` and the column sums of `g`.

use vstd::prelude::*;
use vstd::slice::slice_to_vec;
use crate::kernels::{sum_dim_dims, sum_dim_rel};
use crate::shape::{lemma_product_single, Shape};
use crate::backend::Backend;
use crate::ops::{lemma_views, op_error, owned_views, views, Op, OpError, OpId, OpResult};
use crate::scalar::Scalar;
use crate::tensor::Tensor;

verus! {

/// The operator `AddBroadcast`.
#[derive(Clone, Copy, Debug)]
pub struct AddBroadcast;

impl<E: Scalar, B: Backend<E>> Op<E, B> for AddBroadcast {
    open spec fn op_id(&self) -> OpId {
        OpId::AddBroadcast
    }

    fn id(&self) -> (id: OpId) {
        OpId::AddBroadcast
    }

    fn name(&self) -> &'static str {
        "AddBroadcast"
    }

    fn forward(&self, inputs: &[&Tensor<E, B>]) -> (r: OpResult<Tensor<E, B>>) {
        if inputs.len() != 2 {
            return Err(op_error("AddBroadcast requires 2 inputs"));
        }
        proof {
            lemma_views(inputs@);
            assert(views(inputs@)[0] == inputs@[0]@);
            assert(views(inputs@)[1] == inputs@[1]@);
        }
        match inputs[0].add_broadcast(inputs[1]) {
            Ok(y) => Ok(y),
            Err(e) => Err(OpError(e.to_string())),
        }
    }

    fn backward(
        &self,
        grad_out: &Tensor<E, B>,
        inputs: &[&Tensor<E, B>],
        fwd_output: &Tensor<E, B>,
    ) -> (r: OpResult<Vec<Tensor<E, B>>>) {
        if inputs.len() != 2 {
            return Err(op_error("AddBroadcast backward requires 2 inputs"));
        }
        proof {
            lemma_views(inputs@);
            assert(views(inputs@)[0] == inputs@[0]@);
            assert(views(inputs@)[1] == inputs@[1]@);
        }
        let grad_a = grad_out.clone();
        let summed = match grad_out.sum_dim(0) {
            Ok(t) => t,
            Err(e) => {
                return Err(OpError(e.to_string()));
            },
        };
        let k = inputs[1].numel();
        let data = slice_to_vec(summed.data());
        let shape = Shape::new(vec![k]);
        proof {
            lemma_product_single(k);
            assert(shape@ =~= seq![k]);
            assert(summed@.dims == sum_dim_dims(grad_out@.dims, 0));
        }
        let grad_b = match Tensor::from_vec(data, shape, summed.backend()) {
            Ok(t) => t,
            Err(e) => {
                return Err(OpError(e.to_string()));
            },
        };
        proof {
            lemma_product_single(k);
            assert(grad_b@.dims =~= seq![k]);
            assert(sum_dim_rel(grad_out@, 0, summed@));
        }
        let grads = vec![grad_a, grad_b];
        proof {
            assert(owned_views(grads@) =~= seq![grad_a@, grad_b@]);
        }
        Ok(grads)
    }
}

} // verus!
