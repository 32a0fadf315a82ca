//! The linear layer `y = x @ W + b`.

use vstd::prelude::*;
use std::sync::Arc;
use crate::autograd::graph::{gathered, Graph, GraphResult, NodeId};
use crate::backend::Backend;
use crate::init::{init_defined, is_xavier, xavier_uniform, UniformSource};
use crate::kernels::{add_broadcast_defined, add_broadcast_rel, matmul_defined, matmul_rel,
    zeros_rel, TensorView};
use crate::nn::layer::Layer;
use crate::nn::loss::lemma_extends_trans;
use crate::nn::module::{are_parameter_leaves, Module};
use crate::parameter::{held, Parameter, ParameterView};
use crate::scalar::Scalar;
use crate::shape::Shape;
use crate::tensor::{Tensor, TensorError, TensorResult};
use crate::text::join;

verus! {

/// A linear layer: a weight matrix and a bias vector.
pub struct Linear<E, B> {
    /// The weight, of shape `[in_features, out_features]`.
    pub weight: Parameter<E, B>,
    /// The bias, of shape `[out_features]`.
    pub bias: Parameter<E, B>,
}

/// The shape of `x @ w`.
pub open spec fn product_dims(x: Seq<usize>, w: Seq<usize>) -> Seq<usize> {
    seq![x[0], w[1]]
}

/// The shapes of inputs a linear layer with weight `w` and bias `b` can take.
pub open spec fn linear_defined(x: Seq<usize>, w: Seq<usize>, b: Seq<usize>) -> bool {
    matmul_defined(x, w) && add_broadcast_defined(product_dims(x, w), b)
}

/// `y` is `x @ w + b`.
pub open spec fn linear_rel<E: Scalar>(
    x: TensorView<E>,
    w: TensorView<E>,
    b: TensorView<E>,
    y: TensorView<E>,
) -> bool {
    exists|m: TensorView<E>| #[trigger] matmul_rel(x, w, m) && add_broadcast_rel(m, b, y)
}

impl<E: Scalar, B: Backend<E>> Linear<E, B> {
    /// A layer from `in_features` inputs to `out_features` outputs, with
    /// weight and bias of zeros.
    ///
    /// Fails unless the weight can be held.
    pub fn new(in_features: usize, out_features: usize, backend: Arc<B>) -> (r: TensorResult<Self>)
        ensures
            r is Ok <==> in_features * out_features <= usize::MAX,
            r matches Ok(layer) ==> zeros_rel(seq![in_features, out_features], layer.weight@.data)
                && zeros_rel(seq![out_features], layer.bias@.data) && layer.weight@.grad is None
                && layer.bias@.grad is None && layer.weight@.name is None && layer.bias@.name is None
                && !layer.weight@.frozen && !layer.bias@.frozen,
    {
        let weight_shape = Shape::new(vec![in_features, out_features]);
        let bias_shape = Shape::new(vec![out_features]);
        proof {
            crate::shape::lemma_product_pair(in_features, out_features);
            crate::shape::lemma_product_single(out_features);
            assert(weight_shape@ =~= seq![in_features, out_features]);
            assert(bias_shape@ =~= seq![out_features]);
        }
        let weight_data = match backend.zeros(&weight_shape) {
            Ok(t) => t,
            Err(e) => {
                return Err(TensorError::Backend(e));
            },
        };
        let bias_data = match backend.zeros(&bias_shape) {
            Ok(t) => t,
            Err(e) => {
                return Err(TensorError::Backend(e));
            },
        };
        Ok(Linear { weight: Parameter::new(weight_data), bias: Parameter::new(bias_data) })
    }

    /// Replaces the weight by a Xavier initialization drawn from `rng`; the
    /// bias stays.
    ///
    /// Fails, and changes nothing, unless the initialization succeeds.
    pub fn init_xavier<R: UniformSource<E>>(&mut self, rng: &mut R) -> (r: TensorResult<()>)
        ensures
            r is Ok <==> init_defined(old(self).weight@.data.dims, 2),
            final(self).bias@ == old(self).bias@,
            r is Ok ==> is_xavier::<E, R>(old(self).weight@.data.dims, final(self).weight@.data)
                && final(self).weight@.grad == old(self).weight@.grad && final(self).weight@.name
                == old(self).weight@.name && final(self).weight@.frozen == old(self).weight@.frozen,
            r is Err ==> final(self).weight@ == old(self).weight@,
    {
        let backend = self.weight.data().backend();
        let weight_shape = self.weight.data().shape().clone();
        match xavier_uniform(&weight_shape, backend, rng) {
            Ok(w) => {
                let slot = self.weight.data_mut();
                *slot = w;
                Ok(())
            },
            Err(e) => Err(e),
        }
    }

    /// Like [`Linear::new`], with the parameters named `name.weight` and
    /// `name.bias`.
    pub fn named(name: &str, in_features: usize, out_features: usize, backend: Arc<B>) -> (r:
        TensorResult<Self>)
        ensures
            r is Ok <==> in_features * out_features <= usize::MAX,
            r matches Ok(layer) ==> zeros_rel(seq![in_features, out_features], layer.weight@.data)
                && zeros_rel(seq![out_features], layer.bias@.data) && layer.weight@.name == Some(
                name@ + ".weight"@,
            ) && layer.bias@.name == Some(name@ + ".bias"@),
            r matches Ok(layer) ==> layer.weight@.grad is None && layer.bias@.grad is None
                && !layer.weight@.frozen && !layer.bias@.frozen,
    {
        let mut linear = match Linear::new(in_features, out_features, backend) {
            Ok(l) => l,
            Err(e) => {
                return Err(e);
            },
        };
        linear.weight.set_name(Some(join(name, ".weight")));
        linear.bias.set_name(Some(join(name, ".bias")));
        Ok(linear)
    }
}

impl<E: Scalar, B: Backend<E>> Module<E, B> for Linear<E, B> {
    open spec fn parameter_views(&self) -> Seq<ParameterView<E>> {
        seq![self.weight@, self.bias@]
    }

    open spec fn forward_defined(&self, x: TensorView<E>) -> bool {
        linear_defined(x.dims, self.weight@.data.dims, self.bias@.data.dims)
    }

    open spec fn forward_rel(&self, x: TensorView<E>, y: TensorView<E>) -> bool {
        linear_rel(x, self.weight@.data, self.bias@.data, y)
    }

    fn parameters(&self) -> (ps: Vec<&Parameter<E, B>>) {
        vec![&self.weight, &self.bias]
    }

    fn parameters_mut(&mut self) -> (ps: Vec<&mut Parameter<E, B>>) {
        let ps = vec![&mut self.weight, &mut self.bias];
        proof {
            assert(held(ps@, 0) == old(self).weight@);
            assert(held(ps@, 1) == old(self).bias@);
        }
        ps
    }

    fn forward(&self, x: &Tensor<E, B>) -> (r: TensorResult<Tensor<E, B>>) {
        proof {
            assert(self.parameter_views()[0].wf());
            assert(self.parameter_views()[1].wf());
        }
        let out = match x.matmul(self.weight.data()) {
            Ok(t) => t,
            Err(e) => {
                return Err(e);
            },
        };
        out.add_broadcast(self.bias.data())
    }

    fn forward_graph(&self, g: &mut Graph<E, B>, x_id: NodeId) -> (r: GraphResult<
        (NodeId, Vec<NodeId>),
    >) {
        let ghost g0 = g@;
        proof {
            assert(self.parameter_views()[0].wf());
            assert(self.parameter_views()[1].wf());
            assert(g0.take(g0.len() as int) =~= g0);
        }
        match g.data(x_id) {
            Ok(_) => {},
            Err(e) => {
                return Err(e);
            },
        }
        let w_id = g.var(self.weight.data().clone());
        let ghost g1 = g@;
        let b_id = g.var(self.bias.data().clone());
        let ghost g2 = g@;
        proof {
            assert(g1.take(g0.len() as int) =~= g0);
            assert(g2.take(g1.len() as int) =~= g1);
            lemma_extends_trans(g0, g1, g2);
            let xs = gathered(g2, seq![x_id, w_id]);
            assert(seq![x_id, w_id][0] < g2.len() && seq![x_id, w_id][1] < g2.len());
            assert(xs[0] == g0[x_id as int].data);
            assert(xs[1] == self.weight@.data);
        }
        let matmul_id = match g.matmul(x_id, w_id) {
            Ok(id) => id,
            Err(e) => {
                return Err(e);
            },
        };
        let ghost g3 = g@;
        proof {
            lemma_extends_trans(g0, g2, g3);
            lemma_extends_trans(g1, g2, g3);
            let xs = gathered(g3, seq![matmul_id, b_id]);
            assert(seq![matmul_id, b_id][0] < g3.len() && seq![matmul_id, b_id][1] < g3.len());
            assert(xs[0] == g3[matmul_id as int].data);
            assert(xs[1] == self.bias@.data);
            assert(g3[matmul_id as int].data.dims =~= product_dims(
                g0[x_id as int].data.dims,
                self.weight@.data.dims,
            ));
        }
        let out_id = match g.add_broadcast(matmul_id, b_id) {
            Ok(id) => id,
            Err(e) => {
                return Err(e);
            },
        };
        let ids = vec![w_id, b_id];
        proof {
            let g4 = g@;
            lemma_extends_trans(g0, g3, g4);
            lemma_extends_trans(g1, g3, g4);
            lemma_extends_trans(g2, g3, g4);
            assert(g4[w_id as int] == g1[w_id as int]);
            assert(g4[b_id as int] == g2[b_id as int]);
            assert(g4[matmul_id as int] == g3[matmul_id as int]);
            assert(matmul_rel(
                g0[x_id as int].data,
                self.weight@.data,
                g3[matmul_id as int].data,
            ));
            assert(are_parameter_leaves(g4, ids@, self.parameter_views()));
        }
        Ok((out_id, ids))
    }
}

impl<E: Scalar, B: Backend<E>> Layer<E, B> for Linear<E, B> {
}

} // verus!
