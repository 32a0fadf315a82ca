//! A two-layer perceptron: linear, ReLU, linear.

use vstd::prelude::*;
use std::sync::Arc;
use crate::autograd::graph::{gathered, Graph, GraphResult, NodeId, NodeView};
use crate::backend::Backend;
use crate::init::{init_defined, is_xavier, UniformSource};
use crate::kernels::{relu_rel, zeros_rel, TensorView};
use crate::nn::layer::Layer;
use crate::nn::linear::{linear_defined, linear_rel, product_dims, Linear};
use crate::nn::loss::{extends, lemma_extends_trans};
use crate::nn::module::{are_parameter_leaves, is_parameter_leaf, Module};
use crate::parameter::{held, Parameter, ParameterView};
use crate::scalar::Scalar;
use crate::tensor::{Tensor, TensorResult};

verus! {

/// A two-layer perceptron: `linear2(relu(linear1(x)))`.
pub struct MLP2<E, B> {
    /// The first linear layer.
    pub linear1: Linear<E, B>,
    /// The second linear layer.
    pub linear2: Linear<E, B>,
}

/// Leaves that hold parameters keep doing so when the graph is extended.
pub proof fn lemma_leaves_stay<E>(
    before: Seq<NodeView<E>>,
    after: Seq<NodeView<E>>,
    ids: Seq<usize>,
    ps: Seq<ParameterView<E>>,
)
    requires
        extends(before, after),
        are_parameter_leaves(before, ids, ps),
    ensures
        are_parameter_leaves(after, ids, ps),
{
    assert forall|i: int| 0 <= i < ids.len() implies is_parameter_leaf(
        after,
        #[trigger] ids[i],
        ps[i],
    ) by {
        assert(is_parameter_leaf(before, ids[i], ps[i]));
        assert(after.take(before.len() as int)[ids[i] as int] == after[ids[i] as int]);
    }
}

impl<E: Scalar, B: Backend<E>> MLP2<E, B> {
    /// A perceptron from `in_features` inputs over `hidden` units to
    /// `out_features` outputs, with all parameters zero.
    ///
    /// Fails unless both weights can be held.
    pub fn new(in_features: usize, hidden: usize, out_features: usize, backend: Arc<B>) -> (r:
        TensorResult<Self>)
        ensures
            r is Ok <==> in_features * hidden <= usize::MAX && hidden * out_features
                <= usize::MAX,
            r matches Ok(m) ==> zeros_rel(seq![in_features, hidden], m.linear1.weight@.data)
                && zeros_rel(seq![hidden], m.linear1.bias@.data) && zeros_rel(
                seq![hidden, out_features],
                m.linear2.weight@.data,
            ) && zeros_rel(seq![out_features], m.linear2.bias@.data),
            r matches Ok(m) ==> forall|i: int|
                0 <= i < 4 ==> (#[trigger] m.parameter_views()[i]).grad is None
                    && m.parameter_views()[i].name is None && !m.parameter_views()[i].frozen,
    {
        let linear1 = match Linear::new(in_features, hidden, Arc::clone(&backend)) {
            Ok(l) => l,
            Err(e) => {
                return Err(e);
            },
        };
        let linear2 = match Linear::new(hidden, out_features, backend) {
            Ok(l) => l,
            Err(e) => {
                return Err(e);
            },
        };
        Ok(MLP2 { linear1, linear2 })
    }

    /// Replaces both weights by Xavier initializations drawn from `rng`.
    ///
    /// Fails unless both initializations succeed; the first weight is
    /// replaced even if the second initialization fails.
    pub fn init_xavier<R: UniformSource<E>>(&mut self, rng: &mut R) -> (r: TensorResult<()>)
        ensures
            r is Ok <==> init_defined(old(self).linear1.weight@.data.dims, 2) && init_defined(
                old(self).linear2.weight@.data.dims,
                2,
            ),
            final(self).linear1.bias@ == old(self).linear1.bias@,
            final(self).linear2.bias@ == old(self).linear2.bias@,
            if init_defined(old(self).linear1.weight@.data.dims, 2) {
                is_xavier::<E, R>(
                    old(self).linear1.weight@.data.dims,
                    final(self).linear1.weight@.data,
                )
            } else {
                final(self).linear1.weight@ == old(self).linear1.weight@
            },
            if r is Ok {
                is_xavier::<E, R>(
                    old(self).linear2.weight@.data.dims,
                    final(self).linear2.weight@.data,
                )
            } else {
                final(self).linear2.weight@ == old(self).linear2.weight@
            },
    {
        match self.linear1.init_xavier(rng) {
            Ok(()) => {},
            Err(e) => {
                return Err(e);
            },
        }
        self.linear2.init_xavier(rng)
    }
}

impl<E: Scalar, B: Backend<E>> Module<E, B> for MLP2<E, B> {
    open spec fn parameter_views(&self) -> Seq<ParameterView<E>> {
        seq![self.linear1.weight@, self.linear1.bias@, self.linear2.weight@, self.linear2.bias@]
    }

    open spec fn forward_defined(&self, x: TensorView<E>) -> bool {
        &&& linear_defined(x.dims, self.linear1.weight@.data.dims, self.linear1.bias@.data.dims)
        &&& linear_defined(
            product_dims(x.dims, self.linear1.weight@.data.dims),
            self.linear2.weight@.data.dims,
            self.linear2.bias@.data.dims,
        )
    }

    open spec fn forward_rel(&self, x: TensorView<E>, y: TensorView<E>) -> bool {
        exists|h: TensorView<E>, a: TensorView<E>|
            #![trigger relu_rel(h, a)]
            linear_rel(x, self.linear1.weight@.data, self.linear1.bias@.data, h) && relu_rel(h, a)
                && linear_rel(a, self.linear2.weight@.data, self.linear2.bias@.data, y)
    }

    fn parameters(&self) -> (ps: Vec<&Parameter<E, B>>) {
        vec![&self.linear1.weight, &self.linear1.bias, &self.linear2.weight, &self.linear2.bias]
    }

    fn parameters_mut(&mut self) -> (ps: Vec<&mut Parameter<E, B>>) {
        let ps = vec![
            &mut self.linear1.weight,
            &mut self.linear1.bias,
            &mut self.linear2.weight,
            &mut self.linear2.bias,
        ];
        proof {
            assert(held(ps@, 0) == old(self).linear1.weight@);
            assert(held(ps@, 1) == old(self).linear1.bias@);
            assert(held(ps@, 2) == old(self).linear2.weight@);
            assert(held(ps@, 3) == old(self).linear2.bias@);
        }
        ps
    }

    fn forward(&self, x: &Tensor<E, B>) -> (r: TensorResult<Tensor<E, B>>) {
        proof {
            let ps = self.parameter_views();
            assert(ps[0].wf() && ps[1].wf() && ps[2].wf() && ps[3].wf());
            assert(self.linear1.parameter_views()[0] == ps[0]);
            assert(self.linear1.parameter_views()[1] == ps[1]);
            assert(self.linear2.parameter_views()[0] == ps[2]);
            assert(self.linear2.parameter_views()[1] == ps[3]);
        }
        let h = match self.linear1.forward(x) {
            Ok(t) => t,
            Err(e) => {
                return Err(e);
            },
        };
        let a = match h.relu() {
            Ok(t) => t,
            Err(e) => {
                return Err(e);
            },
        };
        proof {
            lemma_linear_dims(x@, self.linear1.weight@.data, self.linear1.bias@.data, h@);
        }
        match self.linear2.forward(&a) {
            Ok(y) => {
                proof {
                    assert(relu_rel(h@, a@));
                }
                Ok(y)
            },
            Err(e) => Err(e),
        }
    }

    fn forward_graph(&self, g: &mut Graph<E, B>, x_id: NodeId) -> (r: GraphResult<
        (NodeId, Vec<NodeId>),
    >) {
        let ghost g0 = g@;
        proof {
            let ps = self.parameter_views();
            assert(ps[0].wf() && ps[1].wf() && ps[2].wf() && ps[3].wf());
            assert(self.linear1.parameter_views()[0] == ps[0]);
            assert(self.linear1.parameter_views()[1] == ps[1]);
            assert(self.linear2.parameter_views()[0] == ps[2]);
            assert(self.linear2.parameter_views()[1] == ps[3]);
        }
        let (h_id, mut param_ids) = match self.linear1.forward_graph(g, x_id) {
            Ok(pair) => pair,
            Err(e) => {
                return Err(e);
            },
        };
        let ghost g1 = g@;
        let ghost ids1 = param_ids@;
        let ghost h = g1[h_id as int].data;
        proof {
            lemma_linear_dims(
                g0[x_id as int].data,
                self.linear1.weight@.data,
                self.linear1.bias@.data,
                h,
            );
            assert(seq![h_id][0] < g1.len());
            assert(gathered(g1, seq![h_id])[0] == h);
        }
        let relu_id = match g.relu(h_id) {
            Ok(id) => id,
            Err(e) => {
                proof {
                    assert(false);
                }
                return Err(e);
            },
        };
        let ghost g2 = g@;
        let ghost a = g2[relu_id as int].data;
        proof {
            lemma_extends_trans(g0, g1, g2);
        }
        let (out_id, mut second_ids) = match self.linear2.forward_graph(g, relu_id) {
            Ok(pair) => pair,
            Err(e) => {
                proof {
                    lemma_extends_trans(g0, g2, g@);
                }
                return Err(e);
            },
        };
        let ghost second = second_ids@;
        param_ids.append(&mut second_ids);
        proof {
            let g3 = g@;
            lemma_extends_trans(g0, g2, g3);
            lemma_extends_trans(g1, g2, g3);
            lemma_leaves_stay(g1, g3, ids1, self.linear1.parameter_views());
            assert(g3[relu_id as int] == g2[relu_id as int]);
            assert(relu_rel(h, a));
            assert(param_ids@ =~= ids1 + second);
            let ps = self.parameter_views();
            assert forall|i: int| 0 <= i < param_ids@.len() implies is_parameter_leaf(
                g3,
                #[trigger] param_ids@[i],
                ps[i],
            ) by {
                if i < 2 {
                    assert(is_parameter_leaf(g3, ids1[i], self.linear1.parameter_views()[i]));
                } else {
                    assert(is_parameter_leaf(g3, second[i - 2], self.linear2.parameter_views()[i - 2]));
                }
            }
        }
        Ok((out_id, param_ids))
    }
}

impl<E: Scalar, B: Backend<E>> Layer<E, B> for MLP2<E, B> {
}

/// The output of a linear layer has one row for each row of the input and
/// one column for each column of the weight.
pub proof fn lemma_linear_dims<E: Scalar>(
    x: TensorView<E>,
    w: TensorView<E>,
    b: TensorView<E>,
    y: TensorView<E>,
)
    requires
        linear_rel(x, w, b, y),
    ensures
        y.dims == product_dims(x.dims, w.dims),
{
}

} // verus!
