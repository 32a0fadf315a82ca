//! Activation layers: they hold no parameters.

use vstd::prelude::*;
use crate::autograd::graph::{gathered, Graph, GraphResult, NodeId};
use crate::backend::Backend;
use crate::kernels::{relu_rel, sigmoid_rel, TensorView};
use crate::nn::layer::Layer;
use crate::nn::module::Module;
use crate::parameter::{held, Parameter, ParameterView};
use crate::scalar::Scalar;
use crate::tensor::{Tensor, TensorResult};

verus! {

/// The layer `max(0, x)`.
#[derive(Clone, Copy, Debug)]
pub struct ReLU;

impl ReLU {
    /// The layer `max(0, x)`.
    pub fn new() -> (layer: Self) {
        ReLU
    }
}

impl Default for ReLU {
    fn default() -> (layer: Self) {
        ReLU::new()
    }
}

impl<E: Scalar, B: Backend<E>> Module<E, B> for ReLU {
    open spec fn parameter_views(&self) -> Seq<ParameterView<E>> {
        Seq::empty()
    }

    open spec fn forward_defined(&self, x: TensorView<E>) -> bool {
        true
    }

    open spec fn forward_rel(&self, x: TensorView<E>, y: TensorView<E>) -> bool {
        relu_rel(x, y)
    }

    fn parameters(&self) -> (ps: Vec<&Parameter<E, B>>) {
        Vec::new()
    }

    fn parameters_mut(&mut self) -> (ps: Vec<&mut Parameter<E, B>>) {
        Vec::new()
    }

    fn forward(&self, x: &Tensor<E, B>) -> (r: TensorResult<Tensor<E, B>>) {
        x.relu()
    }

    fn forward_graph(&self, g: &mut Graph<E, B>, x_id: NodeId) -> (r: GraphResult<
        (NodeId, Vec<NodeId>),
    >) {
        let ghost before = g@;
        match g.relu(x_id) {
            Ok(out_id) => {
                proof {
                    assert(seq![x_id][0] < before.len());
                    assert(gathered(before, seq![x_id])[0] == before[x_id as int].data);
                }
                Ok((out_id, Vec::new()))
            },
            Err(e) => {
                proof {
                    assert(before.take(before.len() as int) =~= before);
                    if x_id < before.len() {
                        assert(seq![x_id][0] < before.len());
                    }
                }
                Err(e)
            },
        }
    }
}

impl<E: Scalar, B: Backend<E>> Layer<E, B> for ReLU {
}

/// The layer `1 / (1 + exp(-x))`.
#[derive(Clone, Copy, Debug)]
pub struct Sigmoid;

impl Sigmoid {
    /// The layer `1 / (1 + exp(-x))`.
    pub fn new() -> (layer: Self) {
        Sigmoid
    }
}

impl Default for Sigmoid {
    fn default() -> (layer: Self) {
        Sigmoid::new()
    }
}

impl<E: Scalar, B: Backend<E>> Module<E, B> for Sigmoid {
    open spec fn parameter_views(&self) -> Seq<ParameterView<E>> {
        Seq::empty()
    }

    open spec fn forward_defined(&self, x: TensorView<E>) -> bool {
        true
    }

    open spec fn forward_rel(&self, x: TensorView<E>, y: TensorView<E>) -> bool {
        sigmoid_rel(x, y)
    }

    fn parameters(&self) -> (ps: Vec<&Parameter<E, B>>) {
        Vec::new()
    }

    fn parameters_mut(&mut self) -> (ps: Vec<&mut Parameter<E, B>>) {
        Vec::new()
    }

    fn forward(&self, x: &Tensor<E, B>) -> (r: TensorResult<Tensor<E, B>>) {
        x.sigmoid()
    }

    fn forward_graph(&self, g: &mut Graph<E, B>, x_id: NodeId) -> (r: GraphResult<
        (NodeId, Vec<NodeId>),
    >) {
        let ghost before = g@;
        match g.sigmoid(x_id) {
            Ok(out_id) => {
                proof {
                    assert(seq![x_id][0] < before.len());
                    assert(gathered(before, seq![x_id])[0] == before[x_id as int].data);
                }
                Ok((out_id, Vec::new()))
            },
            Err(e) => {
                proof {
                    assert(before.take(before.len() as int) =~= before);
                    if x_id < before.len() {
                        assert(seq![x_id][0] < before.len());
                    }
                }
                Err(e)
            },
        }
    }
}

impl<E: Scalar, B: Backend<E>> Layer<E, B> for Sigmoid {
}

} // verus!
