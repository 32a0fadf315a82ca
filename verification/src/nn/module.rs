//! Modules: things that hold parameters and compute an output from an input,
//! on arrays or as nodes of a graph.

use vstd::prelude::*;
use std::sync::Arc;
use crate::autograd::graph::{Graph, GraphResult, NodeId, NodeView};
use crate::backend::Backend;
use crate::kernels::TensorView;
use crate::nn::loss::extends;
use crate::parameter::{held, Parameter, ParameterState, ParameterView};
use crate::scalar::Scalar;
use crate::shape::{dims_product, ShapeError};
use crate::tensor::{Tensor, TensorError, TensorResult};
use crate::text::{join, numbered};

verus! {

/// Node `id` of the graph is a leaf that holds the value of `p`.
pub open spec fn is_parameter_leaf<E>(net: Seq<NodeView<E>>, id: usize, p: ParameterView<E>) -> bool {
    id < net.len() && net[id as int].op is None && net[id as int].data == p.data
}

/// The nodes `ids` of the graph are leaves that hold the values of the
/// parameters `ps`, in order.
pub open spec fn are_parameter_leaves<E>(
    net: Seq<NodeView<E>>,
    ids: Seq<usize>,
    ps: Seq<ParameterView<E>>,
) -> bool {
    ids.len() == ps.len() && forall|i: int|
        0 <= i < ids.len() ==> is_parameter_leaf(net, #[trigger] ids[i], ps[i])
}

/// Every parameter of the list is well formed.
pub open spec fn all_parameters_wf<E>(ps: Seq<ParameterView<E>>) -> bool {
    forall|i: int| 0 <= i < ps.len() ==> (#[trigger] ps[i]).wf()
}

/// The state holds as many elements as its shape asks for.
pub open spec fn state_fits<E>(state: ParameterState<E>) -> bool {
    state.data@.len() == dims_product(state.shape@)
}

/// Every state of the list up to `k` holds as many elements as its shape
/// asks for.
pub open spec fn states_fit_through<E>(states: Seq<ParameterState<E>>, k: int) -> bool {
    forall|j: int| 0 <= j <= k && j < states.len() ==> state_fits(#[trigger] states[j])
}

/// The parameter `p` with the value held in `state`.
pub open spec fn loaded<E>(p: ParameterView<E>, state: ParameterState<E>) -> ParameterView<E> {
    ParameterView { data: TensorView { dims: state.shape@, data: state.data@ }, ..p }
}

/// Replaces the value of each parameter by the one held in the state at the
/// same place, up to the first state that does not fit.
fn load_states<E: Scalar, B: Backend<E>>(
    params: &mut [&mut Parameter<E, B>],
    states: &[ParameterState<E>],
    backend: Arc<B>,
) -> (r: TensorResult<()>)
    requires
        old(params)@.len() == states@.len(),
    ensures
        final(params)@.len() == old(params)@.len(),
        forall|k: int|
            0 <= k < old(params)@.len() ==> *final(#[trigger] final(params)@[k]) == *final(old(params)@[k]),
        r is Ok <==> states_fit_through(states@, states@.len() - 1),
        forall|k: int|
            0 <= k < old(params)@.len() ==> #[trigger] held(final(params)@, k) == if states_fit_through(
                states@,
                k,
            ) {
                loaded(held(old(params)@, k), states@[k])
            } else {
                held(old(params)@, k)
            },
{
    let n = params.len();
    let mut i: usize = 0;
    while i < n
        invariant
            i <= n,
            n == params@.len(),
            n == states@.len(),
            n == old(params)@.len(),
            forall|k: int| 0 <= k < n ==> *final(#[trigger] params@[k]) == *final(old(params)@[k]),
            forall|k: int| 0 <= k < i ==> state_fits(#[trigger] states@[k]),
            forall|k: int|
                0 <= k < i ==> (*#[trigger] params@[k])@ == loaded((*old(params)@[k])@, states@[k]),
            forall|k: int| i <= k < n ==> (*#[trigger] params@[k])@ == (*old(params)@[k])@,
        decreases n - i,
    {
        match params[i].load_state(&states[i], Arc::clone(&backend)) {
            Ok(()) => {},
            Err(e) => {
                proof {
                    assert(!state_fits(states@[i as int]));
                    assert forall|k: int| 0 <= k < n implies #[trigger] held(params@, k)
                        == if states_fit_through(states@, k) {
                        loaded(held(old(params)@, k), states@[k])
                    } else {
                        held(old(params)@, k)
                    } by {
                        if k < i {
                            assert((*params@[k])@ == loaded((*old(params)@[k])@, states@[k]));
                            assert forall|j: int| 0 <= j <= k implies state_fits(
                                #[trigger] states@[j],
                            ) by {}
                        } else {
                            assert((*params@[k])@ == (*old(params)@[k])@);
                        }
                    }
                }
                return Err(e);
            },
        }
        i = i + 1;
    }
    proof {
        assert forall|k: int| 0 <= k < n implies #[trigger] held(params@, k) == loaded(
            held(old(params)@, k),
            states@[k],
        ) && states_fit_through(states@, k) by {
            assert((*params@[k])@ == loaded((*old(params)@[k])@, states@[k]));
        }
    }
    Ok(())
}

/// A module: it holds parameters and computes an output from an input.
pub trait Module<E: Scalar, B: Backend<E>> {
    /// The parameters of the module, in the order in which
    /// [`Module::parameters`] and [`Module::forward_graph`] list them.
    spec fn parameter_views(&self) -> Seq<ParameterView<E>>;

    /// The inputs the module can take.
    spec fn forward_defined(&self, x: TensorView<E>) -> bool;

    /// `y` is an output of the module for the input `x`.
    spec fn forward_rel(&self, x: TensorView<E>, y: TensorView<E>) -> bool;

    /// The parameters of the module.
    fn parameters(&self) -> (ps: Vec<&Parameter<E, B>>)
        ensures
            ps@.len() == self.parameter_views().len(),
            forall|i: int| 0 <= i < ps@.len() ==> (#[trigger] ps@[i])@ == self.parameter_views()[i],
    ;

    /// The parameters of the module, open to change: what the references
    /// hold when they are given up is what the module holds from then on.
    fn parameters_mut(&mut self) -> (ps: Vec<&mut Parameter<E, B>>)
        ensures
            ps@.len() == old(self).parameter_views().len(),
            forall|i: int|
                0 <= i < ps@.len() ==> #[trigger] held(ps@, i) == old(self).parameter_views()[i],
            final(self).parameter_views().len() == ps@.len(),
            forall|i: int|
                0 <= i < ps@.len() ==> final(self).parameter_views()[i] == (*final(#[trigger] ps@[i]))@,
    ;

    /// Computes the output for `x`.
    ///
    /// Fails unless the module can take the input.
    fn forward(&self, x: &Tensor<E, B>) -> (r: TensorResult<Tensor<E, B>>)
        requires
            all_parameters_wf(self.parameter_views()),
            x@.wf(),
        ensures
            r is Ok <==> self.forward_defined(x@),
            r matches Ok(y) ==> y@.wf() && self.forward_rel(x@, y@),
    ;

    /// Appends to the graph the parameters as leaves and the nodes that
    /// compute the output from node `x_id`, and returns the node of the
    /// output with the nodes of the parameters.
    ///
    /// Fails unless `x_id` is a node of the graph whose value the module can
    /// take. Nodes appended before the failure stay.
    fn forward_graph(&self, g: &mut Graph<E, B>, x_id: NodeId) -> (r: GraphResult<
        (NodeId, Vec<NodeId>),
    >)
        requires
            all_parameters_wf(self.parameter_views()),
            old(g).wf(),
        ensures
            final(g).wf(),
            extends(old(g)@, final(g)@),
            r is Ok <==> x_id < old(g)@.len() && self.forward_defined(old(g)@[x_id as int].data),
            r matches Ok(pair) ==> pair.0 < final(g)@.len() && self.forward_rel(
                old(g)@[x_id as int].data,
                final(g)@[pair.0 as int].data,
            ) && are_parameter_leaves(final(g)@, pair.1@, self.parameter_views()),
    ;

    /// The state of every parameter, in order.
    fn state_dict(&self) -> (states: Vec<ParameterState<E>>)
        ensures
            states@.len() == self.parameter_views().len(),
            forall|i: int|
                0 <= i < states@.len() ==> (#[trigger] states@[i]).shape@ == self.parameter_views()[i].data.dims
                    && states@[i].data@ == self.parameter_views()[i].data.data,
    {
        let ps = self.parameters();
        let n = ps.len();
        let mut states: Vec<ParameterState<E>> = Vec::with_capacity(n);
        let mut i: usize = 0;
        while i < n
            invariant
                i <= n,
                n == ps@.len(),
                ps@.len() == self.parameter_views().len(),
                forall|j: int| 0 <= j < n ==> (#[trigger] ps@[j])@ == self.parameter_views()[j],
                states@.len() == i,
                forall|j: int|
                    0 <= j < i ==> (#[trigger] states@[j]).shape@ == self.parameter_views()[j].data.dims
                        && states@[j].data@ == self.parameter_views()[j].data.data,
            decreases n - i,
        {
            states.push(ps[i].to_state());
            i = i + 1;
        }
        states
    }

    /// Replaces the value of every parameter by the one held in the state at
    /// the same place.
    ///
    /// Fails with a shape error, and changes nothing, unless there are as
    /// many states as parameters. Fails at the first state that does not hold
    /// as many elements as its shape asks for; the parameters before it are
    /// replaced, the others stay.
    fn load_state_dict(&mut self, states: &[ParameterState<E>], backend: Arc<B>) -> (r:
        TensorResult<()>)
        ensures
            final(self).parameter_views().len() == old(self).parameter_views().len(),
            r is Ok <==> states@.len() == old(self).parameter_views().len() && states_fit_through(
                states@,
                states@.len() - 1,
            ),
            states@.len() != old(self).parameter_views().len() ==> (r matches Err(e) && e is Shape),
            forall|i: int|
                0 <= i < old(self).parameter_views().len() ==> #[trigger] final(self).parameter_views()[i] == if states@.len() == old(self).parameter_views().len()
                    && states_fit_through(states@, i) {
                    loaded(old(self).parameter_views()[i], states@[i])
                } else {
                    old(self).parameter_views()[i]
                },
    {
        let mut params = self.parameters_mut();
        let n = params.len();
        if n != states.len() {
            let got = join(numbered("load_state_dict: got", states.len()).as_str(), " states, module has");
            let text = join(numbered(got.as_str(), n).as_str(), " parameters");
            let ghost last = params@;
            proof {
                assert(has_resolved(params));
                assert forall|i: int| 0 <= i < n implies has_resolved(#[trigger] last[i]) by {}
            }
            proof {
                assert forall|i: int| 0 <= i < n implies #[trigger] final(self).parameter_views()[i]
                    == old(self).parameter_views()[i] by {
                    assert(has_resolved(last[i]));
                    assert(held(last, i) == old(self).parameter_views()[i]);
                }
            }
            return Err(TensorError::Shape(ShapeError(text)));
        }
        let ghost given = params@;
        let r = load_states(params.as_mut_slice(), states, backend);
        let ghost last = params@;
        proof {
            assert(has_resolved(params));
            assert forall|k: int| 0 <= k < n implies has_resolved(#[trigger] last[k]) by {}
        }
        proof {
            assert forall|k: int| 0 <= k < n implies #[trigger] final(self).parameter_views()[k]
                == if states_fit_through(states@, k) {
                loaded(old(self).parameter_views()[k], states@[k])
            } else {
                old(self).parameter_views()[k]
            } by {
                assert(has_resolved(last[k]));
                assert(*final(last[k]) == *final(given[k]));
                assert(final(self).parameter_views()[k] == (*final(given[k]))@);
                assert(held(given, k) == old(self).parameter_views()[k]);
                assert(held(last, k) == (*last[k])@);
            }
        }
        r
    }
}

} // verus!
