//! The computation graph: an append-only list of nodes, the forward
//! application of operators, and the backward pass.

use vstd::prelude::*;
use std::collections::HashSet;
use vstd::slice::slice_to_vec;
use vstd::std_specs::hash::group_hash_axioms;
use crate::autograd::order::{all_reached, backward_order, consumes, fed_earlier,
    inputs_precede, lemma_backward_order, lemma_backward_order_complete,
    lemma_prefix_contains, lemma_reaches_step,
    lemma_push_contains, lemma_visit_extends, lemma_visit_inputs_extends, lemma_visit_inputs_skips,
    lemma_visit_skips, reaches, visit, visit_inputs};
use crate::backend::Backend;
use crate::kernels::{add_rel, ones_rel, TensorView};
use crate::ops::{backward_rel, forward_defined, forward_rel,
    lemma_backward_defined, lemma_backward_shapes, owned_views, views, Op, OpId, OpRegistry};
use crate::scalar::Scalar;
use crate::tensor::Tensor;
use crate::text::{join, numbered};

verus! {

/// Error of a graph operation.
#[derive(Debug)]
pub struct GraphError(pub String);

impl GraphError {
    /// The text of [`GraphError::to_string`].
    pub open spec fn text_spec(&self) -> Seq<char> {
        "graph error: "@ + self.0@
    }

    /// The message, with the kind of error in front.
    pub fn to_string(&self) -> (text: String)
        ensures
            text@ == self.text_spec(),
    {
        join("graph error: ", self.0.as_str())
    }
}

pub type GraphResult<T> = Result<T, GraphError>;

/// Identifier of a node: its position in the graph's node list.
pub type NodeId = usize;

/// A node of the graph: a leaf that holds a value, or the application of an
/// operator to earlier nodes.
pub struct Node<E, B> {
    /// The operator, absent for a leaf.
    pub op_id: Option<OpId>,
    /// The nodes the operator was applied to, in order.
    pub inputs: Vec<NodeId>,
    /// The value of the node.
    pub data: Tensor<E, B>,
    /// The gradient accumulated by the backward pass, absent until then.
    pub grad: Option<Tensor<E, B>>,
}

/// The mathematical view of a node.
pub struct NodeView<E> {
    /// The operator, absent for a leaf.
    pub op: Option<OpId>,
    /// The input nodes, in order.
    pub inputs: Seq<usize>,
    /// The value of the node.
    pub data: TensorView<E>,
    /// The accumulated gradient.
    pub grad: Option<TensorView<E>>,
}

impl<E, B> View for Node<E, B> {
    type V = NodeView<E>;

    open spec fn view(&self) -> NodeView<E> {
        NodeView {
            op: self.op_id,
            inputs: self.inputs@,
            data: self.data@,
            grad: match self.grad {
                Some(g) => Some(g@),
                None => None,
            },
        }
    }
}

/// The edges of a graph: the inputs of each node.
pub open spec fn edges<E>(net: Seq<NodeView<E>>) -> Seq<Seq<usize>> {
    Seq::new(net.len(), |i: int| net[i].inputs)
}

/// The values of the nodes `ids`, in order.
pub open spec fn gathered<E>(net: Seq<NodeView<E>>, ids: Seq<usize>) -> Seq<TensorView<E>> {
    Seq::new(ids.len(), |k: int| net[ids[k] as int].data)
}

/// Every identifier in `ids` names a node of the graph.
pub open spec fn ids_valid<E>(net: Seq<NodeView<E>>, ids: Seq<usize>) -> bool {
    forall|k: int| 0 <= k < ids.len() ==> (#[trigger] ids[k]) < net.len()
}

/// Node `i` is sound: its inputs were created before it, its value is what
/// its operator computes from the values of its inputs, and its gradient, if
/// present, has the shape of its value.
pub open spec fn node_wf<E: Scalar>(net: Seq<NodeView<E>>, i: int) -> bool {
    let n = net[i];
    &&& n.data.wf()
    &&& (n.grad matches Some(g) ==> g.wf() && g.dims == n.data.dims)
    &&& forall|k: int| 0 <= k < n.inputs.len() ==> (#[trigger] n.inputs[k]) < i
    &&& match n.op {
        None => n.inputs.len() == 0,
        Some(op) => forward_defined(op, gathered(net, n.inputs)) && forward_rel(
            op,
            gathered(net, n.inputs),
            n.data,
        ),
    }
}

/// Every node of the graph is sound.
pub open spec fn net_wf<E: Scalar>(net: Seq<NodeView<E>>) -> bool {
    forall|i: int| 0 <= i < net.len() ==> #[trigger] node_wf(net, i)
}

/// Two graphs have the same nodes with the same values; only gradients may
/// differ.
pub open spec fn same_nodes<E>(a: Seq<NodeView<E>>, b: Seq<NodeView<E>>) -> bool {
    &&& a.len() == b.len()
    &&& forall|i: int|
        0 <= i < a.len() ==> (#[trigger] b[i]).op == a[i].op && b[i].inputs == a[i].inputs
            && b[i].data == a[i].data
}

/// The edges of a list of nodes: the inputs of each node.
pub open spec fn node_edges<E, B>(nodes: Seq<Node<E, B>>) -> Seq<Seq<usize>> {
    Seq::new(nodes.len(), |i: int| nodes[i].inputs@)
}

/// Walks the graph depth-first from `id` along the inputs, and lists each
/// node not seen before after its inputs.
fn dfs<E, B>(
    id: NodeId,
    nodes: &Vec<Node<E, B>>,
    visited: &mut HashSet<NodeId>,
    post_order: &mut Vec<NodeId>,
)
    requires
        id < nodes@.len(),
        inputs_precede(node_edges(nodes@)),
        forall|v: usize| old(visited)@.contains(v) ==> old(post_order)@.contains(v) || v > id,
        forall|v: usize| old(post_order)@.contains(v) ==> old(visited)@.contains(v),
    ensures
        final(post_order)@ == visit(node_edges(nodes@), id, old(post_order)@),
        forall|v: usize|
            final(visited)@.contains(v) <==> (old(visited)@.contains(v)
                || final(post_order)@.contains(v)),
    decreases id,
{
    broadcast use group_hash_axioms;

    let ghost adj = node_edges(nodes@);
    let ghost post0 = post_order@;
    let ghost seen0 = visited@;
    if !visited.insert(id) {
        proof {
            assert(visited@ =~= seen0);
        }
        return ;
    }
    let count = nodes[id].inputs.len();
    let mut k: usize = 0;
    while k < count
        invariant
            k <= count,
            id < nodes@.len(),
            count == nodes@[id as int].inputs@.len(),
            adj == node_edges(nodes@),
            inputs_precede(adj),
            !post0.contains(id),
            post_order@ == visit_inputs(adj, id, k as int, post0),
            forall|v: usize|
                #![trigger visited@.contains(v)]
                #![trigger post_order@.contains(v)]
                visited@.contains(v) <==> (seen0.contains(v) || v == id || post_order@.contains(
                    v,
                )),
            forall|v: usize| seen0.contains(v) ==> post0.contains(v) || v > id,
            !post_order@.contains(id),
        decreases count - k,
    {
        let child = nodes[id].inputs[k];
        let ghost before = post_order@;
        proof {
            assert(adj[id as int][k as int] == child);
            lemma_visit_inputs_extends(adj, id, k as int, post0);
            assert forall|v: usize| visited@.contains(v) implies before.contains(v) || v
                > child by {
                if seen0.contains(v) && !before.contains(v) {
                    if post0.contains(v) {
                        lemma_prefix_contains(post0, before, v);
                    }
                }
            }
            assert forall|v: usize| before.contains(v) implies visited@.contains(v) by {
                assert(visited@.contains(v) <==> (seen0.contains(v) || v == id
                    || post_order@.contains(v)));
            }
        }
        let ghost seen = visited@;
        dfs(child, nodes, visited, post_order);
        proof {
            lemma_visit_extends(adj, child, before);
            assert forall|v: usize| before.contains(v) implies post_order@.contains(v) by {
                lemma_prefix_contains(before, post_order@, v);
            }
            lemma_visit_skips(adj, child, before, id);
            assert forall|v: usize|
                visited@.contains(v) <==> seen0.contains(v) || v == id || post_order@.contains(
                    v,
                ) by {
                if before.contains(v) {
                    lemma_prefix_contains(before, post_order@, v);
                }
                assert(visited@.contains(v) <==> seen.contains(v) || post_order@.contains(v));
            }
        }
        k = k + 1;
    }
    let ghost walked = post_order@;
    post_order.push(id);
    proof {
        lemma_visit_inputs_extends(adj, id, count as int, post0);
        assert forall|v: usize|
            visited@.contains(v) <==> (seen0.contains(v) || post_order@.contains(v)) by {
            lemma_push_contains(walked, id, v);
            if post0.contains(v) {
                lemma_prefix_contains(post0, walked, v);
            }
            assert(visited@.contains(v) <==> seen0.contains(v) || v == id || walked.contains(v));
        }
    }
}

/// A computation graph. It owns its nodes; nodes are only ever appended.
pub struct Graph<E, B> {
    nodes: Vec<Node<E, B>>,
    registry: OpRegistry,
}

impl<E, B> View for Graph<E, B> {
    type V = Seq<NodeView<E>>;

    closed spec fn view(&self) -> Seq<NodeView<E>> {
        Seq::new(self.nodes@.len(), |i: int| self.nodes@[i]@)
    }
}

impl<E: Scalar, B: Backend<E>> Graph<E, B> {
    /// The registry of the graph holds the whole catalogue.
    pub closed spec fn registry_ready(&self) -> bool {
        self.registry.wf() && self.registry.complete()
    }

    /// Every node is sound and every operator is registered.
    pub open spec fn wf(&self) -> bool {
        net_wf(self@) && self.registry_ready()
    }

    /// An empty graph.
    pub fn new() -> (g: Self)
        ensures
            g.wf(),
            g@.len() == 0,
    {
        Graph { nodes: Vec::new(), registry: OpRegistry::new() }
    }

    /// Appends a leaf that holds `data`, and returns its identifier.
    pub fn var(&mut self, data: Tensor<E, B>) -> (id: NodeId)
        requires
            old(self).wf(),
            data@.wf(),
        ensures
            final(self).wf(),
            id == old(self)@.len(),
            final(self)@ == old(self)@.push(
                NodeView { op: None, inputs: Seq::empty(), data: data@, grad: None },
            ),
    {
        let id = self.nodes.len();
        let ghost before = self@;
        self.nodes.push(Node { op_id: None, inputs: Vec::new(), data, grad: None });
        proof {
            let leaf = NodeView { op: None, inputs: Seq::empty(), data: data@, grad: None };
            assert(self@ =~= before.push(leaf));
            lemma_push_keeps_wf(before, leaf);
        }
        id
    }

    /// The value of node `id`.
    pub fn data(&self, id: NodeId) -> (r: GraphResult<&Tensor<E, B>>)
        ensures
            r is Ok <==> id < self@.len(),
            r matches Ok(t) ==> t@ == self@[id as int].data,
    {
        if id < self.nodes.len() {
            Ok(&self.nodes[id].data)
        } else {
            Err(GraphError(numbered("invalid node id", id)))
        }
    }

    /// The gradient of node `id`, absent if no backward pass reached it.
    pub fn grad(&self, id: NodeId) -> (r: GraphResult<Option<&Tensor<E, B>>>)
        ensures
            r is Ok <==> id < self@.len(),
            r matches Ok(g) ==> match g {
                Some(t) => self@[id as int].grad == Some(t@),
                None => self@[id as int].grad is None,
            },
    {
        if id < self.nodes.len() {
            Ok(self.nodes[id].grad.as_ref())
        } else {
            Err(GraphError(numbered("invalid node id", id)))
        }
    }

    /// Applies the operator `op_id` to the nodes `inputs`, appends the node
    /// that holds the result, and returns its identifier.
    ///
    /// Fails, and leaves the graph as it was, if an input is not a node of
    /// the graph or the operator cannot take the inputs.
    pub fn apply(&mut self, op_id: OpId, inputs: &[NodeId]) -> (r: GraphResult<NodeId>)
        requires
            old(self).wf(),
        ensures
            final(self).wf(),
            applied(old(self)@, op_id, inputs@, r, final(self)@),
    {
        let op = match self.registry.get(op_id) {
            Some(op) => op,
            None => {
                return Err(GraphError(join("unknown op ", op_id.name())));
            },
        };
        let count = inputs.len();
        let mut input_tensors: Vec<&Tensor<E, B>> = Vec::with_capacity(count);
        let mut k: usize = 0;
        while k < count
            invariant
                k <= count,
                count == inputs@.len(),
                self.wf(),
                self@ == old(self)@,
                input_tensors@.len() == k,
                forall|j: int| 0 <= j < k ==> (#[trigger] inputs@[j]) < self@.len(),
                forall|j: int|
                    0 <= j < k ==> (#[trigger] input_tensors@[j])@ == self@[inputs@[j] as int].data,
            decreases count - k,
        {
            let i = inputs[k];
            if i >= self.nodes.len() {
                return Err(GraphError("invalid input id".to_string()));
            }
            input_tensors.push(&self.nodes[i].data);
            k = k + 1;
        }
        proof {
            assert(views(input_tensors@) =~= gathered(self@, inputs@));
            assert forall|j: int| 0 <= j < count implies (#[trigger] views(input_tensors@)[j]).wf() by {
                assert(node_wf(self@, inputs@[j] as int));
            }
        }
        let data = match op.forward(input_tensors.as_slice()) {
            Ok(d) => d,
            Err(e) => {
                return Err(GraphError(e.0));
            },
        };
        let id = self.nodes.len();
        let ghost before = self@;
        let ghost added = NodeView { op: Some(op_id), inputs: inputs@, data: data@, grad: None };
        self.nodes.push(Node { op_id: Some(op_id), inputs: slice_to_vec(inputs), data, grad: None });
        proof {
            assert(self@ =~= before.push(added));
            assert(gathered(before.push(added), inputs@) =~= gathered(before, inputs@));
            lemma_push_keeps_wf(before, added);
            assert(self@.take(id as int) =~= before);
        }
        Ok(id)
    }

    /// Appends the node `a + b`, for two nodes of the same shape.
    pub fn add(&mut self, a: NodeId, b: NodeId) -> (r: GraphResult<NodeId>)
        requires
            old(self).wf(),
        ensures
            final(self).wf(),
            applied(old(self)@, OpId::Add, seq![a, b], r, final(self)@),
    {
        let ids = vec![a, b];
        proof {
            assert(ids@ =~= seq![a, b]);
        }
        self.apply(OpId::Add, ids.as_slice())
    }

    /// Appends the node `a + b`, for a matrix `a` and a vector `b` as long as a row of `a`.
    pub fn add_broadcast(&mut self, a: NodeId, b: NodeId) -> (r: GraphResult<NodeId>)
        requires
            old(self).wf(),
        ensures
            final(self).wf(),
            applied(old(self)@, OpId::AddBroadcast, seq![a, b], r, final(self)@),
    {
        let ids = vec![a, b];
        proof {
            assert(ids@ =~= seq![a, b]);
        }
        self.apply(OpId::AddBroadcast, ids.as_slice())
    }

    /// Appends the node `a - b`, for two nodes of the same shape.
    pub fn sub(&mut self, a: NodeId, b: NodeId) -> (r: GraphResult<NodeId>)
        requires
            old(self).wf(),
        ensures
            final(self).wf(),
            applied(old(self)@, OpId::Sub, seq![a, b], r, final(self)@),
    {
        let ids = vec![a, b];
        proof {
            assert(ids@ =~= seq![a, b]);
        }
        self.apply(OpId::Sub, ids.as_slice())
    }

    /// Appends the node `a * b` element by element, for two nodes of the same shape.
    pub fn mul(&mut self, a: NodeId, b: NodeId) -> (r: GraphResult<NodeId>)
        requires
            old(self).wf(),
        ensures
            final(self).wf(),
            applied(old(self)@, OpId::Mul, seq![a, b], r, final(self)@),
    {
        let ids = vec![a, b];
        proof {
            assert(ids@ =~= seq![a, b]);
        }
        self.apply(OpId::Mul, ids.as_slice())
    }

    /// Appends the node `a @ b`, the matrix product of two matrices.
    pub fn matmul(&mut self, a: NodeId, b: NodeId) -> (r: GraphResult<NodeId>)
        requires
            old(self).wf(),
        ensures
            final(self).wf(),
            applied(old(self)@, OpId::MatMul, seq![a, b], r, final(self)@),
    {
        let ids = vec![a, b];
        proof {
            assert(ids@ =~= seq![a, b]);
        }
        self.apply(OpId::MatMul, ids.as_slice())
    }

    /// Appends the node `max(0, a)`, element by element.
    pub fn relu(&mut self, a: NodeId) -> (r: GraphResult<NodeId>)
        requires
            old(self).wf(),
        ensures
            final(self).wf(),
            applied(old(self)@, OpId::ReLU, seq![a], r, final(self)@),
    {
        let ids = vec![a];
        proof {
            assert(ids@ =~= seq![a]);
        }
        self.apply(OpId::ReLU, ids.as_slice())
    }

    /// Appends the node that holds the sum of all elements of `a`, as a one-element array.
    pub fn sum(&mut self, a: NodeId) -> (r: GraphResult<NodeId>)
        requires
            old(self).wf(),
        ensures
            final(self).wf(),
            applied(old(self)@, OpId::Sum, seq![a], r, final(self)@),
    {
        let ids = vec![a];
        proof {
            assert(ids@ =~= seq![a]);
        }
        self.apply(OpId::Sum, ids.as_slice())
    }

    /// Appends the node that holds the logistic function of `a`, element by element.
    pub fn sigmoid(&mut self, a: NodeId) -> (r: GraphResult<NodeId>)
        requires
            old(self).wf(),
        ensures
            final(self).wf(),
            applied(old(self)@, OpId::Sigmoid, seq![a], r, final(self)@),
    {
        let ids = vec![a];
        proof {
            assert(ids@ =~= seq![a]);
        }
        self.apply(OpId::Sigmoid, ids.as_slice())
    }

    /// Appends the node that holds the softmax of `a` along its last axis.
    pub fn softmax(&mut self, a: NodeId) -> (r: GraphResult<NodeId>)
        requires
            old(self).wf(),
        ensures
            final(self).wf(),
            applied(old(self)@, OpId::Softmax, seq![a], r, final(self)@),
    {
        let ids = vec![a];
        proof {
            assert(ids@ =~= seq![a]);
        }
        self.apply(OpId::Softmax, ids.as_slice())
    }

    /// Appends the node that holds the natural logarithm of `a`, element by element.
    pub fn log(&mut self, a: NodeId) -> (r: GraphResult<NodeId>)
        requires
            old(self).wf(),
        ensures
            final(self).wf(),
            applied(old(self)@, OpId::Log, seq![a], r, final(self)@),
    {
        let ids = vec![a];
        proof {
            assert(ids@ =~= seq![a]);
        }
        self.apply(OpId::Log, ids.as_slice())
    }

    /// The order of the backward pass from `loss_id`: the reverse of the
    /// depth-first post-order along the inputs.
    fn reverse_topo(&self, loss_id: NodeId) -> (r: GraphResult<Vec<NodeId>>)
        requires
            self.wf(),
            loss_id < self@.len(),
        ensures
            r matches Ok(order) && order@ == backward_order(edges(self@), loss_id),
    {
        let mut post_order: Vec<NodeId> = Vec::new();
        let mut visited: HashSet<NodeId> = HashSet::new();
        proof {
            assert(node_edges(self.nodes@) =~= edges(self@));
            lemma_edges_precede(self@);
        }
        dfs(loss_id, &self.nodes, &mut visited, &mut post_order);
        let n = post_order.len();
        let mut order: Vec<NodeId> = Vec::with_capacity(n);
        let mut i: usize = n;
        while i > 0
            invariant
                i <= n,
                n == post_order@.len(),
                order@.len() == n - i,
                forall|j: int| 0 <= j < order@.len() ==> order@[j] == post_order@[n - 1 - j],
            decreases i,
        {
            i = i - 1;
            order.push(post_order[i]);
        }
        proof {
            assert(order@ =~= post_order@.reverse());
        }
        Ok(order)
    }

    /// Processes one node of the backward pass: hands the gradient of an
    /// operator node to the backward computation of its operator, and
    /// accumulates what comes back into the inputs. A leaf is left alone.
    fn propagate(&mut self, node_id: NodeId) -> (r: GraphResult<()>)
        requires
            old(self).wf(),
            node_id < old(self)@.len(),
            old(self)@[node_id as int].op is Some ==> old(self)@[node_id as int].grad is Some,
        ensures
            r is Ok,
            final(self).wf(),
            same_nodes(old(self)@, final(self)@),
            propagated(old(self)@, node_id as int, final(self)@),
            forall|w: int|
                0 <= w < old(self)@.len() && old(self)@[w].grad is Some ==> (#[trigger] final(self)@[w]).grad is Some,
            forall|k: int|
                0 <= k < old(self)@[node_id as int].inputs.len() ==> final(self)@[old(self)@[node_id as int].inputs[k] as int].grad is Some,
            forall|w: usize|
                w < old(self)@.len() && !old(self)@[node_id as int].inputs.contains(w) ==> (
                #[trigger] final(self)@[w as int]).grad == old(self)@[w as int].grad,
    {
        let ghost before = self@;
        proof {
            assert(node_wf(before, node_id as int));
        }
        let op_id = match self.nodes[node_id].op_id {
            Some(o) => o,
            None => {
                return Ok(());
            },
        };
        let inputs = slice_to_vec(self.nodes[node_id].inputs.as_slice());
        let data = self.nodes[node_id].data.clone();
        let grad_out = match &self.nodes[node_id].grad {
            Some(g) => g.clone(),
            None => {
                return Err(GraphError(numbered("missing grad at node", node_id)));
            },
        };
        let op = match self.registry.get(op_id) {
            Some(op) => op,
            None => {
                return Err(GraphError(join("unknown op ", op_id.name())));
            },
        };
        let count = inputs.len();
        let ghost ins = inputs@;
        let ghost xs = gathered(before, ins);
        let mut input_tensors: Vec<&Tensor<E, B>> = Vec::with_capacity(count);
        let mut k: usize = 0;
        while k < count
            invariant
                k <= count,
                count == ins.len(),
                inputs@ == ins,
                ins == before[node_id as int].inputs,
                self@ == before,
                node_id < before.len(),
                node_wf(before, node_id as int),
                input_tensors@.len() == k,
                forall|j: int|
                    0 <= j < k ==> (#[trigger] input_tensors@[j])@ == before[ins[j] as int].data,
            decreases count - k,
        {
            let i = inputs[k];
            proof {
                assert(ins[k as int] < node_id);
            }
            input_tensors.push(&self.nodes[i].data);
            k = k + 1;
        }
        proof {
            assert(views(input_tensors@) =~= xs);
            assert forall|j: int| 0 <= j < xs.len() implies (#[trigger] xs[j]).wf() by {
                assert(ins[j] < node_id);
                assert(node_wf(before, ins[j] as int));
            }
            lemma_backward_defined(op_id, xs, data@, grad_out@);
        }
        let mut rest = match op.backward(&grad_out, input_tensors.as_slice(), &data) {
            Ok(g) => g,
            Err(e) => {
                return Err(GraphError(e.0));
            },
        };
        let ghost gs = owned_views(rest@);
        proof {
            lemma_backward_shapes(op_id, xs, data@, grad_out@, gs);
            assert(count == gs.len());
        }
        let mut turned: Vec<Tensor<E, B>> = Vec::with_capacity(count);
        let mut m: usize = count;
        while m > 0
            invariant
                m <= count,
                count == gs.len(),
                rest@.len() == m,
                forall|j: int| 0 <= j < m ==> (#[trigger] rest@[j])@ == gs[j],
                turned@.len() == count - m,
                forall|j: int|
                    0 <= j < turned@.len() ==> (#[trigger] turned@[j])@ == gs[count - 1 - j],
            decreases m,
        {
            let g = match rest.pop() {
                Some(g) => g,
                None => {
                    return Err(GraphError("missing gradient".to_string()));
                },
            };
            turned.push(g);
            m = m - 1;
        }
        let ghost mut chain: Seq<Seq<NodeView<E>>> = seq![before];
        let mut k: usize = 0;
        while k < count
            invariant
                k <= count,
                count == ins.len(),
                count == gs.len(),
                inputs@ == ins,
                ins == before[node_id as int].inputs,
                node_id < before.len(),
                node_wf(before, node_id as int),
                self.wf(),
                same_nodes(before, self@),
                turned@.len() == count - k,
                forall|j: int|
                    0 <= j < turned@.len() ==> (#[trigger] turned@[j])@ == gs[count - 1 - j],
                forall|j: int|
                    0 <= j < count ==> (#[trigger] gs[j]).wf() && gs[j].dims == before[ins[j] as int].data.dims,
                chain.len() == k + 1,
                chain[0] == before,
                chain.last() == self@,
                forall|j: int|
                    0 <= j < k ==> deposited(chain[j], ins[j] as int, #[trigger] gs[j], chain[j + 1]),
                forall|w: int|
                    0 <= w < before.len() && before[w].grad is Some ==> (#[trigger] self@[w]).grad is Some,
                forall|j: int| 0 <= j < k ==> self@[ins[j] as int].grad is Some,
                forall|w: usize|
                    w < before.len() && !ins.contains(w) ==> (#[trigger] self@[w as int]).grad
                        == before[w as int].grad,
            decreases count - k,
        {
            let g = match turned.pop() {
                Some(g) => g,
                None => {
                    return Err(GraphError("missing gradient".to_string()));
                },
            };
            let target = inputs[k];
            let ghost mid = self@;
            proof {
                assert(ins[k as int] < node_id);
                assert(g@ == gs[k as int]);
                assert(gs[k as int].wf());
            }
            match self.accumulate_grad(target, g) {
                Ok(()) => {},
                Err(e) => {
                    return Err(e);
                },
            }
            proof {
                chain = chain.push(self@);
                assert forall|w: usize| w < before.len() && !ins.contains(w) implies (
                #[trigger] self@[w as int]).grad == before[w as int].grad by {
                    assert(ins[k as int] == target);
                    assert(w != target);
                    assert(mid[w as int].grad == before[w as int].grad);
                }
                assert forall|j: int| 0 <= j < k + 1 implies self@[ins[j] as int].grad is Some by {
                    if ins[j] != target {
                        assert(self@[ins[j] as int].grad == mid[ins[j] as int].grad);
                    }
                }
                assert forall|w: int|
                    0 <= w < before.len() && before[w].grad is Some implies (#[trigger] self@[w]).grad is Some by {
                    if w != target {
                        assert(self@[w].grad == mid[w].grad);
                    }
                }
            }
            k = k + 1;
        }
        proof {
            assert(is_deposit_chain(before, ins, gs, chain));
            assert(distributed(before, ins, gs, self@));
            assert(backward_rel(op_id, grad_out@, xs, data@, gs));
        }
        Ok(())
    }

    /// Runs the backward pass from node `loss_id`: seeds the gradient of that
    /// node with ones, then walks the nodes it depends on, each after every
    /// node that uses it, and accumulates gradients into their inputs.
    ///
    /// Fails, and leaves the graph as it was, if `loss_id` is not a node of
    /// the graph. Nodes that `loss_id` does not depend on keep their gradient;
    /// every node keeps its operator, its inputs and its value.
    pub fn backward(&mut self, loss_id: NodeId) -> (r: GraphResult<()>)
        requires
            old(self).wf(),
        ensures
            final(self).wf(),
            same_nodes(old(self)@, final(self)@),
            r is Ok <==> loss_id < old(self)@.len(),
            r is Err ==> final(self)@ == old(self)@,
            r is Ok ==> is_backward_pass(old(self)@, loss_id, final(self)@),
            r is Ok ==> forall|v: usize|
                v < old(self)@.len() && reaches(edges(old(self)@), loss_id as int, v as int) ==> (
                #[trigger] final(self)@[v as int]).grad is Some,
            r is Ok ==> forall|v: usize|
                v < old(self)@.len() && !reaches(edges(old(self)@), loss_id as int, v as int) ==> (
                #[trigger] final(self)@[v as int]).grad == old(self)@[v as int].grad,
    {
        if loss_id >= self.nodes.len() {
            return Err(GraphError(numbered("invalid node id", loss_id)));
        }
        let ghost start = self@;
        let ghost adj = edges(start);
        let order = match self.reverse_topo(loss_id) {
            Ok(o) => o,
            Err(e) => {
                return Err(e);
            },
        };
        proof {
            assert(node_wf(start, loss_id as int));
            lemma_edges_precede(start);
            lemma_backward_order(adj, loss_id);
        }
        let one = match self.nodes[loss_id].data.backend().ones(self.nodes[loss_id].data.shape()) {
            Ok(t) => t,
            Err(e) => {
                return Err(GraphError(e.to_string()));
            },
        };
        let ghost ones = one@;
        self.nodes[loss_id].grad = Some(one);
        let ghost seed = self@;
        proof {
            assert(same_nodes(start, seed));
            assert(seed[loss_id as int].grad == Some(ones));
            assert forall|i: int| 0 <= i < seed.len() implies ((#[trigger] seed[i]).grad matches Some(
                t,
            ) ==> t.wf() && t.dims == seed[i].data.dims) by {
                assert(node_wf(start, i));
                if i != loss_id {
                    assert(seed[i].grad == start[i].grad);
                }
            }
            lemma_grads_keep_wf(start, seed);
            assert(seeded(start, loss_id as int, seed));
        }
        let n = order.len();
        let ghost ord = order@;
        let ghost mut chain: Seq<Seq<NodeView<E>>> = seq![seed];
        let mut p: usize = 0;
        while p < n
            invariant
                p <= n,
                n == ord.len(),
                order@ == ord,
                ord == backward_order(adj, loss_id),
                adj == edges(start),
                inputs_precede(adj),
                loss_id < start.len(),
                ord[0] == loss_id,
                all_reached(adj, loss_id as int, ord),
                forall|q: int| 0 < q < ord.len() ==> #[trigger] fed_earlier(adj, ord, q),
                self.wf(),
                same_nodes(start, self@),
                chain.len() == p + 1,
                chain[0] == seed,
                chain.last() == self@,
                forall|q: int|
                    0 <= q < p ==> propagated(chain[q], (#[trigger] ord[q]) as int, chain[q + 1]),
                self@[loss_id as int].grad is Some,
                forall|q: int| 0 <= q < p ==> inputs_have_grads(self@, #[trigger] ord[q]),
                forall|v: usize|
                    v < start.len() && !reaches(adj, loss_id as int, v as int) ==> (
                    #[trigger] self@[v as int]).grad == start[v as int].grad,
            decreases n - p,
        {
            let node_id = order[p];
            let ghost mid = self@;
            proof {
                assert(ord[p as int] < adj.len() && reaches(adj, loss_id as int, ord[p as int] as int));
                assert(edges(mid) =~= adj);
                if p > 0 {
                    lemma_fed_has_grad(mid, ord, p as int);
                }
            }
            match self.propagate(node_id) {
                Ok(()) => {},
                Err(e) => {
                    return Err(e);
                },
            }
            proof {
                chain = chain.push(self@);
                lemma_step_keeps(start, mid, self@, loss_id, ord, p as int);
            }
            p = p + 1;
        }
        proof {
            assert(is_sweep(seed, ord, chain));
            assert(edges(self@) =~= adj);
            assert forall|v: usize|
                v < start.len() && reaches(adj, loss_id as int, v as int) implies (
            #[trigger] self@[v as int]).grad is Some by {
                lemma_backward_order_complete(adj, loss_id, v);
                let q = choose|q: int| 0 <= q < ord.len() && ord[q] == v;
                if q > 0 {
                    lemma_fed_has_grad(self@, ord, q);
                }
            }
        }
        Ok(())
    }

    /// Accumulates `g` into the gradient of node `node_id`: sets it where the
    /// node has no gradient, and adds `g` to the gradient it has otherwise.
    ///
    /// Fails, and leaves the graph as it was, if `node_id` is not a node of
    /// the graph, or if the node has a gradient of another shape than `g`.
    fn accumulate_grad(&mut self, node_id: NodeId, g: Tensor<E, B>) -> (r: GraphResult<()>)
        requires
            old(self).wf(),
            g@.wf(),
        ensures
            final(self).registry_ready(),
            r is Err <==> node_id >= old(self)@.len() || (old(self)@[node_id as int].grad matches Some(
                e,
            ) && e.dims != g@.dims),
            r is Err ==> final(self)@ == old(self)@,
            r is Ok ==> deposited(old(self)@, node_id as int, g@, final(self)@),
            node_id < old(self)@.len() && g@.dims == old(self)@[node_id as int].data.dims ==> r is Ok
                && final(self).wf(),
    {
        let ghost before = self@;
        if node_id >= self.nodes.len() {
            return Err(GraphError(numbered("invalid node id", node_id)));
        }
        proof {
            assert(node_wf(before, node_id as int));
        }
        let summed = match &self.nodes[node_id].grad {
            None => g,
            Some(existing) => match existing.add(&g) {
                Ok(t) => t,
                Err(e) => {
                    return Err(GraphError(e.to_string()));
                },
            },
        };
        let ghost total = summed@;
        self.nodes[node_id].grad = Some(summed);
        proof {
            assert(same_nodes(before, self@));
            assert(self@[node_id as int].grad == Some(total));
            if g@.dims == before[node_id as int].data.dims {
                assert forall|i: int| 0 <= i < self@.len() implies ((#[trigger] self@[i]).grad matches Some(
                    t,
                ) ==> t.wf() && t.dims == self@[i].data.dims) by {
                    assert(node_wf(before, i));
                    if i != node_id {
                        assert(self@[i].grad == before[i].grad);
                    }
                }
                lemma_grads_keep_wf(before, self@);
            }
        }
        Ok(())
    }
}

impl<E: Scalar, B: Backend<E>> Default for Graph<E, B> {
    fn default() -> (g: Self)
        ensures
            g.wf(),
            g@.len() == 0,
    {
        Graph::new()
    }
}

/// The result of applying the operator `op` to the nodes `ids` of the graph
/// `before`. Where every identifier names a node and the operator can take
/// the values of those nodes, the result is the identifier of a new node,
/// appended to the graph, that holds what the operator computes from them.
/// Otherwise the result is an error and the graph is as it was.
pub open spec fn applied<E: Scalar>(
    before: Seq<NodeView<E>>,
    op: OpId,
    ids: Seq<usize>,
    r: GraphResult<NodeId>,
    after: Seq<NodeView<E>>,
) -> bool {
    match r {
        Ok(id) => {
            &&& ids_valid(before, ids)
            &&& forward_defined(op, gathered(before, ids))
            &&& id == before.len()
            &&& after.len() == id + 1
            &&& after.take(id as int) == before
            &&& after[id as int].op == Some(op)
            &&& after[id as int].inputs == ids
            &&& after[id as int].grad is None
            &&& forward_rel(op, gathered(before, ids), after[id as int].data)
        },
        Err(_) => {
            &&& !(ids_valid(before, ids) && forward_defined(op, gathered(before, ids)))
            &&& after == before
        },
    }
}

/// The gradient `g` was accumulated into node `v`: set where the node had no
/// gradient, added to the gradient it had otherwise. Nothing else changed.
pub open spec fn deposited<E: Scalar>(
    before: Seq<NodeView<E>>,
    v: int,
    g: TensorView<E>,
    after: Seq<NodeView<E>>,
) -> bool {
    &&& same_nodes(before, after)
    &&& 0 <= v < before.len()
    &&& forall|w: int|
        0 <= w < before.len() && w != v ==> (#[trigger] after[w]).grad == before[w].grad
    &&& after[v].grad matches Some(t) && match before[v].grad {
        None => t == g,
        Some(e) => add_rel(e, g, t),
    }
}

/// `chain` holds the graph before and after each of the gradients `gs` is
/// accumulated in turn into the node of `ins` it belongs to.
pub open spec fn is_deposit_chain<E: Scalar>(
    before: Seq<NodeView<E>>,
    ins: Seq<usize>,
    gs: Seq<TensorView<E>>,
    chain: Seq<Seq<NodeView<E>>>,
) -> bool {
    &&& gs.len() == ins.len()
    &&& chain.len() == ins.len() + 1
    &&& chain[0] == before
    &&& forall|k: int|
        0 <= k < ins.len() ==> deposited(chain[k], ins[k] as int, #[trigger] gs[k], chain[k + 1])
}

/// The gradients `gs` were accumulated, in their order, into the nodes `ins`.
pub open spec fn distributed<E: Scalar>(
    before: Seq<NodeView<E>>,
    ins: Seq<usize>,
    gs: Seq<TensorView<E>>,
    after: Seq<NodeView<E>>,
) -> bool {
    exists|chain: Seq<Seq<NodeView<E>>>| #[trigger]
        is_deposit_chain(before, ins, gs, chain) && chain.last() == after
}

/// Node `u` was processed: a leaf changes nothing; an operator node hands its
/// gradient to the backward computation of its operator, and every gradient
/// that comes back is accumulated into the input it belongs to.
pub open spec fn propagated<E: Scalar>(
    before: Seq<NodeView<E>>,
    u: int,
    after: Seq<NodeView<E>>,
) -> bool {
    match before[u].op {
        None => after == before,
        Some(op) => before[u].grad matches Some(g) && exists|gs: Seq<TensorView<E>>| #[trigger]
            backward_rel(op, g, gathered(before, before[u].inputs), before[u].data, gs)
                && distributed(before, before[u].inputs, gs, after),
    }
}

/// `chain` holds the graph before and after each node of `order` is
/// processed in turn, starting from the graph `start`.
pub open spec fn is_sweep<E: Scalar>(
    start: Seq<NodeView<E>>,
    order: Seq<usize>,
    chain: Seq<Seq<NodeView<E>>>,
) -> bool {
    &&& chain.len() == order.len() + 1
    &&& chain[0] == start
    &&& forall|p: int|
        0 <= p < order.len() ==> propagated(chain[p], (#[trigger] order[p]) as int, chain[p + 1])
}

/// The gradient of node `out` was replaced by an array of ones of the shape of
/// the node's value. Nothing else changed.
pub open spec fn seeded<E: Scalar>(
    before: Seq<NodeView<E>>,
    out: int,
    after: Seq<NodeView<E>>,
) -> bool {
    &&& same_nodes(before, after)
    &&& 0 <= out < before.len()
    &&& forall|w: int|
        0 <= w < before.len() && w != out ==> (#[trigger] after[w]).grad == before[w].grad
    &&& after[out].grad matches Some(t) && ones_rel(before[out].data.dims, t)
}

/// `after` is the graph `before` after a backward pass from `out`: the
/// gradient of `out` is seeded with ones, then the nodes are processed in the
/// order of the backward pass.
pub open spec fn is_backward_pass<E: Scalar>(
    before: Seq<NodeView<E>>,
    out: usize,
    after: Seq<NodeView<E>>,
) -> bool {
    exists|seed: Seq<NodeView<E>>, chain: Seq<Seq<NodeView<E>>>|
        #![trigger is_sweep(seed, backward_order(edges(before), out), chain)]
        seeded(before, out as int, seed) && is_sweep(
            seed,
            backward_order(edges(before), out),
            chain,
        ) && chain.last() == after
}

/// Every input of node `u` has a gradient.
pub open spec fn inputs_have_grads<E>(net: Seq<NodeView<E>>, u: usize) -> bool {
    forall|k: int|
        0 <= k < net[u as int].inputs.len() ==> net[(#[trigger] net[u as int].inputs[k]) as int].grad is Some
}

/// A node that is an input of a node processed earlier has a gradient.
proof fn lemma_fed_has_grad<E: Scalar>(net: Seq<NodeView<E>>, ord: Seq<usize>, p: int)
    requires
        0 < p < ord.len(),
        fed_earlier(edges(net), ord, p),
        forall|q: int| 0 <= q < ord.len() ==> (#[trigger] ord[q]) < net.len(),
        forall|q: int| 0 <= q < p ==> inputs_have_grads(net, #[trigger] ord[q]),
    ensures
        net[ord[p] as int].grad is Some,
{
    let adj = edges(net);
    let q = choose|q: int| 0 <= q < p && #[trigger] consumes(adj, ord, q, p);
    assert(inputs_have_grads(net, ord[q]));
    let feeder = adj[ord[q] as int];
    let k = choose|k: int| 0 <= k < feeder.len() && feeder[k] == ord[p];
    assert(net[ord[q] as int].inputs[k] == ord[p]);
}

/// What one step of the backward pass keeps: the inputs of processed nodes
/// have gradients, and nodes out of reach keep their gradient.
proof fn lemma_step_keeps<E: Scalar>(
    start: Seq<NodeView<E>>,
    mid: Seq<NodeView<E>>,
    after: Seq<NodeView<E>>,
    loss_id: usize,
    ord: Seq<usize>,
    p: int,
)
    requires
        0 <= p < ord.len(),
        net_wf(mid),
        same_nodes(start, mid),
        same_nodes(mid, after),
        all_reached(edges(start), loss_id as int, ord),
        inputs_precede(edges(start)),
        forall|q: int| 0 <= q < p ==> inputs_have_grads(mid, #[trigger] ord[q]),
        forall|v: usize|
            v < start.len() && !reaches(edges(start), loss_id as int, v as int) ==> (
            #[trigger] mid[v as int]).grad == start[v as int].grad,
        forall|w: int|
            0 <= w < mid.len() && mid[w].grad is Some ==> (#[trigger] after[w]).grad is Some,
        forall|k: int|
            0 <= k < mid[ord[p] as int].inputs.len() ==> after[mid[ord[p] as int].inputs[k] as int].grad is Some,
        forall|w: usize|
            w < mid.len() && !mid[ord[p] as int].inputs.contains(w) ==> (#[trigger] after[w as int]).grad
                == mid[w as int].grad,
    ensures
        forall|q: int| 0 <= q < p + 1 ==> inputs_have_grads(after, #[trigger] ord[q]),
        forall|v: usize|
            v < start.len() && !reaches(edges(start), loss_id as int, v as int) ==> (
            #[trigger] after[v as int]).grad == start[v as int].grad,
{
    let adj = edges(start);
    let u = ord[p];
    assert(u < adj.len() && reaches(adj, loss_id as int, u as int));
    assert forall|q: int| 0 <= q < p + 1 implies inputs_have_grads(after, #[trigger] ord[q]) by {
        let x = ord[q];
        assert(x < adj.len());
        assert(node_wf(mid, x as int));
        assert(after[x as int].inputs == mid[x as int].inputs);
        if q < p {
            assert(inputs_have_grads(mid, x));
            assert forall|k: int| 0 <= k < after[x as int].inputs.len() implies after[(
            #[trigger] after[x as int].inputs[k]) as int].grad is Some by {
                let w = mid[x as int].inputs[k];
                assert(w < x);
                assert(mid[w as int].grad is Some);
            }
        } else {
            assert forall|k: int| 0 <= k < after[x as int].inputs.len() implies after[(
            #[trigger] after[x as int].inputs[k]) as int].grad is Some by {
                assert(after[mid[u as int].inputs[k] as int].grad is Some);
            }
        }
    }
    assert forall|w: usize|
        w < start.len() && !reaches(adj, loss_id as int, w as int) implies (
    #[trigger] after[w as int]).grad == start[w as int].grad by {
        let ins = mid[u as int].inputs;
        assert(node_wf(mid, u as int));
        if ins.contains(w) {
            let k = choose|k: int| 0 <= k < ins.len() && ins[k] == w;
            assert(ins[k] < u);
            assert(adj[u as int][k] == ins[k]);
            lemma_reaches_step(adj, loss_id as int, u as int, k);
        }
        assert(after[w as int].grad == mid[w as int].grad);
    }
}

/// In a sound graph every input of a node was created before the node.
pub proof fn lemma_edges_precede<E: Scalar>(net: Seq<NodeView<E>>)
    requires
        net_wf(net),
    ensures
        inputs_precede(edges(net)),
{
    assert forall|i: int, k: int|
        0 <= i < edges(net).len() && 0 <= k < edges(net)[i].len() implies (#[trigger] edges(
        net,
    )[i][k]) < i by {
        assert(node_wf(net, i));
        assert(net[i].inputs[k] < i);
    }
}

/// A graph that differs from a sound graph only in gradients that have the
/// shape of their node is sound.
pub proof fn lemma_grads_keep_wf<E: Scalar>(before: Seq<NodeView<E>>, after: Seq<NodeView<E>>)
    requires
        net_wf(before),
        same_nodes(before, after),
        forall|i: int|
            0 <= i < after.len() ==> ((#[trigger] after[i]).grad matches Some(g) ==> g.wf()
                && g.dims == after[i].data.dims),
    ensures
        net_wf(after),
{
    assert forall|i: int| 0 <= i < after.len() implies #[trigger] node_wf(after, i) by {
        assert(node_wf(before, i));
        assert(gathered(after, after[i].inputs) =~= gathered(before, before[i].inputs)) by {
            assert forall|k: int| 0 <= k < before[i].inputs.len() implies after[before[i].inputs[k] as int].data
                == before[before[i].inputs[k] as int].data by {
                assert(before[i].inputs[k] < i);
            }
        }
    }
}

/// Appending a sound node to a sound graph gives a sound graph.
pub proof fn lemma_push_keeps_wf<E: Scalar>(net: Seq<NodeView<E>>, added: NodeView<E>)
    requires
        net_wf(net),
        added.data.wf(),
        added.grad is None,
        forall|k: int| 0 <= k < added.inputs.len() ==> (#[trigger] added.inputs[k]) < net.len(),
        match added.op {
            None => added.inputs.len() == 0,
            Some(op) => forward_defined(op, gathered(net, added.inputs)) && forward_rel(
                op,
                gathered(net, added.inputs),
                added.data,
            ),
        },
    ensures
        net_wf(net.push(added)),
{
    let longer = net.push(added);
    assert forall|i: int| 0 <= i < longer.len() implies #[trigger] node_wf(longer, i) by {
        if i < net.len() {
            assert(node_wf(net, i));
            assert(gathered(longer, longer[i].inputs) =~= gathered(net, net[i].inputs));
        } else {
            assert(gathered(longer, added.inputs) =~= gathered(net, added.inputs));
        }
    }
}

} // verus!
