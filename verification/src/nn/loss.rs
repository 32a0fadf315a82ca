//! Loss functions, on arrays and as nodes of a graph.

use vstd::prelude::*;
use crate::autograd::graph::{gathered, net_wf, node_wf, Graph, GraphError, GraphResult, NodeId,
    NodeView};
use crate::backend::Backend;
use crate::kernels::{add_rel, mul_rel, scale_rel, sum_rel, TensorView};
use crate::ops::{is_minus_one, OpId};
use crate::scalar::{is_count, is_neg, is_one, is_quot, Scalar};
use crate::shape::{lemma_product_single, Shape, ShapeError};
use crate::tensor::{Tensor, TensorError, TensorResult};

verus! {

/// `r` is `one / n` for a one and the count `n`.
pub open spec fn is_inverse_count<E: Scalar>(n: usize, r: E) -> bool {
    exists|one: E, count: E|
        #![trigger is_one(one), is_count(n, count)]
        is_one(one) && is_count(n, count) && is_quot(one, count, r)
}

/// `r` is `-one / n` for a one and the count `n`.
pub open spec fn is_negative_inverse_count<E: Scalar>(n: usize, r: E) -> bool {
    exists|minus_one: E, count: E|
        #![trigger is_minus_one(minus_one), is_count(n, count)]
        is_minus_one(minus_one) && is_count(n, count) && is_quot(minus_one, count, r)
}

/// `t` is the mean squared error of `pred` against `target`: the target is
/// negated and added to the prediction, the difference is squared element by
/// element, summed, and the sum divided by the number of elements.
pub open spec fn mse_rel<E: Scalar>(pred: TensorView<E>, target: TensorView<E>, t: TensorView<E>) -> bool {
    exists|minus_one: E, neg: TensorView<E>, diff: TensorView<E>, sq: TensorView<E>, total: TensorView<E>, inv: E|
        #![trigger scale_rel(target, minus_one, neg), add_rel(pred, neg, diff), mul_rel(diff, diff, sq), sum_rel(sq, total), scale_rel(total, inv, t)]
        is_minus_one(minus_one) && scale_rel(target, minus_one, neg) && add_rel(pred, neg, diff)
            && mul_rel(diff, diff, sq) && sum_rel(sq, total) && is_inverse_count(
            pred.data.len() as usize,
            inv,
        ) && scale_rel(total, inv, t)
}

/// The one-element array that holds `one / n`.
fn inverse_count<E: Scalar>(n: usize) -> (r: E)
    ensures
        is_inverse_count(n, r),
{
    let one = E::one();
    let count = E::from_count(n);
    let r = one.div(count);
    proof {
        assert(is_one(one) && is_count(n, count));
    }
    r
}

/// Mean squared error of `pred` against `target`, as a one-element array.
///
/// Fails with a shape error unless both arrays have the same shape.
pub fn mse<E: Scalar, B: Backend<E>>(pred: &Tensor<E, B>, target: &Tensor<E, B>) -> (r: TensorResult<
    Tensor<E, B>,
>)
    requires
        pred@.wf(),
        target@.wf(),
    ensures
        r is Ok <==> pred@.dims == target@.dims,
        r matches Ok(t) ==> t@.wf() && mse_rel(pred@, target@, t@),
        r matches Err(e) ==> e is Shape,
{
    if !pred.shape().same_as(target.shape()) {
        return Err(
            TensorError::Shape(ShapeError("mse: pred and target shape mismatch".to_string())),
        );
    }
    let one = E::one();
    let minus_one = one.neg();
    proof {
        assert(is_one(one) && is_neg(one, minus_one));
    }
    let neg_target = match target.scale(minus_one) {
        Ok(t) => t,
        Err(e) => {
            return Err(e);
        },
    };
    let diff = match pred.add(&neg_target) {
        Ok(t) => t,
        Err(e) => {
            return Err(e);
        },
    };
    let sq = match diff.mul(&diff) {
        Ok(t) => t,
        Err(e) => {
            return Err(e);
        },
    };
    let sum = match sq.sum() {
        Ok(t) => t,
        Err(e) => {
            return Err(e);
        },
    };
    let inv = inverse_count::<E>(pred.numel());
    match sum.scale(inv) {
        Ok(t) => {
            proof {
                assert(scale_rel(target@, minus_one, neg_target@) && add_rel(
                    pred@,
                    neg_target@,
                    diff@,
                ) && mul_rel(diff@, diff@, sq@) && sum_rel(sq@, sum@) && scale_rel(sum@, inv, t@));
            }
            Ok(t)
        },
        Err(e) => Err(e),
    }
}

/// The graph `after` holds the nodes of `before`, unchanged, and then more.
pub open spec fn extends<E>(before: Seq<NodeView<E>>, after: Seq<NodeView<E>>) -> bool {
    before.len() <= after.len() && after.take(before.len() as int) == before
}

/// Node `id` of the graph is the operator `op` applied to the nodes `inputs`.
pub open spec fn is_op<E>(net: Seq<NodeView<E>>, id: int, op: OpId, inputs: Seq<usize>) -> bool {
    net[id].op == Some(op) && net[id].inputs == inputs
}

/// Node `id` of the graph is a leaf that holds one element, `one / n`.
pub open spec fn is_inverse_count_leaf<E: Scalar>(net: Seq<NodeView<E>>, id: int, n: usize) -> bool {
    &&& net[id].op is None
    &&& net[id].data.dims == seq![1usize]
    &&& net[id].data.data.len() == 1
    &&& is_inverse_count(n, net[id].data.data[0])
}

/// The nodes that `mse_graph` appends for the prediction `pred` and the
/// target `target`: the target as a leaf, the difference, its square, the sum
/// of the square, the leaf `1 / n`, and their product, which is the loss.
pub open spec fn mse_nodes<E: Scalar>(
    before: Seq<NodeView<E>>,
    pred: usize,
    target: TensorView<E>,
    after: Seq<NodeView<E>>,
) -> bool {
    let n = before.len() as int;
    &&& after.len() == n + 6
    &&& extends(before, after)
    &&& after[n].op is None && after[n].data == target
    &&& is_op(after, n + 1, OpId::Sub, seq![pred, n as usize])
    &&& is_op(after, n + 2, OpId::Mul, seq![(n + 1) as usize, (n + 1) as usize])
    &&& is_op(after, n + 3, OpId::Sum, seq![(n + 2) as usize])
    &&& is_inverse_count_leaf(after, n + 4, after[pred as int].data.data.len() as usize)
    &&& is_op(after, n + 5, OpId::Mul, seq![(n + 3) as usize, (n + 4) as usize])
}

/// Extending a graph twice extends it.
pub proof fn lemma_extends_trans<E>(a: Seq<NodeView<E>>, b: Seq<NodeView<E>>, c: Seq<NodeView<E>>)
    requires
        extends(a, b),
        extends(b, c),
    ensures
        extends(a, c),
        forall|i: int| 0 <= i < a.len() ==> c[i] == a[i],
        forall|i: int| 0 <= i < b.len() ==> c[i] == b[i],
{
    assert forall|i: int| 0 <= i < b.len() implies c[i] == b[i] by {
        assert(c.take(b.len() as int)[i] == c[i]);
    }
    assert forall|i: int| 0 <= i < a.len() implies c[i] == a[i] by {
        assert(b.take(a.len() as int)[i] == b[i]);
    }
    assert(c.take(a.len() as int) =~= a);
}

/// A leaf that holds `one / n`, appended to the graph.
fn inverse_count_leaf<E: Scalar, B: Backend<E>>(
    g: &mut Graph<E, B>,
    n: usize,
    backend: std::sync::Arc<B>,
) -> (id: NodeId)
    requires
        old(g).wf(),
    ensures
        final(g).wf(),
        id == old(g)@.len(),
        final(g)@.len() == id + 1,
        extends(old(g)@, final(g)@),
        is_inverse_count_leaf(final(g)@, id as int, n),
{
    let inv = inverse_count::<E>(n);
    let data = vec![inv];
    let shape = Shape::new(vec![1]);
    proof {
        lemma_product_single(1);
        assert(shape@ =~= seq![1usize]);
    }
    let ghost before = g@;
    match Tensor::from_vec(data, shape, backend) {
        Ok(t) => {
            let id = g.var(t);
            proof {
                assert(g@.take(before.len() as int) =~= before);
            }
            id
        },
        Err(_) => {
            proof {
                assert(false);
            }
            0
        },
    }
}

/// The graph `net` with one more leaf, which holds `x`.
pub open spec fn with_leaf<E>(net: Seq<NodeView<E>>, x: TensorView<E>) -> Seq<NodeView<E>> {
    net.push(NodeView { op: None, inputs: Seq::empty(), data: x, grad: None })
}

/// Appends the target as a leaf, then the nodes of the mean squared error of
/// node `pred_id` against it, and returns the node of the loss.
///
/// Fails unless `pred_id` is a node of the graph, the new leaf included,
/// whose value has the shape of `target`. The leaf stays in either case.
pub fn mse_graph<E: Scalar, B: Backend<E>>(
    g: &mut Graph<E, B>,
    pred_id: NodeId,
    target: &Tensor<E, B>,
) -> (r: GraphResult<NodeId>)
    requires
        old(g).wf(),
        target@.wf(),
    ensures
        final(g).wf(),
        extends(with_leaf(old(g)@, target@), final(g)@),
        r is Ok <==> pred_id <= old(g)@.len() && with_leaf(
            old(g)@,
            target@,
        )[pred_id as int].data.dims == target@.dims,
        r matches Ok(id) ==> id == old(g)@.len() + 5 && mse_nodes(
            old(g)@,
            pred_id,
            target@,
            final(g)@,
        ),
        r is Err ==> final(g)@ == with_leaf(old(g)@, target@),
{
    let ghost g0 = g@;
    let target_id = g.var(target.clone());
    let ghost g1 = g@;
    proof {
        assert(g1 == with_leaf(g0, target@));
        assert(g1.take(g0.len() as int) =~= g0);
        assert(g1.take(g1.len() as int) =~= g1);
    }
    let diff_id = match g.sub(pred_id, target_id) {
        Ok(id) => id,
        Err(e) => {
            proof {
                let ids = seq![pred_id, target_id];
                let xs = gathered(g1, ids);
                if pred_id <= g0.len() {
                    assert(ids[0] < g1.len() && ids[1] < g1.len());
                    assert(xs[0] == g1[pred_id as int].data);
                    assert(xs[1] == g1[target_id as int].data);
                } else {
                    assert(!(ids[0] < g1.len()));
                }
            }
            return Err(e);
        },
    };
    let ghost g2 = g@;
    proof {
        let xs = gathered(g1, seq![pred_id, target_id]);
        assert(seq![pred_id, target_id][0] < g1.len());
        assert(xs[0] == g1[pred_id as int].data);
        assert(xs[1] == g1[target_id as int].data);
        lemma_extends_trans(g0, g1, g2);
        assert(g2.take(g1.len() as int)[pred_id as int] == g2[pred_id as int]);
    }
    let (count, backend) = match g.data(pred_id) {
        Ok(t) => (t.numel(), t.backend()),
        Err(e) => {
            return Err(e);
        },
    };
    let sq_id = match g.mul(diff_id, diff_id) {
        Ok(id) => id,
        Err(e) => {
            proof {
                let xs = gathered(g2, seq![diff_id, diff_id]);
                assert(xs[0] == xs[1]);
                assert(seq![diff_id, diff_id][0] < g2.len() && seq![diff_id, diff_id][1] < g2.len());
                assert(false);
            }
            return Err(e);
        },
    };
    let ghost g3 = g@;
    proof {
        lemma_extends_trans(g0, g2, g3);
        lemma_extends_trans(g1, g2, g3);
    }
    let sum_id = match g.sum(sq_id) {
        Ok(id) => id,
        Err(e) => {
            proof {
                assert(seq![sq_id][0] < g3.len());
                assert(false);
            }
            return Err(e);
        },
    };
    let ghost g4 = g@;
    proof {
        lemma_extends_trans(g0, g3, g4);
        lemma_extends_trans(g1, g3, g4);
        lemma_extends_trans(g2, g3, g4);
    }
    let c_id = inverse_count_leaf(g, count, backend);
    let ghost g5 = g@;
    proof {
        lemma_extends_trans(g0, g4, g5);
        lemma_extends_trans(g1, g4, g5);
        lemma_extends_trans(g2, g4, g5);
        lemma_extends_trans(g3, g4, g5);
    }
    let scale_id = match g.mul(sum_id, c_id) {
        Ok(id) => id,
        Err(e) => {
            proof {
                let xs = gathered(g5, seq![sum_id, c_id]);
                assert(seq![sum_id, c_id][0] < g5.len() && seq![sum_id, c_id][1] < g5.len());
                assert(xs[0] == g5[sum_id as int].data);
                assert(xs[1] == g5[c_id as int].data);
                assert(node_wf(g5, sum_id as int));
                assert(g5[sum_id as int].op == Some(OpId::Sum));
                assert(false);
            }
            return Err(e);
        },
    };
    proof {
        let g6 = g@;
        lemma_extends_trans(g0, g5, g6);
        lemma_extends_trans(g1, g5, g6);
        lemma_extends_trans(g2, g5, g6);
        lemma_extends_trans(g3, g5, g6);
        lemma_extends_trans(g4, g5, g6);
        let n = g0.len() as int;
        assert(g6[n] == g1[n]);
        assert(g6[n + 1] == g2[n + 1]);
        assert(g6[n + 2] == g3[n + 2]);
        assert(g6[n + 3] == g4[n + 3]);
        assert(g6[n + 4] == g5[n + 4]);
        lemma_extends_trans(g0, g1, g6);
        assert(g6.take(g2.len() as int)[pred_id as int] == g6[pred_id as int]);
        assert(g6[pred_id as int].data.data.len() == count);
    }
    Ok(scale_id)
}

/// Node `id` of the graph is a leaf that holds one element, `-one / n`.
pub open spec fn is_negative_inverse_count_leaf<E: Scalar>(
    net: Seq<NodeView<E>>,
    id: int,
    n: usize,
) -> bool {
    &&& net[id].op is None
    &&& net[id].data.dims == seq![1usize]
    &&& net[id].data.data.len() == 1
    &&& is_negative_inverse_count(n, net[id].data.data[0])
}

/// The nodes that `ce_graph` appends for the logits `logits` and the one-hot
/// target `target`: the softmax of the logits, its logarithm, the target as a
/// leaf, the product of target and logarithm, its sum, the leaf `-1 / b` for
/// the batch size `b`, and their product, which is the loss.
pub open spec fn ce_nodes<E: Scalar>(
    before: Seq<NodeView<E>>,
    logits: usize,
    target: TensorView<E>,
    after: Seq<NodeView<E>>,
) -> bool {
    let n = before.len() as int;
    &&& after.len() == n + 7
    &&& extends(before, after)
    &&& is_op(after, n, OpId::Softmax, seq![logits])
    &&& is_op(after, n + 1, OpId::Log, seq![n as usize])
    &&& after[n + 2].op is None && after[n + 2].data == target
    &&& is_op(after, n + 3, OpId::Mul, seq![(n + 2) as usize, (n + 1) as usize])
    &&& is_op(after, n + 4, OpId::Sum, seq![(n + 3) as usize])
    &&& is_negative_inverse_count_leaf(after, n + 5, before[logits as int].data.dims[0])
    &&& is_op(after, n + 6, OpId::Mul, seq![(n + 4) as usize, (n + 5) as usize])
}

/// A leaf that holds `-one / n`, appended to the graph.
fn negative_inverse_count_leaf<E: Scalar, B: Backend<E>>(
    g: &mut Graph<E, B>,
    n: usize,
    backend: std::sync::Arc<B>,
) -> (id: NodeId)
    requires
        old(g).wf(),
    ensures
        final(g).wf(),
        id == old(g)@.len(),
        final(g)@.len() == id + 1,
        extends(old(g)@, final(g)@),
        is_negative_inverse_count_leaf(final(g)@, id as int, n),
{
    let one = E::one();
    let minus_one = one.neg();
    let count = E::from_count(n);
    let value = minus_one.div(count);
    proof {
        assert(is_one(one) && is_neg(one, minus_one));
        assert(is_minus_one(minus_one) && is_count(n, count));
    }
    let data = vec![value];
    let shape = Shape::new(vec![1]);
    proof {
        lemma_product_single(1);
        assert(shape@ =~= seq![1usize]);
    }
    let ghost before = g@;
    match Tensor::from_vec(data, shape, backend) {
        Ok(t) => {
            let id = g.var(t);
            proof {
                assert(g@.take(before.len() as int) =~= before);
            }
            id
        },
        Err(_) => {
            proof {
                assert(false);
            }
            0
        },
    }
}

/// Appends the nodes of the cross-entropy of the logits in node `logits_id`
/// against the one-hot `target`, averaged over the first axis, and returns
/// the node of the loss.
///
/// Fails, and leaves the graph as it was, unless `logits_id` is a node of the
/// graph whose value has the shape of `target`, with at least one axis.
pub fn ce_graph<E: Scalar, B: Backend<E>>(
    g: &mut Graph<E, B>,
    logits_id: NodeId,
    target: &Tensor<E, B>,
) -> (r: GraphResult<NodeId>)
    requires
        old(g).wf(),
        target@.wf(),
    ensures
        final(g).wf(),
        r is Ok <==> logits_id < old(g)@.len() && old(g)@[logits_id as int].data.dims
            == target@.dims && target@.dims.len() >= 1,
        r matches Ok(id) ==> id == old(g)@.len() + 6 && ce_nodes(
            old(g)@,
            logits_id,
            target@,
            final(g)@,
        ),
        r is Err ==> final(g)@ == old(g)@,
{
    let ghost g0 = g@;
    let logits = match g.data(logits_id) {
        Ok(t) => t,
        Err(e) => {
            return Err(e);
        },
    };
    if !logits.shape().same_as(target.shape()) {
        return Err(GraphError("ce_graph: logits and target shape mismatch".to_string()));
    }
    let dims = logits.shape().dims();
    if dims.len() == 0 {
        return Err(GraphError("ce_graph: logits need a batch axis".to_string()));
    }
    let batch = dims[0];
    let backend = logits.backend();
    proof {
        assert(node_wf(g0, logits_id as int));
    }
    let softmax_id = match g.softmax(logits_id) {
        Ok(id) => id,
        Err(e) => {
            proof {
                assert(seq![logits_id][0] < g0.len());
                assert(gathered(g0, seq![logits_id])[0] == g0[logits_id as int].data);
                assert(false);
            }
            return Err(e);
        },
    };
    let ghost g1 = g@;
    proof {
        assert(gathered(g0, seq![logits_id])[0] == g0[logits_id as int].data);
        assert(node_wf(g1, softmax_id as int));
    }
    let log_id = match g.log(softmax_id) {
        Ok(id) => id,
        Err(e) => {
            proof {
                assert(seq![softmax_id][0] < g1.len());
                assert(false);
            }
            return Err(e);
        },
    };
    let ghost g2 = g@;
    proof {
        lemma_extends_trans(g0, g1, g2);
        assert(gathered(g1, seq![softmax_id])[0] == g1[softmax_id as int].data);
    }
    let target_id = g.var(target.clone());
    let ghost g3 = g@;
    proof {
        assert(g3.take(g2.len() as int) =~= g2);
        lemma_extends_trans(g0, g2, g3);
        lemma_extends_trans(g1, g2, g3);
    }
    let mul_id = match g.mul(target_id, log_id) {
        Ok(id) => id,
        Err(e) => {
            proof {
                let ids = seq![target_id, log_id];
                let xs = gathered(g3, ids);
                assert(ids[0] < g3.len() && ids[1] < g3.len());
                assert(xs[0] == g3[target_id as int].data);
                assert(xs[1] == g3[log_id as int].data);
                assert(false);
            }
            return Err(e);
        },
    };
    let ghost g4 = g@;
    proof {
        lemma_extends_trans(g0, g3, g4);
        lemma_extends_trans(g1, g3, g4);
        lemma_extends_trans(g2, g3, g4);
    }
    let sum_id = match g.sum(mul_id) {
        Ok(id) => id,
        Err(e) => {
            proof {
                assert(seq![mul_id][0] < g4.len());
                assert(false);
            }
            return Err(e);
        },
    };
    let ghost g5 = g@;
    proof {
        lemma_extends_trans(g0, g4, g5);
        lemma_extends_trans(g1, g4, g5);
        lemma_extends_trans(g2, g4, g5);
        lemma_extends_trans(g3, g4, g5);
    }
    let c_id = negative_inverse_count_leaf(g, batch, backend);
    let ghost g6 = g@;
    proof {
        lemma_extends_trans(g0, g5, g6);
        lemma_extends_trans(g1, g5, g6);
        lemma_extends_trans(g2, g5, g6);
        lemma_extends_trans(g3, g5, g6);
        lemma_extends_trans(g4, g5, g6);
    }
    let loss_id = match g.mul(sum_id, c_id) {
        Ok(id) => id,
        Err(e) => {
            proof {
                let xs = gathered(g6, seq![sum_id, c_id]);
                assert(seq![sum_id, c_id][0] < g6.len() && seq![sum_id, c_id][1] < g6.len());
                assert(xs[0] == g6[sum_id as int].data);
                assert(xs[1] == g6[c_id as int].data);
                assert(node_wf(g6, sum_id as int));
                assert(g6[sum_id as int].op == Some(OpId::Sum));
                assert(false);
            }
            return Err(e);
        },
    };
    proof {
        let g7 = g@;
        lemma_extends_trans(g0, g6, g7);
        lemma_extends_trans(g1, g6, g7);
        lemma_extends_trans(g2, g6, g7);
        lemma_extends_trans(g3, g6, g7);
        lemma_extends_trans(g4, g6, g7);
        lemma_extends_trans(g5, g6, g7);
        let n = g0.len() as int;
        assert(g7[n] == g1[n]);
        assert(g7[n + 1] == g2[n + 1]);
        assert(g7[n + 2] == g3[n + 2]);
        assert(g7[n + 3] == g4[n + 3]);
        assert(g7[n + 4] == g5[n + 4]);
        assert(g7[n + 5] == g6[n + 5]);
    }
    Ok(loss_id)
}

/// A product of a sum with another node holds one element.
pub proof fn lemma_scaled_sum_single<E: Scalar>(net: Seq<NodeView<E>>, id: int, sum: usize, other: usize, of: usize)
    requires
        net_wf(net),
        0 <= id < net.len(),
        is_op(net, id, OpId::Mul, seq![sum, other]),
        is_op(net, sum as int, OpId::Sum, seq![of]),
    ensures
        net[id].data.dims == seq![1usize],
        net[id].data.data.len() == 1,
{
    assert(node_wf(net, id));
    let xs = gathered(net, seq![sum, other]);
    assert(seq![sum, other][0] == sum);
    assert(xs[0] == net[sum as int].data);
    assert(node_wf(net, sum as int));
}

} // verus!
