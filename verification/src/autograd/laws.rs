//! Laws of the backward pass.
//!
//! Accumulation: a node that feeds several consumers receives the sum of
//! what each of them hands back, never the last one only. Reduction: the
//! gradient of a sum spreads the gradient of the output over every element.
//! Shapes: the gradients of a matrix product mirror the operands.

use vstd::prelude::*;
use crate::autograd::graph::{deposited, distributed, gathered, is_deposit_chain, propagated,
    NodeView};
use crate::kernels::{add_rel, matmul_defined, matmul_rel, TensorView};
use crate::ops::{all_wf, backward_rel, lemma_backward_shapes, OpId};
use crate::scalar::{is_one, is_prod, Scalar};

verus! {

/// `after` is the gradient `before` with `g` accumulated into it.
pub open spec fn accumulated<E: Scalar>(
    before: Option<TensorView<E>>,
    g: TensorView<E>,
    after: Option<TensorView<E>>,
) -> bool {
    after matches Some(t) && match before {
        None => t == g,
        Some(e) => add_rel(e, g, t),
    }
}

/// Two gradients accumulated into a node that had none leave the node with
/// their element-wise sum.
pub proof fn lemma_deposit_twice<E: Scalar>(
    a: Seq<NodeView<E>>,
    v: int,
    g1: TensorView<E>,
    b: Seq<NodeView<E>>,
    g2: TensorView<E>,
    c: Seq<NodeView<E>>,
)
    requires
        a[v].grad is None,
        deposited(a, v, g1, b),
        deposited(b, v, g2, c),
    ensures
        c[v].grad matches Some(t) && add_rel(g1, g2, t),
{
}

/// Accumulating into other nodes leaves the gradient of `v` as it was.
pub proof fn lemma_chain_frame<E: Scalar>(
    before: Seq<NodeView<E>>,
    ins: Seq<usize>,
    gs: Seq<TensorView<E>>,
    chain: Seq<Seq<NodeView<E>>>,
    v: int,
    lo: int,
    hi: int,
)
    requires
        is_deposit_chain(before, ins, gs, chain),
        0 <= v < before.len(),
        0 <= lo <= hi <= ins.len(),
        forall|j: int| lo <= j < hi ==> ins[j] != v,
    ensures
        chain[hi].len() == before.len(),
        chain[hi][v].grad == chain[lo][v].grad,
    decreases hi - lo,
{
    lemma_chain_lengths(before, ins, gs, chain, hi);
    if lo < hi {
        lemma_chain_frame(before, ins, gs, chain, v, lo, hi - 1);
        assert(deposited(chain[hi - 1], ins[hi - 1] as int, gs[hi - 1], chain[hi]));
    }
}

/// Every graph of a chain of accumulations has the nodes of the first.
pub proof fn lemma_chain_lengths<E: Scalar>(
    before: Seq<NodeView<E>>,
    ins: Seq<usize>,
    gs: Seq<TensorView<E>>,
    chain: Seq<Seq<NodeView<E>>>,
    k: int,
)
    requires
        is_deposit_chain(before, ins, gs, chain),
        0 <= k <= ins.len(),
    ensures
        chain[k].len() == before.len(),
    decreases k,
{
    if k > 0 {
        lemma_chain_lengths(before, ins, gs, chain, k - 1);
        assert(deposited(chain[k - 1], ins[k - 1] as int, gs[k - 1], chain[k]));
    }
}

/// Where `v` is the input at `k` and at no other place, distributing the
/// gradients `gs` accumulates exactly `gs[k]` into `v`.
pub proof fn lemma_single_slot<E: Scalar>(
    before: Seq<NodeView<E>>,
    ins: Seq<usize>,
    gs: Seq<TensorView<E>>,
    after: Seq<NodeView<E>>,
    k: int,
    v: int,
)
    requires
        distributed(before, ins, gs, after),
        0 <= v < before.len(),
        0 <= k < ins.len(),
        ins[k] == v,
        forall|j: int| 0 <= j < ins.len() && j != k ==> ins[j] != v,
    ensures
        accumulated(before[v].grad, gs[k], after[v].grad),
{
    let chain = choose|chain: Seq<Seq<NodeView<E>>>| #[trigger]
        is_deposit_chain(before, ins, gs, chain) && chain.last() == after;
    lemma_chain_frame(before, ins, gs, chain, v, 0, k);
    assert(deposited(chain[k], ins[k] as int, gs[k], chain[k + 1]));
    lemma_chain_frame(before, ins, gs, chain, v, k + 1, ins.len() as int);
}

/// Fan-out within one consumer: a node without a gradient that is both inputs
/// of an operator node receives the sum of the two gradients that the
/// backward computation of that node returns.
pub proof fn lemma_shared_input<E: Scalar>(
    before: Seq<NodeView<E>>,
    u: int,
    v: int,
    after: Seq<NodeView<E>>,
)
    requires
        0 <= v < before.len(),
        before[u].op is Some,
        before[u].inputs == seq![v as usize, v as usize],
        v <= usize::MAX,
        before[v].grad is None,
        propagated(before, u, after),
    ensures
        exists|gs: Seq<TensorView<E>>| #[trigger]
            backward_rel(
                before[u].op->0,
                before[u].grad->0,
                gathered(before, before[u].inputs),
                before[u].data,
                gs,
            ) && (after[v].grad matches Some(t) && add_rel(gs[0], gs[1], t)),
{
    let op = before[u].op->0;
    let g = before[u].grad->0;
    let ins = before[u].inputs;
    let gs = choose|gs: Seq<TensorView<E>>| #[trigger]
        backward_rel(op, g, gathered(before, ins), before[u].data, gs) && distributed(
            before,
            ins,
            gs,
            after,
        );
    let chain = choose|chain: Seq<Seq<NodeView<E>>>| #[trigger]
        is_deposit_chain(before, ins, gs, chain) && chain.last() == after;
    assert(deposited(chain[0], ins[0] as int, gs[0], chain[1]));
    assert(deposited(chain[1], ins[1] as int, gs[1], chain[2]));
    lemma_deposit_twice(chain[0], v, gs[0], chain[1], gs[1], chain[2]);
}

/// Fan-out over two consumers: a node without a gradient that is an input,
/// at one place each, of two operator nodes processed one after the other
/// receives the sum of the gradients that the two backward computations
/// return for it.
pub proof fn lemma_two_consumers<E: Scalar>(
    a: Seq<NodeView<E>>,
    u1: int,
    k1: int,
    b: Seq<NodeView<E>>,
    u2: int,
    k2: int,
    c: Seq<NodeView<E>>,
    v: int,
)
    requires
        0 <= v < a.len(),
        a.len() == b.len(),
        a[v].grad is None,
        a[u1].op is Some,
        b[u2].op is Some,
        0 <= k1 < a[u1].inputs.len(),
        0 <= k2 < b[u2].inputs.len(),
        a[u1].inputs[k1] == v,
        b[u2].inputs[k2] == v,
        forall|j: int| 0 <= j < a[u1].inputs.len() && j != k1 ==> a[u1].inputs[j] != v,
        forall|j: int| 0 <= j < b[u2].inputs.len() && j != k2 ==> b[u2].inputs[j] != v,
        propagated(a, u1, b),
        propagated(b, u2, c),
    ensures
        exists|gs1: Seq<TensorView<E>>, gs2: Seq<TensorView<E>>|
            #![trigger gs1[k1], gs2[k2]]
            backward_rel(
                a[u1].op->0,
                a[u1].grad->0,
                gathered(a, a[u1].inputs),
                a[u1].data,
                gs1,
            ) && backward_rel(
                b[u2].op->0,
                b[u2].grad->0,
                gathered(b, b[u2].inputs),
                b[u2].data,
                gs2,
            ) && (c[v].grad matches Some(t) && add_rel(gs1[k1], gs2[k2], t)),
{
    let gs1 = choose|gs: Seq<TensorView<E>>| #[trigger]
        backward_rel(a[u1].op->0, a[u1].grad->0, gathered(a, a[u1].inputs), a[u1].data, gs)
            && distributed(a, a[u1].inputs, gs, b);
    let gs2 = choose|gs: Seq<TensorView<E>>| #[trigger]
        backward_rel(b[u2].op->0, b[u2].grad->0, gathered(b, b[u2].inputs), b[u2].data, gs)
            && distributed(b, b[u2].inputs, gs, c);
    lemma_single_slot(a, a[u1].inputs, gs1, b, k1, v);
    lemma_single_slot(b, b[u2].inputs, gs2, c, k2, v);
    assert(c[v].grad matches Some(t) && add_rel(gs1[k1], gs2[k2], t));
}

/// `r` is a one multiplied by `s`.
pub open spec fn is_one_times<E: Scalar>(s: E, r: E) -> bool {
    exists|one: E| #[trigger] is_one(one) && is_prod(one, s, r)
}

/// The gradient that `Sum` hands back for an input of `n` elements has the
/// shape of the input and holds `n` elements, each a one multiplied by the
/// gradient of the output.
pub proof fn lemma_sum_backward_fills<E: Scalar>(
    x: TensorView<E>,
    y: TensorView<E>,
    g: TensorView<E>,
    grads: Seq<TensorView<E>>,
)
    requires
        x.wf(),
        backward_rel(OpId::Sum, g, seq![x], y, grads),
    ensures
        grads.len() == 1,
        grads[0].dims == x.dims,
        grads[0].data.len() == x.data.len(),
        forall|i: int| 0 <= i < x.data.len() ==> is_one_times(g.data[0], #[trigger] grads[0].data[i]),
{
    let ones = choose|ones: TensorView<E>| #[trigger]
        crate::kernels::ones_rel(x.dims, ones) && crate::kernels::scale_rel(
            ones,
            g.data[0],
            grads[0],
        );
    assert forall|i: int| 0 <= i < x.data.len() implies is_one_times(
        g.data[0],
        #[trigger] grads[0].data[i],
    ) by {
        assert(is_one(ones.data[i]) && is_prod(ones.data[i], g.data[0], grads[0].data[i]));
    }
}

/// For `a` of shape `[m, k]` and `b` of shape `[k, n]`, the gradient that
/// `MatMul` hands back for `a` has the shape `[m, k]` and the one for `b` the
/// shape `[k, n]`, whatever the shape of the product.
pub proof fn lemma_matmul_gradient_shapes<E: Scalar>(
    a: TensorView<E>,
    b: TensorView<E>,
    y: TensorView<E>,
    g: TensorView<E>,
    grads: Seq<TensorView<E>>,
)
    requires
        a.wf(),
        b.wf(),
        matmul_defined(a.dims, b.dims),
        matmul_rel(a, b, y),
        g.dims == y.dims,
        backward_rel(OpId::MatMul, g, seq![a, b], y, grads),
    ensures
        grads.len() == 2,
        grads[0].dims == a.dims,
        grads[1].dims == b.dims,
{
    let xs = seq![a, b];
    assert(all_wf(xs)) by {
        assert forall|k: int| 0 <= k < xs.len() implies (#[trigger] xs[k]).wf() by {}
    }
    lemma_backward_shapes(OpId::MatMul, xs, y, g, grads);
    assert(xs[0] == a && xs[1] == b);
}

} // verus!
