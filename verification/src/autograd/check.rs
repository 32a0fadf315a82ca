//! Gradient check: the gradients of a backward pass against central
//! differences of the loss.

use vstd::prelude::*;
use crate::autograd::graph::{is_backward_pass, Graph, GraphResult, NodeId, NodeView};
use crate::backend::Backend;
use crate::kernels::TensorView;
use crate::scalar::{is_count, is_diff, is_greater, is_neg, is_prod, is_quot, is_ratio, is_sign,
    is_sum, ratio, Scalar};
use crate::tensor::{tensor_views, Tensor};
use crate::text::{join, numbered};

verus! {

/// The default step of a central difference: one ten-thousandth.
pub fn default_eps<E: Scalar>() -> (eps: E)
    ensures
        is_ratio(1, 10000, eps),
{
    ratio::<E>(1, 10000)
}

/// `r` is the absolute value of `x`: `x` itself if it is positive, its
/// negation otherwise.
pub open spec fn is_abs<E: Scalar>(x: E, r: E) -> bool {
    exists|positive: bool| #[trigger]
        is_sign(x, positive) && if positive {
            r == x
        } else {
            is_neg(x, r)
        }
}

/// The absolute value of `x`.
fn abs<E: Scalar>(x: E) -> (r: E)
    ensures
        is_abs(x, r),
{
    let positive = x.is_positive();
    let r = if positive {
        x
    } else {
        x.neg()
    };
    proof {
        assert(is_sign(x, positive));
    }
    r
}

/// `ok` tells whether the gradient `a` agrees with the estimate `n`:
/// whether `|a - n|` does not exceed `atol + rtol * |n|`.
pub open spec fn is_agreement<E: Scalar>(a: E, n: E, rtol: E, atol: E, ok: bool) -> bool {
    exists|d: E, diff: E, size: E, part: E, bound: E, wide: bool|
        #![trigger is_diff(a, n, d), is_abs(d, diff), is_abs(n, size), is_prod(rtol, size, part), is_sum(atol, part, bound), is_greater(diff, bound, wide)]
        is_diff(a, n, d) && is_abs(d, diff) && is_abs(n, size) && is_prod(rtol, size, part) && is_sum(
            atol,
            part,
            bound,
        ) && is_greater(diff, bound, wide) && ok == !wide
}

/// Whether the gradient `a` agrees with the estimate `n` within the
/// tolerances: whether `|a - n| <= atol + rtol * |n|`.
pub fn agree<E: Scalar>(a: E, n: E, rtol: E, atol: E) -> (ok: bool)
    ensures
        is_agreement(a, n, rtol, atol, ok),
{
    let d = a.sub(n);
    let diff = abs(d);
    let size = abs(n);
    let part = rtol.mul(size);
    let bound = atol.add(part);
    let wide = diff.exceeds(bound);
    proof {
        assert(is_diff(a, n, d) && is_abs(d, diff) && is_abs(n, size) && is_prod(rtol, size, part)
            && is_sum(atol, part, bound) && is_greater(diff, bound, wide));
    }
    !wide
}

/// The array `x` with element `i` replaced by `v`.
pub open spec fn moved<E>(x: TensorView<E>, i: int, v: E) -> TensorView<E> {
    TensorView { dims: x.dims, data: x.data.update(i, v) }
}

/// The array `x` with element `i` replaced by `v`.
fn shifted<E: Scalar, B: Backend<E>>(x: &Tensor<E, B>, i: usize, v: E) -> (t: Tensor<E, B>)
    requires
        x@.wf(),
        i < x@.data.len(),
    ensures
        t@ == moved(x@, i as int, v),
        t@.wf(),
{
    let mut t = x.clone();
    let d = t.data_mut();
    d[i] = v;
    proof {
        assert(t@.data =~= x@.data.update(i as int, v));
    }
    t
}

/// `r` is `(up - down) / (2 * eps)`.
pub open spec fn is_central<E: Scalar>(up: E, down: E, eps: E, r: E) -> bool {
    exists|diff: E, two: E, width: E|
        #![trigger is_diff(up, down, diff), is_count(2, two), is_prod(two, eps, width)]
        is_diff(up, down, diff) && is_count(2, two) && is_prod(two, eps, width) && is_quot(
            diff,
            width,
            r,
        )
}

/// The central difference `(up - down) / (2 * eps)`.
fn central<E: Scalar>(up: E, down: E, eps: E) -> (r: E)
    ensures
        is_central(up, down, eps, r),
{
    let diff = up.sub(down);
    let two = E::from_count(2);
    let width = two.mul(eps);
    let r = diff.div(width);
    proof {
        assert(is_diff(up, down, diff) && is_count(2, two) && is_prod(two, eps, width));
    }
    r
}

/// `r` is the central difference of `f` at `x` along element `i`: `f` at
/// `x` with `eps` added to the element, minus `f` at `x` with `eps` taken
/// from it, over `2 * eps`.
pub open spec fn is_slope<E: Scalar, B: Backend<E>, F: Fn(&Tensor<E, B>) -> E>(
    f: F,
    x: TensorView<E>,
    i: int,
    eps: E,
    r: E,
) -> bool {
    exists|plus: Tensor<E, B>, minus: Tensor<E, B>, up: E, down: E|
        #![trigger f.ensures((&plus,), up), f.ensures((&minus,), down)]
        is_sum(x.data[i], eps, plus@.data[i]) && plus@ == moved(x, i, plus@.data[i]) && is_diff(
            x.data[i],
            eps,
            minus@.data[i],
        ) && minus@ == moved(x, i, minus@.data[i]) && f.ensures((&plus,), up) && f.ensures(
            (&minus,),
            down,
        ) && is_central(up, down, eps, r)
}

/// The gradient of `f` at `x`, estimated element by element with central
/// differences of step `eps`.
pub fn numerical_grad<E: Scalar, B: Backend<E>, F: Fn(&Tensor<E, B>) -> E>(
    x: &Tensor<E, B>,
    f: F,
    eps: E,
) -> (grad: Vec<E>)
    requires
        x@.wf(),
        forall|t: &Tensor<E, B>| t@.wf() && t@.dims == x@.dims ==> #[trigger] f.requires((t,)),
    ensures
        grad@.len() == x@.data.len(),
        forall|i: int| 0 <= i < grad@.len() ==> is_slope(f, x@, i, eps, #[trigger] grad@[i]),
{
    let data = x.data();
    let n = data.len();
    let mut grad: Vec<E> = Vec::with_capacity(n);
    let mut i: usize = 0;
    while i < n
        invariant
            i <= n,
            n == x@.data.len(),
            data@ == x@.data,
            x@.wf(),
            forall|t: &Tensor<E, B>| t@.wf() && t@.dims == x@.dims ==> #[trigger] f.requires((t,)),
            grad@.len() == i,
            forall|k: int| 0 <= k < i ==> is_slope(f, x@, k, eps, #[trigger] grad@[k]),
        decreases n - i,
    {
        let p = data[i].add(eps);
        let m = data[i].sub(eps);
        let plus = shifted(x, i, p);
        let minus = shifted(x, i, m);
        let up = f(&plus);
        let down = f(&minus);
        let r = central(up, down, eps);
        proof {
            assert(f.ensures((&plus,), up) && f.ensures((&minus,), down));
            assert(is_slope(f, x@, i as int, eps, r));
        }
        grad.push(r);
        i = i + 1;
    }
    grad
}

/// The graph holds exactly the leaves `leaves`, in order, without gradients.
pub open spec fn is_leaves<E>(net: Seq<NodeView<E>>, leaves: Seq<TensorView<E>>) -> bool {
    net.len() == leaves.len() && forall|k: int|
        0 <= k < net.len() ==> #[trigger] net[k] == (NodeView {
            op: None,
            inputs: Seq::empty(),
            data: leaves[k],
            grad: None,
        })
}

/// The identifiers `0, 1, ..., n - 1`.
pub open spec fn first_ids(n: nat) -> Seq<usize> {
    Seq::new(n, |k: int| k as usize)
}

/// The values of `inputs`, with `x` in place of the one at `at`.
pub open spec fn leaves_with<E, B>(inputs: Seq<Tensor<E, B>>, at: int, x: TensorView<E>) -> Seq<
    TensorView<E>,
> {
    Seq::new(
        inputs.len(),
        |k: int|
            if k == at {
                x
            } else {
                inputs[k]@
            },
    )
}

/// The values that the leaves of a graph for `inputs` hold: the values of
/// the inputs, with that of `other.1` in place of the one at `other.0`.
pub open spec fn leaves_of<E, B>(inputs: Seq<Tensor<E, B>>, other: Option<(usize, &Tensor<E, B>)>) -> Seq<
    TensorView<E>,
> {
    match other {
        Some(pair) => leaves_with(inputs, pair.0 as int, pair.1@),
        None => tensor_views(inputs),
    }
}

/// A fresh graph with one leaf for each of `inputs`, where `other.1` stands
/// in place of the input at `other.0`, and the identifiers of the leaves.
fn leaves_graph<E: Scalar, B: Backend<E>>(
    inputs: &[Tensor<E, B>],
    other: Option<(usize, &Tensor<E, B>)>,
) -> (r: (Graph<E, B>, Vec<NodeId>))
    requires
        forall|i: int| 0 <= i < inputs@.len() ==> (#[trigger] inputs@[i])@.wf(),
        other matches Some(pair) ==> pair.1@.wf(),
    ensures
        r.0.wf(),
        is_leaves(r.0@, leaves_of(inputs@, other)),
        r.1@ == first_ids(inputs@.len()),
{
    let n = inputs.len();
    let ghost leaves = leaves_of(inputs@, other);
    let mut g: Graph<E, B> = Graph::new();
    let mut ids: Vec<NodeId> = Vec::with_capacity(n);
    let mut i: usize = 0;
    while i < n
        invariant
            i <= n,
            n == inputs@.len(),
            leaves == leaves_of(inputs@, other),
            leaves.len() == n,
            forall|k: int| 0 <= k < inputs@.len() ==> (#[trigger] inputs@[k])@.wf(),
            other matches Some(pair) ==> pair.1@.wf(),
            g.wf(),
            is_leaves(g@, leaves.take(i as int)),
            ids@ == first_ids(i as nat),
        decreases n - i,
    {
        let t = match other {
            Some((at, x)) => if i == at {
                x.clone()
            } else {
                inputs[i].clone()
            },
            None => inputs[i].clone(),
        };
        proof {
            assert(inputs@[i as int]@.wf());
            assert(t@ == leaves[i as int]);
        }
        let ghost before = g@;
        let id = g.var(t);
        ids.push(id);
        proof {
            assert forall|k: int| 0 <= k < g@.len() implies #[trigger] g@[k] == (NodeView {
                op: None,
                inputs: Seq::empty(),
                data: leaves.take(i + 1)[k],
                grad: None,
            }) by {
                if k < i {
                    assert(g@[k] == before[k]);
                    assert(leaves.take(i as int)[k] == leaves.take(i + 1)[k]);
                }
            }
            assert(ids@ =~= first_ids((i + 1) as nat));
        }
        i = i + 1;
    }
    proof {
        assert(leaves.take(n as int) =~= leaves);
    }
    (g, ids)
}

/// The loss that `build_loss` computes on a fresh graph with one leaf for
/// each of `inputs`, where `x` stands in place of the input at `at`: the
/// first element of the node that `build_loss` returns.
///
/// Fails if `build_loss` fails, or returns no node of the graph, or a node
/// that holds no element.
pub fn loss_value<
    E: Scalar,
    B: Backend<E>,
    F: Fn(&mut Graph<E, B>, &[NodeId]) -> GraphResult<NodeId>,
>(build_loss: &F, inputs: &[Tensor<E, B>], at: usize, x: &Tensor<E, B>) -> (r: Result<E, String>)
    requires
        forall|h: &mut Graph<E, B>, ids: &[NodeId]| h.wf() ==> #[trigger] build_loss.requires((h, ids)),
        forall|i: int| 0 <= i < inputs@.len() ==> (#[trigger] inputs@[i])@.wf(),
        x@.wf(),
    ensures
        exists|h: &mut Graph<E, B>, ids: &[NodeId], built: GraphResult<NodeId>|
            #![trigger build_loss.ensures((h, ids), built)]
            is_leaves(h@, leaves_with(inputs@, at as int, x@)) && ids@ == first_ids(inputs@.len())
                && build_loss.ensures((h, ids), built) && match r {
                Ok(v) => built matches Ok(loss) && loss < final(h)@.len() && final(h)@[loss as int].data.data.len() > 0 && final(h)@[loss as int].data.data[0] == v,
                Err(_) => !(built matches Ok(loss) && loss < final(h)@.len() && final(h)@[loss as int].data.data.len() > 0),
            },
{
    let (mut g, ids) = leaves_graph(inputs, Some((at, x)));
    let built = build_loss(&mut g, ids.as_slice());
    let r = match built {
        Ok(loss) => match g.data(loss) {
            Ok(t) => {
                let d = t.data();
                if d.len() > 0 {
                    Ok(d[0])
                } else {
                    Err("loss holds no element".to_string())
                }
            },
            Err(e) => Err(e.to_string()),
        },
        Err(e) => Err(e.to_string()),
    };
    r
}

/// `r` is the central difference of the loss along element `j` of the
/// input at `at`: the loss with `eps` added to the element, minus the loss
/// with `eps` taken from it, over `2 * eps`; each loss as [`loss_value`]
/// returns it.
pub open spec fn is_estimate<
    E: Scalar,
    B: Backend<E>,
    F: Fn(&mut Graph<E, B>, &[NodeId]) -> GraphResult<NodeId>,
>(build_loss: &F, inputs: &[Tensor<E, B>], at: usize, j: int, eps: E, r: E) -> bool {
    let x = inputs@[at as int]@;
    exists|plus: Tensor<E, B>, minus: Tensor<E, B>, up: E, down: E|
        #![trigger call_ensures(loss_value::<E, B, F>, (build_loss, inputs, at, &plus), Ok(up)), call_ensures(loss_value::<E, B, F>, (build_loss, inputs, at, &minus), Ok(down))]
        is_sum(x.data[j], eps, plus@.data[j]) && plus@ == moved(x, j, plus@.data[j]) && is_diff(
            x.data[j],
            eps,
            minus@.data[j],
        ) && minus@ == moved(x, j, minus@.data[j]) && call_ensures(
            loss_value::<E, B, F>,
            (build_loss, inputs, at, &plus),
            Ok(up),
        ) && call_ensures(loss_value::<E, B, F>, (build_loss, inputs, at, &minus), Ok(down))
            && is_central(up, down, eps, r)
}

/// The gradient `a` of element `j` of the input at `at` agrees with a
/// central difference of the loss.
pub open spec fn estimate_agrees<
    E: Scalar,
    B: Backend<E>,
    F: Fn(&mut Graph<E, B>, &[NodeId]) -> GraphResult<NodeId>,
>(build_loss: &F, inputs: &[Tensor<E, B>], at: usize, j: int, eps: E, rtol: E, atol: E, a: E) -> bool {
    exists|n: E| #[trigger]
        is_estimate(build_loss, inputs, at, j, eps, n) && is_agreement(a, n, rtol, atol, true)
}

/// The input at `at` has the gradient `grad`, with as many elements as the
/// input, and every element agrees with a central difference of the loss.
pub open spec fn gradient_agrees<
    E: Scalar,
    B: Backend<E>,
    F: Fn(&mut Graph<E, B>, &[NodeId]) -> GraphResult<NodeId>,
>(
    build_loss: &F,
    inputs: &[Tensor<E, B>],
    at: usize,
    eps: E,
    rtol: E,
    atol: E,
    grad: Option<TensorView<E>>,
) -> bool {
    &&& grad is Some
    &&& grad->0.data.len() == inputs@[at as int]@.data.len()
    &&& forall|j: int|
        0 <= j < grad->0.data.len() ==> estimate_agrees(
            build_loss,
            inputs,
            at,
            j,
            eps,
            rtol,
            atol,
            #[trigger] grad->0.data[j],
        )
}

/// In the graph `after`, every input has a gradient that agrees with the
/// central differences of the loss.
pub open spec fn all_agree<
    E: Scalar,
    B: Backend<E>,
    F: Fn(&mut Graph<E, B>, &[NodeId]) -> GraphResult<NodeId>,
>(build_loss: &F, inputs: &[Tensor<E, B>], eps: E, rtol: E, atol: E, after: Seq<NodeView<E>>) -> bool {
    forall|at: usize|
        at < inputs@.len() ==> gradient_agrees(
            build_loss,
            inputs,
            at,
            eps,
            rtol,
            atol,
            (#[trigger] after[at as int]).grad,
        )
}

/// The central differences of the loss along every element of the input at
/// `at`.
fn estimates<E: Scalar, B: Backend<E>, F: Fn(&mut Graph<E, B>, &[NodeId]) -> GraphResult<NodeId>>(
    build_loss: &F,
    inputs: &[Tensor<E, B>],
    at: usize,
    eps: E,
) -> (r: Result<Vec<E>, String>)
    requires
        forall|h: &mut Graph<E, B>, ids: &[NodeId]| h.wf() ==> #[trigger] build_loss.requires((h, ids)),
        forall|i: int| 0 <= i < inputs@.len() ==> (#[trigger] inputs@[i])@.wf(),
        at < inputs@.len(),
    ensures
        r matches Ok(numeric) ==> numeric@.len() == inputs@[at as int]@.data.len() && forall|j: int|
            0 <= j < numeric@.len() ==> is_estimate(build_loss, inputs, at, j, eps, #[trigger] numeric@[j]),
        r matches Err(e) ==> estimates_fail(build_loss, inputs, at, eps, e),
{
    let x = &inputs[at];
    let data = x.data();
    let n = data.len();
    let mut numeric: Vec<E> = Vec::with_capacity(n);
    let mut j: usize = 0;
    while j < n
        invariant
            j <= n,
            n == x@.data.len(),
            data@ == x@.data,
            at < inputs@.len(),
            *x == inputs@[at as int],
            x@.wf(),
            forall|h: &mut Graph<E, B>, ids: &[NodeId]|
                h.wf() ==> #[trigger] build_loss.requires((h, ids)),
            forall|i: int| 0 <= i < inputs@.len() ==> (#[trigger] inputs@[i])@.wf(),
            numeric@.len() == j,
            forall|k: int|
                0 <= k < j ==> is_estimate(build_loss, inputs, at, k, eps, #[trigger] numeric@[k]),
        decreases n - j,
    {
        let p = data[j].add(eps);
        let m = data[j].sub(eps);
        let plus = shifted(x, j, p);
        let minus = shifted(x, j, m);
        let up = match loss_value(build_loss, inputs, at, &plus) {
            Ok(v) => v,
            Err(e) => {
                proof {
                    assert(call_ensures(
                        loss_value::<E, B, F>,
                        (build_loss, inputs, at, &plus),
                        Err::<E, String>(e),
                    ));
                    assert(is_sum(x@.data[j as int], eps, plus@.data[j as int]) && is_diff(
                        x@.data[j as int],
                        eps,
                        minus@.data[j as int],
                    ));
                    assert(estimate_fails(build_loss, inputs, at, j as int, eps, e));
                    assert(estimated_through(build_loss, inputs, at, j as int, eps)) by {
                        assert forall|k: int| 0 <= k < j implies #[trigger] has_estimate(
                            build_loss,
                            inputs,
                            at,
                            k,
                            eps,
                        ) by {
                            assert(is_estimate(build_loss, inputs, at, k, eps, numeric@[k]));
                        }
                    }
                }
                return Err(e);
            },
        };
        let down = match loss_value(build_loss, inputs, at, &minus) {
            Ok(v) => v,
            Err(e) => {
                proof {
                    assert(call_ensures(
                        loss_value::<E, B, F>,
                        (build_loss, inputs, at, &plus),
                        Ok::<E, String>(up),
                    ));
                    assert(call_ensures(
                        loss_value::<E, B, F>,
                        (build_loss, inputs, at, &minus),
                        Err::<E, String>(e),
                    ));
                    assert(is_sum(x@.data[j as int], eps, plus@.data[j as int]) && is_diff(
                        x@.data[j as int],
                        eps,
                        minus@.data[j as int],
                    ));
                    assert(estimate_fails(build_loss, inputs, at, j as int, eps, e));
                    assert(estimated_through(build_loss, inputs, at, j as int, eps)) by {
                        assert forall|k: int| 0 <= k < j implies #[trigger] has_estimate(
                            build_loss,
                            inputs,
                            at,
                            k,
                            eps,
                        ) by {
                            assert(is_estimate(build_loss, inputs, at, k, eps, numeric@[k]));
                        }
                    }
                }
                return Err(e);
            },
        };
        let r = central(up, down, eps);
        proof {
            assert(call_ensures(loss_value::<E, B, F>, (build_loss, inputs, at, &plus), Ok(up)));
            assert(call_ensures(loss_value::<E, B, F>, (build_loss, inputs, at, &minus), Ok(down)));
            assert(is_estimate(build_loss, inputs, at, j as int, eps, r));
        }
        numeric.push(r);
        j = j + 1;
    }
    Ok(numeric)
}

/// Compares the gradients that a backward pass gives for the loss that
/// `build_loss` builds on `input_tensors` with central differences of step
/// `eps` of that loss.
///
/// Fails if the loss cannot be built or differentiated, on the inputs or
/// with one element moved; if an input gets no gradient, or one of another
/// size; or at the first element whose gradient differs from the central
/// difference `n` by more than `atol + rtol * |n|`.
pub fn check_gradients<
    E: Scalar,
    B: Backend<E>,
    F: Fn(&mut Graph<E, B>, &[NodeId]) -> GraphResult<NodeId>,
>(build_loss: &F, input_tensors: &[Tensor<E, B>], eps: E, rtol: E, atol: E) -> (r: Result<(), String>)
    requires
        forall|h: &mut Graph<E, B>, ids: &[NodeId]| h.wf() ==> #[trigger] build_loss.requires((h, ids)),
        forall|h: &mut Graph<E, B>, ids: &[NodeId], built: GraphResult<NodeId>| #[trigger]
            build_loss.ensures((h, ids), built) ==> final(h).wf(),
        forall|i: int| 0 <= i < input_tensors@.len() ==> (#[trigger] input_tensors@[i])@.wf(),
    ensures
        r is Ok ==> exists|h: &mut Graph<E, B>, ids: &[NodeId], loss: NodeId, after: Seq<NodeView<E>>|
            #![trigger build_loss.ensures((h, ids), Ok(loss)), all_agree(build_loss, input_tensors, eps, rtol, atol, after)]
            is_leaves(h@, tensor_views(input_tensors@)) && ids@ == first_ids(input_tensors@.len())
                && build_loss.ensures((h, ids), Ok(loss)) && is_backward_pass(final(h)@, loss, after)
                && all_agree(build_loss, input_tensors, eps, rtol, atol, after),
        r is Err ==> exists|h: &mut Graph<E, B>, ids: &[NodeId], built: GraphResult<NodeId>|
            #![trigger build_loss.ensures((h, ids), built)]
            is_leaves(h@, tensor_views(input_tensors@)) && ids@ == first_ids(input_tensors@.len())
                && build_loss.ensures((h, ids), built) && match built {
                Err(_) => true,
                Ok(loss) => loss >= final(h)@.len() || exists|after: Seq<NodeView<E>>|
                    is_backward_pass(final(h)@, loss, after) && #[trigger] check_fails(
                        build_loss,
                        input_tensors,
                        eps,
                        rtol,
                        atol,
                        after,
                    ),
            },
{
    let (mut g, ids) = leaves_graph(input_tensors, None);
    let built = build_loss(&mut g, ids.as_slice());
    let loss = match built {
        Ok(id) => id,
        Err(e) => {
            return Err(e.to_string());
        },
    };
    let ghost mid = g@;
    match g.backward(loss) {
        Ok(()) => {},
        Err(e) => {
            return Err(e.to_string());
        },
    }
    proof {
        assert(is_backward_pass(mid, loss, g@));
    }
    compare_all(build_loss, input_tensors, &g, eps, rtol, atol)
}

/// There is a central difference of the loss along element `j` of the input
/// at `at`.
pub open spec fn has_estimate<
    E: Scalar,
    B: Backend<E>,
    F: Fn(&mut Graph<E, B>, &[NodeId]) -> GraphResult<NodeId>,
>(build_loss: &F, inputs: &[Tensor<E, B>], at: usize, j: int, eps: E) -> bool {
    exists|n: E| #[trigger] is_estimate(build_loss, inputs, at, j, eps, n)
}

/// There is a central difference of the loss along every element before `j`
/// of the input at `at`.
pub open spec fn estimated_through<
    E: Scalar,
    B: Backend<E>,
    F: Fn(&mut Graph<E, B>, &[NodeId]) -> GraphResult<NodeId>,
>(build_loss: &F, inputs: &[Tensor<E, B>], at: usize, j: int, eps: E) -> bool {
    forall|k: int| 0 <= k < j ==> #[trigger] has_estimate(build_loss, inputs, at, k, eps)
}

/// The central difference along element `j` of the input at `at` cannot be
/// had: [`loss_value`] fails with `e`, with `eps` added to the element, or,
/// after it succeeded there, with `eps` taken from the element.
pub open spec fn estimate_fails<
    E: Scalar,
    B: Backend<E>,
    F: Fn(&mut Graph<E, B>, &[NodeId]) -> GraphResult<NodeId>,
>(build_loss: &F, inputs: &[Tensor<E, B>], at: usize, j: int, eps: E, e: String) -> bool {
    let x = inputs@[at as int]@;
    exists|plus: Tensor<E, B>, minus: Tensor<E, B>|
        #![trigger is_sum(x.data[j], eps, plus@.data[j]), is_diff(x.data[j], eps, minus@.data[j])]
        is_sum(x.data[j], eps, plus@.data[j]) && plus@ == moved(x, j, plus@.data[j]) && is_diff(
            x.data[j],
            eps,
            minus@.data[j],
        ) && minus@ == moved(x, j, minus@.data[j]) && (call_ensures(
            loss_value::<E, B, F>,
            (build_loss, inputs, at, &plus),
            Err::<E, String>(e),
        ) || (exists|up: E| #[trigger]
            call_ensures(loss_value::<E, B, F>, (build_loss, inputs, at, &plus), Ok::<E, String>(up)))
            && call_ensures(
            loss_value::<E, B, F>,
            (build_loss, inputs, at, &minus),
            Err::<E, String>(e),
        ))
}

/// The central differences of the input at `at` cannot all be had: there is
/// one along every element up to some element, and the one along that
/// element fails with `e`.
pub open spec fn estimates_fail<
    E: Scalar,
    B: Backend<E>,
    F: Fn(&mut Graph<E, B>, &[NodeId]) -> GraphResult<NodeId>,
>(build_loss: &F, inputs: &[Tensor<E, B>], at: usize, eps: E, e: String) -> bool {
    exists|j: int|
        0 <= j < inputs@[at as int]@.data.len() && estimated_through(build_loss, inputs, at, j, eps)
            && #[trigger] estimate_fails(build_loss, inputs, at, j, eps, e)
}

/// The gradient `a` of element `j` of the input at `at` differs from a
/// central difference of the loss by more than the tolerances allow.
pub open spec fn estimate_disagrees<
    E: Scalar,
    B: Backend<E>,
    F: Fn(&mut Graph<E, B>, &[NodeId]) -> GraphResult<NodeId>,
>(build_loss: &F, inputs: &[Tensor<E, B>], at: usize, j: int, eps: E, rtol: E, atol: E, a: E) -> bool {
    exists|n: E| #[trigger]
        is_estimate(build_loss, inputs, at, j, eps, n) && is_agreement(a, n, rtol, atol, false)
}

/// The elements of `grad` before `j` agree with central differences of the
/// loss along the elements of the input at `at`.
pub open spec fn agree_through<
    E: Scalar,
    B: Backend<E>,
    F: Fn(&mut Graph<E, B>, &[NodeId]) -> GraphResult<NodeId>,
>(
    build_loss: &F,
    inputs: &[Tensor<E, B>],
    at: usize,
    j: int,
    eps: E,
    rtol: E,
    atol: E,
    grad: Seq<E>,
) -> bool {
    forall|k: int|
        0 <= k < j ==> estimate_agrees(build_loss, inputs, at, k, eps, rtol, atol, #[trigger] grad[k])
}

/// The check of the input at `at` with the gradient `grad` fails: there is
/// no gradient; or a central difference cannot be had; or the gradient holds
/// another number of elements than the input; or its elements agree with the
/// central differences up to one that differs.
pub open spec fn gradient_fails<
    E: Scalar,
    B: Backend<E>,
    F: Fn(&mut Graph<E, B>, &[NodeId]) -> GraphResult<NodeId>,
>(
    build_loss: &F,
    inputs: &[Tensor<E, B>],
    at: usize,
    eps: E,
    rtol: E,
    atol: E,
    grad: Option<TensorView<E>>,
) -> bool {
    let len = inputs@[at as int]@.data.len() as int;
    grad is Some ==> {
        ||| exists|e: String| #[trigger] estimates_fail(build_loss, inputs, at, eps, e)
        ||| estimated_through(build_loss, inputs, at, len, eps) && grad->0.data.len() != len
        ||| estimated_through(build_loss, inputs, at, len, eps) && grad->0.data.len() == len
            && exists|j: int|
            0 <= j < len && agree_through(build_loss, inputs, at, j, eps, rtol, atol, grad->0.data)
                && #[trigger] estimate_disagrees(
                build_loss,
                inputs,
                at,
                j,
                eps,
                rtol,
                atol,
                grad->0.data[j],
            )
    }
}

/// In the graph `after`, the inputs before `at` have gradients that agree
/// with the central differences of the loss.
pub open spec fn agree_before<
    E: Scalar,
    B: Backend<E>,
    F: Fn(&mut Graph<E, B>, &[NodeId]) -> GraphResult<NodeId>,
>(
    build_loss: &F,
    inputs: &[Tensor<E, B>],
    at: usize,
    eps: E,
    rtol: E,
    atol: E,
    after: Seq<NodeView<E>>,
) -> bool {
    forall|k: usize|
        k < at ==> gradient_agrees(
            build_loss,
            inputs,
            k,
            eps,
            rtol,
            atol,
            (#[trigger] after[k as int]).grad,
        )
}

/// In the graph `after`, the check of the input at `at` fails: the graph has
/// no such node, or the check of its gradient fails.
pub open spec fn input_fails<
    E: Scalar,
    B: Backend<E>,
    F: Fn(&mut Graph<E, B>, &[NodeId]) -> GraphResult<NodeId>,
>(
    build_loss: &F,
    inputs: &[Tensor<E, B>],
    at: usize,
    eps: E,
    rtol: E,
    atol: E,
    after: Seq<NodeView<E>>,
) -> bool {
    at < after.len() ==> gradient_fails(build_loss, inputs, at, eps, rtol, atol, after[at as int].grad)
}

/// In the graph `after`, the check fails at some input, after the checks of
/// the inputs before it succeeded.
pub open spec fn check_fails<
    E: Scalar,
    B: Backend<E>,
    F: Fn(&mut Graph<E, B>, &[NodeId]) -> GraphResult<NodeId>,
>(build_loss: &F, inputs: &[Tensor<E, B>], eps: E, rtol: E, atol: E, after: Seq<NodeView<E>>) -> bool {
    exists|at: usize|
        at < inputs@.len() && agree_before(build_loss, inputs, at, eps, rtol, atol, after)
            && #[trigger] input_fails(build_loss, inputs, at, eps, rtol, atol, after)
}

/// Compares the gradient `grad` of the input at `at` with the central
/// differences of the loss along its elements.
fn compare_one<E: Scalar, B: Backend<E>, F: Fn(&mut Graph<E, B>, &[NodeId]) -> GraphResult<NodeId>>(
    build_loss: &F,
    inputs: &[Tensor<E, B>],
    at: usize,
    grad: Option<&Tensor<E, B>>,
    eps: E,
    rtol: E,
    atol: E,
) -> (r: Result<(), String>)
    requires
        forall|h: &mut Graph<E, B>, ids: &[NodeId]| h.wf() ==> #[trigger] build_loss.requires((h, ids)),
        forall|i: int| 0 <= i < inputs@.len() ==> (#[trigger] inputs@[i])@.wf(),
        at < inputs@.len(),
    ensures
        r is Ok ==> gradient_agrees(build_loss, inputs, at, eps, rtol, atol, grad_view(grad)),
        r is Err ==> gradient_fails(build_loss, inputs, at, eps, rtol, atol, grad_view(grad)),
{
    let analytic = match grad {
        Some(t) => t.data(),
        None => {
            return Err(numbered("missing grad at input", at));
        },
    };
    let numeric = match estimates(build_loss, inputs, at, eps) {
        Ok(v) => v,
        Err(e) => {
            return Err(e);
        },
    };
    let m = numeric.len();
    proof {
        assert forall|k: int| 0 <= k < m implies #[trigger] has_estimate(
            build_loss,
            inputs,
            at,
            k,
            eps,
        ) by {
            assert(is_estimate(build_loss, inputs, at, k, eps, numeric@[k]));
        }
    }
    if analytic.len() != m {
        let head = join(numbered("grad len mismatch input", at).as_str(), ":");
        let left = join(numbered(head.as_str(), analytic.len()).as_str(), " vs");
        return Err(numbered(left.as_str(), m));
    }
    let mut j: usize = 0;
    while j < m
        invariant
            j <= m,
            m == numeric@.len(),
            m == analytic@.len(),
            m == inputs@[at as int]@.data.len(),
            at < inputs@.len(),
            grad_view(grad) is Some,
            analytic@ == grad_view(grad)->0.data,
            estimated_through(build_loss, inputs, at, m as int, eps),
            forall|k: int|
                0 <= k < m ==> is_estimate(build_loss, inputs, at, k, eps, #[trigger] numeric@[k]),
            agree_through(build_loss, inputs, at, j as int, eps, rtol, atol, analytic@),
        decreases m - j,
    {
        let ok = agree(analytic[j], numeric[j], rtol, atol);
        proof {
            assert(is_estimate(build_loss, inputs, at, j as int, eps, numeric@[j as int]));
        }
        if !ok {
            proof {
                assert(estimate_disagrees(
                    build_loss,
                    inputs,
                    at,
                    j as int,
                    eps,
                    rtol,
                    atol,
                    analytic@[j as int],
                ));
            }
            let head = join(numbered("input", at).as_str(), " elem");
            return Err(
                join(numbered(head.as_str(), j).as_str(), ": gradient and central difference differ"),
            );
        }
        proof {
            assert(estimate_agrees(
                build_loss,
                inputs,
                at,
                j as int,
                eps,
                rtol,
                atol,
                analytic@[j as int],
            ));
        }
        j = j + 1;
    }
    Ok(())
}

/// The view of a gradient that may be absent.
pub open spec fn grad_view<E, B>(grad: Option<&Tensor<E, B>>) -> Option<TensorView<E>> {
    match grad {
        Some(t) => Some(t@),
        None => None,
    }
}

/// Compares the gradient of every input, as the graph `g` holds it at the
/// node of the same number, with the central differences of the loss.
fn compare_all<E: Scalar, B: Backend<E>, F: Fn(&mut Graph<E, B>, &[NodeId]) -> GraphResult<NodeId>>(
    build_loss: &F,
    inputs: &[Tensor<E, B>],
    g: &Graph<E, B>,
    eps: E,
    rtol: E,
    atol: E,
) -> (r: Result<(), String>)
    requires
        forall|h: &mut Graph<E, B>, ids: &[NodeId]| h.wf() ==> #[trigger] build_loss.requires((h, ids)),
        forall|i: int| 0 <= i < inputs@.len() ==> (#[trigger] inputs@[i])@.wf(),
    ensures
        r is Ok ==> all_agree(build_loss, inputs, eps, rtol, atol, g@),
        r is Err ==> check_fails(build_loss, inputs, eps, rtol, atol, g@),
{
    let n = inputs.len();
    let mut at: usize = 0;
    while at < n
        invariant
            at <= n,
            n == inputs@.len(),
            forall|h: &mut Graph<E, B>, ids: &[NodeId]|
                h.wf() ==> #[trigger] build_loss.requires((h, ids)),
            forall|i: int| 0 <= i < inputs@.len() ==> (#[trigger] inputs@[i])@.wf(),
            agree_before(build_loss, inputs, at, eps, rtol, atol, g@),
        decreases n - at,
    {
        let grad = match g.grad(at) {
            Ok(grad) => grad,
            Err(e) => {
                proof {
                    assert(input_fails(build_loss, inputs, at, eps, rtol, atol, g@));
                }
                return Err(e.to_string());
            },
        };
        proof {
            assert(grad_view(grad) == g@[at as int].grad);
        }
        match compare_one(build_loss, inputs, at, grad, eps, rtol, atol) {
            Ok(()) => {},
            Err(e) => {
                proof {
                    assert(input_fails(build_loss, inputs, at, eps, rtol, atol, g@));
                }
                return Err(e);
            },
        }
        at = at + 1;
    }
    Ok(())
}

} // verus!
