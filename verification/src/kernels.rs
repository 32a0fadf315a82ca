//! What each numeric kernel computes, stated over the mathematical view of an
//! array: its dimension sizes and its elements in row-major order.
//!
//! For every kernel there is a predicate that says on which operands it is
//! defined, and a relation between its operands and its result. The relations
//! are built from the element relations of [`crate::scalar`], so they fix which
//! element operation produced every element of the result, and for sums the
//! order in which the terms were added.

use vstd::prelude::*;
use crate::scalar::{is_diff, is_dot, is_exp, is_ln, is_neg, is_one, is_prod, is_quot, is_sign,
    is_sum, is_total, is_zero, Scalar};
use crate::shape::dims_product;

verus! {

/// The mathematical view of an array.
pub struct TensorView<E> {
    /// Dimension sizes, outermost first.
    pub dims: Seq<usize>,
    /// Elements in row-major order.
    pub data: Seq<E>,
}

impl<E> TensorView<E> {
    /// The element count matches the shape, and fits in memory.
    pub open spec fn wf(self) -> bool {
        &&& self.data.len() == dims_product(self.dims)
        &&& self.data.len() <= usize::MAX
    }
}

/// Element `(i, j)` of a row-major matrix with `cols` columns.
pub open spec fn cell<E>(data: Seq<E>, cols: int, i: int, j: int) -> E {
    data[i * cols + j]
}

/// The `count` elements of `data` at `start`, `start + step`, `start + 2 * step`, ...
pub open spec fn strided<E>(data: Seq<E>, start: int, step: int, count: int) -> Seq<E> {
    Seq::new(count as nat, |k: int| data[start + k * step])
}

/// Row `i` of a row-major matrix with `cols` columns.
pub open spec fn row<E>(data: Seq<E>, cols: int, i: int) -> Seq<E> {
    strided(data, i * cols, 1, cols)
}

/// Column `j` of a row-major matrix with `rows` rows and `cols` columns.
pub open spec fn column<E>(data: Seq<E>, rows: int, cols: int, j: int) -> Seq<E> {
    strided(data, j, cols, rows)
}

/// The `count` elements along the reduced axis of an array seen as
/// `outer x count x inner`, at outer index `o` and inner index `i`.
pub open spec fn lane<E>(data: Seq<E>, count: int, inner: int, o: int, i: int) -> Seq<E> {
    strided(data, o * count * inner + i, inner, count)
}

/// An array of shape `dims` whose elements are all zeros.
pub open spec fn zeros_rel<E: Scalar>(dims: Seq<usize>, t: TensorView<E>) -> bool {
    &&& t.dims == dims
    &&& t.wf()
    &&& forall|i: int| 0 <= i < t.data.len() ==> is_zero(#[trigger] t.data[i])
}

/// An array of shape `dims` whose elements are all ones.
pub open spec fn ones_rel<E: Scalar>(dims: Seq<usize>, t: TensorView<E>) -> bool {
    &&& t.dims == dims
    &&& t.wf()
    &&& forall|i: int| 0 <= i < t.data.len() ==> is_one(#[trigger] t.data[i])
}

/// `t` is `a + b`, element by element.
pub open spec fn add_rel<E: Scalar>(a: TensorView<E>, b: TensorView<E>, t: TensorView<E>) -> bool {
    &&& t.dims == a.dims
    &&& t.data.len() == a.data.len()
    &&& forall|i: int|
        0 <= i < t.data.len() ==> is_sum(a.data[i], b.data[i], #[trigger] t.data[i])
}

/// `t` is `a - b`, element by element.
pub open spec fn sub_rel<E: Scalar>(a: TensorView<E>, b: TensorView<E>, t: TensorView<E>) -> bool {
    &&& t.dims == a.dims
    &&& t.data.len() == a.data.len()
    &&& forall|i: int|
        0 <= i < t.data.len() ==> is_diff(a.data[i], b.data[i], #[trigger] t.data[i])
}

/// `t` is `a * b`, element by element.
pub open spec fn mul_rel<E: Scalar>(a: TensorView<E>, b: TensorView<E>, t: TensorView<E>) -> bool {
    &&& t.dims == a.dims
    &&& t.data.len() == a.data.len()
    &&& forall|i: int|
        0 <= i < t.data.len() ==> is_prod(a.data[i], b.data[i], #[trigger] t.data[i])
}

/// `t` is `a / b`, element by element.
pub open spec fn div_rel<E: Scalar>(a: TensorView<E>, b: TensorView<E>, t: TensorView<E>) -> bool {
    &&& t.dims == a.dims
    &&& t.data.len() == a.data.len()
    &&& forall|i: int|
        0 <= i < t.data.len() ==> is_quot(a.data[i], b.data[i], #[trigger] t.data[i])
}

/// `t` is `a` with every element multiplied by `s`.
pub open spec fn scale_rel<E: Scalar>(a: TensorView<E>, s: E, t: TensorView<E>) -> bool {
    &&& t.dims == a.dims
    &&& t.data.len() == a.data.len()
    &&& forall|i: int| 0 <= i < t.data.len() ==> is_prod(a.data[i], s, #[trigger] t.data[i])
}

/// `t` is the exponential of `a`, element by element.
pub open spec fn exp_rel<E: Scalar>(a: TensorView<E>, t: TensorView<E>) -> bool {
    &&& t.dims == a.dims
    &&& t.data.len() == a.data.len()
    &&& forall|i: int| 0 <= i < t.data.len() ==> is_exp(a.data[i], #[trigger] t.data[i])
}

/// `t` is the natural logarithm of `a`, element by element.
pub open spec fn log_rel<E: Scalar>(a: TensorView<E>, t: TensorView<E>) -> bool {
    &&& t.dims == a.dims
    &&& t.data.len() == a.data.len()
    &&& forall|i: int| 0 <= i < t.data.len() ==> is_ln(a.data[i], #[trigger] t.data[i])
}

/// `r` is `value` where `gate` is positive, and `zero` elsewhere.
pub open spec fn gated<E: Scalar>(zero: E, gate: E, value: E, r: E) -> bool {
    ||| is_sign(gate, true) && r == value
    ||| is_sign(gate, false) && r == zero
}

/// `t` is `max(0, a)`: each element of `a` that is positive, and a zero in
/// place of every other.
pub open spec fn relu_rel<E: Scalar>(a: TensorView<E>, t: TensorView<E>) -> bool {
    &&& t.dims == a.dims
    &&& t.data.len() == a.data.len()
    &&& exists|zero: E| #[trigger]
        is_zero(zero) && forall|i: int|
            0 <= i < t.data.len() ==> gated(zero, a.data[i], a.data[i], #[trigger] t.data[i])
}

/// `t` is `grad` where `input` is positive, and a zero elsewhere.
pub open spec fn relu_backward_rel<E: Scalar>(
    grad: TensorView<E>,
    input: TensorView<E>,
    t: TensorView<E>,
) -> bool {
    &&& t.dims == input.dims
    &&& t.data.len() == input.data.len()
    &&& exists|zero: E| #[trigger]
        is_zero(zero) && forall|i: int|
            0 <= i < t.data.len() ==> gated(
                zero,
                input.data[i],
                grad.data[i],
                #[trigger] t.data[i],
            )
}

/// `r` is `one / (one + exp(-x))`.
pub open spec fn sigmoid_at<E: Scalar>(one: E, x: E, r: E) -> bool {
    exists|n: E, e: E, d: E|
        #![trigger is_neg(x, n), is_exp(n, e), is_sum(one, e, d)]
        is_neg(x, n) && is_exp(n, e) && is_sum(one, e, d) && is_quot(one, d, r)
}

/// `t` is the logistic function of `a`, element by element.
pub open spec fn sigmoid_rel<E: Scalar>(a: TensorView<E>, t: TensorView<E>) -> bool {
    &&& t.dims == a.dims
    &&& t.data.len() == a.data.len()
    &&& exists|one: E| #[trigger]
        is_one(one) && forall|i: int|
            0 <= i < t.data.len() ==> sigmoid_at(one, a.data[i], #[trigger] t.data[i])
}

/// `r` is `(g * y) * (one - y)`.
pub open spec fn sigmoid_backward_at<E: Scalar>(one: E, g: E, y: E, r: E) -> bool {
    exists|p: E, q: E|
        #![trigger is_prod(g, y, p), is_diff(one, y, q)]
        is_prod(g, y, p) && is_diff(one, y, q) && is_prod(p, q, r)
}

/// `t` is `grad * out * (1 - out)`, element by element.
pub open spec fn sigmoid_backward_rel<E: Scalar>(
    grad: TensorView<E>,
    out: TensorView<E>,
    t: TensorView<E>,
) -> bool {
    &&& t.dims == out.dims
    &&& t.data.len() == out.data.len()
    &&& exists|one: E| #[trigger]
        is_one(one) && forall|i: int|
            0 <= i < t.data.len() ==> sigmoid_backward_at(
                one,
                grad.data[i],
                out.data[i],
                #[trigger] t.data[i],
            )
}

/// `t` is the one-element array that holds the sum of all elements of `a`.
pub open spec fn sum_rel<E: Scalar>(a: TensorView<E>, t: TensorView<E>) -> bool {
    &&& t.dims == seq![1usize]
    &&& t.data.len() == 1
    &&& is_total(a.data, t.data[0])
}

/// The shape of `sum_dim`'s result: the reduced axis keeps size 1.
pub open spec fn sum_dim_dims(dims: Seq<usize>, dim: int) -> Seq<usize> {
    dims.update(dim, 1usize)
}

/// `sum_dim` is defined when the axis exists and the result can be held.
pub open spec fn sum_dim_defined(dims: Seq<usize>, dim: int) -> bool {
    0 <= dim < dims.len() && dims_product(sum_dim_dims(dims, dim)) <= usize::MAX
}

/// `t` is `a` summed along axis `dim`.
pub open spec fn sum_dim_rel<E: Scalar>(a: TensorView<E>, dim: int, t: TensorView<E>) -> bool {
    let outer = dims_product(a.dims.take(dim)) as int;
    let count = a.dims[dim] as int;
    let inner = dims_product(a.dims.skip(dim + 1)) as int;
    &&& t.dims == sum_dim_dims(a.dims, dim)
    &&& t.data.len() == outer * inner
    &&& forall|o: int, i: int|
        0 <= o < outer && 0 <= i < inner ==> is_total(
            lane(a.data, count, inner, o, i),
            #[trigger] cell(t.data, inner, o, i),
        )
}

/// `matmul` is defined on two matrices whose inner sizes agree, when the
/// result can be held.
pub open spec fn matmul_defined(a: Seq<usize>, b: Seq<usize>) -> bool {
    &&& a.len() == 2
    &&& b.len() == 2
    &&& a[1] == b[0]
    &&& a[0] * b[1] <= usize::MAX
}

/// `t` is the matrix product `a @ b`.
pub open spec fn matmul_rel<E: Scalar>(a: TensorView<E>, b: TensorView<E>, t: TensorView<E>) -> bool {
    let m = a.dims[0] as int;
    let k = a.dims[1] as int;
    let n = b.dims[1] as int;
    &&& t.dims == seq![a.dims[0], b.dims[1]]
    &&& t.data.len() == m * n
    &&& forall|i: int, j: int|
        0 <= i < m && 0 <= j < n ==> is_dot(
            row(a.data, k, i),
            column(b.data, k, n, j),
            #[trigger] cell(t.data, n, i, j),
        )
}

/// `add_broadcast` is defined on a matrix and a vector as long as a row.
pub open spec fn add_broadcast_defined(a: Seq<usize>, b: Seq<usize>) -> bool {
    a.len() == 2 && b.len() == 1 && b[0] == a[1]
}

/// `t` is the matrix `a` with the vector `b` added to each of its rows.
pub open spec fn add_broadcast_rel<E: Scalar>(
    a: TensorView<E>,
    b: TensorView<E>,
    t: TensorView<E>,
) -> bool {
    let n = a.dims[0] as int;
    let k = a.dims[1] as int;
    &&& t.dims == a.dims
    &&& t.data.len() == n * k
    &&& forall|i: int, j: int|
        0 <= i < n && 0 <= j < k ==> is_sum(
            cell(a.data, k, i, j),
            b.data[j],
            #[trigger] cell(t.data, k, i, j),
        )
}

/// The transpose of the matrix `a`.
pub open spec fn transposed<E>(a: TensorView<E>) -> TensorView<E> {
    let m = a.dims[0] as int;
    let n = a.dims[1] as int;
    TensorView {
        dims: seq![a.dims[1], a.dims[0]],
        data: Seq::new((n * m) as nat, |x: int| a.data[(x % m) * n + x / m]),
    }
}

/// Number of rows when all axes but the last are taken together.
pub open spec fn leading<E>(a: TensorView<E>) -> int {
    dims_product(a.dims.drop_last()) as int
}

/// `exps[x]` is `exp(a[x])`, `sums[i]` is the sum of row `i` of `exps`, and
/// `t` holds each `exps` element divided by the sum of its row.
pub open spec fn softmax_steps<E: Scalar>(
    a: TensorView<E>,
    exps: Seq<E>,
    sums: Seq<E>,
    t: TensorView<E>,
) -> bool {
    let rows = leading(a);
    let cols = a.dims.last() as int;
    &&& exps.len() == a.data.len()
    &&& sums.len() == rows
    &&& forall|x: int| 0 <= x < exps.len() ==> is_exp(a.data[x], #[trigger] exps[x])
    &&& forall|i: int| 0 <= i < rows ==> is_total(row(exps, cols, i), #[trigger] sums[i])
    &&& forall|i: int, j: int|
        0 <= i < rows && 0 <= j < cols ==> is_quot(
            cell(exps, cols, i, j),
            sums[i],
            #[trigger] cell(t.data, cols, i, j),
        )
}

/// `t` is the softmax of `a` along its last axis.
pub open spec fn softmax_rel<E: Scalar>(a: TensorView<E>, t: TensorView<E>) -> bool {
    &&& t.dims == a.dims
    &&& t.data.len() == a.data.len()
    &&& exists|exps: Seq<E>, sums: Seq<E>| #[trigger] softmax_steps(a, exps, sums, t)
}

/// `prods[x]` is `grad[x] * out[x]`, `sums[i]` is the sum of row `i` of
/// `prods`, `diffs` holds each `grad` element less the sum of its row, and `t`
/// holds `out * diffs`.
pub open spec fn softmax_backward_steps<E: Scalar>(
    grad: TensorView<E>,
    out: TensorView<E>,
    prods: Seq<E>,
    sums: Seq<E>,
    diffs: Seq<E>,
    t: TensorView<E>,
) -> bool {
    let rows = leading(out);
    let cols = out.dims.last() as int;
    &&& prods.len() == out.data.len()
    &&& diffs.len() == out.data.len()
    &&& sums.len() == rows
    &&& forall|x: int|
        0 <= x < prods.len() ==> is_prod(grad.data[x], out.data[x], #[trigger] prods[x])
    &&& forall|i: int| 0 <= i < rows ==> is_total(row(prods, cols, i), #[trigger] sums[i])
    &&& forall|i: int, j: int|
        0 <= i < rows && 0 <= j < cols ==> is_diff(
            cell(grad.data, cols, i, j),
            sums[i],
            #[trigger] cell(diffs, cols, i, j),
        )
    &&& forall|x: int|
        0 <= x < diffs.len() ==> is_prod(out.data[x], diffs[x], #[trigger] t.data[x])
}

/// `t` is the gradient of softmax along the last axis:
/// `out * (grad - rowsum(grad * out))`.
pub open spec fn softmax_backward_rel<E: Scalar>(
    grad: TensorView<E>,
    out: TensorView<E>,
    t: TensorView<E>,
) -> bool {
    &&& t.dims == out.dims
    &&& t.data.len() == out.data.len()
    &&& exists|prods: Seq<E>, sums: Seq<E>, diffs: Seq<E>| #[trigger]
        softmax_backward_steps(grad, out, prods, sums, diffs, t)
}

/// Where row `i`, column `j` lies in a row-major matrix with `rows` rows and
/// `cols` columns.
pub proof fn lemma_cell_index(rows: int, cols: int, i: int, j: int)
    requires
        0 <= i < rows,
        0 <= j < cols,
    ensures
        0 <= i * cols + j < rows * cols,
        i * cols + cols <= rows * cols,
        0 <= i * cols,
{
    assert(i * cols + cols <= rows * cols) by (nonlinear_arith)
        requires
            0 <= i < rows,
            0 <= cols,
    ;
    assert(0 <= i * cols) by (nonlinear_arith)
        requires
            0 <= i,
            0 <= cols,
    ;
}

/// Where row `i` starts and ends in a row-major matrix.
pub proof fn lemma_row_span(rows: int, cols: int, i: int)
    requires
        0 <= i < rows,
        0 <= cols,
    ensures
        0 <= i * cols,
        i * cols + cols <= rows * cols,
{
    assert(0 <= i * cols && i * cols + cols <= rows * cols) by (nonlinear_arith)
        requires
            0 <= i < rows,
            0 <= cols,
    ;
}

/// Row-major positions are ordered by row first.
pub proof fn lemma_cell_order(cols: int, i1: int, j1: int, i2: int, j2: int)
    requires
        0 <= i1 < i2,
        0 <= j1 < cols,
        0 <= j2,
    ensures
        i1 * cols + j1 < i2 * cols + j2,
{
    assert(i1 * cols + cols <= i2 * cols) by (nonlinear_arith)
        requires
            i1 < i2,
            0 <= cols,
    ;
}

} // verus!
