//! The reference backend: plain loops on the CPU, in a fixed order.

use vstd::prelude::*;
use std::sync::Arc;
use vstd::arithmetic::div_mod::lemma_fundamental_div_mod_converse;
use crate::backend::{Backend, BackendError, BackendResult};
use crate::kernels::{cell, column, gated, lane, leading, lemma_cell_index, lemma_cell_order, lemma_row_span, row,
    sigmoid_at, sigmoid_backward_at, softmax_backward_steps, softmax_steps, strided, transposed,
    sum_dim_dims, TensorView};
use crate::scalar::{is_diff, is_dot, is_exp, is_ln, is_neg, is_one, is_prod, is_quot, is_sum, is_total, is_zero, pairwise_products, running_sums, total, Scalar};
use crate::shape::{dims_product, lemma_product_concat, lemma_product_pair, lemma_product_prefix,
    lemma_product_positive, lemma_product_single, lemma_product_zero, Shape};
use crate::tensor::Tensor;
use crate::text::{join, numbered};

verus! {

/// The CPU backend.
#[derive(Clone, Copy, Debug)]
pub struct CpuBackend;

impl CpuBackend {
    /// A CPU backend.
    pub fn new() -> (b: Self) {
        CpuBackend
    }
}

impl Default for CpuBackend {
    fn default() -> (b: Self) {
        CpuBackend::new()
    }
}

/// Wraps a finished buffer into an array of the CPU backend.
fn finish<E: Scalar>(data: Vec<E>, shape: Shape) -> (r: BackendResult<Tensor<E, CpuBackend>>)
    requires
        data@.len() == shape.numel_spec(),
    ensures
        r matches Ok(t) && t@ == (TensorView { dims: shape@, data: data@ }) && t@.wf(),
{
    match Tensor::from_vec(data, shape, Arc::new(CpuBackend::new())) {
        Ok(t) => Ok(t),
        Err(e) => Err(BackendError(e.to_string())),
    }
}

/// The error for operands that do not fit an operation.
fn refuse<E: Scalar>(text: &str) -> (r: BackendResult<Tensor<E, CpuBackend>>)
    ensures
        r matches Err(e) && e.0@ == text@,
{
    Err(BackendError(text.to_string()))
}

/// Adds `count` elements of `xs`, from `start` on in steps of `step`, left
/// to right starting from a zero.
fn total_strided<E: Scalar>(xs: &[E], start: usize, step: usize, count: usize) -> (r: E)
    requires
        count > 0 ==> start + (count - 1) * step < xs@.len(),
    ensures
        is_total(strided(xs@, start as int, step as int, count as int), r),
{
    let ghost items = strided(xs@, start as int, step as int, count as int);
    let len = xs.len();
    let mut acc = E::zero();
    let ghost mut sums: Seq<E> = seq![acc];
    let mut k: usize = 0;
    while k < count
        invariant
            k <= count,
            len == xs@.len(),
            count > 0 ==> start + (count - 1) * step < xs@.len(),
            items == strided(xs@, start as int, step as int, count as int),
            sums.len() == k + 1,
            is_zero(sums[0]),
            forall|j: int| 0 <= j < k ==> is_sum(sums[j], #[trigger] items[j], sums[j + 1]),
            sums.last() == acc,
        decreases count - k,
    {
        assert(k * step <= (count - 1) * step) by (nonlinear_arith)
            requires
                k <= count - 1,
                0 <= step,
        ;
        let next = acc.add(xs[start + k * step]);
        proof {
            sums = sums.push(next);
        }
        acc = next;
        k = k + 1;
    }
    proof {
        assert(running_sums(items, sums));
    }
    acc
}

/// The inner product of `count` elements of `xs` and of `ys`, each taken from
/// its own start in its own steps.
fn dot_strided<E: Scalar>(
    xs: &[E],
    xstart: usize,
    xstep: usize,
    ys: &[E],
    ystart: usize,
    ystep: usize,
    count: usize,
) -> (r: E)
    requires
        count > 0 ==> xstart + (count - 1) * xstep < xs@.len(),
        count > 0 ==> ystart + (count - 1) * ystep < ys@.len(),
    ensures
        is_dot(
            strided(xs@, xstart as int, xstep as int, count as int),
            strided(ys@, ystart as int, ystep as int, count as int),
            r,
        ),
{
    let ghost us = strided(xs@, xstart as int, xstep as int, count as int);
    let ghost vs = strided(ys@, ystart as int, ystep as int, count as int);
    let xlen = xs.len();
    let ylen = ys.len();
    let mut acc = E::zero();
    let ghost mut sums: Seq<E> = seq![acc];
    let ghost mut products: Seq<E> = Seq::empty();
    let mut k: usize = 0;
    while k < count
        invariant
            k <= count,
            xlen == xs@.len(),
            ylen == ys@.len(),
            count > 0 ==> xstart + (count - 1) * xstep < xs@.len(),
            count > 0 ==> ystart + (count - 1) * ystep < ys@.len(),
            us == strided(xs@, xstart as int, xstep as int, count as int),
            vs == strided(ys@, ystart as int, ystep as int, count as int),
            products.len() == k,
            forall|j: int| 0 <= j < k ==> is_prod(us[j], vs[j], #[trigger] products[j]),
            sums.len() == k + 1,
            is_zero(sums[0]),
            forall|j: int| 0 <= j < k ==> is_sum(sums[j], #[trigger] products[j], sums[j + 1]),
            sums.last() == acc,
        decreases count - k,
    {
        assert(k * xstep <= (count - 1) * xstep) by (nonlinear_arith)
            requires
                k <= count - 1,
                0 <= xstep,
        ;
        assert(k * ystep <= (count - 1) * ystep) by (nonlinear_arith)
            requires
                k <= count - 1,
                0 <= ystep,
        ;
        let p = xs[xstart + k * xstep].mul(ys[ystart + k * ystep]);
        let next = acc.add(p);
        proof {
            products = products.push(p);
            sums = sums.push(next);
        }
        acc = next;
        k = k + 1;
    }
    proof {
        assert(pairwise_products(us, vs, products));
        assert(running_sums(products, sums));
        assert(is_total(products, acc));
    }
    acc
}

/// The product of the sizes `dims[from..to]`.
fn product_of(dims: &[usize], from: usize, to: usize) -> (p: usize)
    requires
        from <= to <= dims@.len(),
        forall|i: int| from <= i < to ==> dims@[i] != 0,
        dims_product(dims@.subrange(from as int, to as int)) <= usize::MAX,
    ensures
        p == dims_product(dims@.subrange(from as int, to as int)),
{
    let ghost part = dims@.subrange(from as int, to as int);
    let mut acc: usize = 1;
    let mut k: usize = from;
    while k < to
        invariant
            from <= k <= to,
            to <= dims@.len(),
            part == dims@.subrange(from as int, to as int),
            forall|i: int| 0 <= i < part.len() ==> part[i] != 0,
            dims_product(part) <= usize::MAX,
            acc == dims_product(part.take(k - from)),
        decreases to - k,
    {
        proof {
            let longer = part.take(k - from + 1);
            assert(longer.drop_last() == part.take(k - from));
            assert(longer.last() == dims@[k as int]);
            lemma_product_prefix(part, k - from + 1);
        }
        acc = acc * dims[k];
        k = k + 1;
    }
    proof {
        assert(part.take(to - from) == part);
    }
    acc
}

/// The sum of each row of a row-major matrix with `rows` rows and `cols` columns.
fn row_totals<E: Scalar>(data: &Vec<E>, rows: usize, cols: usize) -> (sums: Vec<E>)
    requires
        data@.len() == rows * cols,
    ensures
        sums@.len() == rows,
        forall|i: int|
            0 <= i < rows ==> is_total(row(data@, cols as int, i), #[trigger] sums@[i]),
{
    let len = data.len();
    let mut sums: Vec<E> = Vec::with_capacity(rows);
    let mut i: usize = 0;
    while i < rows
        invariant
            i <= rows,
            len == data@.len(),
            data@.len() == rows * cols,
            sums@.len() == i,
            forall|i2: int|
                0 <= i2 < i ==> is_total(row(data@, cols as int, i2), #[trigger] sums@[i2]),
        decreases rows - i,
    {
        proof {
            lemma_row_span(rows as int, cols as int, i as int);
        }
        let v = total_strided(data.as_slice(), i * cols, 1, cols);
        sums.push(v);
        i = i + 1;
    }
    sums
}

/// The sum of an empty row is a zero, whatever the number of rows.
proof fn lemma_empty_rows<E: Scalar>(rows: int, cols: int, zero: E, data: Seq<E>, sums: Seq<E>)
    requires
        is_zero(zero),
        rows == 0 || cols == 0,
        sums.len() == rows,
        forall|i: int| 0 <= i < rows ==> sums[i] == zero,
    ensures
        forall|i: int| 0 <= i < rows ==> is_total(row(data, cols, i), #[trigger] sums[i]),
{
    assert forall|i: int| 0 <= i < rows implies is_total(
        row(data, cols, i),
        #[trigger] sums[i],
    ) by {
        assert(running_sums(row(data, cols, i), seq![zero]));
        assert(seq![zero].last() == sums[i]);
    }
}

/// In a row-major matrix, position `x` lies in row `x / cols`.
proof fn lemma_flat_row(rows: int, cols: int, x: int)
    requires
        cols > 0,
        0 <= x < rows * cols,
    ensures
        0 <= x / cols < rows,
{
    assert(0 <= x / cols < rows) by (nonlinear_arith)
        requires
            cols > 0,
            0 <= x < rows * cols,
    ;
}

/// An array seen as `outer x count x inner` around axis `dim`.
proof fn lemma_sum_dim_split(dims: Seq<usize>, dim: int)
    requires
        0 <= dim < dims.len(),
    ensures
        dims_product(dims) == dims_product(dims.take(dim)) * dims[dim] * dims_product(
            dims.skip(dim + 1),
        ),
        dims_product(sum_dim_dims(dims, dim)) == dims_product(dims.take(dim)) * dims_product(
            dims.skip(dim + 1),
        ),
{
    let head = dims.take(dim);
    let tail = dims.skip(dim + 1);
    let outer = dims_product(head);
    let inner = dims_product(tail);
    assert(dims =~= (head + seq![dims[dim]]) + tail);
    assert(sum_dim_dims(dims, dim) =~= (head + seq![1usize]) + tail);
    lemma_product_concat(head, seq![dims[dim]]);
    lemma_product_concat(head + seq![dims[dim]], tail);
    lemma_product_concat(head, seq![1usize]);
    lemma_product_concat(head + seq![1usize], tail);
    lemma_product_single(dims[dim]);
    lemma_product_single(1usize);
    assert(outer * 1 * inner == outer * inner) by (nonlinear_arith);
}

/// A non-empty result of `sum_dim` leaves no zero size beside the reduced axis.
proof fn lemma_sum_dim_nonzero(dims: Seq<usize>, dim: int)
    requires
        0 <= dim < dims.len(),
        dims_product(sum_dim_dims(dims, dim)) > 0,
    ensures
        forall|j: int| 0 <= j < dims.len() && j != dim ==> dims[j] != 0,
        dims_product(dims.take(dim)) >= 1,
        dims_product(dims.skip(dim + 1)) >= 1,
{
    assert forall|j: int| 0 <= j < dims.len() && j != dim implies dims[j] != 0 by {
        if dims[j] == 0 {
            lemma_product_zero(sum_dim_dims(dims, dim), j);
        }
    }
    lemma_product_positive(dims.take(dim));
    lemma_product_positive(dims.skip(dim + 1));
}

/// Where a lane of an `outer x count x inner` array starts and ends.
proof fn lemma_lane_bounds(outer: int, count: int, inner: int, o: int, i: int)
    requires
        0 <= o < outer,
        0 <= i < inner,
        0 <= count,
    ensures
        0 <= o * count <= outer * count * inner,
        0 <= o * count * inner,
        count == 0 ==> o * count * inner == 0,
        count > 0 ==> o * count * inner + i + (count - 1) * inner < outer * count * inner,
{
    assert(0 <= o * count <= outer * count * inner) by (nonlinear_arith)
        requires
            0 <= o < outer,
            1 <= inner,
            0 <= count,
    ;
    assert(0 <= o * count * inner) by (nonlinear_arith)
        requires
            0 <= o,
            0 <= inner,
            0 <= count,
    ;
    if count == 0 {
        assert(o * count * inner == 0) by (nonlinear_arith)
            requires
                count == 0,
        ;
    } else {
        assert(o * count * inner + i + (count - 1) * inner < outer * count * inner)
            by (nonlinear_arith)
            requires
                0 <= o < outer,
                0 <= i < inner,
                0 < count,
        ;
    }
}

impl<E: Scalar> Backend<E> for CpuBackend {
    fn matmul(&self, a: &Tensor<E, Self>, b: &Tensor<E, Self>) -> (r: BackendResult<
        Tensor<E, Self>,
    >) {
        let ad = a.shape().dims();
        let bd = b.shape().dims();
        if ad.len() != 2 || bd.len() != 2 {
            return refuse("matmul requires 2D tensors");
        }
        let m = ad[0];
        let k = ad[1];
        let n = bd[1];
        if k != bd[0] {
            let left = join(numbered("matmul dim mismatch:", k).as_str(), " !=");
            return Err(BackendError(numbered(left.as_str(), bd[0])));
        }
        if m.checked_mul(n).is_none() {
            return refuse("matmul: result too large");
        }
        let xs = a.data();
        let ys = b.data();
        let xlen = a.numel();
        let ylen = b.numel();
        proof {
            assert(a@.dims =~= seq![m, k]);
            assert(b@.dims =~= seq![k, n]);
            lemma_product_pair(m, k);
            lemma_product_pair(k, n);
            lemma_product_pair(m, n);
        }
        let mut out: Vec<E> = Vec::new();
        let mut i: usize = 0;
        while i < m
            invariant
                i <= m,
                xlen == xs@.len(),
                ylen == ys@.len(),
                xs@.len() == m * k,
                ys@.len() == k * n,
                m * n <= usize::MAX,
                out@.len() == i * n,
                forall|i2: int, j2: int|
                    0 <= i2 < i && 0 <= j2 < n ==> is_dot(
                        row(xs@, k as int, i2),
                        column(ys@, k as int, n as int, j2),
                        #[trigger] cell(out@, n as int, i2, j2),
                    ),
            decreases m - i,
        {
            let mut j: usize = 0;
            while j < n
                invariant
                    i < m,
                    j <= n,
                    xlen == xs@.len(),
                    ylen == ys@.len(),
                    xs@.len() == m * k,
                    ys@.len() == k * n,
                    m * n <= usize::MAX,
                    out@.len() == i * n + j,
                    forall|i2: int, j2: int|
                        0 <= i2 < i && 0 <= j2 < n ==> is_dot(
                            row(xs@, k as int, i2),
                            column(ys@, k as int, n as int, j2),
                            #[trigger] cell(out@, n as int, i2, j2),
                        ),
                    forall|j2: int|
                        0 <= j2 < j ==> is_dot(
                            row(xs@, k as int, i as int),
                            column(ys@, k as int, n as int, j2),
                            #[trigger] cell(out@, n as int, i as int, j2),
                        ),
                decreases n - j,
            {
                proof {
                    lemma_row_span(m as int, k as int, i as int);
                    if k > 0 {
                        lemma_cell_index(k as int, n as int, k - 1, j as int);
                    }
                }
                let v = dot_strided(xs, i * k, 1, ys, j, n, k);
                let ghost before = out@;
                out.push(v);
                proof {
                    assert forall|i2: int, j2: int| 0 <= i2 < i && 0 <= j2 < n implies is_dot(
                        row(xs@, k as int, i2),
                        column(ys@, k as int, n as int, j2),
                        #[trigger] cell(out@, n as int, i2, j2),
                    ) by {
                        lemma_cell_order(n as int, i2, j2, i as int, j as int);
                        assert(cell(out@, n as int, i2, j2) == cell(before, n as int, i2, j2));
                    }
                    assert forall|j2: int| 0 <= j2 < j + 1 implies is_dot(
                        row(xs@, k as int, i as int),
                        column(ys@, k as int, n as int, j2),
                        #[trigger] cell(out@, n as int, i as int, j2),
                    ) by {
                        if j2 < j {
                            assert(cell(out@, n as int, i as int, j2) == cell(
                                before,
                                n as int,
                                i as int,
                                j2,
                            ));
                        }
                    }
                }
                j = j + 1;
            }
            proof {
                assert(i * n + n == (i + 1) * n) by (nonlinear_arith);
            }
            i = i + 1;
        }
        finish(out, Shape::new(vec![m, n]))
    }

    fn add(&self, a: &Tensor<E, Self>, b: &Tensor<E, Self>) -> (r: BackendResult<Tensor<E, Self>>) {
        if !a.shape().same_as(b.shape()) {
            return refuse("add: shape mismatch");
        }
        let n = a.numel();
        let xs = a.data();
        let ys = b.data();
        let mut out: Vec<E> = Vec::with_capacity(n);
        let mut i: usize = 0;
        while i < n
            invariant
                i <= n,
                n == xs@.len(),
                n == ys@.len(),
                out@.len() == i,
                forall|j: int| 0 <= j < i ==> is_sum(xs@[j], ys@[j], #[trigger] out@[j]),
            decreases n - i,
        {
            out.push(xs[i].add(ys[i]));
            i = i + 1;
        }
        finish(out, a.shape().clone())
    }

    fn mul(&self, a: &Tensor<E, Self>, b: &Tensor<E, Self>) -> (r: BackendResult<Tensor<E, Self>>) {
        if !a.shape().same_as(b.shape()) {
            return refuse("mul: shape mismatch");
        }
        let n = a.numel();
        let xs = a.data();
        let ys = b.data();
        let mut out: Vec<E> = Vec::with_capacity(n);
        let mut i: usize = 0;
        while i < n
            invariant
                i <= n,
                n == xs@.len(),
                n == ys@.len(),
                out@.len() == i,
                forall|j: int| 0 <= j < i ==> is_prod(xs@[j], ys@[j], #[trigger] out@[j]),
            decreases n - i,
        {
            out.push(xs[i].mul(ys[i]));
            i = i + 1;
        }
        finish(out, a.shape().clone())
    }

    fn sub(&self, a: &Tensor<E, Self>, b: &Tensor<E, Self>) -> (r: BackendResult<Tensor<E, Self>>) {
        if !a.shape().same_as(b.shape()) {
            return refuse("sub: shape mismatch");
        }
        let n = a.numel();
        let xs = a.data();
        let ys = b.data();
        let mut out: Vec<E> = Vec::with_capacity(n);
        let mut i: usize = 0;
        while i < n
            invariant
                i <= n,
                n == xs@.len(),
                n == ys@.len(),
                out@.len() == i,
                forall|j: int| 0 <= j < i ==> is_diff(xs@[j], ys@[j], #[trigger] out@[j]),
            decreases n - i,
        {
            out.push(xs[i].sub(ys[i]));
            i = i + 1;
        }
        finish(out, a.shape().clone())
    }

    fn relu(&self, a: &Tensor<E, Self>) -> (r: BackendResult<Tensor<E, Self>>) {
        let n = a.numel();
        let xs = a.data();
        let zero = E::zero();
        let mut out: Vec<E> = Vec::with_capacity(n);
        let mut i: usize = 0;
        while i < n
            invariant
                i <= n,
                n == xs@.len(),
                out@.len() == i,
                is_zero(zero),
                forall|j: int| 0 <= j < i ==> gated(zero, xs@[j], xs@[j], #[trigger] out@[j]),
            decreases n - i,
        {
            let x = xs[i];
            let v = if x.is_positive() {
                x
            } else {
                zero
            };
            out.push(v);
            i = i + 1;
        }
        finish(out, a.shape().clone())
    }

    fn sum(&self, a: &Tensor<E, Self>) -> (r: BackendResult<Tensor<E, Self>>) {
        let s = total(a.data());
        let data = vec![s];
        let shape = Shape::new(vec![1]);
        proof {
            lemma_product_single(1);
            assert(shape@ =~= seq![1usize]);
        }
        finish(data, shape)
    }

    fn sum_dim(&self, a: &Tensor<E, Self>, dim: usize) -> (r: BackendResult<Tensor<E, Self>>) {
        let dims = a.shape().dims();
        if dim >= dims.len() {
            return refuse("sum_dim: dim out of range");
        }
        let rank = dims.len();
        let mut out_dims: Vec<usize> = Vec::with_capacity(rank);
        let mut d: usize = 0;
        while d < rank
            invariant
                d <= rank,
                rank == dims@.len(),
                dim < rank,
                out_dims@ == sum_dim_dims(dims@, dim as int).take(d as int),
            decreases rank - d,
        {
            out_dims.push(
                if d == dim {
                    1
                } else {
                    dims[d]
                },
            );
            proof {
                assert(out_dims@ =~= sum_dim_dims(dims@, dim as int).take(d + 1));
            }
            d = d + 1;
        }
        proof {
            assert(out_dims@ =~= sum_dim_dims(dims@, dim as int));
            lemma_sum_dim_split(dims@, dim as int);
        }
        let out_shape = Shape::new(out_dims);
        let out_numel = match out_shape.checked_numel() {
            Some(v) => v,
            None => {
                return refuse("sum_dim: result too large");
            },
        };
        let count = dims[dim];
        let xs = a.data();
        let xlen = a.numel();
        let ghost outer_n = dims_product(dims@.take(dim as int));
        let ghost inner_n = dims_product(dims@.skip(dim + 1));
        let mut out: Vec<E> = Vec::with_capacity(out_numel);
        if out_numel == 0 {
            proof {
                assert(outer_n == 0 || inner_n == 0) by (nonlinear_arith)
                    requires
                        outer_n * inner_n == 0,
                ;
            }
            return finish(out, out_shape);
        }
        proof {
            lemma_sum_dim_nonzero(dims@, dim as int);
            assert(dims@.take(dim as int) == dims@.subrange(0, dim as int));
            assert(dims@.skip(dim + 1) == dims@.subrange(dim + 1, rank as int));
            assert(outer_n <= outer_n * inner_n && inner_n <= outer_n * inner_n)
                by (nonlinear_arith)
                requires
                    outer_n >= 1,
                    inner_n >= 1,
            ;
        }
        let outer = product_of(dims, 0, dim);
        let inner = product_of(dims, dim + 1, rank);
        let mut o: usize = 0;
        while o < outer
            invariant
                o <= outer,
                outer == outer_n,
                inner == inner_n,
                inner >= 1,
                xlen == xs@.len(),
                xs@.len() == outer * count * inner,
                outer * inner == out_numel,
                out@.len() == o * inner,
                forall|o2: int, i2: int|
                    0 <= o2 < o && 0 <= i2 < inner ==> is_total(
                        lane(xs@, count as int, inner as int, o2, i2),
                        #[trigger] cell(out@, inner as int, o2, i2),
                    ),
            decreases outer - o,
        {
            let mut i: usize = 0;
            while i < inner
                invariant
                    o < outer,
                    i <= inner,
                    inner >= 1,
                    xlen == xs@.len(),
                    xs@.len() == outer * count * inner,
                    outer * inner == out_numel,
                    out@.len() == o * inner + i,
                    forall|o2: int, i2: int|
                        0 <= o2 < o && 0 <= i2 < inner ==> is_total(
                            lane(xs@, count as int, inner as int, o2, i2),
                            #[trigger] cell(out@, inner as int, o2, i2),
                        ),
                    forall|i2: int|
                        0 <= i2 < i ==> is_total(
                            lane(xs@, count as int, inner as int, o as int, i2),
                            #[trigger] cell(out@, inner as int, o as int, i2),
                        ),
                decreases inner - i,
            {
                proof {
                    lemma_lane_bounds(
                        outer as int,
                        count as int,
                        inner as int,
                        o as int,
                        i as int,
                    );
                    lemma_cell_index(outer as int, inner as int, o as int, i as int);
                }
                let v = total_strided(xs, o * count * inner + i, inner, count);
                let ghost before = out@;
                out.push(v);
                proof {
                    assert forall|o2: int, i2: int|
                        0 <= o2 < o && 0 <= i2 < inner implies is_total(
                        lane(xs@, count as int, inner as int, o2, i2),
                        #[trigger] cell(out@, inner as int, o2, i2),
                    ) by {
                        lemma_cell_order(inner as int, o2, i2, o as int, i as int);
                        assert(cell(out@, inner as int, o2, i2) == cell(
                            before,
                            inner as int,
                            o2,
                            i2,
                        ));
                    }
                    assert forall|i2: int| 0 <= i2 < i + 1 implies is_total(
                        lane(xs@, count as int, inner as int, o as int, i2),
                        #[trigger] cell(out@, inner as int, o as int, i2),
                    ) by {
                        if i2 < i {
                            assert(cell(out@, inner as int, o as int, i2) == cell(
                                before,
                                inner as int,
                                o as int,
                                i2,
                            ));
                        }
                    }
                }
                i = i + 1;
            }
            proof {
                assert(o * inner + inner == (o + 1) * inner) by (nonlinear_arith);
            }
            o = o + 1;
        }
        finish(out, out_shape)
    }

    fn from_vec(&self, data: Vec<E>, shape: Shape) -> (r: BackendResult<Tensor<E, Self>>) {
        match Tensor::from_vec(data, shape, Arc::new(CpuBackend::new())) {
            Ok(t) => Ok(t),
            Err(e) => Err(BackendError(e.to_string())),
        }
    }

    fn zeros(&self, shape: &Shape) -> (r: BackendResult<Tensor<E, Self>>) {
        let n = match shape.checked_numel() {
            Some(v) => v,
            None => {
                return refuse("zeros: shape too large");
            },
        };
        let zero = E::zero();
        let mut out: Vec<E> = Vec::with_capacity(n);
        let mut i: usize = 0;
        while i < n
            invariant
                i <= n,
                out@.len() == i,
                is_zero(zero),
                forall|j: int| 0 <= j < i ==> is_zero(#[trigger] out@[j]),
            decreases n - i,
        {
            out.push(zero);
            i = i + 1;
        }
        finish(out, shape.clone())
    }

    fn ones(&self, shape: &Shape) -> (r: BackendResult<Tensor<E, Self>>) {
        let n = match shape.checked_numel() {
            Some(v) => v,
            None => {
                return refuse("ones: shape too large");
            },
        };
        let one = E::one();
        let mut out: Vec<E> = Vec::with_capacity(n);
        let mut i: usize = 0;
        while i < n
            invariant
                i <= n,
                out@.len() == i,
                is_one(one),
                forall|j: int| 0 <= j < i ==> is_one(#[trigger] out@[j]),
            decreases n - i,
        {
            out.push(one);
            i = i + 1;
        }
        finish(out, shape.clone())
    }

    fn sigmoid(&self, a: &Tensor<E, Self>) -> (r: BackendResult<Tensor<E, Self>>) {
        let n = a.numel();
        let xs = a.data();
        let one = E::one();
        let mut out: Vec<E> = Vec::with_capacity(n);
        let mut i: usize = 0;
        while i < n
            invariant
                i <= n,
                n == xs@.len(),
                out@.len() == i,
                is_one(one),
                forall|j: int| 0 <= j < i ==> sigmoid_at(one, xs@[j], #[trigger] out@[j]),
            decreases n - i,
        {
            let x = xs[i];
            let neg = x.neg();
            let e = neg.exp();
            let d = one.add(e);
            let v = one.div(d);
            proof {
                assert(is_neg(x, neg) && is_exp(neg, e) && is_sum(one, e, d) && is_quot(one, d, v));
            }
            out.push(v);
            i = i + 1;
        }
        finish(out, a.shape().clone())
    }

    fn exp(&self, a: &Tensor<E, Self>) -> (r: BackendResult<Tensor<E, Self>>) {
        let n = a.numel();
        let xs = a.data();
        let mut out: Vec<E> = Vec::with_capacity(n);
        let mut i: usize = 0;
        while i < n
            invariant
                i <= n,
                n == xs@.len(),
                out@.len() == i,
                forall|j: int| 0 <= j < i ==> is_exp(xs@[j], #[trigger] out@[j]),
            decreases n - i,
        {
            out.push(xs[i].exp());
            i = i + 1;
        }
        finish(out, a.shape().clone())
    }

    fn log(&self, a: &Tensor<E, Self>) -> (r: BackendResult<Tensor<E, Self>>) {
        let n = a.numel();
        let xs = a.data();
        let mut out: Vec<E> = Vec::with_capacity(n);
        let mut i: usize = 0;
        while i < n
            invariant
                i <= n,
                n == xs@.len(),
                out@.len() == i,
                forall|j: int| 0 <= j < i ==> is_ln(xs@[j], #[trigger] out@[j]),
            decreases n - i,
        {
            out.push(xs[i].ln());
            i = i + 1;
        }
        finish(out, a.shape().clone())
    }

    fn add_broadcast(&self, a: &Tensor<E, Self>, b: &Tensor<E, Self>) -> (r: BackendResult<
        Tensor<E, Self>,
    >) {
        let ad = a.shape().dims();
        let bd = b.shape().dims();
        if ad.len() != 2 || bd.len() != 1 {
            return refuse("add_broadcast: expect (matrix, vector) e.g. (N,K) + (K)");
        }
        let n = ad[0];
        let k = ad[1];
        if bd[0] != k {
            return refuse("add_broadcast: last dim must match");
        }
        let xs = a.data();
        let ys = b.data();
        let xlen = a.numel();
        proof {
            assert(a@.dims =~= seq![n, k]);
            assert(b@.dims =~= seq![k]);
            lemma_product_pair(n, k);
            lemma_product_single(k);
        }
        let mut out: Vec<E> = Vec::new();
        let mut i: usize = 0;
        while i < n
            invariant
                i <= n,
                xlen == xs@.len(),
                xs@.len() == n * k,
                ys@.len() == k,
                out@.len() == i * k,
                forall|i2: int, j2: int|
                    0 <= i2 < i && 0 <= j2 < k ==> is_sum(
                        cell(xs@, k as int, i2, j2),
                        ys@[j2],
                        #[trigger] cell(out@, k as int, i2, j2),
                    ),
            decreases n - i,
        {
            let mut j: usize = 0;
            while j < k
                invariant
                    i < n,
                    j <= k,
                    xlen == xs@.len(),
                    xs@.len() == n * k,
                    ys@.len() == k,
                    out@.len() == i * k + j,
                    forall|i2: int, j2: int|
                        0 <= i2 < i && 0 <= j2 < k ==> is_sum(
                            cell(xs@, k as int, i2, j2),
                            ys@[j2],
                            #[trigger] cell(out@, k as int, i2, j2),
                        ),
                    forall|j2: int|
                        0 <= j2 < j ==> is_sum(
                            cell(xs@, k as int, i as int, j2),
                            ys@[j2],
                            #[trigger] cell(out@, k as int, i as int, j2),
                        ),
                decreases k - j,
            {
                proof {
                    lemma_cell_index(n as int, k as int, i as int, j as int);
                }
                let v = xs[i * k + j].add(ys[j]);
                let ghost before = out@;
                out.push(v);
                proof {
                    assert forall|i2: int, j2: int| 0 <= i2 < i && 0 <= j2 < k implies is_sum(
                        cell(xs@, k as int, i2, j2),
                        ys@[j2],
                        #[trigger] cell(out@, k as int, i2, j2),
                    ) by {
                        lemma_cell_order(k as int, i2, j2, i as int, j as int);
                        assert(cell(out@, k as int, i2, j2) == cell(before, k as int, i2, j2));
                    }
                    assert forall|j2: int| 0 <= j2 < j + 1 implies is_sum(
                        cell(xs@, k as int, i as int, j2),
                        ys@[j2],
                        #[trigger] cell(out@, k as int, i as int, j2),
                    ) by {
                        if j2 < j {
                            assert(cell(out@, k as int, i as int, j2) == cell(
                                before,
                                k as int,
                                i as int,
                                j2,
                            ));
                        }
                    }
                }
                j = j + 1;
            }
            proof {
                assert(i * k + k == (i + 1) * k) by (nonlinear_arith);
            }
            i = i + 1;
        }
        finish(out, a.shape().clone())
    }

    fn transpose(&self, a: &Tensor<E, Self>) -> (r: BackendResult<Tensor<E, Self>>) {
        let d = a.shape().dims();
        if d.len() != 2 {
            return refuse("transpose: requires 2D tensor");
        }
        let m = d[0];
        let n = d[1];
        let xs = a.data();
        let xlen = a.numel();
        proof {
            assert(a@.dims =~= seq![m, n]);
            lemma_product_pair(m, n);
            lemma_product_pair(n, m);
            assert(m * n == n * m) by (nonlinear_arith);
        }
        let mut out: Vec<E> = Vec::new();
        let mut j: usize = 0;
        while j < n
            invariant
                j <= n,
                xlen == xs@.len(),
                xs@.len() == m * n,
                out@.len() == j * m,
                forall|x: int|
                    0 <= x < out@.len() ==> #[trigger] out@[x] == xs@[(x % (m as int)) * n + x / (
                    m as int)],
            decreases n - j,
        {
            let mut i: usize = 0;
            while i < m
                invariant
                    j < n,
                    i <= m,
                    xlen == xs@.len(),
                    xs@.len() == m * n,
                    out@.len() == j * m + i,
                    forall|x: int|
                        0 <= x < out@.len() ==> #[trigger] out@[x] == xs@[(x % (m as int)) * n + x
                            / (m as int)],
                decreases m - i,
            {
                proof {
                    lemma_cell_index(m as int, n as int, i as int, j as int);
                    lemma_fundamental_div_mod_converse(j * m + i, m as int, j as int, i as int);
                }
                out.push(xs[i * n + j]);
                i = i + 1;
            }
            proof {
                assert(j * m + m == (j + 1) * m) by (nonlinear_arith);
            }
            j = j + 1;
        }
        proof {
            assert(out@ =~= transposed(a@).data);
        }
        finish(out, Shape::new(vec![n, m]))
    }

    fn scale(&self, a: &Tensor<E, Self>, s: E) -> (r: BackendResult<Tensor<E, Self>>) {
        let n = a.numel();
        let xs = a.data();
        let mut out: Vec<E> = Vec::with_capacity(n);
        let mut i: usize = 0;
        while i < n
            invariant
                i <= n,
                n == xs@.len(),
                out@.len() == i,
                forall|j: int| 0 <= j < i ==> is_prod(xs@[j], s, #[trigger] out@[j]),
            decreases n - i,
        {
            out.push(xs[i].mul(s));
            i = i + 1;
        }
        finish(out, a.shape().clone())
    }

    fn div(&self, a: &Tensor<E, Self>, b: &Tensor<E, Self>) -> (r: BackendResult<Tensor<E, Self>>) {
        if !a.shape().same_as(b.shape()) {
            return refuse("div: shape mismatch");
        }
        let n = a.numel();
        let xs = a.data();
        let ys = b.data();
        let mut out: Vec<E> = Vec::with_capacity(n);
        let mut i: usize = 0;
        while i < n
            invariant
                i <= n,
                n == xs@.len(),
                n == ys@.len(),
                out@.len() == i,
                forall|j: int| 0 <= j < i ==> is_quot(xs@[j], ys@[j], #[trigger] out@[j]),
            decreases n - i,
        {
            out.push(xs[i].div(ys[i]));
            i = i + 1;
        }
        finish(out, a.shape().clone())
    }

    fn relu_backward(&self, grad_out: &Tensor<E, Self>, input: &Tensor<E, Self>) -> (r:
        BackendResult<Tensor<E, Self>>) {
        if !grad_out.shape().same_as(input.shape()) {
            return refuse("relu_backward: shape mismatch");
        }
        let n = input.numel();
        let gs = grad_out.data();
        let xs = input.data();
        let zero = E::zero();
        let mut out: Vec<E> = Vec::with_capacity(n);
        let mut i: usize = 0;
        while i < n
            invariant
                i <= n,
                n == xs@.len(),
                n == gs@.len(),
                out@.len() == i,
                is_zero(zero),
                forall|j: int| 0 <= j < i ==> gated(zero, xs@[j], gs@[j], #[trigger] out@[j]),
            decreases n - i,
        {
            let v = if xs[i].is_positive() {
                gs[i]
            } else {
                zero
            };
            out.push(v);
            i = i + 1;
        }
        finish(out, input.shape().clone())
    }

    fn sigmoid_backward(&self, grad_out: &Tensor<E, Self>, fwd_output: &Tensor<E, Self>) -> (r:
        BackendResult<Tensor<E, Self>>) {
        if !grad_out.shape().same_as(fwd_output.shape()) {
            return refuse("sigmoid_backward: shape mismatch");
        }
        let n = fwd_output.numel();
        let gs = grad_out.data();
        let ys = fwd_output.data();
        let one = E::one();
        let mut out: Vec<E> = Vec::with_capacity(n);
        let mut i: usize = 0;
        while i < n
            invariant
                i <= n,
                n == ys@.len(),
                n == gs@.len(),
                out@.len() == i,
                is_one(one),
                forall|j: int|
                    0 <= j < i ==> sigmoid_backward_at(one, gs@[j], ys@[j], #[trigger] out@[j]),
            decreases n - i,
        {
            let p = gs[i].mul(ys[i]);
            let q = one.sub(ys[i]);
            let v = p.mul(q);
            proof {
                assert(is_prod(gs@[i as int], ys@[i as int], p) && is_diff(one, ys@[i as int], q)
                    && is_prod(p, q, v));
            }
            out.push(v);
            i = i + 1;
        }
        finish(out, fwd_output.shape().clone())
    }

    fn softmax_last_dim(&self, a: &Tensor<E, Self>) -> (r: BackendResult<Tensor<E, Self>>) {
        let dims = a.shape().dims();
        if dims.len() == 0 {
            return refuse("softmax: requires at least one dimension");
        }
        let n = a.numel();
        let cols = dims[dims.len() - 1];
        let xs = a.data();
        let ghost rows_n = leading(a@);
        assert(n == rows_n * cols);
        if n == 0 {
            let zero = E::zero();
            let out: Vec<E> = Vec::new();
            let ghost t = TensorView { dims: a@.dims, data: out@ };
            proof {
                let sums = Seq::new(rows_n as nat, |i: int| zero);
                assert(rows_n == 0 || cols == 0) by (nonlinear_arith)
                    requires
                        rows_n * cols == 0,
                ;
                lemma_empty_rows(rows_n, cols as int, zero, Seq::<E>::empty(), sums);
                assert(softmax_steps(a@, Seq::<E>::empty(), sums, t));
            }
            return finish(out, a.shape().clone());
        }
        assert(cols > 0 && rows_n > 0) by (nonlinear_arith)
            requires
                n == rows_n * cols,
                n > 0,
                rows_n >= 0,
        ;
        let rows = n / cols;
        proof {
            lemma_fundamental_div_mod_converse(n as int, cols as int, rows_n, 0);
        }
        let mut exps: Vec<E> = Vec::with_capacity(n);
        let mut x: usize = 0;
        while x < n
            invariant
                x <= n,
                n == xs@.len(),
                exps@.len() == x,
                forall|y: int| 0 <= y < x ==> is_exp(xs@[y], #[trigger] exps@[y]),
            decreases n - x,
        {
            exps.push(xs[x].exp());
            x = x + 1;
        }
        let sums = row_totals(&exps, rows, cols);
        let mut out: Vec<E> = Vec::with_capacity(n);
        let mut x: usize = 0;
        while x < n
            invariant
                x <= n,
                cols > 0,
                exps@.len() == n,
                sums@.len() == rows,
                rows * cols == n,
                out@.len() == x,
                forall|y: int|
                    0 <= y < x ==> is_quot(
                        exps@[y],
                        sums@[y / (cols as int)],
                        #[trigger] out@[y],
                    ),
            decreases n - x,
        {
            proof {
                lemma_flat_row(rows as int, cols as int, x as int);
            }
            out.push(exps[x].div(sums[x / cols]));
            x = x + 1;
        }
        let ghost t = TensorView { dims: a@.dims, data: out@ };
        proof {
            assert forall|i: int, j: int| 0 <= i < rows && 0 <= j < cols implies is_quot(
                cell(exps@, cols as int, i, j),
                sums@[i],
                #[trigger] cell(t.data, cols as int, i, j),
            ) by {
                lemma_cell_index(rows as int, cols as int, i, j);
                lemma_fundamental_div_mod_converse(i * cols + j, cols as int, i, j);
            }
            assert(softmax_steps(a@, exps@, sums@, t));
        }
        finish(out, a.shape().clone())
    }

    fn softmax_backward(&self, grad_out: &Tensor<E, Self>, fwd_output: &Tensor<E, Self>) -> (r:
        BackendResult<Tensor<E, Self>>) {
        if !grad_out.shape().same_as(fwd_output.shape()) {
            return refuse("softmax_backward: shape mismatch");
        }
        let dims = fwd_output.shape().dims();
        if dims.len() == 0 {
            return refuse("softmax_backward: requires at least one dimension");
        }
        let n = fwd_output.numel();
        let cols = dims[dims.len() - 1];
        let gs = grad_out.data();
        let ys = fwd_output.data();
        let ghost rows_n = leading(fwd_output@);
        assert(n == rows_n * cols);
        if n == 0 {
            let zero = E::zero();
            let out: Vec<E> = Vec::new();
            let ghost t = TensorView { dims: fwd_output@.dims, data: out@ };
            proof {
                let sums = Seq::new(rows_n as nat, |i: int| zero);
                assert(rows_n == 0 || cols == 0) by (nonlinear_arith)
                    requires
                        rows_n * cols == 0,
                ;
                lemma_empty_rows(rows_n, cols as int, zero, Seq::<E>::empty(), sums);
                assert(softmax_backward_steps(
                    grad_out@,
                    fwd_output@,
                    Seq::<E>::empty(),
                    sums,
                    Seq::<E>::empty(),
                    t,
                ));
            }
            return finish(out, fwd_output.shape().clone());
        }
        assert(cols > 0 && rows_n > 0) by (nonlinear_arith)
            requires
                n == rows_n * cols,
                n > 0,
                rows_n >= 0,
        ;
        let rows = n / cols;
        proof {
            lemma_fundamental_div_mod_converse(n as int, cols as int, rows_n, 0);
        }
        let mut prods: Vec<E> = Vec::with_capacity(n);
        let mut x: usize = 0;
        while x < n
            invariant
                x <= n,
                n == ys@.len(),
                n == gs@.len(),
                prods@.len() == x,
                forall|y: int| 0 <= y < x ==> is_prod(gs@[y], ys@[y], #[trigger] prods@[y]),
            decreases n - x,
        {
            prods.push(gs[x].mul(ys[x]));
            x = x + 1;
        }
        let sums = row_totals(&prods, rows, cols);
        let mut diffs: Vec<E> = Vec::with_capacity(n);
        let mut out: Vec<E> = Vec::with_capacity(n);
        let mut x: usize = 0;
        while x < n
            invariant
                x <= n,
                cols > 0,
                n == ys@.len(),
                n == gs@.len(),
                sums@.len() == rows,
                rows * cols == n,
                diffs@.len() == x,
                out@.len() == x,
                forall|y: int|
                    0 <= y < x ==> is_diff(
                        gs@[y],
                        sums@[y / (cols as int)],
                        #[trigger] diffs@[y],
                    ),
                forall|y: int| 0 <= y < x ==> is_prod(ys@[y], diffs@[y], #[trigger] out@[y]),
            decreases n - x,
        {
            proof {
                lemma_flat_row(rows as int, cols as int, x as int);
            }
            let d = gs[x].sub(sums[x / cols]);
            diffs.push(d);
            out.push(ys[x].mul(d));
            x = x + 1;
        }
        let ghost t = TensorView { dims: fwd_output@.dims, data: out@ };
        proof {
            assert forall|i: int, j: int| 0 <= i < rows && 0 <= j < cols implies is_diff(
                cell(gs@, cols as int, i, j),
                sums@[i],
                #[trigger] cell(diffs@, cols as int, i, j),
            ) by {
                lemma_cell_index(rows as int, cols as int, i, j);
                lemma_fundamental_div_mod_converse(i * cols + j, cols as int, i, j);
            }
            assert(softmax_backward_steps(grad_out@, fwd_output@, prods@, sums@, diffs@, t));
        }
        finish(out, fwd_output.shape().clone())
    }
}

} // verus!
