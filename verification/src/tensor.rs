//! Arrays: a flat buffer of elements with a shape and a handle to the backend
//! that computes on it. Every operation is handed to the backend.

use vstd::prelude::*;
use std::sync::Arc;
use crate::backend::{Backend, BackendError, BackendResult};
use crate::kernels::{add_broadcast_defined, add_broadcast_rel, add_rel, div_rel, exp_rel,
    log_rel, matmul_defined, matmul_rel, mul_rel, relu_backward_rel, relu_rel, scale_rel,
    sigmoid_backward_rel, sigmoid_rel, softmax_backward_rel, softmax_rel, sub_rel,
    sum_dim_defined, sum_dim_rel, sum_rel, transposed, TensorView};
use crate::scalar::{is_zero, Scalar};
use crate::shape::{dims_product, Shape, ShapeError};
use crate::text::{join, numbered};

verus! {

/// Error of an array operation.
#[derive(Debug)]
pub enum TensorError {
    /// The backend refused the operands.
    Backend(BackendError),
    /// The element count does not match the shape.
    Shape(ShapeError),
}

impl TensorError {
    /// The message, with the kind of error in front.
    pub fn to_string(&self) -> (text: String)
        ensures
            text@ == match *self {
                TensorError::Backend(e) => "backend error: "@ + e.text_spec(),
                TensorError::Shape(e) => "shape error: "@ + e.text_spec(),
            },
    {
        match self {
            TensorError::Backend(e) => join("backend error: ", e.to_string().as_str()),
            TensorError::Shape(e) => join("shape error: ", e.to_string().as_str()),
        }
    }
}

impl From<BackendError> for TensorError {
    /// The error of the backend as an error of an array operation.
    fn from(e: BackendError) -> (r: TensorError) {
        TensorError::Backend(e)
    }
}

impl vstd::std_specs::convert::FromSpecImpl<BackendError> for TensorError {
    open spec fn obeys_from_spec() -> bool {
        true
    }

    open spec fn from_spec(e: BackendError) -> TensorError {
        TensorError::Backend(e)
    }
}

impl From<ShapeError> for TensorError {
    /// The error of a shape as an error of an array operation.
    fn from(e: ShapeError) -> (r: TensorError) {
        TensorError::Shape(e)
    }
}

impl vstd::std_specs::convert::FromSpecImpl<ShapeError> for TensorError {
    open spec fn obeys_from_spec() -> bool {
        true
    }

    open spec fn from_spec(e: ShapeError) -> TensorError {
        TensorError::Shape(e)
    }
}

pub type TensorResult<T> = Result<T, TensorError>;

/// An array of elements of type `E`, computed on by a backend of type `B`.
#[derive(Debug)]
pub struct Tensor<E, B> {
    data: Vec<E>,
    shape: Shape,
    backend: Arc<B>,
}

impl<E, B> View for Tensor<E, B> {
    type V = TensorView<E>;

    closed spec fn view(&self) -> TensorView<E> {
        TensorView { dims: self.shape@, data: self.data@ }
    }
}

impl<E, B> Tensor<E, B> {
    /// Builds an array from its elements and its shape.
    ///
    /// Fails with a shape error unless `data` holds exactly as many elements
    /// as `shape` asks for.
    pub fn from_vec(data: Vec<E>, shape: Shape, backend: Arc<B>) -> (r: TensorResult<Self>)
        ensures
            r is Ok <==> data@.len() == shape.numel_spec(),
            r matches Ok(t) ==> t@ == (TensorView { dims: shape@, data: data@ }) && t@.wf()
                && t.backend_spec() == *backend,
            r matches Err(e) ==> e is Shape,
    {
        let left = join(numbered("data len", data.len()).as_str(), " != shape numel");
        let text = match shape.checked_numel() {
            Some(n) => {
                if data.len() == n {
                    return Ok(Tensor { data, shape, backend });
                }
                numbered(left.as_str(), n)
            },
            None => join(left.as_str(), " beyond the largest count"),
        };
        Err(TensorError::Shape(ShapeError(text)))
    }

    /// Whether the array holds as many elements as its shape asks for.
    pub fn is_valid(&self) -> (valid: bool)
        ensures
            valid == self@.wf(),
    {
        match self.shape.checked_numel() {
            Some(n) => n == self.data.len(),
            None => false,
        }
    }

    /// The elements in row-major order.
    pub fn data(&self) -> (d: &[E])
        ensures
            d@ == self@.data,
    {
        self.data.as_slice()
    }

    /// The shape.
    pub fn shape(&self) -> (s: &Shape)
        ensures
            s@ == self@.dims,
    {
        &self.shape
    }

    /// A handle to the backend of this array.
    pub fn backend(&self) -> (b: Arc<B>)
        ensures
            *b == self.backend_spec(),
    {
        Arc::clone(&self.backend)
    }

    /// The backend that this array holds a handle to.
    pub closed spec fn backend_spec(&self) -> B {
        *self.backend
    }

    /// Number of elements.
    pub fn numel(&self) -> (n: usize)
        ensures
            n == self@.data.len(),
    {
        self.data.len()
    }
}

impl<E: Copy, B> Clone for Tensor<E, B> {
    fn clone(&self) -> (t: Self)
        ensures
            t@ == self@,
            t.backend_spec() == self.backend_spec(),
    {
        let mut data: Vec<E> = Vec::with_capacity(self.data.len());
        let mut i: usize = 0;
        while i < self.data.len()
            invariant
                i <= self.data.len(),
                data@ == self.data@.take(i as int),
            decreases self.data.len() - i,
        {
            data.push(self.data[i]);
            i = i + 1;
        }
        proof {
            assert(self.data@.take(self.data.len() as int) == self.data@);
        }
        Tensor { data, shape: self.shape.clone(), backend: Arc::clone(&self.backend) }
    }
}

impl<E: Scalar, B: Backend<E>> Tensor<E, B> {
    /// Builds an array through the backend.
    pub fn from_vec_backend(data: Vec<E>, shape: Shape, backend: Arc<B>) -> (r: BackendResult<Self>)
        ensures
            r is Ok <==> data@.len() == shape.numel_spec(),
            r matches Ok(t) ==> t@ == (TensorView { dims: shape@, data: data@ }) && t@.wf(),
    {
        backend.from_vec(data, shape)
    }

    /// The elements, open to change in place.
    pub fn data_mut(&mut self) -> (d: &mut [E])
        ensures
            d@ == old(self)@.data,
            final(self)@.dims == old(self)@.dims,
            final(self)@.data == final(d)@,
    {
        self.data.as_mut_slice()
    }

    /// Overwrites every element with a zero.
    pub fn zero_fill(&mut self)
        ensures
            final(self)@.dims == old(self)@.dims,
            final(self)@.data.len() == old(self)@.data.len(),
            forall|i: int|
                0 <= i < final(self)@.data.len() ==> is_zero(#[trigger] final(self)@.data[i]),
    {
        let n = self.data.len();
        let zero = E::zero();
        let mut i: usize = 0;
        while i < n
            invariant
                n == self.data.len(),
                i <= n,
                self.shape == old(self).shape,
                is_zero(zero),
                forall|j: int| 0 <= j < i ==> is_zero(#[trigger] self.data@[j]),
            decreases n - i,
        {
            self.data.set(i, zero);
            i = i + 1;
        }
    }

    /// Matrix product `self @ rhs`: `(M, K) @ (K, N)` gives `(M, N)`.
    pub fn matmul(&self, rhs: &Tensor<E, B>) -> (r: TensorResult<Tensor<E, B>>)
        requires
            self@.wf(),
            rhs@.wf(),
        ensures
            r is Ok <==> matmul_defined(self@.dims, rhs@.dims),
            r matches Ok(t) ==> t@.wf() && matmul_rel(self@, rhs@, t@),
            r matches Err(e) ==> e is Backend,
    {
        match self.backend.matmul(self, rhs) {
            Ok(t) => Ok(t),
            Err(e) => Err(TensorError::Backend(e)),
        }
    }

    /// Element-wise sum.
    pub fn add(&self, rhs: &Tensor<E, B>) -> (r: TensorResult<Tensor<E, B>>)
        requires
            self@.wf(),
            rhs@.wf(),
        ensures
            r is Ok <==> self@.dims == rhs@.dims,
            r matches Ok(t) ==> t@.wf() && add_rel(self@, rhs@, t@),
            r matches Err(e) ==> e is Backend,
    {
        match self.backend.add(self, rhs) {
            Ok(t) => Ok(t),
            Err(e) => Err(TensorError::Backend(e)),
        }
    }

    /// Element-wise product.
    pub fn mul(&self, rhs: &Tensor<E, B>) -> (r: TensorResult<Tensor<E, B>>)
        requires
            self@.wf(),
            rhs@.wf(),
        ensures
            r is Ok <==> self@.dims == rhs@.dims,
            r matches Ok(t) ==> t@.wf() && mul_rel(self@, rhs@, t@),
            r matches Err(e) ==> e is Backend,
    {
        match self.backend.mul(self, rhs) {
            Ok(t) => Ok(t),
            Err(e) => Err(TensorError::Backend(e)),
        }
    }

    /// Element-wise difference.
    pub fn sub(&self, rhs: &Tensor<E, B>) -> (r: TensorResult<Tensor<E, B>>)
        requires
            self@.wf(),
            rhs@.wf(),
        ensures
            r is Ok <==> self@.dims == rhs@.dims,
            r matches Ok(t) ==> t@.wf() && sub_rel(self@, rhs@, t@),
            r matches Err(e) ==> e is Backend,
    {
        match self.backend.sub(self, rhs) {
            Ok(t) => Ok(t),
            Err(e) => Err(TensorError::Backend(e)),
        }
    }

    /// Element-wise quotient.
    pub fn div(&self, rhs: &Tensor<E, B>) -> (r: TensorResult<Tensor<E, B>>)
        requires
            self@.wf(),
            rhs@.wf(),
        ensures
            r is Ok <==> self@.dims == rhs@.dims,
            r matches Ok(t) ==> t@.wf() && div_rel(self@, rhs@, t@),
            r matches Err(e) ==> e is Backend,
    {
        match self.backend.div(self, rhs) {
            Ok(t) => Ok(t),
            Err(e) => Err(TensorError::Backend(e)),
        }
    }

    /// `max(0, x)`, element by element.
    pub fn relu(&self) -> (r: TensorResult<Tensor<E, B>>)
        requires
            self@.wf(),
        ensures
            r is Ok,
            r matches Ok(t) ==> t@.wf() && relu_rel(self@, t@),
            r matches Err(e) ==> e is Backend,
    {
        match self.backend.relu(self) {
            Ok(t) => Ok(t),
            Err(e) => Err(TensorError::Backend(e)),
        }
    }

    /// The sum of all elements, as a one-element array.
    pub fn sum(&self) -> (r: TensorResult<Tensor<E, B>>)
        requires
            self@.wf(),
        ensures
            r is Ok,
            r matches Ok(t) ==> t@.wf() && sum_rel(self@, t@),
            r matches Err(e) ==> e is Backend,
    {
        match self.backend.sum(self) {
            Ok(t) => Ok(t),
            Err(e) => Err(TensorError::Backend(e)),
        }
    }

    /// The logistic function, element by element.
    pub fn sigmoid(&self) -> (r: TensorResult<Tensor<E, B>>)
        requires
            self@.wf(),
        ensures
            r is Ok,
            r matches Ok(t) ==> t@.wf() && sigmoid_rel(self@, t@),
            r matches Err(e) ==> e is Backend,
    {
        match self.backend.sigmoid(self) {
            Ok(t) => Ok(t),
            Err(e) => Err(TensorError::Backend(e)),
        }
    }

    /// The exponential, element by element.
    pub fn exp(&self) -> (r: TensorResult<Tensor<E, B>>)
        requires
            self@.wf(),
        ensures
            r is Ok,
            r matches Ok(t) ==> t@.wf() && exp_rel(self@, t@),
            r matches Err(e) ==> e is Backend,
    {
        match self.backend.exp(self) {
            Ok(t) => Ok(t),
            Err(e) => Err(TensorError::Backend(e)),
        }
    }

    /// The natural logarithm, element by element.
    pub fn log(&self) -> (r: TensorResult<Tensor<E, B>>)
        requires
            self@.wf(),
        ensures
            r is Ok,
            r matches Ok(t) ==> t@.wf() && log_rel(self@, t@),
            r matches Err(e) ==> e is Backend,
    {
        match self.backend.log(self) {
            Ok(t) => Ok(t),
            Err(e) => Err(TensorError::Backend(e)),
        }
    }

    /// The sum along axis `dim`, which keeps size 1.
    pub fn sum_dim(&self, dim: usize) -> (r: TensorResult<Tensor<E, B>>)
        requires
            self@.wf(),
        ensures
            r is Ok <==> sum_dim_defined(self@.dims, dim as int),
            r matches Ok(t) ==> t@.wf() && sum_dim_rel(self@, dim as int, t@),
            r matches Err(e) ==> e is Backend,
    {
        match self.backend.sum_dim(self, dim) {
            Ok(t) => Ok(t),
            Err(e) => Err(TensorError::Backend(e)),
        }
    }

    /// This matrix with the vector `rhs` added to each row.
    pub fn add_broadcast(&self, rhs: &Tensor<E, B>) -> (r: TensorResult<Tensor<E, B>>)
        requires
            self@.wf(),
            rhs@.wf(),
        ensures
            r is Ok <==> add_broadcast_defined(self@.dims, rhs@.dims),
            r matches Ok(t) ==> t@.wf() && add_broadcast_rel(self@, rhs@, t@),
            r matches Err(e) ==> e is Backend,
    {
        match self.backend.add_broadcast(self, rhs) {
            Ok(t) => Ok(t),
            Err(e) => Err(TensorError::Backend(e)),
        }
    }

    /// The transpose of this matrix: `(M, N)` gives `(N, M)`.
    pub fn transpose(&self) -> (r: TensorResult<Tensor<E, B>>)
        requires
            self@.wf(),
        ensures
            r is Ok <==> self@.dims.len() == 2,
            r matches Ok(t) ==> t@.wf() && t@ == transposed(self@),
            r matches Err(e) ==> e is Backend,
    {
        match self.backend.transpose(self) {
            Ok(t) => Ok(t),
            Err(e) => Err(TensorError::Backend(e)),
        }
    }

    /// Every element multiplied by `s`.
    pub fn scale(&self, s: E) -> (r: TensorResult<Tensor<E, B>>)
        requires
            self@.wf(),
        ensures
            r is Ok,
            r matches Ok(t) ==> t@.wf() && scale_rel(self@, s, t@),
            r matches Err(e) ==> e is Backend,
    {
        match self.backend.scale(self, s) {
            Ok(t) => Ok(t),
            Err(e) => Err(TensorError::Backend(e)),
        }
    }

    /// Gradient of ReLU at this input: `grad_out` where this array is
    /// positive, zero elsewhere.
    pub fn relu_backward(&self, grad_out: &Tensor<E, B>) -> (r: TensorResult<Tensor<E, B>>)
        requires
            self@.wf(),
            grad_out@.wf(),
        ensures
            r is Ok <==> grad_out@.dims == self@.dims,
            r matches Ok(t) ==> t@.wf() && relu_backward_rel(grad_out@, self@, t@),
            r matches Err(e) ==> e is Backend,
    {
        match self.backend.relu_backward(grad_out, self) {
            Ok(t) => Ok(t),
            Err(e) => Err(TensorError::Backend(e)),
        }
    }

    /// Gradient of the logistic function at this output:
    /// `grad_out * self * (1 - self)`.
    pub fn sigmoid_backward(&self, grad_out: &Tensor<E, B>) -> (r: TensorResult<Tensor<E, B>>)
        requires
            self@.wf(),
            grad_out@.wf(),
        ensures
            r is Ok <==> grad_out@.dims == self@.dims,
            r matches Ok(t) ==> t@.wf() && sigmoid_backward_rel(grad_out@, self@, t@),
            r matches Err(e) ==> e is Backend,
    {
        match self.backend.sigmoid_backward(grad_out, self) {
            Ok(t) => Ok(t),
            Err(e) => Err(TensorError::Backend(e)),
        }
    }

    /// Softmax along the last axis.
    pub fn softmax_last_dim(&self) -> (r: TensorResult<Tensor<E, B>>)
        requires
            self@.wf(),
        ensures
            r is Ok <==> self@.dims.len() >= 1,
            r matches Ok(t) ==> t@.wf() && softmax_rel(self@, t@),
            r matches Err(e) ==> e is Backend,
    {
        match self.backend.softmax_last_dim(self) {
            Ok(t) => Ok(t),
            Err(e) => Err(TensorError::Backend(e)),
        }
    }

    /// Gradient of softmax at this output:
    /// `self * (grad_out - rowsum(grad_out * self))`.
    pub fn softmax_backward(&self, grad_out: &Tensor<E, B>) -> (r: TensorResult<Tensor<E, B>>)
        requires
            self@.wf(),
            grad_out@.wf(),
        ensures
            r is Ok <==> grad_out@.dims == self@.dims && self@.dims.len() >= 1,
            r matches Ok(t) ==> t@.wf() && softmax_backward_rel(grad_out@, self@, t@),
            r matches Err(e) ==> e is Backend,
    {
        match self.backend.softmax_backward(grad_out, self) {
            Ok(t) => Ok(t),
            Err(e) => Err(TensorError::Backend(e)),
        }
    }
}

/// The elements of the arrays `ts`, one array after the other.
pub open spec fn flattened<E>(ts: Seq<TensorView<E>>) -> Seq<E>
    decreases ts.len(),
{
    if ts.len() == 0 {
        Seq::empty()
    } else {
        flattened(ts.drop_last()) + ts.last().data
    }
}

/// The shape of `n` arrays of the shape `dims` stacked as rows: an array
/// with one axis counts as a single row; the rows of the others are put one
/// under the other.
pub open spec fn stacked_dims(n: nat, dims: Seq<usize>) -> Seq<usize> {
    if dims.len() == 1 {
        seq![n as usize] + dims
    } else {
        dims.update(0, (n * dims[0]) as usize)
    }
}

/// The arrays that can be stacked: at least one, all well formed and of the
/// same shape with at least one axis, and few enough rows to count.
pub open spec fn stack_defined<E>(ts: Seq<TensorView<E>>, dim: usize) -> bool {
    &&& dim == 0
    &&& ts.len() > 0
    &&& ts[0].dims.len() >= 1
    &&& forall|i: int| 0 <= i < ts.len() ==> (#[trigger] ts[i]).wf() && ts[i].dims == ts[0].dims
    &&& (if ts[0].dims.len() == 1 {
        ts.len() as int
    } else {
        ts.len() * ts[0].dims[0]
    }) <= usize::MAX
}

/// The views of a list of arrays.
pub open spec fn tensor_views<E, B>(ts: Seq<Tensor<E, B>>) -> Seq<TensorView<E>> {
    Seq::new(ts.len(), |i: int| ts[i]@)
}

/// The flattened arrays hold as many elements as all arrays together.
pub proof fn lemma_flattened_len<E>(ts: Seq<TensorView<E>>, each: nat)
    requires
        forall|i: int| 0 <= i < ts.len() ==> (#[trigger] ts[i]).data.len() == each,
    ensures
        flattened(ts).len() == ts.len() * each,
    decreases ts.len(),
{
    if ts.len() > 0 {
        lemma_flattened_len(ts.drop_last(), each);
        assert((ts.len() - 1) * each + each == ts.len() * each) by (nonlinear_arith);
    } else {
        assert(0 * each == 0) by (nonlinear_arith);
    }
}

impl<E: Copy, B> Tensor<E, B> {
    /// Stacks arrays of one shape as rows of one array, along axis `dim`,
    /// which must be the first. An array with one axis counts as a single
    /// row.
    ///
    /// Fails with a shape error unless there is at least one array, all
    /// arrays have the same shape with at least one axis, and `dim` is 0.
    pub fn stack(tensors: &[Tensor<E, B>], dim: usize) -> (r: TensorResult<Tensor<E, B>>)
        ensures
            r is Ok <==> stack_defined(tensor_views(tensors@), dim),
            r matches Ok(t) ==> t@.wf() && t@.dims == stacked_dims(
                tensors@.len(),
                tensors@[0]@.dims,
            ) && t@.data == flattened(tensor_views(tensors@)),
            r matches Err(e) ==> e is Shape,
    {
        let ghost views = tensor_views(tensors@);
        let n = tensors.len();
        if dim != 0 || n == 0 {
            return Err(TensorError::Shape(ShapeError("stack: expects arrays and axis 0".to_string())));
        }
        let first = &tensors[0];
        let rank = first.shape.dims().len();
        if rank == 0 {
            proof {
                assert(views[0] == tensors@[0]@);
            }
            return Err(TensorError::Shape(ShapeError("stack: arrays need an axis".to_string())));
        }
        let each = first.data.len();
        let mut data: Vec<E> = Vec::new();
        let mut i: usize = 0;
        while i < n
            invariant
                i <= n,
                n == tensors@.len(),
                n > 0,
                views == tensor_views(tensors@),
                *first == tensors@[0],
                each == tensors@[0]@.data.len(),
                forall|j: int|
                    0 <= j < i ==> (#[trigger] views[j]).wf() && views[j].dims == views[0].dims,
                data@ == flattened(views.take(i as int)),
            decreases n - i,
        {
            let t = &tensors[i];
            proof {
                assert(views[i as int] == t@);
                assert(views[0] == tensors@[0]@);
            }
            if !t.is_valid() || !t.shape.same_as(&first.shape) {
                return Err(TensorError::Shape(ShapeError("stack: shapes differ".to_string())));
            }
            let len = t.data.len();
            let ghost before = data@;
            let mut k: usize = 0;
            while k < len
                invariant
                    k <= len,
                    len == t.data@.len(),
                    data@ == before + t.data@.take(k as int),
                decreases len - k,
            {
                data.push(t.data[k]);
                proof {
                    assert(t.data@.take(k + 1) =~= t.data@.take(k as int).push(t.data@[k as int]));
                    assert(data@ =~= before + t.data@.take(k + 1));
                }
                k = k + 1;
            }
            proof {
                assert(t.data@.take(len as int) =~= t.data@);
                assert(views.take(i + 1).drop_last() =~= views.take(i as int));
                assert(views.take(i + 1).last() == views[i as int]);
            }
            i = i + 1;
        }
        proof {
            assert(views.take(n as int) =~= views);
        }
        let dims = first.shape.dims();
        let lead = if rank == 1 {
            Some(n)
        } else {
            n.checked_mul(dims[0])
        };
        let lead = match lead {
            Some(v) => v,
            None => {
                return Err(TensorError::Shape(ShapeError("stack: too many rows".to_string())));
            },
        };
        let mut out_dims: Vec<usize> = Vec::new();
        out_dims.push(lead);
        let mut d: usize = if rank == 1 {
            0
        } else {
            1
        };
        let ghost skip = d;
        while d < rank
            invariant
                skip <= d <= rank,
                rank == dims@.len(),
                out_dims@ == seq![lead] + dims@.subrange(skip as int, d as int),
            decreases rank - d,
        {
            out_dims.push(dims[d]);
            proof {
                assert(dims@.subrange(skip as int, d + 1) =~= dims@.subrange(
                    skip as int,
                    d as int,
                ).push(dims@[d as int]));
                assert(out_dims@ =~= seq![lead] + dims@.subrange(skip as int, d + 1));
            }
            d = d + 1;
        }
        let shape = Shape::new(out_dims);
        let total = data.len();
        proof {
            let fd = tensors@[0]@.dims;
            assert(views[0] == tensors@[0]@);
            assert(views[0].wf());
            assert(shape@ =~= stacked_dims(n as nat, fd));
            lemma_flattened_len(views, each as nat);
            lemma_stacked_numel(n as nat, fd);
            assert(total == dims_product(shape@)) by (nonlinear_arith)
                requires
                    each == dims_product(fd),
                    total == (n as nat) * (each as nat),
                    dims_product(shape@) == (n as nat) * dims_product(fd),
            ;
        }
        Ok(Tensor { data, shape, backend: Arc::clone(&first.backend) })
    }
}

/// Stacking `n` arrays of one shape gives an array that holds `n` times the
/// elements of one.
pub proof fn lemma_stacked_numel(n: nat, dims: Seq<usize>)
    requires
        dims.len() >= 1,
        (if dims.len() == 1 {
            n as int
        } else {
            n * dims[0]
        }) <= usize::MAX,
    ensures
        dims_product(stacked_dims(n, dims)) == n * dims_product(dims),
{
    if dims.len() == 1 {
        crate::shape::lemma_product_concat(seq![n as usize], dims);
        crate::shape::lemma_product_single(n as usize);
    } else {
        let rest = dims.skip(1);
        assert(dims =~= seq![dims[0]] + rest);
        assert(stacked_dims(n, dims) =~= seq![(n * dims[0]) as usize] + rest);
        crate::shape::lemma_product_concat(seq![dims[0]], rest);
        crate::shape::lemma_product_concat(seq![(n * dims[0]) as usize], rest);
        crate::shape::lemma_product_single(dims[0]);
        crate::shape::lemma_product_single((n * dims[0]) as usize);
        let r = dims_product(rest);
        assert((n * dims[0]) * r == n * (dims[0] * r)) by (nonlinear_arith);
    }
}

} // verus!
