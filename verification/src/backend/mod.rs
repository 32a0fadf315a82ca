//! The numeric-kernel backend: every array operation goes through this
//! interface, so that kernels can be swapped without touching the graph.

use vstd::prelude::*;
use crate::kernels::{add_broadcast_defined, add_broadcast_rel, add_rel, div_rel, exp_rel,
    log_rel, matmul_defined, matmul_rel, mul_rel, ones_rel, relu_backward_rel, relu_rel,
    scale_rel, sigmoid_backward_rel, sigmoid_rel, softmax_backward_rel, softmax_rel, sub_rel,
    sum_dim_defined, sum_dim_rel, sum_rel, transposed, zeros_rel, TensorView};
use crate::scalar::Scalar;
use crate::shape::Shape;
use crate::tensor::Tensor;
use crate::text::join;

pub mod cpu;

verus! {

/// Error of a backend operation: the operands do not fit it.
#[derive(Debug)]
pub struct BackendError(pub String);

impl BackendError {
    /// The text of [`BackendError::to_string`].
    pub open spec fn text_spec(&self) -> Seq<char> {
        "backend error: "@ + self.0@
    }

    /// The message, with the kind of error in front.
    pub fn to_string(&self) -> (text: String)
        ensures
            text@ == self.text_spec(),
    {
        join("backend error: ", self.0.as_str())
    }
}

pub type BackendResult<T> = Result<T, BackendError>;

/// The kernels an array delegates to.
pub trait Backend<E: Scalar>: Sized {
    /// `a @ b` for two matrices.
    /// 
    /// Fails unless the inner sizes agree and the result can be held.
    fn matmul(&self, a: &Tensor<E, Self>, b: &Tensor<E, Self>) -> (r: BackendResult<Tensor<E, Self>>)
        requires
            a@.wf(),
            b@.wf(),
        ensures
            r is Ok <==> matmul_defined(a@.dims, b@.dims),
            r matches Ok(t) ==> t@.wf() && matmul_rel(a@, b@, t@),
    ;

    /// `a + b`, element by element.
    /// 
    /// Fails unless both arrays have the same shape.
    fn add(&self, a: &Tensor<E, Self>, b: &Tensor<E, Self>) -> (r: BackendResult<Tensor<E, Self>>)
        requires
            a@.wf(),
            b@.wf(),
        ensures
            r is Ok <==> a@.dims == b@.dims,
            r matches Ok(t) ==> t@.wf() && add_rel(a@, b@, t@),
    ;

    /// `a * b`, element by element.
    /// 
    /// Fails unless both arrays have the same shape.
    fn mul(&self, a: &Tensor<E, Self>, b: &Tensor<E, Self>) -> (r: BackendResult<Tensor<E, Self>>)
        requires
            a@.wf(),
            b@.wf(),
        ensures
            r is Ok <==> a@.dims == b@.dims,
            r matches Ok(t) ==> t@.wf() && mul_rel(a@, b@, t@),
    ;

    /// `a - b`, element by element.
    /// 
    /// Fails unless both arrays have the same shape.
    fn sub(&self, a: &Tensor<E, Self>, b: &Tensor<E, Self>) -> (r: BackendResult<Tensor<E, Self>>)
        requires
            a@.wf(),
            b@.wf(),
        ensures
            r is Ok <==> a@.dims == b@.dims,
            r matches Ok(t) ==> t@.wf() && sub_rel(a@, b@, t@),
    ;

    /// `max(0, a)`, element by element.
    fn relu(&self, a: &Tensor<E, Self>) -> (r: BackendResult<Tensor<E, Self>>)
        requires
            a@.wf(),
        ensures
            r is Ok,
            r matches Ok(t) ==> t@.wf() && relu_rel(a@, t@),
    ;

    /// The sum of all elements, as a one-element array.
    fn sum(&self, a: &Tensor<E, Self>) -> (r: BackendResult<Tensor<E, Self>>)
        requires
            a@.wf(),
        ensures
            r is Ok,
            r matches Ok(t) ==> t@.wf() && sum_rel(a@, t@),
    ;

    /// The sum along axis `dim`, which keeps size 1.
    /// 
    /// Fails unless the axis exists and the result can be held.
    fn sum_dim(&self, a: &Tensor<E, Self>, dim: usize) -> (r: BackendResult<Tensor<E, Self>>)
        requires
            a@.wf(),
        ensures
            r is Ok <==> sum_dim_defined(a@.dims, dim as int),
            r matches Ok(t) ==> t@.wf() && sum_dim_rel(a@, dim as int, t@),
    ;

    /// Builds an array from its elements and its shape.
    /// 
    /// Fails unless `data` holds exactly as many elements as `shape` asks for.
    fn from_vec(&self, data: Vec<E>, shape: Shape) -> (r: BackendResult<Tensor<E, Self>>)
        ensures
            r is Ok <==> data@.len() == shape.numel_spec(),
            r matches Ok(t) ==> t@ == (TensorView { dims: shape@, data: data@ }) && t@.wf(),
    ;

    /// An array of zeros.
    /// 
    /// Fails unless an array of this shape can be held.
    fn zeros(&self, shape: &Shape) -> (r: BackendResult<Tensor<E, Self>>)
        ensures
            r is Ok <==> shape.numel_spec() <= usize::MAX,
            r matches Ok(t) ==> zeros_rel(shape@, t@),
    ;

    /// An array of ones.
    /// 
    /// Fails unless an array of this shape can be held.
    fn ones(&self, shape: &Shape) -> (r: BackendResult<Tensor<E, Self>>)
        ensures
            r is Ok <==> shape.numel_spec() <= usize::MAX,
            r matches Ok(t) ==> ones_rel(shape@, t@),
    ;

    /// The logistic function of `a`, element by element.
    fn sigmoid(&self, a: &Tensor<E, Self>) -> (r: BackendResult<Tensor<E, Self>>)
        requires
            a@.wf(),
        ensures
            r is Ok,
            r matches Ok(t) ==> t@.wf() && sigmoid_rel(a@, t@),
    ;

    /// The exponential of `a`, element by element.
    fn exp(&self, a: &Tensor<E, Self>) -> (r: BackendResult<Tensor<E, Self>>)
        requires
            a@.wf(),
        ensures
            r is Ok,
            r matches Ok(t) ==> t@.wf() && exp_rel(a@, t@),
    ;

    /// The natural logarithm of `a`, element by element.
    fn log(&self, a: &Tensor<E, Self>) -> (r: BackendResult<Tensor<E, Self>>)
        requires
            a@.wf(),
        ensures
            r is Ok,
            r matches Ok(t) ==> t@.wf() && log_rel(a@, t@),
    ;

    /// The matrix `a` with the vector `b` added to each row.
    /// 
    /// Fails unless `a` is a matrix and `b` a vector as long as a row of `a`.
    fn add_broadcast(&self, a: &Tensor<E, Self>, b: &Tensor<E, Self>) -> (r: BackendResult<Tensor<E, Self>>)
        requires
            a@.wf(),
            b@.wf(),
        ensures
            r is Ok <==> add_broadcast_defined(a@.dims, b@.dims),
            r matches Ok(t) ==> t@.wf() && add_broadcast_rel(a@, b@, t@),
    ;

    /// The transpose of a matrix.
    /// 
    /// Fails unless `a` is a matrix.
    fn transpose(&self, a: &Tensor<E, Self>) -> (r: BackendResult<Tensor<E, Self>>)
        requires
            a@.wf(),
        ensures
            r is Ok <==> a@.dims.len() == 2,
            r matches Ok(t) ==> t@.wf() && t@ == transposed(a@),
    ;

    /// `a` with every element multiplied by `s`.
    fn scale(&self, a: &Tensor<E, Self>, s: E) -> (r: BackendResult<Tensor<E, Self>>)
        requires
            a@.wf(),
        ensures
            r is Ok,
            r matches Ok(t) ==> t@.wf() && scale_rel(a@, s, t@),
    ;

    /// `a / b`, element by element.
    /// 
    /// Fails unless both arrays have the same shape.
    fn div(&self, a: &Tensor<E, Self>, b: &Tensor<E, Self>) -> (r: BackendResult<Tensor<E, Self>>)
        requires
            a@.wf(),
            b@.wf(),
        ensures
            r is Ok <==> a@.dims == b@.dims,
            r matches Ok(t) ==> t@.wf() && div_rel(a@, b@, t@),
    ;

    /// `grad_out` where `input` is positive, zero elsewhere.
    /// 
    /// Fails unless both arrays have the same shape.
    fn relu_backward(&self, grad_out: &Tensor<E, Self>, input: &Tensor<E, Self>) -> (r: BackendResult<Tensor<E, Self>>)
        requires
            grad_out@.wf(),
            input@.wf(),
        ensures
            r is Ok <==> grad_out@.dims == input@.dims,
            r matches Ok(t) ==> t@.wf() && relu_backward_rel(grad_out@, input@, t@),
    ;

    /// `grad_out * fwd_output * (1 - fwd_output)`, element by element.
    /// 
    /// Fails unless both arrays have the same shape.
    fn sigmoid_backward(&self, grad_out: &Tensor<E, Self>, fwd_output: &Tensor<E, Self>) -> (r: BackendResult<Tensor<E, Self>>)
        requires
            grad_out@.wf(),
            fwd_output@.wf(),
        ensures
            r is Ok <==> grad_out@.dims == fwd_output@.dims,
            r matches Ok(t) ==> t@.wf() && sigmoid_backward_rel(grad_out@, fwd_output@, t@),
    ;

    /// Softmax along the last axis.
    /// 
    /// Fails on an array without axes.
    fn softmax_last_dim(&self, a: &Tensor<E, Self>) -> (r: BackendResult<Tensor<E, Self>>)
        requires
            a@.wf(),
        ensures
            r is Ok <==> a@.dims.len() >= 1,
            r matches Ok(t) ==> t@.wf() && softmax_rel(a@, t@),
    ;

    /// The gradient of softmax along the last axis:
    /// `fwd_output * (grad_out - rowsum(grad_out * fwd_output))`.
    /// 
    /// Fails unless both arrays have the same shape, with at least one axis.
    fn softmax_backward(&self, grad_out: &Tensor<E, Self>, fwd_output: &Tensor<E, Self>) -> (r: BackendResult<Tensor<E, Self>>)
        requires
            grad_out@.wf(),
            fwd_output@.wf(),
        ensures
            r is Ok <==> grad_out@.dims == fwd_output@.dims && fwd_output@.dims.len() >= 1,
            r matches Ok(t) ==> t@.wf() && softmax_backward_rel(grad_out@, fwd_output@, t@),
    ;
}

} // verus!
