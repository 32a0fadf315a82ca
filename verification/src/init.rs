//! Weight initialization: Xavier and He, from an explicit source of samples.

use vstd::prelude::*;
use std::sync::Arc;
use crate::backend::Backend;
use crate::kernels::{zeros_rel, TensorView};
use crate::scalar::{is_neg, is_ratio, is_sqrt, ratio, Scalar};
use crate::shape::{dims_product, Shape, ShapeError};
use crate::tensor::{Tensor, TensorError, TensorResult};

verus! {

/// A source of samples, such as a seeded random number generator.
pub trait UniformSource<E> {
    /// A sample from the uniform distribution on `[low, high]`.
    fn uniform(&mut self, low: E, high: E) -> E;
}

/// `v` is an answer of a source of samples asked for a sample from
/// `[low, high]`.
pub open spec fn is_sample<E, R: UniformSource<E>>(low: E, high: E, v: E) -> bool {
    exists|source: &mut R| #[trigger] call_ensures(R::uniform, (source, low, high), v)
}

/// Every element of `data` is an answer of a source of samples asked for a
/// sample from `[-scale, scale]`.
pub open spec fn are_samples<E: Scalar, R: UniformSource<E>>(scale: E, data: Seq<E>) -> bool {
    exists|low: E| #[trigger]
        is_neg(scale, low) && forall|i: int|
            0 <= i < data.len() ==> is_sample::<E, R>(low, scale, #[trigger] data[i])
}

/// `scale` is `sqrt(6 / fans)`.
pub open spec fn is_init_scale<E: Scalar>(fans: usize, scale: E) -> bool {
    exists|q: E| #[trigger] is_ratio(6, fans, q) && is_sqrt(q, scale)
}

/// `sqrt(6 / fans)`.
fn init_scale<E: Scalar>(fans: usize) -> (scale: E)
    ensures
        is_init_scale(fans, scale),
{
    let q = ratio::<E>(6, fans);
    let scale = q.sqrt();
    proof {
        assert(is_ratio(6, fans, q) && is_sqrt(q, scale));
    }
    scale
}

/// `n` samples from `[-scale, scale]`.
fn draw<E: Scalar, R: UniformSource<E>>(rng: &mut R, scale: E, n: usize) -> (data: Vec<E>)
    ensures
        data@.len() == n,
        are_samples::<E, R>(scale, data@),
{
    let low = scale.neg();
    let mut data: Vec<E> = Vec::with_capacity(n);
    let mut i: usize = 0;
    while i < n
        invariant
            i <= n,
            data@.len() == i,
            is_neg(scale, low),
            forall|k: int| 0 <= k < i ==> is_sample::<E, R>(low, scale, #[trigger] data@[k]),
        decreases n - i,
    {
        let v = rng.uniform(low, scale);
        data.push(v);
        proof {
            assert(is_sample::<E, R>(low, scale, v));
        }
        i = i + 1;
    }
    data
}

/// The inputs on which the initializers succeed: an array of the shape can
/// be held, and the fans that the scale is computed from can be added.
pub open spec fn init_defined(dims: Seq<usize>, fans: nat) -> bool {
    &&& dims_product(dims) <= usize::MAX
    &&& dims.len() >= fans ==> (if fans == 2 {
        dims[0] + dims[1] <= usize::MAX
    } else {
        true
    })
}

/// `t` is a Xavier initialization of the shape `dims`, drawn from a source
/// of type `R`: zeros if the shape has fewer than two axes, and otherwise
/// samples from `[-s, s]` with `s = sqrt(6 / (dims[0] + dims[1]))`.
pub open spec fn is_xavier<E: Scalar, R: UniformSource<E>>(dims: Seq<usize>, t: TensorView<E>) -> bool {
    &&& t.wf()
    &&& t.dims == dims
    &&& if dims.len() < 2 {
        zeros_rel(dims, t)
    } else {
        exists|scale: E| #[trigger]
            is_init_scale((dims[0] + dims[1]) as usize, scale) && are_samples::<E, R>(scale, t.data)
    }
}

/// `t` is a He initialization of the shape `dims`, drawn from a source of
/// type `R`: zeros if the shape has no axis, and otherwise samples from
/// `[-s, s]` with `s = sqrt(6 / dims[0])`.
pub open spec fn is_he<E: Scalar, R: UniformSource<E>>(dims: Seq<usize>, t: TensorView<E>) -> bool {
    &&& t.wf()
    &&& t.dims == dims
    &&& if dims.len() < 1 {
        zeros_rel(dims, t)
    } else {
        exists|scale: E| #[trigger] is_init_scale(dims[0], scale) && are_samples::<E, R>(scale, t.data)
    }
}

/// Xavier (Glorot) initialization: samples from `[-s, s]` with
/// `s = sqrt(6 / (fan_in + fan_out))`, where the fans are the first two
/// sizes. A shape with fewer than two axes gives zeros.
pub fn xavier_uniform<E: Scalar, B: Backend<E>, R: UniformSource<E>>(
    shape: &Shape,
    backend: Arc<B>,
    rng: &mut R,
) -> (r: TensorResult<Tensor<E, B>>)
    ensures
        r is Ok <==> init_defined(shape@, 2),
        r matches Ok(t) ==> is_xavier::<E, R>(shape@, t@),
{
    let dims = shape.dims();
    if dims.len() < 2 {
        return match backend.zeros(shape) {
            Ok(t) => Ok(t),
            Err(e) => Err(TensorError::Backend(e)),
        };
    }
    let fans = match dims[0].checked_add(dims[1]) {
        Some(v) => v,
        None => {
            return Err(TensorError::Shape(ShapeError("xavier_uniform: fans too large".to_string())));
        },
    };
    let n = match shape.checked_numel() {
        Some(v) => v,
        None => {
            return Err(TensorError::Shape(ShapeError("xavier_uniform: shape too large".to_string())));
        },
    };
    let scale = init_scale::<E>(fans);
    let data = draw(rng, scale, n);
    let ghost drawn = data@;
    let r = Tensor::from_vec(data, shape.clone(), backend);
    proof {
        if r is Ok {
            assert(r->Ok_0@.data == drawn);
            assert(is_init_scale(fans, scale) && are_samples::<E, R>(scale, r->Ok_0@.data));
        }
    }
    r
}

/// He (Kaiming) initialization: samples from `[-s, s]` with
/// `s = sqrt(6 / fan_in)`, where the fan is the first size. A shape without
/// axes gives zeros.
pub fn he_uniform<E: Scalar, B: Backend<E>, R: UniformSource<E>>(
    shape: &Shape,
    backend: Arc<B>,
    rng: &mut R,
) -> (r: TensorResult<Tensor<E, B>>)
    ensures
        r is Ok <==> init_defined(shape@, 1),
        r matches Ok(t) ==> is_he::<E, R>(shape@, t@),
{
    let dims = shape.dims();
    if dims.len() == 0 {
        return match backend.zeros(shape) {
            Ok(t) => Ok(t),
            Err(e) => Err(TensorError::Backend(e)),
        };
    }
    let n = match shape.checked_numel() {
        Some(v) => v,
        None => {
            return Err(TensorError::Shape(ShapeError("he_uniform: shape too large".to_string())));
        },
    };
    let scale = init_scale::<E>(dims[0]);
    let data = draw(rng, scale, n);
    let ghost drawn = data@;
    let r = Tensor::from_vec(data, shape.clone(), backend);
    proof {
        if r is Ok {
            assert(r->Ok_0@.data == drawn);
            assert(is_init_scale(dims@[0], scale) && are_samples::<E, R>(scale, r->Ok_0@.data));
        }
    }
    r
}

} // verus!
