//! Parameters: long-lived arrays that are trained, can be frozen and named,
//! and can be written out and read back.

use vstd::prelude::*;
use std::sync::Arc;
use vstd::slice::slice_to_vec;
use crate::backend::Backend;
use crate::kernels::TensorView;
use crate::scalar::Scalar;
use crate::shape::{dims_product, Shape};
use crate::tensor::{Tensor, TensorError};

verus! {

/// A trainable array, with the gradient of the last backward pass.
pub struct Parameter<E, B> {
    data: Tensor<E, B>,
    grad: Option<Tensor<E, B>>,
    name: Option<String>,
    frozen: bool,
}

/// The mathematical view of a parameter.
pub struct ParameterView<E> {
    /// The value.
    pub data: TensorView<E>,
    /// The gradient, absent before a backward pass and after a reset.
    pub grad: Option<TensorView<E>>,
    /// The name, if the parameter has one.
    pub name: Option<Seq<char>>,
    /// Whether an optimizer must leave the parameter alone.
    pub frozen: bool,
}

impl<E> ParameterView<E> {
    /// The value and the gradient, if present, are well formed.
    pub open spec fn wf(self) -> bool {
        self.data.wf() && (self.grad matches Some(g) ==> g.wf())
    }
}

/// What is written out of a parameter: its name, shape and elements.
pub struct ParameterState<E> {
    pub name: Option<String>,
    pub shape: Vec<usize>,
    pub data: Vec<E>,
}

impl<E, B> View for Parameter<E, B> {
    type V = ParameterView<E>;

    closed spec fn view(&self) -> ParameterView<E> {
        ParameterView {
            data: self.data@,
            grad: match self.grad {
                Some(g) => Some(g@),
                None => None,
            },
            name: match self.name {
                Some(n) => Some(n@),
                None => None,
            },
            frozen: self.frozen,
        }
    }
}

impl<E: Copy, B> Clone for Parameter<E, B> {
    fn clone(&self) -> (p: Self)
        ensures
            p@ == self@,
    {
        Parameter {
            data: self.data.clone(),
            grad: match &self.grad {
                Some(g) => Some(g.clone()),
                None => None,
            },
            name: match &self.name {
                Some(n) => Some(n.clone()),
                None => None,
            },
            frozen: self.frozen,
        }
    }
}

impl<E: Scalar, B: Backend<E>> Parameter<E, B> {
    /// A parameter without name or gradient, open to training.
    pub fn new(data: Tensor<E, B>) -> (p: Self)
        ensures
            p@ == (ParameterView { data: data@, grad: None, name: None, frozen: false }),
    {
        Parameter { data, grad: None, name: None, frozen: false }
    }

    /// A named parameter without gradient, open to training.
    pub fn named(name: &str, data: Tensor<E, B>) -> (p: Self)
        ensures
            p@ == (ParameterView { data: data@, grad: None, name: Some(name@), frozen: false }),
    {
        Parameter { data, grad: None, name: Some(name.to_string()), frozen: false }
    }

    /// Whether the value, and the gradient if there is one, hold as many
    /// elements as their shapes ask for.
    pub fn is_valid(&self) -> (valid: bool)
        ensures
            valid == self@.wf(),
    {
        self.data.is_valid() && match &self.grad {
            Some(g) => g.is_valid(),
            None => true,
        }
    }

    /// The value.
    pub fn data(&self) -> (t: &Tensor<E, B>)
        ensures
            t@ == self@.data,
    {
        &self.data
    }

    /// The value, open to change.
    pub fn data_mut(&mut self) -> (t: &mut Tensor<E, B>)
        ensures
            t@ == old(self)@.data,
            final(self)@ == (ParameterView { data: final(t)@, ..old(self)@ }),
    {
        &mut self.data
    }

    /// The name, if the parameter has one.
    pub fn name(&self) -> (n: Option<&str>)
        ensures
            match n {
                Some(text) => self@.name == Some(text@),
                None => self@.name is None,
            },
    {
        match &self.name {
            Some(n) => Some(n.as_str()),
            None => None,
        }
    }

    /// Gives the parameter a name, or takes its name away.
    pub fn set_name(&mut self, name: Option<String>)
        ensures
            final(self)@ == (ParameterView {
                name: match name {
                    Some(n) => Some(n@),
                    None => None,
                },
                ..old(self)@
            }),
    {
        self.name = name;
    }

    /// Whether an optimizer must leave the parameter alone.
    pub fn is_frozen(&self) -> (frozen: bool)
        ensures
            frozen == self@.frozen,
    {
        self.frozen
    }

    /// Freezes the parameter or opens it to training.
    pub fn set_frozen(&mut self, frozen: bool)
        ensures
            final(self)@ == (ParameterView { frozen, ..old(self)@ }),
    {
        self.frozen = frozen;
    }

    /// The gradient, absent before a backward pass and after a reset.
    pub fn grad(&self) -> (g: Option<&Tensor<E, B>>)
        ensures
            match g {
                Some(t) => self@.grad == Some(t@),
                None => self@.grad is None,
            },
    {
        self.grad.as_ref()
    }

    /// Replaces the gradient.
    pub fn set_grad(&mut self, g: Option<Tensor<E, B>>)
        ensures
            final(self)@ == (ParameterView {
                grad: match g {
                    Some(t) => Some(t@),
                    None => None,
                },
                ..old(self)@
            }),
    {
        self.grad = g;
    }

    /// Clears the gradient.
    pub fn zero_grad(&mut self)
        ensures
            final(self)@ == (ParameterView { grad: None, ..old(self)@ }),
    {
        self.grad = None;
    }

    /// The name, shape and elements of the parameter.
    pub fn to_state(&self) -> (state: ParameterState<E>)
        ensures
            state.shape@ == self@.data.dims,
            state.data@ == self@.data.data,
            match state.name {
                Some(n) => self@.name == Some(n@),
                None => self@.name is None,
            },
    {
        ParameterState {
            name: match &self.name {
                Some(n) => Some(n.clone()),
                None => None,
            },
            shape: slice_to_vec(self.data.shape().dims()),
            data: slice_to_vec(self.data.data()),
        }
    }

    /// A parameter read back from its state, without gradient and open to
    /// training.
    ///
    /// Fails unless the state holds as many elements as its shape asks for.
    pub fn from_state(state: ParameterState<E>, backend: Arc<B>) -> (r: Result<Self, TensorError>)
        ensures
            r is Ok <==> state.data@.len() == dims_product(state.shape@),
            r matches Ok(p) ==> p@.wf() && p@.data == (TensorView {
                dims: state.shape@,
                data: state.data@,
            }) && p@.grad is None && !p@.frozen && (match state.name {
                Some(n) => p@.name == Some(n@),
                None => p@.name is None,
            }),
            r matches Err(e) ==> e is Backend,
    {
        let shape = Shape::new(state.shape);
        match backend.from_vec(state.data, shape) {
            Ok(data) => Ok(Parameter { data, grad: None, name: state.name, frozen: false }),
            Err(e) => Err(TensorError::Backend(e)),
        }
    }

    /// Replaces the value by the one held in `state`; name, gradient and
    /// freezing stay.
    ///
    /// Fails, and changes nothing, unless the state holds as many elements as
    /// its shape asks for.
    pub fn load_state(&mut self, state: &ParameterState<E>, backend: Arc<B>) -> (r: Result<
        (),
        TensorError,
    >)
        ensures
            r is Ok <==> state.data@.len() == dims_product(state.shape@),
            r is Ok ==> final(self)@ == (ParameterView {
                data: TensorView { dims: state.shape@, data: state.data@ },
                ..old(self)@
            }) && final(self)@.data.wf(),
            r is Err ==> final(self)@ == old(self)@,
    {
        let shape = Shape::new(slice_to_vec(state.shape.as_slice()));
        let data = slice_to_vec(state.data.as_slice());
        match backend.from_vec(data, shape) {
            Ok(t) => {
                self.data = t;
                Ok(())
            },
            Err(e) => Err(TensorError::Backend(e)),
        }
    }
}

/// The parameter that the reference at `i` points to, as it is now.
pub open spec fn held<E, B>(ps: Seq<&mut Parameter<E, B>>, i: int) -> ParameterView<E> {
    (*ps[i])@
}

} // verus!
