//! Operators: each pairs a forward computation with the backward computation
//! that gives the gradient of every input.
//!
//! What an operator computes is fixed by its identifier: [`forward_rel`] and
//! [`backward_rel`] state it for the whole catalogue, and every operator type
//! is proved against them.

use vstd::prelude::*;
use crate::backend::Backend;
use crate::kernels::{add_broadcast_defined, add_broadcast_rel, add_rel, div_rel, log_rel,
    matmul_defined, matmul_rel, mul_rel, ones_rel, relu_backward_rel, relu_rel, scale_rel,
    sigmoid_backward_rel, sigmoid_rel, softmax_backward_rel, softmax_rel, sub_rel,
    sum_dim_defined, sum_dim_dims, sum_dim_rel, sum_rel, transposed, TensorView};
use crate::scalar::{is_neg, is_one, Scalar};
use crate::shape::{dims_product, lemma_product_pair, lemma_product_single};
use crate::tensor::Tensor;
use crate::text::join;

pub mod add;
pub mod add_broadcast;
pub mod log;
pub mod matmul;
pub mod mul;
pub mod relu;
pub mod sigmoid;
pub mod softmax;
pub mod sub;
pub mod sum;

verus! {

/// Error of an operator: wrong number of inputs, or shapes that do not fit.
#[derive(Debug)]
pub struct OpError(pub String);

impl OpError {
    /// The text of [`OpError::to_string`].
    pub open spec fn text_spec(&self) -> Seq<char> {
        "op error: "@ + self.0@
    }

    /// The message, with the kind of error in front.
    pub fn to_string(&self) -> (text: String)
        ensures
            text@ == self.text_spec(),
    {
        join("op error: ", self.0.as_str())
    }
}

pub type OpResult<T> = Result<T, OpError>;

/// Identifier of an operator of the catalogue.
#[derive(Clone, Copy, Debug, PartialEq, Eq, Hash, Structural)]
pub enum OpId {
    Add,
    AddBroadcast,
    Sub,
    Mul,
    MatMul,
    ReLU,
    Sigmoid,
    Sum,
    Softmax,
    Log,
}

/// Number of operators in the catalogue.
pub const OP_COUNT: usize = 10;

impl OpId {
    /// Position of this operator in the catalogue.
    pub open spec fn index_spec(self) -> nat {
        match self {
            OpId::Add => 0,
            OpId::AddBroadcast => 1,
            OpId::Sub => 2,
            OpId::Mul => 3,
            OpId::MatMul => 4,
            OpId::ReLU => 5,
            OpId::Sigmoid => 6,
            OpId::Sum => 7,
            OpId::Softmax => 8,
            OpId::Log => 9,
        }
    }

    /// Position of this operator in the catalogue.
    pub fn index(self) -> (i: usize)
        ensures
            i == self.index_spec(),
            i < OP_COUNT,
    {
        match self {
            OpId::Add => 0,
            OpId::AddBroadcast => 1,
            OpId::Sub => 2,
            OpId::Mul => 3,
            OpId::MatMul => 4,
            OpId::ReLU => 5,
            OpId::Sigmoid => 6,
            OpId::Sum => 7,
            OpId::Softmax => 8,
            OpId::Log => 9,
        }
    }

    /// Number of inputs the operator takes.
    pub open spec fn arity(self) -> nat {
        match self {
            OpId::Add | OpId::AddBroadcast | OpId::Sub | OpId::Mul | OpId::MatMul => 2,
            OpId::ReLU | OpId::Sigmoid | OpId::Sum | OpId::Softmax | OpId::Log => 1,
        }
    }
}

/// The views of a list of arrays.
pub open spec fn views<E, B>(ts: Seq<&Tensor<E, B>>) -> Seq<TensorView<E>> {
    Seq::new(ts.len(), |i: int| ts[i]@)
}

/// The views of a list of owned arrays.
pub open spec fn owned_views<E, B>(ts: Seq<Tensor<E, B>>) -> Seq<TensorView<E>> {
    Seq::new(ts.len(), |i: int| ts[i]@)
}

/// The view of a list of arrays holds the view of each array.
pub proof fn lemma_views<E, B>(ts: Seq<&Tensor<E, B>>)
    ensures
        views(ts).len() == ts.len(),
        forall|i: int| 0 <= i < ts.len() ==> #[trigger] views(ts)[i] == ts[i]@,
        all_wf(views(ts)) ==> forall|i: int| 0 <= i < ts.len() ==> (#[trigger] ts[i])@.wf(),
{
    if all_wf(views(ts)) {
        assert forall|i: int| 0 <= i < ts.len() implies (#[trigger] ts[i])@.wf() by {
            assert(views(ts)[i].wf());
        }
    }
}

/// Every array of the list is well formed.
pub open spec fn all_wf<E>(xs: Seq<TensorView<E>>) -> bool {
    forall|i: int| 0 <= i < xs.len() ==> (#[trigger] xs[i]).wf()
}

/// The inputs on which the forward computation of `id` succeeds: the right
/// number of arrays, of shapes that fit the operator.
pub open spec fn forward_defined<E>(id: OpId, xs: Seq<TensorView<E>>) -> bool {
    &&& xs.len() == id.arity()
    &&& match id {
        OpId::Add | OpId::Sub | OpId::Mul => xs[0].dims == xs[1].dims,
        OpId::AddBroadcast => add_broadcast_defined(xs[0].dims, xs[1].dims),
        OpId::MatMul => matmul_defined(xs[0].dims, xs[1].dims),
        OpId::Softmax => xs[0].dims.len() >= 1,
        OpId::ReLU | OpId::Sigmoid | OpId::Sum | OpId::Log => true,
    }
}

/// `y` is the forward result of `id` on the inputs `xs`.
pub open spec fn forward_rel<E: Scalar>(id: OpId, xs: Seq<TensorView<E>>, y: TensorView<E>) -> bool {
    match id {
        OpId::Add => add_rel(xs[0], xs[1], y),
        OpId::AddBroadcast => add_broadcast_rel(xs[0], xs[1], y),
        OpId::Sub => sub_rel(xs[0], xs[1], y),
        OpId::Mul => mul_rel(xs[0], xs[1], y),
        OpId::MatMul => matmul_rel(xs[0], xs[1], y),
        OpId::ReLU => relu_rel(xs[0], y),
        OpId::Sigmoid => sigmoid_rel(xs[0], y),
        OpId::Sum => sum_rel(xs[0], y),
        OpId::Softmax => softmax_rel(xs[0], y),
        OpId::Log => log_rel(xs[0], y),
    }
}

/// The operands on which the backward computation of `id` succeeds, for the
/// gradient `g` of the output, the inputs `xs` and the forward output `y`.
pub open spec fn backward_defined<E>(
    id: OpId,
    g: TensorView<E>,
    xs: Seq<TensorView<E>>,
    y: TensorView<E>,
) -> bool {
    &&& xs.len() == id.arity()
    &&& match id {
        OpId::Add | OpId::Mul => g.dims == xs[0].dims && g.dims == xs[1].dims,
        OpId::AddBroadcast => sum_dim_defined(g.dims, 0) && dims_product(sum_dim_dims(g.dims, 0))
            == xs[1].data.len(),
        OpId::Sub => true,
        OpId::MatMul => {
            &&& xs[0].dims.len() == 2
            &&& xs[1].dims.len() == 2
            &&& matmul_defined(g.dims, transposed(xs[1]).dims)
            &&& matmul_defined(transposed(xs[0]).dims, g.dims)
        },
        OpId::ReLU | OpId::Log => g.dims == xs[0].dims,
        OpId::Sigmoid => g.dims == y.dims,
        OpId::Softmax => g.dims == y.dims && y.dims.len() >= 1,
        OpId::Sum => g.data.len() == 1,
    }
}

/// `minus_one` is the negation of a one.
pub open spec fn is_minus_one<E: Scalar>(minus_one: E) -> bool {
    exists|one: E| #[trigger] is_one(one) && is_neg(one, minus_one)
}

/// `t` is `g` with every element multiplied by minus one.
pub open spec fn negated<E: Scalar>(g: TensorView<E>, t: TensorView<E>) -> bool {
    exists|minus_one: E| #[trigger] is_minus_one(minus_one) && scale_rel(g, minus_one, t)
}

/// `t` is the column sums of `g`, as a vector of `len` elements.
pub open spec fn column_sums<E: Scalar>(g: TensorView<E>, len: nat, t: TensorView<E>) -> bool {
    exists|summed: TensorView<E>| #[trigger]
        sum_dim_rel(g, 0, summed) && t == (TensorView { dims: seq![len as usize], data: summed.data })
}

/// `t` has the shape `dims` and every element is a one multiplied by `s`.
pub open spec fn filled<E: Scalar>(dims: Seq<usize>, s: E, t: TensorView<E>) -> bool {
    exists|ones: TensorView<E>| #[trigger] ones_rel(dims, ones) && scale_rel(ones, s, t)
}

/// `grads` holds the gradient of every input of `id`, in the order of the
/// inputs, for the gradient `g` of the output, the inputs `xs` and the
/// forward output `y`.
pub open spec fn backward_rel<E: Scalar>(
    id: OpId,
    g: TensorView<E>,
    xs: Seq<TensorView<E>>,
    y: TensorView<E>,
    grads: Seq<TensorView<E>>,
) -> bool {
    &&& grads.len() == id.arity()
    &&& match id {
        OpId::Add => grads[0] == g && grads[1] == g,
        OpId::AddBroadcast => grads[0] == g && column_sums(g, xs[1].data.len(), grads[1]),
        OpId::Sub => grads[0] == g && negated(g, grads[1]),
        OpId::Mul => mul_rel(g, xs[1], grads[0]) && mul_rel(g, xs[0], grads[1]),
        OpId::MatMul => matmul_rel(g, transposed(xs[1]), grads[0]) && matmul_rel(
            transposed(xs[0]),
            g,
            grads[1],
        ),
        OpId::ReLU => relu_backward_rel(g, xs[0], grads[0]),
        OpId::Sigmoid => sigmoid_backward_rel(g, y, grads[0]),
        OpId::Sum => filled(xs[0].dims, g.data[0], grads[0]),
        OpId::Softmax => softmax_backward_rel(g, y, grads[0]),
        OpId::Log => div_rel(g, xs[0], grads[0]),
    }
}

/// Where the forward computation succeeded, the backward computation
/// succeeds on every gradient that has the shape of the forward output.
pub proof fn lemma_backward_defined<E: Scalar>(
    id: OpId,
    xs: Seq<TensorView<E>>,
    y: TensorView<E>,
    g: TensorView<E>,
)
    requires
        all_wf(xs),
        g.wf(),
        forward_defined(id, xs),
        forward_rel(id, xs, y),
        g.dims == y.dims,
    ensures
        backward_defined(id, g, xs, y),
{
    match id {
        OpId::MatMul => {
            let a = xs[0];
            let b = xs[1];
            assert(a.wf() && b.wf());
            assert(a.dims =~= seq![a.dims[0], a.dims[1]]);
            assert(b.dims =~= seq![b.dims[0], b.dims[1]]);
            lemma_product_pair(a.dims[0], a.dims[1]);
            lemma_product_pair(b.dims[0], b.dims[1]);
        },
        OpId::AddBroadcast => {
            let a = xs[0];
            let b = xs[1];
            assert(a.wf() && b.wf());
            assert(b.dims =~= seq![a.dims[1]]);
            lemma_product_single(a.dims[1]);
            assert(sum_dim_dims(g.dims, 0) =~= seq![1usize, a.dims[1]]);
            lemma_product_pair(1usize, a.dims[1]);
            assert(1 * a.dims[1] == a.dims[1]) by (nonlinear_arith);
        },
        OpId::Sum => {
            lemma_product_single(1usize);
        },
        _ => {
            assert(xs[0].wf());
        },
    }
}

/// Every gradient the backward computation returns has the shape of the
/// input it belongs to.
pub proof fn lemma_backward_shapes<E: Scalar>(
    id: OpId,
    xs: Seq<TensorView<E>>,
    y: TensorView<E>,
    g: TensorView<E>,
    grads: Seq<TensorView<E>>,
)
    requires
        all_wf(xs),
        forward_defined(id, xs),
        forward_rel(id, xs, y),
        g.dims == y.dims,
        backward_rel(id, g, xs, y, grads),
    ensures
        grads.len() == xs.len(),
        forall|k: int| 0 <= k < grads.len() ==> (#[trigger] grads[k]).dims == xs[k].dims,
{
    match id {
        OpId::MatMul => {
            let a = xs[0];
            let b = xs[1];
            assert(grads[0].dims =~= a.dims);
            assert(grads[1].dims =~= b.dims);
        },
        OpId::AddBroadcast => {
            let a = xs[0];
            let b = xs[1];
            assert(b.wf());
            assert(b.dims =~= seq![a.dims[1]]);
            lemma_product_single(a.dims[1]);
            assert(grads[1].dims =~= b.dims);
        },
        OpId::Sub => {
            assert(grads[1].dims == g.dims);
        },
        OpId::Sum => {
            assert(grads[0].dims == xs[0].dims);
        },
        _ => {},
    }
}

/// An operator: a forward computation and the matching backward computation.
pub trait Op<E: Scalar, B: Backend<E>> {
    /// The identifier of this operator.
    spec fn op_id(&self) -> OpId;

    /// The identifier under which this operator is registered.
    fn id(&self) -> (id: OpId)
        ensures
            id == self.op_id(),
    ;

    /// Computes the output from the inputs.
    ///
    /// Fails on a wrong number of inputs and on shapes that do not fit.
    fn forward(&self, inputs: &[&Tensor<E, B>]) -> (r: OpResult<Tensor<E, B>>)
        requires
            all_wf(views(inputs@)),
        ensures
            r is Ok <==> forward_defined(self.op_id(), views(inputs@)),
            r matches Ok(y) ==> y@.wf() && forward_rel(self.op_id(), views(inputs@), y@),
    ;

    /// Computes the gradient of every input, in the order of the inputs, from
    /// the gradient of the output.
    ///
    /// Fails on a wrong number of inputs and on shapes that do not fit.
    fn backward(
        &self,
        grad_out: &Tensor<E, B>,
        inputs: &[&Tensor<E, B>],
        fwd_output: &Tensor<E, B>,
    ) -> (r: OpResult<Vec<Tensor<E, B>>>)
        requires
            grad_out@.wf(),
            fwd_output@.wf(),
            all_wf(views(inputs@)),
        ensures
            r is Ok <==> backward_defined(self.op_id(), grad_out@, views(inputs@), fwd_output@),
            r matches Ok(grads) ==> all_wf(owned_views(grads@)) && backward_rel(
                self.op_id(),
                grad_out@,
                views(inputs@),
                fwd_output@,
                owned_views(grads@),
            ),
    ;

    /// The name of the operator in messages.
    fn name(&self) -> (n: &'static str)
        ensures
            n@ == self.op_id().name_spec(),
    ;
}

/// A registered operator: one variant for each operator of the catalogue.
#[derive(Clone, Copy, Debug)]
pub enum Operator {
    Add(add::Add),
    AddBroadcast(add_broadcast::AddBroadcast),
    Sub(sub::Sub),
    Mul(mul::Mul),
    MatMul(matmul::MatMul),
    ReLU(relu::ReLU),
    Sigmoid(sigmoid::Sigmoid),
    Sum(sum::Sum),
    Softmax(softmax::Softmax),
    Log(log::Log),
}

impl Operator {
    /// The identifier of the operator.
    pub open spec fn kind(self) -> OpId {
        match self {
            Operator::Add(_) => OpId::Add,
            Operator::AddBroadcast(_) => OpId::AddBroadcast,
            Operator::Sub(_) => OpId::Sub,
            Operator::Mul(_) => OpId::Mul,
            Operator::MatMul(_) => OpId::MatMul,
            Operator::ReLU(_) => OpId::ReLU,
            Operator::Sigmoid(_) => OpId::Sigmoid,
            Operator::Sum(_) => OpId::Sum,
            Operator::Softmax(_) => OpId::Softmax,
            Operator::Log(_) => OpId::Log,
        }
    }

    /// The identifier of the operator.
    pub fn op_kind(self) -> (id: OpId)
        ensures
            id == self.kind(),
    {
        match self {
            Operator::Add(_) => OpId::Add,
            Operator::AddBroadcast(_) => OpId::AddBroadcast,
            Operator::Sub(_) => OpId::Sub,
            Operator::Mul(_) => OpId::Mul,
            Operator::MatMul(_) => OpId::MatMul,
            Operator::ReLU(_) => OpId::ReLU,
            Operator::Sigmoid(_) => OpId::Sigmoid,
            Operator::Sum(_) => OpId::Sum,
            Operator::Softmax(_) => OpId::Softmax,
            Operator::Log(_) => OpId::Log,
        }
    }
}

impl<E: Scalar, B: Backend<E>> Op<E, B> for Operator {
    open spec fn op_id(&self) -> OpId {
        self.kind()
    }

    fn id(&self) -> (id: OpId) {
        self.op_kind()
    }

    fn name(&self) -> &'static str {
        match self {
            Operator::Add(op) => <add::Add as Op<E, B>>::name(op),
            Operator::AddBroadcast(op) => <add_broadcast::AddBroadcast as Op<E, B>>::name(op),
            Operator::Sub(op) => <sub::Sub as Op<E, B>>::name(op),
            Operator::Mul(op) => <mul::Mul as Op<E, B>>::name(op),
            Operator::MatMul(op) => <matmul::MatMul as Op<E, B>>::name(op),
            Operator::ReLU(op) => <relu::ReLU as Op<E, B>>::name(op),
            Operator::Sigmoid(op) => <sigmoid::Sigmoid as Op<E, B>>::name(op),
            Operator::Sum(op) => <sum::Sum as Op<E, B>>::name(op),
            Operator::Softmax(op) => <softmax::Softmax as Op<E, B>>::name(op),
            Operator::Log(op) => <log::Log as Op<E, B>>::name(op),
        }
    }

    fn forward(&self, inputs: &[&Tensor<E, B>]) -> (r: OpResult<Tensor<E, B>>) {
        match self {
            Operator::Add(op) => op.forward(inputs),
            Operator::AddBroadcast(op) => op.forward(inputs),
            Operator::Sub(op) => op.forward(inputs),
            Operator::Mul(op) => op.forward(inputs),
            Operator::MatMul(op) => op.forward(inputs),
            Operator::ReLU(op) => op.forward(inputs),
            Operator::Sigmoid(op) => op.forward(inputs),
            Operator::Sum(op) => op.forward(inputs),
            Operator::Softmax(op) => op.forward(inputs),
            Operator::Log(op) => op.forward(inputs),
        }
    }

    fn backward(
        &self,
        grad_out: &Tensor<E, B>,
        inputs: &[&Tensor<E, B>],
        fwd_output: &Tensor<E, B>,
    ) -> (r: OpResult<Vec<Tensor<E, B>>>) {
        match self {
            Operator::Add(op) => op.backward(grad_out, inputs, fwd_output),
            Operator::AddBroadcast(op) => op.backward(grad_out, inputs, fwd_output),
            Operator::Sub(op) => op.backward(grad_out, inputs, fwd_output),
            Operator::Mul(op) => op.backward(grad_out, inputs, fwd_output),
            Operator::MatMul(op) => op.backward(grad_out, inputs, fwd_output),
            Operator::ReLU(op) => op.backward(grad_out, inputs, fwd_output),
            Operator::Sigmoid(op) => op.backward(grad_out, inputs, fwd_output),
            Operator::Sum(op) => op.backward(grad_out, inputs, fwd_output),
            Operator::Softmax(op) => op.backward(grad_out, inputs, fwd_output),
            Operator::Log(op) => op.backward(grad_out, inputs, fwd_output),
        }
    }
}

/// The table of registered operators, indexed by identifier.
pub struct OpRegistry {
    ops: Vec<Option<Operator>>,
}

impl OpRegistry {
    /// One slot for each identifier, and an operator only in its own slot.
    pub closed spec fn wf(&self) -> bool {
        &&& self.ops@.len() == OP_COUNT
        &&& forall|i: int|
            0 <= i < OP_COUNT ==> ((#[trigger] self.ops@[i]) matches Some(op)
                ==> op.kind().index_spec() == i)
    }

    /// Whether an operator is registered under `id`.
    pub closed spec fn contains(&self, id: OpId) -> bool {
        self.ops@[id.index_spec() as int] is Some
    }

    /// Whether the whole catalogue is registered.
    pub open spec fn complete(&self) -> bool {
        forall|id: OpId| self.contains(id)
    }

    /// A registry that holds the whole catalogue.
    pub fn new() -> (reg: Self)
        ensures
            reg.wf(),
            reg.complete(),
    {
        let mut reg = OpRegistry { ops: vec![None; OP_COUNT] };
        reg.register(Operator::Add(add::Add));
        reg.register(Operator::AddBroadcast(add_broadcast::AddBroadcast));
        reg.register(Operator::Sub(sub::Sub));
        reg.register(Operator::Mul(mul::Mul));
        reg.register(Operator::MatMul(matmul::MatMul));
        reg.register(Operator::ReLU(relu::ReLU));
        reg.register(Operator::Sigmoid(sigmoid::Sigmoid));
        reg.register(Operator::Sum(sum::Sum));
        reg.register(Operator::Softmax(softmax::Softmax));
        reg.register(Operator::Log(log::Log));
        proof {
            assert forall|id: OpId| reg.contains(id) by {
                match id {
                    OpId::Add => {},
                    OpId::AddBroadcast => {},
                    OpId::Sub => {},
                    OpId::Mul => {},
                    OpId::MatMul => {},
                    OpId::ReLU => {},
                    OpId::Sigmoid => {},
                    OpId::Sum => {},
                    OpId::Softmax => {},
                    OpId::Log => {},
                }
            }
        }
        reg
    }

    /// Registers `op` under its identifier, in place of any operator that was
    /// registered under it.
    pub fn register(&mut self, op: Operator)
        requires
            old(self).wf(),
        ensures
            final(self).wf(),
            final(self).contains(op.kind()),
            forall|id: OpId| old(self).contains(id) ==> final(self).contains(id),
            forall|id: OpId| id != op.kind() ==> final(self).contains(id) == old(self).contains(id),
    {
        let i = op.op_kind().index();
        self.ops.set(i, Some(op));
        proof {
            assert forall|id: OpId| id != op.kind() implies final(self).contains(id) == old(
                self,
            ).contains(id) by {
                lemma_index_injective(id, op.kind());
            }
        }
    }

    /// The operator registered under `id`, if there is one.
    pub fn get(&self, id: OpId) -> (r: Option<Operator>)
        requires
            self.wf(),
        ensures
            r is Some <==> self.contains(id),
            r matches Some(op) ==> op.kind() == id,
    {
        let r = self.ops[id.index()];
        proof {
            if let Some(op) = r {
                lemma_index_injective(id, op.kind());
            }
        }
        r
    }
}

impl Default for OpRegistry {
    fn default() -> (reg: Self)
        ensures
            reg.wf(),
            reg.complete(),
    {
        OpRegistry::new()
    }
}

/// Two identifiers with the same position are the same identifier.
pub proof fn lemma_index_injective(a: OpId, b: OpId)
    ensures
        a.index_spec() == b.index_spec() ==> a == b,
{
}

/// The error an operator gives for operands it cannot take.
pub fn op_error(text: &str) -> (e: OpError)
    ensures
        e.0@ == text@,
{
    OpError(text.to_string())
}

impl OpId {
    /// The name of this operator in messages.
    pub fn name(self) -> (n: &'static str)
        ensures
            n@ == self.name_spec(),
    {
        match self {
            OpId::Add => "Add",
            OpId::AddBroadcast => "AddBroadcast",
            OpId::Sub => "Sub",
            OpId::Mul => "Mul",
            OpId::MatMul => "MatMul",
            OpId::ReLU => "ReLU",
            OpId::Sigmoid => "Sigmoid",
            OpId::Sum => "Sum",
            OpId::Softmax => "Softmax",
            OpId::Log => "Log",
        }
    }

    /// The name of this operator in messages.
    pub open spec fn name_spec(self) -> Seq<char> {
        match self {
            OpId::Add => "Add"@,
            OpId::AddBroadcast => "AddBroadcast"@,
            OpId::Sub => "Sub"@,
            OpId::Mul => "Mul"@,
            OpId::MatMul => "MatMul"@,
            OpId::ReLU => "ReLU"@,
            OpId::Sigmoid => "Sigmoid"@,
            OpId::Sum => "Sum"@,
            OpId::Softmax => "Softmax"@,
            OpId::Log => "Log"@,
        }
    }
}

} // verus!
