//! Shapes of dense arrays: an ordered list of dimension sizes.

use vstd::prelude::*;
use vstd::slice::slice_to_vec;
use crate::text::{join, list_text, listed};

verus! {

/// Error raised when a shape does not fit the requested operation.
#[derive(Debug)]
pub struct ShapeError(pub String);

impl ShapeError {
    /// The text of [`ShapeError::to_string`].
    pub open spec fn text_spec(&self) -> Seq<char> {
        "shape error: "@ + self.0@
    }

    /// The message, with the kind of error in front.
    pub fn to_string(&self) -> (text: String)
        ensures
            text@ == self.text_spec(),
    {
        join("shape error: ", self.0.as_str())
    }
}

/// The product of all dimension sizes in `dims`; the empty product is 1.
pub open spec fn dims_product(dims: Seq<usize>) -> nat
    decreases dims.len(),
{
    if dims.len() == 0 {
        1
    } else {
        dims_product(dims.drop_last()) * (dims.last() as nat)
    }
}

/// A product with a zero factor is zero.
pub proof fn lemma_product_zero(dims: Seq<usize>, at: int)
    requires
        0 <= at < dims.len(),
        dims[at] == 0,
    ensures
        dims_product(dims) == 0,
    decreases dims.len(),
{
    if at < dims.len() - 1 {
        lemma_product_zero(dims.drop_last(), at);
        assert(dims_product(dims.drop_last()) * (dims.last() as nat) == 0) by (nonlinear_arith)
            requires
                dims_product(dims.drop_last()) == 0,
        ;
    } else {
        assert(dims_product(dims.drop_last()) * (dims.last() as nat) == 0) by (nonlinear_arith)
            requires
                dims.last() == 0,
        ;
    }
}

/// Without a zero factor, the product of a prefix never exceeds the whole product.
pub proof fn lemma_product_prefix(dims: Seq<usize>, k: int)
    requires
        0 <= k <= dims.len(),
        forall|i: int| 0 <= i < dims.len() ==> dims[i] != 0,
    ensures
        1 <= dims_product(dims.take(k)) <= dims_product(dims),
    decreases dims.len() - k,
{
    lemma_product_positive(dims.take(k));
    if k == dims.len() {
        assert(dims.take(k) == dims);
    } else {
        lemma_product_prefix(dims, k + 1);
        let longer = dims.take(k + 1);
        assert(longer.drop_last() == dims.take(k));
        assert(dims_product(longer) == dims_product(dims.take(k)) * (dims[k] as nat));
        assert(dims_product(dims.take(k)) <= dims_product(dims.take(k)) * (dims[k] as nat))
            by (nonlinear_arith)
            requires
                dims[k] >= 1,
        ;
    }
}

/// A product of non-zero factors is at least 1.
pub proof fn lemma_product_positive(dims: Seq<usize>)
    requires
        forall|i: int| 0 <= i < dims.len() ==> dims[i] != 0,
    ensures
        1 <= dims_product(dims),
    decreases dims.len(),
{
    if dims.len() > 0 {
        lemma_product_positive(dims.drop_last());
        assert(1 <= dims_product(dims.drop_last()) * (dims.last() as nat)) by (nonlinear_arith)
            requires
                1 <= dims_product(dims.drop_last()),
                dims.last() >= 1,
        ;
    }
}

/// The product of a concatenation is the product of the two products.
pub proof fn lemma_product_concat(a: Seq<usize>, b: Seq<usize>)
    ensures
        dims_product(a + b) == dims_product(a) * dims_product(b),
    decreases b.len(),
{
    if b.len() == 0 {
        assert(a + b == a);
        assert(dims_product(a) * 1 == dims_product(a)) by (nonlinear_arith);
    } else {
        lemma_product_concat(a, b.drop_last());
        assert((a + b).drop_last() == a + b.drop_last());
        assert((a + b).last() == b.last());
        let pa = dims_product(a);
        let pb = dims_product(b.drop_last());
        let l = b.last() as nat;
        assert((pa * pb) * l == pa * (pb * l)) by (nonlinear_arith);
    }
}

/// The product of a single size is that size.
pub proof fn lemma_product_single(d: usize)
    ensures
        dims_product(seq![d]) == d,
{
    let s = seq![d];
    assert(s.drop_last() =~= Seq::<usize>::empty());
    assert(dims_product(s.drop_last()) == 1);
    assert(1 * (d as nat) == d) by (nonlinear_arith);
}

/// The product of two sizes.
pub proof fn lemma_product_pair(m: usize, n: usize)
    ensures
        dims_product(seq![m, n]) == m * n,
{
    let s = seq![m, n];
    assert(s.drop_last() =~= seq![m]);
    lemma_product_single(m);
}

/// Shape of an array: its dimension sizes, outermost first.
#[derive(Debug, PartialEq, Eq, Hash)]
pub struct Shape {
    dims: Vec<usize>,
}

impl View for Shape {
    type V = Seq<usize>;

    closed spec fn view(&self) -> Seq<usize> {
        self.dims@
    }
}

impl Clone for Shape {
    fn clone(&self) -> (s: Self)
        ensures
            s@ == self@,
    {
        Shape { dims: self.dims.clone() }
    }
}

impl Shape {
    /// Total number of elements an array of this shape holds.
    pub open spec fn numel_spec(&self) -> nat {
        dims_product(self@)
    }

    /// Builds a shape from its dimension sizes.
    pub fn new(dims: Vec<usize>) -> (s: Shape)
        ensures
            s@ == dims@,
    {
        Shape { dims }
    }

    /// Number of dimensions.
    pub fn rank(&self) -> (r: usize)
        ensures
            r == self@.len(),
    {
        self.dims.len()
    }

    /// The dimension sizes, outermost first.
    pub fn dims(&self) -> (d: &[usize])
        ensures
            d@ == self@,
    {
        self.dims.as_slice()
    }

    /// Total number of elements, or `None` when that number does not fit in `usize`.
    pub fn checked_numel(&self) -> (n: Option<usize>)
        ensures
            match n {
                Some(v) => v == self.numel_spec(),
                None => self.numel_spec() > usize::MAX,
            },
    {
        let len = self.dims.len();
        let mut i: usize = 0;
        while i < len
            invariant
                len == self.dims.len(),
                i <= len,
                forall|j: int| 0 <= j < i ==> self.dims@[j] != 0,
            decreases len - i,
        {
            if self.dims[i] == 0 {
                proof {
                    lemma_product_zero(self@, i as int);
                }
                return Some(0);
            }
            i = i + 1;
        }
        let mut acc: usize = 1;
        let mut k: usize = 0;
        while k < len
            invariant
                len == self.dims.len(),
                k <= len,
                forall|j: int| 0 <= j < len ==> self.dims@[j] != 0,
                acc == dims_product(self@.take(k as int)),
            decreases len - k,
        {
            let ghost longer = self@.take(k + 1);
            proof {
                assert(longer.drop_last() == self@.take(k as int));
                lemma_product_prefix(self@, k + 1);
            }
            match acc.checked_mul(self.dims[k]) {
                Some(v) => {
                    acc = v;
                },
                None => {
                    return None;
                },
            }
            k = k + 1;
        }
        proof {
            assert(self@.take(len as int) == self@);
        }
        Some(acc)
    }

    /// Total number of elements.
    pub fn numel(&self) -> (n: usize)
        requires
            self.numel_spec() <= usize::MAX,
        ensures
            n == self.numel_spec(),
    {
        match self.checked_numel() {
            Some(v) => v,
            None => 0,
        }
    }

    /// Whether `other` has exactly the same dimension sizes.
    pub fn same_as(&self, other: &Shape) -> (same: bool)
        ensures
            same == (self@ == other@),
    {
        if self.dims.len() != other.dims.len() {
            return false;
        }
        let len = self.dims.len();
        let mut i: usize = 0;
        while i < len
            invariant
                len == self.dims.len(),
                len == other.dims.len(),
                i <= len,
                forall|j: int| 0 <= j < i ==> self.dims@[j] == other.dims@[j],
            decreases len - i,
        {
            if self.dims[i] != other.dims[i] {
                return false;
            }
            i = i + 1;
        }
        proof {
            assert(self@ =~= other@);
        }
        true
    }

    /// The dimension sizes as text, such as `[2, 3]`.
    pub fn to_string(&self) -> (text: String)
        ensures
            text@ == list_text(self@),
    {
        listed(self.dims.as_slice())
    }

    /// Whether an array of this shape holds at most one element.
    pub fn is_scalar(&self) -> (scalar: bool)
        ensures
            scalar == (self.numel_spec() <= 1),
    {
        match self.checked_numel() {
            Some(v) => v <= 1,
            None => false,
        }
    }
}

impl From<Vec<usize>> for Shape {
    /// The shape with the dimension sizes `dims`.
    fn from(dims: Vec<usize>) -> (s: Shape)
        ensures
            s@ == dims@,
    {
        Shape { dims }
    }
}

impl vstd::std_specs::convert::FromSpecImpl<Vec<usize>> for Shape {
    open spec fn obeys_from_spec() -> bool {
        true
    }

    closed spec fn from_spec(dims: Vec<usize>) -> Shape {
        Shape { dims }
    }
}

impl From<&[usize]> for Shape {
    /// The shape with the dimension sizes `dims`.
    fn from(dims: &[usize]) -> (s: Shape)
        ensures
            s@ == dims@,
    {
        Shape::new(slice_to_vec(dims))
    }
}

impl vstd::std_specs::convert::FromSpecImpl<&[usize]> for Shape {
    open spec fn obeys_from_spec() -> bool {
        false
    }

    closed spec fn from_spec(dims: &[usize]) -> Shape {
        choose|s: Shape| s@ == dims@
    }
}

} // verus!
