//! The element type of an array, and what is known of its arithmetic.
//!
//! The engine never computes on elements itself: it calls the operations of
//! [`Scalar`] and records, for every element it produces, which operation on
//! which operands produced it. Nothing is assumed of the operations: not even
//! that two calls on the same operands agree. A statement such as
//! `is_sum(a, b, r)` therefore reads "`r` is a value that `a.add(b)` returned".

use vstd::prelude::*;

verus! {

/// Arithmetic on array elements.
pub trait Scalar: Copy {
    /// The additive identity.
    fn zero() -> Self;

    /// The multiplicative identity.
    fn one() -> Self;

    /// `self + rhs`.
    fn add(self, rhs: Self) -> Self;

    /// `self - rhs`.
    fn sub(self, rhs: Self) -> Self;

    /// `self * rhs`.
    fn mul(self, rhs: Self) -> Self;

    /// `self / rhs`.
    fn div(self, rhs: Self) -> Self;

    /// `-self`.
    fn neg(self) -> Self;

    /// The exponential of `self`.
    fn exp(self) -> Self;

    /// The natural logarithm of `self`.
    fn ln(self) -> Self;

    /// Whether `self` is strictly greater than zero.
    fn is_positive(self) -> bool;

    /// Whether `self` is strictly greater than `rhs`.
    fn exceeds(self, rhs: Self) -> bool;

    /// The square root of `self`.
    fn sqrt(self) -> Self;

    /// `self` raised to the power `n`.
    fn powi(self, n: i32) -> Self;

    /// The count `n` as an element.
    fn from_count(n: usize) -> Self;
}

/// `r` is a result of [`Scalar::zero`].
pub open spec fn is_zero<E: Scalar>(r: E) -> bool {
    call_ensures(E::zero, (), r)
}

/// `r` is a result of [`Scalar::one`].
pub open spec fn is_one<E: Scalar>(r: E) -> bool {
    call_ensures(E::one, (), r)
}

/// `r` is a result of `a.add(b)`.
pub open spec fn is_sum<E: Scalar>(a: E, b: E, r: E) -> bool {
    call_ensures(E::add, (a, b), r)
}

/// `r` is a result of `a.sub(b)`.
pub open spec fn is_diff<E: Scalar>(a: E, b: E, r: E) -> bool {
    call_ensures(E::sub, (a, b), r)
}

/// `r` is a result of `a.mul(b)`.
pub open spec fn is_prod<E: Scalar>(a: E, b: E, r: E) -> bool {
    call_ensures(E::mul, (a, b), r)
}

/// `r` is a result of `a.div(b)`.
pub open spec fn is_quot<E: Scalar>(a: E, b: E, r: E) -> bool {
    call_ensures(E::div, (a, b), r)
}

/// `r` is a result of `a.neg()`.
pub open spec fn is_neg<E: Scalar>(a: E, r: E) -> bool {
    call_ensures(E::neg, (a,), r)
}

/// `r` is a result of `a.exp()`.
pub open spec fn is_exp<E: Scalar>(a: E, r: E) -> bool {
    call_ensures(E::exp, (a,), r)
}

/// `r` is a result of `a.ln()`.
pub open spec fn is_ln<E: Scalar>(a: E, r: E) -> bool {
    call_ensures(E::ln, (a,), r)
}

/// `positive` is an answer of `a.is_positive()`.
pub open spec fn is_sign<E: Scalar>(a: E, positive: bool) -> bool {
    call_ensures(E::is_positive, (a,), positive)
}

/// `greater` is an answer of `a.exceeds(b)`.
pub open spec fn is_greater<E: Scalar>(a: E, b: E, greater: bool) -> bool {
    call_ensures(E::exceeds, (a, b), greater)
}

/// `r` is a result of `a.sqrt()`.
pub open spec fn is_sqrt<E: Scalar>(a: E, r: E) -> bool {
    call_ensures(E::sqrt, (a,), r)
}

/// `r` is a result of `a.powi(n)`.
pub open spec fn is_powi<E: Scalar>(a: E, n: i32, r: E) -> bool {
    call_ensures(E::powi, (a, n), r)
}

/// `r` is a result of `Scalar::from_count(n)`.
pub open spec fn is_count<E: Scalar>(n: usize, r: E) -> bool {
    call_ensures(E::from_count, (n,), r)
}

/// `r` is `num / den` for the counts `num` and `den`.
pub open spec fn is_ratio<E: Scalar>(num: usize, den: usize, r: E) -> bool {
    exists|a: E, b: E|
        #![trigger is_count(num, a), is_count(den, b)]
        is_count(num, a) && is_count(den, b) && is_quot(a, b, r)
}

/// The count `num` divided by the count `den`.
pub fn ratio<E: Scalar>(num: usize, den: usize) -> (r: E)
    ensures
        is_ratio(num, den, r),
{
    let a = E::from_count(num);
    let b = E::from_count(den);
    let r = a.div(b);
    proof {
        assert(is_count(num, a) && is_count(den, b));
    }
    r
}

/// `sums` holds the running sums of `items`, added left to right from a zero:
/// `sums[0]` is a zero and `sums[k + 1]` is `sums[k] + items[k]`.
pub open spec fn running_sums<E: Scalar>(items: Seq<E>, sums: Seq<E>) -> bool {
    &&& sums.len() == items.len() + 1
    &&& is_zero(sums[0])
    &&& forall|k: int|
        0 <= k < items.len() ==> is_sum(sums[k], #[trigger] items[k], sums[k + 1])
}

/// `r` is the sum of `items`, added left to right starting from a zero.
pub open spec fn is_total<E: Scalar>(items: Seq<E>, r: E) -> bool {
    exists|sums: Seq<E>| #[trigger] running_sums(items, sums) && sums.last() == r
}

/// `products[k]` is `xs[k] * ys[k]` for every `k`.
pub open spec fn pairwise_products<E: Scalar>(xs: Seq<E>, ys: Seq<E>, products: Seq<E>) -> bool {
    &&& xs.len() == ys.len()
    &&& products.len() == xs.len()
    &&& forall|k: int| 0 <= k < xs.len() ==> is_prod(xs[k], ys[k], #[trigger] products[k])
}

/// `r` is the inner product of `xs` and `ys`: the products `xs[k] * ys[k]`,
/// added left to right starting from a zero.
pub open spec fn is_dot<E: Scalar>(xs: Seq<E>, ys: Seq<E>, r: E) -> bool {
    exists|products: Seq<E>| #[trigger]
        pairwise_products(xs, ys, products) && is_total(products, r)
}

/// Adds `items` left to right, starting from a zero.
pub fn total<E: Scalar>(items: &[E]) -> (r: E)
    ensures
        is_total(items@, r),
{
    let mut acc = E::zero();
    let ghost mut sums: Seq<E> = seq![acc];
    let mut k: usize = 0;
    while k < items.len()
        invariant
            k <= items.len(),
            running_sums(items@.take(k as int), sums),
            sums.last() == acc,
        decreases items.len() - k,
    {
        let next = acc.add(items[k]);
        proof {
            let longer = sums.push(next);
            assert forall|j: int| 0 <= j < k + 1 implies is_sum(
                longer[j],
                #[trigger] items@.take(k + 1)[j],
                longer[j + 1],
            ) by {
                if j < k {
                    assert(is_sum(sums[j], items@.take(k as int)[j], sums[j + 1]));
                }
            }
            sums = longer;
        }
        acc = next;
        k = k + 1;
    }
    proof {
        assert(items@.take(k as int) == items@);
    }
    acc
}

} // verus!
