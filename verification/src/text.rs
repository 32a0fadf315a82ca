//! Text of messages.

use vstd::prelude::*;
use vstd::string::StringExecFns;

verus! {

/// `head` followed by `tail`.
pub(crate) fn join(head: &str, tail: &str) -> (r: String)
    ensures
        r@ == head@ + tail@,
{
    head.to_owned().concat(tail)
}

/// `format!` on an integer: `head`, a space, and the integer in decimal.
#[verifier::external_body]
pub(crate) fn numbered(head: &str, n: usize) -> (r: String)
{
    format!("{} {}", head, n)
}

/// The text that `{:?}` gives for a list of integers: the integers in
/// decimal, separated by a comma and a space, in square brackets.
pub uninterp spec fn list_text(items: Seq<usize>) -> Seq<char>;

/// `format!` with `{:?}` on a list of integers; the result is named, not
/// described.
#[verifier::external_body]
pub(crate) fn listed(items: &[usize]) -> (r: String)
    ensures
        r@ == list_text(items@),
{
    format!("{:?}", items)
}

} // verus!
