//! Lexical order on names.

use vstd::prelude::*;

verus! {

/// `a` comes strictly before `b` in case-sensitive lexical order: at the
/// first position where the two differ `a` holds the smaller code point, or
/// `a` ends there and `b` goes on.
pub open spec fn precedes(a: Seq<char>, b: Seq<char>) -> bool
    decreases a.len(),
{
    if b.len() == 0 {
        false
    } else if a.len() == 0 {
        true
    } else if a[0] != b[0] {
        (a[0] as u32) < (b[0] as u32)
    } else {
        precedes(a.drop_first(), b.drop_first())
    }
}

/// `a >= b` as std orders strings. std documents that order as lexicographic
/// by byte values, which is the order of the code points; the contract says
/// that the result is `true` exactly when `a` does not come strictly before
/// `b` in that order.
#[verifier::external_body]
pub(crate) fn not_before(a: &String, b: &String) -> (r: bool)
    ensures
        r == !precedes(a@, b@),
{
    a >= b
}

} // verus!
