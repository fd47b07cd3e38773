//! The pairwise order check that both checkers share, and the diagnostic
//! that reports its finding.

use vstd::prelude::*;
use vstd::string::*;
use crate::syntax::{Diagnostic, DiagnosticView, Span};
use crate::text::{not_before, precedes};

verus! {

/// The names of a list of strings, as sequences of characters.
pub open spec fn names(vs: Seq<String>) -> Seq<Seq<char>> {
    Seq::new(vs.len(), |k: int| vs[k]@)
}

/// The pair `(i, j)` breaks the order of `names`: `i` stands before `j`, and
/// the name at `i` does not come strictly before the name at `j`. Two equal
/// names break the order too.
pub open spec fn violates(names: Seq<Seq<char>>, i: int, j: int) -> bool {
    0 <= i < j < names.len() && !precedes(names[i], names[j])
}

/// The scan meets the pair `(a, b)` before the pair `(i, j)`: it goes
/// through the first positions in ascending order, and for each of them
/// through the second positions in ascending order.
pub open spec fn scanned_before(a: int, b: int, i: int, j: int) -> bool {
    a < i || (a == i && b < j)
}

/// `(i, j)` is the first pair that the scan finds out of order.
pub open spec fn first_violation(names: Seq<Seq<char>>, i: int, j: int) -> bool {
    &&& violates(names, i, j)
    &&& forall|a: int, b: int|
        scanned_before(a, b, i, j) ==> !#[trigger] violates(names, a, b)
}

/// No pair of `names` is out of order: every name comes strictly before
/// all that follow it.
pub open spec fn strictly_sorted(names: Seq<Seq<char>>) -> bool {
    forall|a: int, b: int| !#[trigger] violates(names, a, b)
}

/// The first pair of `names` that the scan finds out of order, if there is
/// one.
pub open spec fn violation(names: Seq<Seq<char>>) -> Option<(int, int)> {
    if exists|i: int, j: int| first_violation(names, i, j) {
        Some(choose|i: int, j: int| first_violation(names, i, j))
    } else {
        None
    }
}

/// A pair of positions as mathematical integers.
pub open spec fn positions(r: Option<(usize, usize)>) -> Option<(int, int)> {
    match r {
        Some((i, j)) => Some((i as int, j as int)),
        None => None,
    }
}

/// At most one pair is the first out of order.
pub proof fn lemma_first_violation_unique(names: Seq<Seq<char>>, i: int, j: int)
    requires
        first_violation(names, i, j),
    ensures
        violation(names) == Some((i, j)),
{
    let (a, b) = choose|a: int, b: int| first_violation(names, a, b);
    assert(violates(names, a, b));
    assert(violates(names, i, j));
    assert(!scanned_before(a, b, i, j));
    assert(!scanned_before(i, j, a, b));
}

/// The pair that the scan reports is the first one out of order, and it
/// reports one whenever any pair is out of order.
pub proof fn law_violation_is_first(names: Seq<Seq<char>>)
    ensures
        violation(names) matches Some((i, j)) ==> first_violation(names, i, j),
        violation(names) is None <==> strictly_sorted(names),
{
    if strictly_sorted(names) {
        lemma_sorted_has_no_violation(names);
    } else {
        let (a, b) = choose|a: int, b: int| #[trigger] violates(names, a, b);
        lemma_some_violation_is_first(names, a, b, a * names.len() + b);
    }
}

/// If some pair is out of order, then some pair is the first out of order.
proof fn lemma_some_violation_is_first(names: Seq<Seq<char>>, a: int, b: int, rank: int)
    requires
        violates(names, a, b),
        rank == a * names.len() + b,
    ensures
        exists|i: int, j: int| first_violation(names, i, j),
    decreases rank,
{
    if first_violation(names, a, b) {
    } else {
        let (c, d) = choose|c: int, d: int|
            scanned_before(c, d, a, b) && #[trigger] violates(names, c, d);
        assert(c * names.len() + d < a * names.len() + b) by (nonlinear_arith)
            requires
                0 <= c,
                0 <= d < names.len(),
                0 <= b < names.len(),
                c < a || (c == a && d < b),
        ;
        assert(0 <= c * names.len() + d) by (nonlinear_arith)
            requires
                0 <= c,
                0 <= d,
                0 <= names.len(),
        ;
        lemma_some_violation_is_first(names, c, d, c * names.len() + d);
    }
}

/// A list without a pair out of order has no first such pair.
pub proof fn lemma_sorted_has_no_violation(names: Seq<Seq<char>>)
    requires
        strictly_sorted(names),
    ensures
        violation(names) is None,
{
    assert forall|i: int, j: int| !first_violation(names, i, j) by {
        assert(!violates(names, i, j));
    }
}

/// Looks for names out of order. For every first position in ascending
/// order, it compares the name there with each later one in ascending order,
/// and returns the positions of the first pair in which the earlier name
/// does not come strictly before the later one. It returns `None` when there
/// is no such pair, as in a list of fewer than two names.
pub fn check_sorted(vs: &Vec<String>) -> (r: Option<(usize, usize)>)
    ensures
        positions(r) == violation(names(vs@)),
        r matches Some((i, j)) ==> first_violation(names(vs@), i as int, j as int),
        r is None ==> strictly_sorted(names(vs@)),
{
    let n = vs.len();
    let mut i: usize = 0;
    while i < n
        invariant
            n == vs.len(),
            i <= n,
            forall|a: int, b: int| a < i ==> !#[trigger] violates(names(vs@), a, b),
        decreases n - i,
    {
        let mut j: usize = i + 1;
        while j < n
            invariant
                n == vs.len(),
                i < n,
                i < j <= n,
                forall|a: int, b: int|
                    scanned_before(a, b, i as int, j as int) ==> !#[trigger] violates(
                        names(vs@),
                        a,
                        b,
                    ),
            decreases n - j,
        {
            if not_before(&vs[i], &vs[j]) {
                proof {
                    lemma_first_violation_unique(names(vs@), i as int, j as int);
                }
                return Some((i, j));
            }
            j = j + 1;
        }
        i = i + 1;
    }
    proof {
        lemma_sorted_has_no_violation(names(vs@));
    }
    None
}

/// The message that reports `later`, found after `earlier` though it does
/// not sort after it.
pub open spec fn order_message(later: Seq<char>, earlier: Seq<char>) -> Seq<char> {
    later + " should sort before "@ + earlier
}

/// What the order check reports of a list of names, each with the place it
/// was read from: nothing if no pair is out of order, else the later name of
/// the first such pair, at its own place.
pub open spec fn order_diagnostic(names: Seq<Seq<char>>, spans: Seq<Span>) -> Option<
    DiagnosticView,
> {
    match violation(names) {
        Some((i, j)) => Some(
            DiagnosticView { message: order_message(names[j], names[i]), span: spans[j] },
        ),
        None => None,
    }
}

/// The diagnostic for `later`, read at `span`, which should sort before
/// `earlier`.
pub fn out_of_order(later: &String, earlier: &String, span: Span) -> (d: Diagnostic)
    ensures
        d@ == (DiagnosticView { message: order_message(later@, earlier@), span }),
{
    let mut message = later.clone();
    message.append(" should sort before ");
    message.append(earlier.as_str());
    Diagnostic { message, span }
}

} // verus!
