//! The expression order checker: a walk through the expressions of a
//! function that checks the arms of every marked match and takes its
//! markers off.

use vstd::prelude::*;
use crate::order::{check_sorted, names, order_diagnostic, out_of_order};
use crate::syntax::{
    diagnostic_view, expr_views, Arm, Attribute, Diagnostic, DiagnosticView, Expr, ExprKind,
    ExprKindView, ExprView, ItemFn, Pat, Span,
};

verus! {

/// The attribute is the marker: it is named `sorted`.
pub open spec fn marker(attr: Attribute) -> bool {
    attr.path.sole_ident() == Some("sorted"@)
}

/// A match carries the marker if one of its attributes is the marker,
/// wherever it stands among them.
pub open spec fn marked(attrs: Seq<Attribute>) -> bool {
    exists|k: int| 0 <= k < attrs.len() && marker(#[trigger] attrs[k])
}

/// The attributes that are not the marker, in their order.
pub open spec fn without_markers(attrs: Seq<Attribute>) -> Seq<Attribute>
    decreases attrs.len(),
{
    if attrs.len() == 0 {
        attrs
    } else if marker(attrs.last()) {
        without_markers(attrs.drop_last())
    } else {
        without_markers(attrs.drop_last()).push(attrs.last())
    }
}

/// None of the attributes that are left is the marker, and attributes
/// without a marker among them are all left.
pub proof fn lemma_without_markers(attrs: Seq<Attribute>)
    ensures
        !marked(without_markers(attrs)),
        !marked(attrs) ==> without_markers(attrs) == attrs,
        without_markers(attrs).len() <= attrs.len(),
    decreases attrs.len(),
{
    if attrs.len() > 0 {
        let before = attrs.drop_last();
        lemma_without_markers(before);
        let left = without_markers(attrs);
        assert forall|k: int| 0 <= k < left.len() implies !marker(#[trigger] left[k]) by {
            if k < without_markers(before).len() {
                assert(left[k] == without_markers(before)[k]);
            }
        }
        if !marked(attrs) {
            assert(!marker(attrs[attrs.len() - 1]));
            assert forall|k: int| 0 <= k < before.len() implies !marker(#[trigger] before[k]) by {
                assert(before[k] == attrs[k]);
            }
            assert(left =~= attrs);
        }
    }
}

/// The name by which an arm is ordered: the leading identifier of a
/// constructor applied to arguments. An arm with any other pattern has none
/// and takes no part in the order.
pub open spec fn arm_name(arm: Arm) -> Option<Seq<char>> {
    match arm.pat {
        Pat::TupleStruct(path) => path.leading_ident(),
        _ => None,
    }
}

/// The names of the arms that have one, in the order of the arms.
pub open spec fn arm_names(arms: Seq<Arm>) -> Seq<Seq<char>>
    decreases arms.len(),
{
    if arms.len() == 0 {
        Seq::empty()
    } else {
        match arm_name(arms.last()) {
            Some(name) => arm_names(arms.drop_last()).push(name),
            None => arm_names(arms.drop_last()),
        }
    }
}

/// The places of the arms that have a name, in the order of the arms.
pub open spec fn arm_spans(arms: Seq<Arm>) -> Seq<Span>
    decreases arms.len(),
{
    if arms.len() == 0 {
        Seq::empty()
    } else {
        match arm_name(arms.last()) {
            Some(_) => arm_spans(arms.drop_last()).push(arms.last().span),
            None => arm_spans(arms.drop_last()),
        }
    }
}

/// What the checker reports of the arms of one marked match.
pub open spec fn match_diagnostic(arms: Seq<Arm>) -> Option<DiagnosticView> {
    order_diagnostic(arm_names(arms), arm_spans(arms))
}

/// The walk through one expression, begun with `err` as the diagnostic
/// found so far. The result is the expression as the walk leaves it and
/// the diagnostic found up to its end.
///
/// Once a diagnostic is found the walk changes nothing more. Before that,
/// a marked match loses every marker and has its arms checked; if they are
/// in order, or the expression is no marked match, the walk goes on
/// through the children in their order.
pub open spec fn visit(e: ExprView, err: Option<DiagnosticView>) -> (
    ExprView,
    Option<DiagnosticView>,
)
    decreases e, 0nat,
{
    if err is Some {
        (e, err)
    } else {
        match e.kind {
            ExprKindView::Match { attrs, arms } if marked(attrs) => {
                let kind = ExprKindView::Match { attrs: without_markers(attrs), arms };
                match match_diagnostic(arms) {
                    Some(d) => (ExprView { kind, children: e.children }, Some(d)),
                    None => {
                        let (children, found) = visit_first(e.children, e.children.len(), None);
                        (ExprView { kind, children }, found)
                    },
                }
            },
            _ => {
                let (children, found) = visit_first(e.children, e.children.len(), None);
                (ExprView { kind: e.kind, children }, found)
            },
        }
    }
}

/// The walk through the first `k` expressions of a list, one after the
/// other, begun with `err` as the diagnostic found so far.
pub open spec fn visit_first(es: Seq<ExprView>, k: nat, err: Option<DiagnosticView>) -> (
    Seq<ExprView>,
    Option<DiagnosticView>,
)
    decreases es, k,
{
    if k == 0 || k > es.len() {
        (es, err)
    } else {
        let (before, found) = visit_first(es, (k - 1) as nat, err);
        let (e, found) = visit(es[k - 1], found);
        (before.update(k - 1, e), found)
    }
}

/// The walk through a whole function.
pub open spec fn visit_item(exprs: Seq<ExprView>) -> (Seq<ExprView>, Option<DiagnosticView>) {
    visit_first(exprs, exprs.len(), None)
}

/// The names and the places of the arms that take part in the order.
fn arm_labels(arms: &Vec<Arm>) -> (r: (Vec<String>, Vec<Span>))
    ensures
        names(r.0@) == arm_names(arms@),
        r.1@ == arm_spans(arms@),
        r.0.len() == r.1.len(),
{
    let mut labels: Vec<String> = Vec::new();
    let mut spans: Vec<Span> = Vec::new();
    let n = arms.len();
    let mut k: usize = 0;
    while k < n
        invariant
            n == arms.len(),
            k <= n,
            names(labels@) == arm_names(arms@.take(k as int)),
            spans@ == arm_spans(arms@.take(k as int)),
            labels.len() == spans.len(),
        decreases n - k,
    {
        proof {
            assert(arms@.take(k + 1).drop_last() =~= arms@.take(k as int));
            assert(arms@.take(k + 1).last() == arms@[k as int]);
        }
        if let Pat::TupleStruct(path) = &arms[k].pat {
            if path.segments.len() > 0 {
                let ghost before = names(labels@);
                labels.push(path.segments[0].ident.clone());
                spans.push(arms[k].span);
                proof {
                    assert(names(labels@) =~= before.push(path.segments@[0].ident@));
                }
            }
        }
        k = k + 1;
    }
    proof {
        assert(arms@.take(n as int) =~= arms@);
    }
    (labels, spans)
}

/// Whether `attr` is the marker.
pub fn is_marker(attr: &Attribute) -> (r: bool)
    ensures
        r == marker(*attr),
{
    attr.path.is_ident("sorted")
}

/// Takes every marker off `attrs`, and says whether there was one.
pub fn take_markers(attrs: &mut Vec<Attribute>) -> (found: bool)
    ensures
        final(attrs)@ == without_markers(old(attrs)@),
        found == marked(old(attrs)@),
{
    let ghost all = attrs@;
    let ghost mut seen: int = 0;
    let mut found = false;
    let mut i: usize = 0;
    while i < attrs.len()
        invariant
            0 <= seen <= all.len(),
            i <= attrs.len(),
            i == without_markers(all.take(seen)).len(),
            attrs@ == without_markers(all.take(seen)) + all.skip(seen),
            found == marked(all.take(seen)),
        decreases all.len() - seen,
    {
        proof {
            assert(attrs@[i as int] == all.skip(seen)[0]);
            assert(all.take(seen + 1).drop_last() =~= all.take(seen));
            assert(all.take(seen + 1).last() == all[seen]);
            if marked(all.take(seen)) {
                let k = choose|k: int|
                    0 <= k < all.take(seen).len() && marker(#[trigger] all.take(seen)[k]);
                assert(all.take(seen + 1)[k] == all.take(seen)[k]);
            }
            if marked(all.take(seen + 1)) && !marker(all[seen]) {
                let k = choose|k: int|
                    0 <= k < all.take(seen + 1).len() && marker(#[trigger] all.take(seen + 1)[k]);
                assert(all.take(seen)[k] == all.take(seen + 1)[k]);
            }
            if marker(all[seen]) {
                assert(all.take(seen + 1)[seen] == all[seen]);
            }
        }
        if is_marker(&attrs[i]) {
            attrs.remove(i);
            found = true;
            proof {
                assert(attrs@ =~= without_markers(all.take(seen + 1)) + all.skip(seen + 1));
            }
        } else {
            i = i + 1;
            proof {
                assert(attrs@ =~= without_markers(all.take(seen + 1)) + all.skip(seen + 1));
            }
        }
        proof {
            seen = seen + 1;
        }
    }
    proof {
        assert(all.take(seen) =~= all);
        assert(attrs@ =~= without_markers(all));
    }
    found
}

/// The state of a walk: the first diagnostic found, if any.
pub struct MatchSortCheck {
    pub err: Option<Diagnostic>,
}

impl MatchSortCheck {
    /// A walk that has found nothing yet.
    pub fn new() -> (r: MatchSortCheck)
        ensures
            r.err is None,
    {
        MatchSortCheck { err: None }
    }

    /// Walks through `node`: see [`visit`].
    pub fn visit_expr_mut(&mut self, node: &mut Expr)
        ensures
            final(node)@ == visit(old(node)@, diagnostic_view(old(self).err)).0,
            diagnostic_view(final(self).err) == visit(
                old(node)@,
                diagnostic_view(old(self).err),
            ).1,
        decreases *old(node),
    {
        if self.err.is_some() {
            return ;
        }
        if let ExprKind::Match(m) = &mut node.kind {
            proof {
                lemma_without_markers(m.attrs@);
            }
            if take_markers(&mut m.attrs) {
                let (labels, spans) = arm_labels(&m.arms);
                if let Some((i, j)) = check_sorted(&labels) {
                    self.err = Some(out_of_order(&labels[j], &labels[i], spans[j]));
                    return ;
                }
            }
        }
        let ghost entered = *node;
        let n = node.children.len();
        let mut k: usize = 0;
        while k < n
            invariant
                n == node.children.len(),
                k <= n,
                node.kind == entered.kind,
                entered.children == old(node).children,
                entered.children@.len() == n,
                forall|i: int| k <= i < n ==> node.children@[i] == entered.children@[i],
                (expr_views(node.children@), diagnostic_view(self.err)) == visit_first(
                    expr_views(entered.children@),
                    k as nat,
                    None,
                ),
            decreases n - k,
        {
            let ghost before = node.children@;
            proof {
                assert(before[k as int] == old(node).children@[k as int]);
                assert(expr_views(entered.children@)[k as int] == before[k as int]@);
            }
            self.visit_expr_mut(&mut node.children[k]);
            proof {
                assert(expr_views(node.children@) =~= expr_views(before).update(
                    k as int,
                    node.children@[k as int]@,
                ));
            }
            k = k + 1;
        }
    }

    /// Walks through the expressions of `item`, one after the other.
    pub fn visit_item_fn_mut(&mut self, item: &mut ItemFn)
        ensures
            final(item)@ == visit_first(
                old(item)@,
                old(item)@.len(),
                diagnostic_view(old(self).err),
            ).0,
            diagnostic_view(final(self).err) == visit_first(
                old(item)@,
                old(item)@.len(),
                diagnostic_view(old(self).err),
            ).1,
    {
        let n = item.exprs.len();
        let mut k: usize = 0;
        while k < n
            invariant
                n == item.exprs.len(),
                n == old(item).exprs.len(),
                k <= n,
                forall|i: int| k <= i < n ==> item.exprs@[i] == old(item).exprs@[i],
                (item@, diagnostic_view(self.err)) == visit_first(
                    old(item)@,
                    k as nat,
                    diagnostic_view(old(self).err),
                ),
            decreases n - k,
        {
            let ghost before = item.exprs@;
            proof {
                assert(old(item)@[k as int] == before[k as int]@);
            }
            self.visit_expr_mut(&mut item.exprs[k]);
            proof {
                assert(expr_views(item.exprs@) =~= expr_views(before).update(
                    k as int,
                    item.exprs@[k as int]@,
                ));
            }
            k = k + 1;
        }
    }
}

/// Checks every marked match of `item` that the walk reaches, and takes
/// the markers of these off. The walk ends at the first match whose arms
/// are out of order, which is then reported.
pub fn impl_check(item: &mut ItemFn) -> (r: Result<(), Diagnostic>)
    ensures
        final(item)@ == visit_item(old(item)@).0,
        match r {
            Ok(_) => visit_item(old(item)@).1 is None,
            Err(d) => visit_item(old(item)@).1 == Some(d@),
        },
{
    let mut checker = MatchSortCheck::new();
    checker.visit_item_fn_mut(item);
    match checker.err {
        Some(err) => Err(err),
        None => Ok(()),
    }
}

/// Takes the markers off `item` as far as the walk goes, and returns the
/// diagnostic to emit beside the function, if the walk found one.
pub fn check(item: &mut ItemFn) -> (r: Option<Diagnostic>)
    ensures
        final(item)@ == visit_item(old(item)@).0,
        diagnostic_view(r) == visit_item(old(item)@).1,
{
    match impl_check(item) {
        Ok(_) => None,
        Err(d) => Some(d),
    }
}

/// The kind of an expression with every marker taken off, if it is a
/// match that carries one.
pub open spec fn unmarked_kind(kind: ExprKindView) -> ExprKindView {
    match kind {
        ExprKindView::Match { attrs, arms } if marked(attrs) => ExprKindView::Match {
            attrs: without_markers(attrs),
            arms,
        },
        _ => kind,
    }
}

/// The expression with the marker taken off every match in it that
/// carries one.
pub open spec fn unmarked(e: ExprView) -> ExprView
    decreases e,
{
    ExprView {
        kind: unmarked_kind(e.kind),
        children: Seq::new(
            e.children.len(),
            |i: int|
                if 0 <= i < e.children.len() {
                    unmarked(e.children[i])
                } else {
                    arbitrary()
                },
        ),
    }
}

/// Every marked match in the expression has its arms in order.
pub open spec fn in_order(e: ExprView) -> bool
    decreases e,
{
    &&& e.kind matches ExprKindView::Match { attrs, arms } ==> marked(attrs) ==> match_diagnostic(
        arms,
    ) is None
    &&& forall|i: int| 0 <= i < e.children.len() ==> in_order(#[trigger] e.children[i])
}

/// A walk that begins without a diagnostic ends without one exactly if
/// every marked match in the expression is in order, and then it has taken
/// the marker off every one of them, nested ones too.
pub proof fn law_walk_in_order(e: ExprView)
    ensures
        visit(e, None).1 is None <==> in_order(e),
        in_order(e) ==> visit(e, None).0 == unmarked(e),
    decreases e, 0nat,
{
    lemma_walk_first(e.children, e.children.len());
    if in_order(e) {
        assert(visit(e, None).0.children =~= unmarked(e).children);
    }
}

/// The walk through the first `k` expressions of a list ends without a
/// diagnostic exactly if each of them is in order throughout; then it has
/// taken the markers off these and left the others as they were.
pub proof fn lemma_walk_first(es: Seq<ExprView>, k: nat)
    requires
        k <= es.len(),
    ensures
        visit_first(es, k, None).0.len() == es.len(),
        visit_first(es, k, None).1 is None <==> forall|i: int|
            0 <= i < k ==> in_order(#[trigger] es[i]),
        visit_first(es, k, None).1 is None ==> forall|i: int|
            0 <= i < es.len() ==> #[trigger] visit_first(es, k, None).0[i] == if i < k {
                unmarked(es[i])
            } else {
                es[i]
            },
        visit_first(es, k, None).1 is Some ==> forall|i: int|
            k <= i < es.len() ==> #[trigger] visit_first(es, k, None).0[i] == es[i],
    decreases es, k,
{
    if k > 0 {
        let j = (k - 1) as nat;
        lemma_walk_first(es, j);
        law_walk_in_order(es[j as int]);
        let before = visit_first(es, j, None);
        let step = visit(es[j as int], before.1);
        let after = visit_first(es, k, None);
        assert(after == (before.0.update(j as int, step.0), step.1));
        if before.1 is None {
            if in_order(es[j as int]) {
                assert forall|i: int| 0 <= i < k implies in_order(#[trigger] es[i]) by {
                    if i < j {
                        assert(in_order(es[i]));
                    }
                }
                assert forall|i: int| 0 <= i < es.len() implies #[trigger] after.0[i] == if i
                    < k {
                    unmarked(es[i])
                } else {
                    es[i]
                } by {
                    if i != j {
                        assert(after.0[i] == before.0[i]);
                    }
                }
            } else {
                assert(after.1 is Some);
            }
        } else {
            assert(step == (es[j as int], before.1));
            let i = choose|i: int| 0 <= i < j && !in_order(#[trigger] es[i]);
            assert(!in_order(es[i]));
        }
        assert forall|i: int| k <= i < es.len() implies #[trigger] after.0[i] == es[i] by {
            assert(after.0[i] == before.0[i]);
        }
    }
}

/// What the checker reports of one expression by itself: the diagnostic of
/// its arms if it is a marked match, nothing otherwise.
pub open spec fn kind_diagnostic(kind: ExprKindView) -> Option<DiagnosticView> {
    match kind {
        ExprKindView::Match { attrs, arms } if marked(attrs) => match_diagnostic(arms),
        _ => None,
    }
}

/// The kinds of the expressions of a tree in the order in which a walk
/// meets them: an expression before its children, and the children one
/// after the other.
pub open spec fn preorder(e: ExprView) -> Seq<ExprKindView>
    decreases e, 0nat,
{
    seq![e.kind] + preorder_first(e.children, e.children.len())
}

/// The kinds of the expressions of the first `k` trees of a list, in the
/// order in which a walk meets them.
pub open spec fn preorder_first(es: Seq<ExprView>, k: nat) -> Seq<ExprKindView>
    decreases es, k,
{
    if k == 0 || k > es.len() {
        Seq::empty()
    } else {
        preorder_first(es, (k - 1) as nat) + preorder(es[k - 1])
    }
}

/// A scan through a list of expressions from first to last, begun with
/// `err` as the diagnostic found so far. Until a diagnostic is found,
/// every marked match loses its marker and has its arms checked; from
/// then on nothing changes.
pub open spec fn scan(kinds: Seq<ExprKindView>, err: Option<DiagnosticView>) -> (
    Seq<ExprKindView>,
    Option<DiagnosticView>,
)
    decreases kinds.len(),
{
    if kinds.len() == 0 {
        (kinds, err)
    } else {
        let (before, found) = scan(kinds.drop_last(), err);
        if found is Some {
            (before.push(kinds.last()), found)
        } else {
            (before.push(unmarked_kind(kinds.last())), kind_diagnostic(kinds.last()))
        }
    }
}

/// A scan that begins with a diagnostic changes nothing.
pub proof fn lemma_scan_halted(kinds: Seq<ExprKindView>, d: DiagnosticView)
    ensures
        scan(kinds, Some(d)) == (kinds, Some(d)),
    decreases kinds.len(),
{
    if kinds.len() > 0 {
        lemma_scan_halted(kinds.drop_last(), d);
        assert(kinds.drop_last().push(kinds.last()) =~= kinds);
    }
}

/// A scan through two lists on end is the scan through the first and then
/// the scan through the second.
pub proof fn lemma_scan_concat(
    a: Seq<ExprKindView>,
    b: Seq<ExprKindView>,
    err: Option<DiagnosticView>,
)
    ensures
        scan(a + b, err) == (
            scan(a, err).0 + scan(b, scan(a, err).1).0,
            scan(b, scan(a, err).1).1,
        ),
    decreases b.len(),
{
    let first = scan(a, err);
    if b.len() == 0 {
        assert(a + b =~= a);
        assert(first.0 + b =~= first.0);
    } else {
        lemma_scan_concat(a, b.drop_last(), err);
        assert((a + b).drop_last() =~= a + b.drop_last());
        assert((a + b).last() == b.last());
        let rest = scan(b.drop_last(), first.1);
        assert((first.0 + rest.0).push(b.last()) =~= first.0 + rest.0.push(b.last()));
        assert((first.0 + rest.0).push(unmarked_kind(b.last())) =~= first.0 + rest.0.push(
            unmarked_kind(b.last()),
        ));
    }
}

/// The order in which a walk meets the first `k` trees of a list depends
/// on these trees alone.
pub proof fn lemma_preorder_first_of_equal(a: Seq<ExprView>, b: Seq<ExprView>, k: nat)
    requires
        k <= a.len(),
        k <= b.len(),
        forall|i: int| 0 <= i < k ==> a[i] == b[i],
    ensures
        preorder_first(a, k) == preorder_first(b, k),
    decreases k,
{
    if k > 0 {
        lemma_preorder_first_of_equal(a, b, (k - 1) as nat);
    }
}

/// The walk is a scan. What a walk through a tree finds, and what it does
/// to the expressions of the tree, is what a scan finds and does that goes
/// through these expressions from first to last in the order in which the
/// walk meets them: the diagnostic is that of the first marked match out
/// of order, the marked matches up to that one have lost their markers,
/// and every expression after it is as it was.
pub proof fn law_walk_is_scan(e: ExprView, err: Option<DiagnosticView>)
    ensures
        (preorder(visit(e, err).0), visit(e, err).1) == scan(preorder(e), err),
    decreases e, 0nat,
{
    let n = e.children.len();
    let rest = preorder_first(e.children, n);
    match err {
        Some(d) => {
            lemma_scan_halted(preorder(e), d);
        },
        None => {
            let head = seq![e.kind];
            assert(head.drop_last() =~= Seq::<ExprKindView>::empty());
            assert(scan(head.drop_last(), None).0 =~= Seq::<ExprKindView>::empty());
            assert(scan(head, None) == (
                seq![unmarked_kind(e.kind)],
                kind_diagnostic(e.kind),
            )) by {
                assert(Seq::<ExprKindView>::empty().push(unmarked_kind(e.kind)) =~= seq![
                    unmarked_kind(e.kind),
                ]);
            }
            lemma_scan_concat(head, rest, None);
            match kind_diagnostic(e.kind) {
                Some(d) => {
                    lemma_scan_halted(rest, d);
                },
                None => {
                    lemma_walk_first_is_scan(e.children, n, None);
                },
            }
        },
    }
}

/// The walk through the first `k` trees of a list is a scan through their
/// expressions, and leaves the other trees as they were.
pub proof fn lemma_walk_first_is_scan(es: Seq<ExprView>, k: nat, err: Option<DiagnosticView>)
    requires
        k <= es.len(),
    ensures
        visit_first(es, k, err).0.len() == es.len(),
        forall|i: int| k <= i < es.len() ==> #[trigger] visit_first(es, k, err).0[i] == es[i],
        (preorder_first(visit_first(es, k, err).0, k), visit_first(es, k, err).1) == scan(
            preorder_first(es, k),
            err,
        ),
    decreases es, k,
{
    if k > 0 {
        let j = (k - 1) as nat;
        lemma_walk_first_is_scan(es, j, err);
        let before = visit_first(es, j, err);
        law_walk_is_scan(es[j as int], before.1);
        let step = visit(es[j as int], before.1);
        let after = visit_first(es, k, err);
        assert(after == (before.0.update(j as int, step.0), step.1));
        assert(before.0[j as int] == es[j as int]);
        lemma_preorder_first_of_equal(after.0, before.0, j);
        lemma_scan_concat(preorder_first(es, j), preorder(es[j as int]), err);
        assert forall|i: int| k <= i < es.len() implies #[trigger] after.0[i] == es[i] by {
            assert(after.0[i] == before.0[i]);
        }
    }
}

/// The walk through a whole function is a scan through all its
/// expressions.
pub proof fn law_check_is_scan(exprs: Seq<ExprView>)
    ensures
        (preorder_first(visit_item(exprs).0, exprs.len()), visit_item(exprs).1) == scan(
            preorder_first(exprs, exprs.len()),
            None,
        ),
{
    lemma_walk_first_is_scan(exprs, exprs.len(), None);
}

} // verus!
