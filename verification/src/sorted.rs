//! The declaration order checker: the cases of an enumeration must stand
//! in lexical order.

use vstd::prelude::*;
use crate::order::{check_sorted, names, order_diagnostic, out_of_order};
use crate::syntax::{
    diagnostic_view, Diagnostic, DiagnosticView, Item, ItemEnum, Span, Variant,
};

verus! {

/// The names of the cases, in the order of the declaration.
pub open spec fn variant_names(variants: Seq<Variant>) -> Seq<Seq<char>> {
    Seq::new(variants.len(), |k: int| variants[k].ident@)
}

/// The places of the cases, in the order of the declaration.
pub open spec fn variant_spans(variants: Seq<Variant>) -> Seq<Span> {
    Seq::new(variants.len(), |k: int| variants[k].span)
}

/// What the checker reports of an enumeration: nothing if its cases are in
/// order, else the later case of the first pair out of order, at its place.
pub open spec fn sorted_diagnostic(item: ItemEnum) -> Option<DiagnosticView> {
    order_diagnostic(variant_names(item.variants@), variant_spans(item.variants@))
}

/// Checks the order of the cases of `item`. The enumeration is only read:
/// a caller emits it as it came, whatever the result.
pub fn impl_sorted(item: &ItemEnum) -> (r: Result<(), Diagnostic>)
    ensures
        match r {
            Ok(_) => sorted_diagnostic(*item) is None,
            Err(d) => sorted_diagnostic(*item) == Some(d@),
        },
{
    let mut variants: Vec<String> = Vec::new();
    let n = item.variants.len();
    let mut k: usize = 0;
    while k < n
        invariant
            n == item.variants.len(),
            k <= n,
            variants.len() == k,
            forall|i: int| 0 <= i < k ==> (#[trigger] variants@[i])@ == item.variants@[i].ident@,
        decreases n - k,
    {
        variants.push(item.variants[k].ident.clone());
        k = k + 1;
    }
    proof {
        assert(names(variants@) =~= variant_names(item.variants@));
    }
    match check_sorted(&variants) {
        Some((i, j)) => Err(out_of_order(&variants[j], &variants[i], item.variants[j].span)),
        None => Ok(()),
    }
}

/// The diagnostic to emit beside the unchanged enumeration, if its cases
/// are out of order.
pub fn sorted(item: &ItemEnum) -> (r: Option<Diagnostic>)
    ensures
        diagnostic_view(r) == sorted_diagnostic(*item),
{
    match impl_sorted(item) {
        Ok(_) => None,
        Err(d) => Some(d),
    }
}

/// What the checker reports of an item, invoked at `call_site`: of an
/// enumeration what [`sorted_diagnostic`] says, of any other item that an
/// enumeration was expected, at the place of the call.
pub open spec fn item_diagnostic(item: Item, call_site: Span) -> Option<DiagnosticView> {
    match item {
        Item::Enum(item) => sorted_diagnostic(item),
        Item::Other => Some(
            DiagnosticView { message: "expected enum or match expression"@, span: call_site },
        ),
    }
}

/// The diagnostic to emit beside the unchanged item, if there is one: the
/// cases of an enumeration are out of order, or the item is no
/// enumeration.
pub fn sorted_item(item: &Item, call_site: Span) -> (r: Option<Diagnostic>)
    ensures
        diagnostic_view(r) == item_diagnostic(*item, call_site),
{
    match item {
        Item::Enum(item) => sorted(item),
        Item::Other => {
            let message = "expected enum or match expression".to_owned();
            Some(Diagnostic { message, span: call_site })
        },
    }
}

} // verus!
