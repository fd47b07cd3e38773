use macro_passes::sorted::{impl_sorted, sorted, sorted_item};
use macro_passes::syntax::{Diagnostic, Item, ItemEnum, Span, Variant};

fn cases(names: &[&str]) -> ItemEnum {
    ItemEnum {
        variants: names
            .iter()
            .enumerate()
            .map(|(k, name)| Variant { ident: name.to_string(), span: Span(10 + k) })
            .collect(),
    }
}

#[test]
fn cases_in_order_pass_unchanged() {
    let item = cases(&["A", "B", "C"]);
    assert_eq!(sorted(&item), None);
    assert_eq!(impl_sorted(&item), Ok(()));
    assert_eq!(item, cases(&["A", "B", "C"]));
}

#[test]
fn case_out_of_order_is_reported_at_its_place() {
    let item = cases(&["B", "A", "C"]);
    let expected = Diagnostic { message: "A should sort before B".to_string(), span: Span(11) };
    assert_eq!(sorted(&item), Some(expected.clone()));
    assert_eq!(impl_sorted(&item), Err(expected));
    assert_eq!(item, cases(&["B", "A", "C"]));
}

#[test]
fn enumeration_without_cases_passes() {
    assert_eq!(sorted(&cases(&[])), None);
}

#[test]
fn enumeration_with_one_case_passes() {
    assert_eq!(sorted(&cases(&["Only"])), None);
}

#[test]
fn duplicate_case_is_reported() {
    let item = cases(&["A", "A"]);
    assert_eq!(
        sorted(&item),
        Some(Diagnostic { message: "A should sort before A".to_string(), span: Span(11) })
    );
}

#[test]
fn report_follows_the_nested_scan() {
    let item = cases(&["B", "C", "A"]);
    assert_eq!(
        sorted(&item),
        Some(Diagnostic { message: "A should sort before B".to_string(), span: Span(12) })
    );
}

#[test]
fn only_the_first_violation_is_reported() {
    let item = cases(&["A", "C", "B", "E", "D"]);
    assert_eq!(
        sorted(&item),
        Some(Diagnostic { message: "B should sort before C".to_string(), span: Span(12) })
    );
}

#[test]
fn item_that_is_no_enumeration_is_reported_at_the_call() {
    assert_eq!(
        sorted_item(&Item::Other, Span(3)),
        Some(Diagnostic { message: "expected enum or match expression".to_string(), span: Span(3) })
    );
}

#[test]
fn enumeration_as_an_item_is_checked() {
    assert_eq!(sorted_item(&Item::Enum(cases(&["A", "B", "C"])), Span(0)), None);
    assert_eq!(
        sorted_item(&Item::Enum(cases(&["B", "A", "C"])), Span(0)),
        Some(Diagnostic { message: "A should sort before B".to_string(), span: Span(11) })
    );
}
