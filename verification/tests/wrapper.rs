use macro_passes::syntax::{GenericArgument, Path, PathArguments, PathSegment, Span, Type, TypeKind};
use macro_passes::wrapper::{inner_type, wrapper_match, WrapperKind, WrapperMatch};

fn segment(name: &str, arguments: PathArguments) -> PathSegment {
    PathSegment { ident: name.to_string(), arguments }
}

fn path_type(span: usize, segments: Vec<PathSegment>) -> Type {
    Type { span: Span(span), kind: TypeKind::Path(Path { leading_colon: false, segments }) }
}

fn plain(span: usize, name: &str) -> Type {
    path_type(span, vec![segment(name, PathArguments::Absent)])
}

fn generic(span: usize, name: &str, args: Vec<GenericArgument>) -> Type {
    path_type(span, vec![segment(name, PathArguments::AngleBracketed(args))])
}

#[test]
fn option_of_string_gives_string() {
    let ty = generic(1, "Option", vec![GenericArgument::Type(plain(2, "String"))]);
    assert_eq!(inner_type("Option", &ty), Some(&plain(2, "String")));
}

#[test]
fn vec_of_string_gives_string() {
    let ty = generic(1, "Vec", vec![GenericArgument::Type(plain(2, "String"))]);
    assert_eq!(inner_type("Vec", &ty), Some(&plain(2, "String")));
}

#[test]
fn other_wrapper_does_not_match() {
    let ty = generic(1, "Vec", vec![GenericArgument::Type(plain(2, "String"))]);
    assert_eq!(inner_type("Option", &ty), None);
}

#[test]
fn nested_wrapper_is_not_looked_into() {
    let inner = generic(2, "Option", vec![GenericArgument::Type(plain(3, "u8"))]);
    let ty = generic(1, "Vec", vec![GenericArgument::Type(inner)]);
    assert_eq!(inner_type("Option", &ty), None);
    assert_eq!(
        inner_type("Vec", &ty),
        Some(&generic(2, "Option", vec![GenericArgument::Type(plain(3, "u8"))]))
    );
}

#[test]
fn wrapper_without_arguments_does_not_match() {
    assert_eq!(inner_type("Option", &plain(1, "Option")), None);
    assert_eq!(inner_type("Option", &generic(1, "Option", vec![])), None);
    assert_eq!(
        inner_type("Option", &path_type(1, vec![segment("Option", PathArguments::Parenthesized)])),
        None
    );
}

#[test]
fn wrapper_with_two_arguments_does_not_match() {
    let ty = generic(
        1,
        "Vec",
        vec![GenericArgument::Type(plain(2, "u8")), GenericArgument::Type(plain(3, "Global"))],
    );
    assert_eq!(inner_type("Vec", &ty), None);
}

#[test]
fn argument_that_is_no_type_does_not_match() {
    let ty = generic(1, "Option", vec![GenericArgument::Other]);
    assert_eq!(inner_type("Option", &ty), None);
}

#[test]
fn longer_path_to_the_wrapper_is_not_resolved() {
    let ty = path_type(
        1,
        vec![
            segment("std", PathArguments::Absent),
            segment("option", PathArguments::Absent),
            segment(
                "Option",
                PathArguments::AngleBracketed(vec![GenericArgument::Type(plain(2, "u8"))]),
            ),
        ],
    );
    assert_eq!(inner_type("Option", &ty), None);
}

#[test]
fn type_that_is_no_path_does_not_match() {
    let ty = Type { span: Span(1), kind: TypeKind::Other };
    assert_eq!(inner_type("Option", &ty), None);
    assert_eq!(inner_type("Vec", &ty), None);
}

#[test]
fn path_without_segments_does_not_match() {
    assert_eq!(inner_type("Option", &path_type(1, vec![])), None);
}

#[test]
fn name_is_compared_exactly() {
    let ty = generic(1, "option", vec![GenericArgument::Type(plain(2, "u8"))]);
    assert_eq!(inner_type("Option", &ty), None);
}

#[test]
fn kinds_are_written_option_and_vec() {
    assert_eq!(WrapperKind::OptionalValue.name(), "Option");
    assert_eq!(WrapperKind::Sequence.name(), "Vec");
}

#[test]
fn match_holds_kind_and_wrapped_type() {
    let ty = generic(1, "Vec", vec![GenericArgument::Type(plain(2, "String"))]);
    assert_eq!(
        wrapper_match(WrapperKind::Sequence, &ty),
        Some(WrapperMatch { kind: WrapperKind::Sequence, inner: &plain(2, "String") })
    );
    assert_eq!(wrapper_match(WrapperKind::OptionalValue, &ty), None);
    let ty = generic(1, "Option", vec![GenericArgument::Type(plain(2, "u8"))]);
    assert_eq!(
        wrapper_match(WrapperKind::OptionalValue, &ty),
        Some(WrapperMatch { kind: WrapperKind::OptionalValue, inner: &plain(2, "u8") })
    );
    assert_eq!(wrapper_match(WrapperKind::Sequence, &ty), None);
}
