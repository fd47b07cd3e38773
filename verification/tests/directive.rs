use macro_passes::directive::{
    attr_builder_value, attribute_effect, fold_effects, read_assignment, read_effects, Assignment,
    Directive, Effect,
};
use macro_passes::syntax::{Attribute, Diagnostic, Meta, Path, PathArguments, PathSegment, Span};

fn ident_path(name: &str) -> Path {
    Path {
        leading_colon: false,
        segments: vec![PathSegment { ident: name.to_string(), arguments: PathArguments::Absent }],
    }
}

fn list(name: &str, tokens: &str, span: usize) -> Attribute {
    Attribute { path: ident_path(name), meta: Meta::List(tokens.to_string()), span: Span(span) }
}

fn rejected(span: usize) -> Diagnostic {
    Diagnostic { message: "expected directive(each = \"...\")".to_string(), span: Span(span) }
}

fn setter(name: &str) -> Option<Directive> {
    Some(Directive::RepeatedSetter(name.to_string()))
}

#[test]
fn each_with_a_name_is_accepted() {
    let attrs = vec![list("directive", "each = \"x\"", 1)];
    assert_eq!(attr_builder_value(&attrs), Ok(setter("x")));
}

#[test]
fn other_key_is_rejected_with_the_exact_message() {
    let attrs = vec![list("directive", "foo = \"x\"", 4)];
    let result = attr_builder_value(&attrs);
    assert_eq!(result, Err(rejected(4)));
    assert_eq!(result.unwrap_err().message, "expected directive(each = \"...\")");
}

#[test]
fn no_attribute_is_no_directive() {
    assert_eq!(attr_builder_value(&Vec::new()), Ok(None));
}

#[test]
fn attribute_of_another_name_is_ignored() {
    let attrs = vec![list("serde", "foo = \"x\"", 1), list("builder", "each = \"x\"", 2)];
    assert_eq!(attr_builder_value(&attrs), Ok(None));
}

#[test]
fn attribute_without_a_list_is_ignored() {
    let attrs = vec![
        Attribute { path: ident_path("directive"), meta: Meta::Path, span: Span(1) },
        Attribute { path: ident_path("directive"), meta: Meta::NameValue, span: Span(2) },
    ];
    assert_eq!(attr_builder_value(&attrs), Ok(None));
}

#[test]
fn longer_path_is_not_the_directive() {
    let path = Path {
        leading_colon: false,
        segments: vec![
            PathSegment { ident: "builder".to_string(), arguments: PathArguments::Absent },
            PathSegment { ident: "directive".to_string(), arguments: PathArguments::Absent },
        ],
    };
    let attrs =
        vec![Attribute { path, meta: Meta::List("foo = \"x\"".to_string()), span: Span(1) }];
    assert_eq!(attr_builder_value(&attrs), Ok(None));
}

#[test]
fn last_directive_wins() {
    let attrs = vec![list("directive", "each = \"first\"", 1), list("directive", "each = \"second\"", 2)];
    assert_eq!(attr_builder_value(&attrs), Ok(setter("second")));
}

#[test]
fn first_rejected_directive_ends_the_reading() {
    let attrs = vec![
        list("directive", "each = \"a\"", 1),
        list("directive", "bar = \"b\"", 2),
        list("directive", "baz = \"c\"", 3),
        list("directive", "each = \"d\"", 4),
    ];
    assert_eq!(attr_builder_value(&attrs), Err(rejected(2)));
}

#[test]
fn each_with_a_value_that_is_no_string_does_nothing() {
    assert_eq!(attr_builder_value(&vec![list("directive", "each = 5", 1)]), Ok(None));
    assert_eq!(attr_builder_value(&vec![list("directive", "each = arg", 1)]), Ok(None));
    let attrs = vec![list("directive", "each = \"kept\"", 1), list("directive", "each = 5", 2)];
    assert_eq!(attr_builder_value(&attrs), Ok(setter("kept")));
}

#[test]
fn other_key_is_rejected_whatever_its_value() {
    assert_eq!(attr_builder_value(&vec![list("directive", "eac = 5", 9)]), Err(rejected(9)));
}

#[test]
fn tokens_that_are_no_assignment_do_nothing() {
    assert_eq!(attr_builder_value(&vec![list("directive", "", 1)]), Ok(None));
    assert_eq!(attr_builder_value(&vec![list("directive", "each", 1)]), Ok(None));
    assert_eq!(attr_builder_value(&vec![list("directive", "each(\"x\")", 1)]), Ok(None));
    assert_eq!(attr_builder_value(&vec![list("directive", "each == \"x\"", 1)]), Ok(None));
    assert_eq!(attr_builder_value(&vec![list("directive", "each = ", 1)]), Ok(None));
    assert_eq!(attr_builder_value(&vec![list("directive", "each = \"x\", skip", 1)]), Ok(None));
    assert_eq!(attr_builder_value(&vec![list("directive", "= = =", 1)]), Ok(None));
}

#[test]
fn key_that_is_no_single_identifier_does_nothing() {
    assert_eq!(attr_builder_value(&vec![list("directive", "a::b = \"x\"", 1)]), Ok(None));
    assert_eq!(attr_builder_value(&vec![list("directive", "a.b = \"x\"", 1)]), Ok(None));
    assert_eq!(attr_builder_value(&vec![list("directive", "5 = \"x\"", 1)]), Ok(None));
}

#[test]
fn name_is_the_content_of_the_literal() {
    let attrs = vec![list("directive", "each = \"a\\u{62}c\"", 1)];
    assert_eq!(attr_builder_value(&attrs), Ok(setter("abc")));
    let raw = vec![list("directive", "each = r#\"arg\"#", 1)];
    assert_eq!(attr_builder_value(&raw), Ok(setter("arg")));
}

#[test]
fn spacing_of_the_tokens_does_not_matter() {
    assert_eq!(attr_builder_value(&vec![list("directive", "each=\"x\"", 1)]), Ok(setter("x")));
    assert_eq!(attr_builder_value(&vec![list("directive", "  each  =  \"x\"  ", 1)]), Ok(setter("x")));
}

#[test]
fn reading_of_an_assignment_decides_the_effect() {
    let of = |key: Option<&str>, value: Option<&str>| {
        read_assignment(Some(Assignment {
            key: key.map(|k| k.to_string()),
            value: value.map(|v| v.to_string()),
        }))
    };
    assert_eq!(of(Some("each"), Some("x")), Effect::Name("x".to_string()));
    assert_eq!(of(Some("each"), None), Effect::Keep);
    assert_eq!(of(Some("foo"), Some("x")), Effect::Reject);
    assert_eq!(of(Some("foo"), None), Effect::Reject);
    assert_eq!(of(Some("Each"), Some("x")), Effect::Reject);
    assert_eq!(of(None, Some("x")), Effect::Keep);
    assert_eq!(of(None, None), Effect::Keep);
    assert_eq!(read_assignment(None), Effect::Keep);
}

#[test]
fn effect_of_one_attribute() {
    assert_eq!(attribute_effect(&list("directive", "each = \"x\"", 1)), Effect::Name("x".to_string()));
    assert_eq!(attribute_effect(&list("directive", "other = \"x\"", 1)), Effect::Reject);
    assert_eq!(attribute_effect(&list("directive", "each", 1)), Effect::Keep);
    assert_eq!(attribute_effect(&list("other", "other = \"x\"", 1)), Effect::Keep);
}

#[test]
fn fold_of_no_effects_is_no_directive() {
    assert_eq!(fold_effects(Vec::new()), Ok(None));
    assert_eq!(fold_effects(vec![(Span(1), Effect::Keep), (Span(2), Effect::Keep)]), Ok(None));
}

#[test]
fn fold_keeps_the_last_name() {
    let readings = vec![
        (Span(1), Effect::Name("a".to_string())),
        (Span(2), Effect::Keep),
        (Span(3), Effect::Name("b".to_string())),
        (Span(4), Effect::Keep),
    ];
    assert_eq!(fold_effects(readings), Ok(setter("b")));
}

#[test]
fn fold_ends_at_the_first_rejected_effect() {
    let readings = vec![
        (Span(1), Effect::Name("a".to_string())),
        (Span(2), Effect::Reject),
        (Span(3), Effect::Reject),
        (Span(4), Effect::Name("b".to_string())),
    ];
    assert_eq!(fold_effects(readings), Err(rejected(2)));
}

#[test]
fn effects_are_read_attribute_by_attribute() {
    let attrs = vec![
        list("directive", "each = \"x\"", 5),
        list("serde", "each = \"y\"", 6),
        list("directive", "other = \"z\"", 7),
        Attribute { path: ident_path("directive"), meta: Meta::Path, span: Span(8) },
    ];
    assert_eq!(
        read_effects(&attrs),
        vec![
            (Span(5), Effect::Name("x".to_string())),
            (Span(6), Effect::Keep),
            (Span(7), Effect::Reject),
            (Span(8), Effect::Keep),
        ]
    );
}
