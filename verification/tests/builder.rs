use macro_passes::builder::{
    impl_builder, name_builder, plan_field, plan_field_from, schema, Policy, TypeSchema,
};
use macro_passes::directive::Directive;
use macro_passes::syntax::{
    Attribute, Data, DeriveInput, Diagnostic, Field, Fields, GenericArgument, Meta, Path,
    PathArguments, PathSegment, Span, Type, TypeKind,
};

fn ident_path(name: &str) -> Path {
    Path {
        leading_colon: false,
        segments: vec![PathSegment { ident: name.to_string(), arguments: PathArguments::Absent }],
    }
}

fn plain(span: usize, name: &str) -> Type {
    Type { span: Span(span), kind: TypeKind::Path(ident_path(name)) }
}

fn generic(span: usize, name: &str, inner: Type) -> Type {
    let arguments = PathArguments::AngleBracketed(vec![GenericArgument::Type(inner)]);
    let segments = vec![PathSegment { ident: name.to_string(), arguments }];
    Type { span: Span(span), kind: TypeKind::Path(Path { leading_colon: false, segments }) }
}

fn directive(tokens: &str, span: usize) -> Attribute {
    Attribute {
        path: ident_path("directive"),
        meta: Meta::List(tokens.to_string()),
        span: Span(span),
    }
}

fn field(name: &str, ty: Type, attrs: Vec<Attribute>) -> Field {
    Field { attrs, ident: name.to_string(), ty }
}

fn record(name: &str, fields: Vec<Field>) -> DeriveInput {
    DeriveInput { ident: name.to_string(), data: Data::Struct(Fields::Named(fields)) }
}

fn command() -> DeriveInput {
    record(
        "Command",
        vec![
            field("executable", plain(1, "String"), vec![]),
            field("args", generic(2, "Vec", plain(3, "String")), vec![directive("each = \"arg\"", 4)]),
            field("env", generic(5, "Vec", plain(6, "String")), vec![]),
            field("current_dir", generic(7, "Option", plain(8, "String")), vec![]),
        ],
    )
}

#[test]
fn builder_is_named_after_the_record() {
    let input = command();
    let plan = macro_passes::builder::derive(&input).unwrap();
    assert_eq!(plan.target, "Command");
    assert_eq!(plan.builder, "CommandBuilder");
}

#[test]
fn every_field_gets_one_policy_in_order() {
    let input = command();
    let plan = macro_passes::builder::derive(&input).unwrap();
    let policies: Vec<Policy> = plan.fields.iter().map(|part| part.policy.clone()).collect();
    assert_eq!(
        policies,
        vec![
            Policy::Direct,
            Policy::AppendToSequence("arg".to_string()),
            Policy::Direct,
            Policy::DirectIntoOptional,
        ]
    );
    let names: Vec<&str> = plan.fields.iter().map(|part| part.field.ident.as_str()).collect();
    assert_eq!(names, vec!["executable", "args", "env", "current_dir"]);
    assert_eq!(plan.diagnostic, None);
}

#[test]
fn setters_are_named_after_field_or_directive() {
    let input = command();
    let plan = macro_passes::builder::derive(&input).unwrap();
    let setters: Vec<&str> = plan.fields.iter().map(|part| part.setter().as_str()).collect();
    assert_eq!(setters, vec!["executable", "arg", "env", "current_dir"]);
}

#[test]
fn setters_take_the_declared_or_the_wrapped_type() {
    let input = command();
    let plan = macro_passes::builder::derive(&input).unwrap();
    assert_eq!(plan.fields[0].parameter, &plain(1, "String"));
    assert_eq!(plan.fields[1].parameter, &plain(3, "String"));
    assert_eq!(plan.fields[2].parameter, &generic(5, "Vec", plain(6, "String")));
    assert_eq!(plan.fields[3].parameter, &plain(8, "String"));
}

#[test]
fn members_have_the_declared_type() {
    let input = command();
    let plan = macro_passes::builder::derive(&input).unwrap();
    assert_eq!(plan.fields[1].field.ty, generic(2, "Vec", plain(3, "String")));
    assert_eq!(plan.fields[3].field.ty, generic(7, "Option", plain(8, "String")));
}

#[test]
fn record_without_fields_has_an_empty_builder() {
    let input = record("Unit", vec![]);
    let plan = macro_passes::builder::derive(&input).unwrap();
    assert_eq!(plan.builder, "UnitBuilder");
    assert!(plan.fields.is_empty());
    assert_eq!(plan.diagnostic, None);
}

#[test]
fn other_declarations_have_no_builder() {
    for data in [
        Data::Enum,
        Data::Union,
        Data::Struct(Fields::Unnamed),
        Data::Struct(Fields::Unit),
    ] {
        let input = DeriveInput { ident: "T".to_string(), data };
        assert!(schema(&input).is_none());
        assert!(macro_passes::builder::derive(&input).is_none());
    }
}

#[test]
fn schema_holds_name_and_fields() {
    let input = command();
    let found = schema(&input).unwrap();
    assert_eq!(found.name, "Command");
    assert_eq!(found.fields.len(), 4);
    assert_eq!(found.fields[1].ident, "args");
}

#[test]
fn rejected_directive_is_reported_beside_the_plan() {
    let input = record(
        "Command",
        vec![
            field("executable", plain(1, "String"), vec![]),
            field("args", generic(2, "Vec", plain(3, "String")), vec![directive("eac = \"arg\"", 4)]),
            field("env", generic(5, "Vec", plain(6, "String")), vec![directive("each = \"env\"", 7)]),
        ],
    );
    let plan = macro_passes::builder::derive(&input).unwrap();
    assert_eq!(
        plan.diagnostic,
        Some(Diagnostic { message: "expected directive(each = \"...\")".to_string(), span: Span(4) })
    );
    let policies: Vec<Policy> = plan.fields.iter().map(|part| part.policy.clone()).collect();
    assert_eq!(
        policies,
        vec![Policy::Direct, Policy::Direct, Policy::AppendToSequence("env".to_string())]
    );
}

#[test]
fn first_rejected_field_is_the_one_reported() {
    let input = record(
        "R",
        vec![
            field("a", plain(1, "u8"), vec![directive("x = \"a\"", 2)]),
            field("b", plain(3, "u8"), vec![directive("y = \"b\"", 4)]),
        ],
    );
    let plan = macro_passes::builder::derive(&input).unwrap();
    assert_eq!(plan.diagnostic.unwrap().span, Span(2));
}

#[test]
fn optional_field_ignores_its_directive() {
    let good = field("a", generic(1, "Option", plain(2, "u8")), vec![directive("each = \"x\"", 3)]);
    let (part, found) = plan_field(&good);
    assert_eq!(part.policy, Policy::DirectIntoOptional);
    assert_eq!(part.parameter, &plain(2, "u8"));
    assert_eq!(part.setter(), "a");
    assert_eq!(found, None);
    let bad = field("a", generic(1, "Option", plain(2, "u8")), vec![directive("foo = \"x\"", 3)]);
    let (part, found) = plan_field(&bad);
    assert_eq!(part.policy, Policy::DirectIntoOptional);
    assert_eq!(found, None);
}

#[test]
fn repeated_setter_on_a_field_that_is_no_sequence_sets_directly() {
    let f = field("a", plain(1, "String"), vec![directive("each = \"x\"", 2)]);
    let (part, found) = plan_field(&f);
    assert_eq!(part.policy, Policy::Direct);
    assert_eq!(part.parameter, &plain(1, "String"));
    assert_eq!(part.setter(), "a");
    assert_eq!(found, None);
}

#[test]
fn sequence_of_optionals_is_appended_to() {
    let ty = generic(1, "Vec", generic(2, "Option", plain(3, "u8")));
    let f = field("items", ty, vec![directive("each = \"item\"", 4)]);
    let (part, _) = plan_field(&f);
    assert_eq!(part.policy, Policy::AppendToSequence("item".to_string()));
    assert_eq!(part.parameter, &generic(2, "Option", plain(3, "u8")));
}

#[test]
fn optional_sequence_is_optional() {
    let ty = generic(1, "Option", generic(2, "Vec", plain(3, "u8")));
    let f = field("items", ty, vec![directive("each = \"item\"", 4)]);
    let (part, _) = plan_field(&f);
    assert_eq!(part.policy, Policy::DirectIntoOptional);
    assert_eq!(part.parameter, &generic(2, "Vec", plain(3, "u8")));
}

#[test]
fn setter_may_carry_the_name_of_the_field() {
    let f = field("env", generic(1, "Vec", plain(2, "String")), vec![directive("each = \"env\"", 3)]);
    let (part, _) = plan_field(&f);
    assert_eq!(part.policy, Policy::AppendToSequence("env".to_string()));
    assert_eq!(part.setter(), "env");
}

#[test]
fn synthesis_from_a_schema_agrees_with_the_entry_point() {
    let input = command();
    let fields = match &input.data {
        Data::Struct(Fields::Named(fields)) => fields,
        _ => unreachable!(),
    };
    let plan = impl_builder(&TypeSchema { name: &input.ident, fields });
    let through = macro_passes::builder::derive(&input).unwrap();
    assert_eq!(plan.builder, through.builder);
    assert_eq!(plan.fields.len(), through.fields.len());
    for (a, b) in plan.fields.iter().zip(through.fields.iter()) {
        assert_eq!(a.policy, b.policy);
        assert_eq!(a.parameter, b.parameter);
    }
}

#[test]
fn builder_of_a_raw_name_is_no_raw_name() {
    assert_eq!(name_builder(&"r#type".to_string()), "typeBuilder");
    assert_eq!(name_builder(&"Command".to_string()), "CommandBuilder");
    assert_eq!(name_builder(&"r".to_string()), "rBuilder");
    assert_eq!(name_builder(&"ra".to_string()), "raBuilder");
    assert_eq!(name_builder(&"r#\u{e9}t\u{e9}".to_string()), "\u{e9}t\u{e9}Builder");
    let input = record("r#struct", vec![field("a", plain(1, "u8"), vec![])]);
    let plan = macro_passes::builder::derive(&input).unwrap();
    assert_eq!(plan.target, "r#struct");
    assert_eq!(plan.builder, "structBuilder");
}

#[test]
fn plan_of_a_field_follows_what_its_attributes_read_as() {
    let sequence = field("args", generic(1, "Vec", plain(2, "String")), vec![]);
    let direct = field("name", plain(3, "String"), vec![]);
    let optional = field("dir", generic(4, "Option", plain(5, "String")), vec![]);
    let named = || Ok(Some(Directive::RepeatedSetter("arg".to_string())));
    let rejected = || Err(Diagnostic { message: "m".to_string(), span: Span(9) });

    let (part, found) = plan_field_from(&sequence, named());
    assert_eq!(part.policy, Policy::AppendToSequence("arg".to_string()));
    assert_eq!(part.parameter, &plain(2, "String"));
    assert_eq!(found, None);
    let (part, found) = plan_field_from(&sequence, Ok(None));
    assert_eq!(part.policy, Policy::Direct);
    assert_eq!(part.parameter, &generic(1, "Vec", plain(2, "String")));
    assert_eq!(found, None);
    let (part, found) = plan_field_from(&sequence, rejected());
    assert_eq!(part.policy, Policy::Direct);
    assert_eq!(found, Some(Diagnostic { message: "m".to_string(), span: Span(9) }));

    let (part, found) = plan_field_from(&direct, named());
    assert_eq!(part.policy, Policy::Direct);
    assert_eq!(part.parameter, &plain(3, "String"));
    assert_eq!(found, None);

    let (part, found) = plan_field_from(&optional, named());
    assert_eq!(part.policy, Policy::DirectIntoOptional);
    assert_eq!(part.parameter, &plain(5, "String"));
    assert_eq!(found, None);
    let (part, found) = plan_field_from(&optional, rejected());
    assert_eq!(part.policy, Policy::DirectIntoOptional);
    assert_eq!(found, None);
}
