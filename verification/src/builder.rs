//! The builder synthesizer: from the declaration of a record to the plan of
//! its builder type.

use vstd::prelude::*;
use vstd::string::*;
use crate::directive::{
    attr_builder_value, is_directive_list, lemma_possible, outcome_view, possible, Directive, DirectiveView, Outcome,
    OutcomeView,
};
use crate::syntax::{
    diagnostic_view, Data, DeriveInput, Diagnostic, DiagnosticView, Field, Fields, Type,
};
use crate::wrapper::{inner_type, wrapped, wrapper_match, WrapperKind};

verus! {

/// How the builder sets one field.
#[derive(Clone, Debug, PartialEq, Eq)]
pub enum Policy {
    /// The setter takes a value of the declared type and stores it in place
    /// of what was stored.
    Direct,
    /// The field is optional. The setter takes a value of the wrapped type
    /// and stores it as present, in place of what was stored.
    DirectIntoOptional,
    /// The field is a sequence. The setter of the given name takes one
    /// element and appends it to what is stored.
    AppendToSequence(String),
}

pub enum PolicyView {
    Direct,
    DirectIntoOptional,
    AppendToSequence(Seq<char>),
}

impl View for Policy {
    type V = PolicyView;

    open spec fn view(&self) -> PolicyView {
        match *self {
            Policy::Direct => PolicyView::Direct,
            Policy::DirectIntoOptional => PolicyView::DirectIntoOptional,
            Policy::AppendToSequence(name) => PolicyView::AppendToSequence(name@),
        }
    }
}

/// A record with named fields, as the synthesizer reads it.
pub struct TypeSchema<'a> {
    pub name: &'a String,
    pub fields: &'a Vec<Field>,
}

/// The part of the builder that belongs to one field: the member that
/// holds the value, of the declared type of the field, and the setter.
pub struct FieldPlan<'a> {
    pub field: &'a Field,
    pub policy: Policy,
    /// The type of the value that the setter takes.
    pub parameter: &'a Type,
}

pub struct FieldPlanView {
    pub field: Field,
    pub policy: PolicyView,
    pub parameter: Type,
}

impl<'a> View for FieldPlan<'a> {
    type V = FieldPlanView;

    open spec fn view(&self) -> FieldPlanView {
        FieldPlanView { field: *self.field, policy: self.policy@, parameter: *self.parameter }
    }
}

/// The builder of a record: its name, one part per field in the order of
/// the declaration, and the diagnostic to emit beside it, if any.
pub struct BuilderPlan<'a> {
    /// The name of the record.
    pub target: &'a String,
    /// The name of the builder type.
    pub builder: String,
    pub fields: Vec<FieldPlan<'a>>,
    pub diagnostic: Option<Diagnostic>,
}

pub struct BuilderPlanView {
    pub target: Seq<char>,
    pub builder: Seq<char>,
    pub fields: Seq<FieldPlanView>,
    pub diagnostic: Option<DiagnosticView>,
}

impl<'a> View for BuilderPlan<'a> {
    type V = BuilderPlanView;

    open spec fn view(&self) -> BuilderPlanView {
        BuilderPlanView {
            target: self.target@,
            builder: self.builder@,
            fields: Seq::new(self.fields@.len(), |k: int| self.fields@[k]@),
            diagnostic: diagnostic_view(self.diagnostic),
        }
    }
}

impl FieldPlanView {
    /// The name of the setter: that of the directive for a sequence filled
    /// element by element, that of the field otherwise.
    pub open spec fn setter(self) -> Seq<char> {
        match self.policy {
            PolicyView::AppendToSequence(name) => name,
            _ => self.field.ident@,
        }
    }
}

impl<'a> FieldPlan<'a> {
    /// The name of the setter.
    pub fn setter(&self) -> (r: &String)
        ensures
            r@ == self@.setter(),
    {
        match &self.policy {
            Policy::AppendToSequence(name) => name,
            _ => &self.field.ident,
        }
    }
}

impl DeriveInput {
    /// The fields of the declaration, if it declares a record with named
    /// fields.
    pub open spec fn named_fields(self) -> Option<Seq<Field>> {
        match self.data {
            Data::Struct(Fields::Named(fields)) => Some(fields@),
            _ => None,
        }
    }
}

/// Reads the declaration of a record with named fields. Any other
/// declaration has no schema.
pub fn schema<'a>(ast: &'a DeriveInput) -> (r: Option<TypeSchema<'a>>)
    ensures
        match r {
            Some(s) => s.name == ast.ident && ast.named_fields() == Some(s.fields@),
            None => ast.named_fields() is None,
        },
{
    match &ast.data {
        Data::Struct(Fields::Named(fields)) => Some(TypeSchema { name: &ast.ident, fields }),
        _ => None,
    }
}

/// The policy of a field whose attributes read as `outcome`. An optional
/// field is set directly into the optional, whatever its attributes say.
/// Otherwise a directive that names a repeated setter makes a sequence
/// field one that is appended to. Every other field is set directly: a
/// field whose directive is rejected, and one whose directive names a
/// repeated setter though it is no sequence.
pub open spec fn policy(field: Field, outcome: OutcomeView) -> PolicyView {
    if wrapped(WrapperKind::OptionalValue.head(), field.ty) is Some {
        PolicyView::DirectIntoOptional
    } else {
        match outcome {
            Ok(Some(DirectiveView::RepeatedSetter(name))) => {
                if wrapped(WrapperKind::Sequence.head(), field.ty) is Some {
                    PolicyView::AppendToSequence(name)
                } else {
                    PolicyView::Direct
                }
            },
            _ => PolicyView::Direct,
        }
    }
}

/// The type of the value that the setter of a field takes: the wrapped
/// type for an optional field and for a sequence that is appended to, the
/// declared type otherwise.
pub open spec fn parameter(field: Field, outcome: OutcomeView) -> Type {
    match policy(field, outcome) {
        PolicyView::Direct => field.ty,
        PolicyView::DirectIntoOptional => wrapped(WrapperKind::OptionalValue.head(), field.ty)->0,
        PolicyView::AppendToSequence(_) => wrapped(WrapperKind::Sequence.head(), field.ty)->0,
    }
}

/// The part of the builder that belongs to `field`.
pub open spec fn field_plan(field: Field, outcome: OutcomeView) -> FieldPlanView {
    FieldPlanView { field, policy: policy(field, outcome), parameter: parameter(field, outcome) }
}

/// The diagnostic that a field gives rise to: that of its directive,
/// which counts only where the field is not optional.
pub open spec fn field_diagnostic(field: Field, outcome: OutcomeView) -> Option<DiagnosticView> {
    if wrapped(WrapperKind::OptionalValue.head(), field.ty) is Some {
        None
    } else {
        match outcome {
            Ok(_) => None,
            Err(d) => Some(d),
        }
    }
}

/// The diagnostic of the first of the first `k` fields, in the order of
/// the declaration, that gives rise to one.
pub open spec fn first_diagnostic(fields: Seq<Field>, outcomes: Seq<OutcomeView>, k: nat) -> Option<
    DiagnosticView,
>
    decreases k,
{
    if k == 0 {
        None
    } else {
        match first_diagnostic(fields, outcomes, (k - 1) as nat) {
            Some(d) => Some(d),
            None => field_diagnostic(fields[k - 1], outcomes[k - 1]),
        }
    }
}

/// The name without the mark of a raw identifier: `type` for `r#type`.
pub open spec fn plain_name(name: Seq<char>) -> Seq<char> {
    if name.len() >= 2 && name[0] == 'r' && name[1] == '#' {
        name.skip(2)
    } else {
        name
    }
}

/// The name of the builder of a record: the plain name of the record with
/// `Builder` appended.
pub open spec fn builder_name(name: Seq<char>) -> Seq<char> {
    plain_name(name) + "Builder"@
}

/// The plan of the builder for a record with the given name and fields,
/// where the attributes of the fields read as `outcomes`, field by field.
pub open spec fn builder_plan(
    name: Seq<char>,
    fields: Seq<Field>,
    outcomes: Seq<OutcomeView>,
) -> BuilderPlanView {
    BuilderPlanView {
        target: name,
        builder: builder_name(name),
        fields: Seq::new(fields.len(), |k: int| field_plan(fields[k], outcomes[k])),
        diagnostic: first_diagnostic(fields, outcomes, fields.len()),
    }
}

/// `plan` is a plan of the builder for the record: the plan for some
/// reading of the attributes of every field that is possible for them.
pub open spec fn planned(name: Seq<char>, fields: Seq<Field>, plan: BuilderPlanView) -> bool {
    exists|outcomes: Seq<OutcomeView>|
        {
            &&& outcomes.len() == fields.len()
            &&& forall|k: int|
                0 <= k < fields.len() ==> possible(fields[k].attrs@, #[trigger] outcomes[k])
            &&& plan == #[trigger] builder_plan(name, fields, outcomes)
        }
}

/// Computes the name of the builder of a record.
pub fn name_builder(name: &String) -> (r: String)
    ensures
        r@ == builder_name(name@),
{
    let text = name.as_str();
    let n = text.unicode_len();
    let mut builder = if n >= 2 && text.get_char(0) == 'r' && text.get_char(1) == '#' {
        text.substring_char(2, n).to_owned()
    } else {
        name.clone()
    };
    proof {
        assert(name@.subrange(2, n as int) =~= name@.skip(2));
    }
    builder.append("Builder");
    builder
}

/// Resolves the policy of one field from what its attributes read as.
pub fn plan_field_from<'a>(field: &'a Field, outcome: Outcome) -> (r: (
    FieldPlan<'a>,
    Option<Diagnostic>,
))
    ensures
        r.0@ == field_plan(*field, outcome_view(outcome)),
        diagnostic_view(r.1) == field_diagnostic(*field, outcome_view(outcome)),
{
    if let Some(found) = wrapper_match(WrapperKind::OptionalValue, &field.ty) {
        return (
            FieldPlan { field, policy: Policy::DirectIntoOptional, parameter: found.inner },
            None,
        );
    }
    match outcome {
        Ok(Some(Directive::RepeatedSetter(name))) => {
            if let Some(found) = wrapper_match(WrapperKind::Sequence, &field.ty) {
                (
                    FieldPlan {
                        field,
                        policy: Policy::AppendToSequence(name),
                        parameter: found.inner,
                    },
                    None,
                )
            } else {
                (FieldPlan { field, policy: Policy::Direct, parameter: &field.ty }, None)
            }
        },
        Ok(None) => (FieldPlan { field, policy: Policy::Direct, parameter: &field.ty }, None),
        Err(d) => (FieldPlan { field, policy: Policy::Direct, parameter: &field.ty }, Some(d)),
    }
}

/// Resolves the policy of one field. The attributes of an optional field
/// are not read. What the attributes of another field read as is the
/// parser's to say: the result is the plan for a reading that is possible
/// for them, and [`plan_field_from`] says which plan that is.
pub fn plan_field<'a>(field: &'a Field) -> (r: (FieldPlan<'a>, Option<Diagnostic>))
    ensures
        exists|outcome: OutcomeView|
            {
                &&& possible(field.attrs@, outcome)
                &&& r.0@ == #[trigger] field_plan(*field, outcome)
                &&& diagnostic_view(r.1) == field_diagnostic(*field, outcome)
            },
{
    if inner_type(WrapperKind::OptionalValue.name(), &field.ty).is_some() {
        proof {
            lemma_possible(field.attrs@);
        }
        let r = plan_field_from(field, Ok(None));
        proof {
            assert(r.0@ == field_plan(*field, Ok(None)));
        }
        r
    } else {
        let outcome = attr_builder_value(&field.attrs);
        let r = plan_field_from(field, outcome);
        proof {
            assert(r.0@ == field_plan(*field, outcome_view(outcome)));
        }
        r
    }
}

/// Plans the builder of a record: a type named after the record with
/// `Builder` appended, and for every field, in order, a member and a setter
/// according to the policy of the field. The diagnostic is that of the
/// first field that gives rise to one.
pub fn impl_builder<'a>(schema: &TypeSchema<'a>) -> (plan: BuilderPlan<'a>)
    ensures
        planned(schema.name@, schema.fields@, plan@),
        plan@.target == schema.name@,
        plan@.builder == builder_name(schema.name@),
        plan@.fields.len() == schema.fields@.len(),
        forall|k: int|
            0 <= k < schema.fields@.len() ==> (#[trigger] plan@.fields[k]).field
                == schema.fields@[k],
{
    let builder = name_builder(schema.name);
    let mut fields: Vec<FieldPlan<'a>> = Vec::new();
    let mut diagnostic: Option<Diagnostic> = None;
    let ghost mut outcomes: Seq<OutcomeView> = Seq::empty();
    let n = schema.fields.len();
    let mut i: usize = 0;
    while i < n
        invariant
            n == schema.fields.len(),
            i <= n,
            fields.len() == i,
            outcomes.len() == i,
            forall|k: int|
                0 <= k < i ==> possible(schema.fields@[k].attrs@, #[trigger] outcomes[k]),
            forall|k: int|
                0 <= k < i ==> (#[trigger] fields@[k])@ == field_plan(
                    schema.fields@[k],
                    outcomes[k],
                ),
            diagnostic_view(diagnostic) == first_diagnostic(schema.fields@, outcomes, i as nat),
        decreases n - i,
    {
        let (part, found) = plan_field(&schema.fields[i]);
        proof {
            let field = schema.fields@[i as int];
            let outcome = choose|outcome: OutcomeView|
                {
                    &&& possible(field.attrs@, outcome)
                    &&& part@ == #[trigger] field_plan(field, outcome)
                    &&& diagnostic_view(found) == field_diagnostic(field, outcome)
                };
            let longer = outcomes.push(outcome);
            lemma_first_diagnostic_of_equal(schema.fields@, outcomes, longer, i as nat);
            outcomes = longer;
        }
        fields.push(part);
        if diagnostic.is_none() {
            diagnostic = found;
        }
        i = i + 1;
    }
    let plan = BuilderPlan { target: schema.name, builder, fields, diagnostic };
    proof {
        assert(plan@.fields =~= builder_plan(schema.name@, schema.fields@, outcomes).fields);
        assert(plan@ == builder_plan(schema.name@, schema.fields@, outcomes));
    }
    plan
}

/// The first diagnostic of the first `k` fields depends on what the
/// attributes of these fields read as, and on nothing else.
pub proof fn lemma_first_diagnostic_of_equal(
    fields: Seq<Field>,
    a: Seq<OutcomeView>,
    b: Seq<OutcomeView>,
    k: nat,
)
    requires
        k <= a.len(),
        k <= b.len(),
        forall|i: int| 0 <= i < k ==> a[i] == b[i],
    ensures
        first_diagnostic(fields, a, k) == first_diagnostic(fields, b, k),
    decreases k,
{
    if k > 0 {
        lemma_first_diagnostic_of_equal(fields, a, b, (k - 1) as nat);
    }
}

/// The plan of a field does not hang on the parser where the field is
/// optional or none of its attributes is a directive with a list: then
/// every plan of the builder holds for that field the plan for attributes
/// that state nothing.
pub proof fn law_planned_field(name: Seq<char>, fields: Seq<Field>, plan: BuilderPlanView, k: int)
    requires
        planned(name, fields, plan),
        0 <= k < fields.len(),
        wrapped(WrapperKind::OptionalValue.head(), fields[k].ty) is Some || forall|j: int|
            0 <= j < fields[k].attrs@.len() ==> !is_directive_list(#[trigger] fields[k].attrs@[j]),
    ensures
        plan.fields[k] == field_plan(fields[k], Ok(None)),
{
    let outcomes = choose|outcomes: Seq<OutcomeView>|
        {
            &&& outcomes.len() == fields.len()
            &&& forall|k: int|
                0 <= k < fields.len() ==> possible(fields[k].attrs@, #[trigger] outcomes[k])
            &&& plan == #[trigger] builder_plan(name, fields, outcomes)
        };
    assert(possible(fields[k].attrs@, outcomes[k]));
    lemma_possible(fields[k].attrs@);
}

/// A record whose fields are all optional or without a directive with a
/// list has exactly one plan, and that plan carries no diagnostic.
pub proof fn law_planned_without_directives(name: Seq<char>, fields: Seq<Field>, plan: BuilderPlanView)
    requires
        planned(name, fields, plan),
        forall|k: int|
            0 <= k < fields.len() ==> wrapped(
                WrapperKind::OptionalValue.head(),
                (#[trigger] fields[k]).ty,
            ) is Some || forall|j: int|
                0 <= j < fields[k].attrs@.len() ==> !is_directive_list(
                    #[trigger] fields[k].attrs@[j],
                ),
    ensures
        plan == builder_plan(
            name,
            fields,
            Seq::new(fields.len(), |k: int| Ok::<Option<DirectiveView>, DiagnosticView>(None)),
        ),
        plan.diagnostic is None,
{
    let quiet = Seq::new(fields.len(), |k: int| Ok::<Option<DirectiveView>, DiagnosticView>(None));
    let outcomes = choose|outcomes: Seq<OutcomeView>|
        {
            &&& outcomes.len() == fields.len()
            &&& forall|k: int|
                0 <= k < fields.len() ==> possible(fields[k].attrs@, #[trigger] outcomes[k])
            &&& plan == #[trigger] builder_plan(name, fields, outcomes)
        };
    assert forall|k: int| 0 <= k < fields.len() implies field_plan(fields[k], outcomes[k])
        == field_plan(fields[k], quiet[k]) && field_diagnostic(fields[k], outcomes[k]) is None
        && field_diagnostic(fields[k], quiet[k]) is None by {
        assert(possible(fields[k].attrs@, outcomes[k]));
        lemma_possible(fields[k].attrs@);
    }
    lemma_no_diagnostic(fields, outcomes, fields.len());
    lemma_no_diagnostic(fields, quiet, fields.len());
    assert(plan.fields =~= builder_plan(name, fields, quiet).fields);
}

/// Fields that give rise to no diagnostic have no first diagnostic.
pub proof fn lemma_no_diagnostic(fields: Seq<Field>, outcomes: Seq<OutcomeView>, k: nat)
    requires
        k <= fields.len(),
        forall|i: int| 0 <= i < k ==> field_diagnostic(fields[i], outcomes[i]) is None,
    ensures
        first_diagnostic(fields, outcomes, k) is None,
    decreases k,
{
    if k > 0 {
        lemma_no_diagnostic(fields, outcomes, (k - 1) as nat);
    }
}

/// Plans the builder for a declaration, if it declares a record with named
/// fields. For any other declaration there is nothing to generate and
/// nothing to report.
pub fn derive<'a>(input: &'a DeriveInput) -> (r: Option<BuilderPlan<'a>>)
    ensures
        match r {
            Some(plan) => input.named_fields() is Some && planned(
                input.ident@,
                input.named_fields()->0,
                plan@,
            ) && plan@.target == input.ident@ && plan@.builder == builder_name(input.ident@)
                && plan@.fields.len() == input.named_fields()->0.len(),
            None => input.named_fields() is None,
        },
{
    match schema(input) {
        Some(schema) => Some(impl_builder(&schema)),
        None => None,
    }
}

} // verus!
