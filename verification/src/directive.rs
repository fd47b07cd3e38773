//! The directive that a field may carry: `directive(each = "name")`.

use vstd::prelude::*;
use crate::syntax::{Attribute, Diagnostic, DiagnosticView, Meta, Span};

verus! {

/// A directive on a field, which selects how the builder sets it.
#[derive(Clone, Debug, PartialEq, Eq)]
pub enum Directive {
    /// The field is a sequence, filled one element at a time by a setter of
    /// the given name.
    RepeatedSetter(String),
}

pub enum DirectiveView {
    RepeatedSetter(Seq<char>),
}

impl View for Directive {
    type V = DirectiveView;

    open spec fn view(&self) -> DirectiveView {
        match *self {
            Directive::RepeatedSetter(name) => DirectiveView::RepeatedSetter(name@),
        }
    }
}

/// The view of an optional directive.
pub open spec fn directive_view(d: Option<Directive>) -> Option<DirectiveView> {
    match d {
        Some(d) => Some(d@),
        None => None,
    }
}

/// The two sides of an assignment `key = value`: the key if it is a single
/// identifier, the value if it is a string literal, with the content of
/// the literal.
#[derive(Debug, PartialEq, Eq)]
pub struct Assignment {
    pub key: Option<String>,
    pub value: Option<String>,
}

pub struct AssignmentView {
    pub key: Option<Seq<char>>,
    pub value: Option<Seq<char>>,
}

impl View for Assignment {
    type V = AssignmentView;

    open spec fn view(&self) -> AssignmentView {
        AssignmentView {
            key: match self.key {
                Some(k) => Some(k@),
                None => None,
            },
            value: match self.value {
                Some(v) => Some(v@),
                None => None,
            },
        }
    }
}

/// The view of an optional assignment.
pub open spec fn assignment_view(a: Option<Assignment>) -> Option<AssignmentView> {
    match a {
        Some(a) => Some(a@),
        None => None,
    }
}

/// Parses `tokens` with `syn::parse_str` as a `syn::Expr` and hands out the
/// sides of an assignment: the left one where it is a path of a single
/// identifier (`syn::Path::get_ident`), the right one where it is a string
/// literal (`syn::LitStr::value`). The result is `None` where the text is
/// no expression or the expression is no assignment. Nothing is claimed of
/// what the parser reads: how the text is split into tokens is the
/// business of the process that runs it.
#[verifier::external_body]
fn parse_assignment(tokens: &str) -> (r: Option<Assignment>) {
    let Ok(syn::Expr::Assign(assign)) = syn::parse_str::<syn::Expr>(tokens) else { return None };
    let key = match *assign.left {
        syn::Expr::Path(left) => match left.path.get_ident() {
            Some(ident) => Some(ident.to_string()),
            None => None,
        },
        _ => None,
    };
    let value = match *assign.right {
        syn::Expr::Lit(syn::ExprLit { lit: syn::Lit::Str(text), .. }) => Some(text.value()),
        _ => None,
    };
    Some(Assignment { key, value })
}

/// What one attribute does to the directive of its field.
#[derive(Debug, PartialEq, Eq)]
pub enum Effect {
    /// It leaves the directive as it is.
    Keep,
    /// It sets the name of the repeated setter.
    Name(String),
    /// It is rejected.
    Reject,
}

pub enum EffectView {
    Keep,
    Name(Seq<char>),
    Reject,
}

impl View for Effect {
    type V = EffectView;

    open spec fn view(&self) -> EffectView {
        match *self {
            Effect::Keep => EffectView::Keep,
            Effect::Name(name) => EffectView::Name(name@),
            Effect::Reject => EffectView::Reject,
        }
    }
}

/// The message of the diagnostic for a directive with an unknown key.
pub open spec fn unknown_key_message() -> Seq<char> {
    "expected directive(each = \"...\")"@
}

/// What a directive does whose tokens read as `assignment`. With the key
/// `each` and a string literal as the value it names the setter; with the
/// key `each` and any other value it does nothing; with any other key it is
/// rejected. Tokens that are no assignment, or whose left side is no single
/// identifier, do nothing.
pub open spec fn assignment_effect(assignment: Option<AssignmentView>) -> EffectView {
    match assignment {
        Some(AssignmentView { key: Some(key), value }) => {
            if key == "each"@ {
                match value {
                    Some(name) => EffectView::Name(name),
                    None => EffectView::Keep,
                }
            } else {
                EffectView::Reject
            }
        },
        _ => EffectView::Keep,
    }
}

/// The attribute is a directive with a list to read: it is named
/// `directive` and holds a delimited list.
pub open spec fn is_directive_list(attr: Attribute) -> bool {
    attr.path.sole_ident() == Some("directive"@) && attr.meta is List
}

/// Decides what a directive does, from what its tokens read as.
pub fn read_assignment(assignment: Option<Assignment>) -> (r: Effect)
    ensures
        r@ == assignment_effect(assignment_view(assignment)),
{
    match assignment {
        Some(Assignment { key: Some(key), value }) => {
            let each = "each".to_owned();
            if key == each {
                match value {
                    Some(name) => Effect::Name(name),
                    None => Effect::Keep,
                }
            } else {
                Effect::Reject
            }
        },
        _ => Effect::Keep,
    }
}

/// Decides what one attribute does to the directive of its field. An
/// attribute that is no directive with a list does nothing. For one that
/// is, the tokens of the list are parsed, and [`read_assignment`] decides
/// from what the parser hands back.
pub fn attribute_effect(attr: &Attribute) -> (r: Effect)
    ensures
        !is_directive_list(*attr) ==> r@ is Keep,
{
    if attr.path.is_ident("directive") {
        if let Meta::List(tokens) = &attr.meta {
            return read_assignment(parse_assignment(tokens.as_str()));
        }
    }
    Effect::Keep
}

/// What reading a list of attributes comes to.
pub type Outcome = Result<Option<Directive>, Diagnostic>;

pub type OutcomeView = Result<Option<DirectiveView>, DiagnosticView>;

/// The view of an outcome.
pub open spec fn outcome_view(r: Outcome) -> OutcomeView {
    match r {
        Ok(d) => Ok(directive_view(d)),
        Err(d) => Err(d@),
    }
}

/// The views of a list of attribute places with the effects of the
/// attributes.
pub open spec fn reading_views(readings: Seq<(Span, Effect)>) -> Seq<(Span, EffectView)> {
    Seq::new(readings.len(), |k: int| (readings[k].0, readings[k].1@))
}

/// The directive that the effects of a list of attributes come to, taken
/// from first to last, each with the place of its attribute: the first
/// rejected attribute ends the reading with a diagnostic at its place;
/// otherwise the last attribute that sets a name wins.
pub open spec fn fold(readings: Seq<(Span, EffectView)>) -> OutcomeView
    decreases readings.len(),
{
    if readings.len() == 0 {
        Ok(None)
    } else {
        match fold(readings.drop_last()) {
            Err(d) => Err(d),
            Ok(before) => match readings.last().1 {
                EffectView::Keep => Ok(before),
                EffectView::Name(name) => Ok(Some(DirectiveView::RepeatedSetter(name))),
                EffectView::Reject => Err(
                    DiagnosticView { message: unknown_key_message(), span: readings.last().0 },
                ),
            },
        }
    }
}

/// Effects that the attributes may have: one per attribute, at its place,
/// and none but `Keep` for an attribute that is no directive with a list.
pub open spec fn admissible(attrs: Seq<Attribute>, readings: Seq<(Span, EffectView)>) -> bool {
    &&& readings.len() == attrs.len()
    &&& forall|k: int|
        0 <= k < attrs.len() ==> (#[trigger] readings[k]).0 == attrs[k].span && (
        !is_directive_list(attrs[k]) ==> readings[k].1 is Keep)
}

/// An outcome that reading the attributes may come to: the fold of effects
/// that the attributes may have.
pub open spec fn possible(attrs: Seq<Attribute>, outcome: OutcomeView) -> bool {
    exists|readings: Seq<(Span, EffectView)>|
        admissible(attrs, readings) && outcome == #[trigger] fold(readings)
}

/// Once a prefix of the readings is rejected, the whole list is, with the
/// same diagnostic.
pub proof fn lemma_rejected_stays(readings: Seq<(Span, EffectView)>, i: int)
    requires
        0 <= i < readings.len(),
        fold(readings.take(i + 1)) is Err,
    ensures
        fold(readings) == fold(readings.take(i + 1)),
    decreases readings.len() - i,
{
    if i + 1 < readings.len() {
        assert(readings.take(i + 2).drop_last() =~= readings.take(i + 1));
        lemma_rejected_stays(readings, i + 1);
    } else {
        assert(readings.take(i + 1) =~= readings);
    }
}

/// What the fold comes to, read off the effects: nothing where every
/// effect is `Keep`; a diagnostic only where some effect is `Reject`, with
/// the fixed message and at the place of such an effect.
pub proof fn lemma_fold(readings: Seq<(Span, EffectView)>)
    ensures
        (forall|k: int| 0 <= k < readings.len() ==> (#[trigger] readings[k]).1 is Keep) ==> fold(
            readings,
        ) == Ok::<Option<DirectiveView>, DiagnosticView>(None),
        fold(readings) matches Err(d) ==> d.message == unknown_key_message() && exists|k: int|
            0 <= k < readings.len() && (#[trigger] readings[k]).1 is Reject && d.span
                == readings[k].0,
    decreases readings.len(),
{
    if readings.len() > 0 {
        let before = readings.drop_last();
        lemma_fold(before);
        if forall|k: int| 0 <= k < readings.len() ==> (#[trigger] readings[k]).1 is Keep {
            assert forall|k: int| 0 <= k < before.len() implies (#[trigger] before[k]).1 is Keep by {
                assert(readings[k].1 is Keep);
            }
            assert(readings[readings.len() - 1].1 is Keep);
        }
        match fold(readings) {
            Err(d) => {
                if fold(before) is Err {
                    let k = choose|k: int|
                        0 <= k < before.len() && (#[trigger] before[k]).1 is Reject && d.span
                            == before[k].0;
                    assert(readings[k] == before[k]);
                } else {
                    assert(readings[readings.len() - 1].1 is Reject);
                }
            },
            Ok(_) => {},
        }
    }
}

/// Folds the effects of a list of attributes, each with the place of its
/// attribute, into the directive that they state.
pub fn fold_effects(readings: Vec<(Span, Effect)>) -> (r: Outcome)
    ensures
        outcome_view(r) == fold(reading_views(readings@)),
{
    let ghost all = reading_views(readings@);
    let ghost mut done: int = 0;
    let mut found: Option<Directive> = None;
    for reading in it: readings
        invariant
            all == reading_views(it.seq()),
            done == it.index(),
            fold(all.take(done)) == Ok::<Option<DirectiveView>, DiagnosticView>(
                directive_view(found),
            ),
    {
        proof {
            assert(all.take(done + 1).drop_last() =~= all.take(done));
            assert(all.take(done + 1).last() == (reading.0, reading.1@));
        }
        match reading.1 {
            Effect::Keep => {},
            Effect::Name(name) => {
                found = Some(Directive::RepeatedSetter(name));
            },
            Effect::Reject => {
                let message = "expected directive(each = \"...\")".to_owned();
                proof {
                    lemma_rejected_stays(all, done);
                }
                return Err(Diagnostic { message, span: reading.0 });
            },
        }
        proof {
            done = done + 1;
        }
    }
    proof {
        assert(all.take(done) =~= all);
    }
    Ok(found)
}

/// Reads what every attribute does, in the order of the attributes.
pub fn read_effects(attrs: &Vec<Attribute>) -> (r: Vec<(Span, Effect)>)
    ensures
        admissible(attrs@, reading_views(r@)),
{
    let mut readings: Vec<(Span, Effect)> = Vec::new();
    let n = attrs.len();
    let mut i: usize = 0;
    while i < n
        invariant
            n == attrs.len(),
            i <= n,
            readings.len() == i,
            forall|k: int|
                0 <= k < i ==> (#[trigger] readings@[k]).0 == attrs@[k].span && (
                !is_directive_list(attrs@[k]) ==> readings@[k].1@ is Keep),
        decreases n - i,
    {
        let effect = attribute_effect(&attrs[i]);
        readings.push((attrs[i].span, effect));
        i = i + 1;
    }
    proof {
        let views = reading_views(readings@);
        assert forall|k: int| 0 <= k < attrs@.len() implies (#[trigger] views[k]).0
            == attrs@[k].span && (!is_directive_list(attrs@[k]) ==> views[k].1 is Keep) by {
            assert(readings@[k].0 == attrs@[k].span);
        }
    }
    readings
}

/// Reads the directive of a field from its attributes, first to last.
///
/// What the tokens of a directive read as is the parser's to say, so the
/// result is stated as far as it does not hang on that: it is the fold of
/// effects that the attributes may have. Where no attribute is a directive
/// with a list, the result is `Ok(None)`. An error carries the fixed
/// message and the place of an attribute that is a directive with a list.
/// [`read_assignment`] and [`fold_effects`] say what is returned for every
/// answer of the parser.
pub fn attr_builder_value(attrs: &Vec<Attribute>) -> (r: Outcome)
    ensures
        possible(attrs@, outcome_view(r)),
        (forall|k: int| 0 <= k < attrs.len() ==> !is_directive_list(#[trigger] attrs@[k]))
            ==> outcome_view(r) == Ok::<Option<DirectiveView>, DiagnosticView>(None),
        r matches Err(d) ==> d.message@ == unknown_key_message() && exists|k: int|
            0 <= k < attrs.len() && is_directive_list(#[trigger] attrs@[k]) && d.span
                == attrs@[k].span,
{
    let readings = read_effects(attrs);
    proof {
        let views = reading_views(readings@);
        lemma_fold(views);
        if forall|k: int| 0 <= k < attrs.len() ==> !is_directive_list(#[trigger] attrs@[k]) {
            assert forall|k: int| 0 <= k < views.len() implies (#[trigger] views[k]).1 is Keep by {
                assert(!is_directive_list(attrs@[k]));
            }
        }
        if fold(views) is Err {
            let d = fold(views)->Err_0;
            let k = choose|k: int|
                0 <= k < views.len() && (#[trigger] views[k]).1 is Reject && d.span == views[k].0;
            assert(is_directive_list(attrs@[k]));
        }
    }
    fold_effects(readings)
}

/// Reading nothing out of the attributes is always possible, and it is the
/// only possible outcome where no attribute is a directive with a list.
pub proof fn lemma_possible(attrs: Seq<Attribute>)
    ensures
        possible(attrs, Ok(None)),
        (forall|k: int| 0 <= k < attrs.len() ==> !is_directive_list(#[trigger] attrs[k]))
            ==> forall|outcome: OutcomeView| #[trigger]
            possible(attrs, outcome) ==> outcome == Ok::<Option<DirectiveView>, DiagnosticView>(
                None,
            ),
{
    let quiet = Seq::new(attrs.len(), |k: int| (attrs[k].span, EffectView::Keep));
    lemma_fold(quiet);
    assert(admissible(attrs, quiet));
    assert(fold(quiet) == Ok::<Option<DirectiveView>, DiagnosticView>(None));
    if forall|k: int| 0 <= k < attrs.len() ==> !is_directive_list(#[trigger] attrs[k]) {
        assert forall|outcome: OutcomeView| #[trigger] possible(attrs, outcome) implies outcome
            == Ok::<Option<DirectiveView>, DiagnosticView>(None) by {
            let readings = choose|readings: Seq<(Span, EffectView)>|
                admissible(attrs, readings) && outcome == #[trigger] fold(readings);
            lemma_fold(readings);
            assert forall|k: int| 0 <= k < readings.len() implies (
            #[trigger] readings[k]).1 is Keep by {
                assert(!is_directive_list(attrs[k]));
            }
        }
    }
}

} // verus!
