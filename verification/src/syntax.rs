//! A closed model of the syntax that the passes read: paths, types,
//! attributes, declarations and the expressions of a function body.
//!
//! The model keeps what the passes decide on and drops the rest. Every node
//! that a diagnostic or a generated item may point at carries a [`Span`].

use vstd::prelude::*;

verus! {

/// A handle on a region of the input: a number. The driver that builds the
/// model hands out the numbers and resolves them again when it emits a
/// diagnostic or copies a node of the input into its output.
#[derive(Clone, Copy, Debug, PartialEq, Eq, Structural)]
pub struct Span(pub usize);

/// An error to be reported at a place in the input. It goes out beside the
/// syntax that the pass returns, never in place of it.
#[derive(Clone, Debug, PartialEq, Eq)]
pub struct Diagnostic {
    pub message: String,
    pub span: Span,
}

/// What a [`Diagnostic`] says, with its message as a sequence of characters.
pub struct DiagnosticView {
    pub message: Seq<char>,
    pub span: Span,
}

impl View for Diagnostic {
    type V = DiagnosticView;

    open spec fn view(&self) -> DiagnosticView {
        DiagnosticView { message: self.message@, span: self.span }
    }
}

/// The view of an optional diagnostic.
pub open spec fn diagnostic_view(d: Option<Diagnostic>) -> Option<DiagnosticView> {
    match d {
        Some(d) => Some(d@),
        None => None,
    }
}

/// A path such as `Vec<T>` or `std::fmt::Error`.
#[derive(Debug, PartialEq, Eq)]
pub struct Path {
    /// The path starts with `::`.
    pub leading_colon: bool,
    pub segments: Vec<PathSegment>,
}

#[derive(Debug, PartialEq, Eq)]
pub struct PathSegment {
    pub ident: String,
    pub arguments: PathArguments,
}

#[derive(Debug, PartialEq, Eq)]
pub enum PathArguments {
    /// No arguments at all.
    Absent,
    /// The `<T, U>` of `Map<T, U>`.
    AngleBracketed(Vec<GenericArgument>),
    /// The `(A, B) -> C` of `Fn(A, B) -> C`.
    Parenthesized,
}

#[derive(Debug, PartialEq, Eq)]
pub enum GenericArgument {
    /// A concrete type.
    Type(Type),
    /// A lifetime, a constant, or a binding or bound of an associated item.
    Other,
}

#[derive(Debug, PartialEq, Eq)]
pub struct Type {
    pub span: Span,
    pub kind: TypeKind,
}

#[derive(Debug, PartialEq, Eq)]
pub enum TypeKind {
    /// A type named by a path.
    Path(Path),
    /// Any other type: a reference, a tuple, an array and so on.
    Other,
}

/// An attribute such as `#[sorted]` or `#[directive(each = "arg")]`.
#[derive(Debug, PartialEq, Eq)]
pub struct Attribute {
    /// The path that names the attribute.
    pub path: Path,
    pub meta: Meta,
    /// The region of the attribute between its square brackets.
    pub span: Span,
}

/// What follows the path of an attribute.
#[derive(Debug, PartialEq, Eq)]
pub enum Meta {
    /// Nothing: `#[sorted]`.
    Path,
    /// A delimited list, with the text of the tokens between the delimiters:
    /// `each = "arg"` for `#[directive(each = "arg")]`.
    List(String),
    /// A value after `=`: `#[doc = "..."]`.
    NameValue,
}

/// A field of a record with named fields.
#[derive(Debug, PartialEq, Eq)]
pub struct Field {
    pub attrs: Vec<Attribute>,
    pub ident: String,
    pub ty: Type,
}

#[derive(Debug, PartialEq, Eq)]
pub enum Fields {
    /// `{ a: A, b: B }`
    Named(Vec<Field>),
    /// `(A, B)`
    Unnamed,
    /// No fields.
    Unit,
}

#[derive(Debug, PartialEq, Eq)]
pub enum Data {
    Struct(Fields),
    Enum,
    Union,
}

/// A type declaration handed to the builder synthesizer.
#[derive(Debug, PartialEq, Eq)]
pub struct DeriveInput {
    pub ident: String,
    pub data: Data,
}

/// A case of an enumeration.
#[derive(Debug, PartialEq, Eq)]
pub struct Variant {
    pub ident: String,
    /// The region of the whole case.
    pub span: Span,
}

/// An enumeration: its cases in the order of the declaration.
#[derive(Debug, PartialEq, Eq)]
pub struct ItemEnum {
    pub variants: Vec<Variant>,
}

/// An item handed to the declaration order checker.
#[derive(Debug, PartialEq, Eq)]
pub enum Item {
    Enum(ItemEnum),
    /// Any item that is no enumeration.
    Other,
}

/// The pattern of a match arm.
#[derive(Debug, PartialEq, Eq)]
pub enum Pat {
    /// A constructor applied to arguments: `Error::Io(e)`.
    TupleStruct(Path),
    /// A bare name: `Zero`.
    Ident(String),
    /// Any other pattern.
    Other,
}

/// The head of a match arm. The guard and the body of the arm are among the
/// `children` of the match expression.
#[derive(Debug, PartialEq, Eq)]
pub struct Arm {
    pub pat: Pat,
    /// The region of the whole arm.
    pub span: Span,
}

#[derive(Debug, PartialEq, Eq)]
pub struct ExprMatch {
    pub attrs: Vec<Attribute>,
    pub arms: Vec<Arm>,
}

#[derive(Debug, PartialEq, Eq)]
pub enum ExprKind {
    Match(ExprMatch),
    /// Any expression that is not a match.
    Other,
}

/// An expression, with the expressions directly nested in it in source
/// order. For a match these are the scrutinee and then, arm by arm, the
/// guard and the body.
#[derive(Debug, PartialEq, Eq)]
pub struct Expr {
    pub kind: ExprKind,
    pub children: Vec<Expr>,
}

/// A function handed to the expression order checker: the outermost
/// expressions of the function in source order.
#[derive(Debug, PartialEq, Eq)]
pub struct ItemFn {
    pub exprs: Vec<Expr>,
}

/// An expression as a mathematical tree. The attributes and the arms are
/// kept as they are; the lists become sequences.
pub struct ExprView {
    pub kind: ExprKindView,
    pub children: Seq<ExprView>,
}

pub enum ExprKindView {
    Match { attrs: Seq<Attribute>, arms: Seq<Arm> },
    Other,
}

impl View for ExprKind {
    type V = ExprKindView;

    open spec fn view(&self) -> ExprKindView {
        match *self {
            ExprKind::Match(m) => ExprKindView::Match { attrs: m.attrs@, arms: m.arms@ },
            ExprKind::Other => ExprKindView::Other,
        }
    }
}

impl View for Expr {
    type V = ExprView;

    open spec fn view(&self) -> ExprView
        decreases self,
    {
        ExprView { kind: self.kind@, children: expr_views(self.children@) }
    }
}

/// The views of a list of expressions.
pub open spec fn expr_views(exprs: Seq<Expr>) -> Seq<ExprView>
    decreases exprs,
{
    Seq::new(
        exprs.len(),
        |k: int|
            if 0 <= k < exprs.len() {
                exprs[k]@
            } else {
                arbitrary()
            },
    )
}

impl View for ItemFn {
    type V = Seq<ExprView>;

    open spec fn view(&self) -> Seq<ExprView> {
        expr_views(self.exprs@)
    }
}

impl Path {
    /// The identifier that the path consists of, if it is a single one: no
    /// leading `::`, one segment, no arguments on it.
    pub open spec fn sole_ident(self) -> Option<Seq<char>> {
        if !self.leading_colon && self.segments@.len() == 1
            && self.segments@[0].arguments is Absent {
            Some(self.segments@[0].ident@)
        } else {
            None
        }
    }

    /// The identifier of the first segment, if the path has a segment.
    pub open spec fn leading_ident(self) -> Option<Seq<char>> {
        if self.segments@.len() > 0 {
            Some(self.segments@[0].ident@)
        } else {
            None
        }
    }

    /// The single identifier of the path, if it is one.
    pub fn get_ident(&self) -> (r: Option<&String>)
        ensures
            match r {
                Some(ident) => self.sole_ident() == Some(ident@),
                None => self.sole_ident() is None,
            },
    {
        if !self.leading_colon && self.segments.len() == 1 {
            match &self.segments[0].arguments {
                PathArguments::Absent => Some(&self.segments[0].ident),
                _ => None,
            }
        } else {
            None
        }
    }

    /// Whether the path is the single identifier `ident`.
    pub fn is_ident(&self, ident: &str) -> (r: bool)
        ensures
            r == (self.sole_ident() == Some(ident@)),
    {
        match self.get_ident() {
            Some(own) => {
                let wanted = ident.to_owned();
                *own == wanted
            },
            None => false,
        }
    }
}

} // verus!
