//! Recognition of wrapper types: a generic type with one argument whose
//! name alone says how the builder treats the field.

use vstd::prelude::*;
use crate::syntax::{GenericArgument, PathArguments, Type, TypeKind};

verus! {

/// The wrappers that the builder knows.
#[derive(Clone, Copy, Debug, PartialEq, Eq, Structural)]
pub enum WrapperKind {
    /// A value that may be absent: `Option<T>`.
    OptionalValue,
    /// A sequence of values: `Vec<T>`.
    Sequence,
}

impl WrapperKind {
    /// The name by which the wrapper is written.
    pub open spec fn head(self) -> Seq<char> {
        match self {
            WrapperKind::OptionalValue => "Option"@,
            WrapperKind::Sequence => "Vec"@,
        }
    }

    /// The name by which the wrapper is written.
    pub fn name(self) -> (r: &'static str)
        ensures
            r@ == self.head(),
    {
        match self {
            WrapperKind::OptionalValue => "Option",
            WrapperKind::Sequence => "Vec",
        }
    }
}

/// A type found to be a wrapper: the kind of the wrapper and the type that
/// it wraps.
#[derive(Debug, PartialEq, Eq)]
pub struct WrapperMatch<'a> {
    pub kind: WrapperKind,
    pub inner: &'a Type,
}

/// The type that `ty` wraps, if `ty` is the wrapper named `wrapper`: a path
/// whose first segment is `wrapper` with exactly one argument in angle
/// brackets, that argument being a type. The name is compared as written;
/// neither an alias nor a longer path to the same wrapper is resolved.
pub open spec fn wrapped(wrapper: Seq<char>, ty: Type) -> Option<Type> {
    match ty.kind {
        TypeKind::Path(path) => {
            if path.segments@.len() > 0 && path.segments@[0].ident@ == wrapper {
                match path.segments@[0].arguments {
                    PathArguments::AngleBracketed(args) => {
                        if args@.len() == 1 {
                            match args@[0] {
                                GenericArgument::Type(inner) => Some(inner),
                                GenericArgument::Other => None,
                            }
                        } else {
                            None
                        }
                    },
                    _ => None,
                }
            } else {
                None
            }
        },
        TypeKind::Other => None,
    }
}

/// Matches `ty` against the wrapper named `wrapper` and returns the wrapped
/// type. A type that is no such wrapper is no error: the result is `None`.
pub fn inner_type<'a>(wrapper: &str, ty: &'a Type) -> (r: Option<&'a Type>)
    ensures
        match r {
            Some(inner) => wrapped(wrapper@, *ty) == Some(*inner),
            None => wrapped(wrapper@, *ty) is None,
        },
{
    if let TypeKind::Path(path) = &ty.kind {
        if path.segments.len() > 0 {
            let wanted = wrapper.to_owned();
            if path.segments[0].ident == wanted {
                if let PathArguments::AngleBracketed(args) = &path.segments[0].arguments {
                    if args.len() == 1 {
                        if let GenericArgument::Type(inner) = &args[0] {
                            return Some(inner);
                        }
                    }
                }
            }
        }
    }
    None
}

/// Matches `ty` against the wrapper of the given kind.
pub fn wrapper_match<'a>(kind: WrapperKind, ty: &'a Type) -> (r: Option<WrapperMatch<'a>>)
    ensures
        match r {
            Some(found) => found.kind == kind && wrapped(kind.head(), *ty) == Some(*found.inner),
            None => wrapped(kind.head(), *ty) is None,
        },
{
    match inner_type(kind.name(), ty) {
        Some(inner) => Some(WrapperMatch { kind, inner }),
        None => None,
    }
}

} // verus!
