//! From a type as written in the source to a type of the intermediate
//! representation.

use crate::ast::{ParseType, Spanned};
use crate::ir::builder::error::{named_error, ErrorKind, SyntaxError, SyntaxErrorView};
use crate::ir::builder::text::is_word;
use crate::ir::{Type, TypeView};
use vstd::prelude::*;

verus! {

/// The type that a written type denotes. The names `int`, `double`, `bool`
/// and `char` denote the primitive types; any other name is rejected at the
/// place where it is written.
pub open spec fn resolve_type(parse_ty: Spanned<ParseType>) -> Result<TypeView, SyntaxErrorView>
    decreases parse_ty,
{
    match parse_ty.inner {
        ParseType::Unit => Ok(TypeView::Unit),
        ParseType::Array(sub, size) => match resolve_type(*sub) {
            Ok(ty) => Ok(TypeView::Array(Box::new(ty), size as nat)),
            Err(e) => Err(e),
        },
        ParseType::Ptr(sub) => match resolve_type(*sub) {
            Ok(ty) => Ok(TypeView::Ptr(Box::new(ty))),
            Err(e) => Err(e),
        },
        ParseType::Lit(name) => if name@ == "int"@ {
            Ok(TypeView::Int)
        } else if name@ == "double"@ {
            Ok(TypeView::Double)
        } else if name@ == "bool"@ {
            Ok(TypeView::Bool)
        } else if name@ == "char"@ {
            Ok(TypeView::Char)
        } else {
            Err(
                named_error(
                    ErrorKind::UnrecognizedType,
                    "Unrecognized type ",
                    name@,
                    ".",
                    parse_ty.span,
                ),
            )
        },
    }
}

/// Whether `r` is the executable form of the outcome `expected`.
pub open spec fn type_result_is(r: Result<Type, SyntaxError>, expected: Result<TypeView, SyntaxErrorView>) -> bool {
    match r {
        Ok(ty) => expected == Ok::<TypeView, SyntaxErrorView>(ty@),
        Err(e) => expected == Err::<TypeView, SyntaxErrorView>(e@),
    }
}

/// Resolves a written type.
pub fn build_type(parse_ty: &Spanned<ParseType>) -> (r: Result<Type, SyntaxError>)
    ensures
        type_result_is(r, resolve_type(*parse_ty)),
    decreases parse_ty,
{
    match &parse_ty.inner {
        ParseType::Unit => Ok(Type::Unit),
        ParseType::Array(sub, size) => match build_type(sub) {
            Ok(ty) => Ok(Type::Array(Box::new(ty), *size)),
            Err(e) => Err(e),
        },
        ParseType::Ptr(sub) => match build_type(sub) {
            Ok(ty) => Ok(Type::Ptr(Box::new(ty))),
            Err(e) => Err(e),
        },
        ParseType::Lit(name) => {
            if is_word(name, "int") {
                Ok(Type::Int)
            } else if is_word(name, "double") {
                Ok(Type::Double)
            } else if is_word(name, "bool") {
                Ok(Type::Bool)
            } else if is_word(name, "char") {
                Ok(Type::Char)
            } else {
                Err(
                    SyntaxError::named(
                        ErrorKind::UnrecognizedType,
                        "Unrecognized type ",
                        name.as_str(),
                        ".",
                        parse_ty.span,
                    ),
                )
            }
        },
    }
}

} // verus!
