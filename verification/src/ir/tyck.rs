//! The typing rules of operators and casts: which operand types an operator
//! accepts, which operation of the intermediate representation it then
//! stands for, and the type of its result.
//!
//! The lowering pass asks these rules and nothing else about operators, so
//! what it accepts and rejects changes with this module alone.

use crate::ast;
use crate::ir::{BinOpCode, CastCode, Type, TypeView, UnOpCode};
use vstd::prelude::*;

verus! {

/// The operation and result type of a binary operator on plain operands of
/// types `lhs` and `rhs`, or `None` where the operator does not apply.
///
/// Arithmetic takes two `Int` or two `Double` and gives the same type (the
/// remainder only `Int`); ordering takes two `Int` or two `Double` and gives
/// `Bool`; equality takes two operands of one of `Int`, `Double`, `Bool`,
/// `Char` and gives `Bool`. The short-circuit operators have no rule: they
/// are turned into branches before any rule is asked.
pub open spec fn binop_rule(op: ast::BinOpCode, lhs: TypeView, rhs: TypeView) -> Option<
    (BinOpCode, TypeView),
> {
    match (lhs, rhs) {
        (TypeView::Int, TypeView::Int) => match op {
            ast::BinOpCode::Add => Some((BinOpCode::IntAdd, TypeView::Int)),
            ast::BinOpCode::Sub => Some((BinOpCode::IntSub, TypeView::Int)),
            ast::BinOpCode::Times => Some((BinOpCode::IntTimes, TypeView::Int)),
            ast::BinOpCode::Divide => Some((BinOpCode::IntDivide, TypeView::Int)),
            ast::BinOpCode::Mod => Some((BinOpCode::IntMod, TypeView::Int)),
            ast::BinOpCode::Less => Some((BinOpCode::IntLess, TypeView::Bool)),
            ast::BinOpCode::LessEqual => Some((BinOpCode::IntLessEqual, TypeView::Bool)),
            ast::BinOpCode::Greater => Some((BinOpCode::IntGreater, TypeView::Bool)),
            ast::BinOpCode::GreaterEqual => Some((BinOpCode::IntGreaterEqual, TypeView::Bool)),
            ast::BinOpCode::Equal => Some((BinOpCode::IntEqual, TypeView::Bool)),
            ast::BinOpCode::NotEqual => Some((BinOpCode::IntNotEqual, TypeView::Bool)),
            _ => None,
        },
        (TypeView::Double, TypeView::Double) => match op {
            ast::BinOpCode::Add => Some((BinOpCode::DoubleAdd, TypeView::Double)),
            ast::BinOpCode::Sub => Some((BinOpCode::DoubleSub, TypeView::Double)),
            ast::BinOpCode::Times => Some((BinOpCode::DoubleTimes, TypeView::Double)),
            ast::BinOpCode::Divide => Some((BinOpCode::DoubleDivide, TypeView::Double)),
            ast::BinOpCode::Less => Some((BinOpCode::DoubleLess, TypeView::Bool)),
            ast::BinOpCode::LessEqual => Some((BinOpCode::DoubleLessEqual, TypeView::Bool)),
            ast::BinOpCode::Greater => Some((BinOpCode::DoubleGreater, TypeView::Bool)),
            ast::BinOpCode::GreaterEqual => Some((BinOpCode::DoubleGreaterEqual, TypeView::Bool)),
            ast::BinOpCode::Equal => Some((BinOpCode::DoubleEqual, TypeView::Bool)),
            ast::BinOpCode::NotEqual => Some((BinOpCode::DoubleNotEqual, TypeView::Bool)),
            _ => None,
        },
        (TypeView::Bool, TypeView::Bool) => match op {
            ast::BinOpCode::Equal => Some((BinOpCode::BoolEqual, TypeView::Bool)),
            ast::BinOpCode::NotEqual => Some((BinOpCode::BoolNotEqual, TypeView::Bool)),
            _ => None,
        },
        (TypeView::Char, TypeView::Char) => match op {
            ast::BinOpCode::Equal => Some((BinOpCode::CharEqual, TypeView::Bool)),
            ast::BinOpCode::NotEqual => Some((BinOpCode::CharNotEqual, TypeView::Bool)),
            _ => None,
        },
        _ => None,
    }
}

/// The operation and result type of a unary operator on an operand of type
/// `operand`, or `None` where the operator does not apply.
///
/// Negation takes an `Int` or a `Double`, logical negation a `Bool`.
/// Address-of takes a storage location of a `T` and gives a pointer to `T`;
/// it has no rule for a plain value. Dereference takes a pointer to `T` and
/// gives the storage location of a `T`.
pub open spec fn unop_rule(op: ast::UnOpCode, operand: TypeView) -> Option<(UnOpCode, TypeView)> {
    match (op, operand) {
        (ast::UnOpCode::Minus, TypeView::Int) => Some((UnOpCode::IntMinus, TypeView::Int)),
        (ast::UnOpCode::Minus, TypeView::Double) => Some(
            (UnOpCode::DoubleMinus, TypeView::Double),
        ),
        (ast::UnOpCode::LogicalNot, TypeView::Bool) => Some(
            (UnOpCode::BoolLogicalNot, TypeView::Bool),
        ),
        (ast::UnOpCode::AddressOf, TypeView::LValue(sub)) => Some(
            (UnOpCode::AddressOf, TypeView::Ptr(sub)),
        ),
        (ast::UnOpCode::Deref, TypeView::Ptr(sub)) => Some(
            (UnOpCode::PtrDeref, TypeView::LValue(sub)),
        ),
        _ => None,
    }
}

/// The conversion that takes a value of type `from` to type `to`, or `None`
/// where there is none. `Int` converts to and from each of `Double`, `Char`
/// and `Bool`; nothing else converts, not even a type to itself.
pub open spec fn cast_rule(from: TypeView, to: TypeView) -> Option<CastCode> {
    match (from, to) {
        (TypeView::Int, TypeView::Double) => Some(CastCode::IntToDouble),
        (TypeView::Double, TypeView::Int) => Some(CastCode::DoubleToInt),
        (TypeView::Int, TypeView::Char) => Some(CastCode::IntToChar),
        (TypeView::Char, TypeView::Int) => Some(CastCode::CharToInt),
        (TypeView::Int, TypeView::Bool) => Some(CastCode::IntToBool),
        (TypeView::Bool, TypeView::Int) => Some(CastCode::BoolToInt),
        _ => None,
    }
}

/// The model of what a rule for an operator answered.
pub open spec fn rule_model<Op>(answer: Option<(Op, Type)>) -> Option<(Op, TypeView)> {
    match answer {
        Some((op, ty)) => Some((op, ty@)),
        None => None,
    }
}

/// Decides a binary operator by [`binop_rule`].
pub fn binop_tyck(op: ast::BinOpCode, lhs: &Type, rhs: &Type) -> (r: Option<(BinOpCode, Type)>)
    ensures
        rule_model(r) == binop_rule(op, lhs@, rhs@),
{
    match (lhs, rhs) {
        (Type::Int, Type::Int) => match op {
            ast::BinOpCode::Add => Some((BinOpCode::IntAdd, Type::Int)),
            ast::BinOpCode::Sub => Some((BinOpCode::IntSub, Type::Int)),
            ast::BinOpCode::Times => Some((BinOpCode::IntTimes, Type::Int)),
            ast::BinOpCode::Divide => Some((BinOpCode::IntDivide, Type::Int)),
            ast::BinOpCode::Mod => Some((BinOpCode::IntMod, Type::Int)),
            ast::BinOpCode::Less => Some((BinOpCode::IntLess, Type::Bool)),
            ast::BinOpCode::LessEqual => Some((BinOpCode::IntLessEqual, Type::Bool)),
            ast::BinOpCode::Greater => Some((BinOpCode::IntGreater, Type::Bool)),
            ast::BinOpCode::GreaterEqual => Some((BinOpCode::IntGreaterEqual, Type::Bool)),
            ast::BinOpCode::Equal => Some((BinOpCode::IntEqual, Type::Bool)),
            ast::BinOpCode::NotEqual => Some((BinOpCode::IntNotEqual, Type::Bool)),
            _ => None,
        },
        (Type::Double, Type::Double) => match op {
            ast::BinOpCode::Add => Some((BinOpCode::DoubleAdd, Type::Double)),
            ast::BinOpCode::Sub => Some((BinOpCode::DoubleSub, Type::Double)),
            ast::BinOpCode::Times => Some((BinOpCode::DoubleTimes, Type::Double)),
            ast::BinOpCode::Divide => Some((BinOpCode::DoubleDivide, Type::Double)),
            ast::BinOpCode::Less => Some((BinOpCode::DoubleLess, Type::Bool)),
            ast::BinOpCode::LessEqual => Some((BinOpCode::DoubleLessEqual, Type::Bool)),
            ast::BinOpCode::Greater => Some((BinOpCode::DoubleGreater, Type::Bool)),
            ast::BinOpCode::GreaterEqual => Some((BinOpCode::DoubleGreaterEqual, Type::Bool)),
            ast::BinOpCode::Equal => Some((BinOpCode::DoubleEqual, Type::Bool)),
            ast::BinOpCode::NotEqual => Some((BinOpCode::DoubleNotEqual, Type::Bool)),
            _ => None,
        },
        (Type::Bool, Type::Bool) => match op {
            ast::BinOpCode::Equal => Some((BinOpCode::BoolEqual, Type::Bool)),
            ast::BinOpCode::NotEqual => Some((BinOpCode::BoolNotEqual, Type::Bool)),
            _ => None,
        },
        (Type::Char, Type::Char) => match op {
            ast::BinOpCode::Equal => Some((BinOpCode::CharEqual, Type::Bool)),
            ast::BinOpCode::NotEqual => Some((BinOpCode::CharNotEqual, Type::Bool)),
            _ => None,
        },
        _ => None,
    }
}

/// Decides a unary operator by [`unop_rule`].
pub fn unop_tyck(op: ast::UnOpCode, operand: &Type) -> (r: Option<(UnOpCode, Type)>)
    ensures
        rule_model(r) == unop_rule(op, operand@),
{
    match (op, operand) {
        (ast::UnOpCode::Minus, Type::Int) => Some((UnOpCode::IntMinus, Type::Int)),
        (ast::UnOpCode::Minus, Type::Double) => Some((UnOpCode::DoubleMinus, Type::Double)),
        (ast::UnOpCode::LogicalNot, Type::Bool) => Some((UnOpCode::BoolLogicalNot, Type::Bool)),
        (ast::UnOpCode::AddressOf, Type::LValue(sub)) => Some(
            (UnOpCode::AddressOf, Type::Ptr(Box::new(sub.duplicate()))),
        ),
        (ast::UnOpCode::Deref, Type::Ptr(sub)) => Some(
            (UnOpCode::PtrDeref, Type::LValue(Box::new(sub.duplicate()))),
        ),
        _ => None,
    }
}

/// Decides a cast by [`cast_rule`].
pub fn cast_tyck(from: &Type, to: &Type) -> (r: Option<CastCode>)
    ensures
        r == cast_rule(from@, to@),
{
    match (from, to) {
        (Type::Int, Type::Double) => Some(CastCode::IntToDouble),
        (Type::Double, Type::Int) => Some(CastCode::DoubleToInt),
        (Type::Int, Type::Char) => Some(CastCode::IntToChar),
        (Type::Char, Type::Int) => Some(CastCode::CharToInt),
        (Type::Int, Type::Bool) => Some(CastCode::IntToBool),
        (Type::Bool, Type::Int) => Some(CastCode::BoolToInt),
        _ => None,
    }
}

} // verus!
