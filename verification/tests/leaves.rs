//! Types, literals and typing rules.

use ir_builder::ast;
use ir_builder::ast::{Span, Spanned};
use ir_builder::ir::builder::literal::build_literal;
use ir_builder::ir::builder::types::build_type;
use ir_builder::ir::builder::{ErrorKind, SyntaxError};
use ir_builder::ir::tyck::{binop_tyck, cast_tyck, unop_tyck};
use ir_builder::ir::{BinOpCode, CastCode, FunctionType, Literal, Type, UnOpCode};

fn at<T>(inner: T, start: usize, end: usize) -> Spanned<T> {
    Spanned { inner, span: Span { start, end } }
}

fn named(name: &str) -> Spanned<ast::ParseType> {
    at(ast::ParseType::Lit(name.to_string()), 1, 2)
}

fn here() -> Span {
    Span { start: 10, end: 14 }
}

fn char_literal(text: &str) -> Result<Literal, SyntaxError> {
    build_literal(&ast::Literal::Char(text.to_string()), here())
}

#[test]
fn primitive_type_names() {
    assert_eq!(build_type(&named("int")), Ok(Type::Int));
    assert_eq!(build_type(&named("double")), Ok(Type::Double));
    assert_eq!(build_type(&named("bool")), Ok(Type::Bool));
    assert_eq!(build_type(&named("char")), Ok(Type::Char));
    assert_eq!(build_type(&at(ast::ParseType::Unit, 0, 2)), Ok(Type::Unit));
}

#[test]
fn pointer_and_array_types() {
    let ptr = at(ast::ParseType::Ptr(Box::new(named("int"))), 0, 4);
    assert_eq!(build_type(&ptr), Ok(Type::Ptr(Box::new(Type::Int))));
    let array = at(ast::ParseType::Array(Box::new(ptr), 7), 0, 9);
    assert_eq!(
        build_type(&array),
        Ok(Type::Array(Box::new(Type::Ptr(Box::new(Type::Int))), 7))
    );
}

#[test]
fn unknown_type_name() {
    let err = build_type(&at(ast::ParseType::Lit("float".to_string()), 5, 10)).unwrap_err();
    assert_eq!(err.kind, ErrorKind::UnrecognizedType);
    assert_eq!(err.msg, "Unrecognized type 'float'.");
    assert_eq!(err.span, Span { start: 5, end: 10 });
}

#[test]
fn unknown_type_name_inside_array() {
    let inner = at(ast::ParseType::Lit("Int".to_string()), 1, 4);
    let array = at(ast::ParseType::Array(Box::new(inner), 2), 0, 8);
    let err = build_type(&array).unwrap_err();
    assert_eq!(err.kind, ErrorKind::UnrecognizedType);
    assert_eq!(err.msg, "Unrecognized type 'Int'.");
    assert_eq!(err.span, Span { start: 1, end: 4 });
}

#[test]
fn plain_literals() {
    assert_eq!(build_literal(&ast::Literal::Unit, here()), Ok(Literal::Unit));
    assert_eq!(build_literal(&ast::Literal::Int(-3), here()), Ok(Literal::Int(-3)));
    assert_eq!(
        build_literal(&ast::Literal::Double(1.5f64.to_bits()), here()),
        Ok(Literal::Double(0x3ff8_0000_0000_0000))
    );
    assert_eq!(build_literal(&ast::Literal::Bool(true), here()), Ok(Literal::Bool(true)));
}

#[test]
fn plain_char() {
    assert_eq!(char_literal("a"), Ok(Literal::Char(97)));
}

#[test]
fn known_escapes() {
    assert_eq!(char_literal("\\'"), Ok(Literal::Char(b'\'')));
    assert_eq!(char_literal("\\\""), Ok(Literal::Char(b'"')));
    assert_eq!(char_literal("\\a"), Ok(Literal::Char(7)));
    assert_eq!(char_literal("\\b"), Ok(Literal::Char(8)));
    assert_eq!(char_literal("\\f"), Ok(Literal::Char(12)));
    assert_eq!(char_literal("\\n"), Ok(Literal::Char(10)));
    assert_eq!(char_literal("\\r"), Ok(Literal::Char(13)));
    assert_eq!(char_literal("\\t"), Ok(Literal::Char(9)));
    assert_eq!(char_literal("\\v"), Ok(Literal::Char(11)));
    assert_eq!(char_literal("\\0"), Ok(Literal::Char(0)));
}

#[test]
fn unknown_escape() {
    let err = char_literal("\\q").unwrap_err();
    assert_eq!(err.kind, ErrorKind::InvalidEscape);
    assert_eq!(err.msg, "Invalid escape char 'q'.");
    assert_eq!(err.span, here());
}

#[test]
fn backslash_is_no_escape_of_itself() {
    let err = char_literal("\\\\").unwrap_err();
    assert_eq!(err.kind, ErrorKind::InvalidEscape);
    assert_eq!(err.msg, "Invalid escape char '\\'.");
}

#[test]
fn unknown_escape_wins_over_length() {
    let err = char_literal("ab\\q").unwrap_err();
    assert_eq!(err.kind, ErrorKind::InvalidEscape);
}

#[test]
fn empty_char() {
    let err = char_literal("").unwrap_err();
    assert_eq!(err.kind, ErrorKind::EmptyCharLiteral);
    assert_eq!(err.msg, "Empty char literal.");
    assert_eq!(err.span, here());
}

#[test]
fn lone_backslash_is_empty() {
    let err = char_literal("\\").unwrap_err();
    assert_eq!(err.kind, ErrorKind::EmptyCharLiteral);
}

#[test]
fn char_before_trailing_backslash() {
    assert_eq!(char_literal("a\\"), Ok(Literal::Char(97)));
}

#[test]
fn two_chars() {
    let err = char_literal("ab").unwrap_err();
    assert_eq!(err.kind, ErrorKind::MultiCharLiteral);
    assert_eq!(err.msg, "Multiple char in char literal.");
    assert_eq!(err.span, here());
}

#[test]
fn escape_and_char() {
    let err = char_literal("\\na").unwrap_err();
    assert_eq!(err.kind, ErrorKind::MultiCharLiteral);
}

#[test]
fn one_char_beyond_a_byte() {
    assert_eq!(char_literal("\u{e9}"), Ok(Literal::Char(0xe9)));
    assert_eq!(char_literal("\u{20ac}"), Ok(Literal::Char(0xac)));
}

#[test]
fn arithmetic_rules() {
    assert_eq!(
        binop_tyck(ast::BinOpCode::Add, &Type::Int, &Type::Int),
        Some((BinOpCode::IntAdd, Type::Int))
    );
    assert_eq!(
        binop_tyck(ast::BinOpCode::Divide, &Type::Double, &Type::Double),
        Some((BinOpCode::DoubleDivide, Type::Double))
    );
    assert_eq!(
        binop_tyck(ast::BinOpCode::Mod, &Type::Int, &Type::Int),
        Some((BinOpCode::IntMod, Type::Int))
    );
    assert_eq!(binop_tyck(ast::BinOpCode::Mod, &Type::Double, &Type::Double), None);
    assert_eq!(binop_tyck(ast::BinOpCode::Add, &Type::Int, &Type::Double), None);
    assert_eq!(binop_tyck(ast::BinOpCode::Add, &Type::Bool, &Type::Bool), None);
}

#[test]
fn comparison_rules() {
    assert_eq!(
        binop_tyck(ast::BinOpCode::Less, &Type::Int, &Type::Int),
        Some((BinOpCode::IntLess, Type::Bool))
    );
    assert_eq!(
        binop_tyck(ast::BinOpCode::GreaterEqual, &Type::Double, &Type::Double),
        Some((BinOpCode::DoubleGreaterEqual, Type::Bool))
    );
    assert_eq!(
        binop_tyck(ast::BinOpCode::Equal, &Type::Char, &Type::Char),
        Some((BinOpCode::CharEqual, Type::Bool))
    );
    assert_eq!(
        binop_tyck(ast::BinOpCode::NotEqual, &Type::Bool, &Type::Bool),
        Some((BinOpCode::BoolNotEqual, Type::Bool))
    );
    assert_eq!(binop_tyck(ast::BinOpCode::Less, &Type::Bool, &Type::Bool), None);
    assert_eq!(binop_tyck(ast::BinOpCode::Equal, &Type::Unit, &Type::Unit), None);
}

#[test]
fn short_circuit_operators_have_no_rule() {
    assert_eq!(binop_tyck(ast::BinOpCode::LogicalAnd, &Type::Bool, &Type::Bool), None);
    assert_eq!(binop_tyck(ast::BinOpCode::LogicalOr, &Type::Bool, &Type::Bool), None);
}

#[test]
fn operands_must_be_plain_values() {
    let slot = Type::LValue(Box::new(Type::Int));
    assert_eq!(binop_tyck(ast::BinOpCode::Add, &slot, &Type::Int), None);
}

#[test]
fn unary_rules() {
    assert_eq!(unop_tyck(ast::UnOpCode::Minus, &Type::Int), Some((UnOpCode::IntMinus, Type::Int)));
    assert_eq!(
        unop_tyck(ast::UnOpCode::Minus, &Type::Double),
        Some((UnOpCode::DoubleMinus, Type::Double))
    );
    assert_eq!(
        unop_tyck(ast::UnOpCode::LogicalNot, &Type::Bool),
        Some((UnOpCode::BoolLogicalNot, Type::Bool))
    );
    assert_eq!(unop_tyck(ast::UnOpCode::LogicalNot, &Type::Int), None);
    assert_eq!(unop_tyck(ast::UnOpCode::Minus, &Type::Bool), None);
}

#[test]
fn address_of_and_dereference() {
    let slot = Type::LValue(Box::new(Type::Char));
    let ptr = Type::Ptr(Box::new(Type::Char));
    assert_eq!(
        unop_tyck(ast::UnOpCode::AddressOf, &slot),
        Some((UnOpCode::AddressOf, Type::Ptr(Box::new(Type::Char))))
    );
    assert_eq!(unop_tyck(ast::UnOpCode::AddressOf, &Type::Char), None);
    assert_eq!(
        unop_tyck(ast::UnOpCode::Deref, &ptr),
        Some((UnOpCode::PtrDeref, Type::LValue(Box::new(Type::Char))))
    );
    assert_eq!(unop_tyck(ast::UnOpCode::Deref, &Type::Int), None);
}

#[test]
fn cast_rules() {
    assert_eq!(cast_tyck(&Type::Int, &Type::Double), Some(CastCode::IntToDouble));
    assert_eq!(cast_tyck(&Type::Double, &Type::Int), Some(CastCode::DoubleToInt));
    assert_eq!(cast_tyck(&Type::Int, &Type::Char), Some(CastCode::IntToChar));
    assert_eq!(cast_tyck(&Type::Char, &Type::Int), Some(CastCode::CharToInt));
    assert_eq!(cast_tyck(&Type::Int, &Type::Bool), Some(CastCode::IntToBool));
    assert_eq!(cast_tyck(&Type::Bool, &Type::Int), Some(CastCode::BoolToInt));
    assert_eq!(cast_tyck(&Type::Int, &Type::Int), None);
    assert_eq!(cast_tyck(&Type::Double, &Type::Char), None);
    assert_eq!(cast_tyck(&Type::Unit, &Type::Int), None);
}

#[test]
fn types_compare_by_structure() {
    let f = Type::Function(FunctionType {
        return_ty: Box::new(Type::Int),
        params_ty: vec![Type::Bool, Type::Ptr(Box::new(Type::Char))],
    });
    let g = Type::Function(FunctionType {
        return_ty: Box::new(Type::Int),
        params_ty: vec![Type::Bool, Type::Ptr(Box::new(Type::Int))],
    });
    assert!(f.same_as(&f.clone()));
    assert!(!f.same_as(&g));
    assert!(!Type::Array(Box::new(Type::Int), 2).same_as(&Type::Array(Box::new(Type::Int), 3)));
    assert!(Type::Int.into_lvalue().same_as(&Type::LValue(Box::new(Type::Int))));
    assert_eq!(g.duplicate(), g);
}

#[test]
fn error_copies_are_equal() {
    let err = char_literal("").unwrap_err();
    assert_eq!(err.clone(), err);
}
