//! What the builder holds after a fault.

use ir_builder::ast;
use ir_builder::ast::{Span, Spanned};
use ir_builder::ir::builder::expression::build_expression;
use ir_builder::ir::builder::function::Item;
use ir_builder::ir::builder::statement::build_statement;
use ir_builder::ir::builder::{
    build_declaration, register_declaration, try_build_expression, try_build_statement,
    ErrorKind, FunctionBuilder, SymbolTable,
};
use ir_builder::ir::{
    BasicBlockId, Declaration, Expression, FunctionType, Literal, Statement, Type, Value,
};

fn at<T>(inner: T, start: usize, end: usize) -> Spanned<T> {
    Spanned { inner, span: Span { start, end } }
}

fn sp<T>(inner: T) -> Spanned<T> {
    at(inner, 0, 0)
}

fn int_lit(v: i64) -> Spanned<ast::Expression> {
    sp(ast::Expression::Literal(ast::Literal::Int(v)))
}

fn ident(name: &str) -> Spanned<ast::Expression> {
    sp(ast::Expression::Identifier(name.to_string()))
}

fn number(id: usize, v: i64) -> Item {
    Item::Statement(Statement::Assign(
        Value { id, ty: Type::Int },
        Expression::Literal(Literal::Int(v)),
    ))
}

fn builder(return_ty: Type) -> FunctionBuilder {
    let ty = FunctionType { return_ty: Box::new(return_ty), params_ty: vec![] };
    let mut fb = FunctionBuilder::new("f".to_string(), ty, SymbolTable::new());
    fb.start_local_scope();
    fb
}

fn stores(fb: &FunctionBuilder) -> usize {
    fb.items
        .iter()
        .filter(|item| matches!(item, Item::Statement(Statement::LValueSet(_, _))))
        .count()
}

fn boundaries(fb: &FunctionBuilder) -> usize {
    fb.items.iter().filter(|item| matches!(item, Item::TerminatorAndLabel(_, _))).count()
}

#[test]
fn undeclared_target_leaves_the_buffer_empty() {
    let mut fb = builder(Type::Unit);
    let target = at(ast::Expression::Identifier("x".to_string()), 4, 5);
    let store = at(ast::Expression::Assign(Box::new(target), Box::new(int_lit(5))), 4, 9);
    let err = build_statement(&mut fb, &sp(ast::Statement::Expression { expr: store })).unwrap_err();
    assert_eq!(err.kind, ErrorKind::UndefinedName);
    assert_eq!(err.span, Span { start: 4, end: 5 });
    assert!(fb.items.is_empty());
    assert_eq!(fb.current_temp_id, 0);
}

#[test]
fn assignment_to_a_plain_value_stores_nothing() {
    let mut fb = builder(Type::Unit);
    let bad = at(ast::Expression::Assign(Box::new(int_lit(1)), Box::new(int_lit(2))), 4, 9);
    let err = build_expression(&mut fb, &bad).unwrap_err();
    assert_eq!(err.kind, ErrorKind::AssignToNonLValue);
    assert_eq!(err.span, Span { start: 4, end: 9 });
    assert_eq!(fb.items, vec![number(0, 1), number(1, 2)]);
    assert_eq!(stores(&fb), 0);
}

#[test]
fn assignment_of_another_type_stores_nothing() {
    let mut fb = builder(Type::Unit);
    assert!(fb.register_local_variable("x".to_string(), Type::Bool));
    let bad = at(ast::Expression::Assign(Box::new(ident("x")), Box::new(int_lit(2))), 4, 9);
    let err = build_expression(&mut fb, &bad).unwrap_err();
    assert_eq!(err.kind, ErrorKind::TypeMismatch);
    assert_eq!(fb.items.len(), 2);
    assert_eq!(stores(&fb), 0);
}

#[test]
fn break_outside_a_loop_leaves_the_builder_as_it_was() {
    let mut fb = builder(Type::Unit);
    let err = build_statement(&mut fb, &at(ast::Statement::Break, 1, 6)).unwrap_err();
    assert_eq!(err.kind, ErrorKind::BreakOutsideLoop);
    assert!(fb.items.is_empty());
    assert_eq!(fb.label_counter, 1);
    let err = build_statement(&mut fb, &at(ast::Statement::Continue, 1, 9)).unwrap_err();
    assert_eq!(err.kind, ErrorKind::ContinueOutsideLoop);
    assert!(fb.items.is_empty());
    assert_eq!(fb.label_counter, 1);
}

#[test]
fn break_needs_no_open_scope() {
    let ty = FunctionType { return_ty: Box::new(Type::Unit), params_ty: vec![] };
    let mut fb = FunctionBuilder::new("f".to_string(), ty, SymbolTable::new());
    fb.current_loop_info = Some((BasicBlockId(0), BasicBlockId(0)));
    assert!(build_statement(&mut fb, &sp(ast::Statement::Break)).is_ok());
    assert_eq!(boundaries(&fb), 1);
}

#[test]
fn return_of_another_type_ends_no_block() {
    let mut fb = builder(Type::Bool);
    let err =
        build_statement(&mut fb, &sp(ast::Statement::Return { expr: Some(int_lit(1)) })).unwrap_err();
    assert_eq!(err.kind, ErrorKind::TypeMismatch);
    assert_eq!(fb.items, vec![number(0, 1)]);
    assert_eq!(fb.label_counter, 1);
}

#[test]
fn let_of_another_type_declares_nothing() {
    let mut fb = builder(Type::Unit);
    let bad = at(
        ast::Statement::Let {
            name: "x".to_string(),
            ty: Some(sp(ast::ParseType::Lit("bool".to_string()))),
            expr: int_lit(1),
        },
        2,
        18,
    );
    let err = build_statement(&mut fb, &bad).unwrap_err();
    assert_eq!(err.kind, ErrorKind::TypeMismatch);
    assert_eq!(err.span, Span { start: 2, end: 18 });
    assert_eq!(fb.symbol_table.get_var(&"x".to_string()), None);
    assert!(fb.locals.is_empty());
    assert_eq!(fb.items, vec![number(0, 1)]);
}

#[test]
fn let_of_a_taken_name_declares_its_slot_and_stores_nothing() {
    let mut fb = builder(Type::Unit);
    assert!(fb.register_local_variable("x".to_string(), Type::Bool));
    let again = sp(ast::Statement::Let { name: "x".to_string(), ty: None, expr: int_lit(1) });
    let err = build_statement(&mut fb, &again).unwrap_err();
    assert_eq!(err.kind, ErrorKind::DuplicateDefinition);
    assert_eq!(fb.locals.len(), 2);
    assert_eq!(fb.items, vec![number(0, 1)]);
}

#[test]
fn condition_of_another_type_branches_nowhere() {
    let mut fb = builder(Type::Unit);
    let body = sp(ast::CompoundStatement(vec![sp(ast::Statement::Expression {
        expr: int_lit(7),
    })]));
    let bad = sp(ast::Statement::While { cond: at(int_lit(1).inner, 7, 8), stmt: body });
    let err = build_statement(&mut fb, &bad).unwrap_err();
    assert_eq!(err.kind, ErrorKind::NonBoolCondition);
    assert_eq!(err.span, Span { start: 7, end: 8 });
    assert_eq!(
        fb.items,
        vec![Item::TerminatorAndLabel(None, BasicBlockId(1)), number(0, 1)]
    );
    assert_eq!(fb.label_counter, 2);
}

fn unit_function(name: &str, stmts: Vec<Spanned<ast::Statement>>) -> Spanned<ast::Declaration> {
    sp(ast::Declaration::Function {
        name: name.to_string(),
        params: vec![],
        return_ty: sp(ast::ParseType::Unit),
        stmt: sp(ast::CompoundStatement(stmts)),
    })
}

#[test]
fn registering_binds_the_name_to_the_signature() {
    let mut table = SymbolTable::new();
    let decl = unit_function("f", vec![]);
    let ty = register_declaration(&decl, &mut table).unwrap();
    assert_eq!(ty, FunctionType { return_ty: Box::new(Type::Unit), params_ty: vec![] });
    assert_eq!(
        table.get_var(&"f".to_string()),
        Some((Type::Function(ty.clone()), Expression::GlobalLoad("f".to_string())))
    );
    let err = register_declaration(&decl, &mut table).unwrap_err();
    assert_eq!(err.kind, ErrorKind::DuplicateDefinition);
}

#[test]
fn rejected_signature_leaves_the_table_as_it_was() {
    let mut table = SymbolTable::new();
    let decl = sp(ast::Declaration::ExternFunction {
        name: "f".to_string(),
        params: vec![sp(ast::ParseType::Lit("string".to_string()))],
        return_ty: sp(ast::ParseType::Unit),
    });
    let err = register_declaration(&decl, &mut table).unwrap_err();
    assert_eq!(err.kind, ErrorKind::UnrecognizedType);
    assert_eq!(table.get_var(&"f".to_string()), None);
}

#[test]
fn lowering_a_declaration_leaves_no_variable_behind() {
    let mut table = SymbolTable::new();
    let decl = unit_function(
        "f",
        vec![sp(ast::Statement::Let { name: "x".to_string(), ty: None, expr: int_lit(1) })],
    );
    let ty = register_declaration(&decl, &mut table).unwrap();
    let lowered = build_declaration(&decl, ty, &mut table).unwrap();
    assert!(matches!(lowered, Declaration::Function { .. }));
    assert_eq!(table.get_var(&"x".to_string()), None);
    assert!(table.get_var(&"f".to_string()).is_some());
}

#[test]
fn rejected_body_hands_the_table_back() {
    let mut table = SymbolTable::new();
    let decl = unit_function(
        "f",
        vec![
            sp(ast::Statement::Let { name: "x".to_string(), ty: None, expr: int_lit(1) }),
            sp(ast::Statement::Break),
        ],
    );
    let ty = register_declaration(&decl, &mut table).unwrap();
    let err = build_declaration(&decl, ty, &mut table).unwrap_err();
    assert_eq!(err.kind, ErrorKind::BreakOutsideLoop);
    // the scopes that were open at the fault are still open
    assert!(table.get_var(&"x".to_string()).is_some());
    assert!(table.get_var(&"f".to_string()).is_some());
}

#[test]
fn parameters_are_paired_with_the_types_of_the_signature() {
    let mut table = SymbolTable::new();
    let decl = sp(ast::Declaration::Function {
        name: "f".to_string(),
        params: vec![
            ast::Param { name: sp("a".to_string()), ty: sp(ast::ParseType::Lit("int".to_string())) },
            ast::Param { name: sp("b".to_string()), ty: sp(ast::ParseType::Lit("int".to_string())) },
        ],
        return_ty: sp(ast::ParseType::Unit),
        stmt: sp(ast::CompoundStatement(vec![])),
    });
    let shorter = FunctionType { return_ty: Box::new(Type::Unit), params_ty: vec![Type::Bool] };
    match build_declaration(&decl, shorter, &mut table).unwrap() {
        Declaration::Function { locals, .. } => {
            assert_eq!(locals.len(), 1);
            assert_eq!(locals[0].ty, Type::Bool);
            assert_eq!(locals[0].param_index, Some(0));
        }
        other => panic!("not a function: {:?}", other),
    }
}

#[test]
fn lowering_without_room_is_not_begun() {
    let mut fb = builder(Type::Unit);
    fb.current_temp_id = usize::MAX - 2;
    assert_eq!(try_build_expression(&mut fb, &int_lit(1)), None);
    assert!(fb.items.is_empty());
    assert_eq!(fb.current_temp_id, usize::MAX - 2);
    let mut fb = builder(Type::Unit);
    fb.label_counter = usize::MAX;
    assert_eq!(try_build_statement(&mut fb, &sp(ast::Statement::Break)), None);
    assert!(fb.items.is_empty());
    assert_eq!(fb.label_counter, usize::MAX);
}

#[test]
fn lowering_with_room_is_lowering() {
    let mut fb = builder(Type::Unit);
    assert_eq!(
        try_build_expression(&mut fb, &int_lit(1)),
        Some(Ok(Value { id: 0, ty: Type::Int }))
    );
    assert_eq!(fb.items, vec![number(0, 1)]);
    let err = try_build_statement(&mut fb, &sp(ast::Statement::Break)).unwrap().unwrap_err();
    assert_eq!(err.kind, ErrorKind::BreakOutsideLoop);
    assert_eq!(fb.items, vec![number(0, 1)]);
}
