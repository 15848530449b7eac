//! Statements and declarations, form by form.

use ir_builder::ast;
use ir_builder::ast::{Span, Spanned};
use ir_builder::ir;
use ir_builder::ir::builder::{build_translation_unit, ErrorKind, SyntaxError};

fn at<T>(inner: T, start: usize, end: usize) -> Spanned<T> {
    Spanned { inner, span: Span { start, end } }
}

fn sp<T>(inner: T) -> Spanned<T> {
    at(inner, 0, 0)
}

fn ty(name: &str) -> Spanned<ast::ParseType> {
    sp(ast::ParseType::Lit(name.to_string()))
}

fn unit_ty() -> Spanned<ast::ParseType> {
    sp(ast::ParseType::Unit)
}

fn ident(name: &str) -> Spanned<ast::Expression> {
    sp(ast::Expression::Identifier(name.to_string()))
}

fn int_lit(v: i64) -> Spanned<ast::Expression> {
    sp(ast::Expression::Literal(ast::Literal::Int(v)))
}

fn bool_lit(v: bool) -> Spanned<ast::Expression> {
    sp(ast::Expression::Literal(ast::Literal::Bool(v)))
}

fn binop(
    code: ast::BinOpCode,
    lhs: Spanned<ast::Expression>,
    rhs: Spanned<ast::Expression>,
) -> Spanned<ast::Expression> {
    sp(ast::Expression::BinOp(code, Box::new(lhs), Box::new(rhs)))
}

fn call(callee: Spanned<ast::Expression>, args: Vec<Spanned<ast::Expression>>) -> Spanned<ast::Expression> {
    sp(ast::Expression::FuncCall(Box::new(callee), args))
}

fn expr_stmt(expr: Spanned<ast::Expression>) -> Spanned<ast::Statement> {
    sp(ast::Statement::Expression { expr })
}

fn ret(expr: Spanned<ast::Expression>) -> Spanned<ast::Statement> {
    sp(ast::Statement::Return { expr: Some(expr) })
}

fn let_stmt(
    name: &str,
    ty: Option<Spanned<ast::ParseType>>,
    expr: Spanned<ast::Expression>,
) -> Spanned<ast::Statement> {
    sp(ast::Statement::Let { name: name.to_string(), ty, expr })
}

fn block(stmts: Vec<Spanned<ast::Statement>>) -> Spanned<ast::CompoundStatement> {
    sp(ast::CompoundStatement(stmts))
}

fn function(
    name: &str,
    params: Vec<(&str, Spanned<ast::ParseType>)>,
    return_ty: Spanned<ast::ParseType>,
    stmts: Vec<Spanned<ast::Statement>>,
) -> Spanned<ast::Declaration> {
    sp(ast::Declaration::Function {
        name: name.to_string(),
        params: params
            .into_iter()
            .map(|(n, t)| ast::Param { name: sp(n.to_string()), ty: t })
            .collect(),
        return_ty,
        stmt: block(stmts),
    })
}

fn lower(decls: Vec<Spanned<ast::Declaration>>) -> Result<ir::TranslationUnit, SyntaxError> {
    build_translation_unit(ast::TranslationUnit { declarations: decls })
}

fn last_function(tu: ir::TranslationUnit) -> (Vec<ir::LocalVar>, Vec<ir::BasicBlock>) {
    match tu.declarations.into_iter().last().unwrap() {
        ir::Declaration::Function { locals, bbs, .. } => (locals, bbs),
        other => panic!("not a function: {:?}", other),
    }
}

/// Lowers `fn f() -> <return_ty> { <stmts> }`.
fn body(
    return_ty: Spanned<ast::ParseType>,
    stmts: Vec<Spanned<ast::Statement>>,
) -> Result<(Vec<ir::LocalVar>, Vec<ir::BasicBlock>), SyntaxError> {
    lower(vec![function("f", vec![], return_ty, stmts)]).map(last_function)
}

fn value(id: usize, ty: ir::Type) -> ir::Value {
    ir::Value { id, ty }
}

fn lvalue(ty: ir::Type) -> ir::Type {
    ir::Type::LValue(Box::new(ty))
}

fn assign(id: usize, ty: ir::Type, expr: ir::Expression) -> ir::Statement {
    ir::Statement::Assign(value(id, ty), expr)
}

fn slot(id: usize) -> ir::Expression {
    ir::Expression::LocalVarLoad(ir::LocalVarId(id))
}

fn label(id: usize) -> ir::BasicBlockId {
    ir::BasicBlockId(id)
}

fn ids(bbs: &[ir::BasicBlock]) -> Vec<usize> {
    bbs.iter().map(|bb| bb.id.0).collect()
}

fn here() -> Span {
    Span { start: 21, end: 34 }
}

fn rejected(
    return_ty: Spanned<ast::ParseType>,
    stmts: Vec<Spanned<ast::Statement>>,
) -> SyntaxError {
    body(return_ty, stmts).unwrap_err()
}

fn unit_value(id: usize) -> ir::Statement {
    assign(id, ir::Type::Unit, ir::Expression::Literal(ir::Literal::Unit))
}

fn constant(id: usize, b: bool) -> ir::Statement {
    assign(id, ir::Type::Bool, ir::Expression::Literal(ir::Literal::Bool(b)))
}

fn number(id: usize, v: i64) -> ir::Statement {
    assign(id, ir::Type::Int, ir::Expression::Literal(ir::Literal::Int(v)))
}

fn while_stmt(
    cond: Spanned<ast::Expression>,
    stmts: Vec<Spanned<ast::Statement>>,
) -> Spanned<ast::Statement> {
    sp(ast::Statement::While { cond, stmt: block(stmts) })
}

fn loop_stmt(stmts: Vec<Spanned<ast::Statement>>) -> Spanned<ast::Statement> {
    sp(ast::Statement::Loop { stmt: block(stmts) })
}

fn branch(cond: Spanned<ast::Expression>, stmts: Vec<Spanned<ast::Statement>>) -> ast::Branch {
    ast::Branch { cond, body: block(stmts) }
}

fn if_stmt(
    first: ast::Branch,
    others: Vec<ast::Branch>,
    otherwise: Option<Vec<Spanned<ast::Statement>>>,
) -> Spanned<ast::Statement> {
    sp(ast::Statement::If {
        if_branch: first,
        elseif_branches: others,
        else_branch: otherwise.map(block),
    })
}

#[test]
fn let_with_a_type_that_the_value_has_not() {
    let bad = at(
        ast::Statement::Let { name: "x".to_string(), ty: Some(ty("bool")), expr: int_lit(1) },
        21,
        34,
    );
    let err = rejected(unit_ty(), vec![bad]);
    assert_eq!(err.kind, ErrorKind::TypeMismatch);
    assert_eq!(err.msg, "Mismatching assignment types.");
    assert_eq!(err.span, here());
}

#[test]
fn let_with_an_unknown_type() {
    let written = at(ast::ParseType::Lit("integer".to_string()), 7, 14);
    let err = rejected(unit_ty(), vec![let_stmt("x", Some(written), int_lit(1))]);
    assert_eq!(err.kind, ErrorKind::UnrecognizedType);
    assert_eq!(err.msg, "Unrecognized type 'integer'.");
    assert_eq!(err.span, Span { start: 7, end: 14 });
}

#[test]
fn let_takes_the_type_of_its_value() {
    let half = sp(ast::Expression::Literal(ast::Literal::Double(0.5f64.to_bits())));
    let (locals, bbs) = body(unit_ty(), vec![let_stmt("x", None, half)]).unwrap();
    assert_eq!(
        locals,
        vec![ir::LocalVar { id: ir::LocalVarId(0), ty: ir::Type::Double, param_index: None }]
    );
    assert_eq!(
        bbs[0].stmts[..3],
        [
            assign(0, ir::Type::Double, ir::Expression::Literal(ir::Literal::Double(0.5f64.to_bits()))),
            assign(1, lvalue(ir::Type::Double), slot(0)),
            ir::Statement::LValueSet(
                value(1, lvalue(ir::Type::Double)),
                value(0, ir::Type::Double)
            ),
        ]
    );
}

#[test]
fn let_loads_a_variable_before_it_stores_it() {
    let (locals, bbs) = body(
        unit_ty(),
        vec![let_stmt("x", None, int_lit(1)), let_stmt("y", Some(ty("int")), ident("x"))],
    )
    .unwrap();
    assert_eq!(locals.len(), 2);
    assert_eq!(
        bbs[0].stmts[3..7],
        [
            assign(2, lvalue(ir::Type::Int), slot(0)),
            assign(3, ir::Type::Int, ir::Expression::LValueLoad(value(2, lvalue(ir::Type::Int)))),
            assign(4, lvalue(ir::Type::Int), slot(1)),
            ir::Statement::LValueSet(value(4, lvalue(ir::Type::Int)), value(3, ir::Type::Int)),
        ]
    );
}

#[test]
fn variable_is_not_in_sight_of_its_own_value() {
    let err = rejected(unit_ty(), vec![let_stmt("x", None, ident("x"))]);
    assert_eq!(err.kind, ErrorKind::UndefinedName);
}

#[test]
fn variable_is_out_of_sight_after_its_block() {
    let inner = sp(ast::Statement::Compound(block(vec![let_stmt("x", None, int_lit(1))])));
    let err = rejected(unit_ty(), vec![inner, expr_stmt(ident("x"))]);
    assert_eq!(err.kind, ErrorKind::UndefinedName);
    assert_eq!(err.msg, "'x' is not defined here.");
}

#[test]
fn variable_may_take_the_name_of_a_parameter() {
    let f = function(
        "f",
        vec![("a", ty("int"))],
        unit_ty(),
        vec![let_stmt("a", Some(ty("bool")), bool_lit(true))],
    );
    let (locals, _) = last_function(lower(vec![f]).unwrap());
    assert_eq!(
        locals,
        vec![
            ir::LocalVar { id: ir::LocalVarId(0), ty: ir::Type::Int, param_index: Some(0) },
            ir::LocalVar { id: ir::LocalVarId(1), ty: ir::Type::Bool, param_index: None },
        ]
    );
}

#[test]
fn two_parameters_of_one_name() {
    let f = sp(ast::Declaration::Function {
        name: "f".to_string(),
        params: vec![
            ast::Param { name: at("a".to_string(), 5, 6), ty: ty("int") },
            ast::Param { name: at("a".to_string(), 13, 14), ty: ty("bool") },
        ],
        return_ty: unit_ty(),
        stmt: block(vec![]),
    });
    let err = lower(vec![f]).unwrap_err();
    assert_eq!(err.kind, ErrorKind::DuplicateDefinition);
    assert_eq!(err.msg, "'a' is already defined.");
    assert_eq!(err.span, Span { start: 13, end: 14 });
}

#[test]
fn two_functions_of_one_name() {
    let first = function("f", vec![], unit_ty(), vec![]);
    let second = at(
        ast::Declaration::Function {
            name: "f".to_string(),
            params: vec![],
            return_ty: ty("int"),
            stmt: block(vec![ret(int_lit(1))]),
        },
        21,
        34,
    );
    let err = lower(vec![first, second]).unwrap_err();
    assert_eq!(err.kind, ErrorKind::DuplicateDefinition);
    assert_eq!(err.msg, "'f' function is already defined.");
    assert_eq!(err.span, here());
}

#[test]
fn extern_function_and_function_of_one_name() {
    let first = sp(ast::Declaration::ExternFunction {
        name: "f".to_string(),
        params: vec![],
        return_ty: unit_ty(),
    });
    let err = lower(vec![first, function("f", vec![], unit_ty(), vec![])]).unwrap_err();
    assert_eq!(err.kind, ErrorKind::DuplicateDefinition);
    let first = function("f", vec![], unit_ty(), vec![]);
    let second = at(
        ast::Declaration::ExternFunction {
            name: "f".to_string(),
            params: vec![],
            return_ty: unit_ty(),
        },
        21,
        34,
    );
    let err = lower(vec![first, second]).unwrap_err();
    assert_eq!(err.kind, ErrorKind::DuplicateDefinition);
    assert_eq!(err.msg, "'f' function is already defined.");
    assert_eq!(err.span, here());
}

#[test]
fn extern_function_keeps_name_and_type() {
    let puts = sp(ast::Declaration::ExternFunction {
        name: "putchar".to_string(),
        params: vec![ty("char")],
        return_ty: ty("int"),
    });
    let caller = function(
        "f",
        vec![("c", ty("char"))],
        ty("int"),
        vec![ret(call(ident("putchar"), vec![ident("c")]))],
    );
    let lowered = lower(vec![puts, caller]).unwrap();
    assert_eq!(lowered.declarations.len(), 2);
    assert_eq!(
        lowered.declarations[0],
        ir::Declaration::ExternFunction {
            name: "putchar".to_string(),
            ty: ir::FunctionType {
                return_ty: Box::new(ir::Type::Int),
                params_ty: vec![ir::Type::Char],
            },
        }
    );
}

#[test]
fn signature_with_an_unknown_type() {
    let bad = sp(ast::Declaration::ExternFunction {
        name: "g".to_string(),
        params: vec![ty("int"), at(ast::ParseType::Lit("string".to_string()), 9, 15)],
        return_ty: ty("int"),
    });
    let err = lower(vec![bad]).unwrap_err();
    assert_eq!(err.kind, ErrorKind::UnrecognizedType);
    assert_eq!(err.span, Span { start: 9, end: 15 });
    let bad = function("f", vec![("a", ty("int"))], ty("void"), vec![]);
    let err = lower(vec![bad]).unwrap_err();
    assert_eq!(err.kind, ErrorKind::UnrecognizedType);
    assert_eq!(err.msg, "Unrecognized type 'void'.");
}

#[test]
fn empty_program() {
    assert_eq!(lower(vec![]), Ok(ir::TranslationUnit { declarations: vec![] }));
}

#[test]
fn first_rejected_body_ends_the_lowering() {
    let bad = function("f", vec![], ty("int"), vec![]);
    let worse = function("g", vec![], ty("int"), vec![expr_stmt(ident("nowhere"))]);
    let err = lower(vec![bad, worse]).unwrap_err();
    assert_eq!(err.kind, ErrorKind::MissingReturn);
}

#[test]
fn signatures_are_checked_before_any_body() {
    let bad_body = function("f", vec![], ty("int"), vec![]);
    let bad_signature = function("g", vec![], ty("void"), vec![]);
    let err = lower(vec![bad_body, bad_signature]).unwrap_err();
    assert_eq!(err.kind, ErrorKind::UnrecognizedType);
    let bad_body = function("f", vec![], ty("int"), vec![]);
    let again = function("f", vec![], unit_ty(), vec![]);
    let err = lower(vec![bad_body, again]).unwrap_err();
    assert_eq!(err.kind, ErrorKind::DuplicateDefinition);
    assert_eq!(err.msg, "'f' function is already defined.");
}

#[test]
fn functions_may_call_each_other() {
    let a = function("a", vec![], unit_ty(), vec![expr_stmt(call(ident("b"), vec![]))]);
    let b = function("b", vec![], unit_ty(), vec![expr_stmt(call(ident("a"), vec![]))]);
    let lowered = lower(vec![a, b]).unwrap();
    let names: Vec<String> = lowered
        .declarations
        .iter()
        .map(|d| match d {
            ir::Declaration::Function { name, .. } => name.clone(),
            ir::Declaration::ExternFunction { name, .. } => name.clone(),
        })
        .collect();
    assert_eq!(names, vec!["a".to_string(), "b".to_string()]);
    let unit_fn = ir::Type::Function(ir::FunctionType {
        return_ty: Box::new(ir::Type::Unit),
        params_ty: vec![],
    });
    match &lowered.declarations[0] {
        ir::Declaration::Function { bbs, .. } => {
            assert_eq!(
                bbs[0].stmts[..2],
                [
                    assign(0, unit_fn.duplicate(), ir::Expression::GlobalLoad("b".to_string())),
                    assign(
                        1,
                        ir::Type::Unit,
                        ir::Expression::FuncCall(value(0, unit_fn.duplicate()), vec![])
                    ),
                ]
            );
        }
        other => panic!("not a function: {:?}", other),
    }
}

#[test]
fn extern_function_may_be_declared_behind_its_use() {
    let caller = function(
        "f",
        vec![("c", ty("char"))],
        ty("int"),
        vec![ret(call(ident("putchar"), vec![ident("c")]))],
    );
    let puts = sp(ast::Declaration::ExternFunction {
        name: "putchar".to_string(),
        params: vec![ty("char")],
        return_ty: ty("int"),
    });
    assert!(lower(vec![caller, puts]).is_ok());
}

#[test]
fn unit_function_need_not_return() {
    let (locals, bbs) = body(unit_ty(), vec![]).unwrap();
    assert!(locals.is_empty());
    assert_eq!(
        bbs,
        vec![ir::BasicBlock {
            id: label(0),
            stmts: vec![unit_value(0)],
            terminator: ir::Terminator::Ret(value(0, ir::Type::Unit)),
        }]
    );
}

#[test]
fn unit_function_with_statements_ends_in_a_return() {
    let (_, bbs) = body(unit_ty(), vec![let_stmt("x", None, int_lit(1))]).unwrap();
    assert_eq!(bbs.len(), 1);
    assert_eq!(bbs[0].stmts[3], unit_value(2));
    assert_eq!(bbs[0].terminator, ir::Terminator::Ret(value(2, ir::Type::Unit)));
}

#[test]
fn unit_function_that_returns_drops_the_appended_return() {
    let (_, bbs) = body(unit_ty(), vec![sp(ast::Statement::Return { expr: None })]).unwrap();
    assert_eq!(
        bbs,
        vec![ir::BasicBlock {
            id: label(0),
            stmts: vec![unit_value(0)],
            terminator: ir::Terminator::Ret(value(0, ir::Type::Unit)),
        }]
    );
}

#[test]
fn function_without_a_return() {
    let bad = at(
        ast::Declaration::Function {
            name: "f".to_string(),
            params: vec![],
            return_ty: ty("int"),
            stmt: block(vec![]),
        },
        21,
        34,
    );
    let err = lower(vec![bad]).unwrap_err();
    assert_eq!(err.kind, ErrorKind::MissingReturn);
    assert_eq!(err.msg, "Not all paths return.");
    assert_eq!(err.span, here());
}

#[test]
fn return_in_one_arm_only() {
    let one_arm = if_stmt(branch(bool_lit(true), vec![ret(int_lit(1))]), vec![], None);
    let err = rejected(ty("int"), vec![one_arm]);
    assert_eq!(err.kind, ErrorKind::MissingReturn);
    let two_of_three = if_stmt(
        branch(bool_lit(true), vec![ret(int_lit(1))]),
        vec![branch(bool_lit(false), vec![])],
        Some(vec![ret(int_lit(3))]),
    );
    let err = rejected(ty("int"), vec![two_of_three]);
    assert_eq!(err.kind, ErrorKind::MissingReturn);
}

#[test]
fn return_in_every_arm() {
    let both = if_stmt(
        branch(bool_lit(true), vec![ret(int_lit(1))]),
        vec![],
        Some(vec![ret(int_lit(2))]),
    );
    let (_, bbs) = body(ty("int"), vec![both]).unwrap();
    assert_eq!(ids(&bbs), vec![0, 2, 3]);
    assert_eq!(
        bbs[0].terminator,
        ir::Terminator::BrCond(value(0, ir::Type::Bool), label(2), label(3))
    );
    assert_eq!(bbs[1].stmts, vec![number(1, 1)]);
    assert_eq!(bbs[1].terminator, ir::Terminator::Ret(value(1, ir::Type::Int)));
    assert_eq!(bbs[2].stmts, vec![number(2, 2)]);
    assert_eq!(bbs[2].terminator, ir::Terminator::Ret(value(2, ir::Type::Int)));
}

#[test]
fn else_if_chain() {
    let chain = if_stmt(
        branch(bool_lit(true), vec![]),
        vec![branch(bool_lit(false), vec![])],
        Some(vec![]),
    );
    let (_, bbs) = body(unit_ty(), vec![chain]).unwrap();
    assert_eq!(ids(&bbs), vec![0, 2, 3, 4, 5, 1]);
    assert_eq!(bbs[0].stmts, vec![constant(0, true)]);
    assert_eq!(
        bbs[0].terminator,
        ir::Terminator::BrCond(value(0, ir::Type::Bool), label(2), label(3))
    );
    assert_eq!(bbs[1].terminator, ir::Terminator::Br(label(1)));
    assert_eq!(bbs[2].stmts, vec![constant(1, false)]);
    assert_eq!(
        bbs[2].terminator,
        ir::Terminator::BrCond(value(1, ir::Type::Bool), label(4), label(5))
    );
    assert_eq!(bbs[3].terminator, ir::Terminator::Br(label(1)));
    assert!(bbs[4].stmts.is_empty());
    assert_eq!(bbs[4].terminator, ir::Terminator::Br(label(1)));
    assert_eq!(bbs[5].stmts, vec![unit_value(2)]);
    assert_eq!(bbs[5].terminator, ir::Terminator::Ret(value(2, ir::Type::Unit)));
}

#[test]
fn condition_of_if_must_be_bool() {
    let cond = at(ast::Expression::Literal(ast::Literal::Int(1)), 21, 34);
    let err = rejected(unit_ty(), vec![if_stmt(branch(cond, vec![]), vec![], None)]);
    assert_eq!(err.kind, ErrorKind::NonBoolCondition);
    assert_eq!(err.msg, "Condition type must be bool.");
    assert_eq!(err.span, here());
}

#[test]
fn condition_of_else_if_must_be_bool() {
    let cond = at(ast::Expression::Literal(ast::Literal::Int(1)), 21, 34);
    let err = rejected(
        unit_ty(),
        vec![if_stmt(branch(bool_lit(true), vec![]), vec![branch(cond, vec![])], None)],
    );
    assert_eq!(err.kind, ErrorKind::NonBoolCondition);
    assert_eq!(err.span, here());
}

#[test]
fn condition_of_while_must_be_bool() {
    let cond = at(ast::Expression::Literal(ast::Literal::Int(1)), 21, 34);
    let err = rejected(unit_ty(), vec![while_stmt(cond, vec![])]);
    assert_eq!(err.kind, ErrorKind::NonBoolCondition);
    assert_eq!(err.msg, "Condition type must be bool.");
    assert_eq!(err.span, here());
}

#[test]
fn condition_may_be_a_variable() {
    let f = function(
        "f",
        vec![("c", ty("bool"))],
        unit_ty(),
        vec![while_stmt(ident("c"), vec![])],
    );
    let (_, bbs) = last_function(lower(vec![f]).unwrap());
    assert_eq!(
        bbs[1].stmts,
        vec![
            assign(0, lvalue(ir::Type::Bool), slot(0)),
            assign(1, ir::Type::Bool, ir::Expression::LValueLoad(value(0, lvalue(ir::Type::Bool)))),
        ]
    );
    assert_eq!(
        bbs[1].terminator,
        ir::Terminator::BrCond(value(1, ir::Type::Bool), label(2), label(3))
    );
}

#[test]
fn while_loop() {
    let (_, bbs) = body(unit_ty(), vec![while_stmt(bool_lit(true), vec![])]).unwrap();
    assert_eq!(
        bbs,
        vec![
            ir::BasicBlock { id: label(0), stmts: vec![], terminator: ir::Terminator::Br(label(1)) },
            ir::BasicBlock {
                id: label(1),
                stmts: vec![constant(0, true)],
                terminator: ir::Terminator::BrCond(value(0, ir::Type::Bool), label(2), label(3)),
            },
            ir::BasicBlock { id: label(2), stmts: vec![], terminator: ir::Terminator::Br(label(1)) },
            ir::BasicBlock {
                id: label(3),
                stmts: vec![unit_value(1)],
                terminator: ir::Terminator::Ret(value(1, ir::Type::Unit)),
            },
        ]
    );
}

#[test]
fn loop_with_break() {
    let (_, bbs) = body(unit_ty(), vec![loop_stmt(vec![sp(ast::Statement::Break)])]).unwrap();
    assert_eq!(
        bbs,
        vec![
            ir::BasicBlock { id: label(0), stmts: vec![], terminator: ir::Terminator::Br(label(1)) },
            ir::BasicBlock { id: label(1), stmts: vec![], terminator: ir::Terminator::Br(label(2)) },
            ir::BasicBlock {
                id: label(2),
                stmts: vec![unit_value(0)],
                terminator: ir::Terminator::Ret(value(0, ir::Type::Unit)),
            },
        ]
    );
}

#[test]
fn loop_with_continue_never_falls_off() {
    let (_, bbs) = body(ty("int"), vec![loop_stmt(vec![sp(ast::Statement::Continue)])]).unwrap();
    assert_eq!(
        bbs,
        vec![
            ir::BasicBlock { id: label(0), stmts: vec![], terminator: ir::Terminator::Br(label(1)) },
            ir::BasicBlock { id: label(1), stmts: vec![], terminator: ir::Terminator::Br(label(1)) },
        ]
    );
}

#[test]
fn loop_that_can_be_left_needs_a_return_behind_it() {
    let err = rejected(ty("int"), vec![loop_stmt(vec![sp(ast::Statement::Break)])]);
    assert_eq!(err.kind, ErrorKind::MissingReturn);
    let while_true = while_stmt(bool_lit(true), vec![ret(int_lit(1))]);
    let err = rejected(ty("int"), vec![while_true]);
    assert_eq!(err.kind, ErrorKind::MissingReturn);
}

#[test]
fn break_in_the_inner_loop_leaves_the_inner_loop() {
    let inner = loop_stmt(vec![sp(ast::Statement::Break)]);
    let outer = loop_stmt(vec![inner, sp(ast::Statement::Continue)]);
    let (_, bbs) = body(ty("int"), vec![outer]).unwrap();
    // outer: continue 1, break 2; inner: continue 3, break 4
    assert_eq!(ids(&bbs), vec![0, 1, 3, 4]);
    assert_eq!(bbs[1].terminator, ir::Terminator::Br(label(3)));
    assert_eq!(bbs[2].terminator, ir::Terminator::Br(label(4)));
    assert_eq!(bbs[3].terminator, ir::Terminator::Br(label(1)));
}

#[test]
fn break_outside_a_loop() {
    let err = rejected(unit_ty(), vec![at(ast::Statement::Break, 21, 34)]);
    assert_eq!(err.kind, ErrorKind::BreakOutsideLoop);
    assert_eq!(err.msg, "Break outside loop.");
    assert_eq!(err.span, here());
}

#[test]
fn continue_outside_a_loop() {
    let err = rejected(unit_ty(), vec![at(ast::Statement::Continue, 21, 34)]);
    assert_eq!(err.kind, ErrorKind::ContinueOutsideLoop);
    assert_eq!(err.msg, "Continue outside loop.");
    assert_eq!(err.span, here());
}

#[test]
fn break_behind_a_loop() {
    let err = rejected(unit_ty(), vec![loop_stmt(vec![]), at(ast::Statement::Break, 21, 34)]);
    assert_eq!(err.kind, ErrorKind::BreakOutsideLoop);
    assert_eq!(err.span, here());
}

#[test]
fn break_inside_an_if_inside_a_loop() {
    let leave = if_stmt(branch(bool_lit(true), vec![sp(ast::Statement::Break)]), vec![], None);
    assert!(body(unit_ty(), vec![loop_stmt(vec![leave])]).is_ok());
}

#[test]
fn return_of_another_type() {
    let wrong = at(ast::Expression::Literal(ast::Literal::Bool(true)), 21, 34);
    let err = rejected(ty("int"), vec![ret(wrong)]);
    assert_eq!(err.kind, ErrorKind::TypeMismatch);
    assert_eq!(err.msg, "Mismatching return type.");
    assert_eq!(err.span, here());
}

#[test]
fn return_without_a_value_where_one_is_due() {
    let err = rejected(ty("int"), vec![at(ast::Statement::Return { expr: None }, 21, 34)]);
    assert_eq!(err.kind, ErrorKind::TypeMismatch);
    assert_eq!(err.msg, "Mismatching return type.");
    assert_eq!(err.span, here());
}

#[test]
fn return_loads_a_variable() {
    let f = function("f", vec![("a", ty("int"))], ty("int"), vec![ret(ident("a"))]);
    let (_, bbs) = last_function(lower(vec![f]).unwrap());
    assert_eq!(bbs[0].terminator, ir::Terminator::Ret(value(1, ir::Type::Int)));
}

#[test]
fn statements_behind_a_return_are_dropped() {
    let (_, bbs) = body(ty("int"), vec![ret(int_lit(1)), ret(int_lit(2))]).unwrap();
    assert_eq!(
        bbs,
        vec![ir::BasicBlock {
            id: label(0),
            stmts: vec![number(0, 1)],
            terminator: ir::Terminator::Ret(value(0, ir::Type::Int)),
        }]
    );
}

#[test]
fn each_function_numbers_from_zero() {
    let f = function("f", vec![], ty("int"), vec![ret(int_lit(1))]);
    let g = function("g", vec![], ty("int"), vec![ret(int_lit(2))]);
    let lowered = lower(vec![f, g]).unwrap();
    let (_, bbs) = last_function(lowered);
    assert_eq!(bbs[0].id, label(0));
    assert_eq!(bbs[0].stmts, vec![number(0, 2)]);
}
