//! Whole programs through the lowering pass.

use ir_builder::ast;
use ir_builder::ast::{Span, Spanned};
use ir_builder::ir;
use ir_builder::ir::builder::{build_translation_unit, ErrorKind, SyntaxError};

fn at<T>(inner: T, start: usize, end: usize) -> Spanned<T> {
    Spanned { inner, span: Span { start, end } }
}

fn sp<T>(inner: T) -> Spanned<T> {
    at(inner, 0, 0)
}

fn ty(name: &str) -> Spanned<ast::ParseType> {
    sp(ast::ParseType::Lit(name.to_string()))
}

fn unit_ty() -> Spanned<ast::ParseType> {
    sp(ast::ParseType::Unit)
}

fn ident(name: &str) -> Spanned<ast::Expression> {
    sp(ast::Expression::Identifier(name.to_string()))
}

fn int_lit(v: i64) -> Spanned<ast::Expression> {
    sp(ast::Expression::Literal(ast::Literal::Int(v)))
}

fn bool_lit(v: bool) -> Spanned<ast::Expression> {
    sp(ast::Expression::Literal(ast::Literal::Bool(v)))
}

fn binop(
    code: ast::BinOpCode,
    lhs: Spanned<ast::Expression>,
    rhs: Spanned<ast::Expression>,
) -> Spanned<ast::Expression> {
    sp(ast::Expression::BinOp(code, Box::new(lhs), Box::new(rhs)))
}

fn call(callee: Spanned<ast::Expression>, args: Vec<Spanned<ast::Expression>>) -> Spanned<ast::Expression> {
    sp(ast::Expression::FuncCall(Box::new(callee), args))
}

fn expr_stmt(expr: Spanned<ast::Expression>) -> Spanned<ast::Statement> {
    sp(ast::Statement::Expression { expr })
}

fn ret(expr: Spanned<ast::Expression>) -> Spanned<ast::Statement> {
    sp(ast::Statement::Return { expr: Some(expr) })
}

fn let_stmt(
    name: &str,
    ty: Option<Spanned<ast::ParseType>>,
    expr: Spanned<ast::Expression>,
) -> Spanned<ast::Statement> {
    sp(ast::Statement::Let { name: name.to_string(), ty, expr })
}

fn block(stmts: Vec<Spanned<ast::Statement>>) -> Spanned<ast::CompoundStatement> {
    sp(ast::CompoundStatement(stmts))
}

fn function(
    name: &str,
    params: Vec<(&str, Spanned<ast::ParseType>)>,
    return_ty: Spanned<ast::ParseType>,
    stmts: Vec<Spanned<ast::Statement>>,
) -> Spanned<ast::Declaration> {
    sp(ast::Declaration::Function {
        name: name.to_string(),
        params: params
            .into_iter()
            .map(|(n, t)| ast::Param { name: sp(n.to_string()), ty: t })
            .collect(),
        return_ty,
        stmt: block(stmts),
    })
}

fn lower(decls: Vec<Spanned<ast::Declaration>>) -> Result<ir::TranslationUnit, SyntaxError> {
    build_translation_unit(ast::TranslationUnit { declarations: decls })
}

fn last_function(tu: ir::TranslationUnit) -> (Vec<ir::LocalVar>, Vec<ir::BasicBlock>) {
    match tu.declarations.into_iter().last().unwrap() {
        ir::Declaration::Function { locals, bbs, .. } => (locals, bbs),
        other => panic!("not a function: {:?}", other),
    }
}

/// Lowers `fn f() -> <return_ty> { <stmts> }`.
fn body(
    return_ty: Spanned<ast::ParseType>,
    stmts: Vec<Spanned<ast::Statement>>,
) -> Result<(Vec<ir::LocalVar>, Vec<ir::BasicBlock>), SyntaxError> {
    lower(vec![function("f", vec![], return_ty, stmts)]).map(last_function)
}

fn value(id: usize, ty: ir::Type) -> ir::Value {
    ir::Value { id, ty }
}

fn lvalue(ty: ir::Type) -> ir::Type {
    ir::Type::LValue(Box::new(ty))
}

fn assign(id: usize, ty: ir::Type, expr: ir::Expression) -> ir::Statement {
    ir::Statement::Assign(value(id, ty), expr)
}

fn slot(id: usize) -> ir::Expression {
    ir::Expression::LocalVarLoad(ir::LocalVarId(id))
}

fn label(id: usize) -> ir::BasicBlockId {
    ir::BasicBlockId(id)
}

fn ids(bbs: &[ir::BasicBlock]) -> Vec<usize> {
    bbs.iter().map(|bb| bb.id.0).collect()
}

#[test]
fn add_lowers_to_one_block() {
    let add = function(
        "add",
        vec![("a", ty("int")), ("b", ty("int"))],
        ty("int"),
        vec![ret(binop(ast::BinOpCode::Add, ident("a"), ident("b")))],
    );
    let lowered = lower(vec![add]).unwrap();
    let expected = ir::Declaration::Function {
        name: "add".to_string(),
        ty: ir::FunctionType {
            return_ty: Box::new(ir::Type::Int),
            params_ty: vec![ir::Type::Int, ir::Type::Int],
        },
        locals: vec![
            ir::LocalVar { id: ir::LocalVarId(0), ty: ir::Type::Int, param_index: Some(0) },
            ir::LocalVar { id: ir::LocalVarId(1), ty: ir::Type::Int, param_index: Some(1) },
        ],
        bbs: vec![ir::BasicBlock {
            id: label(0),
            stmts: vec![
                assign(0, lvalue(ir::Type::Int), slot(0)),
                assign(1, ir::Type::Int, ir::Expression::LValueLoad(value(0, lvalue(ir::Type::Int)))),
                assign(2, lvalue(ir::Type::Int), slot(1)),
                assign(3, ir::Type::Int, ir::Expression::LValueLoad(value(2, lvalue(ir::Type::Int)))),
                assign(
                    4,
                    ir::Type::Int,
                    ir::Expression::BinOp(
                        ir::BinOpCode::IntAdd,
                        value(1, ir::Type::Int),
                        value(3, ir::Type::Int),
                    ),
                ),
            ],
            terminator: ir::Terminator::Ret(value(4, ir::Type::Int)),
        }],
    };
    assert_eq!(lowered.declarations, vec![expected]);
}

#[test]
fn if_without_else_before_return() {
    let conditional = sp(ast::Statement::If {
        if_branch: ast::Branch { cond: bool_lit(true), body: block(vec![ret(int_lit(1))]) },
        elseif_branches: vec![],
        else_branch: None,
    });
    let (locals, bbs) = body(ty("int"), vec![conditional, ret(int_lit(2))]).unwrap();
    assert!(locals.is_empty());
    // the entry, the arm, the empty block past the arm and the block where
    // they meet; the block behind the `return` of the arm is dropped
    assert_eq!(ids(&bbs), vec![0, 2, 3, 1]);
    assert_eq!(
        bbs[0].terminator,
        ir::Terminator::BrCond(value(0, ir::Type::Bool), label(2), label(3))
    );
    assert_eq!(bbs[1].terminator, ir::Terminator::Ret(value(1, ir::Type::Int)));
    assert!(bbs[2].stmts.is_empty());
    assert_eq!(bbs[2].terminator, ir::Terminator::Br(label(1)));
    assert_eq!(
        bbs[3].stmts,
        vec![assign(2, ir::Type::Int, ir::Expression::Literal(ir::Literal::Int(2)))]
    );
    assert_eq!(bbs[3].terminator, ir::Terminator::Ret(value(2, ir::Type::Int)));
}

#[test]
fn assignment_to_undeclared_name() {
    let target = at(ast::Expression::Identifier("x".to_string()), 17, 18);
    let store = at(ast::Expression::Assign(Box::new(target), Box::new(int_lit(5))), 17, 22);
    let err = body(unit_ty(), vec![expr_stmt(store)]).unwrap_err();
    assert_eq!(err.kind, ErrorKind::UndefinedName);
    assert_eq!(err.span, Span { start: 17, end: 18 });
    assert_eq!(err.msg, "'x' is not defined here.");
}

#[test]
fn unknown_escape_in_char_literal() {
    let lit = at(ast::Expression::Literal(ast::Literal::Char("\\q".to_string())), 3, 7);
    let err = body(unit_ty(), vec![expr_stmt(lit)]).unwrap_err();
    assert_eq!(err.kind, ErrorKind::InvalidEscape);
    assert_eq!(err.span, Span { start: 3, end: 7 });
    assert_eq!(err.msg, "Invalid escape char 'q'.");
}

#[test]
fn shadowing_in_inner_scope() {
    let inner =
        sp(ast::Statement::Compound(block(vec![let_stmt("x", Some(ty("bool")), bool_lit(true))])));
    let (locals, _) =
        body(unit_ty(), vec![let_stmt("x", Some(ty("int")), int_lit(1)), inner]).unwrap();
    assert_eq!(
        locals,
        vec![
            ir::LocalVar { id: ir::LocalVarId(0), ty: ir::Type::Int, param_index: None },
            ir::LocalVar { id: ir::LocalVarId(1), ty: ir::Type::Bool, param_index: None },
        ]
    );
}

#[test]
fn redefinition_in_same_scope() {
    let second = at(
        ast::Statement::Let { name: "x".to_string(), ty: Some(ty("int")), expr: int_lit(2) },
        30,
        45,
    );
    let err =
        body(unit_ty(), vec![let_stmt("x", Some(ty("int")), int_lit(1)), second]).unwrap_err();
    assert_eq!(err.kind, ErrorKind::DuplicateDefinition);
    assert_eq!(err.span, Span { start: 30, end: 45 });
    assert_eq!(err.msg, "'x' is already defined in this scope.");
}

#[test]
fn every_block_in_reach_of_the_entry_is_in_the_result() {
    let inner = sp(ast::Statement::While {
        cond: bool_lit(true),
        stmt: block(vec![sp(ast::Statement::Break), sp(ast::Statement::Continue)]),
    });
    let f = function(
        "f",
        vec![("a", ty("bool"))],
        ty("int"),
        vec![
            sp(ast::Statement::Loop {
                stmt: block(vec![
                    inner,
                    sp(ast::Statement::If {
                        if_branch: ast::Branch {
                            cond: binop(ast::BinOpCode::LogicalAnd, ident("a"), bool_lit(true)),
                            body: block(vec![ret(int_lit(1))]),
                        },
                        elseif_branches: vec![],
                        else_branch: Some(block(vec![sp(ast::Statement::Continue)])),
                    }),
                ]),
            }),
            ret(call(ident("f"), vec![ident("a")])),
        ],
    );
    let (_, bbs) = last_function(lower(vec![f]).unwrap());
    assert_eq!(bbs[0].id, label(0));
    assert_eq!(bbs.iter().filter(|bb| bb.id == label(0)).count(), 1);
    for bb in &bbs {
        assert_eq!(bbs.iter().filter(|other| other.id == bb.id).count(), 1);
    }
    // from the entry every label that is reached names a block of the result
    let mut reached = vec![label(0)];
    let mut at_index = 0;
    while at_index < reached.len() {
        let bb = bbs.iter().find(|bb| bb.id == reached[at_index]).unwrap();
        let targets = match &bb.terminator {
            ir::Terminator::Br(t) => vec![*t],
            ir::Terminator::BrCond(_, t, f) => vec![*t, *f],
            ir::Terminator::Ret(_) => vec![],
        };
        for t in targets {
            if !reached.contains(&t) {
                reached.push(t);
            }
        }
        at_index += 1;
    }
    assert!(reached.len() > 4);
}
