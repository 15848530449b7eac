//! Whether a program is small enough for its values and labels to be
//! numbered by machine words, which the lowering pass takes for granted.

use crate::ast;
use crate::ast::Spanned;
use crate::ir::builder::expression::{
    build_expression, expression_weight, expressions_weight, lower_expression, lowered_value_is,
};
use crate::ir::builder::function::FunctionBuilder;
use crate::ir::builder::statement::{
    branch_weight, branches_weight, build_statement, compound_weight, lower_statement,
    lowered_state_is, statement_weight, statements_weight,
};
use crate::ir::builder::{
    build_translation_unit, declaration_weight, fits, lower_translation_unit,
    translation_unit_is, SyntaxError,
};
use crate::ir::{TranslationUnit, Value};
use vstd::prelude::*;

verus! {

/// Whether `r` is the count `n`: `Some(n)` where a machine word holds it,
/// `None` where none does.
pub open spec fn counts(r: Option<usize>, n: nat) -> bool {
    match r {
        Some(w) => w == n,
        None => n > usize::MAX,
    }
}

/// The sum of two counts.
fn plus(a: Option<usize>, b: Option<usize>, Ghost(m): Ghost<nat>, Ghost(n): Ghost<nat>) -> (r: Option<
    usize,
>)
    requires
        counts(a, m),
        counts(b, n),
    ensures
        counts(r, m + n),
{
    match (a, b) {
        (Some(x), Some(y)) => if y > usize::MAX - x {
            None
        } else {
            Some(x + y)
        },
        _ => None,
    }
}

/// The weight of an expression.
fn measure_expression(expr: &Spanned<ast::Expression>) -> (r: Option<usize>)
    ensures
        counts(r, expression_weight(*expr)),
    decreases expr, 1nat,
{
    let inner = match &expr.inner {
        ast::Expression::Assign(lhs, rhs) => plus(
            measure_expression(lhs),
            measure_expression(rhs),
            Ghost(expression_weight(**lhs)),
            Ghost(expression_weight(**rhs)),
        ),
        ast::Expression::Subscript(array, index) => plus(
            measure_expression(array),
            measure_expression(index),
            Ghost(expression_weight(**array)),
            Ghost(expression_weight(**index)),
        ),
        ast::Expression::BinOp(_, lhs, rhs) => plus(
            measure_expression(lhs),
            measure_expression(rhs),
            Ghost(expression_weight(**lhs)),
            Ghost(expression_weight(**rhs)),
        ),
        ast::Expression::UnOp(_, sub) => measure_expression(sub),
        ast::Expression::FuncCall(func, params) => plus(
            measure_expression(func),
            measure_expressions(expr, params),
            Ghost(expression_weight(**func)),
            Ghost(expressions_weight(params@, 0)),
        ),
        ast::Expression::Cast(sub, _) => measure_expression(sub),
        ast::Expression::Paren(sub) => measure_expression(sub),
        ast::Expression::Identifier(_) => Some(0),
        ast::Expression::Literal(_) => Some(0),
        ast::Expression::ArrayFullLiteral(_) => Some(0),
        ast::Expression::ArrayDefaultLiteral(_, _) => Some(0),
    };
    plus(Some(6), inner, Ghost(6), Ghost((expression_weight(*expr) - 6) as nat))
}

/// The sum of the weights of the arguments of a call.
#[verifier::loop_isolation(false)]
fn measure_expressions(expr: &Spanned<ast::Expression>, params: &Vec<Spanned<ast::Expression>>) -> (r: Option<
    usize,
>)
    requires
        expr.inner is FuncCall,
        expr.inner->FuncCall_1 == *params,
    ensures
        counts(r, expressions_weight(params@, 0)),
    decreases expr, 0nat,
{
    let mut total: usize = 0;
    let mut i: usize = 0;
    while i < params.len()
        invariant
            i <= params.len(),
            total + expressions_weight(params@, i as int) == expressions_weight(params@, 0),
        decreases params.len() - i,
    {
        match plus(
            Some(total),
            measure_expression(&params[i]),
            Ghost(total as nat),
            Ghost(expression_weight(params[i as int])),
        ) {
            Some(next) => {
                total = next;
            },
            None => {
                return None;
            },
        }
        i += 1;
    }
    Some(total)
}

/// The weight of a statement.
fn measure_statement(stmt: &Spanned<ast::Statement>) -> (r: Option<usize>)
    ensures
        counts(r, statement_weight(*stmt)),
    decreases stmt, 1nat,
{
    match &stmt.inner {
        ast::Statement::Compound(body) => measure_compound(body),
        ast::Statement::Let { name, ty, expr } => plus(
            Some(1),
            measure_expression(expr),
            Ghost(1),
            Ghost(expression_weight(*expr)),
        ),
        ast::Statement::Loop { stmt: body } => plus(
            Some(2),
            measure_compound(body),
            Ghost(2),
            Ghost(compound_weight(*body)),
        ),
        ast::Statement::While { cond, stmt: body } => {
            let inner = plus(
                measure_expression(cond),
                measure_compound(body),
                Ghost(expression_weight(*cond)),
                Ghost(compound_weight(*body)),
            );
            plus(
                Some(3),
                inner,
                Ghost(3),
                Ghost(expression_weight(*cond) + compound_weight(*body)),
            )
        },
        ast::Statement::If { if_branch, elseif_branches, else_branch } => {
            let first = plus(
                Some(1),
                measure_branch(if_branch),
                Ghost(1),
                Ghost(branch_weight(*if_branch)),
            );
            let arms = plus(
                first,
                measure_branches(stmt, elseif_branches),
                Ghost(1 + branch_weight(*if_branch)),
                Ghost(branches_weight(elseif_branches@, 0)),
            );
            match else_branch {
                Some(body) => plus(
                    arms,
                    measure_compound(body),
                    Ghost(1 + branch_weight(*if_branch) + branches_weight(elseif_branches@, 0)),
                    Ghost(compound_weight(*body)),
                ),
                None => arms,
            }
        },
        ast::Statement::Break => Some(1),
        ast::Statement::Continue => Some(1),
        ast::Statement::Return { expr } => match expr {
            Some(e) => plus(Some(2), measure_expression(e), Ghost(2), Ghost(expression_weight(*e))),
            None => Some(2),
        },
        ast::Statement::Expression { expr } => measure_expression(expr),
    }
}

/// The weight of one arm of an `if`.
fn measure_branch(branch: &ast::Branch) -> (r: Option<usize>)
    ensures
        counts(r, branch_weight(*branch)),
    decreases branch, 0nat,
{
    let inner = plus(
        measure_expression(&branch.cond),
        measure_compound(&branch.body),
        Ghost(expression_weight(branch.cond)),
        Ghost(compound_weight(branch.body)),
    );
    plus(
        Some(2),
        inner,
        Ghost(2),
        Ghost(expression_weight(branch.cond) + compound_weight(branch.body)),
    )
}

/// The sum of the weights of the `else if` arms of an `if`.
#[verifier::loop_isolation(false)]
fn measure_branches(stmt: &Spanned<ast::Statement>, branches: &Vec<ast::Branch>) -> (r: Option<usize>)
    requires
        stmt.inner is If,
        stmt.inner->elseif_branches == *branches,
    ensures
        counts(r, branches_weight(branches@, 0)),
    decreases stmt, 0nat,
{
    let mut total: usize = 0;
    let mut i: usize = 0;
    while i < branches.len()
        invariant
            i <= branches.len(),
            total + branches_weight(branches@, i as int) == branches_weight(branches@, 0),
        decreases branches.len() - i,
    {
        match plus(
            Some(total),
            measure_branch(&branches[i]),
            Ghost(total as nat),
            Ghost(branch_weight(branches[i as int])),
        ) {
            Some(next) => {
                total = next;
            },
            None => {
                return None;
            },
        }
        i += 1;
    }
    Some(total)
}

/// The weight of a block.
#[verifier::loop_isolation(false)]
fn measure_compound(body: &Spanned<ast::CompoundStatement>) -> (r: Option<usize>)
    ensures
        counts(r, compound_weight(*body)),
    decreases body, 0nat,
{
    let stmts = &body.inner.0;
    let mut total: usize = 0;
    let mut i: usize = 0;
    while i < stmts.len()
        invariant
            i <= stmts.len(),
            total + statements_weight(stmts@, i as int) == statements_weight(stmts@, 0),
        decreases stmts.len() - i,
    {
        match plus(
            Some(total),
            measure_statement(&stmts[i]),
            Ghost(total as nat),
            Ghost(statement_weight(stmts[i as int])),
        ) {
            Some(next) => {
                total = next;
            },
            None => {
                return None;
            },
        }
        i += 1;
    }
    Some(total)
}

/// The weight of a declaration.
fn measure_declaration(decl: &Spanned<ast::Declaration>) -> (r: Option<usize>)
    ensures
        counts(r, declaration_weight(*decl)),
{
    match &decl.inner {
        ast::Declaration::ExternFunction { .. } => Some(0),
        ast::Declaration::Function { stmt, .. } => plus(
            Some(2),
            measure_compound(stmt),
            Ghost(2),
            Ghost(compound_weight(*stmt)),
        ),
    }
}

/// Whether the values and labels of each function of the program can be
/// numbered by machine words.
pub fn can_lower(tu: &ast::TranslationUnit) -> (r: bool)
    ensures
        r == fits(*tu),
{
    let mut i: usize = 0;
    while i < tu.declarations.len()
        invariant
            i <= tu.declarations.len(),
            forall|j: int|
                0 <= j < i ==> declaration_weight(#[trigger] tu.declarations[j]) < usize::MAX,
        decreases tu.declarations.len() - i,
    {
        match measure_declaration(&tu.declarations[i]) {
            Some(weight) => {
                if weight == usize::MAX {
                    return false;
                }
            },
            None => {
                return false;
            },
        }
        i += 1;
    }
    true
}

/// Lowers a program where [`can_lower`] holds of it, as
/// [`build_translation_unit`] does; gives `None` where not.
pub fn try_build_translation_unit(tu: ast::TranslationUnit) -> (r: Option<
    Result<TranslationUnit, SyntaxError>,
>)
    ensures
        r is Some <==> fits(tu),
        r matches Some(lowered) ==> translation_unit_is(lowered, lower_translation_unit(tu)),
{
    if can_lower(&tu) {
        Some(build_translation_unit(tu))
    } else {
        None
    }
}

/// Whether the builder has room for `weight` more values and labels.
fn has_room(fb: &FunctionBuilder, weight: Option<usize>, Ghost(n): Ghost<nat>) -> (r: bool)
    requires
        counts(weight, n),
    ensures
        r == fb@.has_room(n),
{
    match weight {
        Some(w) => w <= usize::MAX - fb.current_temp_id && w <= usize::MAX - fb.label_counter,
        None => false,
    }
}

/// Lowers an expression where the builder has room for it, as
/// [`build_expression`] does; gives `None`, and leaves the builder as it
/// was, where not.
pub fn try_build_expression(fb: &mut FunctionBuilder, expr: &Spanned<ast::Expression>) -> (r: Option<
    Result<Value, SyntaxError>,
>)
    requires
        old(fb)@.wf(),
    ensures
        r is Some <==> old(fb)@.has_room(expression_weight(*expr)),
        r matches Some(lowered) ==> lowered_value_is(
            lowered,
            final(fb)@,
            lower_expression(old(fb)@, *expr),
        ),
        r is None ==> final(fb)@ == old(fb)@,
{
    if has_room(fb, measure_expression(expr), Ghost(expression_weight(*expr))) {
        Some(build_expression(fb, expr))
    } else {
        None
    }
}

/// Lowers a statement where the builder has room for it, as
/// [`build_statement`] does; gives `None`, and leaves the builder as it
/// was, where not.
pub fn try_build_statement(fb: &mut FunctionBuilder, stmt: &Spanned<ast::Statement>) -> (r: Option<
    Result<(), SyntaxError>,
>)
    requires
        old(fb)@.wf(),
        stmt.inner is Let ==> old(fb)@.has_scope(),
    ensures
        r is Some <==> old(fb)@.has_room(statement_weight(*stmt)),
        r matches Some(lowered) ==> lowered_state_is(
            lowered,
            final(fb)@,
            lower_statement(old(fb)@, *stmt),
        ),
        r is None ==> final(fb)@ == old(fb)@,
{
    if has_room(fb, measure_statement(stmt), Ghost(statement_weight(*stmt))) {
        Some(build_statement(fb, stmt))
    } else {
        None
    }
}

} // verus!
