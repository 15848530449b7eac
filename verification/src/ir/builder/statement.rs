//! Lowering of statements: each statement appends statements and block
//! boundaries to the buffer of the function being lowered.

use crate::ast;
use crate::ast::{Span, Spanned};
use crate::ir::builder::error::{
    named_error, plain_error, ErrorKind, SyntaxError, SyntaxErrorView,
};
use crate::ir::builder::expression::{
    build_expression, build_operand, expression_weight, lower_expression, lower_operand,
    Rejected,
};
use crate::ir::builder::function::{BuilderState, FunctionBuilder};
use crate::ir::builder::types::{build_type, resolve_type};
use crate::ir::{
    BasicBlockId, Expression, ExpressionView, Literal, LocalVarId, Statement, StatementView,
    Terminator, TerminatorView, Type, TypeView, Value, ValueView,
};
use vstd::prelude::*;

verus! {

/// The outcome of lowering a statement from some state: the state reached,
/// or the reason the statement is rejected.
pub type LoweredState = Result<BuilderState, Rejected>;

/// An upper bound on the number of fresh values, and on the number of fresh
/// labels, that lowering a statement can take.
pub open spec fn statement_weight(stmt: Spanned<ast::Statement>) -> nat
    decreases stmt, 0nat,
{
    match stmt.inner {
        ast::Statement::Compound(body) => compound_weight(body),
        ast::Statement::Let { name, ty, expr } => 1 + expression_weight(expr),
        ast::Statement::Loop { stmt: body } => 2 + compound_weight(body),
        ast::Statement::While { cond, stmt: body } => 3 + expression_weight(cond)
            + compound_weight(body),
        ast::Statement::If { if_branch, elseif_branches, else_branch } => 1 + branch_weight(
            if_branch,
        ) + branches_weight(elseif_branches@, 0) + match else_branch {
            Some(body) => compound_weight(body),
            None => 0,
        },
        ast::Statement::Break => 1,
        ast::Statement::Continue => 1,
        ast::Statement::Return { expr } => 2 + match expr {
            Some(e) => expression_weight(e),
            None => 0,
        },
        ast::Statement::Expression { expr } => expression_weight(expr),
    }
}

/// The weight of a block: the sum of the weights of its statements.
pub open spec fn compound_weight(body: Spanned<ast::CompoundStatement>) -> nat
    decreases body, 0nat,
{
    statements_weight(body.inner.0@, 0)
}

/// The sum of the weights of the statements from position `from` on.
pub open spec fn statements_weight(stmts: Seq<Spanned<ast::Statement>>, from: int) -> nat
    decreases stmts, stmts.len() - from,
{
    if 0 <= from < stmts.len() {
        statement_weight(stmts[from]) + statements_weight(stmts, from + 1)
    } else {
        0
    }
}

/// The weight of one branch of an `if`.
pub open spec fn branch_weight(branch: ast::Branch) -> nat
    decreases branch, 0nat,
{
    2 + expression_weight(branch.cond) + compound_weight(branch.body)
}

/// The sum of the weights of the branches from position `from` on.
pub open spec fn branches_weight(branches: Seq<ast::Branch>, from: int) -> nat
    decreases branches, branches.len() - from,
{
    if 0 <= from < branches.len() {
        branch_weight(branches[from]) + branches_weight(branches, from + 1)
    } else {
        0
    }
}

/// A `let`, its initializer lowered to `value`: the variable gets the type
/// `ty`, which must be the type of the initializer; its name must be new in
/// the innermost scope. A fresh stack slot is declared, its storage location
/// is taken and the initializer stored there.
pub open spec fn finish_let(s: BuilderState, name: Seq<char>, ty: TypeView, value: ValueView, span: Span) -> LoweredState {
    if ty == value.ty {
        let (s1, fresh) = s.register_local_variable(name, ty);
        if fresh {
            let (s2, lvalue) = s1.assign(ty.stored(), ExpressionView::LocalVarLoad(s.local_counter));
            Ok(s2.push_statement(StatementView::LValueSet(lvalue, value)))
        } else {
            s1.rejected(named_error(
                    ErrorKind::DuplicateDefinition,
                    "",
                    name,
                    " is already defined in this scope.",
                    span,
                ),
            )
        }
    } else {
        s.rejected(plain_error(ErrorKind::TypeMismatch, "Mismatching assignment types.", span))
    }
}

/// A `return` of `value`, which must have the type that the function
/// returns: the open block ends in the return.
pub open spec fn finish_return(s: BuilderState, value: ValueView, span: Span) -> LoweredState {
    if value.ty == *s.ty.return_ty {
        Ok(s.push_terminator(Some(TerminatorView::Ret(value))))
    } else {
        s.rejected(plain_error(ErrorKind::TypeMismatch, "Mismatching return type.", span))
    }
}

/// The error for a condition that is not a `Bool`.
pub open spec fn condition_error(span: Span) -> SyntaxErrorView {
    plain_error(ErrorKind::NonBoolCondition, "Condition type must be bool.", span)
}

/// What a statement lowers to from the state `s`.
///
/// A `loop` opens a block under a fresh label, to which `continue` and the
/// end of the body jump; `break` jumps to a second fresh label, which opens
/// the block after the loop. A `while` does the same and branches on its
/// condition at the start of each round, inside a scope of its own. An `if`
/// takes one fresh label for the block where its arms meet and wraps its
/// conditions and arms in one scope. `break`, `continue` and `return` each
/// end the open block and open one under a fresh label, which nothing jumps
/// to.
pub open spec fn lower_statement(s: BuilderState, stmt: Spanned<ast::Statement>) -> LoweredState
    decreases stmt, 0nat,
{
    match stmt.inner {
        ast::Statement::Compound(body) => lower_compound(s, body),
        ast::Statement::Let { name, ty, expr } => match lower_operand(s, expr) {
            Err(e) => Err(e),
            Ok((s1, value)) => match ty {
                Some(written) => match resolve_type(written) {
                    Err(e) => s1.rejected(e),
                    Ok(declared) => finish_let(s1, name@, declared, value, stmt.span),
                },
                None => finish_let(s1, name@, value.ty, value, stmt.span),
            },
        },
        ast::Statement::Loop { stmt: body } => {
            let (s1, continue_label) = s.open_block();
            let (s2, break_label) = s1.new_label();
            lower_loop_body(s2, body, continue_label, break_label)
        },
        ast::Statement::While { cond, stmt: body } => {
            let (s1, continue_label) = s.open_block();
            match lower_operand(s1.start_local_scope(), cond) {
                Err(e) => Err(e),
                Ok((s2, cond_value)) => if cond_value.ty != TypeView::Bool {
                    s2.rejected(condition_error(cond.span))
                } else {
                    let (s3, (_, break_label)) = s2.branch_into(cond_value);
                    match lower_loop_body(s3, body, continue_label, break_label) {
                        Err(e) => Err(e),
                        Ok(s4) => Ok(s4.end_local_scope()),
                    }
                },
            }
        },
        ast::Statement::If { if_branch, elseif_branches, else_branch } => {
            let (s1, end_label) = s.new_label();
            match lower_branch(s1.start_local_scope(), if_branch, end_label) {
                Err(e) => Err(e),
                Ok(s2) => match lower_branches(s2, elseif_branches@, 0, end_label) {
                    Err(e) => Err(e),
                    Ok(s3) => match else_branch {
                        Some(body) => match lower_compound(s3, body) {
                            Err(e) => Err(e),
                            Ok(s4) => Ok(
                                s4.push_terminator_label(None, end_label).end_local_scope(),
                            ),
                        },
                        None => Ok(s3.push_terminator_label(None, end_label).end_local_scope()),
                    },
                },
            }
        },
        ast::Statement::Break => match s.current_loop_info {
            Some((_, break_label)) => Ok(s.push_terminator(Some(TerminatorView::Br(break_label)))),
            None => s.rejected(plain_error(ErrorKind::BreakOutsideLoop, "Break outside loop.", stmt.span)),
        },
        ast::Statement::Continue => match s.current_loop_info {
            Some((continue_label, _)) => Ok(
                s.push_terminator(Some(TerminatorView::Br(continue_label))),
            ),
            None => s.rejected(plain_error(ErrorKind::ContinueOutsideLoop, "Continue outside loop.", stmt.span),
            ),
        },
        ast::Statement::Return { expr } => match expr {
            Some(e) => match lower_operand(s, e) {
                Err(e) => Err(e),
                Ok((s1, value)) => finish_return(s1, value, e.span),
            },
            None => {
                let (s1, value) = s.assign(TypeView::Unit, ExpressionView::Literal(Literal::Unit));
                finish_return(s1, value, stmt.span)
            },
        },
        ast::Statement::Expression { expr } => match lower_expression(s, expr) {
            Err(e) => Err(e),
            Ok((s1, _)) => Ok(s1),
        },
    }
}

/// What the body of a loop lowers to: the block, lowered with `continue` and
/// `break` bound to the two labels of the loop; then the loop context of the
/// state `s` is restored, the open block ends in a jump back to
/// `continue_label` and the block `break_label` is opened.
pub open spec fn lower_loop_body(
    s: BuilderState,
    body: Spanned<ast::CompoundStatement>,
    continue_label: nat,
    break_label: nat,
) -> LoweredState
    decreases body, 1nat,
{
    match lower_compound(s.with_loop_info(Some((continue_label, break_label))), body) {
        Err(e) => Err(e),
        Ok(s1) => Ok(s1.with_loop_info(s.current_loop_info).jump(continue_label, break_label)),
    }
}

/// What a block lowers to: its statements in order, inside a scope of their
/// own.
pub open spec fn lower_compound(s: BuilderState, body: Spanned<ast::CompoundStatement>) -> LoweredState
    decreases body, 0nat,
{
    match lower_statements(s.start_local_scope(), body.inner.0@, 0) {
        Err(e) => Err(e),
        Ok(s1) => Ok(s1.end_local_scope()),
    }
}

/// What the statements from position `from` on lower to, in order.
pub open spec fn lower_statements(s: BuilderState, stmts: Seq<Spanned<ast::Statement>>, from: int) -> LoweredState
    decreases stmts, stmts.len() - from,
{
    if 0 <= from < stmts.len() {
        match lower_statement(s, stmts[from]) {
            Err(e) => Err(e),
            Ok(s1) => lower_statements(s1, stmts, from + 1),
        }
    } else {
        Ok(s)
    }
}

/// What one arm of an `if` lowers to: a branch on the condition, which must
/// be a `Bool`, into the block of the arm or past it; the arm ends in a jump
/// to `end_label`, where all arms meet.
pub open spec fn lower_branch(s: BuilderState, branch: ast::Branch, end_label: nat) -> LoweredState
    decreases branch, 0nat,
{
    match lower_operand(s, branch.cond) {
        Err(e) => Err(e),
        Ok((s1, cond_value)) => if cond_value.ty != TypeView::Bool {
            s1.rejected(condition_error(branch.cond.span))
        } else {
            let (s2, (_, else_label)) = s1.branch_into(cond_value);
            match lower_compound(s2, branch.body) {
                Err(e) => Err(e),
                Ok(s3) => Ok(s3.jump(end_label, else_label)),
            }
        },
    }
}

/// What the arms from position `from` on lower to, in order.
pub open spec fn lower_branches(s: BuilderState, branches: Seq<ast::Branch>, from: int, end_label: nat) -> LoweredState
    decreases branches, branches.len() - from,
{
    if 0 <= from < branches.len() {
        match lower_branch(s, branches[from], end_label) {
            Err(e) => Err(e),
            Ok(s1) => lower_branches(s1, branches, from + 1, end_label),
        }
    } else {
        Ok(s)
    }
}

/// Whether the outcome `r`, with the builder left in the state `after`, is
/// the executable form of `expected`.
pub open spec fn lowered_state_is(r: Result<(), SyntaxError>, after: BuilderState, expected: LoweredState) -> bool {
    match r {
        Ok(_) => expected == Ok::<BuilderState, Rejected>(after),
        Err(e) => expected == Err::<BuilderState, Rejected>((after, e@)),
    }
}

impl BuilderState {
    /// What holds of the state that lowering a statement leaves, where it
    /// started from `before`: the invariant, at most `n` fresh values and
    /// labels, and as many scopes open as before.
    pub open spec fn after_statement(self, before: BuilderState, n: nat) -> bool {
        &&& self.wf()
        &&& self.within(before, n)
        &&& self.symbols.locals.len() == before.symbols.locals.len()
    }

    /// Whether a statement of weight `n` can be lowered from this state.
    pub open spec fn ready(self, n: nat) -> bool {
        &&& self.wf()
        &&& self.has_room(n)
    }

    /// Whether a scope is open, for a variable to be declared in.
    pub open spec fn has_scope(self) -> bool {
        self.symbols.locals.len() > 0
    }
}

/// Emits a `let` whose initializer is lowered.
fn emit_let(fb: &mut FunctionBuilder, name: &String, ty: Type, value: Value, span: Span) -> (r: Result<
    (),
    SyntaxError,
>)
    requires
        old(fb)@.ready(1),
        old(fb)@.has_scope(),
    ensures
        lowered_state_is(r, final(fb)@, finish_let(old(fb)@, name@, ty@, value@, span)),
        r is Ok ==> final(fb)@.after_statement(old(fb)@, 1),
{
    if ty.same_as(&value.ty) {
        let id = LocalVarId(fb.local_counter);
        if !fb.register_local_variable(name.clone(), ty.clone()) {
            return Err(
                SyntaxError::named(
                    ErrorKind::DuplicateDefinition,
                    "",
                    name.as_str(),
                    " is already defined in this scope.",
                    span,
                ),
            );
        }
        let lvalue = fb.assign(ty.into_lvalue(), Expression::LocalVarLoad(id));
        fb.push_statement(Statement::LValueSet(lvalue, value));
        Ok(())
    } else {
        Err(SyntaxError::plain(ErrorKind::TypeMismatch, "Mismatching assignment types.", span))
    }
}

/// Emits a `return` of a lowered value.
fn emit_return(fb: &mut FunctionBuilder, value: Value, span: Span) -> (r: Result<(), SyntaxError>)
    requires
        old(fb)@.ready(1),
    ensures
        lowered_state_is(r, final(fb)@, finish_return(old(fb)@, value@, span)),
        r is Ok ==> final(fb)@.after_statement(old(fb)@, 1),
{
    if value.ty.same_as(&fb.ty.return_ty) {
        fb.push_terminator(Some(Terminator::Ret(value)));
        Ok(())
    } else {
        Err(SyntaxError::plain(ErrorKind::TypeMismatch, "Mismatching return type.", span))
    }
}

/// The error for a condition that is not a `Bool`.
fn non_bool_condition(span: Span) -> (e: SyntaxError)
    ensures
        e@ == condition_error(span),
{
    SyntaxError::plain(ErrorKind::NonBoolCondition, "Condition type must be bool.", span)
}

/// Lowers a `let`.
fn build_let(
    fb: &mut FunctionBuilder,
    stmt: &Spanned<ast::Statement>,
    name: &String,
    ty: &Option<Spanned<ast::ParseType>>,
    expr: &Spanned<ast::Expression>,
) -> (r: Result<(), SyntaxError>)
    requires
        old(fb)@.ready(statement_weight(*stmt)),
        old(fb)@.has_scope(),
        stmt.inner == (ast::Statement::Let { name: *name, ty: *ty, expr: *expr }),
    ensures
        lowered_state_is(r, final(fb)@, lower_statement(old(fb)@, *stmt)),
        r is Ok ==> final(fb)@.after_statement(old(fb)@, statement_weight(*stmt)),
{
    let value = match build_operand(fb, expr) {
        Err(e) => {
            return Err(e);
        },
        Ok(value) => value,
    };
    let declared = match ty {
        Some(written) => match build_type(written) {
            Err(e) => {
                return Err(e);
            },
            Ok(declared) => declared,
        },
        None => value.ty.clone(),
    };
    emit_let(fb, name, declared, value, stmt.span)
}

/// Lowers a `return`.
fn build_return(
    fb: &mut FunctionBuilder,
    stmt: &Spanned<ast::Statement>,
    expr: &Option<Spanned<ast::Expression>>,
) -> (r: Result<(), SyntaxError>)
    requires
        old(fb)@.ready(statement_weight(*stmt)),
        stmt.inner == (ast::Statement::Return { expr: *expr }),
    ensures
        lowered_state_is(r, final(fb)@, lower_statement(old(fb)@, *stmt)),
        r is Ok ==> final(fb)@.after_statement(old(fb)@, statement_weight(*stmt)),
{
    match expr {
        Some(e) => match build_operand(fb, e) {
            Err(e) => Err(e),
            Ok(value) => emit_return(fb, value, e.span),
        },
        None => {
            let value = fb.assign(Type::Unit, Expression::Literal(Literal::Unit));
            emit_return(fb, value, stmt.span)
        },
    }
}

/// Lowers the body of a loop whose two labels are handed out.
fn build_loop_body(
    fb: &mut FunctionBuilder,
    body: &Spanned<ast::CompoundStatement>,
    continue_label: BasicBlockId,
    break_label: BasicBlockId,
) -> (r: Result<(), SyntaxError>)
    requires
        old(fb)@.wf(),
        old(fb)@.has_room(compound_weight(*body)),
        continue_label@ < old(fb)@.label_counter,
        1 <= break_label@ < old(fb)@.label_counter,
    ensures
        lowered_state_is(
            r,
            final(fb)@,
            lower_loop_body(old(fb)@, *body, continue_label@, break_label@),
        ),
        r is Ok ==> final(fb)@.after_statement(old(fb)@, compound_weight(*body)),
    decreases body, 2nat,
{
    let old_loop_info = fb.current_loop_info;
    fb.set_loop_info(Some((continue_label, break_label)));
    match build_compound_statement(fb, body) {
        Err(e) => {
            return Err(e);
        },
        Ok(_) => {},
    }
    fb.set_loop_info(old_loop_info);
    fb.jump(continue_label, break_label);
    Ok(())
}

/// Lowers a `loop`.
fn build_loop(
    fb: &mut FunctionBuilder,
    stmt: &Spanned<ast::Statement>,
    body: &Spanned<ast::CompoundStatement>,
) -> (r: Result<(), SyntaxError>)
    requires
        old(fb)@.ready(statement_weight(*stmt)),
        stmt.inner == (ast::Statement::Loop { stmt: *body }),
    ensures
        lowered_state_is(r, final(fb)@, lower_statement(old(fb)@, *stmt)),
        r is Ok ==> final(fb)@.after_statement(old(fb)@, statement_weight(*stmt)),
    decreases stmt, 1nat,
{
    let continue_label = fb.open_block();
    let break_label = fb.new_label();
    build_loop_body(fb, body, continue_label, break_label)
}

/// Lowers a `while`.
fn build_while(
    fb: &mut FunctionBuilder,
    stmt: &Spanned<ast::Statement>,
    cond: &Spanned<ast::Expression>,
    body: &Spanned<ast::CompoundStatement>,
) -> (r: Result<(), SyntaxError>)
    requires
        old(fb)@.ready(statement_weight(*stmt)),
        stmt.inner == (ast::Statement::While { cond: *cond, stmt: *body }),
    ensures
        lowered_state_is(r, final(fb)@, lower_statement(old(fb)@, *stmt)),
        r is Ok ==> final(fb)@.after_statement(old(fb)@, statement_weight(*stmt)),
    decreases stmt, 1nat,
{
    let continue_label = fb.open_block();
    fb.start_local_scope();
    let cond_value = match build_operand(fb, cond) {
        Err(e) => {
            return Err(e);
        },
        Ok(value) => value,
    };
    if !matches!(cond_value.ty, Type::Bool) {
        return Err(non_bool_condition(cond.span));
    }
    let (_, break_label) = fb.branch_into(cond_value);
    match build_loop_body(fb, body, continue_label, break_label) {
        Err(e) => {
            return Err(e);
        },
        Ok(_) => {},
    }
    fb.end_local_scope();
    Ok(())
}

/// Lowers one arm of an `if`.
fn build_branch(fb: &mut FunctionBuilder, branch: &ast::Branch, end_label: BasicBlockId) -> (r: Result<
    (),
    SyntaxError,
>)
    requires
        old(fb)@.ready(branch_weight(*branch)),
        end_label@ < old(fb)@.label_counter,
    ensures
        lowered_state_is(r, final(fb)@, lower_branch(old(fb)@, *branch, end_label@)),
        r is Ok ==> final(fb)@.after_statement(old(fb)@, branch_weight(*branch)),
    decreases branch, 0nat,
{
    let cond_value = match build_operand(fb, &branch.cond) {
        Err(e) => {
            return Err(e);
        },
        Ok(value) => value,
    };
    if !matches!(cond_value.ty, Type::Bool) {
        return Err(non_bool_condition(branch.cond.span));
    }
    let (_, else_label) = fb.branch_into(cond_value);
    match build_compound_statement(fb, &branch.body) {
        Err(e) => {
            return Err(e);
        },
        Ok(_) => {},
    }
    fb.jump(end_label, else_label);
    Ok(())
}

/// Lowers the `else if` arms of an `if`, in order.
#[verifier::loop_isolation(false)]
fn build_branches(
    fb: &mut FunctionBuilder,
    stmt: &Spanned<ast::Statement>,
    branches: &Vec<ast::Branch>,
    end_label: BasicBlockId,
) -> (r: Result<(), SyntaxError>)
    requires
        old(fb)@.ready(branches_weight(branches@, 0)),
        end_label@ < old(fb)@.label_counter,
        stmt.inner is If,
        stmt.inner->elseif_branches == *branches,
    ensures
        lowered_state_is(r, final(fb)@, lower_branches(old(fb)@, branches@, 0, end_label@)),
        r is Ok ==> final(fb)@.after_statement(old(fb)@, branches_weight(branches@, 0)),
    decreases stmt, 0nat,
{
    let mut i: usize = 0;
    while i < branches.len()
        invariant
            i <= branches.len(),
            fb@.wf(),
            fb@.symbols.locals.len() == old(fb)@.symbols.locals.len(),
            old(fb)@.current_temp_id <= fb@.current_temp_id,
            old(fb)@.label_counter <= fb@.label_counter,
            fb@.current_temp_id + branches_weight(branches@, i as int) <= old(fb)@.current_temp_id
                + branches_weight(branches@, 0),
            fb@.label_counter + branches_weight(branches@, i as int) <= old(fb)@.label_counter
                + branches_weight(branches@, 0),
            lower_branches(old(fb)@, branches@, 0, end_label@) == lower_branches(
                fb@,
                branches@,
                i as int,
                end_label@,
            ),
        decreases branches.len() - i,
    {
        match build_branch(fb, &branches[i], end_label) {
            Err(e) => {
                return Err(e);
            },
            Ok(_) => {},
        }
        i += 1;
    }
    Ok(())
}

/// Lowers an `if` with its `else if` arms and its `else`.
fn build_if(
    fb: &mut FunctionBuilder,
    stmt: &Spanned<ast::Statement>,
    if_branch: &ast::Branch,
    elseif_branches: &Vec<ast::Branch>,
    else_branch: &Option<Spanned<ast::CompoundStatement>>,
) -> (r: Result<(), SyntaxError>)
    requires
        old(fb)@.ready(statement_weight(*stmt)),
        stmt.inner == (ast::Statement::If {
            if_branch: *if_branch,
            elseif_branches: *elseif_branches,
            else_branch: *else_branch,
        }),
    ensures
        lowered_state_is(r, final(fb)@, lower_statement(old(fb)@, *stmt)),
        r is Ok ==> final(fb)@.after_statement(old(fb)@, statement_weight(*stmt)),
    decreases stmt, 1nat,
{
    let end_label = fb.new_label();
    fb.start_local_scope();
    match build_branch(fb, if_branch, end_label) {
        Err(e) => {
            return Err(e);
        },
        Ok(_) => {},
    }
    match build_branches(fb, stmt, elseif_branches, end_label) {
        Err(e) => {
            return Err(e);
        },
        Ok(_) => {},
    }
    match else_branch {
        Some(body) => match build_compound_statement(fb, body) {
            Err(e) => {
                return Err(e);
            },
            Ok(_) => {},
        },
        None => {},
    }
    fb.push_terminator_label(None, end_label);
    fb.end_local_scope();
    Ok(())
}

/// Lowers the statements of a block, in order.
#[verifier::loop_isolation(false)]
fn build_statements(fb: &mut FunctionBuilder, body: &Spanned<ast::CompoundStatement>) -> (r: Result<
    (),
    SyntaxError,
>)
    requires
        old(fb)@.ready(compound_weight(*body)),
        old(fb)@.has_scope(),
    ensures
        lowered_state_is(r, final(fb)@, lower_statements(old(fb)@, body.inner.0@, 0)),
        r is Ok ==> final(fb)@.after_statement(old(fb)@, compound_weight(*body)),
    decreases body, 0nat,
{
    let stmts = &body.inner.0;
    let mut i: usize = 0;
    while i < stmts.len()
        invariant
            i <= stmts.len(),
            fb@.wf(),
            fb@.symbols.locals.len() == old(fb)@.symbols.locals.len(),
            old(fb)@.current_temp_id <= fb@.current_temp_id,
            old(fb)@.label_counter <= fb@.label_counter,
            fb@.current_temp_id + statements_weight(stmts@, i as int) <= old(fb)@.current_temp_id
                + statements_weight(stmts@, 0),
            fb@.label_counter + statements_weight(stmts@, i as int) <= old(fb)@.label_counter
                + statements_weight(stmts@, 0),
            lower_statements(old(fb)@, stmts@, 0) == lower_statements(fb@, stmts@, i as int),
        decreases stmts.len() - i,
    {
        match build_statement(fb, &stmts[i]) {
            Err(e) => {
                return Err(e);
            },
            Ok(_) => {},
        }
        i += 1;
    }
    Ok(())
}

/// Lowers a block: its statements in order, inside a scope of their own.
pub fn build_compound_statement(fb: &mut FunctionBuilder, stmt: &Spanned<ast::CompoundStatement>) -> (r: Result<
    (),
    SyntaxError,
>)
    requires
        old(fb)@.wf(),
        old(fb)@.has_room(compound_weight(*stmt)),
    ensures
        lowered_state_is(r, final(fb)@, lower_compound(old(fb)@, *stmt)),
        r is Ok ==> final(fb)@.after_statement(old(fb)@, compound_weight(*stmt)),
    decreases stmt, 1nat,
{
    fb.start_local_scope();
    match build_statements(fb, stmt) {
        Err(e) => {
            return Err(e);
        },
        Ok(_) => {},
    }
    fb.end_local_scope();
    Ok(())
}

/// Lowers a statement into the buffer of the function.
pub fn build_statement(fb: &mut FunctionBuilder, stmt: &Spanned<ast::Statement>) -> (r: Result<
    (),
    SyntaxError,
>)
    requires
        old(fb)@.ready(statement_weight(*stmt)),
        stmt.inner is Let ==> old(fb)@.has_scope(),
    ensures
        lowered_state_is(r, final(fb)@, lower_statement(old(fb)@, *stmt)),
        r is Ok ==> final(fb)@.after_statement(old(fb)@, statement_weight(*stmt)),
    decreases stmt, 2nat,
{
    match &stmt.inner {
        ast::Statement::Compound(body) => build_compound_statement(fb, body),
        ast::Statement::Let { name, ty, expr } => build_let(fb, stmt, name, ty, expr),
        ast::Statement::Loop { stmt: body } => build_loop(fb, stmt, body),
        ast::Statement::While { cond, stmt: body } => build_while(fb, stmt, cond, body),
        ast::Statement::If { if_branch, elseif_branches, else_branch } => build_if(
            fb,
            stmt,
            if_branch,
            elseif_branches,
            else_branch,
        ),
        ast::Statement::Break => match fb.current_loop_info {
            Some((_, id)) => {
                fb.push_terminator(Some(Terminator::Br(id)));
                Ok(())
            },
            None => Err(
                SyntaxError::plain(ErrorKind::BreakOutsideLoop, "Break outside loop.", stmt.span),
            ),
        },
        ast::Statement::Continue => match fb.current_loop_info {
            Some((id, _)) => {
                fb.push_terminator(Some(Terminator::Br(id)));
                Ok(())
            },
            None => Err(
                SyntaxError::plain(
                    ErrorKind::ContinueOutsideLoop,
                    "Continue outside loop.",
                    stmt.span,
                ),
            ),
        },
        ast::Statement::Return { expr } => build_return(fb, stmt, expr),
        ast::Statement::Expression { expr } => match build_expression(fb, expr) {
            Err(e) => Err(e),
            Ok(_) => Ok(()),
        },
    }
}

} // verus!
