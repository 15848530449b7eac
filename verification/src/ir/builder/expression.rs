//! Lowering of expressions: each expression becomes statements at the end of
//! the open block and one value that stands for its result.

use crate::ast;
use crate::ast::{Span, Spanned};
use crate::ir::builder::error::{
    named_error, plain_error, ErrorKind, SyntaxError, SyntaxErrorView,
};
use crate::ir::builder::function::{BuilderState, FunctionBuilder};
use crate::ir::builder::literal::{build_literal, resolve_literal};
use crate::ir::builder::types::{build_type, resolve_type};
use crate::ir::tyck::{binop_rule, binop_tyck, cast_rule, cast_tyck, unop_rule, unop_tyck};
use crate::ir::{
    models, BasicBlockId, Expression, ExpressionView, Literal, LocalVarId, Statement,
    StatementView, Terminator, TerminatorView, Type, TypeView, Value, ValueView,
};
use vstd::prelude::*;

verus! {

/// The outcome of lowering a piece of syntax from some state: the state
/// reached and what the piece stands for, or the reason it is rejected.
pub type Lowered<T> = Result<(BuilderState, T), Rejected>;

/// A rejected piece of syntax: the state in which lowering stopped, and why
/// it stopped. What was emitted before the fault was found is still in the
/// buffer of that state.
pub type Rejected = (BuilderState, SyntaxErrorView);

/// An upper bound on the number of fresh values, and on the number of fresh
/// labels, that lowering an expression and loading its result can take.
pub open spec fn expression_weight(expr: Spanned<ast::Expression>) -> nat
    decreases expr, 0nat,
{
    match expr.inner {
        ast::Expression::Assign(lhs, rhs) => 6 + expression_weight(*lhs) + expression_weight(*rhs),
        ast::Expression::Subscript(array, index) => 6 + expression_weight(*array)
            + expression_weight(*index),
        ast::Expression::BinOp(_, lhs, rhs) => 6 + expression_weight(*lhs) + expression_weight(
            *rhs,
        ),
        ast::Expression::UnOp(_, sub) => 6 + expression_weight(*sub),
        ast::Expression::FuncCall(func, params) => 6 + expression_weight(*func)
            + expressions_weight(params@, 0),
        ast::Expression::Cast(sub, _) => 6 + expression_weight(*sub),
        ast::Expression::Paren(sub) => 6 + expression_weight(*sub),
        ast::Expression::Identifier(_) => 6,
        ast::Expression::Literal(_) => 6,
        ast::Expression::ArrayFullLiteral(_) => 6,
        ast::Expression::ArrayDefaultLiteral(_, _) => 6,
    }
}

/// The sum of the weights of the expressions from position `from` on.
pub open spec fn expressions_weight(exprs: Seq<Spanned<ast::Expression>>, from: int) -> nat
    decreases exprs, exprs.len() - from,
{
    if 0 <= from < exprs.len() {
        expression_weight(exprs[from]) + expressions_weight(exprs, from + 1)
    } else {
        0
    }
}

impl BuilderState {
    /// Stores `value` into the stack slot `slot` of a short-circuit
    /// operator.
    pub open spec fn store_slot(self, slot: nat, value: ValueView) -> BuilderState {
        let (next, target) = self.assign(
            TypeView::Bool.stored(),
            ExpressionView::LocalVarLoad(slot),
        );
        next.push_statement(StatementView::LValueSet(target, value))
    }

    /// Stores the constant `b` into the stack slot `slot`.
    pub open spec fn store_bool(self, slot: nat, b: bool) -> BuilderState {
        let (next, constant) = self.assign(
            TypeView::Bool,
            ExpressionView::Literal(Literal::Bool(b)),
        );
        next.store_slot(slot, constant)
    }

    /// Reads the stack slot `slot` back as a plain `Bool`.
    pub open spec fn load_slot(self, slot: nat) -> (BuilderState, ValueView) {
        let (next, source) = self.assign(
            TypeView::Bool.stored(),
            ExpressionView::LocalVarLoad(slot),
        );
        next.assign(TypeView::Bool, ExpressionView::LValueLoad(source))
    }

    /// The branch on the left operand of a short-circuit operator: three
    /// fresh labels, for the block taken where the operand is true, the block
    /// taken where it is false and the block where both meet again; the open
    /// block ends in the branch and the block of the true case is opened.
    pub open spec fn branch_on(self, cond: ValueView) -> (BuilderState, (nat, nat, nat)) {
        let (s1, true_label) = self.new_label();
        let (s2, false_label) = s1.new_label();
        let (s3, final_label) = s2.new_label();
        (
            s3.push_terminator_label(
                Some(TerminatorView::BrCond(cond, true_label, false_label)),
                true_label,
            ),
            (true_label, false_label, final_label),
        )
    }

    /// The branch on a condition: two fresh labels, for the block taken
    /// where the condition is true and the block taken where it is false; the
    /// open block ends in the branch and the block of the true case is
    /// opened.
    pub open spec fn branch_into(self, cond: ValueView) -> (BuilderState, (nat, nat)) {
        let (s1, true_label) = self.new_label();
        let (s2, false_label) = s1.new_label();
        (
            s2.push_terminator_label(
                Some(TerminatorView::BrCond(cond, true_label, false_label)),
                true_label,
            ),
            (true_label, false_label),
        )
    }

    /// A block under a fresh label, which the open block falls through into.
    pub open spec fn open_block(self) -> (BuilderState, nat) {
        let (s1, label) = self.new_label();
        (s1.push_terminator_label(None, label), label)
    }

    /// The open block ends in a jump to `target` and the block `next` is
    /// opened.
    pub open spec fn jump(self, target: nat, next: nat) -> BuilderState {
        self.push_terminator_label(Some(TerminatorView::Br(target)), next)
    }
}

impl BuilderState {
    /// The outcome of lowering that stops in this state for `error`.
    pub open spec fn rejected<T>(self, error: SyntaxErrorView) -> Result<T, Rejected> {
        Err((self, error))
    }
}

/// The types of a sequence of values.
pub open spec fn types_of(values: Seq<ValueView>) -> Seq<TypeView> {
    Seq::new(values.len(), |i: int| values[i].ty)
}

/// An assignment, its two sides lowered: the left side must be a storage
/// location of the type of the right side. The value stored is the result.
pub open spec fn finish_assign(s: BuilderState, lhs: ValueView, rhs: ValueView, span: Span) -> Lowered<
    ValueView,
> {
    match lhs.ty {
        TypeView::LValue(sub) => if *sub == rhs.ty {
            Ok((s.push_statement(StatementView::LValueSet(lhs, rhs)), rhs))
        } else {
            s.rejected(plain_error(ErrorKind::TypeMismatch, "Mismatching type in assignment.", span))
        },
        _ => s.rejected(plain_error(ErrorKind::AssignToNonLValue, "Can't assign to a non-lvalue.", span)),
    }
}

/// A subscript, its two operands lowered: an array indexed by an `Int` gives
/// the storage location of one element.
pub open spec fn finish_subscript(s: BuilderState, array: ValueView, index: ValueView, span: Span) -> Lowered<
    ValueView,
> {
    match array.ty {
        TypeView::Array(sub, _) => if index.ty == TypeView::Int {
            Ok(s.assign(TypeView::LValue(sub), ExpressionView::ReadArray(array, index)))
        } else {
            s.rejected(plain_error(ErrorKind::IndexNotInt, "Index must be of int type.", span))
        },
        _ => s.rejected(plain_error(ErrorKind::SubscriptOnNonArray, "Subscript to a non-array.", span)),
    }
}

/// A binary operator other than the short-circuit ones, its operands
/// lowered: the typing rules decide the operation and the type of the
/// result.
pub open spec fn finish_binop(
    s: BuilderState,
    code: ast::BinOpCode,
    lhs: ValueView,
    rhs: ValueView,
    span: Span,
) -> Lowered<ValueView> {
    match binop_rule(code, lhs.ty, rhs.ty) {
        Some((op, ty)) => Ok(s.assign(ty, ExpressionView::BinOp(op, lhs, rhs))),
        None => s.rejected(plain_error(
                ErrorKind::OperatorTypeMismatch,
                "Operation mismatching for those types.",
                span,
            ),
        ),
    }
}

/// A unary operator, its operand lowered: the typing rules decide the
/// operation and the type of the result.
pub open spec fn finish_unop(s: BuilderState, code: ast::UnOpCode, sub: ValueView, span: Span) -> Lowered<
    ValueView,
> {
    match unop_rule(code, sub.ty) {
        Some((op, ty)) => Ok(s.assign(ty, ExpressionView::UnOp(op, sub))),
        None => s.rejected(plain_error(
                ErrorKind::OperatorTypeMismatch,
                "Operation mismatching for those types.",
                span,
            ),
        ),
    }
}

/// A cast, its operand lowered: the target type must be a known type that
/// the type of the operand converts to.
pub open spec fn finish_cast(
    s: BuilderState,
    sub: ValueView,
    target: Spanned<ast::ParseType>,
    span: Span,
) -> Lowered<ValueView> {
    match resolve_type(target) {
        Err(e) => s.rejected(e),
        Ok(target_ty) => match cast_rule(sub.ty, target_ty) {
            Some(code) => Ok(s.assign(target_ty, ExpressionView::CastOp(code, sub))),
            None => s.rejected(plain_error(ErrorKind::InvalidCast, "Unknown cast.", span)),
        },
    }
}

/// A call, the callee and the arguments lowered: the types of the arguments
/// must be those of the parameters, one for one.
pub open spec fn finish_call(s: BuilderState, func: ValueView, args: Seq<ValueView>, span: Span) -> Lowered<
    ValueView,
> {
    match func.ty {
        TypeView::Function(func_ty) => if types_of(args) == func_ty.params_ty {
            Ok(s.assign(*func_ty.return_ty, ExpressionView::FuncCall(func, args)))
        } else {
            s.rejected(plain_error(ErrorKind::ParamMismatch, "Mismatching params.", span))
        },
        _ => s.rejected(plain_error(ErrorKind::NotCallable, "Not callable.", span)),
    }
}

/// A name: the symbol table says what it stands for.
pub open spec fn lower_identifier(s: BuilderState, name: Seq<char>, span: Span) -> Lowered<ValueView> {
    match s.symbols.get_var(name) {
        Some((ty, expr)) => Ok(s.assign(ty, expr)),
        None => s.rejected(named_error(ErrorKind::UndefinedName, "", name, " is not defined here.", span),
        ),
    }
}

/// A literal: a value of the type of the literal.
pub open spec fn lower_literal(s: BuilderState, lit: ast::Literal, span: Span) -> Lowered<ValueView> {
    match resolve_literal(lit, span) {
        Ok(lit) => Ok(s.assign(lit.ty(), ExpressionView::Literal(lit))),
        Err(e) => s.rejected(e),
    }
}

/// What an expression lowers to from the state `s`.
///
/// Operands are lowered from left to right. An operand is loaded where a
/// plain value is needed: everywhere but on the left of an assignment and
/// under address-of. `lhs && rhs` and `lhs || rhs` branch on the left
/// operand; the right operand is lowered into the block that is entered only
/// where it decides the result, the other block stores the constant that the
/// left operand forces, and both store into one unnamed stack slot that is
/// read back where they meet.
pub open spec fn lower_expression(s: BuilderState, expr: Spanned<ast::Expression>) -> Lowered<ValueView>
    decreases expr, 0nat,
{
    match expr.inner {
        ast::Expression::Assign(lhs, rhs) => match lower_expression(s, *lhs) {
            Err(e) => Err(e),
            Ok((s1, lhs_value)) => match lower_operand(s1, *rhs) {
                Err(e) => Err(e),
                Ok((s2, rhs_value)) => finish_assign(s2, lhs_value, rhs_value, expr.span),
            },
        },
        ast::Expression::Subscript(array, index) => match lower_operand(s, *array) {
            Err(e) => Err(e),
            Ok((s1, array_value)) => match lower_operand(s1, *index) {
                Err(e) => Err(e),
                Ok((s2, index_value)) => finish_subscript(s2, array_value, index_value, expr.span),
            },
        },
        ast::Expression::BinOp(code, lhs, rhs) => if code == ast::BinOpCode::LogicalAnd {
            let (s0, slot) = s.register_local_logical();
            match lower_operand(s0, *lhs) {
                Err(e) => Err(e),
                Ok((s1, lhs_value)) => {
                    let (s2, (_, false_label, final_label)) = s1.branch_on(lhs_value);
                    match lower_operand(s2, *rhs) {
                        Err(e) => Err(e),
                        Ok((s3, rhs_value)) => Ok(
                            s3.store_slot(slot, rhs_value).jump(final_label, false_label).store_bool(
                                slot,
                                false,
                            ).jump(final_label, final_label).load_slot(slot),
                        ),
                    }
                },
            }
        } else if code == ast::BinOpCode::LogicalOr {
            let (s0, slot) = s.register_local_logical();
            match lower_operand(s0, *lhs) {
                Err(e) => Err(e),
                Ok((s1, lhs_value)) => {
                    let (s2, (_, false_label, final_label)) = s1.branch_on(lhs_value);
                    match lower_operand(
                        s2.store_bool(slot, true).jump(final_label, false_label),
                        *rhs,
                    ) {
                        Err(e) => Err(e),
                        Ok((s3, rhs_value)) => Ok(
                            s3.store_slot(slot, rhs_value).jump(final_label, final_label).load_slot(
                                slot,
                            ),
                        ),
                    }
                },
            }
        } else {
            match lower_operand(s, *lhs) {
                Err(e) => Err(e),
                Ok((s1, lhs_value)) => match lower_operand(s1, *rhs) {
                    Err(e) => Err(e),
                    Ok((s2, rhs_value)) => finish_binop(s2, code, lhs_value, rhs_value, expr.span),
                },
            }
        },
        ast::Expression::UnOp(code, sub) => if code == ast::UnOpCode::AddressOf {
            match lower_expression(s, *sub) {
                Err(e) => Err(e),
                Ok((s1, sub_value)) => finish_unop(s1, code, sub_value, expr.span),
            }
        } else {
            match lower_operand(s, *sub) {
                Err(e) => Err(e),
                Ok((s1, sub_value)) => finish_unop(s1, code, sub_value, expr.span),
            }
        },
        ast::Expression::FuncCall(func, params) => match lower_operand(s, *func) {
            Err(e) => Err(e),
            Ok((s1, func_value)) => if func_value.ty is Function {
                match lower_arguments(s1, params@, 0, Seq::empty()) {
                    Err(e) => Err(e),
                    Ok((s2, args)) => finish_call(s2, func_value, args, expr.span),
                }
            } else {
                s1.rejected(plain_error(ErrorKind::NotCallable, "Not callable.", expr.span))
            },
        },
        ast::Expression::Cast(sub, target) => match lower_operand(s, *sub) {
            Err(e) => Err(e),
            Ok((s1, sub_value)) => finish_cast(s1, sub_value, target, expr.span),
        },
        ast::Expression::Paren(sub) => lower_expression(s, *sub),
        ast::Expression::Identifier(name) => lower_identifier(s, name@, expr.span),
        ast::Expression::Literal(lit) => lower_literal(s, lit, expr.span),
        ast::Expression::ArrayFullLiteral(_) => s.rejected(plain_error(
                ErrorKind::UnsupportedArrayLiteral,
                "Array literals are not supported.",
                expr.span,
            ),
        ),
        ast::Expression::ArrayDefaultLiteral(_, _) => s.rejected(plain_error(
                ErrorKind::UnsupportedArrayLiteral,
                "Array literals are not supported.",
                expr.span,
            ),
        ),
    }
}

/// What an expression lowers to where a plain value is needed: the
/// expression is lowered and its result loaded.
pub open spec fn lower_operand(s: BuilderState, expr: Spanned<ast::Expression>) -> Lowered<ValueView>
    decreases expr, 1nat,
{
    match lower_expression(s, expr) {
        Err(e) => Err(e),
        Ok((s1, value)) => Ok(s1.load(value)),
    }
}

/// What the arguments of a call lower to, from position `from` on, where
/// those before it gave the values `done`: each is lowered as an operand, in
/// order.
pub open spec fn lower_arguments(
    s: BuilderState,
    params: Seq<Spanned<ast::Expression>>,
    from: int,
    done: Seq<ValueView>,
) -> Lowered<Seq<ValueView>>
    decreases params, params.len() - from,
{
    if 0 <= from < params.len() {
        match lower_operand(s, params[from]) {
            Err(e) => Err(e),
            Ok((s1, value)) => lower_arguments(s1, params, from + 1, done.push(value)),
        }
    } else {
        Ok((s, done))
    }
}

/// Whether the outcome `r`, with the builder left in the state `after`, is
/// the executable form of `expected`.
pub open spec fn lowered_value_is(
    r: Result<Value, SyntaxError>,
    after: BuilderState,
    expected: Lowered<ValueView>,
) -> bool {
    match r {
        Ok(value) => expected == Ok::<(BuilderState, ValueView), Rejected>((after, value@)),
        Err(e) => expected == Err::<(BuilderState, ValueView), Rejected>((after, e@)),
    }
}

impl BuilderState {
    /// What holds of the state that lowering an expression leaves, where it
    /// started from `before`: the invariant, at most `n` fresh values and
    /// labels, and the same names in sight.
    pub open spec fn after_expression(self, before: BuilderState, n: nat) -> bool {
        &&& self.wf()
        &&& self.within(before, n)
        &&& self.symbols == before.symbols
    }
}

impl FunctionBuilder {
    /// Emits the store of `value` into the stack slot `slot`.
    pub fn store_slot(&mut self, slot: LocalVarId, value: Value)
        requires
            old(self)@.wf(),
            old(self)@.has_room(1),
        ensures
            final(self)@ == old(self)@.store_slot(slot@, value@),
            final(self)@.after_expression(old(self)@, 1),
    {
        let target = self.assign(Type::Bool.into_lvalue(), Expression::LocalVarLoad(slot));
        self.push_statement(Statement::LValueSet(target, value));
    }

    /// Emits the store of the constant `b` into the stack slot `slot`.
    pub fn store_bool(&mut self, slot: LocalVarId, b: bool)
        requires
            old(self)@.wf(),
            old(self)@.has_room(2),
        ensures
            final(self)@ == old(self)@.store_bool(slot@, b),
            final(self)@.after_expression(old(self)@, 2),
    {
        let constant = self.assign(Type::Bool, Expression::Literal(Literal::Bool(b)));
        self.store_slot(slot, constant);
    }

    /// Emits the load of the stack slot `slot`.
    pub fn load_slot(&mut self, slot: LocalVarId) -> (value: Value)
        requires
            old(self)@.wf(),
            old(self)@.has_room(2),
        ensures
            (final(self)@, value@) == old(self)@.load_slot(slot@),
            final(self)@.after_expression(old(self)@, 2),
    {
        let source = self.assign(Type::Bool.into_lvalue(), Expression::LocalVarLoad(slot));
        self.assign(Type::Bool, Expression::LValueLoad(source))
    }

    /// Ends the open block in a branch on `cond` and opens the block of the
    /// true case. Gives the labels of the false case and of the block where
    /// both cases meet.
    pub fn branch_on(&mut self, cond: Value) -> (labels: (BasicBlockId, BasicBlockId))
        requires
            old(self)@.wf(),
            old(self)@.has_room(3),
        ensures
            final(self)@ == old(self)@.branch_on(cond@).0,
            (labels.0@, labels.1@) == (
                old(self)@.branch_on(cond@).1.1,
                old(self)@.branch_on(cond@).1.2,
            ),
            final(self)@.after_expression(old(self)@, 3),
            1 <= labels.0@ < final(self)@.label_counter,
            1 <= labels.1@ < final(self)@.label_counter,
    {
        let true_label = self.new_label();
        let false_label = self.new_label();
        let final_label = self.new_label();
        self.push_terminator_label(
            Some(Terminator::BrCond(cond, true_label, false_label)),
            true_label,
        );
        (false_label, final_label)
    }

    /// Ends the open block in a branch on `cond` and opens the block of the
    /// true case. Gives the labels of the true case and of the false case.
    pub fn branch_into(&mut self, cond: Value) -> (labels: (BasicBlockId, BasicBlockId))
        requires
            old(self)@.wf(),
            old(self)@.has_room(2),
        ensures
            (final(self)@, (labels.0@, labels.1@)) == old(self)@.branch_into(cond@),
            final(self)@.after_expression(old(self)@, 2),
            1 <= labels.0@ < final(self)@.label_counter,
            1 <= labels.1@ < final(self)@.label_counter,
    {
        let true_label = self.new_label();
        let false_label = self.new_label();
        self.push_terminator_label(
            Some(Terminator::BrCond(cond, true_label, false_label)),
            true_label,
        );
        (true_label, false_label)
    }

    /// Opens a block under a fresh label, which the open block falls through
    /// into.
    pub fn open_block(&mut self) -> (label: BasicBlockId)
        requires
            old(self)@.wf(),
            old(self)@.has_room(1),
        ensures
            (final(self)@, label@) == old(self)@.open_block(),
            final(self)@.after_expression(old(self)@, 1),
            1 <= label@ < final(self)@.label_counter,
    {
        let label = self.new_label();
        self.push_terminator_label(None, label);
        label
    }

    /// Ends the open block in a jump to `target` and opens the block `next`.
    pub fn jump(&mut self, target: BasicBlockId, next: BasicBlockId)
        requires
            old(self)@.wf(),
            target@ < old(self)@.label_counter,
            1 <= next@ < old(self)@.label_counter,
        ensures
            final(self)@ == old(self)@.jump(target@, next@),
            final(self)@.after_expression(old(self)@, 0),
    {
        self.push_terminator_label(Some(Terminator::Br(target)), next);
    }
}

/// Loads `value` where it is a storage location; hands it back where it is
/// plain.
pub fn build_lvalue_to_rvalue(fb: &mut FunctionBuilder, value: Value) -> (loaded: Value)
    requires
        old(fb)@.wf(),
        old(fb)@.has_room(1),
    ensures
        (final(fb)@, loaded@) == old(fb)@.load(value@),
        final(fb)@.after_expression(old(fb)@, 1),
{
    match &value.ty {
        Type::LValue(sub) => {
            let ty = sub.duplicate();
            fb.assign(ty, Expression::LValueLoad(value))
        },
        _ => value,
    }
}

/// Emits an assignment whose two sides are lowered.
fn emit_assign(fb: &mut FunctionBuilder, lhs: Value, rhs: Value, span: Span) -> (r: Result<
    Value,
    SyntaxError,
>)
    requires
        old(fb)@.wf(),
    ensures
        lowered_value_is(r, final(fb)@, finish_assign(old(fb)@, lhs@, rhs@, span)),
        r is Ok ==> final(fb)@.after_expression(old(fb)@, 0),
{
    match &lhs.ty {
        Type::LValue(sub) => {
            if sub.same_as(&rhs.ty) {
                fb.push_statement(Statement::LValueSet(lhs, rhs.clone()));
                Ok(rhs)
            } else {
                Err(
                    SyntaxError::plain(
                        ErrorKind::TypeMismatch,
                        "Mismatching type in assignment.",
                        span,
                    ),
                )
            }
        },
        _ => Err(
            SyntaxError::plain(ErrorKind::AssignToNonLValue, "Can't assign to a non-lvalue.", span),
        ),
    }
}

/// Emits a subscript whose two operands are lowered.
fn emit_subscript(fb: &mut FunctionBuilder, array: Value, index: Value, span: Span) -> (r: Result<
    Value,
    SyntaxError,
>)
    requires
        old(fb)@.wf(),
        old(fb)@.has_room(1),
    ensures
        lowered_value_is(r, final(fb)@, finish_subscript(old(fb)@, array@, index@, span)),
        r is Ok ==> final(fb)@.after_expression(old(fb)@, 1),
{
    match &array.ty {
        Type::Array(sub, _) => {
            if matches!(index.ty, Type::Int) {
                let ty = Type::LValue(Box::new(sub.duplicate()));
                Ok(fb.assign(ty, Expression::ReadArray(array, index)))
            } else {
                Err(SyntaxError::plain(ErrorKind::IndexNotInt, "Index must be of int type.", span))
            }
        },
        _ => Err(
            SyntaxError::plain(ErrorKind::SubscriptOnNonArray, "Subscript to a non-array.", span),
        ),
    }
}

/// Emits a binary operation whose operands are lowered.
fn emit_binop(
    fb: &mut FunctionBuilder,
    code: ast::BinOpCode,
    lhs: Value,
    rhs: Value,
    span: Span,
) -> (r: Result<Value, SyntaxError>)
    requires
        old(fb)@.wf(),
        old(fb)@.has_room(1),
    ensures
        lowered_value_is(r, final(fb)@, finish_binop(old(fb)@, code, lhs@, rhs@, span)),
        r is Ok ==> final(fb)@.after_expression(old(fb)@, 1),
{
    match binop_tyck(code, &lhs.ty, &rhs.ty) {
        Some((op, ty)) => Ok(fb.assign(ty, Expression::BinOp(op, lhs, rhs))),
        None => Err(
            SyntaxError::plain(
                ErrorKind::OperatorTypeMismatch,
                "Operation mismatching for those types.",
                span,
            ),
        ),
    }
}

/// Emits a unary operation whose operand is lowered.
fn emit_unop(fb: &mut FunctionBuilder, code: ast::UnOpCode, sub: Value, span: Span) -> (r: Result<
    Value,
    SyntaxError,
>)
    requires
        old(fb)@.wf(),
        old(fb)@.has_room(1),
    ensures
        lowered_value_is(r, final(fb)@, finish_unop(old(fb)@, code, sub@, span)),
        r is Ok ==> final(fb)@.after_expression(old(fb)@, 1),
{
    match unop_tyck(code, &sub.ty) {
        Some((op, ty)) => Ok(fb.assign(ty, Expression::UnOp(op, sub))),
        None => Err(
            SyntaxError::plain(
                ErrorKind::OperatorTypeMismatch,
                "Operation mismatching for those types.",
                span,
            ),
        ),
    }
}

/// Emits a cast whose operand is lowered.
fn emit_cast(
    fb: &mut FunctionBuilder,
    sub: Value,
    target: &Spanned<ast::ParseType>,
    span: Span,
) -> (r: Result<Value, SyntaxError>)
    requires
        old(fb)@.wf(),
        old(fb)@.has_room(1),
    ensures
        lowered_value_is(r, final(fb)@, finish_cast(old(fb)@, sub@, *target, span)),
        r is Ok ==> final(fb)@.after_expression(old(fb)@, 1),
{
    match build_type(target) {
        Err(e) => Err(e),
        Ok(target_ty) => match cast_tyck(&sub.ty, &target_ty) {
            Some(code) => Ok(fb.assign(target_ty, Expression::CastOp(code, sub))),
            None => Err(SyntaxError::plain(ErrorKind::InvalidCast, "Unknown cast.", span)),
        },
    }
}

/// Whether the types of `args` are `params`, one for one.
fn arguments_match(args: &Vec<Value>, params: &Vec<Type>) -> (r: bool)
    ensures
        r == (types_of(models(args@)) == crate::ir::types_model(params@)),
{
    if args.len() != params.len() {
        assert(types_of(models(args@)).len() != crate::ir::types_model(params@).len());
        return false;
    }
    let mut i: usize = 0;
    while i < args.len()
        invariant
            i <= args.len(),
            args.len() == params.len(),
            forall|j: int| 0 <= j < i ==> args[j].ty@ == params[j]@,
        decreases args.len() - i,
    {
        if !args[i].ty.same_as(&params[i]) {
            assert(types_of(models(args@))[i as int] != crate::ir::types_model(params@)[i as int]);
            return false;
        }
        i += 1;
    }
    assert(types_of(models(args@)) =~= crate::ir::types_model(params@));
    true
}

/// Emits a call whose callee and arguments are lowered.
fn emit_call(fb: &mut FunctionBuilder, func: Value, args: Vec<Value>, span: Span) -> (r: Result<
    Value,
    SyntaxError,
>)
    requires
        old(fb)@.wf(),
        old(fb)@.has_room(1),
    ensures
        lowered_value_is(r, final(fb)@, finish_call(old(fb)@, func@, models(args@), span)),
        r is Ok ==> final(fb)@.after_expression(old(fb)@, 1),
{
    match &func.ty {
        Type::Function(func_ty) => {
            assert(func@.ty == TypeView::Function(func_ty@));
            if arguments_match(&args, &func_ty.params_ty) {
                let ty = func_ty.return_ty.duplicate();
                Ok(fb.assign(ty, Expression::FuncCall(func, args)))
            } else {
                Err(SyntaxError::plain(ErrorKind::ParamMismatch, "Mismatching params.", span))
            }
        },
        _ => Err(SyntaxError::plain(ErrorKind::NotCallable, "Not callable.", span)),
    }
}

/// Emits the load of what a name stands for.
fn emit_identifier(fb: &mut FunctionBuilder, name: &String, span: Span) -> (r: Result<
    Value,
    SyntaxError,
>)
    requires
        old(fb)@.wf(),
        old(fb)@.has_room(1),
    ensures
        lowered_value_is(r, final(fb)@, lower_identifier(old(fb)@, name@, span)),
        r is Ok ==> final(fb)@.after_expression(old(fb)@, 1),
{
    match fb.symbol_table.get_var(name) {
        Some((ty, expr)) => Ok(fb.assign(ty, expr)),
        None => Err(
            SyntaxError::named(
                ErrorKind::UndefinedName,
                "",
                name.as_str(),
                " is not defined here.",
                span,
            ),
        ),
    }
}

/// The type of a literal.
fn literal_type(lit: &Literal) -> (ty: Type)
    ensures
        ty@ == lit.ty(),
{
    match lit {
        Literal::Int(_) => Type::Int,
        Literal::Double(_) => Type::Double,
        Literal::Bool(_) => Type::Bool,
        Literal::Char(_) => Type::Char,
        Literal::Unit => Type::Unit,
    }
}

/// Emits the value of a literal.
fn emit_literal(fb: &mut FunctionBuilder, lit: &ast::Literal, span: Span) -> (r: Result<
    Value,
    SyntaxError,
>)
    requires
        old(fb)@.wf(),
        old(fb)@.has_room(1),
    ensures
        lowered_value_is(r, final(fb)@, lower_literal(old(fb)@, *lit, span)),
        r is Ok ==> final(fb)@.after_expression(old(fb)@, 1),
{
    match build_literal(lit, span) {
        Ok(lit) => {
            let ty = literal_type(&lit);
            Ok(fb.assign(ty, Expression::Literal(lit)))
        },
        Err(e) => Err(e),
    }
}

/// Lowers an expression and loads its result.
pub fn build_operand(fb: &mut FunctionBuilder, expr: &Spanned<ast::Expression>) -> (r: Result<
    Value,
    SyntaxError,
>)
    requires
        old(fb)@.wf(),
        old(fb)@.has_room(expression_weight(*expr)),
    ensures
        lowered_value_is(r, final(fb)@, lower_operand(old(fb)@, *expr)),
        r is Ok ==> final(fb)@.after_expression(old(fb)@, expression_weight(*expr)),
    decreases expr, 3nat,
{
    match build_expression(fb, expr) {
        Err(e) => Err(e),
        Ok(value) => Ok(build_lvalue_to_rvalue(fb, value)),
    }
}

/// Lowers an assignment.
fn build_assign(
    fb: &mut FunctionBuilder,
    expr: &Spanned<ast::Expression>,
    lhs: &Spanned<ast::Expression>,
    rhs: &Spanned<ast::Expression>,
) -> (r: Result<Value, SyntaxError>)
    requires
        old(fb)@.wf(),
        old(fb)@.has_room(expression_weight(*expr)),
        expr.inner == ast::Expression::Assign(Box::new(*lhs), Box::new(*rhs)),
    ensures
        lowered_value_is(r, final(fb)@, lower_expression(old(fb)@, *expr)),
        r is Ok ==> final(fb)@.after_expression(
            old(fb)@,
            (expression_weight(*expr) - 1) as nat,
        ),
    decreases expr, 0nat,
{
    let lhs_value = match build_expression(fb, lhs) {
        Err(e) => {
            return Err(e);
        },
        Ok(value) => value,
    };
    let rhs_value = match build_operand(fb, rhs) {
        Err(e) => {
            return Err(e);
        },
        Ok(value) => value,
    };
    emit_assign(fb, lhs_value, rhs_value, expr.span)
}

/// Lowers a subscript.
fn build_subscript(
    fb: &mut FunctionBuilder,
    expr: &Spanned<ast::Expression>,
    array: &Spanned<ast::Expression>,
    index: &Spanned<ast::Expression>,
) -> (r: Result<Value, SyntaxError>)
    requires
        old(fb)@.wf(),
        old(fb)@.has_room(expression_weight(*expr)),
        expr.inner == ast::Expression::Subscript(Box::new(*array), Box::new(*index)),
    ensures
        lowered_value_is(r, final(fb)@, lower_expression(old(fb)@, *expr)),
        r is Ok ==> final(fb)@.after_expression(
            old(fb)@,
            (expression_weight(*expr) - 1) as nat,
        ),
    decreases expr, 0nat,
{
    let array_value = match build_operand(fb, array) {
        Err(e) => {
            return Err(e);
        },
        Ok(value) => value,
    };
    let index_value = match build_operand(fb, index) {
        Err(e) => {
            return Err(e);
        },
        Ok(value) => value,
    };
    emit_subscript(fb, array_value, index_value, expr.span)
}

/// Lowers a binary operator other than the short-circuit ones.
fn build_binop(
    fb: &mut FunctionBuilder,
    expr: &Spanned<ast::Expression>,
    code: ast::BinOpCode,
    lhs: &Spanned<ast::Expression>,
    rhs: &Spanned<ast::Expression>,
) -> (r: Result<Value, SyntaxError>)
    requires
        old(fb)@.wf(),
        old(fb)@.has_room(expression_weight(*expr)),
        expr.inner == ast::Expression::BinOp(code, Box::new(*lhs), Box::new(*rhs)),
        code != ast::BinOpCode::LogicalAnd,
        code != ast::BinOpCode::LogicalOr,
    ensures
        lowered_value_is(r, final(fb)@, lower_expression(old(fb)@, *expr)),
        r is Ok ==> final(fb)@.after_expression(
            old(fb)@,
            (expression_weight(*expr) - 1) as nat,
        ),
    decreases expr, 0nat,
{
    let lhs_value = match build_operand(fb, lhs) {
        Err(e) => {
            return Err(e);
        },
        Ok(value) => value,
    };
    let rhs_value = match build_operand(fb, rhs) {
        Err(e) => {
            return Err(e);
        },
        Ok(value) => value,
    };
    emit_binop(fb, code, lhs_value, rhs_value, expr.span)
}

/// Lowers `lhs && rhs` where `conjunction` holds, `lhs || rhs` where not.
fn build_logical(
    fb: &mut FunctionBuilder,
    expr: &Spanned<ast::Expression>,
    conjunction: bool,
    lhs: &Spanned<ast::Expression>,
    rhs: &Spanned<ast::Expression>,
) -> (r: Result<Value, SyntaxError>)
    requires
        old(fb)@.wf(),
        old(fb)@.has_room(expression_weight(*expr)),
        expr.inner == ast::Expression::BinOp(
            if conjunction {
                ast::BinOpCode::LogicalAnd
            } else {
                ast::BinOpCode::LogicalOr
            },
            Box::new(*lhs),
            Box::new(*rhs),
        ),
    ensures
        lowered_value_is(r, final(fb)@, lower_expression(old(fb)@, *expr)),
        r is Ok ==> final(fb)@.after_expression(
            old(fb)@,
            (expression_weight(*expr) - 1) as nat,
        ),
    decreases expr, 0nat,
{
    let slot = fb.register_local_logical();
    let lhs_value = match build_operand(fb, lhs) {
        Err(e) => {
            return Err(e);
        },
        Ok(value) => value,
    };
    let (false_label, final_label) = fb.branch_on(lhs_value);
    if conjunction {
        let rhs_value = match build_operand(fb, rhs) {
            Err(e) => {
                return Err(e);
            },
            Ok(value) => value,
        };
        fb.store_slot(slot, rhs_value);
        fb.jump(final_label, false_label);
        fb.store_bool(slot, false);
        fb.jump(final_label, final_label);
        Ok(fb.load_slot(slot))
    } else {
        fb.store_bool(slot, true);
        fb.jump(final_label, false_label);
        let rhs_value = match build_operand(fb, rhs) {
            Err(e) => {
                return Err(e);
            },
            Ok(value) => value,
        };
        fb.store_slot(slot, rhs_value);
        fb.jump(final_label, final_label);
        Ok(fb.load_slot(slot))
    }
}

/// Lowers a unary operator. The operand of address-of is not loaded.
fn build_unop(
    fb: &mut FunctionBuilder,
    expr: &Spanned<ast::Expression>,
    code: ast::UnOpCode,
    sub: &Spanned<ast::Expression>,
) -> (r: Result<Value, SyntaxError>)
    requires
        old(fb)@.wf(),
        old(fb)@.has_room(expression_weight(*expr)),
        expr.inner == ast::Expression::UnOp(code, Box::new(*sub)),
    ensures
        lowered_value_is(r, final(fb)@, lower_expression(old(fb)@, *expr)),
        r is Ok ==> final(fb)@.after_expression(
            old(fb)@,
            (expression_weight(*expr) - 1) as nat,
        ),
    decreases expr, 0nat,
{
    let operand = if code == ast::UnOpCode::AddressOf {
        build_expression(fb, sub)
    } else {
        build_operand(fb, sub)
    };
    match operand {
        Err(e) => Err(e),
        Ok(sub_value) => emit_unop(fb, code, sub_value, expr.span),
    }
}

/// Lowers the arguments of a call, in order, each as an operand.
#[verifier::loop_isolation(false)]
fn build_arguments(
    fb: &mut FunctionBuilder,
    expr: &Spanned<ast::Expression>,
    params: &Vec<Spanned<ast::Expression>>,
) -> (r: Result<Vec<Value>, SyntaxError>)
    requires
        old(fb)@.wf(),
        old(fb)@.has_room(expressions_weight(params@, 0)),
        expr.inner is FuncCall,
        expr.inner->FuncCall_1 == *params,
    ensures
        match r {
            Ok(args) => lower_arguments(old(fb)@, params@, 0, Seq::empty()) == Ok::<
                (BuilderState, Seq<ValueView>),
                Rejected,
            >((final(fb)@, models(args@))),
            Err(e) => lower_arguments(old(fb)@, params@, 0, Seq::empty()) == Err::<
                (BuilderState, Seq<ValueView>),
                Rejected,
            >((final(fb)@, e@)),
        },
        r is Ok ==> final(fb)@.after_expression(old(fb)@, expressions_weight(params@, 0)),
    decreases expr, 0nat,
{
    let mut args: Vec<Value> = Vec::new();
    let mut i: usize = 0;
    assert(models(args@) =~= Seq::empty());
    while i < params.len()
        invariant
            i <= params.len(),
            fb@.wf(),
            fb@.symbols == old(fb)@.symbols,
            old(fb)@.current_temp_id <= fb@.current_temp_id,
            old(fb)@.label_counter <= fb@.label_counter,
            fb@.current_temp_id + expressions_weight(params@, i as int) <= old(fb)@.current_temp_id
                + expressions_weight(params@, 0),
            fb@.label_counter + expressions_weight(params@, i as int) <= old(fb)@.label_counter
                + expressions_weight(params@, 0),
            lower_arguments(old(fb)@, params@, 0, Seq::empty()) == lower_arguments(
                fb@,
                params@,
                i as int,
                models(args@),
            ),
        decreases params.len() - i,
    {
        let ghost done = models(args@);
        match build_operand(fb, &params[i]) {
            Err(e) => {
                return Err(e);
            },
            Ok(value) => {
                args.push(value);
                assert(models(args@) =~= done.push(value@));
            },
        }
        i += 1;
    }
    Ok(args)
}

/// Lowers a call.
fn build_func_call(
    fb: &mut FunctionBuilder,
    expr: &Spanned<ast::Expression>,
    func: &Spanned<ast::Expression>,
    params: &Vec<Spanned<ast::Expression>>,
) -> (r: Result<Value, SyntaxError>)
    requires
        old(fb)@.wf(),
        old(fb)@.has_room(expression_weight(*expr)),
        expr.inner == ast::Expression::FuncCall(Box::new(*func), *params),
    ensures
        lowered_value_is(r, final(fb)@, lower_expression(old(fb)@, *expr)),
        r is Ok ==> final(fb)@.after_expression(
            old(fb)@,
            (expression_weight(*expr) - 1) as nat,
        ),
    decreases expr, 1nat,
{
    let func_value = match build_operand(fb, func) {
        Err(e) => {
            return Err(e);
        },
        Ok(value) => value,
    };
    if !matches!(func_value.ty, Type::Function(_)) {
        return Err(SyntaxError::plain(ErrorKind::NotCallable, "Not callable.", expr.span));
    }
    let args = match build_arguments(fb, expr, params) {
        Err(e) => {
            return Err(e);
        },
        Ok(args) => args,
    };
    emit_call(fb, func_value, args, expr.span)
}

/// Lowers a cast.
fn build_cast(
    fb: &mut FunctionBuilder,
    expr: &Spanned<ast::Expression>,
    sub: &Spanned<ast::Expression>,
    target: &Spanned<ast::ParseType>,
) -> (r: Result<Value, SyntaxError>)
    requires
        old(fb)@.wf(),
        old(fb)@.has_room(expression_weight(*expr)),
        expr.inner == ast::Expression::Cast(Box::new(*sub), *target),
    ensures
        lowered_value_is(r, final(fb)@, lower_expression(old(fb)@, *expr)),
        r is Ok ==> final(fb)@.after_expression(
            old(fb)@,
            (expression_weight(*expr) - 1) as nat,
        ),
    decreases expr, 0nat,
{
    match build_operand(fb, sub) {
        Err(e) => Err(e),
        Ok(sub_value) => emit_cast(fb, sub_value, target, expr.span),
    }
}

/// Lowers an expression: emits its statements at the end of the open block
/// and gives the value that stands for its result.
pub fn build_expression(fb: &mut FunctionBuilder, expr: &Spanned<ast::Expression>) -> (r: Result<
    Value,
    SyntaxError,
>)
    requires
        old(fb)@.wf(),
        old(fb)@.has_room(expression_weight(*expr)),
    ensures
        lowered_value_is(r, final(fb)@, lower_expression(old(fb)@, *expr)),
        r is Ok ==> final(fb)@.after_expression(
            old(fb)@,
            (expression_weight(*expr) - 1) as nat,
        ),
    decreases expr, 2nat,
{
    match &expr.inner {
        ast::Expression::Assign(lhs, rhs) => build_assign(fb, expr, lhs, rhs),
        ast::Expression::Subscript(array, index) => build_subscript(fb, expr, array, index),
        ast::Expression::BinOp(code, lhs, rhs) => {
            if *code == ast::BinOpCode::LogicalAnd {
                build_logical(fb, expr, true, lhs, rhs)
            } else if *code == ast::BinOpCode::LogicalOr {
                build_logical(fb, expr, false, lhs, rhs)
            } else {
                build_binop(fb, expr, *code, lhs, rhs)
            }
        },
        ast::Expression::UnOp(code, sub) => build_unop(fb, expr, *code, sub),
        ast::Expression::FuncCall(func, params) => build_func_call(fb, expr, func, params),
        ast::Expression::Cast(sub, target) => build_cast(fb, expr, sub, target),
        ast::Expression::Paren(sub) => build_expression(fb, sub),
        ast::Expression::Identifier(name) => emit_identifier(fb, name, expr.span),
        ast::Expression::Literal(lit) => emit_literal(fb, lit, expr.span),
        ast::Expression::ArrayFullLiteral(_) => Err(
            SyntaxError::plain(
                ErrorKind::UnsupportedArrayLiteral,
                "Array literals are not supported.",
                expr.span,
            ),
        ),
        ast::Expression::ArrayDefaultLiteral(_, _) => Err(
            SyntaxError::plain(
                ErrorKind::UnsupportedArrayLiteral,
                "Array literals are not supported.",
                expr.span,
            ),
        ),
    }
}

} // verus!
