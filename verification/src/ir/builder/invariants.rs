//! What lowering keeps: the states that it reaches, from a state that meets
//! the invariant of the builder, meet it too, and the buffer only grows.

use crate::ast;
use crate::ast::Spanned;
use crate::ir::builder::expression::{lower_arguments, lower_expression, lower_operand};
use crate::ir::builder::function::{BuilderState, ItemView};
use crate::ir::builder::statement::{
    lower_branch, lower_branches, lower_compound, lower_loop_body, lower_statement,
    lower_statements,
};
use crate::ir::builder::symbols::SymbolTableView;
use crate::ir::builder::literal::resolve_literal;
use crate::ir::builder::types::resolve_type;
use crate::ir::tyck::{binop_rule, cast_rule, unop_rule};
use crate::ir::{ExpressionView, Literal, StatementView, TerminatorView, TypeView, ValueView};
use vstd::prelude::*;

verus! {

impl TerminatorView {
    /// Whether every label that the terminator names is `bound` or above.
    pub open spec fn targets_from(self, bound: nat) -> bool {
        match self {
            TerminatorView::Br(target) => target >= bound,
            TerminatorView::BrCond(_, on_true, on_false) => on_true >= bound && on_false >= bound,
            TerminatorView::Ret(_) => true,
        }
    }
}

impl ItemView {
    /// Whether every label that the item names is `bound` or above.
    pub open spec fn labels_from(self, bound: nat) -> bool {
        match self {
            ItemView::Statement(_) => true,
            ItemView::TerminatorAndLabel(terminator, label) => {
                &&& label >= bound
                &&& terminator matches Some(t) ==> t.targets_from(bound)
            },
        }
    }
}

impl BuilderState {
    /// Whether this state is what the lowering of an expression can leave,
    /// started from `before`: the invariant holds; the function, the names in
    /// sight and the loop context are those of `before`; the buffer is that
    /// of `before` with entries appended, and these name only labels that
    /// were fresh in `before`.
    pub open spec fn grows_from(self, before: BuilderState) -> bool {
        &&& self.wf()
        &&& self.name == before.name
        &&& self.ty == before.ty
        &&& self.symbols == before.symbols
        &&& self.current_loop_info == before.current_loop_info
        &&& before.label_counter <= self.label_counter
        &&& before.items.len() <= self.items.len()
        &&& forall|i: int| 0 <= i < before.items.len() ==> #[trigger] self.items[i] == before.items[i]
        &&& forall|i: int|
            before.items.len() <= i < self.items.len() ==> (#[trigger] self.items[i]).labels_from(
                before.label_counter,
            )
    }
}

/// What grows from a state that grew from another grew from the other.
pub proof fn lemma_grows_trans(s: BuilderState, mid: BuilderState, end: BuilderState)
    requires
        mid.grows_from(s),
        end.grows_from(mid),
    ensures
        end.grows_from(s),
{
    assert forall|i: int| s.items.len() <= i < end.items.len() implies (#[trigger] end.items[i]).labels_from(
        s.label_counter,
    ) by {
        if i < mid.items.len() {
            assert(end.items[i] == mid.items[i]);
            assert(mid.items[i].labels_from(s.label_counter));
        } else {
            assert(end.items[i].labels_from(mid.label_counter));
        }
    }
    assert forall|i: int| 0 <= i < s.items.len() implies #[trigger] end.items[i] == s.items[i] by {
        assert(end.items[i] == mid.items[i]);
        assert(mid.items[i] == s.items[i]);
    }
}

/// A state that grew still has grown with one more entry, where that entry
/// names only labels that were fresh at the start and are handed out by
/// now.
pub proof fn lemma_grows_push(s: BuilderState, mid: BuilderState, item: ItemView)
    requires
        mid.grows_from(s),
        item.labels_below(mid.label_counter),
        item.labels_from(s.label_counter),
    ensures
        mid.push_item(item).grows_from(s),
{
    let end = mid.push_item(item);
    assert forall|i: int| 0 <= i < end.items.len() implies (#[trigger] end.items[i]).labels_below(
        end.label_counter,
    ) by {
        if i < mid.items.len() {
            assert(end.items[i] == mid.items[i]);
        }
    }
    assert forall|i: int| s.items.len() <= i < end.items.len() implies (#[trigger] end.items[i]).labels_from(
        s.label_counter,
    ) by {
        if i < mid.items.len() {
            assert(end.items[i] == mid.items[i]);
        }
    }
    assert forall|i: int| 0 <= i < s.items.len() implies #[trigger] end.items[i] == s.items[i] by {
        assert(end.items[i] == mid.items[i]);
    }
}

/// A state that grew still has grown with one more label handed out.
pub proof fn lemma_grows_label(s: BuilderState, mid: BuilderState)
    requires
        mid.grows_from(s),
    ensures
        mid.new_label().0.grows_from(s),
{
    let end = mid.new_label().0;
    assert forall|i: int| 0 <= i < end.items.len() implies (#[trigger] end.items[i]).labels_below(
        end.label_counter,
    ) by {
        assert(mid.items[i].labels_below(mid.label_counter));
    }
}

/// A state that grew still has grown with one more statement.
pub proof fn lemma_grows_assign(s: BuilderState, mid: BuilderState, ty: TypeView, expr: ExpressionView)
    requires
        mid.grows_from(s),
    ensures
        mid.assign(ty, expr).0.grows_from(s),
{
    let (next, value) = mid.new_temp_value(ty);
    assert(next.grows_from(s));
    lemma_grows_push(s, next, ItemView::Statement(StatementView::Assign(value, expr)));
}

/// A state that grew still has grown with the load of a value.
pub proof fn lemma_grows_load(s: BuilderState, mid: BuilderState, value: ValueView)
    requires
        mid.grows_from(s),
    ensures
        mid.load(value).0.grows_from(s),
{
    match value.ty {
        TypeView::LValue(sub) => {
            lemma_grows_assign(s, mid, *sub, ExpressionView::LValueLoad(value));
        },
        _ => {},
    }
}

/// Every state has grown from itself.
pub proof fn lemma_grows_refl(s: BuilderState)
    requires
        s.wf(),
    ensures
        s.grows_from(s),
{
}

/// A state that grew still has grown with a store into a stack slot.
pub proof fn lemma_grows_store_slot(s: BuilderState, mid: BuilderState, slot: nat, value: ValueView)
    requires
        mid.grows_from(s),
    ensures
        mid.store_slot(slot, value).grows_from(s),
{
    let (next, target) = mid.assign(TypeView::Bool.stored(), ExpressionView::LocalVarLoad(slot));
    lemma_grows_assign(s, mid, TypeView::Bool.stored(), ExpressionView::LocalVarLoad(slot));
    lemma_grows_push(s, next, ItemView::Statement(StatementView::LValueSet(target, value)));
}

/// A state that grew still has grown with the store of a constant into a
/// stack slot.
pub proof fn lemma_grows_store_bool(s: BuilderState, mid: BuilderState, slot: nat, b: bool)
    requires
        mid.grows_from(s),
    ensures
        mid.store_bool(slot, b).grows_from(s),
{
    let (next, constant) = mid.assign(
        TypeView::Bool,
        ExpressionView::Literal(Literal::Bool(b)),
    );
    lemma_grows_assign(s, mid, TypeView::Bool, ExpressionView::Literal(Literal::Bool(b)));
    lemma_grows_store_slot(s, next, slot, constant);
}

/// A state that grew still has grown with the load of a stack slot.
pub proof fn lemma_grows_load_slot(s: BuilderState, mid: BuilderState, slot: nat)
    requires
        mid.grows_from(s),
    ensures
        mid.load_slot(slot).0.grows_from(s),
{
    let (next, source) = mid.assign(TypeView::Bool.stored(), ExpressionView::LocalVarLoad(slot));
    lemma_grows_assign(s, mid, TypeView::Bool.stored(), ExpressionView::LocalVarLoad(slot));
    lemma_grows_assign(s, next, TypeView::Bool, ExpressionView::LValueLoad(source));
}

/// A state that grew still has grown with a jump between two labels that
/// were fresh at the start.
pub proof fn lemma_grows_jump(s: BuilderState, mid: BuilderState, target: nat, next: nat)
    requires
        mid.grows_from(s),
        s.label_counter >= 1,
        s.label_counter <= target < mid.label_counter,
        s.label_counter <= next < mid.label_counter,
    ensures
        mid.jump(target, next).grows_from(s),
{
    lemma_grows_push(s, mid, ItemView::TerminatorAndLabel(Some(TerminatorView::Br(target)), next));
}

/// A state that grew still has grown with the branch of a short-circuit
/// operator, whose three labels are fresh.
pub proof fn lemma_grows_branch_on(s: BuilderState, mid: BuilderState, cond: ValueView)
    requires
        mid.grows_from(s),
    ensures
        mid.branch_on(cond).0.grows_from(s),
        mid.branch_on(cond).0.label_counter == mid.label_counter + 3,
        mid.branch_on(cond).1 == (mid.label_counter, mid.label_counter + 1, mid.label_counter + 2),
{
    let (s1, true_label) = mid.new_label();
    let (s2, false_label) = s1.new_label();
    let (s3, final_label) = s2.new_label();
    lemma_grows_label(s, mid);
    lemma_grows_label(s, s1);
    lemma_grows_label(s, s2);
    lemma_grows_push(
        s,
        s3,
        ItemView::TerminatorAndLabel(
            Some(TerminatorView::BrCond(cond, true_label, false_label)),
            true_label,
        ),
    );
}

/// Lowering an expression keeps the invariant of the builder, leaves the
/// function, the names in sight and the loop context as they were, and only
/// appends to the buffer; what it appends names only fresh labels.
pub proof fn lemma_expression_grows(s: BuilderState, expr: Spanned<ast::Expression>)
    requires
        s.wf(),
        lower_expression(s, expr) is Ok,
    ensures
        lower_expression(s, expr)->Ok_0.0.grows_from(s),
    decreases expr, 1nat,
{
    match expr.inner {
        ast::Expression::Assign(lhs, rhs) => {
            lemma_expression_grows(s, *lhs);
            let (s1, lhs_value) = lower_expression(s, *lhs)->Ok_0;
            lemma_operand_grows(s1, *rhs);
            let (s2, rhs_value) = lower_operand(s1, *rhs)->Ok_0;
            lemma_grows_trans(s, s1, s2);
            lemma_grows_push(
                s,
                s2,
                ItemView::Statement(StatementView::LValueSet(lhs_value, rhs_value)),
            );
        },
        ast::Expression::Subscript(array, index) => {
            lemma_operand_grows(s, *array);
            let (s1, array_value) = lower_operand(s, *array)->Ok_0;
            lemma_operand_grows(s1, *index);
            let (s2, index_value) = lower_operand(s1, *index)->Ok_0;
            lemma_grows_trans(s, s1, s2);
            lemma_grows_assign(
                s,
                s2,
                array_value.ty->Array_0.stored(),
                ExpressionView::ReadArray(array_value, index_value),
            );
        },
        ast::Expression::BinOp(code, lhs, rhs) => {
            if code == ast::BinOpCode::LogicalAnd || code == ast::BinOpCode::LogicalOr {
                lemma_logical_grows(s, expr);
            } else {
                lemma_operand_grows(s, *lhs);
                let (s1, lhs_value) = lower_operand(s, *lhs)->Ok_0;
                lemma_operand_grows(s1, *rhs);
                let (s2, rhs_value) = lower_operand(s1, *rhs)->Ok_0;
                lemma_grows_trans(s, s1, s2);
                let (op, ty) = binop_rule(code, lhs_value.ty, rhs_value.ty)->Some_0;
                lemma_grows_assign(s, s2, ty, ExpressionView::BinOp(op, lhs_value, rhs_value));
            }
        },
        ast::Expression::UnOp(code, sub) => {
            if code == ast::UnOpCode::AddressOf {
                lemma_expression_grows(s, *sub);
                let (s1, sub_value) = lower_expression(s, *sub)->Ok_0;
                let (op, ty) = unop_rule(code, sub_value.ty)->Some_0;
                lemma_grows_assign(s, s1, ty, ExpressionView::UnOp(op, sub_value));
            } else {
                lemma_operand_grows(s, *sub);
                let (s1, sub_value) = lower_operand(s, *sub)->Ok_0;
                let (op, ty) = unop_rule(code, sub_value.ty)->Some_0;
                lemma_grows_assign(s, s1, ty, ExpressionView::UnOp(op, sub_value));
            }
        },
        ast::Expression::FuncCall(func, params) => {
            lemma_operand_grows(s, *func);
            let (s1, func_value) = lower_operand(s, *func)->Ok_0;
            lemma_arguments_grow(s1, params@, 0, Seq::empty());
            let (s2, args) = lower_arguments(s1, params@, 0, Seq::empty())->Ok_0;
            lemma_grows_trans(s, s1, s2);
            lemma_grows_assign(
                s,
                s2,
                *func_value.ty->Function_0.return_ty,
                ExpressionView::FuncCall(func_value, args),
            );
        },
        ast::Expression::Cast(sub, target) => {
            lemma_operand_grows(s, *sub);
            let (s1, sub_value) = lower_operand(s, *sub)->Ok_0;
            let target_ty = resolve_type(target)->Ok_0;
            let code = cast_rule(sub_value.ty, target_ty)->Some_0;
            lemma_grows_assign(s, s1, target_ty, ExpressionView::CastOp(code, sub_value));
        },
        ast::Expression::Paren(sub) => {
            lemma_expression_grows(s, *sub);
        },
        ast::Expression::Identifier(name) => {
            let (ty, load) = s.symbols.get_var(name@)->Some_0;
            lemma_grows_assign(s, s, ty, load);
        },
        ast::Expression::Literal(lit) => {
            let lit = resolve_literal(lit, expr.span)->Ok_0;
            lemma_grows_assign(s, s, lit.ty(), ExpressionView::Literal(lit));
        },
        ast::Expression::ArrayFullLiteral(_) => {},
        ast::Expression::ArrayDefaultLiteral(_, _) => {},
    }
}

/// Lowering a short-circuit operator keeps what lowering an expression
/// keeps.
pub proof fn lemma_logical_grows(s: BuilderState, expr: Spanned<ast::Expression>)
    requires
        s.wf(),
        lower_expression(s, expr) is Ok,
        expr.inner matches ast::Expression::BinOp(code, _, _) && (code
            == ast::BinOpCode::LogicalAnd || code == ast::BinOpCode::LogicalOr),
    ensures
        lower_expression(s, expr)->Ok_0.0.grows_from(s),
    decreases expr, 0nat,
{
    let code = expr.inner->BinOp_0;
    let lhs = *expr.inner->BinOp_1;
    let rhs = *expr.inner->BinOp_2;
    let (s0, slot) = s.register_local_logical();
    assert(s0.grows_from(s));
    lemma_operand_grows(s0, lhs);
    let (s1, lhs_value) = lower_operand(s0, lhs)->Ok_0;
    lemma_grows_trans(s, s0, s1);
    let (s2, (_, false_label, final_label)) = s1.branch_on(lhs_value);
    lemma_grows_branch_on(s, s1, lhs_value);
    if code == ast::BinOpCode::LogicalAnd {
        lemma_operand_grows(s2, rhs);
        let (s3, rhs_value) = lower_operand(s2, rhs)->Ok_0;
        lemma_grows_trans(s, s2, s3);
        let s4 = s3.store_slot(slot, rhs_value);
        lemma_grows_store_slot(s, s3, slot, rhs_value);
        let s5 = s4.jump(final_label, false_label);
        lemma_grows_jump(s, s4, final_label, false_label);
        let s6 = s5.store_bool(slot, false);
        lemma_grows_store_bool(s, s5, slot, false);
        let s7 = s6.jump(final_label, final_label);
        lemma_grows_jump(s, s6, final_label, final_label);
        lemma_grows_load_slot(s, s7, slot);
    } else {
        let s3 = s2.store_bool(slot, true);
        lemma_grows_store_bool(s, s2, slot, true);
        let s4 = s3.jump(final_label, false_label);
        lemma_grows_jump(s, s3, final_label, false_label);
        lemma_operand_grows(s4, rhs);
        let (s5, rhs_value) = lower_operand(s4, rhs)->Ok_0;
        lemma_grows_trans(s, s4, s5);
        let s6 = s5.store_slot(slot, rhs_value);
        lemma_grows_store_slot(s, s5, slot, rhs_value);
        let s7 = s6.jump(final_label, final_label);
        lemma_grows_jump(s, s6, final_label, final_label);
        lemma_grows_load_slot(s, s7, slot);
    }
}

/// Lowering an operand keeps what lowering an expression keeps.
pub proof fn lemma_operand_grows(s: BuilderState, expr: Spanned<ast::Expression>)
    requires
        s.wf(),
        lower_operand(s, expr) is Ok,
    ensures
        lower_operand(s, expr)->Ok_0.0.grows_from(s),
    decreases expr, 2nat,
{
    lemma_expression_grows(s, expr);
    let (s1, value) = lower_expression(s, expr)->Ok_0;
    lemma_grows_load(s, s1, value);
}

/// Lowering the arguments of a call keeps what lowering an expression
/// keeps.
pub proof fn lemma_arguments_grow(
    s: BuilderState,
    params: Seq<Spanned<ast::Expression>>,
    from: int,
    done: Seq<ValueView>,
)
    requires
        s.wf(),
        lower_arguments(s, params, from, done) is Ok,
    ensures
        lower_arguments(s, params, from, done)->Ok_0.0.grows_from(s),
    decreases params, params.len() - from,
{
    if 0 <= from < params.len() {
        lemma_operand_grows(s, params[from]);
        let (s1, value) = lower_operand(s, params[from])->Ok_0;
        lemma_arguments_grow(s1, params, from + 1, done.push(value));
        lemma_grows_trans(s, s1, lower_arguments(s1, params, from + 1, done.push(value))->Ok_0.0);
    }
}

impl SymbolTableView {
    /// Whether this table differs from `before` in its innermost scope at
    /// most: the functions and the number of scopes are the same, and so is
    /// every scope but the innermost.
    pub open spec fn same_outside(self, before: SymbolTableView) -> bool {
        &&& self.globals == before.globals
        &&& self.locals.len() == before.locals.len()
        &&& forall|i: int| 0 <= i < self.locals.len() - 1 ==> #[trigger] self.locals[i] == before.locals[i]
    }
}

impl BuilderState {
    /// Whether this state is what the lowering of a statement can leave,
    /// started from `before`: the invariant holds; the function and the loop
    /// context are those of `before`; the buffer is that of `before` with
    /// entries appended; and among the names in sight only the innermost
    /// scope can differ.
    pub open spec fn follows(self, before: BuilderState) -> bool {
        &&& self.wf()
        &&& self.name == before.name
        &&& self.ty == before.ty
        &&& self.current_loop_info == before.current_loop_info
        &&& before.label_counter <= self.label_counter
        &&& before.items.len() <= self.items.len()
        &&& forall|i: int| 0 <= i < before.items.len() ==> #[trigger] self.items[i] == before.items[i]
        &&& self.symbols.same_outside(before.symbols)
    }
}

/// What follows a state that follows another follows the other.
pub proof fn lemma_follows_trans(s: BuilderState, mid: BuilderState, end: BuilderState)
    requires
        mid.follows(s),
        end.follows(mid),
    ensures
        end.follows(s),
{
    assert forall|i: int| 0 <= i < s.items.len() implies #[trigger] end.items[i] == s.items[i] by {
        assert(end.items[i] == mid.items[i]);
        assert(mid.items[i] == s.items[i]);
    }
    assert forall|i: int| 0 <= i < end.symbols.locals.len() - 1 implies #[trigger] end.symbols.locals[i]
        == s.symbols.locals[i] by {
        assert(end.symbols.locals[i] == mid.symbols.locals[i]);
        assert(mid.symbols.locals[i] == s.symbols.locals[i]);
    }
}

/// A state that follows another still does with one more entry, where that
/// entry names only labels that are handed out.
pub proof fn lemma_follows_push(s: BuilderState, mid: BuilderState, item: ItemView)
    requires
        mid.follows(s),
        item.labels_below(mid.label_counter),
    ensures
        mid.push_item(item).follows(s),
{
    let end = mid.push_item(item);
    assert forall|i: int| 0 <= i < end.items.len() implies (#[trigger] end.items[i]).labels_below(
        end.label_counter,
    ) by {
        if i < mid.items.len() {
            assert(end.items[i] == mid.items[i]);
        }
    }
    assert forall|i: int| 0 <= i < s.items.len() implies #[trigger] end.items[i] == s.items[i] by {
        assert(end.items[i] == mid.items[i]);
    }
}

/// A state that follows another still does with one more label handed out.
pub proof fn lemma_follows_label(s: BuilderState, mid: BuilderState)
    requires
        mid.follows(s),
    ensures
        mid.new_label().0.follows(s),
{
    let end = mid.new_label().0;
    assert forall|i: int| 0 <= i < end.items.len() implies (#[trigger] end.items[i]).labels_below(
        end.label_counter,
    ) by {
        assert(mid.items[i].labels_below(mid.label_counter));
    }
}

/// A state that follows another still does with one more statement.
pub proof fn lemma_follows_assign(s: BuilderState, mid: BuilderState, ty: TypeView, expr: ExpressionView)
    requires
        mid.follows(s),
    ensures
        mid.assign(ty, expr).0.follows(s),
{
    let (next, value) = mid.new_temp_value(ty);
    assert(next.follows(s));
    lemma_follows_push(s, next, ItemView::Statement(StatementView::Assign(value, expr)));
}

/// A state that follows another still does once the open block is closed
/// with a terminator that names only labels that are handed out, and a
/// block with a fresh label is opened.
pub proof fn lemma_follows_terminator(s: BuilderState, mid: BuilderState, terminator: Option<TerminatorView>)
    requires
        mid.follows(s),
        terminator matches Some(t) ==> t.targets_below(mid.label_counter),
    ensures
        mid.push_terminator(terminator).follows(s),
{
    let (next, label) = mid.new_label();
    lemma_follows_label(s, mid);
    match terminator {
        Some(t) => {
            match t {
                TerminatorView::Br(_) => {},
                TerminatorView::BrCond(_, _, _) => {},
                TerminatorView::Ret(_) => {},
            }
        },
        None => {},
    }
    lemma_follows_push(s, next, ItemView::TerminatorAndLabel(terminator, label));
}

/// A state that follows another still does with a branch on a condition,
/// whose two labels are fresh.
pub proof fn lemma_follows_branch_into(s: BuilderState, mid: BuilderState, cond: ValueView)
    requires
        mid.follows(s),
    ensures
        mid.branch_into(cond).0.follows(s),
        mid.branch_into(cond).0.label_counter == mid.label_counter + 2,
        mid.branch_into(cond).1 == (mid.label_counter, mid.label_counter + 1),
{
    let (s1, true_label) = mid.new_label();
    let (s2, false_label) = s1.new_label();
    lemma_follows_label(s, mid);
    lemma_follows_label(s, s1);
    lemma_follows_push(
        s,
        s2,
        ItemView::TerminatorAndLabel(
            Some(TerminatorView::BrCond(cond, true_label, false_label)),
            true_label,
        ),
    );
}

/// A state that follows another still does with a block opened under a
/// fresh label.
pub proof fn lemma_follows_open_block(s: BuilderState, mid: BuilderState)
    requires
        mid.follows(s),
    ensures
        mid.open_block().0.follows(s),
        mid.open_block().0.label_counter == mid.label_counter + 1,
        mid.open_block().1 == mid.label_counter,
{
    let (s1, label) = mid.new_label();
    lemma_follows_label(s, mid);
    lemma_follows_push(s, s1, ItemView::TerminatorAndLabel(None, label));
}

/// A state that follows another still does with a jump between labels that
/// are handed out.
pub proof fn lemma_follows_jump(s: BuilderState, mid: BuilderState, target: nat, next: nat)
    requires
        mid.follows(s),
        target < mid.label_counter,
        1 <= next < mid.label_counter,
    ensures
        mid.jump(target, next).follows(s),
{
    lemma_follows_push(s, mid, ItemView::TerminatorAndLabel(Some(TerminatorView::Br(target)), next));
}

/// What follows a state with a scope opened follows the state itself once
/// that scope is closed, and has the names of the state in sight again.
pub proof fn lemma_scope_closed(s: BuilderState, end: BuilderState)
    requires
        s.wf(),
        end.follows(s.start_local_scope()),
    ensures
        end.end_local_scope().follows(s),
        end.end_local_scope().symbols == s.symbols,
{
    let closed = end.end_local_scope();
    let inner = s.start_local_scope();
    assert(closed.symbols.locals =~= s.symbols.locals) by {
        assert forall|i: int| 0 <= i < s.symbols.locals.len() implies closed.symbols.locals[i]
            == s.symbols.locals[i] by {
            assert(end.symbols.locals[i] == inner.symbols.locals[i]);
        }
    }
    assert forall|i: int| 0 <= i < s.items.len() implies #[trigger] closed.items[i] == s.items[i] by {
        assert(end.items[i] == inner.items[i]);
    }
}

/// Lowering a statement keeps the invariant of the builder, leaves the
/// function and the loop context as they were, only appends to the buffer,
/// and changes the names in sight in the innermost scope at most.
pub proof fn lemma_statement_follows(s: BuilderState, stmt: Spanned<ast::Statement>)
    requires
        s.wf(),
        stmt.inner is Let ==> s.symbols.locals.len() > 0,
        lower_statement(s, stmt) is Ok,
    ensures
        lower_statement(s, stmt)->Ok_0.follows(s),
    decreases stmt, 0nat,
{
    match stmt.inner {
        ast::Statement::Compound(body) => {
            lemma_compound_follows(s, body);
        },
        ast::Statement::Let { name, ty, expr } => {
            lemma_operand_grows(s, expr);
            let (s1, value) = lower_operand(s, expr)->Ok_0;
            let declared = match ty {
                Some(written) => resolve_type(written)->Ok_0,
                None => value.ty,
            };
            let (s2, fresh) = s1.register_local_variable(name@, declared);
            assert(s2.follows(s)) by {
                assert forall|i: int| 0 <= i < s.items.len() implies #[trigger] s2.items[i]
                    == s.items[i] by {
                    assert(s1.items[i] == s.items[i]);
                }
            }
            let (s3, lvalue) = s2.assign(
                declared.stored(),
                ExpressionView::LocalVarLoad(s1.local_counter),
            );
            lemma_follows_assign(
                s,
                s2,
                declared.stored(),
                ExpressionView::LocalVarLoad(s1.local_counter),
            );
            lemma_follows_push(s, s3, ItemView::Statement(StatementView::LValueSet(lvalue, value)));
        },
        ast::Statement::Loop { stmt: body } => {
            lemma_grows_refl(s);
            lemma_follows_open_block(s, s);
            let (s1, continue_label) = s.open_block();
            lemma_follows_label(s, s1);
            let (s2, break_label) = s1.new_label();
            lemma_loop_body_follows(s2, body, continue_label, break_label);
            lemma_follows_trans(s, s2, lower_loop_body(s2, body, continue_label, break_label)->Ok_0);
        },
        ast::Statement::While { cond, stmt: body } => {
            lemma_grows_refl(s);
            lemma_follows_open_block(s, s);
            let (s1, continue_label) = s.open_block();
            let inner = s1.start_local_scope();
            lemma_operand_grows(inner, cond);
            let (s2, cond_value) = lower_operand(inner, cond)->Ok_0;
            lemma_follows_branch_into(inner, s2, cond_value);
            let (s3, (_, break_label)) = s2.branch_into(cond_value);
            lemma_loop_body_follows(s3, body, continue_label, break_label);
            let s4 = lower_loop_body(s3, body, continue_label, break_label)->Ok_0;
            lemma_follows_trans(inner, s3, s4);
            lemma_scope_closed(s1, s4);
            lemma_follows_trans(s, s1, s4.end_local_scope());
        },
        ast::Statement::If { if_branch, elseif_branches, else_branch } => {
            lemma_grows_refl(s);
            lemma_follows_label(s, s);
            let (s1, end_label) = s.new_label();
            let inner = s1.start_local_scope();
            lemma_branch_follows(inner, if_branch, end_label);
            let s2 = lower_branch(inner, if_branch, end_label)->Ok_0;
            lemma_branches_follow(s2, elseif_branches@, 0, end_label);
            let s3 = lower_branches(s2, elseif_branches@, 0, end_label)->Ok_0;
            lemma_follows_trans(inner, s2, s3);
            let s4 = match else_branch {
                Some(body) => lower_compound(s3, body)->Ok_0,
                None => s3,
            };
            match else_branch {
                Some(body) => {
                    lemma_compound_follows(s3, body);
                    lemma_follows_trans(inner, s3, s4);
                },
                None => {},
            }
            lemma_follows_push(inner, s4, ItemView::TerminatorAndLabel(None, end_label));
            lemma_scope_closed(s1, s4.push_terminator_label(None, end_label));
            lemma_follows_trans(s, s1, s4.push_terminator_label(None, end_label).end_local_scope());
        },
        ast::Statement::Break => {
            lemma_grows_refl(s);
            lemma_follows_terminator(
                s,
                s,
                Some(TerminatorView::Br(s.current_loop_info->Some_0.1)),
            );
        },
        ast::Statement::Continue => {
            lemma_grows_refl(s);
            lemma_follows_terminator(
                s,
                s,
                Some(TerminatorView::Br(s.current_loop_info->Some_0.0)),
            );
        },
        ast::Statement::Return { expr } => {
            match expr {
                Some(e) => {
                    lemma_operand_grows(s, e);
                    let (s1, value) = lower_operand(s, e)->Ok_0;
                    lemma_follows_terminator(s, s1, Some(TerminatorView::Ret(value)));
                },
                None => {
                    lemma_grows_refl(s);
                    let (s1, value) = s.assign(
                        TypeView::Unit,
                        ExpressionView::Literal(Literal::Unit),
                    );
                    lemma_follows_assign(
                        s,
                        s,
                        TypeView::Unit,
                        ExpressionView::Literal(Literal::Unit),
                    );
                    lemma_follows_terminator(s, s1, Some(TerminatorView::Ret(value)));
                },
            }
        },
        ast::Statement::Expression { expr } => {
            lemma_expression_grows(s, expr);
        },
    }
}

/// Lowering the body of a loop keeps what lowering a statement keeps.
pub proof fn lemma_loop_body_follows(
    s: BuilderState,
    body: Spanned<ast::CompoundStatement>,
    continue_label: nat,
    break_label: nat,
)
    requires
        s.wf(),
        continue_label < s.label_counter,
        1 <= break_label < s.label_counter,
        lower_loop_body(s, body, continue_label, break_label) is Ok,
    ensures
        lower_loop_body(s, body, continue_label, break_label)->Ok_0.follows(s),
        lower_loop_body(s, body, continue_label, break_label)->Ok_0.symbols == s.symbols,
    decreases body, 1nat,
{
    let inside = s.with_loop_info(Some((continue_label, break_label)));
    lemma_compound_follows(inside, body);
    let s1 = lower_compound(inside, body)->Ok_0;
    let s2 = s1.with_loop_info(s.current_loop_info);
    assert(s2.follows(s)) by {
        assert forall|i: int| 0 <= i < s.items.len() implies #[trigger] s2.items[i] == s.items[i] by {
            assert(s1.items[i] == inside.items[i]);
        }
        assert forall|i: int| 0 <= i < s2.items.len() implies (#[trigger] s2.items[i]).labels_below(
            s2.label_counter,
        ) by {
            assert(s1.items[i].labels_below(s1.label_counter));
        }
    }
    lemma_follows_jump(s, s2, continue_label, break_label);
}

/// Lowering a block keeps what lowering a statement keeps, and leaves the
/// names in sight as they were.
pub proof fn lemma_compound_follows(s: BuilderState, body: Spanned<ast::CompoundStatement>)
    requires
        s.wf(),
        lower_compound(s, body) is Ok,
    ensures
        lower_compound(s, body)->Ok_0.follows(s),
        lower_compound(s, body)->Ok_0.symbols == s.symbols,
    decreases body, 0nat,
{
    let inner = s.start_local_scope();
    lemma_statements_follow(inner, body.inner.0@, 0);
    lemma_scope_closed(s, lower_statements(inner, body.inner.0@, 0)->Ok_0);
}

/// Lowering statements in order keeps what lowering a statement keeps.
pub proof fn lemma_statements_follow(s: BuilderState, stmts: Seq<Spanned<ast::Statement>>, from: int)
    requires
        s.wf(),
        s.symbols.locals.len() > 0,
        lower_statements(s, stmts, from) is Ok,
    ensures
        lower_statements(s, stmts, from)->Ok_0.follows(s),
    decreases stmts, stmts.len() - from,
{
    if 0 <= from < stmts.len() {
        lemma_statement_follows(s, stmts[from]);
        let s1 = lower_statement(s, stmts[from])->Ok_0;
        lemma_statements_follow(s1, stmts, from + 1);
        lemma_follows_trans(s, s1, lower_statements(s1, stmts, from + 1)->Ok_0);
    }
}

/// Lowering one arm of an `if` keeps what lowering a statement keeps.
pub proof fn lemma_branch_follows(s: BuilderState, branch: ast::Branch, end_label: nat)
    requires
        s.wf(),
        end_label < s.label_counter,
        lower_branch(s, branch, end_label) is Ok,
    ensures
        lower_branch(s, branch, end_label)->Ok_0.follows(s),
        lower_branch(s, branch, end_label)->Ok_0.symbols == s.symbols,
    decreases branch, 0nat,
{
    lemma_operand_grows(s, branch.cond);
    let (s1, cond_value) = lower_operand(s, branch.cond)->Ok_0;
    lemma_follows_branch_into(s, s1, cond_value);
    let (s2, (_, else_label)) = s1.branch_into(cond_value);
    lemma_compound_follows(s2, branch.body);
    let s3 = lower_compound(s2, branch.body)->Ok_0;
    lemma_follows_trans(s, s2, s3);
    lemma_follows_jump(s, s3, end_label, else_label);
}

/// Lowering the arms of an `if` in order keeps what lowering a statement
/// keeps.
pub proof fn lemma_branches_follow(s: BuilderState, branches: Seq<ast::Branch>, from: int, end_label: nat)
    requires
        s.wf(),
        end_label < s.label_counter,
        lower_branches(s, branches, from, end_label) is Ok,
    ensures
        lower_branches(s, branches, from, end_label)->Ok_0.follows(s),
        lower_branches(s, branches, from, end_label)->Ok_0.symbols == s.symbols,
    decreases branches, branches.len() - from,
{
    if 0 <= from < branches.len() {
        lemma_branch_follows(s, branches[from], end_label);
        let s1 = lower_branch(s, branches[from], end_label)->Ok_0;
        lemma_branches_follow(s1, branches, from + 1, end_label);
        lemma_follows_trans(s, s1, lower_branches(s1, branches, from + 1, end_label)->Ok_0);
    } else {
        lemma_grows_refl(s);
    }
}

} // verus!
