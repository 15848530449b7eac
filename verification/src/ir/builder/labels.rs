//! How lowering uses labels: every label that it hands out opens one block,
//! and control is passed only to labels that open a block, once the
//! construct that handed them out is lowered.

use crate::ast;
use crate::ast::Spanned;
use crate::ir::builder::cfg::{split_from, RawBlock};
use crate::ir::builder::expression::{lower_arguments, lower_expression, lower_operand};
use crate::ir::builder::function::{BuilderState, ItemView};
use crate::ir::builder::invariants::{
    lemma_compound_follows, lemma_operand_grows, lemma_statement_follows,
};
use crate::ir::builder::literal::resolve_literal;
use crate::ir::builder::statement::{
    lower_branch, lower_branches, lower_compound, lower_loop_body, lower_statement,
    lower_statements,
};
use crate::ir::builder::types::resolve_type;
use crate::ir::tyck::{binop_rule, cast_rule, unop_rule};
use crate::ir::{ExpressionView, Literal, StatementView, TerminatorView, TypeView, ValueView};
use vstd::prelude::*;

verus! {

impl ItemView {
    /// Whether the entry is a boundary that opens the block `label`.
    pub open spec fn opens(self, label: nat) -> bool {
        match self {
            ItemView::Statement(_) => false,
            ItemView::TerminatorAndLabel(_, next) => next == label,
        }
    }

    /// Whether the block that this boundary closes can pass control to the
    /// block `label`: by a terminator that names it, or by falling through
    /// into it.
    pub open spec fn passes_to(self, label: nat) -> bool {
        match self {
            ItemView::Statement(_) => false,
            ItemView::TerminatorAndLabel(Some(t), _) => t.targets(label),
            ItemView::TerminatorAndLabel(None, next) => next == label,
        }
    }
}

/// Whether some boundary of the buffer opens the block `label`.
pub open spec fn is_opened(items: Seq<ItemView>, label: nat) -> bool {
    exists|i: int| 0 <= i < items.len() && (#[trigger] items[i]).opens(label)
}

/// Whether the block `label` is opened in the buffer or is still to be
/// opened.
pub open spec fn is_known(items: Seq<ItemView>, pending: Set<nat>, label: nat) -> bool {
    is_opened(items, label) || pending.contains(label)
}

impl BuilderState {
    /// Whether the labels of this state are in order, where `pending` holds
    /// the labels that were handed out and are still to open their block:
    /// the invariant of the builder holds; no two boundaries open the same
    /// block, and none opens a pending one; and control is passed, by the
    /// buffer and by `break` and `continue`, only to blocks that are opened
    /// or pending.
    pub open spec fn tidy(self, pending: Set<nat>) -> bool {
        &&& self.wf()
        &&& forall|i: int, j: int, label: nat|
            0 <= i < j < self.items.len() && #[trigger] self.items[i].opens(label) ==> !#[trigger] self.items[j].opens(label)
        &&& forall|i: int, label: nat|
            0 <= i < self.items.len() && #[trigger] self.items[i].opens(label)
                ==> !pending.contains(label)
        &&& forall|label: nat| #[trigger] pending.contains(label) ==> 1 <= label < self.label_counter
        &&& forall|i: int, label: nat|
            0 <= i < self.items.len() && #[trigger] self.items[i].passes_to(label) ==> is_known(
                self.items,
                pending,
                label,
            )
        &&& self.current_loop_info matches Some((continue_label, break_label)) ==> is_known(
            self.items,
            pending,
            continue_label,
        ) && is_known(self.items, pending, break_label)
    }
}

/// What is opened stays opened where the buffer grows by one entry.
proof fn lemma_opened_push(items: Seq<ItemView>, item: ItemView, label: nat)
    requires
        is_opened(items, label),
    ensures
        is_opened(items.push(item), label),
{
    let i = choose|i: int| 0 <= i < items.len() && (#[trigger] items[i]).opens(label);
    assert(items.push(item)[i].opens(label));
}

/// A state whose labels are in order stays so where neither the buffer nor
/// the labels change.
pub proof fn lemma_tidy_same(s: BuilderState, end: BuilderState, pending: Set<nat>)
    requires
        s.tidy(pending),
        end.items == s.items,
        end.label_counter == s.label_counter,
        end.current_loop_info == s.current_loop_info,
        end.local_counter == end.locals.len(),
        forall|i: int| 0 <= i < end.locals.len() ==> (#[trigger] end.locals[i]).id == i,
    ensures
        end.tidy(pending),
{
}

/// A fresh label is pending.
pub proof fn lemma_tidy_label(s: BuilderState, pending: Set<nat>)
    requires
        s.tidy(pending),
    ensures
        s.new_label().0.tidy(pending.insert(s.label_counter)),
{
    let end = s.new_label().0;
    assert forall|i: int| 0 <= i < end.items.len() implies (#[trigger] end.items[i]).labels_below(
        end.label_counter,
    ) by {
        assert(s.items[i].labels_below(s.label_counter));
    }
    assert forall|i: int, label: nat|
        0 <= i < end.items.len() && #[trigger] end.items[i].opens(label) implies !pending.insert(
        s.label_counter,
    ).contains(label) by {
        assert(s.items[i].labels_below(s.label_counter));
    }
}

/// A statement changes nothing about labels.
pub proof fn lemma_tidy_statement(s: BuilderState, pending: Set<nat>, stmt: StatementView)
    requires
        s.tidy(pending),
    ensures
        s.push_statement(stmt).tidy(pending),
{
    let item = ItemView::Statement(stmt);
    let end = s.push_statement(stmt);
    assert forall|i: int| 0 <= i < end.items.len() implies (#[trigger] end.items[i]).labels_below(
        end.label_counter,
    ) by {
        if i < s.items.len() {
            assert(end.items[i] == s.items[i]);
        }
    }
    assert forall|i: int, j: int, label: nat|
        0 <= i < j < end.items.len() && #[trigger] end.items[i].opens(label) implies !#[trigger] end.items[j].opens(label) by {
        if j < s.items.len() {
            assert(end.items[i] == s.items[i]);
            assert(end.items[j] == s.items[j]);
        }
    }
    assert forall|i: int, label: nat|
        0 <= i < end.items.len() && #[trigger] end.items[i].opens(label) implies !pending.contains(
        label,
    ) by {
        if i < s.items.len() {
            assert(end.items[i] == s.items[i]);
        }
    }
    assert forall|i: int, label: nat|
        0 <= i < end.items.len() && #[trigger] end.items[i].passes_to(label) implies is_known(
        end.items,
        pending,
        label,
    ) by {
        if i < s.items.len() {
            assert(end.items[i] == s.items[i]);
            assert(is_known(s.items, pending, label));
            if is_opened(s.items, label) {
                lemma_opened_push(s.items, item, label);
            }
        }
    }
    match s.current_loop_info {
        Some((continue_label, break_label)) => {
            if is_opened(s.items, continue_label) {
                lemma_opened_push(s.items, item, continue_label);
            }
            if is_opened(s.items, break_label) {
                lemma_opened_push(s.items, item, break_label);
            }
        },
        None => {},
    }
}

/// A boundary opens a pending block, which is pending no more. Its
/// terminator may pass control to that block and to every block that is
/// opened or pending.
pub proof fn lemma_tidy_open(
    s: BuilderState,
    pending: Set<nat>,
    terminator: Option<TerminatorView>,
    label: nat,
)
    requires
        s.tidy(pending),
        pending.contains(label),
        terminator matches Some(t) ==> forall|target: nat| #[trigger]
            t.targets(target) ==> target == label || is_known(s.items, pending, target),
    ensures
        s.push_terminator_label(terminator, label).tidy(pending.remove(label)),
{
    let item = ItemView::TerminatorAndLabel(terminator, label);
    let end = s.push_terminator_label(terminator, label);
    let rest = pending.remove(label);
    assert(end.items[s.items.len() as int] == item);
    assert(is_opened(end.items, label));
    assert(item.labels_below(s.label_counter)) by {
        match terminator {
            Some(t) => {
                match t {
                    TerminatorView::Br(target) => {
                        assert(t.targets(target));
                        lemma_known_below(s, pending, target, label);
                    },
                    TerminatorView::BrCond(_, on_true, on_false) => {
                        assert(t.targets(on_true));
                        assert(t.targets(on_false));
                        lemma_known_below(s, pending, on_true, label);
                        lemma_known_below(s, pending, on_false, label);
                    },
                    TerminatorView::Ret(_) => {},
                }
            },
            None => {},
        }
    }
    assert forall|i: int| 0 <= i < end.items.len() implies (#[trigger] end.items[i]).labels_below(
        end.label_counter,
    ) by {
        if i < s.items.len() {
            assert(end.items[i] == s.items[i]);
        }
    }
    assert forall|i: int, j: int, l: nat|
        0 <= i < j < end.items.len() && #[trigger] end.items[i].opens(l) implies !#[trigger] end.items[j].opens(l) by {
        assert(end.items[i] == s.items[i]);
        if j < s.items.len() {
            assert(end.items[j] == s.items[j]);
        }
    }
    assert forall|i: int, l: nat|
        0 <= i < end.items.len() && #[trigger] end.items[i].opens(l) implies !rest.contains(
        l,
    ) by {
        if i < s.items.len() {
            assert(end.items[i] == s.items[i]);
        }
    }
    assert forall|i: int, l: nat|
        0 <= i < end.items.len() && #[trigger] end.items[i].passes_to(l) implies is_known(
        end.items,
        rest,
        l,
    ) by {
        if i < s.items.len() {
            assert(end.items[i] == s.items[i]);
            assert(is_known(s.items, pending, l));
        } else {
            match terminator {
                Some(t) => {
                    assert(t.targets(l));
                },
                None => {},
            }
        }
        if is_opened(s.items, l) {
            lemma_opened_push(s.items, item, l);
        }
    }
    match s.current_loop_info {
        Some((continue_label, break_label)) => {
            if is_opened(s.items, continue_label) {
                lemma_opened_push(s.items, item, continue_label);
            }
            if is_opened(s.items, break_label) {
                lemma_opened_push(s.items, item, break_label);
            }
        },
        None => {},
    }
}

/// A label that is opened or pending was handed out.
proof fn lemma_known_below(s: BuilderState, pending: Set<nat>, target: nat, label: nat)
    requires
        s.tidy(pending),
        pending.contains(label),
        target == label || is_known(s.items, pending, target),
    ensures
        target < s.label_counter,
{
    if target != label && is_opened(s.items, target) {
        let i = choose|i: int| 0 <= i < s.items.len() && #[trigger] s.items[i].opens(target);
        assert(s.items[i].labels_below(s.label_counter));
    }
}

/// Binding a fresh value changes nothing about labels.
pub proof fn lemma_tidy_assign(s: BuilderState, pending: Set<nat>, ty: TypeView, expr: ExpressionView)
    requires
        s.tidy(pending),
    ensures
        s.assign(ty, expr).0.tidy(pending),
{
    let (next, value) = s.new_temp_value(ty);
    lemma_tidy_same(s, next, pending);
    lemma_tidy_statement(next, pending, StatementView::Assign(value, expr));
}

/// Loading a value changes nothing about labels.
pub proof fn lemma_tidy_load(s: BuilderState, pending: Set<nat>, value: ValueView)
    requires
        s.tidy(pending),
    ensures
        s.load(value).0.tidy(pending),
{
    match value.ty {
        TypeView::LValue(sub) => {
            lemma_tidy_assign(s, pending, *sub, ExpressionView::LValueLoad(value));
        },
        _ => {},
    }
}

/// Storing into a stack slot changes nothing about labels.
pub proof fn lemma_tidy_store_slot(s: BuilderState, pending: Set<nat>, slot: nat, value: ValueView)
    requires
        s.tidy(pending),
    ensures
        s.store_slot(slot, value).tidy(pending),
{
    let (next, target) = s.assign(TypeView::Bool.stored(), ExpressionView::LocalVarLoad(slot));
    lemma_tidy_assign(s, pending, TypeView::Bool.stored(), ExpressionView::LocalVarLoad(slot));
    lemma_tidy_statement(next, pending, StatementView::LValueSet(target, value));
}

/// Storing a constant into a stack slot changes nothing about labels.
pub proof fn lemma_tidy_store_bool(s: BuilderState, pending: Set<nat>, slot: nat, b: bool)
    requires
        s.tidy(pending),
    ensures
        s.store_bool(slot, b).tidy(pending),
{
    let (next, constant) = s.assign(TypeView::Bool, ExpressionView::Literal(Literal::Bool(b)));
    lemma_tidy_assign(s, pending, TypeView::Bool, ExpressionView::Literal(Literal::Bool(b)));
    lemma_tidy_store_slot(next, pending, slot, constant);
}

/// Loading a stack slot changes nothing about labels.
pub proof fn lemma_tidy_load_slot(s: BuilderState, pending: Set<nat>, slot: nat)
    requires
        s.tidy(pending),
    ensures
        s.load_slot(slot).0.tidy(pending),
{
    let (next, source) = s.assign(TypeView::Bool.stored(), ExpressionView::LocalVarLoad(slot));
    lemma_tidy_assign(s, pending, TypeView::Bool.stored(), ExpressionView::LocalVarLoad(slot));
    lemma_tidy_assign(next, pending, TypeView::Bool, ExpressionView::LValueLoad(source));
}

/// A jump to a block that is opened or pending opens a pending block.
pub proof fn lemma_tidy_jump(s: BuilderState, pending: Set<nat>, target: nat, next: nat)
    requires
        s.tidy(pending),
        pending.contains(next),
        target == next || is_known(s.items, pending, target),
    ensures
        s.jump(target, next).tidy(pending.remove(next)),
{
    lemma_tidy_open(s, pending, Some(TerminatorView::Br(target)), next);
}

/// The branch of a short-circuit operator opens the block of the true case
/// and leaves the two other labels pending.
pub proof fn lemma_tidy_branch_on(s: BuilderState, pending: Set<nat>, cond: ValueView)
    requires
        s.tidy(pending),
    ensures
        s.branch_on(cond).0.tidy(
            pending.insert(s.label_counter + 1).insert(s.label_counter + 2),
        ),
        s.branch_on(cond).1 == (s.label_counter, s.label_counter + 1, s.label_counter + 2),
{
    let (s1, true_label) = s.new_label();
    let (s2, false_label) = s1.new_label();
    let (s3, final_label) = s2.new_label();
    lemma_tidy_label(s, pending);
    lemma_tidy_label(s1, pending.insert(true_label));
    lemma_tidy_label(s2, pending.insert(true_label).insert(false_label));
    let all = pending.insert(true_label).insert(false_label).insert(final_label);
    lemma_tidy_open(
        s3,
        all,
        Some(TerminatorView::BrCond(cond, true_label, false_label)),
        true_label,
    );
    assert(all.remove(true_label) =~= pending.insert(false_label).insert(final_label));
}

/// The branch on a condition opens the block of the true case and leaves
/// the label of the false case pending.
pub proof fn lemma_tidy_branch_into(s: BuilderState, pending: Set<nat>, cond: ValueView)
    requires
        s.tidy(pending),
    ensures
        s.branch_into(cond).0.tidy(pending.insert(s.label_counter + 1)),
        s.branch_into(cond).1 == (s.label_counter, s.label_counter + 1),
{
    let (s1, true_label) = s.new_label();
    let (s2, false_label) = s1.new_label();
    lemma_tidy_label(s, pending);
    lemma_tidy_label(s1, pending.insert(true_label));
    let all = pending.insert(true_label).insert(false_label);
    lemma_tidy_open(
        s2,
        all,
        Some(TerminatorView::BrCond(cond, true_label, false_label)),
        true_label,
    );
    assert(all.remove(true_label) =~= pending.insert(false_label));
}

/// A block opened under a fresh label leaves nothing pending.
pub proof fn lemma_tidy_open_block(s: BuilderState, pending: Set<nat>)
    requires
        s.tidy(pending),
    ensures
        s.open_block().0.tidy(pending),
        s.open_block().1 == s.label_counter,
        is_opened(s.open_block().0.items, s.label_counter),
{
    let (s1, label) = s.new_label();
    lemma_tidy_label(s, pending);
    lemma_tidy_open(s1, pending.insert(label), None, label);
    assert(pending.insert(label).remove(label) =~= pending);
    let end = s.open_block().0;
    assert(end.items[s.items.len() as int].opens(label));
}

/// A terminator that passes control to blocks that are opened or pending,
/// followed by a block under a fresh label, leaves nothing pending.
pub proof fn lemma_tidy_terminator(s: BuilderState, pending: Set<nat>, terminator: Option<TerminatorView>)
    requires
        s.tidy(pending),
        terminator matches Some(t) ==> forall|target: nat| #[trigger]
            t.targets(target) ==> is_known(s.items, pending, target),
    ensures
        s.push_terminator(terminator).tidy(pending),
{
    let (s1, label) = s.new_label();
    lemma_tidy_label(s, pending);
    lemma_tidy_open(s1, pending.insert(label), terminator, label);
    assert(pending.insert(label).remove(label) =~= pending);
}

/// Lowering an expression leaves the labels in order, with the same labels
/// pending: what it hands out, it opens.
pub proof fn lemma_expression_tidy(s: BuilderState, pending: Set<nat>, expr: Spanned<ast::Expression>)
    requires
        s.tidy(pending),
        lower_expression(s, expr) is Ok,
    ensures
        lower_expression(s, expr)->Ok_0.0.tidy(pending),
    decreases expr, 1nat,
{
    match expr.inner {
        ast::Expression::Assign(lhs, rhs) => {
            lemma_expression_tidy(s, pending, *lhs);
            let (s1, lhs_value) = lower_expression(s, *lhs)->Ok_0;
            lemma_operand_tidy(s1, pending, *rhs);
            let (s2, rhs_value) = lower_operand(s1, *rhs)->Ok_0;
            lemma_tidy_statement(s2, pending, StatementView::LValueSet(lhs_value, rhs_value));
        },
        ast::Expression::Subscript(array, index) => {
            lemma_operand_tidy(s, pending, *array);
            let (s1, array_value) = lower_operand(s, *array)->Ok_0;
            lemma_operand_tidy(s1, pending, *index);
            let (s2, index_value) = lower_operand(s1, *index)->Ok_0;
            lemma_tidy_assign(
                s2,
                pending,
                array_value.ty->Array_0.stored(),
                ExpressionView::ReadArray(array_value, index_value),
            );
        },
        ast::Expression::BinOp(code, lhs, rhs) => {
            if code == ast::BinOpCode::LogicalAnd || code == ast::BinOpCode::LogicalOr {
                lemma_logical_tidy(s, pending, expr);
            } else {
                lemma_operand_tidy(s, pending, *lhs);
                let (s1, lhs_value) = lower_operand(s, *lhs)->Ok_0;
                lemma_operand_tidy(s1, pending, *rhs);
                let (s2, rhs_value) = lower_operand(s1, *rhs)->Ok_0;
                let (op, ty) = binop_rule(code, lhs_value.ty, rhs_value.ty)->Some_0;
                lemma_tidy_assign(s2, pending, ty, ExpressionView::BinOp(op, lhs_value, rhs_value));
            }
        },
        ast::Expression::UnOp(code, sub) => {
            if code == ast::UnOpCode::AddressOf {
                lemma_expression_tidy(s, pending, *sub);
                let (s1, sub_value) = lower_expression(s, *sub)->Ok_0;
                let (op, ty) = unop_rule(code, sub_value.ty)->Some_0;
                lemma_tidy_assign(s1, pending, ty, ExpressionView::UnOp(op, sub_value));
            } else {
                lemma_operand_tidy(s, pending, *sub);
                let (s1, sub_value) = lower_operand(s, *sub)->Ok_0;
                let (op, ty) = unop_rule(code, sub_value.ty)->Some_0;
                lemma_tidy_assign(s1, pending, ty, ExpressionView::UnOp(op, sub_value));
            }
        },
        ast::Expression::FuncCall(func, params) => {
            lemma_operand_tidy(s, pending, *func);
            let (s1, func_value) = lower_operand(s, *func)->Ok_0;
            lemma_arguments_tidy(s1, pending, params@, 0, Seq::empty());
            let (s2, args) = lower_arguments(s1, params@, 0, Seq::empty())->Ok_0;
            lemma_tidy_assign(
                s2,
                pending,
                *func_value.ty->Function_0.return_ty,
                ExpressionView::FuncCall(func_value, args),
            );
        },
        ast::Expression::Cast(sub, target) => {
            lemma_operand_tidy(s, pending, *sub);
            let (s1, sub_value) = lower_operand(s, *sub)->Ok_0;
            let target_ty = resolve_type(target)->Ok_0;
            let code = cast_rule(sub_value.ty, target_ty)->Some_0;
            lemma_tidy_assign(s1, pending, target_ty, ExpressionView::CastOp(code, sub_value));
        },
        ast::Expression::Paren(sub) => {
            lemma_expression_tidy(s, pending, *sub);
        },
        ast::Expression::Identifier(name) => {
            let (ty, load) = s.symbols.get_var(name@)->Some_0;
            lemma_tidy_assign(s, pending, ty, load);
        },
        ast::Expression::Literal(lit) => {
            let lit = resolve_literal(lit, expr.span)->Ok_0;
            lemma_tidy_assign(s, pending, lit.ty(), ExpressionView::Literal(lit));
        },
        ast::Expression::ArrayFullLiteral(_) => {},
        ast::Expression::ArrayDefaultLiteral(_, _) => {},
    }
}

/// Lowering a short-circuit operator leaves the labels in order: each of
/// its three labels opens one block.
pub proof fn lemma_logical_tidy(s: BuilderState, pending: Set<nat>, expr: Spanned<ast::Expression>)
    requires
        s.tidy(pending),
        lower_expression(s, expr) is Ok,
        expr.inner matches ast::Expression::BinOp(code, _, _) && (code
            == ast::BinOpCode::LogicalAnd || code == ast::BinOpCode::LogicalOr),
    ensures
        lower_expression(s, expr)->Ok_0.0.tidy(pending),
    decreases expr, 0nat,
{
    let code = expr.inner->BinOp_0;
    let lhs = *expr.inner->BinOp_1;
    let rhs = *expr.inner->BinOp_2;
    let (s0, slot) = s.register_local_logical();
    lemma_tidy_same(s, s0, pending);
    lemma_operand_tidy(s0, pending, lhs);
    let (s1, lhs_value) = lower_operand(s0, lhs)->Ok_0;
    let (s2, (_, false_label, final_label)) = s1.branch_on(lhs_value);
    lemma_tidy_branch_on(s1, pending, lhs_value);
    let both = pending.insert(false_label).insert(final_label);
    let last = pending.insert(final_label);
    assert(both.remove(false_label) =~= last);
    assert(last.remove(final_label) =~= pending);
    if code == ast::BinOpCode::LogicalAnd {
        lemma_operand_tidy(s2, both, rhs);
        let (s3, rhs_value) = lower_operand(s2, rhs)->Ok_0;
        let s4 = s3.store_slot(slot, rhs_value);
        lemma_tidy_store_slot(s3, both, slot, rhs_value);
        let s5 = s4.jump(final_label, false_label);
        lemma_tidy_jump(s4, both, final_label, false_label);
        let s6 = s5.store_bool(slot, false);
        lemma_tidy_store_bool(s5, last, slot, false);
        let s7 = s6.jump(final_label, final_label);
        lemma_tidy_jump(s6, last, final_label, final_label);
        lemma_tidy_load_slot(s7, pending, slot);
    } else {
        let s3 = s2.store_bool(slot, true);
        lemma_tidy_store_bool(s2, both, slot, true);
        let s4 = s3.jump(final_label, false_label);
        lemma_tidy_jump(s3, both, final_label, false_label);
        lemma_operand_tidy(s4, last, rhs);
        let (s5, rhs_value) = lower_operand(s4, rhs)->Ok_0;
        let s6 = s5.store_slot(slot, rhs_value);
        lemma_tidy_store_slot(s5, last, slot, rhs_value);
        let s7 = s6.jump(final_label, final_label);
        lemma_tidy_jump(s6, last, final_label, final_label);
        lemma_tidy_load_slot(s7, pending, slot);
    }
}

/// Lowering an operand leaves the labels in order.
pub proof fn lemma_operand_tidy(s: BuilderState, pending: Set<nat>, expr: Spanned<ast::Expression>)
    requires
        s.tidy(pending),
        lower_operand(s, expr) is Ok,
    ensures
        lower_operand(s, expr)->Ok_0.0.tidy(pending),
    decreases expr, 2nat,
{
    lemma_expression_tidy(s, pending, expr);
    let (s1, value) = lower_expression(s, expr)->Ok_0;
    lemma_tidy_load(s1, pending, value);
}

/// Lowering the arguments of a call leaves the labels in order.
pub proof fn lemma_arguments_tidy(
    s: BuilderState,
    pending: Set<nat>,
    params: Seq<Spanned<ast::Expression>>,
    from: int,
    done: Seq<ValueView>,
)
    requires
        s.tidy(pending),
        lower_arguments(s, params, from, done) is Ok,
    ensures
        lower_arguments(s, params, from, done)->Ok_0.0.tidy(pending),
    decreases params, params.len() - from,
{
    if 0 <= from < params.len() {
        lemma_operand_tidy(s, pending, params[from]);
        let (s1, value) = lower_operand(s, params[from])->Ok_0;
        lemma_arguments_tidy(s1, pending, params, from + 1, done.push(value));
    }
}

/// Replacing the loop context by labels that are opened or pending leaves
/// the labels in order.
pub proof fn lemma_tidy_loop_info(s: BuilderState, pending: Set<nat>, info: Option<(nat, nat)>)
    requires
        s.tidy(pending),
        info matches Some((continue_label, break_label)) ==> is_known(
            s.items,
            pending,
            continue_label,
        ) && is_known(s.items, pending, break_label),
    ensures
        s.with_loop_info(info).tidy(pending),
{
    match info {
        Some((continue_label, break_label)) => {
            lemma_known_handed_out(s, pending, continue_label);
            lemma_known_handed_out(s, pending, break_label);
        },
        None => {},
    }
}

/// A label that is opened or pending was handed out.
proof fn lemma_known_handed_out(s: BuilderState, pending: Set<nat>, label: nat)
    requires
        s.tidy(pending),
        is_known(s.items, pending, label),
    ensures
        label < s.label_counter,
{
    if is_opened(s.items, label) {
        let i = choose|i: int| 0 <= i < s.items.len() && (#[trigger] s.items[i]).opens(label);
        assert(s.items[i].labels_below(s.label_counter));
    }
}

/// What is opened or pending stays so where lowering continues with the
/// same labels pending.
proof fn lemma_known_kept(s: BuilderState, end: BuilderState, pending: Set<nat>, label: nat)
    requires
        is_known(s.items, pending, label),
        end.follows(s),
    ensures
        is_known(end.items, pending, label),
{
    if is_opened(s.items, label) {
        let i = choose|i: int| 0 <= i < s.items.len() && (#[trigger] s.items[i]).opens(label);
        assert(end.items[i] == s.items[i]);
    }
}

/// Lowering a statement leaves the labels in order, with the same labels
/// pending: what it hands out, it opens.
pub proof fn lemma_statement_tidy(s: BuilderState, pending: Set<nat>, stmt: Spanned<ast::Statement>)
    requires
        s.tidy(pending),
        stmt.inner is Let ==> s.symbols.locals.len() > 0,
        lower_statement(s, stmt) is Ok,
    ensures
        lower_statement(s, stmt)->Ok_0.tidy(pending),
    decreases stmt, 0nat,
{
    match stmt.inner {
        ast::Statement::Compound(body) => {
            lemma_compound_tidy(s, pending, body);
        },
        ast::Statement::Let { name, ty, expr } => {
            lemma_operand_tidy(s, pending, expr);
            let (s1, value) = lower_operand(s, expr)->Ok_0;
            let declared = match ty {
                Some(written) => resolve_type(written)->Ok_0,
                None => value.ty,
            };
            let (s2, fresh) = s1.register_local_variable(name@, declared);
            lemma_tidy_same(s1, s2, pending);
            let (s3, lvalue) = s2.assign(
                declared.stored(),
                ExpressionView::LocalVarLoad(s1.local_counter),
            );
            lemma_tidy_assign(
                s2,
                pending,
                declared.stored(),
                ExpressionView::LocalVarLoad(s1.local_counter),
            );
            lemma_tidy_statement(s3, pending, StatementView::LValueSet(lvalue, value));
        },
        ast::Statement::Loop { stmt: body } => {
            lemma_tidy_open_block(s, pending);
            let (s1, continue_label) = s.open_block();
            lemma_tidy_label(s1, pending);
            let (s2, break_label) = s1.new_label();
            lemma_loop_body_tidy(s2, pending, body, continue_label, break_label, s.current_loop_info);
        },
        ast::Statement::While { cond, stmt: body } => {
            lemma_tidy_open_block(s, pending);
            let (s1, continue_label) = s.open_block();
            let inner = s1.start_local_scope();
            lemma_tidy_same(s1, inner, pending);
            lemma_operand_tidy(inner, pending, cond);
            lemma_operand_grows(inner, cond);
            let (s2, cond_value) = lower_operand(inner, cond)->Ok_0;
            lemma_tidy_branch_into(s2, pending, cond_value);
            let (s3, (_, break_label)) = s2.branch_into(cond_value);
            assert(is_opened(s3.items, continue_label)) by {
                let i = choose|i: int|
                    0 <= i < s1.items.len() && (#[trigger] s1.items[i]).opens(continue_label);
                assert(s2.items[i] == inner.items[i]);
                assert(s3.items[i] == s2.items[i]);
            }
            lemma_loop_body_tidy(s3, pending, body, continue_label, break_label, s.current_loop_info);
            let s4 = lower_loop_body(s3, body, continue_label, break_label)->Ok_0;
            lemma_tidy_same(s4, s4.end_local_scope(), pending);
        },
        ast::Statement::If { if_branch, elseif_branches, else_branch } => {
            lemma_tidy_label(s, pending);
            let (s1, end_label) = s.new_label();
            let waiting = pending.insert(end_label);
            let inner = s1.start_local_scope();
            lemma_tidy_same(s1, inner, waiting);
            lemma_branch_tidy(inner, waiting, if_branch, end_label);
            let s2 = lower_branch(inner, if_branch, end_label)->Ok_0;
            lemma_branches_tidy(s2, waiting, elseif_branches@, 0, end_label);
            let s3 = lower_branches(s2, elseif_branches@, 0, end_label)->Ok_0;
            let s4 = match else_branch {
                Some(body) => lower_compound(s3, body)->Ok_0,
                None => s3,
            };
            match else_branch {
                Some(body) => {
                    lemma_compound_tidy(s3, waiting, body);
                },
                None => {},
            }
            lemma_tidy_open(s4, waiting, None, end_label);
            assert(waiting.remove(end_label) =~= pending);
            let s5 = s4.push_terminator_label(None, end_label);
            lemma_tidy_same(s5, s5.end_local_scope(), pending);
        },
        ast::Statement::Break => {
            let target = s.current_loop_info->Some_0.1;
            let terminator = TerminatorView::Br(target);
            assert forall|label: nat| #[trigger] terminator.targets(label) implies is_known(
                s.items,
                pending,
                label,
            ) by {}
            lemma_tidy_terminator(s, pending, Some(terminator));
        },
        ast::Statement::Continue => {
            let target = s.current_loop_info->Some_0.0;
            let terminator = TerminatorView::Br(target);
            assert forall|label: nat| #[trigger] terminator.targets(label) implies is_known(
                s.items,
                pending,
                label,
            ) by {}
            lemma_tidy_terminator(s, pending, Some(terminator));
        },
        ast::Statement::Return { expr } => {
            match expr {
                Some(e) => {
                    lemma_operand_tidy(s, pending, e);
                    let (s1, value) = lower_operand(s, e)->Ok_0;
                    lemma_tidy_terminator(s1, pending, Some(TerminatorView::Ret(value)));
                },
                None => {
                    let (s1, value) = s.assign(
                        TypeView::Unit,
                        ExpressionView::Literal(Literal::Unit),
                    );
                    lemma_tidy_assign(
                        s,
                        pending,
                        TypeView::Unit,
                        ExpressionView::Literal(Literal::Unit),
                    );
                    lemma_tidy_terminator(s1, pending, Some(TerminatorView::Ret(value)));
                },
            }
        },
        ast::Statement::Expression { expr } => {
            lemma_expression_tidy(s, pending, expr);
        },
    }
}

/// Lowering the body of a loop opens the block behind the loop, whose
/// label was pending, and leaves the labels in order.
pub proof fn lemma_loop_body_tidy(
    s: BuilderState,
    pending: Set<nat>,
    body: Spanned<ast::CompoundStatement>,
    continue_label: nat,
    break_label: nat,
    outer: Option<(nat, nat)>,
)
    requires
        s.tidy(pending.insert(break_label)),
        !pending.contains(break_label),
        is_opened(s.items, continue_label),
        s.current_loop_info == outer,
        outer matches Some((c, b)) ==> is_known(s.items, pending, c) && is_known(
            s.items,
            pending,
            b,
        ),
        lower_loop_body(s, body, continue_label, break_label) is Ok,
    ensures
        lower_loop_body(s, body, continue_label, break_label)->Ok_0.tidy(pending),
    decreases body, 1nat,
{
    let waiting = pending.insert(break_label);
    let inside = s.with_loop_info(Some((continue_label, break_label)));
    lemma_tidy_loop_info(s, waiting, Some((continue_label, break_label)));
    lemma_compound_tidy(inside, waiting, body);
    lemma_compound_follows(inside, body);
    let s1 = lower_compound(inside, body)->Ok_0;
    let s2 = s1.with_loop_info(outer);
    match outer {
        Some((c, b)) => {
            lemma_known_kept(inside, s1, pending, c);
            lemma_known_kept(inside, s1, pending, b);
        },
        None => {},
    }
    lemma_tidy_loop_info(s1, waiting, outer);
    lemma_known_kept(inside, s1, waiting, continue_label);
    lemma_tidy_jump(s2, waiting, continue_label, break_label);
    assert(waiting.remove(break_label) =~= pending);
}

/// Lowering a block leaves the labels in order.
pub proof fn lemma_compound_tidy(s: BuilderState, pending: Set<nat>, body: Spanned<ast::CompoundStatement>)
    requires
        s.tidy(pending),
        lower_compound(s, body) is Ok,
    ensures
        lower_compound(s, body)->Ok_0.tidy(pending),
    decreases body, 0nat,
{
    let inner = s.start_local_scope();
    lemma_tidy_same(s, inner, pending);
    lemma_statements_tidy(inner, pending, body.inner.0@, 0);
    let s1 = lower_statements(inner, body.inner.0@, 0)->Ok_0;
    lemma_tidy_same(s1, s1.end_local_scope(), pending);
}

/// Lowering statements in order leaves the labels in order.
pub proof fn lemma_statements_tidy(
    s: BuilderState,
    pending: Set<nat>,
    stmts: Seq<Spanned<ast::Statement>>,
    from: int,
)
    requires
        s.tidy(pending),
        s.symbols.locals.len() > 0,
        lower_statements(s, stmts, from) is Ok,
    ensures
        lower_statements(s, stmts, from)->Ok_0.tidy(pending),
    decreases stmts, stmts.len() - from,
{
    if 0 <= from < stmts.len() {
        lemma_statement_tidy(s, pending, stmts[from]);
        lemma_statement_follows(s, stmts[from]);
        let s1 = lower_statement(s, stmts[from])->Ok_0;
        lemma_statements_tidy(s1, pending, stmts, from + 1);
    }
}

/// Lowering one arm of an `if` leaves the labels in order, with the label
/// where the arms meet still pending.
pub proof fn lemma_branch_tidy(s: BuilderState, pending: Set<nat>, branch: ast::Branch, end_label: nat)
    requires
        s.tidy(pending),
        pending.contains(end_label),
        lower_branch(s, branch, end_label) is Ok,
    ensures
        lower_branch(s, branch, end_label)->Ok_0.tidy(pending),
    decreases branch, 0nat,
{
    lemma_operand_tidy(s, pending, branch.cond);
    let (s1, cond_value) = lower_operand(s, branch.cond)->Ok_0;
    lemma_tidy_branch_into(s1, pending, cond_value);
    let (s2, (_, else_label)) = s1.branch_into(cond_value);
    let waiting = pending.insert(else_label);
    lemma_compound_tidy(s2, waiting, branch.body);
    let s3 = lower_compound(s2, branch.body)->Ok_0;
    lemma_tidy_jump(s3, waiting, end_label, else_label);
    assert(waiting.remove(else_label) =~= pending);
}

/// Lowering the arms of an `if` in order leaves the labels in order.
pub proof fn lemma_branches_tidy(
    s: BuilderState,
    pending: Set<nat>,
    branches: Seq<ast::Branch>,
    from: int,
    end_label: nat,
)
    requires
        s.tidy(pending),
        pending.contains(end_label),
        lower_branches(s, branches, from, end_label) is Ok,
    ensures
        lower_branches(s, branches, from, end_label)->Ok_0.tidy(pending),
    decreases branches, branches.len() - from,
{
    if 0 <= from < branches.len() {
        lemma_branch_tidy(s, pending, branches[from], end_label);
        let s1 = lower_branch(s, branches[from], end_label)->Ok_0;
        lemma_branches_tidy(s1, pending, branches, from + 1, end_label);
    }
}

/// The blocks of a buffer start with the block that is open.
pub proof fn lemma_split_head(items: Seq<ItemView>, from: int, id: nat, stmts: Seq<StatementView>)
    requires
        0 <= from <= items.len(),
    ensures
        split_from(items, from, id, stmts).len() >= 1,
        split_from(items, from, id, stmts)[0].id == id,
    decreases items.len() - from,
{
    if from < items.len() {
        match items[from] {
            ItemView::Statement(stmt) => {
                lemma_split_head(items, from + 1, id, stmts.push(stmt));
            },
            ItemView::TerminatorAndLabel(_, label) => {},
        }
    }
}

/// Every block of a buffer but the first is opened by a boundary.
pub proof fn lemma_split_ids(items: Seq<ItemView>, from: int, id: nat, stmts: Seq<StatementView>, k: int)
    requires
        0 <= from <= items.len(),
        1 <= k < split_from(items, from, id, stmts).len(),
    ensures
        exists|i: int|
            from <= i < items.len() && (#[trigger] items[i]).opens(
                split_from(items, from, id, stmts)[k].id,
            ),
    decreases items.len() - from,
{
    match items[from] {
        ItemView::Statement(stmt) => {
            lemma_split_ids(items, from + 1, id, stmts.push(stmt), k);
        },
        ItemView::TerminatorAndLabel(_, label) => {
            let rest = split_from(items, from + 1, label, Seq::empty());
            lemma_split_head(items, from + 1, label, Seq::empty());
            if k == 1 {
                assert(items[from].opens(rest[0].id));
            } else {
                lemma_split_ids(items, from + 1, label, Seq::empty(), k - 1);
            }
        },
    }
}

/// Every block that a boundary opens is a block of the buffer.
pub proof fn lemma_split_opened(
    items: Seq<ItemView>,
    from: int,
    id: nat,
    stmts: Seq<StatementView>,
    i: int,
    label: nat,
)
    requires
        0 <= from <= i < items.len(),
        items[i].opens(label),
    ensures
        exists|k: int|
            1 <= k < split_from(items, from, id, stmts).len() && (#[trigger] split_from(
                items,
                from,
                id,
                stmts,
            )[k]).id == label,
    decreases items.len() - from,
{
    let blocks = split_from(items, from, id, stmts);
    match items[from] {
        ItemView::Statement(stmt) => {
            lemma_split_opened(items, from + 1, id, stmts.push(stmt), i, label);
        },
        ItemView::TerminatorAndLabel(_, next) => {
            let rest = split_from(items, from + 1, next, Seq::empty());
            lemma_split_head(items, from + 1, next, Seq::empty());
            if i == from {
                assert(blocks[1] == rest[0]);
            } else {
                lemma_split_opened(items, from + 1, next, Seq::empty(), i, label);
                let k = choose|k: int| 1 <= k < rest.len() && (#[trigger] rest[k]).id == label;
                assert(blocks[k + 1] == rest[k]);
            }
        },
    }
}

/// Where a block of a buffer passes control to, a boundary of the buffer
/// passes control to.
pub proof fn lemma_split_passes(
    items: Seq<ItemView>,
    from: int,
    id: nat,
    stmts: Seq<StatementView>,
    k: int,
    target: nat,
)
    requires
        0 <= from <= items.len(),
        0 <= k < split_from(items, from, id, stmts).len(),
        split_from(items, from, id, stmts)[k].terminator matches Some(t) && t.targets(target),
    ensures
        exists|i: int| from <= i < items.len() && #[trigger] items[i].passes_to(target),
    decreases items.len() - from,
{
    match items[from] {
        ItemView::Statement(stmt) => {
            lemma_split_passes(items, from + 1, id, stmts.push(stmt), k, target);
        },
        ItemView::TerminatorAndLabel(_, label) => {
            if k == 0 {
                assert(items[from].passes_to(target));
            } else {
                lemma_split_passes(items, from + 1, label, Seq::empty(), k - 1, target);
            }
        },
    }
}

/// Whether no two blocks have the same label.
pub open spec fn distinct_labels(blocks: Seq<RawBlock>) -> bool {
    forall|k1: int, k2: int|
        0 <= k1 < k2 < blocks.len() ==> (#[trigger] blocks[k1]).id != (#[trigger] blocks[k2]).id
}

/// Whether no two boundaries of the buffer from position `from` on open the
/// same block, and none opens the block `id`.
pub open spec fn opens_once(items: Seq<ItemView>, from: int, id: nat) -> bool {
    &&& forall|i: int, j: int, label: nat|
        from <= i < j < items.len() && #[trigger] items[i].opens(label) ==> !#[trigger] items[j].opens(
            label,
        )
    &&& forall|i: int| from <= i < items.len() ==> !(#[trigger] items[i]).opens(id)
}

/// The blocks of a buffer have different labels where its boundaries open
/// different blocks, and none the block that is open.
pub proof fn lemma_split_distinct(items: Seq<ItemView>, from: int, id: nat, stmts: Seq<StatementView>)
    requires
        0 <= from <= items.len(),
        opens_once(items, from, id),
    ensures
        distinct_labels(split_from(items, from, id, stmts)),
    decreases items.len() - from,
{
    let blocks = split_from(items, from, id, stmts);
    if from < items.len() {
        match items[from] {
            ItemView::Statement(stmt) => {
                lemma_split_distinct(items, from + 1, id, stmts.push(stmt));
            },
            ItemView::TerminatorAndLabel(_, label) => {
                let rest = split_from(items, from + 1, label, Seq::empty());
                assert(opens_once(items, from + 1, label)) by {
                    assert(items[from].opens(label));
                }
                lemma_split_distinct(items, from + 1, label, Seq::empty());
                lemma_split_head(items, from + 1, label, Seq::empty());
                assert forall|k1: int, k2: int| 0 <= k1 < k2 < blocks.len() implies (
                #[trigger] blocks[k1]).id != (#[trigger] blocks[k2]).id by {
                    assert(blocks[k2] == rest[k2 - 1]);
                    if k1 == 0 {
                        if k2 == 1 {
                            assert(!items[from].opens(id));
                        } else {
                            lemma_split_ids(items, from + 1, label, Seq::empty(), k2 - 1);
                        }
                    } else {
                        assert(blocks[k1] == rest[k1 - 1]);
                    }
                }
            },
        }
    }
}

} // verus!
