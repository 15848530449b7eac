//! What holds of every function that the lowering pass produces.
//!
//! The contracts of the pass say what each piece of syntax lowers to. The
//! proof functions of this module say what follows for the result as a
//! whole:
//!
//! - the graph of a function: it starts with its entry, its blocks have
//!   different labels, every block that control can get to is kept, and
//!   control never gets to a label without a block;
//! - returns: a function is rejected exactly where control can fall off
//!   its end, and a function that returns `Unit` never is;
//! - short-circuit operators: only the branch on the left operand leads to
//!   what the right operand lowers to;
//! - literals: each lowers to a value of the type of its form;
//! - names: every function of a program is in sight of every body, and
//!   lowering a function leaves no name of it behind.

use crate::ast;
use crate::ast::{Span, Spanned};
use crate::ir::builder::cfg::{
    basic_blocks, edge, falls_off, finished, function_of, is_kept, is_path, kept_blocks,
    labels_below, lemma_split_below, reaches, sentinel, split, split_from, RawBlock,
};
use crate::ir::builder::error::{ErrorKind, SyntaxErrorView};
use crate::ir::builder::expression::{lower_expression, lower_literal, lower_operand};
use crate::ir::builder::function::{BuilderState, ItemView};
use crate::ir::builder::labels::{
    distinct_labels, is_known, lemma_compound_tidy, lemma_split_distinct,
    lemma_split_opened, lemma_split_passes, lemma_tidy_assign, lemma_tidy_same,
    lemma_tidy_terminator,
};
use crate::ir::builder::invariants::{
    lemma_compound_follows, lemma_follows_assign, lemma_follows_jump, lemma_follows_terminator,
    lemma_follows_trans, lemma_grows_branch_on, lemma_grows_refl, lemma_grows_store_bool,
    lemma_operand_grows, lemma_scope_closed,
};
use crate::ir::builder::literal::resolve_literal;
use crate::ir::builder::statement::lower_compound;
use crate::ir::builder::symbols::SymbolTableView;
use crate::ir::builder::{
    close_body, declare, declare_all, declared_name, declared_signature, lower_body,
    lower_declaration, lower_function, register_params,
};
use crate::ir::{
    BasicBlockView, DeclarationView, ExpressionView, FunctionTypeView, Literal, StatementView,
    TerminatorView, TypeView, ValueView,
};
use vstd::prelude::*;

verus! {

/// The kept blocks start with the first block, and no other block among them
/// has the label `0`, where only the first block of the buffer has it.
proof fn lemma_kept_entry(blocks: Seq<RawBlock>, upto: int)
    requires
        1 <= upto <= blocks.len(),
        blocks[0].id == 0,
        forall|k: int| 1 <= k < blocks.len() ==> (#[trigger] blocks[k]).id >= 1,
    ensures
        kept_blocks(blocks, upto).len() >= 1,
        kept_blocks(blocks, upto)[0] == finished(blocks[0]),
        forall|j: int|
            1 <= j < kept_blocks(blocks, upto).len() ==> (#[trigger] kept_blocks(blocks, upto)[j]).id
                >= 1,
    decreases upto,
{
    if upto > 1 {
        lemma_kept_entry(blocks, upto - 1);
        assert(blocks[upto - 1].id >= 1);
    } else {
        assert(kept_blocks(blocks, 0).len() == 0);
        assert(is_kept(blocks, blocks[0]));
    }
}

/// A kept block among the first `upto` is among the kept blocks.
proof fn lemma_kept_member(blocks: Seq<RawBlock>, upto: int, k: int)
    requires
        0 <= k < upto <= blocks.len(),
        is_kept(blocks, blocks[k]),
    ensures
        kept_blocks(blocks, upto).contains(finished(blocks[k])),
    decreases upto,
{
    if k == upto - 1 {
        let kept = kept_blocks(blocks, upto);
        assert(kept[kept.len() - 1] == finished(blocks[k]));
    } else {
        lemma_kept_member(blocks, upto - 1, k);
        let before = kept_blocks(blocks, upto - 1);
        let at = choose|at: int| 0 <= at < before.len() && before[at] == finished(blocks[k]);
        assert(kept_blocks(blocks, upto)[at] == finished(blocks[k]));
    }
}

/// Each of the kept blocks is one of the first `upto` blocks, and a kept one.
proof fn lemma_kept_origin(blocks: Seq<RawBlock>, upto: int, j: int)
    requires
        0 <= upto <= blocks.len(),
        0 <= j < kept_blocks(blocks, upto).len(),
    ensures
        exists|k: int|
            0 <= k < upto && is_kept(blocks, #[trigger] blocks[k]) && kept_blocks(blocks, upto)[j]
                == finished(blocks[k]),
    decreases upto,
{
    if is_kept(blocks, blocks[upto - 1]) && j == kept_blocks(blocks, upto).len() - 1 {
        assert(kept_blocks(blocks, upto)[j] == finished(blocks[upto - 1]));
    } else {
        lemma_kept_origin(blocks, upto - 1, j);
    }
}

/// A walk cut short is a walk.
proof fn lemma_path_prefix(blocks: Seq<RawBlock>, path: Seq<nat>, i: int)
    requires
        is_path(blocks, path),
        0 <= i < path.len(),
    ensures
        is_path(blocks, path.take(i + 1)),
        path.take(i + 1)[0] == path[0],
        path.take(i + 1).last() == path[i],
{
    let prefix = path.take(i + 1);
    assert forall|j: int| 0 <= j < prefix.len() - 1 implies edge(
        blocks,
        #[trigger] prefix[j],
        prefix[j + 1],
    ) by {
        assert(edge(blocks, path[j], path[j + 1]));
    }
}

/// A function is produced exactly where control that enters it cannot fall
/// off its end; where it can, the function is rejected at `span` for a
/// missing return.
pub proof fn law_rejected_iff_falls_off(s: BuilderState, span: Span)
    ensures
        function_of(s, span) is Err <==> reaches(split(s.items), 0, sentinel(split(s.items))),
        function_of(s, span) matches Err(e) ==> e.kind == ErrorKind::MissingReturn && e.span
            == span,
{
}

/// In a function that is produced, no walk from the entry comes to the open
/// end of the buffer: every label on it names a block that ends in a
/// terminator of its own.
pub proof fn law_no_walk_falls_off(s: BuilderState, span: Span, path: Seq<nat>, i: int)
    requires
        function_of(s, span) is Ok,
        is_path(split(s.items), path),
        path[0] == 0,
        0 <= i < path.len(),
    ensures
        path[i] != sentinel(split(s.items)),
{
    lemma_path_prefix(split(s.items), path, i);
}

/// The blocks of a function start with its entry, the block with the label
/// `0`, and no other block of it has that label.
pub proof fn law_one_entry(items: Seq<ItemView>, bound: nat)
    requires
        labels_below(items, bound),
        !falls_off(split(items)),
    ensures
        basic_blocks(items).len() >= 1,
        basic_blocks(items)[0].id == 0,
        forall|j: int| 1 <= j < basic_blocks(items).len() ==> (#[trigger] basic_blocks(items)[j]).id != 0,
{
    let blocks = split(items);
    lemma_split_below(items, 0, 0, Seq::empty(), bound);
    if blocks.len() == 1 {
        let path = seq![0nat];
        assert(is_path(blocks, path) && path[0] == 0 && path.last() == sentinel(blocks));
    }
    lemma_kept_entry(blocks, blocks.len() - 1);
}

/// Every block of a function is a block of the buffer with the terminator
/// that the buffer gave it: one of those that are closed, and kept because
/// it is the entry or because some terminator names it.
pub proof fn law_blocks_come_from_buffer(items: Seq<ItemView>, j: int)
    requires
        0 <= j < basic_blocks(items).len(),
    ensures
        exists|k: int|
            0 <= k < split(items).len() - 1 && is_kept(split(items), #[trigger] split(items)[k])
                && basic_blocks(items)[j] == finished(split(items)[k]),
{
    let blocks = split(items);
    if blocks.len() >= 1 {
        lemma_kept_origin(blocks, blocks.len() - 1, j);
    }
}

/// Every block that control can get to from the entry is in the function:
/// what is dropped cannot be reached. This holds where the function is
/// produced at all, that is, where control cannot fall off its end.
pub proof fn law_reachable_blocks_are_kept(items: Seq<ItemView>, k: int)
    requires
        !falls_off(split(items)),
        0 <= k < split(items).len(),
        reaches(split(items), 0, split(items)[k].id),
    ensures
        k < split(items).len() - 1,
        is_kept(split(items), split(items)[k]),
        basic_blocks(items).contains(finished(split(items)[k])),
{
    let blocks = split(items);
    let id = blocks[k].id;
    if id != 0 {
        let path = choose|path: Seq<nat>| is_path(blocks, path) && path[0] == 0 && path.last() == id;
        assert(edge(blocks, path[path.len() - 2], path[path.len() - 2 + 1]));
    }
    lemma_kept_member(blocks, blocks.len() - 1, k);
}

/// Whether the boundaries of the buffer from position `from` on name, as
/// places that control passes to, only labels below `bound`.
spec fn passes_below(items: Seq<ItemView>, from: int, bound: nat) -> bool {
    forall|i: int|
        from <= i < items.len() ==> match #[trigger] items[i] {
            ItemView::Statement(_) => true,
            ItemView::TerminatorAndLabel(Some(t), _) => t.targets_below(bound),
            ItemView::TerminatorAndLabel(None, label) => label < bound,
        }
}

/// The terminators of the blocks name only labels that the boundaries of the
/// buffer name as places that control passes to.
proof fn lemma_split_targets(items: Seq<ItemView>, from: int, id: nat, stmts: Seq<StatementView>, bound: nat)
    requires
        0 <= from <= items.len(),
        passes_below(items, from, bound),
    ensures
        forall|k: int|
            0 <= k < split_from(items, from, id, stmts).len() ==> ((#[trigger] split_from(
                items,
                from,
                id,
                stmts,
            )[k]).terminator matches Some(t) ==> t.targets_below(bound)),
    decreases items.len() - from,
{
    if from < items.len() {
        match items[from] {
            ItemView::Statement(stmt) => {
                lemma_split_targets(items, from + 1, id, stmts.push(stmt), bound);
            },
            ItemView::TerminatorAndLabel(terminator, label) => {
                lemma_split_targets(items, from + 1, label, Seq::empty(), bound);
            },
        }
    }
}

/// Where the buffer ends in a boundary, the block that this boundary closes
/// is the last but one and has its terminator, and the block left open has
/// its label.
proof fn lemma_split_end(
    items: Seq<ItemView>,
    from: int,
    id: nat,
    stmts: Seq<StatementView>,
    terminator: TerminatorView,
    label: nat,
)
    requires
        0 <= from < items.len(),
        items.last() == ItemView::TerminatorAndLabel(Some(terminator), label),
    ensures
        split_from(items, from, id, stmts).len() >= 2,
        split_from(items, from, id, stmts).last().id == label,
        split_from(items, from, id, stmts)[split_from(items, from, id, stmts).len() - 2].terminator
            == Some(terminator),
    decreases items.len() - from,
{
    match items[from] {
        ItemView::Statement(stmt) => {
            lemma_split_end(items, from + 1, id, stmts.push(stmt), terminator, label);
        },
        ItemView::TerminatorAndLabel(_, next) => {
            if from + 1 < items.len() {
                lemma_split_end(items, from + 1, next, Seq::empty(), terminator, label);
            } else {
                assert(split_from(items, from + 1, next, Seq::empty()).len() == 1);
            }
        },
    }
}

/// A function that returns `Unit` need not end in a `return`: with the
/// `return` of the unit value that is appended to its body, control cannot
/// fall off its end, so it is never rejected for a missing return; and the
/// last of its blocks that ends in a terminator ends in that `return`.
pub proof fn law_unit_function_returns(s: BuilderState, span: Span)
    requires
        s.wf(),
        *s.ty.return_ty == TypeView::Unit,
    ensures
        function_of(close_body(s), span) is Ok,
        function_of(close_body(s).end_local_scope(), span) is Ok,
        ({
            let blocks = split(close_body(s).items);
            &&& blocks.len() >= 2
            &&& blocks[blocks.len() - 2].terminator matches Some(TerminatorView::Ret(value))
                && value.ty == TypeView::Unit
        }),
{
    let items = close_body(s).items;
    let blocks = split(items);
    let label = s.label_counter;
    assert(passes_below(items, 0, label)) by {
        assert forall|i: int| 0 <= i < items.len() implies match #[trigger] items[i] {
            ItemView::Statement(_) => true,
            ItemView::TerminatorAndLabel(Some(t), _) => t.targets_below(label),
            ItemView::TerminatorAndLabel(None, next) => next < label,
        } by {
            if i < s.items.len() {
                assert(items[i] == s.items[i]);
                assert(s.items[i].labels_below(label));
            }
        }
    }
    lemma_split_targets(items, 0, 0, Seq::empty(), label);
    let value = s.new_temp_value(TypeView::Unit).1;
    lemma_split_end(items, 0, 0, Seq::empty(), TerminatorView::Ret(value), label);
    if falls_off(blocks) {
        let path = choose|path: Seq<nat>|
            is_path(blocks, path) && path[0] == 0 && path.last() == sentinel(blocks);
        assert(edge(blocks, path[path.len() - 2], path[path.len() - 2 + 1]));
        let k = choose|k: int|
            0 <= k < blocks.len() && (#[trigger] blocks[k]).leads(path[path.len() - 2], label);
        assert(blocks[k].terminator->Some_0.targets_below(label));
    }
}

/// Declaring parameters keeps what lowering a statement keeps.
proof fn lemma_params_follow(s: BuilderState, params: Seq<ast::Param>, from: int)
    requires
        s.wf(),
        s.symbols.locals.len() > 0,
        register_params(s, params, from) is Ok,
    ensures
        register_params(s, params, from)->Ok_0.follows(s),
    decreases params.len() - from,
{
    if 0 <= from < params.len() && from < s.ty.params_ty.len() {
        let (s1, fresh) = s.register_param(
            params[from].name.inner@,
            s.ty.params_ty[from],
            Some(from as nat),
        );
        assert(s1.follows(s));
        lemma_params_follow(s1, params, from + 1);
        lemma_follows_trans(s, s1, register_params(s1, params, from + 1)->Ok_0);
    } else {
        lemma_grows_refl(s);
    }
}

/// The state that lowering the parameters and the body of a function
/// leaves meets the invariant of the builder, belongs to the same function,
/// and has the names in sight that were in sight before: no name of the
/// function stays behind.
pub proof fn law_body_keeps_invariant(s: BuilderState, params: Seq<ast::Param>, body: Spanned<ast::CompoundStatement>)
    requires
        s.wf(),
        lower_body(s, params, body) is Ok,
    ensures
        lower_body(s, params, body)->Ok_0.wf(),
        lower_body(s, params, body)->Ok_0.name == s.name,
        lower_body(s, params, body)->Ok_0.ty == s.ty,
        lower_body(s, params, body)->Ok_0.symbols == s.symbols,
{
    let inner = s.start_local_scope();
    lemma_params_follow(inner, params, 0);
    let s1 = register_params(inner, params, 0)->Ok_0;
    lemma_compound_follows(s1, body);
    let s2 = lower_compound(s1, body)->Ok_0;
    lemma_follows_trans(inner, s1, s2);
    let s3 = close_body(s2);
    assert(s3.follows(inner)) by {
        if *s2.ty.return_ty == TypeView::Unit {
            let (t, value) = s2.assign(TypeView::Unit, ExpressionView::Literal(Literal::Unit));
            lemma_follows_assign(
                inner,
                s2,
                TypeView::Unit,
                ExpressionView::Literal(Literal::Unit),
            );
            lemma_follows_terminator(
                inner,
                t,
                Some(TerminatorView::Ret(value)),
            );
        }
    }
    lemma_scope_closed(s, s3);
}

/// Lowering a function leaves the symbol table as it found it, and the
/// function that it produces has the name and the type that were declared.
/// Its blocks start with its entry, the block with the label `0`, and no
/// other block of it has that label. Its stack slots are numbered by their
/// position.
pub proof fn law_lowered_function(
    symbols: SymbolTableView,
    name: Seq<char>,
    ty: FunctionTypeView,
    params: Seq<ast::Param>,
    body: Spanned<ast::CompoundStatement>,
    span: Span,
)
    requires
        lower_function(symbols, name, ty, params, body, span) is Ok,
    ensures
        ({
            let (after, function) = lower_function(symbols, name, ty, params, body, span)->Ok_0;
            &&& after == symbols
            &&& function matches DeclarationView::Function { name: n, ty: t, locals, bbs }
            &&& n == name && t == ty
            &&& bbs.len() >= 1
            &&& bbs[0].id == 0
            &&& forall|j: int| 1 <= j < bbs.len() ==> (#[trigger] bbs[j]).id != 0
            &&& forall|i: int| 0 <= i < locals.len() ==> (#[trigger] locals[i]).id == i
        }),
{
    let start = BuilderState::new(name, ty, symbols);
    law_body_keeps_invariant(start, params, body);
    let s = lower_body(start, params, body)->Ok_0;
    law_one_entry(s.items, s.label_counter);
}

/// Lowering a declaration leaves the symbol table as it found it: every
/// function of the program is in sight, before and behind, and no scope and
/// no variable stays behind. What it produces has the name that was
/// declared and the type that was registered.
pub proof fn law_lowered_declaration(
    symbols: SymbolTableView,
    decl: Spanned<ast::Declaration>,
    ty: FunctionTypeView,
)
    requires
        lower_declaration(symbols, decl, ty) is Ok,
    ensures
        ({
            let (after, lowered) = lower_declaration(symbols, decl, ty)->Ok_0;
            &&& after == symbols
            &&& match lowered {
                DeclarationView::ExternFunction { name: n, ty: t } => decl.inner is ExternFunction
                    && n == declared_name(decl) && t == ty,
                DeclarationView::Function { name: n, ty: t, locals, bbs } => decl.inner is Function
                    && n == declared_name(decl) && t == ty,
            }
        }),
{
    match decl.inner {
        ast::Declaration::ExternFunction { name, params, return_ty } => {},
        ast::Declaration::Function { name, params, return_ty, stmt } => {
            law_lowered_function(symbols, name@, ty, params@, stmt, decl.span);
        },
    }
}

/// Registering declarations adds functions to those in sight and changes
/// nothing else: the scopes stay, the functions that were in sight keep
/// their types, and one type is given for each declaration.
proof fn lemma_declare_all_keeps(
    symbols: SymbolTableView,
    decls: Seq<Spanned<ast::Declaration>>,
    from: int,
    done: Seq<FunctionTypeView>,
)
    requires
        0 <= from <= decls.len(),
        declare_all(symbols, decls, from, done) is Ok,
    ensures
        ({
            let (after, types) = declare_all(symbols, decls, from, done)->Ok_0;
            &&& after.locals == symbols.locals
            &&& types.len() == done.len() + decls.len() - from
            &&& forall|i: int| 0 <= i < done.len() ==> #[trigger] types[i] == done[i]
            &&& forall|name: Seq<char>| #[trigger]
                symbols.globals.contains_key(name) ==> after.globals.contains_key(name)
                    && after.globals[name] == symbols.globals[name]
        }),
    decreases decls.len() - from,
{
    if from < decls.len() {
        let (next, ty) = declare(symbols, decls[from])->Ok_0;
        let (after, types) = declare_all(symbols, decls, from, done)->Ok_0;
        lemma_declare_all_keeps(next, decls, from + 1, done.push(ty));
        assert forall|i: int| 0 <= i < done.len() implies #[trigger] types[i] == done[i] by {
            assert(done.push(ty)[i] == done[i]);
        }
        assert forall|name: Seq<char>| #[trigger]
            symbols.globals.contains_key(name) implies after.globals.contains_key(name)
            && after.globals[name] == symbols.globals[name] by {
            assert(next.globals.contains_key(name));
        }
    }
}

/// Once the declarations of a program are registered, every function of
/// the program is in sight with the type of its signature, whether it is
/// declared at the start or at the end: so the body of each function sees
/// the functions declared behind it as well as those before it, and itself.
pub proof fn law_every_function_in_sight(
    symbols: SymbolTableView,
    decls: Seq<Spanned<ast::Declaration>>,
    from: int,
    done: Seq<FunctionTypeView>,
    k: int,
)
    requires
        0 <= from <= k < decls.len(),
        declare_all(symbols, decls, from, done) is Ok,
    ensures
        ({
            let (after, types) = declare_all(symbols, decls, from, done)->Ok_0;
            &&& after.locals == symbols.locals
            &&& types.len() == done.len() + decls.len() - from
            &&& declared_signature(decls[k]) == Ok::<FunctionTypeView, SyntaxErrorView>(
                types[done.len() + k - from],
            )
            &&& after.globals.contains_key(declared_name(decls[k]))
            &&& after.globals[declared_name(decls[k])] == TypeView::Function(
                types[done.len() + k - from],
            )
        }),
    decreases decls.len() - from,
{
    let (next, ty) = declare(symbols, decls[from])->Ok_0;
    lemma_declare_all_keeps(symbols, decls, from, done);
    if k == from {
        lemma_declare_all_keeps(next, decls, from + 1, done.push(ty));
        assert(next.globals.contains_key(declared_name(decls[from])));
        assert(done.push(ty)[done.len() as int] == ty);
    } else {
        law_every_function_in_sight(next, decls, from + 1, done.push(ty), k);
    }
}

/// A function that returns `Unit` is never rejected for a missing return:
/// where its parameters and its body are lowered, the function is
/// produced.
pub proof fn law_unit_function_is_produced(
    symbols: SymbolTableView,
    name: Seq<char>,
    ty: FunctionTypeView,
    params: Seq<ast::Param>,
    body: Spanned<ast::CompoundStatement>,
    span: Span,
)
    requires
        *ty.return_ty == TypeView::Unit,
        lower_body(BuilderState::new(name, ty, symbols), params, body) is Ok,
    ensures
        lower_function(symbols, name, ty, params, body, span) is Ok,
{
    let start = BuilderState::new(name, ty, symbols);
    let inner = start.start_local_scope();
    lemma_params_follow(inner, params, 0);
    let s1 = register_params(inner, params, 0)->Ok_0;
    lemma_compound_follows(s1, body);
    let s2 = lower_compound(s1, body)->Ok_0;
    lemma_follows_trans(inner, s1, s2);
    law_unit_function_returns(s2, span);
}

/// A literal lowers to a value of the type of its form: an integer literal
/// to an `Int`, a floating-point literal to a `Double`, `true` and `false`
/// to a `Bool`, a character literal to a `Char`, the unit literal to
/// `Unit`.
pub proof fn law_literal_type(s: BuilderState, lit: ast::Literal, span: Span)
    requires
        lower_literal(s, lit, span) is Ok,
    ensures
        lower_literal(s, lit, span)->Ok_0.1.ty == match lit {
            ast::Literal::Unit => TypeView::Unit,
            ast::Literal::Int(_) => TypeView::Int,
            ast::Literal::Double(_) => TypeView::Double,
            ast::Literal::Bool(_) => TypeView::Bool,
            ast::Literal::Char(_) => TypeView::Char,
        },
        lower_literal(s, lit, span)->Ok_0.0.items == s.items.push(
            ItemView::Statement(
                StatementView::Assign(
                    lower_literal(s, lit, span)->Ok_0.1,
                    ExpressionView::Literal(
                        resolve_literal(lit, span)->Ok_0,
                    ),
                ),
            ),
        ),
{
}

/// The state in which a short-circuit operator branches on its left
/// operand, and the value of that operand.
pub open spec fn at_branch(s: BuilderState, lhs: Spanned<ast::Expression>) -> (BuilderState, ValueView) {
    lower_operand(s.register_local_logical().0, lhs)->Ok_0
}

/// The branch on the left operand of a short-circuit operator: the entry
/// of the buffer that ends the open block in it.
pub open spec fn branch_item(s: BuilderState, lhs: Spanned<ast::Expression>) -> ItemView {
    let (s1, lhs_value) = at_branch(s, lhs);
    ItemView::TerminatorAndLabel(
        Some(TerminatorView::BrCond(lhs_value, s1.label_counter, s1.label_counter + 1)),
        s1.label_counter,
    )
}

/// Whether the buffer of `end` is that of `base` with entries appended of
/// which none passes control to the block `label`.
spec fn appends_clear(base: BuilderState, end: BuilderState, label: nat) -> bool {
    &&& base.items.len() <= end.items.len()
    &&& forall|i: int| 0 <= i < base.items.len() ==> #[trigger] end.items[i] == base.items[i]
    &&& forall|i: int|
        base.items.len() <= i < end.items.len() ==> !(#[trigger] end.items[i]).passes_to(label)
}

/// Appending twice is appending.
proof fn lemma_clear_trans(base: BuilderState, mid: BuilderState, end: BuilderState, label: nat)
    requires
        appends_clear(base, mid, label),
        appends_clear(mid, end, label),
    ensures
        appends_clear(base, end, label),
{
    assert forall|i: int| 0 <= i < base.items.len() implies #[trigger] end.items[i] == base.items[i] by {
        assert(end.items[i] == mid.items[i]);
        assert(mid.items[i] == base.items[i]);
    }
    assert forall|i: int| base.items.len() <= i < end.items.len() implies !(#[trigger] end.items[i]).passes_to(
        label,
    ) by {
        if i < mid.items.len() {
            assert(end.items[i] == mid.items[i]);
        }
    }
}

/// One more entry that does not pass control to the label.
proof fn lemma_clear_push(base: BuilderState, mid: BuilderState, item: ItemView, label: nat)
    requires
        appends_clear(base, mid, label),
        !item.passes_to(label),
    ensures
        appends_clear(base, mid.push_item(item), label),
{
    let end = mid.push_item(item);
    assert forall|i: int| 0 <= i < base.items.len() implies #[trigger] end.items[i] == base.items[i] by {
        assert(end.items[i] == mid.items[i]);
    }
    assert forall|i: int| base.items.len() <= i < end.items.len() implies !(#[trigger] end.items[i]).passes_to(
        label,
    ) by {
        if i < mid.items.len() {
            assert(end.items[i] == mid.items[i]);
        }
    }
}

/// The store into a stack slot passes no control.
proof fn lemma_clear_store_slot(base: BuilderState, mid: BuilderState, slot: nat, value: ValueView, label: nat)
    requires
        appends_clear(base, mid, label),
    ensures
        appends_clear(base, mid.store_slot(slot, value), label),
{
    let (s1, target) = mid.new_temp_value(TypeView::Bool.stored());
    assert(appends_clear(base, s1, label));
    let item = ItemView::Statement(StatementView::Assign(target, ExpressionView::LocalVarLoad(slot)));
    lemma_clear_push(base, s1, item, label);
    lemma_clear_push(
        base,
        s1.push_item(item),
        ItemView::Statement(StatementView::LValueSet(target, value)),
        label,
    );
}

/// The store of a constant into a stack slot passes no control.
proof fn lemma_clear_store_bool(base: BuilderState, mid: BuilderState, slot: nat, b: bool, label: nat)
    requires
        appends_clear(base, mid, label),
    ensures
        appends_clear(base, mid.store_bool(slot, b), label),
{
    let (s1, constant) = mid.new_temp_value(TypeView::Bool);
    assert(appends_clear(base, s1, label));
    let item = ItemView::Statement(
        StatementView::Assign(constant, ExpressionView::Literal(Literal::Bool(b))),
    );
    lemma_clear_push(base, s1, item, label);
    lemma_clear_store_slot(base, s1.push_item(item), slot, constant, label);
}

/// The load of a stack slot passes no control.
proof fn lemma_clear_load_slot(base: BuilderState, mid: BuilderState, slot: nat, label: nat)
    requires
        appends_clear(base, mid, label),
    ensures
        appends_clear(base, mid.load_slot(slot).0, label),
{
    let (s1, source) = mid.new_temp_value(TypeView::Bool.stored());
    assert(appends_clear(base, s1, label));
    let item = ItemView::Statement(StatementView::Assign(source, ExpressionView::LocalVarLoad(slot)));
    lemma_clear_push(base, s1, item, label);
    let s2 = s1.push_item(item);
    let (s3, value) = s2.new_temp_value(TypeView::Bool);
    assert(appends_clear(base, s3, label));
    lemma_clear_push(
        base,
        s3,
        ItemView::Statement(StatementView::Assign(value, ExpressionView::LValueLoad(source))),
        label,
    );
}

/// A jump to another label passes no control to the label.
proof fn lemma_clear_jump(base: BuilderState, mid: BuilderState, target: nat, next: nat, label: nat)
    requires
        appends_clear(base, mid, label),
        target != label,
    ensures
        appends_clear(base, mid.jump(target, next), label),
{
    lemma_clear_push(
        base,
        mid,
        ItemView::TerminatorAndLabel(Some(TerminatorView::Br(target)), next),
        label,
    );
}

/// What grew from a state passes no control, in what it appended, to a
/// label that was handed out before.
proof fn lemma_grown_is_clear(s: BuilderState, end: BuilderState, label: nat)
    requires
        end.grows_from(s),
        label < s.label_counter,
    ensures
        appends_clear(s, end, label),
{
    assert forall|i: int| s.items.len() <= i < end.items.len() implies !(#[trigger] end.items[i]).passes_to(
        label,
    ) by {
        assert(end.items[i].labels_from(s.label_counter));
    }
}

/// The right operand of `lhs && rhs` is guarded by the left one. The
/// block that opens with what the right operand lowers to is the one that
/// the branch on the left operand enters where that operand is true, and
/// nothing else in the buffer passes control to it: not what was there
/// before, not the left operand, not the right operand itself and not what
/// joins the two cases.
pub proof fn law_and_guards_right_operand(s: BuilderState, expr: Spanned<ast::Expression>, i: int)
    requires
        s.wf(),
        expr.inner matches ast::Expression::BinOp(code, _, _) && code == ast::BinOpCode::LogicalAnd,
        lower_expression(s, expr) is Ok,
        0 <= i < lower_expression(s, expr)->Ok_0.0.items.len(),
        lower_expression(s, expr)->Ok_0.0.items[i].passes_to(
            at_branch(s, *expr.inner->BinOp_1).0.label_counter,
        ),
    ensures
        i == at_branch(s, *expr.inner->BinOp_1).0.items.len(),
        lower_expression(s, expr)->Ok_0.0.items[i] == branch_item(s, *expr.inner->BinOp_1),
        ({
            let (s1, lhs_value) = at_branch(s, *expr.inner->BinOp_1);
            let rhs = lower_operand(s1.branch_on(lhs_value).0, *expr.inner->BinOp_2)->Ok_0.0;
            &&& rhs.items.len() <= lower_expression(s, expr)->Ok_0.0.items.len()
            &&& forall|j: int|
                i < j < rhs.items.len() ==> #[trigger] lower_expression(s, expr)->Ok_0.0.items[j]
                    == rhs.items[j]
        }),
{
    let lhs = *expr.inner->BinOp_1;
    let rhs = *expr.inner->BinOp_2;
    let end = lower_expression(s, expr)->Ok_0.0;
    let (s0, slot) = s.register_local_logical();
    lemma_operand_grows(s0, lhs);
    let (s1, lhs_value) = lower_operand(s0, lhs)->Ok_0;
    let label = s1.label_counter;
    let (s2, (_, false_label, final_label)) = s1.branch_on(lhs_value);
    lemma_grows_branch_on(s1, s1, lhs_value);
    lemma_operand_grows(s2, rhs);
    let (s3, rhs_value) = lower_operand(s2, rhs)->Ok_0;
    lemma_grown_is_clear(s2, s3, label);
    assert(appends_clear(s3, s3, label));
    let s4 = s3.store_slot(slot, rhs_value);
    lemma_clear_store_slot(s3, s3, slot, rhs_value, label);
    let s5 = s4.jump(final_label, false_label);
    lemma_clear_jump(s3, s4, final_label, false_label, label);
    let s6 = s5.store_bool(slot, false);
    lemma_clear_store_bool(s3, s5, slot, false, label);
    let s7 = s6.jump(final_label, final_label);
    lemma_clear_jump(s3, s6, final_label, final_label, label);
    lemma_clear_load_slot(s3, s7, slot, label);
    assert(appends_clear(s3, end, label));
    lemma_clear_trans(s2, s3, end, label);
    assert(end.items[i] == s2.items[i]);
    if i < s1.items.len() {
        assert(s2.items[i] == s1.items[i]);
        assert(s1.items[i].labels_below(label));
    }
}

/// The store of `value` into the stack slot `slot`, by way of the fresh
/// value `id`: the two entries of the buffer.
pub open spec fn slot_store(id: nat, slot: nat, value: ValueView) -> Seq<ItemView> {
    let target = ValueView { id, ty: TypeView::Bool.stored() };
    seq![
        ItemView::Statement(StatementView::Assign(target, ExpressionView::LocalVarLoad(slot))),
        ItemView::Statement(StatementView::LValueSet(target, value)),
    ]
}

/// The fresh value `id` bound to the constant `b`: the entry of the buffer.
pub open spec fn constant_item(id: nat, b: bool) -> Seq<ItemView> {
    seq![
        ItemView::Statement(
            StatementView::Assign(
                ValueView { id, ty: TypeView::Bool },
                ExpressionView::Literal(Literal::Bool(b)),
            ),
        ),
    ]
}

/// The jump to `target` that closes the open block and opens the block
/// `next`: the entry of the buffer.
pub open spec fn jump_item(target: nat, next: nat) -> Seq<ItemView> {
    seq![ItemView::TerminatorAndLabel(Some(TerminatorView::Br(target)), next)]
}

/// The stack slot `slot` read back by way of the fresh values `id` and
/// `id + 1`: the two entries of the buffer.
pub open spec fn slot_load(id: nat, slot: nat) -> Seq<ItemView> {
    let source = ValueView { id, ty: TypeView::Bool.stored() };
    seq![
        ItemView::Statement(StatementView::Assign(source, ExpressionView::LocalVarLoad(slot))),
        ItemView::Statement(
            StatementView::Assign(
                ValueView { id: id + 1, ty: TypeView::Bool },
                ExpressionView::LValueLoad(source),
            ),
        ),
    ]
}

/// The shape of what `lhs && rhs` lowers to. The left operand is lowered,
/// then the branch on it; what the right operand lowers to follows at once,
/// in the block of the true case, and is stored into the slot of the
/// operator; the block of the false case holds nothing but the store of
/// `false` into that slot; both jump to the block where they meet, which
/// reads the slot back. The value read back is the result.
pub proof fn law_and_shape(s: BuilderState, expr: Spanned<ast::Expression>)
    requires
        expr.inner matches ast::Expression::BinOp(code, _, _) && code == ast::BinOpCode::LogicalAnd,
        lower_expression(s, expr) is Ok,
    ensures
        ({
            let (s1, lhs_value) = at_branch(s, *expr.inner->BinOp_1);
            let (s2, (_, false_label, final_label)) = s1.branch_on(lhs_value);
            let (s3, rhs_value) = lower_operand(s2, *expr.inner->BinOp_2)->Ok_0;
            let (end, result) = lower_expression(s, expr)->Ok_0;
            let slot = s.local_counter;
            let id = s3.current_temp_id;
            &&& s2.items == s1.items.push(branch_item(s, *expr.inner->BinOp_1))
            &&& end.items == s3.items + slot_store(id, slot, rhs_value) + jump_item(
                final_label,
                false_label,
            ) + constant_item(id + 1, false) + slot_store(
                id + 2,
                slot,
                ValueView { id: id + 1, ty: TypeView::Bool },
            ) + jump_item(final_label, final_label) + slot_load(id + 3, slot)
            &&& result == ValueView { id: id + 4, ty: TypeView::Bool }
        }),
{
    let (s1, lhs_value) = at_branch(s, *expr.inner->BinOp_1);
    let (s2, (_, false_label, final_label)) = s1.branch_on(lhs_value);
    let (s3, rhs_value) = lower_operand(s2, *expr.inner->BinOp_2)->Ok_0;
    let (end, result) = lower_expression(s, expr)->Ok_0;
    let slot = s.local_counter;
    let id = s3.current_temp_id;
    assert(end.items =~= s3.items + slot_store(id, slot, rhs_value) + jump_item(
        final_label,
        false_label,
    ) + constant_item(id + 1, false) + slot_store(
        id + 2,
        slot,
        ValueView { id: id + 1, ty: TypeView::Bool },
    ) + jump_item(final_label, final_label) + slot_load(id + 3, slot));
}

/// The shape of what `lhs || rhs` lowers to. The left operand is lowered,
/// then the branch on it; the block of the true case holds nothing but the
/// store of `true` into the slot of the operator; what the right operand
/// lowers to stands in the block of the false case and is stored into that
/// slot; both jump to the block where they meet, which reads the slot back.
/// The value read back is the result.
pub proof fn law_or_shape(s: BuilderState, expr: Spanned<ast::Expression>)
    requires
        expr.inner matches ast::Expression::BinOp(code, _, _) && code == ast::BinOpCode::LogicalOr,
        lower_expression(s, expr) is Ok,
    ensures
        ({
            let (s1, lhs_value) = at_branch(s, *expr.inner->BinOp_1);
            let (s2, (_, false_label, final_label)) = s1.branch_on(lhs_value);
            let slot = s.local_counter;
            let first = s2.current_temp_id;
            let s4 = s2.store_bool(slot, true).jump(final_label, false_label);
            let (s5, rhs_value) = lower_operand(s4, *expr.inner->BinOp_2)->Ok_0;
            let (end, result) = lower_expression(s, expr)->Ok_0;
            let id = s5.current_temp_id;
            &&& s2.items == s1.items.push(branch_item(s, *expr.inner->BinOp_1))
            &&& s4.items == s2.items + constant_item(first, true) + slot_store(
                first + 1,
                slot,
                ValueView { id: first, ty: TypeView::Bool },
            ) + jump_item(final_label, false_label)
            &&& end.items == s5.items + slot_store(id, slot, rhs_value) + jump_item(
                final_label,
                final_label,
            ) + slot_load(id + 1, slot)
            &&& result == ValueView { id: id + 2, ty: TypeView::Bool }
        }),
{
    let (s1, lhs_value) = at_branch(s, *expr.inner->BinOp_1);
    let (s2, (_, false_label, final_label)) = s1.branch_on(lhs_value);
    let slot = s.local_counter;
    let first = s2.current_temp_id;
    let s4 = s2.store_bool(slot, true).jump(final_label, false_label);
    let (s5, rhs_value) = lower_operand(s4, *expr.inner->BinOp_2)->Ok_0;
    let (end, result) = lower_expression(s, expr)->Ok_0;
    let id = s5.current_temp_id;
    assert(s4.items =~= s2.items + constant_item(first, true) + slot_store(
        first + 1,
        slot,
        ValueView { id: first, ty: TypeView::Bool },
    ) + jump_item(final_label, false_label));
    assert(end.items =~= s5.items + slot_store(id, slot, rhs_value) + jump_item(
        final_label,
        final_label,
    ) + slot_load(id + 1, slot));
}

/// The right operand of `lhs || rhs` is guarded by the left one. The
/// block that opens with what the right operand lowers to is the one that
/// the branch on the left operand enters where that operand is false, and
/// nothing else in the buffer passes control to it.
pub proof fn law_or_guards_right_operand(s: BuilderState, expr: Spanned<ast::Expression>, i: int)
    requires
        s.wf(),
        expr.inner matches ast::Expression::BinOp(code, _, _) && code == ast::BinOpCode::LogicalOr,
        lower_expression(s, expr) is Ok,
        0 <= i < lower_expression(s, expr)->Ok_0.0.items.len(),
        lower_expression(s, expr)->Ok_0.0.items[i].passes_to(
            at_branch(s, *expr.inner->BinOp_1).0.label_counter + 1,
        ),
    ensures
        i == at_branch(s, *expr.inner->BinOp_1).0.items.len(),
        lower_expression(s, expr)->Ok_0.0.items[i] == branch_item(s, *expr.inner->BinOp_1),
{
    let lhs = *expr.inner->BinOp_1;
    let rhs = *expr.inner->BinOp_2;
    let end = lower_expression(s, expr)->Ok_0.0;
    let (s0, slot) = s.register_local_logical();
    lemma_operand_grows(s0, lhs);
    let (s1, lhs_value) = lower_operand(s0, lhs)->Ok_0;
    let label = s1.label_counter + 1;
    let (s2, (_, false_label, final_label)) = s1.branch_on(lhs_value);
    lemma_grows_branch_on(s1, s1, lhs_value);
    assert(appends_clear(s2, s2, label));
    let s3 = s2.store_bool(slot, true);
    lemma_clear_store_bool(s2, s2, slot, true, label);
    let s4 = s3.jump(final_label, false_label);
    lemma_clear_jump(s2, s3, final_label, false_label, label);
    assert(s4.wf()) by {
        lemma_store_bool_wf(s2, slot, true);
        lemma_follows_jump(s3, s3, final_label, false_label);
    }
    lemma_operand_grows(s4, rhs);
    let (s5, rhs_value) = lower_operand(s4, rhs)->Ok_0;
    lemma_grown_is_clear(s4, s5, label);
    lemma_clear_trans(s2, s4, s5, label);
    let s6 = s5.store_slot(slot, rhs_value);
    lemma_clear_store_slot(s2, s5, slot, rhs_value, label);
    let s7 = s6.jump(final_label, final_label);
    lemma_clear_jump(s2, s6, final_label, final_label, label);
    lemma_clear_load_slot(s2, s7, slot, label);
    assert(appends_clear(s2, end, label));
    assert(end.items[i] == s2.items[i]);
    if i < s1.items.len() {
        assert(s2.items[i] == s1.items[i]);
        assert(s1.items[i].labels_below(s1.label_counter));
    }
}

/// Storing a constant into a stack slot keeps the invariant of the builder.
proof fn lemma_store_bool_wf(s: BuilderState, slot: nat, b: bool)
    requires
        s.wf(),
    ensures
        s.store_bool(slot, b).wf(),
        s.store_bool(slot, b).label_counter == s.label_counter,
{
    lemma_grows_refl(s);
    lemma_grows_store_bool(s, s, slot, b);
}

/// Declaring parameters leaves the labels in order.
proof fn lemma_params_tidy(s: BuilderState, params: Seq<ast::Param>, from: int)
    requires
        s.tidy(Set::empty()),
        s.symbols.locals.len() > 0,
        register_params(s, params, from) is Ok,
    ensures
        register_params(s, params, from)->Ok_0.tidy(Set::empty()),
    decreases params.len() - from,
{
    if 0 <= from < params.len() && from < s.ty.params_ty.len() {
        let (s1, fresh) = s.register_param(
            params[from].name.inner@,
            s.ty.params_ty[from],
            Some(from as nat),
        );
        lemma_tidy_same(s, s1, Set::empty());
        lemma_params_tidy(s1, params, from + 1);
    }
}

/// Once the parameters and the body of a function are lowered, every label
/// that was handed out opens exactly one block, and control is passed only
/// to blocks that are opened.
pub proof fn law_body_uses_every_label(s: BuilderState, params: Seq<ast::Param>, body: Spanned<ast::CompoundStatement>)
    requires
        s.tidy(Set::empty()),
        lower_body(s, params, body) is Ok,
    ensures
        lower_body(s, params, body)->Ok_0.tidy(Set::empty()),
{
    let none = Set::<nat>::empty();
    let inner = s.start_local_scope();
    lemma_tidy_same(s, inner, none);
    lemma_params_tidy(inner, params, 0);
    let s1 = register_params(inner, params, 0)->Ok_0;
    lemma_compound_tidy(s1, none, body);
    let s2 = lower_compound(s1, body)->Ok_0;
    let s3 = close_body(s2);
    if *s2.ty.return_ty == TypeView::Unit {
        let (t, value) = s2.assign(TypeView::Unit, ExpressionView::Literal(Literal::Unit));
        lemma_tidy_assign(s2, none, TypeView::Unit, ExpressionView::Literal(Literal::Unit));
        lemma_tidy_terminator(t, none, Some(TerminatorView::Ret(value)));
    }
    lemma_tidy_same(s3, s3.end_local_scope(), none);
}

/// Whether some block labelled `from` ends in a terminator that names
/// `to`.
pub open spec fn leads_on(bbs: Seq<BasicBlockView>, from: nat, to: nat) -> bool {
    exists|j: int| 0 <= j < bbs.len() && (#[trigger] bbs[j]).id == from && bbs[j].terminator.targets(to)
}

/// Whether some block has the label `label`.
pub open spec fn has_block(bbs: Seq<BasicBlockView>, label: nat) -> bool {
    exists|j: int| 0 <= j < bbs.len() && (#[trigger] bbs[j]).id == label
}

/// Whether `path` follows the terminators of the blocks from the entry.
pub open spec fn is_walk(bbs: Seq<BasicBlockView>, path: Seq<nat>) -> bool {
    &&& path.len() > 0
    &&& path[0] == 0
    &&& forall|i: int| 0 <= i < path.len() - 1 ==> leads_on(bbs, #[trigger] path[i], path[i + 1])
}

/// A step behind a walk gives a walk.
proof fn lemma_reaches_on(blocks: Seq<RawBlock>, from: nat, via: nat, to: nat)
    requires
        reaches(blocks, from, via),
        edge(blocks, via, to),
    ensures
        reaches(blocks, from, to),
{
    let path = choose|path: Seq<nat>| is_path(blocks, path) && path[0] == from && path.last() == via;
    let longer = path.push(to);
    assert forall|i: int| 0 <= i < longer.len() - 1 implies edge(
        blocks,
        #[trigger] longer[i],
        longer[i + 1],
    ) by {
        if i < path.len() - 1 {
            assert(edge(blocks, path[i], path[i + 1]));
        }
    }
    assert(is_path(blocks, longer) && longer[0] == from && longer.last() == to);
}

/// The kept blocks have different labels where the blocks have.
proof fn lemma_kept_distinct(blocks: Seq<RawBlock>, upto: int)
    requires
        0 <= upto <= blocks.len(),
        distinct_labels(blocks),
    ensures
        forall|j1: int, j2: int|
            0 <= j1 < j2 < kept_blocks(blocks, upto).len() ==> (#[trigger] kept_blocks(
                blocks,
                upto,
            )[j1]).id != (#[trigger] kept_blocks(blocks, upto)[j2]).id,
    decreases upto,
{
    if upto > 0 {
        lemma_kept_distinct(blocks, upto - 1);
        let kept = kept_blocks(blocks, upto);
        let before = kept_blocks(blocks, upto - 1);
        if is_kept(blocks, blocks[upto - 1]) {
            assert forall|j1: int, j2: int| 0 <= j1 < j2 < kept.len() implies (#[trigger] kept[j1]).id
                != (#[trigger] kept[j2]).id by {
                if j2 == kept.len() - 1 {
                    lemma_kept_origin(blocks, upto - 1, j1);
                    let k = choose|k: int|
                        0 <= k < upto - 1 && is_kept(blocks, #[trigger] blocks[k]) && before[j1]
                            == finished(blocks[k]);
                    assert(blocks[k].id != blocks[upto - 1].id);
                } else {
                    assert(kept[j1] == before[j1]);
                    assert(kept[j2] == before[j2]);
                }
            }
        }
    }
}

/// Where control gets to in a function that is produced, there is a block:
/// every label on a walk from the entry along the terminators of the
/// function's blocks is the label of one of them. This holds of what is
/// lowered from a state whose labels are in order and all opened.
pub proof fn law_walks_stay_in_function(s: BuilderState, span: Span, path: Seq<nat>, i: int)
    requires
        s.tidy(Set::empty()),
        function_of(s, span) is Ok,
        is_walk(basic_blocks(s.items), path),
        0 <= i < path.len(),
    ensures
        has_block(basic_blocks(s.items), path[i]),
        reaches(split(s.items), 0, path[i]),
    decreases i,
{
    let blocks = split(s.items);
    let bbs = basic_blocks(s.items);
    law_one_entry(s.items, s.label_counter);
    if i == 0 {
        let start = seq![0nat];
        assert(is_path(blocks, start) && start[0] == 0 && start.last() == 0);
        assert(bbs[0].id == 0);
    } else {
        law_walks_stay_in_function(s, span, path, i - 1);
        let from = path[i - 1];
        let to = path[i - 1 + 1];
        assert(leads_on(bbs, from, to));
        let j = choose|j: int|
            0 <= j < bbs.len() && (#[trigger] bbs[j]).id == from && bbs[j].terminator.targets(to);
        law_blocks_come_from_buffer(s.items, j);
        let k = choose|k: int|
            0 <= k < blocks.len() - 1 && is_kept(blocks, #[trigger] blocks[k]) && bbs[j]
                == finished(blocks[k]);
        lemma_split_below(s.items, 0, 0, Seq::empty(), s.label_counter);
        assert(blocks[k].terminator is Some);
        assert(blocks[k].leads(from, to));
        lemma_reaches_on(blocks, 0, from, to);
        lemma_split_passes(s.items, 0, 0, Seq::empty(), k, to);
        let at = choose|at: int| 0 <= at < s.items.len() && #[trigger] s.items[at].passes_to(to);
        assert(is_known(s.items, Set::empty(), to));
        let opener = choose|opener: int|
            0 <= opener < s.items.len() && (#[trigger] s.items[opener]).opens(to);
        lemma_split_opened(s.items, 0, 0, Seq::empty(), opener, to);
        let target = choose|target: int|
            1 <= target < blocks.len() && (#[trigger] blocks[target]).id == to;
        law_reachable_blocks_are_kept(s.items, target);
        let found = choose|found: int|
            0 <= found < bbs.len() && bbs[found] == finished(blocks[target]);
        assert(bbs[found].id == to);
    }
}

/// No two blocks of a function that is produced have the same label. This
/// holds of what is lowered from a state whose labels are in order.
pub proof fn law_block_labels_differ(s: BuilderState, span: Span, j1: int, j2: int)
    requires
        s.tidy(Set::empty()),
        0 <= j1 < j2 < basic_blocks(s.items).len(),
    ensures
        basic_blocks(s.items)[j1].id != basic_blocks(s.items)[j2].id,
{
    let blocks = split(s.items);
    assert forall|i: int| 0 <= i < s.items.len() implies !(#[trigger] s.items[i]).opens(0) by {
        assert(s.items[i].labels_below(s.label_counter));
    }
    lemma_split_distinct(s.items, 0, 0, Seq::empty());
    lemma_split_below(s.items, 0, 0, Seq::empty(), s.label_counter);
    lemma_kept_distinct(blocks, blocks.len() - 1);
}

/// The graph of a lowered function is whole. Its blocks have different
/// labels; and wherever a walk from the entry along the terminators of its
/// blocks gets to, there is a block of the function.
pub proof fn law_lowered_function_graph(
    symbols: SymbolTableView,
    name: Seq<char>,
    ty: FunctionTypeView,
    params: Seq<ast::Param>,
    body: Spanned<ast::CompoundStatement>,
    span: Span,
)
    requires
        lower_function(symbols, name, ty, params, body, span) is Ok,
    ensures
        ({
            let bbs = lower_function(symbols, name, ty, params, body, span)->Ok_0.1->bbs;
            &&& forall|j1: int, j2: int|
                0 <= j1 < j2 < bbs.len() ==> (#[trigger] bbs[j1]).id != (#[trigger] bbs[j2]).id
            &&& forall|path: Seq<nat>, i: int|
                #![trigger is_walk(bbs, path), path[i]]
                is_walk(bbs, path) && 0 <= i < path.len() ==> has_block(bbs, path[i])
        }),
{
    let start = BuilderState::new(name, ty, symbols);
    law_body_uses_every_label(start, params, body);
    let s = lower_body(start, params, body)->Ok_0;
    let bbs = basic_blocks(s.items);
    assert forall|j1: int, j2: int| 0 <= j1 < j2 < bbs.len() implies (#[trigger] bbs[j1]).id != (
    #[trigger] bbs[j2]).id by {
        law_block_labels_differ(s, span, j1, j2);
    }
    assert forall|path: Seq<nat>, i: int|
        #![trigger is_walk(bbs, path), path[i]]
        is_walk(bbs, path) && 0 <= i < path.len() implies has_block(bbs, path[i]) by {
        law_walks_stay_in_function(s, span, path, i);
    }
}

} // verus!
