//! The state of the lowering of one function: fresh identifiers, the stack
//! slots declared so far and the linear buffer of what was emitted.

use crate::ir::builder::symbols::{SymbolTable, SymbolTableView};
use crate::ir::{
    models, BasicBlockId, Expression, ExpressionView, FunctionType, FunctionTypeView, LocalVar,
    LocalVarId, LocalVarView, Statement, StatementView, Terminator, TerminatorView, Type,
    TypeView, Value, ValueView,
};
use vstd::prelude::*;

verus! {

/// One entry of the buffer that a function is lowered into.
#[derive(Debug, PartialEq, Eq)]
pub enum Item {
    /// A statement of the block that is open.
    Statement(Statement),
    /// The end of the open block and the label of the block that follows.
    /// Without a terminator the open block falls through into the next.
    TerminatorAndLabel(Option<Terminator>, BasicBlockId),
}

/// Model of an [`Item`].
pub enum ItemView {
    Statement(StatementView),
    TerminatorAndLabel(Option<TerminatorView>, nat),
}

impl View for Item {
    type V = ItemView;

    open spec fn view(&self) -> ItemView {
        match self {
            Item::Statement(stmt) => ItemView::Statement(stmt@),
            Item::TerminatorAndLabel(terminator, label) => ItemView::TerminatorAndLabel(
                match terminator {
                    Some(t) => Some(t@),
                    None => None,
                },
                label@,
            ),
        }
    }
}

impl TerminatorView {
    /// Whether every label that the terminator names is below `bound`.
    pub open spec fn targets_below(self, bound: nat) -> bool {
        match self {
            TerminatorView::Br(target) => target < bound,
            TerminatorView::BrCond(_, on_true, on_false) => on_true < bound && on_false < bound,
            TerminatorView::Ret(_) => true,
        }
    }
}

impl ItemView {
    /// Whether the item names only labels that were handed out when the next
    /// fresh label is `bound`, and opens no block under the label `0`.
    pub open spec fn labels_below(self, bound: nat) -> bool {
        match self {
            ItemView::Statement(_) => true,
            ItemView::TerminatorAndLabel(terminator, label) => {
                &&& 1 <= label < bound
                &&& terminator matches Some(t) ==> t.targets_below(bound)
            },
        }
    }
}

/// The lowering of one function in progress.
pub struct FunctionBuilder {
    pub name: String,
    pub ty: FunctionType,
    /// The names in sight. The builder holds the table of the program
    /// while it lowers one function.
    pub symbol_table: SymbolTable,
    /// The stack slots declared so far; the slot at position `i` has the
    /// identifier `i`.
    pub locals: Vec<LocalVar>,
    pub items: Vec<Item>,
    pub local_counter: usize,
    pub label_counter: usize,
    pub current_temp_id: usize,
    /// The labels that `continue` and `break` jump to, in that order, inside
    /// a loop.
    pub current_loop_info: Option<(BasicBlockId, BasicBlockId)>,
}

/// Model of a [`FunctionBuilder`].
pub struct BuilderState {
    pub name: Seq<char>,
    pub ty: FunctionTypeView,
    pub symbols: SymbolTableView,
    pub locals: Seq<LocalVarView>,
    pub items: Seq<ItemView>,
    pub local_counter: nat,
    pub label_counter: nat,
    pub current_temp_id: nat,
    pub current_loop_info: Option<(nat, nat)>,
}

impl BuilderState {
    /// The state in which the lowering of a function starts: nothing
    /// emitted, no stack slot, and `1` as the first fresh label, since `0`
    /// names the entry block.
    pub open spec fn new(name: Seq<char>, ty: FunctionTypeView, symbols: SymbolTableView) -> BuilderState {
        BuilderState {
            name,
            ty,
            symbols,
            locals: Seq::empty(),
            items: Seq::empty(),
            local_counter: 0,
            label_counter: 1,
            current_temp_id: 0,
            current_loop_info: None,
        }
    }

    /// What holds of every state that the lowering pass reaches: stack slots
    /// are numbered by their position, and every label in the buffer or in
    /// the loop context was handed out by this builder.
    pub open spec fn wf(self) -> bool {
        &&& self.local_counter == self.locals.len()
        &&& forall|i: int| 0 <= i < self.locals.len() ==> (#[trigger] self.locals[i]).id == i
        &&& self.label_counter >= 1
        &&& forall|i: int|
            0 <= i < self.items.len() ==> (#[trigger] self.items[i]).labels_below(
                self.label_counter,
            )
        &&& self.current_loop_info matches Some((continue_label, break_label))
            ==> continue_label < self.label_counter && break_label < self.label_counter
    }

    /// Whether `n` more values and `n` more labels can be numbered by a
    /// machine word.
    pub open spec fn has_room(self, n: nat) -> bool {
        &&& self.current_temp_id + n <= usize::MAX
        &&& self.label_counter + n <= usize::MAX
    }

    /// Whether `self` was reached from `before` with at most `n` fresh values
    /// and at most `n` fresh labels.
    pub open spec fn within(self, before: BuilderState, n: nat) -> bool {
        &&& before.current_temp_id <= self.current_temp_id <= before.current_temp_id + n
        &&& before.label_counter <= self.label_counter <= before.label_counter + n
    }

    /// A fresh value of type `ty`.
    pub open spec fn new_temp_value(self, ty: TypeView) -> (BuilderState, ValueView) {
        (
            BuilderState { current_temp_id: self.current_temp_id + 1, ..self },
            ValueView { id: self.current_temp_id, ty },
        )
    }

    /// A fresh label.
    pub open spec fn new_label(self) -> (BuilderState, nat) {
        (BuilderState { label_counter: self.label_counter + 1, ..self }, self.label_counter)
    }

    /// The buffer with one more entry.
    pub open spec fn push_item(self, item: ItemView) -> BuilderState {
        BuilderState { items: self.items.push(item), ..self }
    }

    /// The open block with one more statement.
    pub open spec fn push_statement(self, stmt: StatementView) -> BuilderState {
        self.push_item(ItemView::Statement(stmt))
    }

    /// The open block closed, and the block `label` opened.
    pub open spec fn push_terminator_label(self, terminator: Option<TerminatorView>, label: nat) -> BuilderState {
        self.push_item(ItemView::TerminatorAndLabel(terminator, label))
    }

    /// The open block closed, and a block with a fresh label opened.
    pub open spec fn push_terminator(self, terminator: Option<TerminatorView>) -> BuilderState {
        let (next, label) = self.new_label();
        next.push_terminator_label(terminator, label)
    }

    /// A fresh value of type `ty`, bound to `expr` by a statement at the end
    /// of the open block.
    pub open spec fn assign(self, ty: TypeView, expr: ExpressionView) -> (BuilderState, ValueView) {
        let (next, value) = self.new_temp_value(ty);
        (next.push_statement(StatementView::Assign(value, expr)), value)
    }

    /// The value itself where it is plain; where it is a storage location, a
    /// fresh value that a statement at the end of the open block loads from
    /// it.
    pub open spec fn load(self, value: ValueView) -> (BuilderState, ValueView) {
        match value.ty {
            TypeView::LValue(sub) => self.assign(*sub, ExpressionView::LValueLoad(value)),
            _ => (self, value),
        }
    }

    /// The symbol table with a new innermost scope.
    pub open spec fn start_local_scope(self) -> BuilderState {
        BuilderState { symbols: self.symbols.start_local_scope(), ..self }
    }

    /// The symbol table without its innermost scope.
    pub open spec fn end_local_scope(self) -> BuilderState {
        BuilderState { symbols: self.symbols.end_local_scope(), ..self }
    }

    /// The loop context replaced.
    pub open spec fn with_loop_info(self, info: Option<(nat, nat)>) -> BuilderState {
        BuilderState { current_loop_info: info, ..self }
    }

    /// A new stack slot of type `ty`, bound to `name` in the innermost
    /// scope, and whether that scope had no such name before. The slot is
    /// declared either way.
    pub open spec fn register_param(self, name: Seq<char>, ty: TypeView, param_index: Option<nat>) -> (
        BuilderState,
        bool,
    ) {
        (
            BuilderState {
                symbols: self.symbols.register_local(name, ty, self.local_counter),
                locals: self.locals.push(LocalVarView { id: self.local_counter, ty, param_index }),
                local_counter: self.local_counter + 1,
                ..self
            },
            !self.symbols.in_scope(name),
        )
    }

    /// A new stack slot for a variable that is no parameter.
    pub open spec fn register_local_variable(self, name: Seq<char>, ty: TypeView) -> (BuilderState, bool) {
        self.register_param(name, ty, None)
    }

    /// A new stack slot of type `Bool` without a name, and its identifier.
    pub open spec fn register_local_logical(self) -> (BuilderState, nat) {
        (
            BuilderState {
                locals: self.locals.push(
                    LocalVarView { id: self.local_counter, ty: TypeView::Bool, param_index: None },
                ),
                local_counter: self.local_counter + 1,
                ..self
            },
            self.local_counter,
        )
    }
}

impl View for FunctionBuilder {
    type V = BuilderState;

    open spec fn view(&self) -> BuilderState {
        BuilderState {
            name: self.name@,
            ty: self.ty@,
            symbols: self.symbol_table@,
            locals: models(self.locals@),
            items: models(self.items@),
            local_counter: self.local_counter as nat,
            label_counter: self.label_counter as nat,
            current_temp_id: self.current_temp_id as nat,
            current_loop_info: match self.current_loop_info {
                Some((continue_label, break_label)) => Some((continue_label@, break_label@)),
                None => None,
            },
        }
    }
}

/// The model of an optional terminator.
pub open spec fn terminator_model(terminator: Option<Terminator>) -> Option<TerminatorView> {
    match terminator {
        Some(t) => Some(t@),
        None => None,
    }
}

impl FunctionBuilder {
    /// A builder for the function `name` of type `ty` that resolves names in
    /// `st`.
    pub fn new(name: String, ty: FunctionType, st: SymbolTable) -> (fb: FunctionBuilder)
        ensures
            fb@ == BuilderState::new(name@, ty@, st@),
            fb@.wf(),
    {
        let fb = FunctionBuilder {
            name: name,
            ty: ty,
            symbol_table: st,
            locals: Vec::new(),
            items: Vec::new(),
            local_counter: 0,
            label_counter: 1,
            current_temp_id: 0,
            current_loop_info: None,
        };
        assert(fb@.locals =~= Seq::empty());
        assert(fb@.items =~= Seq::empty());
        fb
    }

    /// Hands out a fresh value of type `ty`.
    pub fn new_temp_value(&mut self, ty: Type) -> (value: Value)
        requires
            old(self).current_temp_id < usize::MAX,
        ensures
            (final(self)@, value@) == old(self)@.new_temp_value(ty@),
    {
        let id = self.current_temp_id;
        self.current_temp_id += 1;
        Value { id: id, ty: ty }
    }

    /// Hands out a fresh label.
    pub fn new_label(&mut self) -> (label: BasicBlockId)
        requires
            old(self).label_counter < usize::MAX,
        ensures
            (final(self)@, label@) == old(self)@.new_label(),
            old(self)@.wf() ==> final(self)@.wf(),
    {
        let id = BasicBlockId(self.label_counter);
        self.label_counter += 1;
        id
    }

    /// Closes the open block with `terminator`, or lets it fall through, and
    /// opens the block `id`.
    pub fn push_terminator_label(&mut self, terminator: Option<Terminator>, id: BasicBlockId)
        ensures
            final(self)@ == old(self)@.push_terminator_label(terminator_model(terminator), id@),
            old(self)@.wf() && ItemView::TerminatorAndLabel(terminator_model(terminator), id@).labels_below(
                old(self)@.label_counter,
            ) ==> final(self)@.wf(),
    {
        self.items.push(Item::TerminatorAndLabel(terminator, id));
        assert(final(self)@.items =~= old(self)@.items.push(
            ItemView::TerminatorAndLabel(terminator_model(terminator), id@),
        ));
    }

    /// Closes the open block with `terminator`, or lets it fall through, and
    /// opens a block with a fresh label.
    pub fn push_terminator(&mut self, terminator: Option<Terminator>)
        requires
            old(self).label_counter < usize::MAX,
        ensures
            final(self)@ == old(self)@.push_terminator(terminator_model(terminator)),
            old(self)@.wf() && (terminator_model(terminator) matches Some(t) ==> t.targets_below(
                old(self)@.label_counter,
            )) ==> final(self)@.wf(),
    {
        let label = self.new_label();
        self.push_terminator_label(terminator, label);
    }

    /// Appends a statement to the open block.
    pub fn push_statement(&mut self, stmt: Statement)
        ensures
            final(self)@ == old(self)@.push_statement(stmt@),
            old(self)@.wf() ==> final(self)@.wf(),
    {
        self.items.push(Item::Statement(stmt));
        assert(final(self)@.items =~= old(self)@.items.push(ItemView::Statement(stmt@)));
    }

    /// Binds a fresh value of type `ty` to `expr` at the end of the open
    /// block.
    pub fn assign(&mut self, ty: Type, expr: Expression) -> (value: Value)
        requires
            old(self).current_temp_id < usize::MAX,
        ensures
            (final(self)@, value@) == old(self)@.assign(ty@, expr@),
            old(self)@.wf() ==> final(self)@.wf(),
    {
        let value = self.new_temp_value(ty);
        self.push_statement(Statement::Assign(value.clone(), expr));
        value
    }

    /// Declares a stack slot of type `ty` and binds `name` to it in the
    /// innermost scope. Says whether that scope had no such name before; the
    /// slot is declared either way.
    pub fn register_param(&mut self, name: String, ty: Type, param_index: Option<usize>) -> (fresh: bool)
        requires
            old(self)@.wf(),
            old(self)@.symbols.locals.len() > 0,
        ensures
            (final(self)@, fresh) == old(self)@.register_param(
                name@,
                ty@,
                match param_index {
                    Some(i) => Some(i as nat),
                    None => None,
                },
            ),
            final(self)@.wf(),
    {
        let res = self.symbol_table.register_local(
            name,
            ty.clone(),
            LocalVarId(self.local_counter),
        );
        self.locals.push(
            LocalVar { id: LocalVarId(self.local_counter), ty: ty, param_index: param_index },
        );
        self.local_counter = self.locals.len();
        assert(final(self)@.locals =~= old(self)@.register_param(
            name@,
            ty@,
            match param_index {
                Some(i) => Some(i as nat),
                None => None,
            },
        ).0.locals);
        res
    }

    /// Declares a stack slot for the variable `name` of type `ty`.
    pub fn register_local_variable(&mut self, name: String, ty: Type) -> (fresh: bool)
        requires
            old(self)@.wf(),
            old(self)@.symbols.locals.len() > 0,
        ensures
            (final(self)@, fresh) == old(self)@.register_local_variable(name@, ty@),
            final(self)@.wf(),
    {
        self.register_param(name, ty, None)
    }

    /// Declares a stack slot of type `Bool` without a name, for the result
    /// of a short-circuit operator.
    pub fn register_local_logical(&mut self) -> (id: LocalVarId)
        requires
            old(self)@.wf(),
        ensures
            (final(self)@, id@) == old(self)@.register_local_logical(),
            final(self)@.wf(),
    {
        let id = self.local_counter;
        self.locals.push(LocalVar { id: LocalVarId(id), ty: Type::Bool, param_index: None });
        self.local_counter = self.locals.len();
        assert(final(self)@.locals =~= old(self)@.register_local_logical().0.locals);
        LocalVarId(id)
    }
}

impl FunctionBuilder {
    /// Opens a scope inside the innermost one.
    pub fn start_local_scope(&mut self)
        ensures
            final(self)@ == old(self)@.start_local_scope(),
            old(self)@.wf() ==> final(self)@.wf(),
    {
        self.symbol_table.start_local_scope();
    }

    /// Closes the innermost scope.
    pub fn end_local_scope(&mut self)
        ensures
            final(self)@ == old(self)@.end_local_scope(),
            old(self)@.wf() ==> final(self)@.wf(),
    {
        self.symbol_table.end_local_scope();
    }

    /// Replaces the labels that `continue` and `break` jump to.
    pub fn set_loop_info(&mut self, info: Option<(BasicBlockId, BasicBlockId)>)
        ensures
            final(self)@ == old(self)@.with_loop_info(
                match info {
                    Some((continue_label, break_label)) => Some((continue_label@, break_label@)),
                    None => None,
                },
            ),
    {
        self.current_loop_info = info;
    }
}

} // verus!
