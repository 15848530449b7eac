//! The lowering pass: from a syntax tree to basic blocks.
//!
//! A [`SymbolTable`] resolves names for the whole program. A program is
//! lowered in two passes: the first registers the signature of every
//! declaration, so that each function is in sight of every body; the second
//! lowers the bodies in source order. Each function is lowered by a
//! [`FunctionBuilder`], which collects statements and block boundaries in
//! one linear buffer and, once the body is walked, folds that buffer into
//! the control-flow graph of the function.
//!
//! Each function `build_x` of the pass has a counterpart `lower_x` on the
//! models: a function that says, for a state of the builder and a piece of
//! syntax, which state lowering leaves and what the piece stands for; or,
//! where the piece is rejected, in which state lowering stopped and why. The
//! contract of `build_x` is that it computes `lower_x`, on success and on
//! failure alike.
//!
//! Values, labels and stack slots are numbered by machine words. A program
//! whose functions need more numbers than a word can hold is outside of what
//! [`build_translation_unit`] takes; [`can_lower`] tells, and
//! [`try_build_translation_unit`] lowers whatever can be lowered. In the
//! same way [`try_build_expression`] and [`try_build_statement`] lower
//! where the builder has room, and say so where it has not.

use crate::ast;
use crate::ast::Spanned;
use crate::ir::builder::cfg::function_of;
use crate::ir::builder::error::named_error;
use crate::ir::builder::expression::Rejected;
use crate::ir::builder::function::BuilderState;
use crate::ir::builder::statement::{build_compound_statement, compound_weight, lower_compound};
use crate::ir::builder::types::{build_type, resolve_type};
use crate::ir::{
    models, types_model, Declaration, DeclarationView, Expression, ExpressionView, FunctionType,
    FunctionTypeView, Literal, Terminator, TerminatorView, TranslationUnit, TranslationUnitView,
    Type, TypeView,
};
use vstd::prelude::*;

pub mod cfg;
pub mod error;
pub mod expression;
pub mod function;
pub mod invariants;
pub mod labels;
pub mod laws;
pub mod limits;
pub mod literal;
pub mod statement;
pub mod symbols;
pub mod text;
pub mod types;

pub use error::{ErrorKind, SyntaxError, SyntaxErrorView};
pub use function::FunctionBuilder;
pub use limits::{
    can_lower, try_build_expression, try_build_statement, try_build_translation_unit,
};
pub use symbols::{SymbolTable, SymbolTableView};

verus! {

/// The types that written types denote, from position `from` on, where those
/// before it gave `done`; or the reason the first unknown one is rejected.
pub open spec fn resolve_types(written: Seq<Spanned<ast::ParseType>>, from: int, done: Seq<TypeView>) -> Result<
    Seq<TypeView>,
    SyntaxErrorView,
>
    decreases written.len() - from,
{
    if 0 <= from < written.len() {
        match resolve_type(written[from]) {
            Err(e) => Err(e),
            Ok(ty) => resolve_types(written, from + 1, done.push(ty)),
        }
    } else {
        Ok(done)
    }
}

/// The written types of a list of parameters.
pub open spec fn written_types(params: Seq<ast::Param>) -> Seq<Spanned<ast::ParseType>> {
    Seq::new(params.len(), |i: int| params[i].ty)
}

/// The type of a function that is declared to return `return_ty` and to
/// take `params`; the return type is resolved first, then the parameters in
/// order.
pub open spec fn resolve_signature(
    return_ty: Spanned<ast::ParseType>,
    params: Seq<Spanned<ast::ParseType>>,
) -> Result<FunctionTypeView, SyntaxErrorView> {
    match resolve_type(return_ty) {
        Err(e) => Err(e),
        Ok(ret) => match resolve_types(params, 0, Seq::empty()) {
            Err(e) => Err(e),
            Ok(params_ty) => Ok(FunctionTypeView { return_ty: Box::new(ret), params_ty }),
        },
    }
}

/// The parameters from position `from` on, each declared as a stack slot
/// and bound to its name in the innermost scope. Two parameters of one name
/// are rejected at the second, whose slot is declared all the same.
pub open spec fn register_params(s: BuilderState, params: Seq<ast::Param>, from: int) -> Result<
    BuilderState,
    Rejected,
>
    decreases params.len() - from,
{
    if 0 <= from < params.len() && from < s.ty.params_ty.len() {
        let (s1, fresh) = s.register_param(
            params[from].name.inner@,
            s.ty.params_ty[from],
            Some(from as nat),
        );
        if fresh {
            register_params(s1, params, from + 1)
        } else {
            s1.rejected(
                named_error(
                    ErrorKind::DuplicateDefinition,
                    "",
                    params[from].name.inner@,
                    " is already defined.",
                    params[from].name.span,
                ),
            )
        }
    } else {
        Ok(s)
    }
}

/// The end of a function body: a function that returns `Unit` gets a
/// `return` of the unit value appended, so that its body need not end in
/// one.
pub open spec fn close_body(s: BuilderState) -> BuilderState {
    if *s.ty.return_ty == TypeView::Unit {
        let (s1, value) = s.assign(TypeView::Unit, ExpressionView::Literal(Literal::Unit));
        s1.push_terminator(Some(TerminatorView::Ret(value)))
    } else {
        s
    }
}

/// The error for a function whose name is taken.
pub open spec fn redefinition_error(name: Seq<char>, span: ast::Span) -> SyntaxErrorView {
    named_error(ErrorKind::DuplicateDefinition, "", name, " function is already defined.", span)
}

/// What the parameters and the body of a function lower to, from the state
/// in which its lowering starts.
pub open spec fn lower_body(s: BuilderState, params: Seq<ast::Param>, body: Spanned<ast::CompoundStatement>) -> Result<
    BuilderState,
    Rejected,
> {
    match register_params(s.start_local_scope(), params, 0) {
        Err(e) => Err(e),
        Ok(s1) => match lower_compound(s1, body) {
            Err(e) => Err(e),
            Ok(s2) => Ok(close_body(s2).end_local_scope()),
        },
    }
}

/// The outcome of a step that works on the symbol table: the table that the
/// step leaves and what it produced, or the table that it leaves and the
/// reason it stopped.
pub type Declared<T> = Result<(SymbolTableView, T), (SymbolTableView, SyntaxErrorView)>;

/// What the function `name` of type `ty` lowers to, where `symbols` holds
/// the functions in sight: the parameters and the body are lowered inside
/// one scope, which is closed again, and the buffer is folded into blocks.
/// Where the function is rejected, the symbol table stays as it was when the
/// fault was found, with the scopes that were open then.
pub open spec fn lower_function(
    symbols: SymbolTableView,
    name: Seq<char>,
    ty: FunctionTypeView,
    params: Seq<ast::Param>,
    body: Spanned<ast::CompoundStatement>,
    span: ast::Span,
) -> Declared<DeclarationView> {
    match lower_body(BuilderState::new(name, ty, symbols), params, body) {
        Err((s, e)) => Err((s.symbols, e)),
        Ok(s) => match function_of(s, span) {
            Err(e) => Err((s.symbols, e)),
            Ok(function) => Ok((s.symbols, function)),
        },
    }
}

/// The name that a declaration declares.
pub open spec fn declared_name(decl: Spanned<ast::Declaration>) -> Seq<char> {
    match decl.inner {
        ast::Declaration::ExternFunction { name, .. } => name@,
        ast::Declaration::Function { name, .. } => name@,
    }
}

/// The type of the function that a declaration declares, or the reason its
/// signature is rejected.
pub open spec fn declared_signature(decl: Spanned<ast::Declaration>) -> Result<
    FunctionTypeView,
    SyntaxErrorView,
> {
    match decl.inner {
        ast::Declaration::ExternFunction { params, return_ty, .. } => resolve_signature(
            return_ty,
            params@,
        ),
        ast::Declaration::Function { params, return_ty, .. } => resolve_signature(
            return_ty,
            written_types(params@),
        ),
    }
}

/// What registering a declaration does, where `symbols` holds the functions
/// registered before it: the signature is resolved, and the name is bound
/// to it among the functions. A name that is taken is rejected at the
/// declaration; the binding is replaced all the same. A signature that is
/// rejected leaves the table as it was.
pub open spec fn declare(symbols: SymbolTableView, decl: Spanned<ast::Declaration>) -> Declared<
    FunctionTypeView,
> {
    match declared_signature(decl) {
        Err(e) => Err((symbols, e)),
        Ok(ty) => {
            let after = symbols.register_global(declared_name(decl), TypeView::Function(ty));
            if symbols.globals.contains_key(declared_name(decl)) {
                Err((after, redefinition_error(declared_name(decl), decl.span)))
            } else {
                Ok((after, ty))
            }
        },
    }
}

/// What registering the declarations from position `from` on does, in
/// order, where those before it gave the types `done`. The first
/// declaration that is rejected ends it.
pub open spec fn declare_all(
    symbols: SymbolTableView,
    decls: Seq<Spanned<ast::Declaration>>,
    from: int,
    done: Seq<FunctionTypeView>,
) -> Declared<Seq<FunctionTypeView>>
    decreases decls.len() - from,
{
    if 0 <= from < decls.len() {
        match declare(symbols, decls[from]) {
            Err(e) => Err(e),
            Ok((next, ty)) => declare_all(next, decls, from + 1, done.push(ty)),
        }
    } else {
        Ok((symbols, done))
    }
}

/// What a declaration whose function is registered with the type `ty`
/// lowers to, where `symbols` holds every function of the program: a
/// function defined elsewhere is its name and its type; a function with a
/// body is lowered.
pub open spec fn lower_declaration(
    symbols: SymbolTableView,
    decl: Spanned<ast::Declaration>,
    ty: FunctionTypeView,
) -> Declared<DeclarationView> {
    match decl.inner {
        ast::Declaration::ExternFunction { name, .. } => Ok(
            (symbols, DeclarationView::ExternFunction { name: name@, ty }),
        ),
        ast::Declaration::Function { name, params, stmt, .. } => lower_function(
            symbols,
            name@,
            ty,
            params@,
            stmt,
            decl.span,
        ),
    }
}

/// What the declarations from position `from` on lower to, in order, where
/// `types` holds the type of each function of the program and those before
/// `from` gave `done`. The first declaration that is rejected ends the
/// lowering.
pub open spec fn lower_declarations(
    symbols: SymbolTableView,
    decls: Seq<Spanned<ast::Declaration>>,
    types: Seq<FunctionTypeView>,
    from: int,
    done: Seq<DeclarationView>,
) -> Result<Seq<DeclarationView>, SyntaxErrorView>
    decreases decls.len() - from,
{
    if 0 <= from < decls.len() && from < types.len() {
        match lower_declaration(symbols, decls[from], types[from]) {
            Err((_, e)) => Err(e),
            Ok((next, decl)) => lower_declarations(next, decls, types, from + 1, done.push(decl)),
        }
    } else {
        Ok(done)
    }
}

/// What a program lowers to. First every declaration is registered, in
/// source order, from an empty symbol table: so every function is in sight
/// of every body, whether it is declared before or behind, and functions may
/// call each other. Then the declarations are lowered in source order. The
/// first fault ends the lowering; a fault in a signature or a name that is
/// declared twice comes before any fault in a body.
pub open spec fn lower_translation_unit(tu: ast::TranslationUnit) -> Result<
    TranslationUnitView,
    SyntaxErrorView,
> {
    match declare_all(SymbolTableView::empty(), tu.declarations@, 0, Seq::empty()) {
        Err((_, e)) => Err(e),
        Ok((symbols, types)) => match lower_declarations(
            symbols,
            tu.declarations@,
            types,
            0,
            Seq::empty(),
        ) {
            Err(e) => Err(e),
            Ok(declarations) => Ok(TranslationUnitView { declarations }),
        },
    }
}

/// An upper bound on the number of fresh values, and on the number of fresh
/// labels, that lowering a declaration takes.
pub open spec fn declaration_weight(decl: Spanned<ast::Declaration>) -> nat {
    match decl.inner {
        ast::Declaration::ExternFunction { .. } => 0,
        ast::Declaration::Function { stmt, .. } => 2 + compound_weight(stmt),
    }
}

/// Whether the values and labels of each function of the program can be
/// numbered by machine words.
pub open spec fn fits(tu: ast::TranslationUnit) -> bool {
    forall|i: int|
        0 <= i < tu.declarations.len() ==> declaration_weight(#[trigger] tu.declarations[i])
            < usize::MAX
}

/// Resolves written types, in order.
fn build_types(written: &Vec<Spanned<ast::ParseType>>) -> (r: Result<Vec<Type>, SyntaxError>)
    ensures
        match r {
            Ok(types) => resolve_types(written@, 0, Seq::empty()) == Ok::<
                Seq<TypeView>,
                SyntaxErrorView,
            >(types_model(types@)),
            Err(e) => resolve_types(written@, 0, Seq::empty()) == Err::<
                Seq<TypeView>,
                SyntaxErrorView,
            >(e@),
        },
{
    let mut types: Vec<Type> = Vec::new();
    let mut i: usize = 0;
    assert(types_model(types@) =~= Seq::empty());
    while i < written.len()
        invariant
            i <= written.len(),
            resolve_types(written@, 0, Seq::empty()) == resolve_types(
                written@,
                i as int,
                types_model(types@),
            ),
        decreases written.len() - i,
    {
        let ghost done = types_model(types@);
        match build_type(&written[i]) {
            Err(e) => {
                return Err(e);
            },
            Ok(ty) => {
                types.push(ty);
                assert(types_model(types@) =~= done.push(ty@));
            },
        }
        i += 1;
    }
    Ok(types)
}

/// Resolves the written types of parameters, in order.
fn build_param_types(params: &Vec<ast::Param>) -> (r: Result<Vec<Type>, SyntaxError>)
    ensures
        match r {
            Ok(types) => resolve_types(written_types(params@), 0, Seq::empty()) == Ok::<
                Seq<TypeView>,
                SyntaxErrorView,
            >(types_model(types@)),
            Err(e) => resolve_types(written_types(params@), 0, Seq::empty()) == Err::<
                Seq<TypeView>,
                SyntaxErrorView,
            >(e@),
        },
        r matches Ok(types) ==> types.len() == params.len(),
{
    let mut types: Vec<Type> = Vec::new();
    let mut i: usize = 0;
    assert(types_model(types@) =~= Seq::empty());
    while i < params.len()
        invariant
            i <= params.len(),
            types.len() == i,
            resolve_types(written_types(params@), 0, Seq::empty()) == resolve_types(
                written_types(params@),
                i as int,
                types_model(types@),
            ),
        decreases params.len() - i,
    {
        let ghost done = types_model(types@);
        match build_type(&params[i].ty) {
            Err(e) => {
                return Err(e);
            },
            Ok(ty) => {
                types.push(ty);
                assert(types_model(types@) =~= done.push(ty@));
            },
        }
        i += 1;
    }
    Ok(types)
}

/// Whether `r`, with the symbol table left as `after`, is the executable
/// form of the outcome `expected`.
pub open spec fn lowered_declaration_is(
    r: Result<Declaration, SyntaxError>,
    after: SymbolTableView,
    expected: Declared<DeclarationView>,
) -> bool {
    match r {
        Ok(decl) => expected == Ok::<
            (SymbolTableView, DeclarationView),
            (SymbolTableView, SyntaxErrorView),
        >((after, decl@)),
        Err(e) => expected == Err::<
            (SymbolTableView, DeclarationView),
            (SymbolTableView, SyntaxErrorView),
        >((after, e@)),
    }
}

/// Whether `r`, with the symbol table left as `after`, is the executable
/// form of the outcome `expected`.
pub open spec fn registered_is(
    r: Result<FunctionType, SyntaxError>,
    after: SymbolTableView,
    expected: Declared<FunctionTypeView>,
) -> bool {
    match r {
        Ok(ty) => expected == Ok::<
            (SymbolTableView, FunctionTypeView),
            (SymbolTableView, SyntaxErrorView),
        >((after, ty@)),
        Err(e) => expected == Err::<
            (SymbolTableView, FunctionTypeView),
            (SymbolTableView, SyntaxErrorView),
        >((after, e@)),
    }
}

/// Whether `r`, with the builder left in the state `after`, is the
/// executable form of the outcome `expected`.
pub open spec fn body_is(r: Result<(), SyntaxError>, after: BuilderState, expected: Result<BuilderState, Rejected>) -> bool {
    match r {
        Ok(_) => expected == Ok::<BuilderState, Rejected>(after),
        Err(e) => expected == Err::<BuilderState, Rejected>((after, e@)),
    }
}

/// Declares the parameters of the function being lowered.
fn build_params(fb: &mut FunctionBuilder, params: &Vec<ast::Param>) -> (r: Result<(), SyntaxError>)
    requires
        old(fb)@.wf(),
        old(fb)@.symbols.locals.len() > 0,
    ensures
        body_is(r, final(fb)@, register_params(old(fb)@, params@, 0)),
        r is Ok ==> {
            &&& final(fb)@.wf()
            &&& final(fb)@.symbols.locals.len() > 0
            &&& final(fb)@.current_temp_id == old(fb)@.current_temp_id
            &&& final(fb)@.label_counter == old(fb)@.label_counter
        },
{
    let mut index: usize = 0;
    while index < params.len() && index < fb.ty.params_ty.len()
        invariant
            index <= params.len(),
            fb@.wf(),
            fb@.symbols.locals.len() > 0,
            fb@.ty == old(fb)@.ty,
            fb@.ty.params_ty.len() == fb.ty.params_ty.len(),
            fb@.current_temp_id == old(fb)@.current_temp_id,
            fb@.label_counter == old(fb)@.label_counter,
            register_params(old(fb)@, params@, 0) == register_params(fb@, params@, index as int),
        decreases params.len() - index,
    {
        let name = &params[index].name;
        let ty = fb.ty.params_ty[index].clone();
        if !fb.register_param(name.inner.clone(), ty, Some(index)) {
            return Err(
                SyntaxError::named(
                    ErrorKind::DuplicateDefinition,
                    "",
                    name.inner.as_str(),
                    " is already defined.",
                    name.span,
                ),
            );
        }
        index += 1;
    }
    Ok(())
}

/// Appends the `return` that a function of type `Unit` ends in.
fn build_closing_return(fb: &mut FunctionBuilder)
    requires
        old(fb)@.wf(),
        old(fb)@.has_room(1),
    ensures
        final(fb)@ == close_body(old(fb)@),
        final(fb)@.wf(),
        final(fb)@.symbols == old(fb)@.symbols,
{
    if matches!(*fb.ty.return_ty, Type::Unit) {
        let value = fb.assign(Type::Unit, Expression::Literal(Literal::Unit));
        fb.push_terminator(Some(Terminator::Ret(value)));
    }
}

/// Lowers the parameters and the body of a function into its builder.
fn build_body(
    fb: &mut FunctionBuilder,
    params: &Vec<ast::Param>,
    body: &Spanned<ast::CompoundStatement>,
) -> (r: Result<(), SyntaxError>)
    requires
        old(fb)@.wf(),
        old(fb)@.has_room(1 + compound_weight(*body)),
    ensures
        body_is(r, final(fb)@, lower_body(old(fb)@, params@, *body)),
        r is Ok ==> final(fb)@.wf(),
{
    fb.start_local_scope();
    match build_params(fb, params) {
        Err(e) => {
            return Err(e);
        },
        Ok(_) => {},
    }
    match build_compound_statement(fb, body) {
        Err(e) => {
            return Err(e);
        },
        Ok(_) => {},
    }
    build_closing_return(fb);
    fb.end_local_scope();
    Ok(())
}

/// Lowers a function whose name is registered. The builder holds the symbol
/// table while the body is lowered and hands it back, whatever the outcome.
fn build_function(
    name: String,
    ty: FunctionType,
    params: &Vec<ast::Param>,
    body: &Spanned<ast::CompoundStatement>,
    span: ast::Span,
    symbol_table: &mut SymbolTable,
) -> (r: Result<Declaration, SyntaxError>)
    requires
        2 + compound_weight(*body) < usize::MAX,
    ensures
        lowered_declaration_is(
            r,
            final(symbol_table)@,
            lower_function(old(symbol_table)@, name@, ty@, params@, *body, span),
        ),
{
    let mut table = SymbolTable::new();
    core::mem::swap(symbol_table, &mut table);
    let mut function_builder = FunctionBuilder::new(name, ty, table);
    let lowered = build_body(&mut function_builder, params, body);
    core::mem::swap(symbol_table, &mut function_builder.symbol_table);
    match lowered {
        Err(e) => Err(e),
        Ok(_) => function_builder.to_function(span),
    }
}

/// Resolves the signature of a declaration and registers its name among the
/// functions.
pub fn register_declaration(decl: &Spanned<ast::Declaration>, symbol_table: &mut SymbolTable) -> (r: Result<
    FunctionType,
    SyntaxError,
>)
    ensures
        registered_is(r, final(symbol_table)@, declare(old(symbol_table)@, *decl)),
{
    let (name, ty) = match &decl.inner {
        ast::Declaration::ExternFunction { name, params, return_ty } => {
            let return_ty = match build_type(return_ty) {
                Err(e) => {
                    return Err(e);
                },
                Ok(ty) => ty,
            };
            let param_types = match build_types(params) {
                Err(e) => {
                    return Err(e);
                },
                Ok(types) => types,
            };
            (name, FunctionType { return_ty: Box::new(return_ty), params_ty: param_types })
        },
        ast::Declaration::Function { name, params, return_ty, stmt } => {
            let return_ty = match build_type(return_ty) {
                Err(e) => {
                    return Err(e);
                },
                Ok(ty) => ty,
            };
            let param_types = match build_param_types(params) {
                Err(e) => {
                    return Err(e);
                },
                Ok(types) => types,
            };
            (name, FunctionType { return_ty: Box::new(return_ty), params_ty: param_types })
        },
    };
    if !symbol_table.register_global(name.clone(), Type::Function(ty.clone())) {
        return Err(
            SyntaxError::named(
                ErrorKind::DuplicateDefinition,
                "",
                name.as_str(),
                " function is already defined.",
                decl.span,
            ),
        );
    }
    Ok(ty)
}

/// Lowers one declaration whose function is registered with the type `ty`.
/// Parameters are paired with the parameter types of `ty` in order, as far
/// as both go.
pub fn build_declaration(
    decl: &Spanned<ast::Declaration>,
    ty: FunctionType,
    symbol_table: &mut SymbolTable,
) -> (r: Result<Declaration, SyntaxError>)
    requires
        declaration_weight(*decl) < usize::MAX,
    ensures
        lowered_declaration_is(
            r,
            final(symbol_table)@,
            lower_declaration(old(symbol_table)@, *decl, ty@),
        ),
{
    match &decl.inner {
        ast::Declaration::ExternFunction { name, .. } => Ok(
            Declaration::ExternFunction { name: name.clone(), ty: ty },
        ),
        ast::Declaration::Function { name, params, return_ty, stmt } => build_function(
            name.clone(),
            ty,
            params,
            stmt,
            decl.span,
            symbol_table,
        ),
    }
}

/// Whether `r` is the executable form of the outcome `expected`.
pub open spec fn translation_unit_is(
    r: Result<TranslationUnit, SyntaxError>,
    expected: Result<TranslationUnitView, SyntaxErrorView>,
) -> bool {
    match r {
        Ok(unit) => expected == Ok::<TranslationUnitView, SyntaxErrorView>(unit@),
        Err(e) => expected == Err::<TranslationUnitView, SyntaxErrorView>(e@),
    }
}

/// The models of a sequence of signatures, position by position.
pub open spec fn signatures_model(types: Seq<FunctionType>) -> Seq<FunctionTypeView> {
    Seq::new(types.len(), |i: int| types[i]@)
}

/// Registers the declarations of a program, in source order.
fn register_declarations(tu: &ast::TranslationUnit, symbol_table: &mut SymbolTable) -> (r: Result<
    Vec<FunctionType>,
    SyntaxError,
>)
    ensures
        match r {
            Ok(types) => declare_all(old(symbol_table)@, tu.declarations@, 0, Seq::empty())
                == Ok::<
                (SymbolTableView, Seq<FunctionTypeView>),
                (SymbolTableView, SyntaxErrorView),
            >((final(symbol_table)@, signatures_model(types@))) && types.len()
                == tu.declarations.len(),
            Err(e) => declare_all(old(symbol_table)@, tu.declarations@, 0, Seq::empty())
                == Err::<
                (SymbolTableView, Seq<FunctionTypeView>),
                (SymbolTableView, SyntaxErrorView),
            >((final(symbol_table)@, e@)),
        },
{
    let mut types: Vec<FunctionType> = Vec::new();
    let mut i: usize = 0;
    assert(signatures_model(types@) =~= Seq::empty());
    while i < tu.declarations.len()
        invariant
            i <= tu.declarations.len(),
            types.len() == i,
            declare_all(old(symbol_table)@, tu.declarations@, 0, Seq::empty()) == declare_all(
                symbol_table@,
                tu.declarations@,
                i as int,
                signatures_model(types@),
            ),
        decreases tu.declarations.len() - i,
    {
        let ghost done = signatures_model(types@);
        match register_declaration(&tu.declarations[i], symbol_table) {
            Err(e) => {
                return Err(e);
            },
            Ok(ty) => {
                types.push(ty);
                assert(signatures_model(types@) =~= done.push(ty@));
            },
        }
        i += 1;
    }
    Ok(types)
}

/// Lowers the declarations of a program, in source order, each with the
/// type that it was registered with.
fn build_declarations(
    tu: &ast::TranslationUnit,
    types: &Vec<FunctionType>,
    symbol_table: &mut SymbolTable,
) -> (r: Result<Vec<Declaration>, SyntaxError>)
    requires
        fits(*tu),
        types.len() == tu.declarations.len(),
    ensures
        match r {
            Ok(declarations) => lower_declarations(
                old(symbol_table)@,
                tu.declarations@,
                signatures_model(types@),
                0,
                Seq::empty(),
            ) == Ok::<Seq<DeclarationView>, SyntaxErrorView>(models(declarations@)),
            Err(e) => lower_declarations(
                old(symbol_table)@,
                tu.declarations@,
                signatures_model(types@),
                0,
                Seq::empty(),
            ) == Err::<Seq<DeclarationView>, SyntaxErrorView>(e@),
        },
{
    let ghost all = signatures_model(types@);
    let mut declarations: Vec<Declaration> = Vec::new();
    let mut k: usize = 0;
    assert(models(declarations@) =~= Seq::empty());
    while k < tu.declarations.len()
        invariant
            k <= tu.declarations.len(),
            fits(*tu),
            types.len() == tu.declarations.len(),
            all == signatures_model(types@),
            lower_declarations(old(symbol_table)@, tu.declarations@, all, 0, Seq::empty())
                == lower_declarations(
                symbol_table@,
                tu.declarations@,
                all,
                k as int,
                models(declarations@),
            ),
        decreases tu.declarations.len() - k,
    {
        let ghost done = models(declarations@);
        let decl = &tu.declarations[k];
        let ty = types[k].clone();
        assert(declaration_weight(tu.declarations[k as int]) < usize::MAX);
        assert(all[k as int] == ty@);
        match build_declaration(decl, ty, symbol_table) {
            Err(e) => {
                return Err(e);
            },
            Ok(lowered) => {
                declarations.push(lowered);
                assert(models(declarations@) =~= done.push(lowered@));
            },
        }
        k += 1;
    }
    Ok(declarations)
}

/// Lowers a program. Every declaration is registered before any body is
/// lowered, so a function may be called before its declaration and
/// functions may call each other; then the declarations are lowered in
/// source order. The first fault ends the lowering with its error.
pub fn build_translation_unit(tu: ast::TranslationUnit) -> (r: Result<TranslationUnit, SyntaxError>)
    requires
        fits(tu),
    ensures
        translation_unit_is(r, lower_translation_unit(tu)),
{
    let mut symbol_table = SymbolTable::new();
    let types = match register_declarations(&tu, &mut symbol_table) {
        Err(e) => {
            return Err(e);
        },
        Ok(types) => types,
    };
    match build_declarations(&tu, &types, &mut symbol_table) {
        Err(e) => Err(e),
        Ok(declarations) => Ok(TranslationUnit { declarations: declarations }),
    }
}

} // verus!
