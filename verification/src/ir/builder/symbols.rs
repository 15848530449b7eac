//! Scoped binding of names: the functions of the program, which are global,
//! and the variables of the function being lowered, in nested scopes.

use crate::ir::{Expression, ExpressionView, LocalVarId, Type, TypeView};
use vstd::hash_map::StringHashMap;
use vstd::prelude::*;

verus! {

/// The names in sight while a program is lowered: a map for the functions,
/// and a stack of maps for the variables, one for each open scope, the
/// innermost last.
///
/// Within one scope a later binding of a name replaces an earlier one.
pub struct SymbolTable {
    globals: StringHashMap<Type>,
    locals: Vec<StringHashMap<(LocalVarId, Type)>>,
}

/// Model of a [`SymbolTable`].
pub struct SymbolTableView {
    /// The type of each function.
    pub globals: Map<Seq<char>, TypeView>,
    /// The stack slot and type of each variable, scope by scope, innermost
    /// last.
    pub locals: Seq<Map<Seq<char>, (nat, TypeView)>>,
}

/// What a stack of scopes binds `name` to: the binding of the innermost
/// scope that has one.
pub open spec fn find_local(scopes: Seq<Map<Seq<char>, (nat, TypeView)>>, name: Seq<char>) -> Option<
    (nat, TypeView),
>
    decreases scopes.len(),
{
    if scopes.len() == 0 {
        None
    } else if scopes.last().contains_key(name) {
        Some(scopes.last()[name])
    } else {
        find_local(scopes.drop_last(), name)
    }
}

impl SymbolTableView {
    /// The table without any name.
    pub open spec fn empty() -> SymbolTableView {
        SymbolTableView { globals: Map::empty(), locals: Seq::empty() }
    }

    /// The table with a new, empty innermost scope.
    pub open spec fn start_local_scope(self) -> SymbolTableView {
        SymbolTableView { locals: self.locals.push(Map::empty()), ..self }
    }

    /// The table without its innermost scope; the table itself where no
    /// scope is open.
    pub open spec fn end_local_scope(self) -> SymbolTableView {
        if self.locals.len() > 0 {
            SymbolTableView { locals: self.locals.drop_last(), ..self }
        } else {
            self
        }
    }

    /// Whether the innermost scope binds `name`.
    pub open spec fn in_scope(self, name: Seq<char>) -> bool {
        self.locals.len() > 0 && self.locals.last().contains_key(name)
    }

    /// The table whose innermost scope binds `name` to the stack slot `id`
    /// of type `ty`.
    pub open spec fn register_local(self, name: Seq<char>, ty: TypeView, id: nat) -> SymbolTableView {
        SymbolTableView {
            locals: self.locals.update(
                self.locals.len() - 1,
                self.locals.last().insert(name, (id, ty)),
            ),
            ..self
        }
    }

    /// The table that binds the function `name` to `ty`.
    pub open spec fn register_global(self, name: Seq<char>, ty: TypeView) -> SymbolTableView {
        SymbolTableView { globals: self.globals.insert(name, ty), ..self }
    }

    /// What `name` stands for: a variable of the innermost scope that binds
    /// it, as the storage location of its type; else the function of that
    /// name, as a plain value; else nothing.
    pub open spec fn get_var(self, name: Seq<char>) -> Option<(TypeView, ExpressionView)> {
        match find_local(self.locals, name) {
            Some((id, ty)) => Some((ty.stored(), ExpressionView::LocalVarLoad(id))),
            None => if self.globals.contains_key(name) {
                Some((self.globals[name], ExpressionView::GlobalLoad(name)))
            } else {
                None
            },
        }
    }
}

/// The model of the map of functions.
spec fn globals_model(functions: Map<Seq<char>, Type>) -> Map<Seq<char>, TypeView> {
    Map::new(|name: Seq<char>| functions.contains_key(name), |name: Seq<char>| functions[name]@)
}

/// The model of the map of one scope.
spec fn scope_model(scope: Map<Seq<char>, (LocalVarId, Type)>) -> Map<Seq<char>, (nat, TypeView)> {
    Map::new(
        |name: Seq<char>| scope.contains_key(name),
        |name: Seq<char>| (scope[name].0@, scope[name].1@),
    )
}

/// The models of a stack of scopes.
spec fn scopes_model(scopes: Seq<StringHashMap<(LocalVarId, Type)>>) -> Seq<
    Map<Seq<char>, (nat, TypeView)>,
> {
    Seq::new(scopes.len(), |i: int| scope_model(scopes[i]@))
}

/// Scopes that bind nothing to `name` can be left out of a search for it.
proof fn lemma_find_local_skip(scopes: Seq<Map<Seq<char>, (nat, TypeView)>>, name: Seq<char>, k: int)
    requires
        0 <= k <= scopes.len(),
        forall|j: int| k <= j < scopes.len() ==> !scopes[j].contains_key(name),
    ensures
        find_local(scopes, name) == find_local(scopes.take(k), name),
    decreases scopes.len(),
{
    if k < scopes.len() {
        lemma_find_local_skip(scopes.drop_last(), name, k);
        assert(scopes.drop_last().take(k) =~= scopes.take(k));
    } else {
        assert(scopes.take(k) =~= scopes);
    }
}

impl View for SymbolTable {
    type V = SymbolTableView;

    closed spec fn view(&self) -> SymbolTableView {
        SymbolTableView {
            globals: globals_model(self.globals@),
            locals: scopes_model(self.locals@),
        }
    }
}

impl SymbolTable {
    /// A table without any name and without any scope.
    pub fn new() -> (table: SymbolTable)
        ensures
            table@ == SymbolTableView::empty(),
    {
        let table = SymbolTable { globals: StringHashMap::new(), locals: Vec::new() };
        assert(table@.locals =~= Seq::empty());
        assert(table@.globals =~= Map::empty());
        table
    }

    /// Opens a scope inside the innermost one.
    pub fn start_local_scope(&mut self)
        ensures
            final(self)@ == old(self)@.start_local_scope(),
    {
        self.locals.push(StringHashMap::new());
        assert(scope_model(Map::empty()) =~= Map::empty());
        assert(final(self)@.locals =~= old(self)@.locals.push(Map::empty()));
    }

    /// Closes the innermost scope, if one is open.
    pub fn end_local_scope(&mut self)
        ensures
            final(self)@ == old(self)@.end_local_scope(),
    {
        self.locals.pop();
        assert(final(self)@.locals =~= old(self)@.end_local_scope().locals);
    }

    /// Binds `name` in the innermost scope to the stack slot `id` of type
    /// `ty`, and says whether the scope had no binding of that name before.
    /// An earlier binding of the same scope is replaced.
    pub fn register_local(&mut self, name: String, ty: Type, id: LocalVarId) -> (fresh: bool)
        requires
            old(self)@.locals.len() > 0,
        ensures
            fresh == !old(self)@.in_scope(name@),
            final(self)@ == old(self)@.register_local(name@, ty@, id@),
    {
        let mut scope = self.locals.pop().unwrap();
        let fresh = !scope.contains_key(name.as_str());
        let ghost before = scope@;
        scope.insert(name, (id, ty));
        assert(scope_model(scope@) =~= scope_model(before).insert(name@, (id@, ty@)));
        self.locals.push(scope);
        assert(final(self)@.locals =~= old(self)@.register_local(name@, ty@, id@).locals);
        fresh
    }

    /// Binds the function `name` to `ty`, and says whether no function had
    /// that name before. An earlier binding is replaced.
    pub fn register_global(&mut self, name: String, ty: Type) -> (fresh: bool)
        ensures
            fresh == !old(self)@.globals.contains_key(name@),
            final(self)@ == old(self)@.register_global(name@, ty@),
    {
        let fresh = !self.globals.contains_key(name.as_str());
        self.globals.insert(name, ty);
        assert(final(self)@.globals =~= old(self)@.globals.insert(name@, ty@));
        fresh
    }

    /// Resolves `name`: to the storage location of the innermost variable of
    /// that name, else to the function of that name.
    pub fn get_var(&self, name: &String) -> (found: Option<(Type, Expression)>)
        ensures
            match found {
                Some((ty, expr)) => self@.get_var(name@) == Some((ty@, expr@)),
                None => self@.get_var(name@) is None,
            },
    {
        let mut depth: usize = self.locals.len();
        while depth > 0
            invariant
                depth <= self.locals.len(),
                forall|j: int| depth <= j < self.locals.len() ==> !self@.locals[j].contains_key(name@),
            decreases depth,
        {
            depth -= 1;
            match self.locals[depth].get(name.as_str()) {
                Some(entry) => {
                    proof {
                        lemma_find_local_skip(self@.locals, name@, depth + 1);
                        assert(self@.locals.take(depth + 1).last() == self@.locals[depth as int]);
                    }
                    return Some(
                        (Type::LValue(Box::new(entry.1.duplicate())), Expression::LocalVarLoad(entry.0)),
                    );
                },
                None => {},
            }
        }
        proof {
            lemma_find_local_skip(self@.locals, name@, 0);
            assert(self@.locals.take(0) =~= Seq::empty());
        }
        match self.globals.get(name.as_str()) {
            Some(ty) => Some((ty.duplicate(), Expression::GlobalLoad(name.clone()))),
            None => None,
        }
    }
}

} // verus!
