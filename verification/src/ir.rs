//! The intermediate representation: types, values, statements, terminators,
//! basic blocks and declarations, each with the mathematical model that the
//! contracts of the lowering pass speak of.
//!
//! Every executable type `T` of this module has a model `T@`. Identifiers are
//! natural numbers there, vectors are sequences and names are sequences of
//! characters, so that two values with the same model are interchangeable.

use vstd::prelude::*;

pub mod builder;
pub mod tyck;

verus! {

/// Label of a basic block. Label `0` names the entry block of a function.
#[derive(Clone, Copy, Debug, PartialEq, Eq, Structural)]
pub struct BasicBlockId(pub usize);

impl View for BasicBlockId {
    type V = nat;

    open spec fn view(&self) -> nat {
        self.0 as nat
    }
}

/// Identifier of a stack slot of a function.
#[derive(Clone, Copy, Debug, PartialEq, Eq, Structural)]
pub struct LocalVarId(pub usize);

impl View for LocalVarId {
    type V = nat;

    open spec fn view(&self) -> nat {
        self.0 as nat
    }
}

/// The type of a value. `LValue(T)` is a storage location that holds a `T`,
/// as opposed to a plain value of type `T`.
#[derive(Debug, PartialEq, Eq)]
pub enum Type {
    Unit,
    Bool,
    Int,
    Double,
    Char,
    Ptr(Box<Type>),
    Array(Box<Type>, usize),
    Function(FunctionType),
    LValue(Box<Type>),
}

/// Signature of a function: the types of its parameters, in order, and the
/// type it returns.
#[derive(Debug, PartialEq, Eq)]
pub struct FunctionType {
    pub return_ty: Box<Type>,
    pub params_ty: Vec<Type>,
}

/// Model of a [`Type`].
pub enum TypeView {
    Unit,
    Bool,
    Int,
    Double,
    Char,
    Ptr(Box<TypeView>),
    Array(Box<TypeView>, nat),
    Function(FunctionTypeView),
    LValue(Box<TypeView>),
}

/// Model of a [`FunctionType`].
pub struct FunctionTypeView {
    pub return_ty: Box<TypeView>,
    pub params_ty: Seq<TypeView>,
}

impl TypeView {
    /// The storage location that holds this type.
    pub open spec fn stored(self) -> TypeView {
        TypeView::LValue(Box::new(self))
    }
}

impl Type {
    /// The model of the type, by recursion on its structure.
    pub open spec fn model(self) -> TypeView
        decreases self,
    {
        match self {
            Type::Unit => TypeView::Unit,
            Type::Bool => TypeView::Bool,
            Type::Int => TypeView::Int,
            Type::Double => TypeView::Double,
            Type::Char => TypeView::Char,
            Type::Ptr(sub) => TypeView::Ptr(Box::new(sub.model())),
            Type::Array(sub, size) => TypeView::Array(Box::new(sub.model()), size as nat),
            Type::Function(f) => TypeView::Function(f.model()),
            Type::LValue(sub) => TypeView::LValue(Box::new(sub.model())),
        }
    }

    /// Structural equality of two types.
    pub fn same_as(&self, other: &Type) -> (r: bool)
        ensures
            r == (self@ == other@),
        decreases self,
    {
        match self {
            Type::Unit => matches!(other, Type::Unit),
            Type::Bool => matches!(other, Type::Bool),
            Type::Int => matches!(other, Type::Int),
            Type::Double => matches!(other, Type::Double),
            Type::Char => matches!(other, Type::Char),
            Type::Ptr(sub) => match other {
                Type::Ptr(other_sub) => sub.same_as(other_sub),
                _ => false,
            },
            Type::Array(sub, size) => match other {
                Type::Array(other_sub, other_size) => *size == *other_size && sub.same_as(
                    other_sub,
                ),
                _ => false,
            },
            Type::Function(f) => match other {
                Type::Function(g) => f.same_as(g),
                _ => false,
            },
            Type::LValue(sub) => match other {
                Type::LValue(other_sub) => sub.same_as(other_sub),
                _ => false,
            },
        }
    }

    /// The storage location of a value of this type.
    pub fn into_lvalue(self) -> (r: Type)
        ensures
            r@ == self@.stored(),
    {
        Type::LValue(Box::new(self))
    }

    /// A deep copy of the type.
    pub fn duplicate(&self) -> (r: Type)
        ensures
            r@ == self@,
        decreases self,
    {
        match self {
            Type::Unit => Type::Unit,
            Type::Bool => Type::Bool,
            Type::Int => Type::Int,
            Type::Double => Type::Double,
            Type::Char => Type::Char,
            Type::Ptr(sub) => Type::Ptr(Box::new(sub.duplicate())),
            Type::Array(sub, size) => Type::Array(Box::new(sub.duplicate()), *size),
            Type::Function(f) => Type::Function(f.duplicate()),
            Type::LValue(sub) => Type::LValue(Box::new(sub.duplicate())),
        }
    }
}

/// The models of a sequence of types, position by position.
pub open spec fn types_model(types: Seq<Type>) -> Seq<TypeView>
    decreases types,
{
    Seq::new(
        types.len(),
        |i: int|
            if 0 <= i < types.len() {
                types[i].model()
            } else {
                TypeView::Unit
            },
    )
}

impl FunctionType {
    /// The model of the signature.
    pub open spec fn model(self) -> FunctionTypeView
        decreases self,
    {
        FunctionTypeView {
            return_ty: Box::new(self.return_ty.model()),
            params_ty: types_model(self.params_ty@),
        }
    }

    /// Structural equality of two signatures.
    #[verifier::loop_isolation(false)]
    pub fn same_as(&self, other: &FunctionType) -> (r: bool)
        ensures
            r == (self@ == other@),
        decreases self,
    {
        if self.params_ty.len() != other.params_ty.len() {
            assert(types_model(self.params_ty@).len() != types_model(other.params_ty@).len());
            return false;
        }
        let mut i: usize = 0;
        while i < self.params_ty.len()
            invariant
                0 <= i <= self.params_ty.len(),
                forall|j: int| 0 <= j < i ==> self.params_ty[j]@ == other.params_ty[j]@,
            decreases self.params_ty.len() - i,
        {
            if !self.params_ty[i].same_as(&other.params_ty[i]) {
                assert(types_model(self.params_ty@)[i as int] != types_model(
                    other.params_ty@,
                )[i as int]);
                return false;
            }
            i += 1;
        }
        assert(types_model(self.params_ty@) =~= types_model(other.params_ty@));
        self.return_ty.same_as(&other.return_ty)
    }

    /// A deep copy of the signature.
    #[verifier::loop_isolation(false)]
    pub fn duplicate(&self) -> (r: FunctionType)
        ensures
            r@ == self@,
        decreases self,
    {
        let mut params: Vec<Type> = Vec::new();
        let mut i: usize = 0;
        while i < self.params_ty.len()
            invariant
                0 <= i <= self.params_ty.len(),
                params.len() == i,
                forall|j: int| 0 <= j < i ==> params[j]@ == self.params_ty[j]@,
            decreases self.params_ty.len() - i,
        {
            params.push(self.params_ty[i].duplicate());
            i += 1;
        }
        let return_ty = self.return_ty.duplicate();
        assert(types_model(params@) =~= types_model(self.params_ty@));
        FunctionType { return_ty: Box::new(return_ty), params_ty: params }
    }
}

impl View for Type {
    type V = TypeView;

    open spec fn view(&self) -> TypeView {
        self.model()
    }
}

impl View for FunctionType {
    type V = FunctionTypeView;

    open spec fn view(&self) -> FunctionTypeView {
        self.model()
    }
}

impl Clone for Type {
    fn clone(&self) -> (r: Type)
        ensures
            r@ == self@,
    {
        self.duplicate()
    }
}

impl Clone for FunctionType {
    fn clone(&self) -> (r: FunctionType)
        ensures
            r@ == self@,
    {
        self.duplicate()
    }
}

/// The models of the elements of a sequence, position by position.
pub open spec fn models<T: View>(items: Seq<T>) -> Seq<T::V> {
    Seq::new(items.len(), |i: int| items[i]@)
}

/// The result of one statement: an identifier, unique within its function,
/// and the type of what was computed.
#[derive(Debug, PartialEq, Eq)]
pub struct Value {
    pub id: usize,
    pub ty: Type,
}

/// Model of a [`Value`].
pub struct ValueView {
    pub id: nat,
    pub ty: TypeView,
}

impl View for Value {
    type V = ValueView;

    open spec fn view(&self) -> ValueView {
        ValueView { id: self.id as nat, ty: self.ty@ }
    }
}

impl Clone for Value {
    fn clone(&self) -> (r: Value)
        ensures
            r@ == self@,
    {
        Value { id: self.id, ty: self.ty.duplicate() }
    }
}

/// One stack slot of a function: a parameter, a named local or the unnamed
/// slot of a short-circuit operator.
#[derive(Debug, PartialEq, Eq)]
pub struct LocalVar {
    pub id: LocalVarId,
    pub ty: Type,
    /// `Some(i)` for the `i`-th parameter, `None` for any other slot.
    pub param_index: Option<usize>,
}

/// Model of a [`LocalVar`].
pub struct LocalVarView {
    pub id: nat,
    pub ty: TypeView,
    pub param_index: Option<nat>,
}

impl View for LocalVar {
    type V = LocalVarView;

    open spec fn view(&self) -> LocalVarView {
        LocalVarView {
            id: self.id@,
            ty: self.ty@,
            param_index: match self.param_index {
                Some(i) => Some(i as nat),
                None => None,
            },
        }
    }
}

/// A literal. A `Double` is held as the bits of its IEEE 754 binary64 form.
#[derive(Clone, Copy, Debug, PartialEq, Eq, Structural)]
pub enum Literal {
    Unit,
    Int(i64),
    Double(u64),
    Bool(bool),
    Char(u8),
}

impl Literal {
    /// The type of the value that the literal denotes.
    pub open spec fn ty(self) -> TypeView {
        match self {
            Literal::Unit => TypeView::Unit,
            Literal::Int(_) => TypeView::Int,
            Literal::Double(_) => TypeView::Double,
            Literal::Bool(_) => TypeView::Bool,
            Literal::Char(_) => TypeView::Char,
        }
    }
}

/// A binary operator, resolved for the types of its operands.
#[derive(Clone, Copy, Debug, PartialEq, Eq, Structural)]
pub enum BinOpCode {
    IntAdd,
    IntSub,
    IntTimes,
    IntDivide,
    IntMod,
    IntLess,
    IntLessEqual,
    IntGreater,
    IntGreaterEqual,
    IntEqual,
    IntNotEqual,
    DoubleAdd,
    DoubleSub,
    DoubleTimes,
    DoubleDivide,
    DoubleLess,
    DoubleLessEqual,
    DoubleGreater,
    DoubleGreaterEqual,
    DoubleEqual,
    DoubleNotEqual,
    BoolEqual,
    BoolNotEqual,
    CharEqual,
    CharNotEqual,
}

/// A unary operator, resolved for the type of its operand.
#[derive(Clone, Copy, Debug, PartialEq, Eq, Structural)]
pub enum UnOpCode {
    IntMinus,
    DoubleMinus,
    BoolLogicalNot,
    AddressOf,
    PtrDeref,
}

/// A conversion between two types.
#[derive(Clone, Copy, Debug, PartialEq, Eq, Structural)]
pub enum CastCode {
    IntToDouble,
    DoubleToInt,
    IntToChar,
    CharToInt,
    IntToBool,
    BoolToInt,
}

/// The right-hand side of an assignment.
#[derive(Debug, PartialEq, Eq)]
pub enum Expression {
    Literal(Literal),
    /// The global of that name.
    GlobalLoad(String),
    /// The storage location of a stack slot.
    LocalVarLoad(LocalVarId),
    /// What a storage location currently holds.
    LValueLoad(Value),
    BinOp(BinOpCode, Value, Value),
    UnOp(UnOpCode, Value),
    CastOp(CastCode, Value),
    /// The storage location of one element of an array.
    ReadArray(Value, Value),
    FuncCall(Value, Vec<Value>),
}

/// Model of an [`Expression`].
pub enum ExpressionView {
    Literal(Literal),
    GlobalLoad(Seq<char>),
    LocalVarLoad(nat),
    LValueLoad(ValueView),
    BinOp(BinOpCode, ValueView, ValueView),
    UnOp(UnOpCode, ValueView),
    CastOp(CastCode, ValueView),
    ReadArray(ValueView, ValueView),
    FuncCall(ValueView, Seq<ValueView>),
}

impl View for Expression {
    type V = ExpressionView;

    open spec fn view(&self) -> ExpressionView {
        match self {
            Expression::Literal(lit) => ExpressionView::Literal(*lit),
            Expression::GlobalLoad(name) => ExpressionView::GlobalLoad(name@),
            Expression::LocalVarLoad(id) => ExpressionView::LocalVarLoad(id@),
            Expression::LValueLoad(v) => ExpressionView::LValueLoad(v@),
            Expression::BinOp(op, lhs, rhs) => ExpressionView::BinOp(*op, lhs@, rhs@),
            Expression::UnOp(op, sub) => ExpressionView::UnOp(*op, sub@),
            Expression::CastOp(op, sub) => ExpressionView::CastOp(*op, sub@),
            Expression::ReadArray(array, index) => ExpressionView::ReadArray(array@, index@),
            Expression::FuncCall(func, params) => ExpressionView::FuncCall(func@, models(params@)),
        }
    }
}

/// One step of a basic block.
#[derive(Debug, PartialEq, Eq)]
pub enum Statement {
    /// Binds a fresh value to the result of an expression.
    Assign(Value, Expression),
    /// Stores the second value into the storage location that the first names.
    LValueSet(Value, Value),
}

/// Model of a [`Statement`].
pub enum StatementView {
    Assign(ValueView, ExpressionView),
    LValueSet(ValueView, ValueView),
}

impl View for Statement {
    type V = StatementView;

    open spec fn view(&self) -> StatementView {
        match self {
            Statement::Assign(v, e) => StatementView::Assign(v@, e@),
            Statement::LValueSet(lvalue, rvalue) => StatementView::LValueSet(lvalue@, rvalue@),
        }
    }
}

/// The transfer of control that ends a basic block.
#[derive(Debug, PartialEq, Eq)]
pub enum Terminator {
    Br(BasicBlockId),
    /// To the first label where the value is true, to the second where not.
    BrCond(Value, BasicBlockId, BasicBlockId),
    Ret(Value),
}

/// Model of a [`Terminator`].
pub enum TerminatorView {
    Br(nat),
    BrCond(ValueView, nat, nat),
    Ret(ValueView),
}

impl TerminatorView {
    /// Whether control can pass from this terminator to `label`.
    pub open spec fn targets(self, label: nat) -> bool {
        match self {
            TerminatorView::Br(target) => target == label,
            TerminatorView::BrCond(_, on_true, on_false) => on_true == label || on_false == label,
            TerminatorView::Ret(_) => false,
        }
    }
}

impl View for Terminator {
    type V = TerminatorView;

    open spec fn view(&self) -> TerminatorView {
        match self {
            Terminator::Br(target) => TerminatorView::Br(target@),
            Terminator::BrCond(cond, on_true, on_false) => TerminatorView::BrCond(
                cond@,
                on_true@,
                on_false@,
            ),
            Terminator::Ret(v) => TerminatorView::Ret(v@),
        }
    }
}

/// A straight run of statements that ends in one terminator.
#[derive(Debug, PartialEq, Eq)]
pub struct BasicBlock {
    pub id: BasicBlockId,
    pub stmts: Vec<Statement>,
    pub terminator: Terminator,
}

/// Model of a [`BasicBlock`].
pub struct BasicBlockView {
    pub id: nat,
    pub stmts: Seq<StatementView>,
    pub terminator: TerminatorView,
}

impl View for BasicBlock {
    type V = BasicBlockView;

    open spec fn view(&self) -> BasicBlockView {
        BasicBlockView { id: self.id@, stmts: models(self.stmts@), terminator: self.terminator@ }
    }
}

/// A declaration of the lowered program.
#[derive(Debug, PartialEq, Eq)]
pub enum Declaration {
    /// A function defined elsewhere: a name and a signature.
    ExternFunction { name: String, ty: FunctionType },
    /// A function with its stack slots and its control-flow graph.
    Function { name: String, ty: FunctionType, locals: Vec<LocalVar>, bbs: Vec<BasicBlock> },
}

/// Model of a [`Declaration`].
pub enum DeclarationView {
    ExternFunction { name: Seq<char>, ty: FunctionTypeView },
    Function {
        name: Seq<char>,
        ty: FunctionTypeView,
        locals: Seq<LocalVarView>,
        bbs: Seq<BasicBlockView>,
    },
}

impl View for Declaration {
    type V = DeclarationView;

    open spec fn view(&self) -> DeclarationView {
        match self {
            Declaration::ExternFunction { name, ty } => DeclarationView::ExternFunction {
                name: name@,
                ty: ty@,
            },
            Declaration::Function { name, ty, locals, bbs } => DeclarationView::Function {
                name: name@,
                ty: ty@,
                locals: models(locals@),
                bbs: models(bbs@),
            },
        }
    }
}

/// The lowered program: its declarations in source order.
#[derive(Debug, PartialEq, Eq)]
pub struct TranslationUnit {
    pub declarations: Vec<Declaration>,
}

/// Model of a [`TranslationUnit`].
pub struct TranslationUnitView {
    pub declarations: Seq<DeclarationView>,
}

impl View for TranslationUnit {
    type V = TranslationUnitView;

    open spec fn view(&self) -> TranslationUnitView {
        TranslationUnitView { declarations: models(self.declarations@) }
    }
}

} // verus!
