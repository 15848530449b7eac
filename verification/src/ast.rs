//! The syntax tree that a parser hands to the lowering pass. Every node
//! carries the place in the source text that it was read from.

use vstd::prelude::*;

verus! {

/// A range of the source text, as two byte offsets.
#[derive(Clone, Copy, Debug, PartialEq, Eq, Structural)]
pub struct Span {
    pub start: usize,
    pub end: usize,
}

/// A node together with its place in the source text.
#[derive(Debug, PartialEq, Eq)]
pub struct Spanned<T> {
    pub inner: T,
    pub span: Span,
}

/// A type as it is written in the source.
#[derive(Debug, PartialEq, Eq)]
pub enum ParseType {
    Unit,
    /// An array of a fixed number of elements.
    Array(Box<Spanned<ParseType>>, usize),
    Ptr(Box<Spanned<ParseType>>),
    /// A type given by its name.
    Lit(String),
}

/// A literal as it is written in the source.
#[derive(Debug, PartialEq, Eq)]
pub enum Literal {
    Unit,
    Int(i64),
    /// The bits of the IEEE 754 binary64 form of the number.
    Double(u64),
    Bool(bool),
    /// The text between the quotes, escapes not yet resolved.
    Char(String),
}

/// A binary operator of the source language.
#[derive(Clone, Copy, Debug, PartialEq, Eq, Structural)]
pub enum BinOpCode {
    Add,
    Sub,
    Times,
    Divide,
    Mod,
    Less,
    LessEqual,
    Greater,
    GreaterEqual,
    Equal,
    NotEqual,
    LogicalAnd,
    LogicalOr,
}

/// A unary operator of the source language.
#[derive(Clone, Copy, Debug, PartialEq, Eq, Structural)]
pub enum UnOpCode {
    Minus,
    LogicalNot,
    AddressOf,
    Deref,
}

/// An expression.
#[derive(Debug, PartialEq, Eq)]
pub enum Expression {
    Assign(Box<Spanned<Expression>>, Box<Spanned<Expression>>),
    Subscript(Box<Spanned<Expression>>, Box<Spanned<Expression>>),
    BinOp(BinOpCode, Box<Spanned<Expression>>, Box<Spanned<Expression>>),
    UnOp(UnOpCode, Box<Spanned<Expression>>),
    FuncCall(Box<Spanned<Expression>>, Vec<Spanned<Expression>>),
    Cast(Box<Spanned<Expression>>, Spanned<ParseType>),
    Paren(Box<Spanned<Expression>>),
    Identifier(String),
    Literal(Literal),
    /// An array given by all of its elements.
    ArrayFullLiteral(Vec<Spanned<Expression>>),
    /// An array given by one element and a length.
    ArrayDefaultLiteral(Box<Spanned<Expression>>, usize),
}

/// A block: statements between braces, with a scope of their own.
#[derive(Debug, PartialEq, Eq)]
pub struct CompoundStatement(pub Vec<Spanned<Statement>>);

/// A condition and the block that runs where it holds.
#[derive(Debug, PartialEq, Eq)]
pub struct Branch {
    pub cond: Spanned<Expression>,
    pub body: Spanned<CompoundStatement>,
}

/// A statement.
#[derive(Debug, PartialEq, Eq)]
#[allow(inconsistent_fields)]
pub enum Statement {
    Compound(Spanned<CompoundStatement>),
    Let { name: String, ty: Option<Spanned<ParseType>>, expr: Spanned<Expression> },
    Loop { stmt: Spanned<CompoundStatement> },
    While { cond: Spanned<Expression>, stmt: Spanned<CompoundStatement> },
    If {
        if_branch: Branch,
        elseif_branches: Vec<Branch>,
        else_branch: Option<Spanned<CompoundStatement>>,
    },
    Break,
    Continue,
    Return { expr: Option<Spanned<Expression>> },
    Expression { expr: Spanned<Expression> },
}

/// A parameter of a function: its name and its type.
#[derive(Debug, PartialEq, Eq)]
pub struct Param {
    pub name: Spanned<String>,
    pub ty: Spanned<ParseType>,
}

/// A declaration at the top level of a program.
#[derive(Debug, PartialEq, Eq)]
#[allow(inconsistent_fields)]
pub enum Declaration {
    ExternFunction { name: String, params: Vec<Spanned<ParseType>>, return_ty: Spanned<ParseType> },
    Function {
        name: String,
        params: Vec<Param>,
        return_ty: Spanned<ParseType>,
        stmt: Spanned<CompoundStatement>,
    },
}

/// A program: its declarations in source order.
#[derive(Debug, PartialEq, Eq)]
pub struct TranslationUnit {
    pub declarations: Vec<Spanned<Declaration>>,
}

} // verus!
