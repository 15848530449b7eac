//! What the lowering pass reports when it rejects a program.

use crate::ast::Span;
use vstd::prelude::*;
use vstd::string::StringExecFns;

verus! {

/// Why a program was rejected.
#[derive(Clone, Copy, Debug, PartialEq, Eq, Structural)]
pub enum ErrorKind {
    /// A name is defined twice: a function, or a variable within one scope.
    DuplicateDefinition,
    /// A name is used that no scope in sight defines.
    UndefinedName,
    /// The two sides of a `let`, of an assignment or of a `return` disagree
    /// in type.
    TypeMismatch,
    /// The target of an assignment is not a storage location.
    AssignToNonLValue,
    /// What is subscripted is not an array.
    SubscriptOnNonArray,
    /// The index of a subscript is not an `int`.
    IndexNotInt,
    /// No rule applies an operator to operands of these types.
    OperatorTypeMismatch,
    /// No conversion leads from the type of the operand to the target type.
    InvalidCast,
    /// What is called is not a function.
    NotCallable,
    /// The types of the arguments are not those of the parameters.
    ParamMismatch,
    /// The condition of a `while` or an `if` is not a `bool`.
    NonBoolCondition,
    /// A `break` outside any loop.
    BreakOutsideLoop,
    /// A `continue` outside any loop.
    ContinueOutsideLoop,
    /// Some path through a function ends without a `return`.
    MissingReturn,
    /// A type name that the language does not know.
    UnrecognizedType,
    /// An escape in a character literal that the language does not know.
    InvalidEscape,
    /// A character literal that holds no character.
    EmptyCharLiteral,
    /// A character literal that holds more than one character.
    MultiCharLiteral,
    /// An array literal: this pass does not lower them.
    UnsupportedArrayLiteral,
}

/// A rejected program: why, in words, and where.
#[derive(Debug, PartialEq, Eq)]
pub struct SyntaxError {
    pub kind: ErrorKind,
    pub msg: String,
    pub span: Span,
}

/// Model of a [`SyntaxError`].
pub struct SyntaxErrorView {
    pub kind: ErrorKind,
    pub msg: Seq<char>,
    pub span: Span,
}

impl View for SyntaxError {
    type V = SyntaxErrorView;

    open spec fn view(&self) -> SyntaxErrorView {
        SyntaxErrorView { kind: self.kind, msg: self.msg@, span: self.span }
    }
}

impl Clone for SyntaxError {
    fn clone(&self) -> (e: SyntaxError)
        ensures
            e@ == self@,
    {
        SyntaxError { kind: self.kind, msg: self.msg.clone(), span: self.span }
    }
}

/// The error of the given kind whose message is the fixed text `msg`.
pub open spec fn plain_error(kind: ErrorKind, msg: &str, span: Span) -> SyntaxErrorView {
    SyntaxErrorView { kind, msg: msg@, span }
}

/// The error of the given kind whose message is `before`, then `name`
/// between single quotes, then `after`.
pub open spec fn named_error(
    kind: ErrorKind,
    before: &str,
    name: Seq<char>,
    after: &str,
    span: Span,
) -> SyntaxErrorView {
    SyntaxErrorView { kind, msg: before@ + "'"@ + name + "'"@ + after@, span }
}

/// `String::push` of the standard library appends one character to the end
/// of the string and leaves what was there unchanged.
pub assume_specification[ String::push ](s: &mut String, c: char)
    ensures
        final(s)@ == old(s)@.push(c),
;

impl SyntaxError {
    /// An error with a fixed message.
    pub fn plain(kind: ErrorKind, msg: &str, span: Span) -> (e: SyntaxError)
        ensures
            e@ == plain_error(kind, msg, span),
    {
        SyntaxError { kind, msg: String::from_str(msg), span }
    }

    /// An error whose message quotes a name.
    pub fn named(kind: ErrorKind, before: &str, name: &str, after: &str, span: Span) -> (e:
        SyntaxError)
        ensures
            e@ == named_error(kind, before, name@, after, span),
    {
        let msg = String::from_str(before).concat("'").concat(name).concat("'").concat(after);
        SyntaxError { kind, msg, span }
    }

    /// An error whose message quotes one character.
    pub fn about_char(kind: ErrorKind, before: &str, c: char, after: &str, span: Span) -> (e:
        SyntaxError)
        ensures
            e@ == named_error(kind, before, seq![c], after, span),
    {
        let mut msg = String::from_str(before).concat("'");
        msg.push(c);
        let msg = msg.concat("'").concat(after);
        assert((before@ + "'"@).push(c) =~= before@ + "'"@ + seq![c]);
        SyntaxError { kind, msg, span }
    }
}

} // verus!
