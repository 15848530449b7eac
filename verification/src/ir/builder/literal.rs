//! From a literal as written in the source to a literal of the intermediate
//! representation.

use crate::ast;
use crate::ast::Span;
use crate::ir::builder::error::{
    named_error, plain_error, ErrorKind, SyntaxError, SyntaxErrorView,
};
use crate::ir::builder::text::chars_of;
use crate::ir::Literal;
use vstd::prelude::*;

verus! {

/// The character that stands behind a backslash for `c`, for the escapes
/// that the language knows.
pub open spec fn escape(c: char) -> Option<char> {
    if c == '\'' || c == '"' {
        Some(c)
    } else if c == 'a' {
        Some('\x07')
    } else if c == 'b' {
        Some('\x08')
    } else if c == 'f' {
        Some('\x0c')
    } else if c == 'n' {
        Some('\n')
    } else if c == 'r' {
        Some('\r')
    } else if c == 't' {
        Some('\t')
    } else if c == 'v' {
        Some('\x0b')
    } else if c == '0' {
        Some('\0')
    } else {
        None
    }
}

/// The characters that the text of a character literal denotes, or the first
/// character that follows a backslash without being a known escape. A
/// backslash at the very end denotes nothing.
pub open spec fn unescape(text: Seq<char>) -> Result<Seq<char>, char>
    decreases text.len(),
{
    if text.len() == 0 {
        Ok(Seq::empty())
    } else if text[0] != '\\' {
        match unescape(text.skip(1)) {
            Ok(rest) => Ok(seq![text[0]] + rest),
            Err(c) => Err(c),
        }
    } else if text.len() == 1 {
        Ok(Seq::empty())
    } else {
        match escape(text[1]) {
            Some(c) => match unescape(text.skip(2)) {
                Ok(rest) => Ok(seq![c] + rest),
                Err(c) => Err(c),
            },
            None => Err(text[1]),
        }
    }
}

/// The literal of the intermediate representation that a written literal
/// denotes. A character literal must denote exactly one character, of which
/// the low eight bits are kept.
pub open spec fn resolve_literal(lit: ast::Literal, span: Span) -> Result<Literal, SyntaxErrorView> {
    match lit {
        ast::Literal::Unit => Ok(Literal::Unit),
        ast::Literal::Int(val) => Ok(Literal::Int(val)),
        ast::Literal::Double(val) => Ok(Literal::Double(val)),
        ast::Literal::Bool(val) => Ok(Literal::Bool(val)),
        ast::Literal::Char(text) => match unescape(text@) {
            Err(c) => Err(
                named_error(ErrorKind::InvalidEscape, "Invalid escape char ", seq![c], ".", span),
            ),
            Ok(chars) => if chars.len() > 1 {
                Err(plain_error(ErrorKind::MultiCharLiteral, "Multiple char in char literal.", span))
            } else if chars.len() == 0 {
                Err(plain_error(ErrorKind::EmptyCharLiteral, "Empty char literal.", span))
            } else {
                Ok(Literal::Char(chars[0] as u8))
            },
        },
    }
}

/// Whether `r` is the executable form of the outcome `expected`.
pub open spec fn literal_result_is(r: Result<Literal, SyntaxError>, expected: Result<Literal, SyntaxErrorView>) -> bool {
    match r {
        Ok(lit) => expected == Ok::<Literal, SyntaxErrorView>(lit),
        Err(e) => expected == Err::<Literal, SyntaxErrorView>(e@),
    }
}

/// The known escape for `c`, if there is one.
fn escape_of(c: char) -> (r: Option<char>)
    ensures
        r == escape(c),
{
    if c == '\'' || c == '"' {
        Some(c)
    } else if c == 'a' {
        Some('\x07')
    } else if c == 'b' {
        Some('\x08')
    } else if c == 'f' {
        Some('\x0c')
    } else if c == 'n' {
        Some('\n')
    } else if c == 'r' {
        Some('\r')
    } else if c == 't' {
        Some('\t')
    } else if c == 'v' {
        Some('\x0b')
    } else if c == '0' {
        Some('\0')
    } else {
        None
    }
}

/// What is known of a literal's text once a prefix of it was read: the whole
/// denotes what the prefix denoted, followed by what the rest denotes.
spec fn continues(text: Seq<char>, read: Seq<char>, at: int) -> bool {
    unescape(text) == match unescape(text.skip(at)) {
        Ok(rest) => Ok::<Seq<char>, char>(read + rest),
        Err(c) => Err::<Seq<char>, char>(c),
    }
}

/// Resolves a written literal.
#[verifier::loop_isolation(false)]
pub fn build_literal(lit: &ast::Literal, span: Span) -> (r: Result<Literal, SyntaxError>)
    ensures
        literal_result_is(r, resolve_literal(*lit, span)),
{
    match lit {
        ast::Literal::Unit => Ok(Literal::Unit),
        ast::Literal::Int(val) => Ok(Literal::Int(*val)),
        ast::Literal::Double(val) => Ok(Literal::Double(*val)),
        ast::Literal::Bool(val) => Ok(Literal::Bool(*val)),
        ast::Literal::Char(val) => {
            let text = chars_of(val.as_str());
            let ghost read: Seq<char> = Seq::empty();
            let mut first: char = '\0';
            let mut count: usize = 0;
            let mut i: usize = 0;
            assert(text@.skip(0) =~= text@);
            assert(read + unescape(text@)->Ok_0 =~= unescape(text@)->Ok_0);
            while i < text.len()
                invariant
                    i <= text.len(),
                    count == read.len(),
                    count <= i,
                    count > 0 ==> first == read[0],
                    continues(text@, read, i as int),
                decreases text.len() - i,
            {
                let c = text[i];
                let ghost rest = text@.skip(i as int);
                assert(rest[0] == c);
                if c != '\\' {
                    assert(rest.skip(1) =~= text@.skip(i + 1));
                    proof {
                        if unescape(rest.skip(1)) is Ok {
                            assert(read + (seq![c] + unescape(rest.skip(1))->Ok_0) =~= read.push(c)
                                + unescape(rest.skip(1))->Ok_0);
                        }
                        read = read.push(c);
                    }
                    if count == 0 {
                        first = c;
                    }
                    count += 1;
                    i += 1;
                } else if i + 1 == text.len() {
                    assert(rest.len() == 1);
                    assert(text@.skip(i + 1).len() == 0);
                    assert(read + Seq::<char>::empty() =~= read);
                    i += 1;
                } else {
                    let next = text[i + 1];
                    assert(rest[1] == next);
                    match escape_of(next) {
                        Some(e) => {
                            assert(rest.skip(2) =~= text@.skip(i + 2));
                            proof {
                                if unescape(rest.skip(2)) is Ok {
                                    assert(read + (seq![e] + unescape(rest.skip(2))->Ok_0)
                                        =~= read.push(e) + unescape(rest.skip(2))->Ok_0);
                                }
                                read = read.push(e);
                            }
                            if count == 0 {
                                first = e;
                            }
                            count += 1;
                            i += 2;
                        },
                        None => {
                            assert(rest.len() > 1);
                            assert(unescape(rest) == Err::<Seq<char>, char>(next));
                            return Err(
                                SyntaxError::about_char(
                                    ErrorKind::InvalidEscape,
                                    "Invalid escape char ",
                                    next,
                                    ".",
                                    span,
                                ),
                            );
                        },
                    }
                }
            }
            assert(text@.skip(i as int).len() == 0);
            assert(read + Seq::<char>::empty() =~= read);
            if count > 1 {
                Err(
                    SyntaxError::plain(
                        ErrorKind::MultiCharLiteral,
                        "Multiple char in char literal.",
                        span,
                    ),
                )
            } else if count == 0 {
                Err(SyntaxError::plain(ErrorKind::EmptyCharLiteral, "Empty char literal.", span))
            } else {
                Ok(Literal::Char(#[verifier::truncate] (first as u8)))
            }
        },
    }
}

} // verus!
