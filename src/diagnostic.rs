//! Non-fatal diagnostics reported while tokenizing, parsing and evaluating.
use vstd::prelude::*;

use crate::token::TokenKind;

verus! {

/// A problem found in an input line. Each one is paired with a recovery: the
/// lexer skips, the parser yields no statement, the evaluator yields zero.
#[derive(Clone, Copy, PartialEq, Eq, Structural, Debug)]
pub enum Diagnostic {
    /// A byte that starts no token, at an offset; it is skipped.
    UnhandledCharacter(u8, usize),
    /// A number with a second `.`, starting at an offset.
    MalformedNumber(usize),
    /// A `!` not followed by `=`, at an offset.
    UnsupportedExclamation(usize),
    /// A leading token that starts no statement.
    ExpectedStatement(TokenKind),
    /// No operand where one is required; the token found there, if any.
    ExpectedLiteral(Option<TokenKind>),
    /// A required token (first) was missing; the token found instead (second).
    ExpectedToken(TokenKind, TokenKind),
    /// A number literal whose text is not a representable number, at an offset.
    InvalidNumber(usize),
    /// A name that is not bound, at the offset of its use.
    UndefinedName(usize),
    /// An integer-only operator applied to a float operand.
    NonIntegerOperand(TokenKind),
    /// An integer result of an operator that does not fit in `usize`.
    OutOfRange(TokenKind),
    /// An integer remainder by zero.
    DivisionByZero(TokenKind),
}

} // verus!
