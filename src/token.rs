//! Tokens produced by the lexer and consumed by the parser.
use vstd::prelude::*;

verus! {

/// The variant of a token, without its payload.
#[derive(Clone, Copy, PartialEq, Eq, Structural, Debug)]
pub enum TokenKind {
    Identifier,
    Decimal,
    Float,
    Plus,
    Minus,
    Slash,
    Asterisk,
    Modulo,
    Ampersand,
    Pipe,
    Caret,
    Assign,
    GreaterThan,
    LessThan,
    AsteriskAsterisk,
    AmpersandAmpersand,
    PipePipe,
    AssignAssign,
    GreaterThanGreaterThan,
    LessThanLessThan,
    ExclamationAssign,
    GreaterThanAssign,
    LessThanAssign,
    LeftParenthesis,
    RightParenthesis,
    EndOfLine,
}

/// A token with the byte offset at which it begins. Identifiers and number
/// literals carry their source text; a `Decimal` with empty text marks a
/// malformed number.
#[derive(Debug)]
pub enum Token {
    Identifier(String, usize),
    Decimal(String, usize),
    Float(String, usize),
    Plus(usize),
    Minus(usize),
    Slash(usize),
    Asterisk(usize),
    Modulo(usize),
    Ampersand(usize),
    Pipe(usize),
    Caret(usize),
    Assign(usize),
    GreaterThan(usize),
    LessThan(usize),
    AsteriskAsterisk(usize),
    AmpersandAmpersand(usize),
    PipePipe(usize),
    AssignAssign(usize),
    GreaterThanGreaterThan(usize),
    LessThanLessThan(usize),
    ExclamationAssign(usize),
    GreaterThanAssign(usize),
    LessThanAssign(usize),
    LeftParenthesis(usize),
    RightParenthesis(usize),
    EndOfLine(usize),
}

/// A token as a mathematical value: its kind, its text (empty for operators,
/// parentheses and the end marker) and its offset.
pub type TokenView = (TokenKind, Seq<char>, usize);

impl View for Token {
    type V = TokenView;

    open spec fn view(&self) -> TokenView {
        match self {
            Token::Identifier(s, o) => (TokenKind::Identifier, s@, *o),
            Token::Decimal(s, o) => (TokenKind::Decimal, s@, *o),
            Token::Float(s, o) => (TokenKind::Float, s@, *o),
            Token::Plus(o) => (TokenKind::Plus, Seq::empty(), *o),
            Token::Minus(o) => (TokenKind::Minus, Seq::empty(), *o),
            Token::Slash(o) => (TokenKind::Slash, Seq::empty(), *o),
            Token::Asterisk(o) => (TokenKind::Asterisk, Seq::empty(), *o),
            Token::Modulo(o) => (TokenKind::Modulo, Seq::empty(), *o),
            Token::Ampersand(o) => (TokenKind::Ampersand, Seq::empty(), *o),
            Token::Pipe(o) => (TokenKind::Pipe, Seq::empty(), *o),
            Token::Caret(o) => (TokenKind::Caret, Seq::empty(), *o),
            Token::Assign(o) => (TokenKind::Assign, Seq::empty(), *o),
            Token::GreaterThan(o) => (TokenKind::GreaterThan, Seq::empty(), *o),
            Token::LessThan(o) => (TokenKind::LessThan, Seq::empty(), *o),
            Token::AsteriskAsterisk(o) => (TokenKind::AsteriskAsterisk, Seq::empty(), *o),
            Token::AmpersandAmpersand(o) => (TokenKind::AmpersandAmpersand, Seq::empty(), *o),
            Token::PipePipe(o) => (TokenKind::PipePipe, Seq::empty(), *o),
            Token::AssignAssign(o) => (TokenKind::AssignAssign, Seq::empty(), *o),
            Token::GreaterThanGreaterThan(o) => (
                TokenKind::GreaterThanGreaterThan,
                Seq::empty(),
                *o,
            ),
            Token::LessThanLessThan(o) => (TokenKind::LessThanLessThan, Seq::empty(), *o),
            Token::ExclamationAssign(o) => (TokenKind::ExclamationAssign, Seq::empty(), *o),
            Token::GreaterThanAssign(o) => (TokenKind::GreaterThanAssign, Seq::empty(), *o),
            Token::LessThanAssign(o) => (TokenKind::LessThanAssign, Seq::empty(), *o),
            Token::LeftParenthesis(o) => (TokenKind::LeftParenthesis, Seq::empty(), *o),
            Token::RightParenthesis(o) => (TokenKind::RightParenthesis, Seq::empty(), *o),
            Token::EndOfLine(o) => (TokenKind::EndOfLine, Seq::empty(), *o),
        }
    }
}

/// The view of each token of a sequence.
pub open spec fn views(tokens: Seq<Token>) -> Seq<TokenView> {
    tokens.map_values(|t: Token| t@)
}

/// The operator, parenthesis or end-marker token of a kind at an offset; the
/// kinds that carry text map to their token with empty text.
pub fn token_of(kind: TokenKind, offset: usize) -> (r: Token)
    ensures
        r@.0 == kind,
        r@.1 == Seq::<char>::empty(),
        r@.2 == offset,
{
    match kind {
        TokenKind::Identifier => Token::Identifier(String::new(), offset),
        TokenKind::Decimal => Token::Decimal(String::new(), offset),
        TokenKind::Float => Token::Float(String::new(), offset),
        TokenKind::Plus => Token::Plus(offset),
        TokenKind::Minus => Token::Minus(offset),
        TokenKind::Slash => Token::Slash(offset),
        TokenKind::Asterisk => Token::Asterisk(offset),
        TokenKind::Modulo => Token::Modulo(offset),
        TokenKind::Ampersand => Token::Ampersand(offset),
        TokenKind::Pipe => Token::Pipe(offset),
        TokenKind::Caret => Token::Caret(offset),
        TokenKind::Assign => Token::Assign(offset),
        TokenKind::GreaterThan => Token::GreaterThan(offset),
        TokenKind::LessThan => Token::LessThan(offset),
        TokenKind::AsteriskAsterisk => Token::AsteriskAsterisk(offset),
        TokenKind::AmpersandAmpersand => Token::AmpersandAmpersand(offset),
        TokenKind::PipePipe => Token::PipePipe(offset),
        TokenKind::AssignAssign => Token::AssignAssign(offset),
        TokenKind::GreaterThanGreaterThan => Token::GreaterThanGreaterThan(offset),
        TokenKind::LessThanLessThan => Token::LessThanLessThan(offset),
        TokenKind::ExclamationAssign => Token::ExclamationAssign(offset),
        TokenKind::GreaterThanAssign => Token::GreaterThanAssign(offset),
        TokenKind::LessThanAssign => Token::LessThanAssign(offset),
        TokenKind::LeftParenthesis => Token::LeftParenthesis(offset),
        TokenKind::RightParenthesis => Token::RightParenthesis(offset),
        TokenKind::EndOfLine => Token::EndOfLine(offset),
    }
}

impl Token {
    /// The variant of this token.
    pub fn kind(&self) -> (r: TokenKind)
        ensures
            r == self@.0,
    {
        match self {
            Token::Identifier(..) => TokenKind::Identifier,
            Token::Decimal(..) => TokenKind::Decimal,
            Token::Float(..) => TokenKind::Float,
            Token::Plus(..) => TokenKind::Plus,
            Token::Minus(..) => TokenKind::Minus,
            Token::Slash(..) => TokenKind::Slash,
            Token::Asterisk(..) => TokenKind::Asterisk,
            Token::Modulo(..) => TokenKind::Modulo,
            Token::Ampersand(..) => TokenKind::Ampersand,
            Token::Pipe(..) => TokenKind::Pipe,
            Token::Caret(..) => TokenKind::Caret,
            Token::Assign(..) => TokenKind::Assign,
            Token::GreaterThan(..) => TokenKind::GreaterThan,
            Token::LessThan(..) => TokenKind::LessThan,
            Token::AsteriskAsterisk(..) => TokenKind::AsteriskAsterisk,
            Token::AmpersandAmpersand(..) => TokenKind::AmpersandAmpersand,
            Token::PipePipe(..) => TokenKind::PipePipe,
            Token::AssignAssign(..) => TokenKind::AssignAssign,
            Token::GreaterThanGreaterThan(..) => TokenKind::GreaterThanGreaterThan,
            Token::LessThanLessThan(..) => TokenKind::LessThanLessThan,
            Token::ExclamationAssign(..) => TokenKind::ExclamationAssign,
            Token::GreaterThanAssign(..) => TokenKind::GreaterThanAssign,
            Token::LessThanAssign(..) => TokenKind::LessThanAssign,
            Token::LeftParenthesis(..) => TokenKind::LeftParenthesis,
            Token::RightParenthesis(..) => TokenKind::RightParenthesis,
            Token::EndOfLine(..) => TokenKind::EndOfLine,
        }
    }

    /// The byte offset at which this token begins.
    pub fn offset(&self) -> (r: usize)
        ensures
            r == self@.2,
    {
        match self {
            Token::Identifier(_, o) => *o,
            Token::Decimal(_, o) => *o,
            Token::Float(_, o) => *o,
            Token::Plus(o) => *o,
            Token::Minus(o) => *o,
            Token::Slash(o) => *o,
            Token::Asterisk(o) => *o,
            Token::Modulo(o) => *o,
            Token::Ampersand(o) => *o,
            Token::Pipe(o) => *o,
            Token::Caret(o) => *o,
            Token::Assign(o) => *o,
            Token::GreaterThan(o) => *o,
            Token::LessThan(o) => *o,
            Token::AsteriskAsterisk(o) => *o,
            Token::AmpersandAmpersand(o) => *o,
            Token::PipePipe(o) => *o,
            Token::AssignAssign(o) => *o,
            Token::GreaterThanGreaterThan(o) => *o,
            Token::LessThanLessThan(o) => *o,
            Token::ExclamationAssign(o) => *o,
            Token::GreaterThanAssign(o) => *o,
            Token::LessThanAssign(o) => *o,
            Token::LeftParenthesis(o) => *o,
            Token::RightParenthesis(o) => *o,
            Token::EndOfLine(o) => *o,
        }
    }

    /// A copy of this token with the same view.
    pub fn duplicate(&self) -> (r: Token)
        ensures
            r@ == self@,
    {
        match self {
            Token::Identifier(s, o) => Token::Identifier(s.clone(), *o),
            Token::Decimal(s, o) => Token::Decimal(s.clone(), *o),
            Token::Float(s, o) => Token::Float(s.clone(), *o),
            _ => token_of(self.kind(), self.offset()),
        }
    }
}

} // verus!
