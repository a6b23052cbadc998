//! The lexer: one left-to-right pass over the bytes of a line, with one byte
//! of lookahead for two-byte operators.
use vstd::prelude::*;

use crate::diagnostic::Diagnostic;
use crate::token::{token_of, views, Token, TokenKind, TokenView};

verus! {

/// The byte at position `i`, if there is one.
pub open spec fn byte_at(b: Seq<u8>, i: int) -> Option<u8> {
    if 0 <= i < b.len() {
        Some(b[i])
    } else {
        None
    }
}

/// ASCII whitespace: space, tab, line feed, form feed, carriage return.
pub open spec fn is_space(c: u8) -> bool {
    c == 32 || c == 9 || c == 10 || c == 12 || c == 13
}

pub open spec fn is_letter(c: u8) -> bool {
    (65 <= c <= 90) || (97 <= c <= 122)
}

pub open spec fn is_digit(c: u8) -> bool {
    48 <= c <= 57
}

/// A byte that may start an identifier.
pub open spec fn starts_identifier(c: u8) -> bool {
    is_letter(c) || c == 95
}

/// A byte that may continue an identifier.
pub open spec fn continues_identifier(c: u8) -> bool {
    is_letter(c) || is_digit(c) || c == 95
}

/// A byte of a number literal: a digit or `.`.
pub open spec fn is_number_byte(c: u8) -> bool {
    is_digit(c) || c == 46
}

/// The bytes read as characters.
pub open spec fn chars_of(b: Seq<u8>) -> Seq<char> {
    b.map_values(|c: u8| c as char)
}

/// The first position at or after `i` that holds no whitespace.
pub open spec fn skip_spaces(b: Seq<u8>, i: int) -> int
    decreases b.len() - i,
{
    if 0 <= i < b.len() && is_space(b[i]) {
        skip_spaces(b, i + 1)
    } else {
        i
    }
}

/// The end of the identifier that continues at `i`.
pub open spec fn identifier_end(b: Seq<u8>, i: int) -> int
    decreases b.len() - i,
{
    if 0 <= i < b.len() && continues_identifier(b[i]) {
        identifier_end(b, i + 1)
    } else {
        i
    }
}

/// Scans the number that continues at `i`, where `dotted` says whether a `.`
/// has been read already. Gives the position where the scan stops, whether it
/// stopped at a second `.`, and whether a `.` was read.
pub open spec fn scan_number(b: Seq<u8>, i: int, dotted: bool) -> (int, bool, bool)
    decreases b.len() - i,
{
    if 0 <= i < b.len() && is_number_byte(b[i]) {
        if b[i] == 46 && dotted {
            (i, true, true)
        } else {
            scan_number(b, i + 1, dotted || b[i] == 46)
        }
    } else {
        (i, false, dotted)
    }
}

/// The operator that byte `c` starts when `next` follows it, with its width in
/// bytes. `!` is not among them: alone it is no operator.
pub open spec fn operator_of(c: u8, next: Option<u8>) -> Option<(TokenKind, usize)> {
    if c == 43 {
        Some((TokenKind::Plus, 1))
    } else if c == 45 {
        Some((TokenKind::Minus, 1))
    } else if c == 47 {
        Some((TokenKind::Slash, 1))
    } else if c == 37 {
        Some((TokenKind::Modulo, 1))
    } else if c == 94 {
        Some((TokenKind::Caret, 1))
    } else if c == 40 {
        Some((TokenKind::LeftParenthesis, 1))
    } else if c == 41 {
        Some((TokenKind::RightParenthesis, 1))
    } else if c == 42 {
        if next == Some(42u8) {
            Some((TokenKind::AsteriskAsterisk, 2))
        } else {
            Some((TokenKind::Asterisk, 1))
        }
    } else if c == 38 {
        if next == Some(38u8) {
            Some((TokenKind::AmpersandAmpersand, 2))
        } else {
            Some((TokenKind::Ampersand, 1))
        }
    } else if c == 124 {
        if next == Some(124u8) {
            Some((TokenKind::PipePipe, 2))
        } else {
            Some((TokenKind::Pipe, 1))
        }
    } else if c == 61 {
        if next == Some(61u8) {
            Some((TokenKind::AssignAssign, 2))
        } else {
            Some((TokenKind::Assign, 1))
        }
    } else if c == 62 {
        if next == Some(62u8) {
            Some((TokenKind::GreaterThanGreaterThan, 2))
        } else if next == Some(61u8) {
            Some((TokenKind::GreaterThanAssign, 2))
        } else {
            Some((TokenKind::GreaterThan, 1))
        }
    } else if c == 60 {
        if next == Some(60u8) {
            Some((TokenKind::LessThanLessThan, 2))
        } else if next == Some(61u8) {
            Some((TokenKind::LessThanAssign, 2))
        } else {
            Some((TokenKind::LessThan, 1))
        }
    } else {
        None
    }
}

/// The number token that starts at `j`, where the scan resumes, and its
/// diagnostics.
pub open spec fn number_at(b: Seq<u8>, j: int) -> (TokenView, int, Seq<Diagnostic>) {
    let (end, malformed, dotted) = scan_number(b, j, false);
    if malformed {
        ((TokenKind::Decimal, Seq::empty(), j as usize), end, seq![Diagnostic::MalformedNumber(j as usize)])
    } else if dotted {
        ((TokenKind::Float, chars_of(b.subrange(j, end)), j as usize), end, Seq::empty())
    } else {
        ((TokenKind::Decimal, chars_of(b.subrange(j, end)), j as usize), end, Seq::empty())
    }
}

/// The next token at or after position `i`, the position after it, and the
/// diagnostics reported on the way. Whitespace is skipped; a byte that starts
/// no token, and a `!` alone, are reported and skipped.
pub open spec fn lex_next(b: Seq<u8>, i: int) -> (TokenView, int, Seq<Diagnostic>)
    decreases b.len() - i via lex_next_decreases
{
    let j = skip_spaces(b, i);
    if j >= b.len() {
        ((TokenKind::EndOfLine, Seq::empty(), j as usize), j, Seq::empty())
    } else {
        let c = b[j];
        if starts_identifier(c) {
            let end = identifier_end(b, j);
            ((TokenKind::Identifier, chars_of(b.subrange(j, end)), j as usize), end, Seq::empty())
        } else if is_number_byte(c) {
            number_at(b, j)
        } else if c == 33 {
            if byte_at(b, j + 1) == Some(61u8) {
                ((TokenKind::ExclamationAssign, Seq::empty(), j as usize), j + 2, Seq::empty())
            } else {
                let (t, n, d) = lex_next(b, j + 1);
                (t, n, seq![Diagnostic::UnsupportedExclamation(j as usize)] + d)
            }
        } else {
            match operator_of(c, byte_at(b, j + 1)) {
                Some((k, w)) => ((k, Seq::empty(), j as usize), j + w, Seq::empty()),
                None => {
                    let (t, n, d) = lex_next(b, j + 1);
                    (t, n, seq![Diagnostic::UnhandledCharacter(c, j as usize)] + d)
                },
            }
        }
    }
}

#[via_fn]
proof fn lex_next_decreases(b: Seq<u8>, i: int) {
    lemma_skip_spaces(b, i);
}

/// All tokens from position `i` up to and including the end marker, and the
/// diagnostics reported on the way.
pub open spec fn lex_all(b: Seq<u8>, i: nat) -> (Seq<TokenView>, Seq<Diagnostic>)
    decreases b.len() - i via lex_all_decreases
{
    let (t, n, d) = lex_next(b, i as int);
    if t.0 == TokenKind::EndOfLine {
        (seq![t], d)
    } else {
        let (ts, ds) = lex_all(b, n as nat);
        (seq![t] + ts, d + ds)
    }
}

#[via_fn]
proof fn lex_all_decreases(b: Seq<u8>, i: nat) {
    lemma_lex_next(b, i as int);
}

proof fn lemma_skip_spaces(b: Seq<u8>, i: int)
    ensures
        i <= skip_spaces(b, i),
        0 <= i <= b.len() ==> skip_spaces(b, i) <= b.len(),
        0 <= skip_spaces(b, i) < b.len() ==> !is_space(b[skip_spaces(b, i)]),
        skip_spaces(b, skip_spaces(b, i)) == skip_spaces(b, i),
    decreases b.len() - i,
{
    if 0 <= i < b.len() && is_space(b[i]) {
        lemma_skip_spaces(b, i + 1);
    }
}

proof fn lemma_identifier_end(b: Seq<u8>, i: int)
    requires
        0 <= i <= b.len(),
    ensures
        i <= identifier_end(b, i) <= b.len(),
        i < b.len() && continues_identifier(b[i]) ==> i < identifier_end(b, i),
    decreases b.len() - i,
{
    if i < b.len() && continues_identifier(b[i]) {
        lemma_identifier_end(b, i + 1);
    }
}

proof fn lemma_scan_number(b: Seq<u8>, i: int, dotted: bool)
    requires
        0 <= i <= b.len(),
    ensures
        i <= scan_number(b, i, dotted).0 <= b.len(),
        scan_number(b, i, dotted).1 ==> scan_number(b, i, dotted).0 < b.len(),
        i < b.len() && is_number_byte(b[i]) && !(b[i] == 46 && dotted) ==> i < scan_number(
            b,
            i,
            dotted,
        ).0,
    decreases b.len() - i,
{
    if i < b.len() && is_number_byte(b[i]) && !(b[i] == 46 && dotted) {
        lemma_scan_number(b, i + 1, dotted || b[i] == 46);
    }
}

/// The lexer never moves backwards, never passes the end, and moves forward
/// on every token but the end marker, which stands at the end.
pub proof fn lemma_lex_next(b: Seq<u8>, i: int)
    requires
        0 <= i,
    ensures
        i <= lex_next(b, i).1,
        i <= b.len() ==> lex_next(b, i).1 <= b.len(),
        lex_next(b, i).0.0 != TokenKind::EndOfLine ==> i < lex_next(b, i).1 <= b.len(),
    decreases b.len() - i,
{
    lemma_skip_spaces(b, i);
    let j = skip_spaces(b, i);
    if j < b.len() {
        let c = b[j];
        if starts_identifier(c) {
            lemma_identifier_end(b, j);
        } else if is_number_byte(c) {
            lemma_scan_number(b, j, false);
        } else if c == 33 {
            if byte_at(b, j + 1) != Some(61u8) {
                lemma_lex_next(b, j + 1);
            }
        } else if operator_of(c, byte_at(b, j + 1)).is_none() {
            lemma_lex_next(b, j + 1);
        }
    }
}

fn space_byte(c: u8) -> (r: bool)
    ensures
        r == is_space(c),
{
    c == 32 || c == 9 || c == 10 || c == 12 || c == 13
}

fn starts_identifier_byte(c: u8) -> (r: bool)
    ensures
        r == starts_identifier(c),
{
    (65 <= c && c <= 90) || (97 <= c && c <= 122) || c == 95
}

fn continues_identifier_byte(c: u8) -> (r: bool)
    ensures
        r == continues_identifier(c),
{
    (65 <= c && c <= 90) || (97 <= c && c <= 122) || (48 <= c && c <= 57) || c == 95
}

fn number_byte(c: u8) -> (r: bool)
    ensures
        r == is_number_byte(c),
{
    (48 <= c && c <= 57) || c == 46
}

/// Relies on String::push: appends one character at the end.
#[verifier::external_body]
pub(crate) fn push_char(s: &mut String, c: char)
    ensures
        final(s)@ == old(s)@.push(c),
{
    s.push(c);
}

fn operator(c: u8, next: Option<u8>) -> (r: Option<(TokenKind, usize)>)
    ensures
        r == operator_of(c, next),
{
    match c {
        43u8 => Some((TokenKind::Plus, 1)),
        45u8 => Some((TokenKind::Minus, 1)),
        47u8 => Some((TokenKind::Slash, 1)),
        37u8 => Some((TokenKind::Modulo, 1)),
        94u8 => Some((TokenKind::Caret, 1)),
        40u8 => Some((TokenKind::LeftParenthesis, 1)),
        41u8 => Some((TokenKind::RightParenthesis, 1)),
        42u8 => match next {
            Some(42u8) => Some((TokenKind::AsteriskAsterisk, 2)),
            _ => Some((TokenKind::Asterisk, 1)),
        },
        38u8 => match next {
            Some(38u8) => Some((TokenKind::AmpersandAmpersand, 2)),
            _ => Some((TokenKind::Ampersand, 1)),
        },
        124u8 => match next {
            Some(124u8) => Some((TokenKind::PipePipe, 2)),
            _ => Some((TokenKind::Pipe, 1)),
        },
        61u8 => match next {
            Some(61u8) => Some((TokenKind::AssignAssign, 2)),
            _ => Some((TokenKind::Assign, 1)),
        },
        62u8 => match next {
            Some(62u8) => Some((TokenKind::GreaterThanGreaterThan, 2)),
            Some(61u8) => Some((TokenKind::GreaterThanAssign, 2)),
            _ => Some((TokenKind::GreaterThan, 1)),
        },
        60u8 => match next {
            Some(60u8) => Some((TokenKind::LessThanLessThan, 2)),
            Some(61u8) => Some((TokenKind::LessThanAssign, 2)),
            _ => Some((TokenKind::LessThan, 1)),
        },
        _ => None,
    }
}

/// Turns one line of text into tokens.
pub struct Lexer {
    bytes: Vec<u8>,
    index: usize,
    diagnostics: Vec<Diagnostic>,
}

impl Lexer {
    /// The bytes of the line.
    pub closed spec fn input(&self) -> Seq<u8> {
        self.bytes@
    }

    /// The position of the next byte to read.
    pub closed spec fn position(&self) -> nat {
        self.index as nat
    }

    /// The diagnostics reported so far.
    pub closed spec fn reported(&self) -> Seq<Diagnostic> {
        self.diagnostics@
    }

    pub closed spec fn wf(&self) -> bool {
        self.index <= self.bytes.len()
    }

    /// A lexer at the start of `content`; for ASCII text its bytes are the
    /// characters.
    pub fn new(content: String) -> (r: Lexer)
        ensures
            r.wf(),
            r.position() == 0,
            r.reported() == Seq::<Diagnostic>::empty(),
            content.is_ascii() ==> r.input() == content@.map_values(|c: char| c as u8),
    {
        broadcast use vstd::string::is_ascii_spec_bytes;

        let text = content.as_str();
        let bytes = vstd::slice::slice_to_vec(text.as_bytes());
        proof {
            if content.is_ascii() {
                assert(text.is_ascii());
                assert(bytes@ =~= content@.map_values(|c: char| c as u8));
            }
        }
        Lexer { bytes, index: 0, diagnostics: Vec::new() }
    }

    /// The diagnostics reported so far.
    pub fn diagnostics(&self) -> (r: &Vec<Diagnostic>)
        ensures
            r@ == self.reported(),
    {
        &self.diagnostics
    }

    /// All tokens of the line from the current position, ending with the end
    /// marker; diagnostics of lexical errors are added to `reported()`.
    pub fn tokenize(&mut self) -> (r: Vec<Token>)
        requires
            old(self).wf(),
        ensures
            final(self).wf(),
            final(self).input() == old(self).input(),
            views(r@) == lex_all(old(self).input(), old(self).position()).0,
            final(self).reported() == old(self).reported() + lex_all(
                old(self).input(),
                old(self).position(),
            ).1,
    {
        let ghost b = self.bytes@;
        let ghost i0 = self.index as nat;
        let ghost d0 = self.diagnostics@;
        let mut tokens: Vec<Token> = Vec::new();
        loop
            invariant
                self.wf(),
                self.bytes@ == b,
                b == old(self).bytes@,
                i0 == old(self).index,
                d0 == old(self).diagnostics@,
                views(tokens@) + lex_all(b, self.index as nat).0 == lex_all(b, i0).0,
                self.diagnostics@ + lex_all(b, self.index as nat).1 == d0 + lex_all(b, i0).1,
            decreases b.len() - self.index,
        {
            let ghost before = self.index as nat;
            let ghost ds = self.diagnostics@;
            proof {
                lemma_lex_next(b, before as int);
            }
            let token = self.tokenize_next();
            let end = token.kind() == TokenKind::EndOfLine;
            let ghost tv = token@;
            let ghost earlier = tokens@;
            tokens.push(token);
            proof {
                let ts = tokens@;
                assert(ts.drop_last() =~= earlier);
                assert(views(ts) =~= views(earlier).push(tv));
                let (t, n, d) = lex_next(b, before as int);
                if !end {
                    let (rest, rd) = lex_all(b, n as nat);
                    assert(lex_all(b, before).0 == seq![t] + rest);
                    assert(views(ts) + rest =~= views(ts.drop_last()) + lex_all(b, before).0);
                    assert(self.diagnostics@ + rd =~= ds + lex_all(b, before).1);
                } else {
                    assert(views(ts) =~= views(ts.drop_last()) + lex_all(b, before).0);
                    assert(self.diagnostics@ =~= ds + lex_all(b, before).1);
                }
            }
            if end {
                proof {
                    assert(views(tokens@) == lex_all(b, i0).0);
                    assert(self.diagnostics@ == d0 + lex_all(b, i0).1);
                }
                return tokens;
            }
        }
    }

    /// The next token, skipping whitespace and skipping, with a diagnostic,
    /// bytes that start no token.
    fn tokenize_next(&mut self) -> (t: Token)
        requires
            old(self).wf(),
        ensures
            final(self).wf(),
            final(self).bytes@ == old(self).bytes@,
            t@ == lex_next(old(self).bytes@, old(self).index as int).0,
            final(self).index == lex_next(old(self).bytes@, old(self).index as int).1,
            final(self).diagnostics@ == old(self).diagnostics@ + lex_next(
                old(self).bytes@,
                old(self).index as int,
            ).2,
    {
        let ghost b = self.bytes@;
        let ghost i0 = self.index as int;
        let ghost d0 = self.diagnostics@;
        let ghost mut added: Seq<Diagnostic> = Seq::empty();
        loop
            invariant
                self.wf(),
                self.bytes@ == b,
                b == old(self).bytes@,
                i0 == old(self).index,
                d0 == old(self).diagnostics@,
                self.diagnostics@ == d0 + added,
                lex_next(b, i0) == (
                    lex_next(b, self.index as int).0,
                    lex_next(b, self.index as int).1,
                    added + lex_next(b, self.index as int).2,
                ),
            decreases b.len() - self.index,
        {
            let ghost before = self.index as int;
            let current = self.skip_whitespace();
            proof {
                lemma_skip_spaces(b, before);
            }
            let j = self.index;
            match current {
                None => {
                    proof {
                        assert(added + Seq::<Diagnostic>::empty() =~= added);
                    }
                    return Token::EndOfLine(j);
                },
                Some(c) => {
                    if starts_identifier_byte(c) {
                        let t = self.tokenize_identifier();
                        proof {
                            assert(added + Seq::<Diagnostic>::empty() =~= added);
                        }
                        return t;
                    } else if number_byte(c) {
                        let t = self.tokenize_number();
                        return t;
                    } else if c == 33u8 {
                        let next = self.advance();
                        if next == Some(61u8) {
                            self.advance();
                            proof {
                                assert(added + Seq::<Diagnostic>::empty() =~= added);
                            }
                            return Token::ExclamationAssign(j);
                        }
                        let diagnostic = Diagnostic::UnsupportedExclamation(j);
                        self.diagnostics.push(diagnostic);
                        proof {
                            let rest = lex_next(b, j + 1).2;
                            assert(added + (seq![diagnostic] + rest) =~= added.push(diagnostic)
                                + rest);
                            added = added.push(diagnostic);
                        }
                    } else {
                        match self.tokenize_operator() {
                            Some(t) => {
                                proof {
                                    assert(added + Seq::<Diagnostic>::empty() =~= added);
                                }
                                return t;
                            },
                            None => {
                                let diagnostic = Diagnostic::UnhandledCharacter(c, j);
                                self.diagnostics.push(diagnostic);
                                self.advance();
                                proof {
                                    let rest = lex_next(b, j + 1).2;
                                    assert(added + (seq![diagnostic] + rest) =~= added.push(
                                        diagnostic,
                                    ) + rest);
                                    added = added.push(diagnostic);
                                }
                            },
                        }
                    }
                },
            }
        }
    }

    fn tokenize_identifier(&mut self) -> (t: Token)
        requires
            old(self).wf(),
            old(self).index < old(self).bytes.len(),
            starts_identifier(old(self).bytes@[old(self).index as int]),
        ensures
            final(self).wf(),
            final(self).bytes@ == old(self).bytes@,
            final(self).diagnostics@ == old(self).diagnostics@,
            final(self).index == identifier_end(old(self).bytes@, old(self).index as int),
            t@ == (
                TokenKind::Identifier,
                chars_of(old(self).bytes@.subrange(old(self).index as int, final(self).index as int)),
                old(self).index,
            ),
    {
        let ghost b = self.bytes@;
        let start = self.index;
        let mut value = String::new();
        loop
            invariant
                self.wf(),
                self.bytes@ == b,
                self.diagnostics@ == old(self).diagnostics@,
                b == old(self).bytes@,
                start == old(self).index,
                start <= self.index,
                identifier_end(b, self.index as int) == identifier_end(b, start as int),
                value@ == chars_of(b.subrange(start as int, self.index as int)),
            ensures
                !(self.index < b.len() && continues_identifier(b[self.index as int])),
            decreases b.len() - self.index,
        {
            match self.current() {
                Some(c) => {
                    if continues_identifier_byte(c) {
                        proof {
                            assert(chars_of(b.subrange(start as int, self.index + 1)) =~= chars_of(
                                b.subrange(start as int, self.index as int),
                            ).push(c as char));
                        }
                        push_char(&mut value, c as char);
                        self.advance();
                    } else {
                        break ;
                    }
                },
                None => {
                    break ;
                },
            }
        }
        Token::Identifier(value, start)
    }

    fn tokenize_number(&mut self) -> (t: Token)
        requires
            old(self).wf(),
            old(self).index < old(self).bytes.len(),
            is_number_byte(old(self).bytes@[old(self).index as int]),
        ensures
            final(self).wf(),
            final(self).bytes@ == old(self).bytes@,
            t@ == number_at(old(self).bytes@, old(self).index as int).0,
            final(self).index == number_at(old(self).bytes@, old(self).index as int).1,
            final(self).diagnostics@ == old(self).diagnostics@ + number_at(
                old(self).bytes@,
                old(self).index as int,
            ).2,
    {
        let ghost b = self.bytes@;
        let start = self.index;
        let mut value = String::new();
        let mut dotted = false;
        loop
            invariant
                self.wf(),
                self.bytes@ == b,
                self.diagnostics@ == old(self).diagnostics@,
                b == old(self).bytes@,
                start == old(self).index,
                start <= self.index,
                scan_number(b, self.index as int, dotted) == scan_number(b, start as int, false),
                value@ == chars_of(b.subrange(start as int, self.index as int)),
            ensures
                !(self.index < b.len() && is_number_byte(b[self.index as int])),
            decreases b.len() - self.index,
        {
            match self.current() {
                Some(c) => {
                    if number_byte(c) {
                        if c == 46u8 {
                            if dotted {
                                self.diagnostics.push(Diagnostic::MalformedNumber(start));
                                return Token::Decimal(String::new(), start);
                            } else {
                                dotted = true;
                            }
                        }
                        proof {
                            assert(chars_of(b.subrange(start as int, self.index + 1)) =~= chars_of(
                                b.subrange(start as int, self.index as int),
                            ).push(c as char));
                        }
                        push_char(&mut value, c as char);
                        self.advance();
                    } else {
                        break ;
                    }
                },
                None => {
                    break ;
                },
            }
        }
        proof {
            assert(self.diagnostics@ =~= old(self).diagnostics@ + Seq::<Diagnostic>::empty());
        }
        if dotted {
            Token::Float(value, start)
        } else {
            Token::Decimal(value, start)
        }
    }

    /// The operator token at the current position, if the byte there starts one.
    fn tokenize_operator(&mut self) -> (t: Option<Token>)
        requires
            old(self).wf(),
            old(self).index < old(self).bytes.len(),
        ensures
            final(self).wf(),
            final(self).bytes@ == old(self).bytes@,
            final(self).diagnostics@ == old(self).diagnostics@,
            ({
                let b = old(self).bytes@;
                let i = old(self).index as int;
                match operator_of(b[i], byte_at(b, i + 1)) {
                    Some((k, w)) => t.is_some() && t.unwrap()@ == (k, Seq::<char>::empty(), i as usize)
                        && final(self).index == i + w,
                    None => t.is_none() && final(self).index == i,
                }
            }),
    {
        let c = self.bytes[self.index];
        let next = if self.index + 1 < self.bytes.len() {
            Some(self.bytes[self.index + 1])
        } else {
            None
        };
        match operator(c, next) {
            Some((kind, width)) => {
                let t = token_of(kind, self.index);
                self.index = self.index + width;
                Some(t)
            },
            None => None,
        }
    }

    fn skip_whitespace(&mut self) -> (r: Option<u8>)
        requires
            old(self).wf(),
        ensures
            final(self).wf(),
            final(self).bytes@ == old(self).bytes@,
            final(self).diagnostics@ == old(self).diagnostics@,
            final(self).index == skip_spaces(old(self).bytes@, old(self).index as int),
            r == byte_at(final(self).bytes@, final(self).index as int),
    {
        while self.current().is_some() && space_byte(self.current().unwrap())
            invariant
                self.wf(),
                self.bytes@ == old(self).bytes@,
                self.diagnostics@ == old(self).diagnostics@,
                skip_spaces(self.bytes@, self.index as int) == skip_spaces(
                    old(self).bytes@,
                    old(self).index as int,
                ),
            decreases self.bytes.len() - self.index,
        {
            self.advance();
        }
        self.current()
    }

    fn advance(&mut self) -> (r: Option<u8>)
        requires
            old(self).index < old(self).bytes.len(),
        ensures
            final(self).wf(),
            final(self).bytes@ == old(self).bytes@,
            final(self).diagnostics@ == old(self).diagnostics@,
            final(self).index == old(self).index + 1,
            r == byte_at(final(self).bytes@, final(self).index as int),
    {
        self.index = self.index + 1;
        self.current()
    }

    fn current(&self) -> (r: Option<u8>)
        ensures
            r == byte_at(self.bytes@, self.index as int),
    {
        if self.index < self.bytes.len() {
            Some(self.bytes[self.index])
        } else {
            None
        }
    }
}

} // verus!
