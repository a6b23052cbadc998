//! The parser: one statement from a sequence of tokens, by right-associative
//! precedence climbing.
use vstd::prelude::*;
use vstd::string::StrSliceExecFns;

use crate::diagnostic::Diagnostic;
use crate::expression::{Expression, ExpressionView, FloatTerm, FloatView, Literal, LiteralView};
use crate::lexer::push_char;
use crate::syntax::{Syntax, SyntaxView};
use crate::token::{views, Token, TokenKind, TokenView};

verus! {

/// The kind of the token at `i`, if there is one.
pub open spec fn kind_at(ts: Seq<TokenView>, i: int) -> Option<TokenKind> {
    if 0 <= i < ts.len() {
        Some(ts[i].0)
    } else {
        None
    }
}

/// The rung at which the grammar reads a single operand. Rungs `0` to `9`
/// read binary operators, loosest first.
pub open spec fn primary_rung() -> nat {
    10
}

/// The operators of each rung: `||`; `&&`; `|`; `&` (the rung of `^` reads
/// `&`, so `^` is never read as an operator); `&`; `==` `!=`; `>` `<` `>=`
/// `<=`; `>>` `<<`; `+` `-`; `*` `/` `%` `**`.
pub open spec fn rung_operator(rung: nat, k: TokenKind) -> bool {
    if rung == 0 {
        k == TokenKind::PipePipe
    } else if rung == 1 {
        k == TokenKind::AmpersandAmpersand
    } else if rung == 2 {
        k == TokenKind::Pipe
    } else if rung == 3 || rung == 4 {
        k == TokenKind::Ampersand
    } else if rung == 5 {
        k == TokenKind::AssignAssign || k == TokenKind::ExclamationAssign
    } else if rung == 6 {
        k == TokenKind::GreaterThan || k == TokenKind::LessThan || k == TokenKind::GreaterThanAssign
            || k == TokenKind::LessThanAssign
    } else if rung == 7 {
        k == TokenKind::GreaterThanGreaterThan || k == TokenKind::LessThanLessThan
    } else if rung == 8 {
        k == TokenKind::Plus || k == TokenKind::Minus
    } else if rung == 9 {
        k == TokenKind::Asterisk || k == TokenKind::Slash || k == TokenKind::Modulo || k
            == TokenKind::AsteriskAsterisk
    } else {
        false
    }
}

pub open spec fn is_digit_char(c: char) -> bool {
    '0' <= c <= '9'
}

/// The number that a string of decimal digits denotes.
pub open spec fn digits_value(s: Seq<char>) -> int
    decreases s.len(),
{
    if s.len() == 0 {
        0
    } else {
        digits_value(s.drop_last()) * 10 + (s.last() as int - '0' as int)
    }
}

/// The integer that a decimal literal's text denotes, where it is a non-empty
/// string of digits whose value fits in `usize`.
pub open spec fn decimal_value(s: Seq<char>) -> Option<usize> {
    if s.len() > 0 && (forall|i: int| 0 <= i < s.len() ==> is_digit_char(#[trigger] s[i]))
        && digits_value(s) <= usize::MAX {
        Some(digits_value(s) as usize)
    } else {
        None
    }
}

/// The number of `.` in `s`.
pub open spec fn dots(s: Seq<char>) -> nat
    decreases s.len(),
{
    if s.len() == 0 {
        0
    } else {
        dots(s.drop_last()) + if s.last() == '.' {
            1nat
        } else {
            0nat
        }
    }
}

/// The text of a float literal: digits and exactly one `.`, with at least one
/// digit.
pub open spec fn is_float_text(s: Seq<char>) -> bool {
    (forall|i: int| 0 <= i < s.len() ==> is_digit_char(#[trigger] s[i]) || s[i] == '.') && dots(s)
        == 1 && exists|i: int| 0 <= i < s.len() && is_digit_char(#[trigger] s[i])
}

/// What parsing from position `i` at rung `rung` gives: the expression, if
/// one was read, the position after it, and the diagnostics reported.
pub type Parsed = (Option<ExpressionView>, int, Seq<Diagnostic>);

/// An expression at rung `rung` from position `i`. At each rung the left
/// operand is read at the next rung; if the rung's operator follows, the
/// right operand is read from the top rung, so that operators of one rung
/// group to the right. A missing operand anywhere gives no expression.
pub open spec fn parse_rung(ts: Seq<TokenView>, rung: nat, i: int) -> Parsed
    decreases ts.len() - i, primary_rung() - rung,
{
    if rung >= primary_rung() {
        if !(0 <= i < ts.len()) {
            (None, i, seq![Diagnostic::ExpectedLiteral(None)])
        } else {
            let t = ts[i];
            match t.0 {
                TokenKind::Identifier => (
                    Some(ExpressionView::Literal(LiteralView::Name(t.1), t.2)),
                    i + 1,
                    Seq::empty(),
                ),
                TokenKind::Decimal => match decimal_value(t.1) {
                    Some(n) => (
                        Some(ExpressionView::Literal(LiteralView::Integer(n), t.2)),
                        i + 1,
                        Seq::empty(),
                    ),
                    None => (None, i, seq![Diagnostic::InvalidNumber(t.2)]),
                },
                TokenKind::Float => if is_float_text(t.1) {
                    (
                        Some(
                            ExpressionView::Literal(
                                LiteralView::Float(FloatView::Constant(t.1)),
                                t.2,
                            ),
                        ),
                        i + 1,
                        Seq::empty(),
                    )
                } else {
                    (None, i, seq![Diagnostic::InvalidNumber(t.2)])
                },
                TokenKind::LeftParenthesis => {
                    let (e, j, d) = parse_rung(ts, 0, i + 1);
                    match kind_at(ts, j) {
                        Some(TokenKind::RightParenthesis) => (e, j + 1, d),
                        Some(k) => (
                            e,
                            j,
                            d.push(Diagnostic::ExpectedToken(TokenKind::RightParenthesis, k)),
                        ),
                        None => (e, j, d),
                    }
                },
                k => (None, i, seq![Diagnostic::ExpectedLiteral(Some(k))]),
            }
        }
    } else {
        let (left, j, d) = parse_rung(ts, rung + 1, i);
        match left {
            None => (None, j, d),
            Some(l) => if i <= j < ts.len() && rung_operator(rung, ts[j].0) {
                let (right, m, dr) = parse_rung(ts, 0, j + 1);
                match right {
                    Some(r) => (Some(ExpressionView::Binary(Box::new(l), ts[j], Box::new(r))), m, d + dr),
                    None => (None, m, d + dr),
                }
            } else {
                (Some(l), j, d)
            },
        }
    }
}

/// The commands that a statement may name.
pub open spec fn is_command(name: Seq<char>) -> bool {
    name == seq!['e', 'x', 'i', 't'] || name == seq!['c', 'l', 'e', 'a', 'r'] || name == seq![
        'h',
        'e',
        'l',
        'p',
    ] || name == seq!['l', 'i', 's', 't']
}

/// The keyword of a declaration.
pub open spec fn let_keyword() -> Seq<char> {
    seq!['l', 'e', 't']
}

/// The statement of an expression from `i`; no expression gives `Nop`.
pub open spec fn expression_statement(ts: Seq<TokenView>, i: int) -> (SyntaxView, Seq<Diagnostic>) {
    let (e, _, d) = parse_rung(ts, 0, i);
    match e {
        Some(x) => (SyntaxView::Expression(x), d),
        None => (SyntaxView::Nop, d),
    }
}

/// The position after `i`, not past the end.
pub open spec fn step(ts: Seq<TokenView>, i: int) -> int {
    if i < ts.len() {
        i + 1
    } else {
        i
    }
}

/// The statement `let name = expression` whose keyword stands at `i`. A
/// missing name is empty; a missing `=` is reported and not consumed; no
/// expression gives `Nop`.
pub open spec fn declaration_statement(ts: Seq<TokenView>, i: int) -> (SyntaxView, Seq<Diagnostic>) {
    let name = if kind_at(ts, i + 1) == Some(TokenKind::Identifier) {
        ts[i + 1].1
    } else {
        Seq::empty()
    };
    let j = step(ts, i + 1);
    let (k, de) = match kind_at(ts, j) {
        Some(TokenKind::Assign) => (j + 1, Seq::<Diagnostic>::empty()),
        Some(g) => (j, seq![Diagnostic::ExpectedToken(TokenKind::Assign, g)]),
        None => (j, Seq::<Diagnostic>::empty()),
    };
    let (e, _, d) = parse_rung(ts, 0, k);
    match e {
        Some(x) => (SyntaxView::Variable(name, x), de + d),
        None => (SyntaxView::Nop, de + d),
    }
}

/// The statement that starts at `i`, and the diagnostics reported.
pub open spec fn parse_statement(ts: Seq<TokenView>, i: int) -> (SyntaxView, Seq<Diagnostic>) {
    match kind_at(ts, i) {
        Some(TokenKind::Identifier) => if is_command(ts[i].1) {
            (SyntaxView::Command(ts[i].1), Seq::empty())
        } else if ts[i].1 == let_keyword() {
            declaration_statement(ts, i)
        } else {
            expression_statement(ts, i)
        },
        Some(TokenKind::Decimal) | Some(TokenKind::Float) | Some(TokenKind::LeftParenthesis) => {
            expression_statement(ts, i)
        },
        Some(TokenKind::EndOfLine) | None => (SyntaxView::Nop, Seq::empty()),
        Some(k) => (SyntaxView::Nop, seq![Diagnostic::ExpectedStatement(k)]),
    }
}

proof fn lemma_digits_value_nonnegative(s: Seq<char>)
    requires
        forall|i: int| 0 <= i < s.len() ==> is_digit_char(#[trigger] s[i]),
    ensures
        digits_value(s) >= 0,
    decreases s.len(),
{
    if s.len() > 0 {
        lemma_digits_value_nonnegative(s.drop_last());
    }
}

proof fn lemma_digits_value_prefix(s: Seq<char>, k: int)
    requires
        0 <= k <= s.len(),
        forall|i: int| 0 <= i < s.len() ==> is_digit_char(#[trigger] s[i]),
    ensures
        digits_value(s.subrange(0, k)) <= digits_value(s),
    decreases s.len(),
{
    if k < s.len() {
        let shorter = s.drop_last();
        lemma_digits_value_prefix(shorter, k);
        lemma_digits_value_nonnegative(shorter);
        assert(shorter.subrange(0, k) =~= s.subrange(0, k));
    } else {
        assert(s.subrange(0, k) =~= s);
    }
}

/// The integer that a decimal literal's text denotes.
fn parse_decimal(s: &String) -> (r: Option<usize>)
    ensures
        r == decimal_value(s@),
{
    let text = s.as_str();
    let n = text.unicode_len();
    if n == 0 {
        return None;
    }
    let mut value: usize = 0;
    let mut i: usize = 0;
    while i < n
        invariant
            text@ == s@,
            n == s@.len(),
            i <= n,
            value == digits_value(s@.subrange(0, i as int)),
            forall|j: int| 0 <= j < i ==> is_digit_char(#[trigger] s@[j]),
        decreases n - i,
    {
        let c = text.get_char(i);
        if !('0' <= c && c <= '9') {
            return None;
        }
        proof {
            assert(s@.subrange(0, i + 1).drop_last() =~= s@.subrange(0, i as int));
        }
        let digit = (c as u32 - '0' as u32) as usize;
        let next = match value.checked_mul(10) {
            Some(v) => v.checked_add(digit),
            None => None,
        };
        match next {
            Some(v) => {
                value = v;
                i = i + 1;
            },
            None => {
                proof {
                    if forall|j: int| 0 <= j < s@.len() ==> is_digit_char(#[trigger] s@[j]) {
                        lemma_digits_value_prefix(s@, i + 1);
                    }
                }
                return None;
            },
        }
    }
    proof {
        assert(s@.subrange(0, n as int) =~= s@);
    }
    Some(value)
}

/// Whether a float literal's text is digits and one `.`, with a digit.
fn valid_float_text(s: &String) -> (r: bool)
    ensures
        r == is_float_text(s@),
{
    let text = s.as_str();
    let n = text.unicode_len();
    let mut count: usize = 0;
    let mut digit_seen = false;
    let mut i: usize = 0;
    while i < n
        invariant
            text@ == s@,
            n == s@.len(),
            i <= n,
            count == dots(s@.subrange(0, i as int)),
            count <= i,
            digit_seen == exists|j: int| 0 <= j < i && is_digit_char(#[trigger] s@[j]),
            forall|j: int| 0 <= j < i ==> is_digit_char(#[trigger] s@[j]) || s@[j] == '.',
        decreases n - i,
    {
        let c = text.get_char(i);
        proof {
            assert(s@.subrange(0, i + 1).drop_last() =~= s@.subrange(0, i as int));
        }
        if '0' <= c && c <= '9' {
            digit_seen = true;
        } else if c == '.' {
            count = count + 1;
        } else {
            return false;
        }
        i = i + 1;
    }
    proof {
        assert(s@.subrange(0, n as int) =~= s@);
    }
    count == 1 && digit_seen
}

/// Whether `name` spells `word`.
fn is_word(name: &String, word: &str) -> (r: bool)
    ensures
        r == (name@ == word@),
{
    broadcast use vstd::string::to_string_from_display_ensures_for_str;

    let w = word.to_string();
    *name == w
}

fn is_command_name(name: &String) -> (r: bool)
    ensures
        r == is_command(name@),
{
    proof {
        reveal_strlit("exit");
        reveal_strlit("clear");
        reveal_strlit("help");
        reveal_strlit("list");
        assert("exit"@ =~= seq!['e', 'x', 'i', 't']);
        assert("clear"@ =~= seq!['c', 'l', 'e', 'a', 'r']);
        assert("help"@ =~= seq!['h', 'e', 'l', 'p']);
        assert("list"@ =~= seq!['l', 'i', 's', 't']);
    }
    is_word(name, "exit") || is_word(name, "clear") || is_word(name, "help") || is_word(
        name,
        "list",
    )
}

fn is_let(name: &String) -> (r: bool)
    ensures
        r == (name@ == let_keyword()),
{
    proof {
        reveal_strlit("let");
        assert("let"@ =~= let_keyword());
    }
    is_word(name, "let")
}

fn is_rung_operator(rung: usize, k: TokenKind) -> (r: bool)
    ensures
        r == rung_operator(rung as nat, k),
{
    match rung {
        0 => k == TokenKind::PipePipe,
        1 => k == TokenKind::AmpersandAmpersand,
        2 => k == TokenKind::Pipe,
        3 | 4 => k == TokenKind::Ampersand,
        5 => k == TokenKind::AssignAssign || k == TokenKind::ExclamationAssign,
        6 => k == TokenKind::GreaterThan || k == TokenKind::LessThan || k
            == TokenKind::GreaterThanAssign || k == TokenKind::LessThanAssign,
        7 => k == TokenKind::GreaterThanGreaterThan || k == TokenKind::LessThanLessThan,
        8 => k == TokenKind::Plus || k == TokenKind::Minus,
        9 => k == TokenKind::Asterisk || k == TokenKind::Slash || k == TokenKind::Modulo || k
            == TokenKind::AsteriskAsterisk,
        _ => false,
    }
}

/// Reads one statement from a sequence of tokens.
pub struct Parser {
    tokens: Vec<Token>,
    index: usize,
    diagnostics: Vec<Diagnostic>,
}

impl Parser {
    /// The tokens, as views.
    pub closed spec fn tokens(&self) -> Seq<TokenView> {
        views(self.tokens@)
    }

    /// The position of the next token to read.
    pub closed spec fn position(&self) -> int {
        self.index as int
    }

    /// The diagnostics reported so far.
    pub closed spec fn reported(&self) -> Seq<Diagnostic> {
        self.diagnostics@
    }

    pub closed spec fn wf(&self) -> bool {
        self.index <= self.tokens.len()
    }

    /// A parser at the first of `tokens`.
    pub fn new(tokens: Vec<Token>) -> (r: Parser)
        ensures
            r.wf(),
            r.tokens() == views(tokens@),
            r.position() == 0,
            r.reported() == Seq::<Diagnostic>::empty(),
    {
        Parser { tokens, index: 0, diagnostics: Vec::new() }
    }

    /// The diagnostics reported so far.
    pub fn diagnostics(&self) -> (r: &Vec<Diagnostic>)
        ensures
            r@ == self.reported(),
    {
        &self.diagnostics
    }

    /// The statement at the current position; diagnostics of syntax errors
    /// are added to `reported()`.
    pub fn parse(&mut self) -> (r: Syntax)
        requires
            old(self).wf(),
        ensures
            final(self).wf(),
            final(self).tokens() == old(self).tokens(),
            r@ == parse_statement(old(self).tokens(), old(self).position()).0,
            final(self).reported() == old(self).reported() + parse_statement(
                old(self).tokens(),
                old(self).position(),
            ).1,
    {
        let ghost d0 = self.diagnostics@;
        proof {
            assert(d0 =~= d0 + Seq::<Diagnostic>::empty());
        }
        match self.current_kind() {
            Some(TokenKind::Identifier) => self.parse_name(),
            Some(TokenKind::Decimal) | Some(TokenKind::Float) | Some(TokenKind::LeftParenthesis) => {
                self.parse_expression()
            },
            Some(TokenKind::EndOfLine) | None => Syntax::Nop,
            Some(k) => {
                self.diagnostics.push(Diagnostic::ExpectedStatement(k));
                assert(self.diagnostics@ =~= d0 + seq![Diagnostic::ExpectedStatement(k)]);
                Syntax::Nop
            },
        }
    }

    fn parse_name(&mut self) -> (r: Syntax)
        requires
            old(self).wf(),
            kind_at(old(self).tokens(), old(self).position()) == Some(TokenKind::Identifier),
        ensures
            final(self).wf(),
            final(self).tokens() == old(self).tokens(),
            r@ == parse_statement(old(self).tokens(), old(self).position()).0,
            final(self).diagnostics@ == old(self).diagnostics@ + parse_statement(
                old(self).tokens(),
                old(self).position(),
            ).1,
    {
        let ghost d0 = self.diagnostics@;
        proof {
            assert(d0 =~= d0 + Seq::<Diagnostic>::empty());
        }
        let token = &self.tokens[self.index];
        let (command, declaration, name) = match token {
            Token::Identifier(name, _) => (is_command_name(name), is_let(name), name.clone()),
            _ => (false, false, String::new()),
        };
        if command {
            self.advance();
            Syntax::Command(name)
        } else if declaration {
            self.parse_variable()
        } else {
            self.parse_expression()
        }
    }

    fn parse_variable(&mut self) -> (r: Syntax)
        requires
            old(self).wf(),
            old(self).index < old(self).tokens.len(),
        ensures
            final(self).wf(),
            final(self).tokens() == old(self).tokens(),
            r@ == declaration_statement(old(self).tokens(), old(self).position()).0,
            final(self).diagnostics@ == old(self).diagnostics@ + declaration_statement(
                old(self).tokens(),
                old(self).position(),
            ).1,
    {
        let ghost ts = self.tokens();
        let ghost d0 = self.diagnostics@;
        self.advance();
        let name = match self.current() {
            Some(Token::Identifier(name, _)) => name.clone(),
            _ => String::new(),
        };
        self.advance();
        let ghost d1 = self.diagnostics@;
        self.eat(TokenKind::Assign);
        let ghost de = self.diagnostics@.subrange(d1.len() as int, self.diagnostics@.len() as int);
        proof {
            assert(self.diagnostics@ =~= d0 + de);
        }
        let value = self.parse_rung(0);
        proof {
            let j = step(ts, old(self).index + 1);
            let k = if kind_at(ts, j) == Some(TokenKind::Assign) {
                j + 1
            } else {
                j
            };
            assert(self.diagnostics@ =~= d0 + (de + parse_rung(ts, 0, k).2));
        }
        match value {
            Some(value) => Syntax::Variable(name, value),
            None => Syntax::Nop,
        }
    }

    fn parse_expression(&mut self) -> (r: Syntax)
        requires
            old(self).wf(),
        ensures
            final(self).wf(),
            final(self).tokens() == old(self).tokens(),
            r@ == expression_statement(old(self).tokens(), old(self).position()).0,
            final(self).diagnostics@ == old(self).diagnostics@ + expression_statement(
                old(self).tokens(),
                old(self).position(),
            ).1,
    {
        match self.parse_rung(0) {
            Some(expression) => Syntax::Expression(expression),
            None => Syntax::Nop,
        }
    }

    /// An expression at `rung` (see `parse_rung`).
    fn parse_rung(&mut self, rung: usize) -> (r: Option<Expression>)
        requires
            old(self).wf(),
            rung <= primary_rung(),
        ensures
            final(self).wf(),
            final(self).tokens@ == old(self).tokens@,
            old(self).index <= final(self).index,
            match (r, parse_rung(old(self).tokens(), rung as nat, old(self).index as int)) {
                (Some(e), (Some(v), _, _)) => e@ == v,
                (None, (None, _, _)) => true,
                _ => false,
            },
            final(self).index == parse_rung(old(self).tokens(), rung as nat, old(self).index as int).1,
            final(self).diagnostics@ == old(self).diagnostics@ + parse_rung(
                old(self).tokens(),
                rung as nat,
                old(self).index as int,
            ).2,
        decreases old(self).tokens.len() - old(self).index, primary_rung() + 1 - rung,
    {
        let ghost ts = self.tokens();
        let ghost i = self.index as int;
        let ghost d0 = self.diagnostics@;
        proof {
            assert(d0 =~= d0 + Seq::<Diagnostic>::empty());
        }
        if rung >= 10 {
            return self.parse_literal_expression();
        }
        let left = self.parse_rung(rung + 1);
        let ghost d1 = self.diagnostics@;
        match left {
            None => None,
            Some(left) => {
                match self.current_kind() {
                    Some(k) => {
                        if is_rung_operator(rung, k) {
                            let operator = self.tokens[self.index].duplicate();
                            self.advance();
                            let right = self.parse_rung(0);
                            proof {
                                let j = parse_rung(ts, (rung + 1) as nat, i).1;
                                assert(self.diagnostics@ =~= d0 + (parse_rung(ts, (rung + 1) as nat, i).2
                                    + parse_rung(ts, 0, j + 1).2));
                            }
                            match right {
                                Some(right) => Some(
                                    Expression::Binary(Box::new(left), operator, Box::new(right)),
                                ),
                                None => None,
                            }
                        } else {
                            Some(left)
                        }
                    },
                    None => Some(left),
                }
            },
        }
    }

    /// A single operand: a name, a number, or an expression in parentheses.
    fn parse_literal_expression(&mut self) -> (r: Option<Expression>)
        requires
            old(self).wf(),
        ensures
            final(self).wf(),
            final(self).tokens@ == old(self).tokens@,
            old(self).index <= final(self).index,
            match (r, parse_rung(old(self).tokens(), primary_rung(), old(self).index as int)) {
                (Some(e), (Some(v), _, _)) => e@ == v,
                (None, (None, _, _)) => true,
                _ => false,
            },
            final(self).index == parse_rung(old(self).tokens(), primary_rung(), old(self).index as int).1,
            final(self).diagnostics@ == old(self).diagnostics@ + parse_rung(
                old(self).tokens(),
                primary_rung(),
                old(self).index as int,
            ).2,
        decreases old(self).tokens.len() - old(self).index, 0nat,
    {
        let ghost ts = self.tokens();
        let ghost d0 = self.diagnostics@;
        proof {
            assert(d0 =~= d0 + Seq::<Diagnostic>::empty());
        }
        if self.index >= self.tokens.len() {
            self.diagnostics.push(Diagnostic::ExpectedLiteral(None));
            assert(self.diagnostics@ =~= d0 + seq![Diagnostic::ExpectedLiteral(None)]);
            return None;
        }
        let at = self.index;
        match &self.tokens[at] {
            Token::Identifier(name, offset) => {
                let e = Expression::Literal(Literal::Name(name.clone()), *offset);
                self.advance();
                Some(e)
            },
            Token::Decimal(text, offset) => {
                let offset = *offset;
                match parse_decimal(text) {
                    Some(n) => {
                        self.advance();
                        Some(Expression::Literal(Literal::Integer(n), offset))
                    },
                    None => {
                        self.diagnostics.push(Diagnostic::InvalidNumber(offset));
                        assert(self.diagnostics@ =~= d0 + seq![Diagnostic::InvalidNumber(offset)]);
                        None
                    },
                }
            },
            Token::Float(text, offset) => {
                let offset = *offset;
                if valid_float_text(text) {
                    let constant = FloatTerm::Constant(text.clone());
                    self.advance();
                    Some(Expression::Literal(Literal::Float(constant), offset))
                } else {
                    self.diagnostics.push(Diagnostic::InvalidNumber(offset));
                    assert(self.diagnostics@ =~= d0 + seq![Diagnostic::InvalidNumber(offset)]);
                    None
                }
            },
            Token::LeftParenthesis(_) => {
                self.advance();
                let inner = self.parse_rung(0);
                let ghost d1 = self.diagnostics@;
                self.eat(TokenKind::RightParenthesis);
                proof {
                    assert(d1 == d0 + parse_rung(ts, 0, at + 1).2);
                }
                inner
            },
            other => {
                let k = other.kind();
                self.diagnostics.push(Diagnostic::ExpectedLiteral(Some(k)));
                assert(self.diagnostics@ =~= d0 + seq![Diagnostic::ExpectedLiteral(Some(k))]);
                None
            },
        }
    }

    /// Moves past the current token if it has kind `expected`; otherwise
    /// reports the token found, if any, and stays.
    fn eat(&mut self, expected: TokenKind)
        requires
            old(self).wf(),
        ensures
            final(self).wf(),
            final(self).tokens@ == old(self).tokens@,
            ({
                let ts = old(self).tokens();
                let i = old(self).index as int;
                match kind_at(ts, i) {
                    Some(k) => if k == expected {
                        final(self).index == i + 1 && final(self).diagnostics@
                            == old(self).diagnostics@
                    } else {
                        final(self).index == i && final(self).diagnostics@
                            == old(self).diagnostics@.push(Diagnostic::ExpectedToken(expected, k))
                    },
                    None => final(self).index == i && final(self).diagnostics@
                        == old(self).diagnostics@,
                }
            }),
    {
        match self.current_kind() {
            Some(k) => {
                if k == expected {
                    self.advance();
                } else {
                    self.diagnostics.push(Diagnostic::ExpectedToken(expected, k));
                }
            },
            None => {},
        }
    }

    /// Moves to the next token, not past the end.
    fn advance(&mut self)
        requires
            old(self).wf(),
        ensures
            final(self).wf(),
            final(self).tokens@ == old(self).tokens@,
            final(self).diagnostics@ == old(self).diagnostics@,
            final(self).index == step(old(self).tokens(), old(self).index as int),
    {
        if self.index < self.tokens.len() {
            self.index = self.index + 1;
        }
    }

    fn current(&self) -> (r: Option<&Token>)
        ensures
            match r {
                Some(t) => self.index < self.tokens.len() && t@ == self.tokens()[self.index as int],
                None => self.index >= self.tokens.len(),
            },
    {
        if self.index < self.tokens.len() {
            Some(&self.tokens[self.index])
        } else {
            None
        }
    }

    fn current_kind(&self) -> (r: Option<TokenKind>)
        ensures
            r == kind_at(self.tokens(), self.index as int),
    {
        match self.current() {
            Some(t) => Some(t.kind()),
            None => None,
        }
    }
}

} // verus!
