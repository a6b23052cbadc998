//! Properties of the calculator, proved over the specifications that the
//! lexer, the parser and the evaluator meet.
use vstd::prelude::*;

use crate::diagnostic::Diagnostic;
use crate::environment::{bind, lemma_lookup_bind, lookup, Binding};
use crate::expression::{
    apply,
    eval,
    is_bitwise,
    ExpressionView,
    FloatView,
    LiteralView,
};
use crate::lexer::{is_space, lex_all, lex_next, skip_spaces};
use crate::parser::{decimal_value, kind_at, parse_rung, parse_statement, primary_rung, rung_operator};
use crate::syntax::SyntaxView;
use crate::token::{TokenKind, TokenView};

verus! {

/// The expression `a op b` over two integer literals.
pub open spec fn integer_pair(a: usize, op: TokenView, b: usize) -> ExpressionView {
    ExpressionView::Binary(
        Box::new(ExpressionView::Literal(LiteralView::Integer(a), 0)),
        op,
        Box::new(ExpressionView::Literal(LiteralView::Integer(b), 0)),
    )
}

/// Sum, difference and product of two integers are exact wherever the result
/// is a non-negative integer that fits in `usize`, and the quotient is always
/// the float division of the two integers.
pub proof fn law_integer_arithmetic(a: usize, b: usize, op: TokenView, env: Seq<Binding>)
    ensures
        op.0 == TokenKind::Plus && a + b <= usize::MAX ==> eval(integer_pair(a, op, b), env) == (
            LiteralView::Integer((a + b) as usize),
            Seq::<Diagnostic>::empty(),
        ),
        op.0 == TokenKind::Minus && a >= b ==> eval(integer_pair(a, op, b), env) == (
            LiteralView::Integer((a - b) as usize),
            Seq::<Diagnostic>::empty(),
        ),
        op.0 == TokenKind::Asterisk && a * b <= usize::MAX ==> eval(integer_pair(a, op, b), env)
            == (LiteralView::Integer((a * b) as usize), Seq::<Diagnostic>::empty()),
        op.0 == TokenKind::Slash ==> eval(integer_pair(a, op, b), env) == (
            LiteralView::Float(
                FloatView::Binary(
                    Box::new(FloatView::Integer(a)),
                    TokenKind::Slash,
                    Box::new(FloatView::Integer(b)),
                ),
            ),
            Seq::<Diagnostic>::empty(),
        ),
{
    let none = Seq::<Diagnostic>::empty();
    let left = ExpressionView::Literal(LiteralView::Integer(a), 0);
    let right = ExpressionView::Literal(LiteralView::Integer(b), 0);
    assert(eval(left, env) == (LiteralView::Integer(a), none));
    assert(eval(right, env) == (LiteralView::Integer(b), none));
    assert(none + none + apply(LiteralView::Integer(a), op.0, LiteralView::Integer(b)).1
        =~= apply(LiteralView::Integer(a), op.0, LiteralView::Integer(b)).1);
}

/// The arithmetic operators.
pub open spec fn is_arithmetic(k: TokenKind) -> bool {
    k == TokenKind::Plus || k == TokenKind::Minus || k == TokenKind::Asterisk || k
        == TokenKind::Slash || k == TokenKind::Modulo || k == TokenKind::AsteriskAsterisk
}

/// An arithmetic operator with an integer and a float operand, in either
/// order, gives a float.
pub proof fn law_mixed_operands_give_float(n: usize, f: FloatView, k: TokenKind)
    requires
        is_arithmetic(k),
    ensures
        apply(LiteralView::Integer(n), k, LiteralView::Float(f)).0 is Float,
        apply(LiteralView::Float(f), k, LiteralView::Integer(n)).0 is Float,
        apply(LiteralView::Float(f), k, LiteralView::Float(f)).0 is Float,
{
}

/// After `name` is bound to `v`, evaluating `name` gives `v`, and every other
/// name keeps its value.
pub proof fn law_declared_value(
    env: Seq<Binding>,
    name: Seq<char>,
    v: LiteralView,
    other: Seq<char>,
    at: usize,
)
    ensures
        eval(ExpressionView::Literal(LiteralView::Name(name), at), bind(env, name, v)) == (
            v,
            Seq::<Diagnostic>::empty(),
        ),
        other != name ==> eval(
            ExpressionView::Literal(LiteralView::Name(other), at),
            bind(env, name, v),
        ) == eval(ExpressionView::Literal(LiteralView::Name(other), at), env),
{
    lemma_lookup_bind(env, name, v, other);
}

/// A name that is not bound evaluates to the integer zero, with a diagnostic
/// that gives where it was used.
pub proof fn law_undefined_name(env: Seq<Binding>, name: Seq<char>, at: usize)
    requires
        lookup(env, name) is None,
    ensures
        eval(ExpressionView::Literal(LiteralView::Name(name), at), env) == (
            LiteralView::Integer(0),
            seq![Diagnostic::UndefinedName(at)],
        ),
{
}

/// An integer-only operator with a float operand gives the integer zero and a
/// diagnostic.
pub proof fn law_bitwise_rejects_floats(a: LiteralView, k: TokenKind, b: LiteralView)
    requires
        is_bitwise(k),
        a is Float || b is Float,
    ensures
        apply(a, k, b) == (LiteralView::Integer(0), seq![Diagnostic::NonIntegerOperand(k)]),
{
}

/// A line of whitespace only, or an empty line, gives the end marker alone,
/// no diagnostic, and the statement `Nop` with no diagnostic.
pub proof fn law_blank_line_is_nop(b: Seq<u8>)
    requires
        forall|i: int| 0 <= i < b.len() ==> is_space(#[trigger] b[i]),
    ensures
        lex_all(b, 0) == (
            seq![(TokenKind::EndOfLine, Seq::<char>::empty(), b.len() as usize)],
            Seq::<Diagnostic>::empty(),
        ),
        parse_statement(lex_all(b, 0).0, 0) == (SyntaxView::Nop, Seq::<Diagnostic>::empty()),
{
    lemma_skip_blank(b, 0);
    assert(lex_next(b, 0).0 == (TokenKind::EndOfLine, Seq::<char>::empty(), b.len() as usize));
}

proof fn lemma_skip_blank(b: Seq<u8>, i: int)
    requires
        0 <= i <= b.len(),
        forall|j: int| 0 <= j < b.len() ==> is_space(#[trigger] b[j]),
    ensures
        skip_spaces(b, i) == b.len(),
    decreases b.len() - i,
{
    if i < b.len() {
        lemma_skip_blank(b, i + 1);
    }
}

/// Whether rung `r` reads a token of kind `k`, if there is one, as its
/// operator.
pub open spec fn reads_operator(r: nat, k: Option<TokenKind>) -> bool {
    k matches Some(x) && rung_operator(r, x)
}

/// A token kind that no rung from `low` up to the operands reads as an operator.
pub open spec fn no_operator_from(low: nat, k: Option<TokenKind>) -> bool {
    forall|r: nat| low <= r < primary_rung() ==> !#[trigger] reads_operator(r, k)
}

/// The leaf of an integer literal.
pub open spec fn integer_leaf(n: usize, at: usize) -> ExpressionView {
    ExpressionView::Literal(LiteralView::Integer(n), at)
}

proof fn lemma_operand(ts: Seq<TokenView>, rung: nat, i: int, n: usize)
    requires
        0 <= i < ts.len(),
        rung <= primary_rung(),
        ts[i].0 == TokenKind::Decimal,
        decimal_value(ts[i].1) == Some(n),
        no_operator_from(rung, kind_at(ts, i + 1)),
    ensures
        parse_rung(ts, rung, i) == (
            Some(integer_leaf(n, ts[i].2)),
            i + 1,
            Seq::<Diagnostic>::empty(),
        ),
    decreases primary_rung() - rung,
{
    if rung < primary_rung() {
        lemma_operand(ts, rung + 1, i, n);
        assert(!reads_operator(rung, kind_at(ts, i + 1)));
    }
}

proof fn lemma_lift(ts: Seq<TokenView>, low: nat, high: nat, i: int, e: ExpressionView, j: int)
    requires
        low <= high < primary_rung(),
        0 <= i <= j,
        parse_rung(ts, high, i) == (Some(e), j, Seq::<Diagnostic>::empty()),
        forall|r: nat| low <= r < high ==> !#[trigger] reads_operator(r, kind_at(ts, j)),
    ensures
        parse_rung(ts, low, i) == (Some(e), j, Seq::<Diagnostic>::empty()),
    decreases high - low,
{
    if low < high {
        lemma_lift(ts, low + 1, high, i, e, j);
        assert(!reads_operator(low, kind_at(ts, j)));
        if j < ts.len() {
            assert(kind_at(ts, j) == Some(ts[j].0));
        }
    }
}

/// Two additive operators in a row group to the right: the tokens of
/// `a op b op c` give `a op (b op c)`.
pub proof fn law_additive_chain_groups_right(ts: Seq<TokenView>, a: usize, b: usize, c: usize)
    requires
        ts.len() == 6,
        ts[0].0 == TokenKind::Decimal && decimal_value(ts[0].1) == Some(a),
        ts[2].0 == TokenKind::Decimal && decimal_value(ts[2].1) == Some(b),
        ts[4].0 == TokenKind::Decimal && decimal_value(ts[4].1) == Some(c),
        ts[1].0 == TokenKind::Plus || ts[1].0 == TokenKind::Minus,
        ts[3].0 == TokenKind::Plus || ts[3].0 == TokenKind::Minus,
        ts[5].0 == TokenKind::EndOfLine,
    ensures
        parse_statement(ts, 0) == (
            SyntaxView::Expression(
                ExpressionView::Binary(
                    Box::new(integer_leaf(a, ts[0].2)),
                    ts[1],
                    Box::new(
                        ExpressionView::Binary(
                            Box::new(integer_leaf(b, ts[2].2)),
                            ts[3],
                            Box::new(integer_leaf(c, ts[4].2)),
                        ),
                    ),
                ),
            ),
            Seq::<Diagnostic>::empty(),
        ),
{
    let none = Seq::<Diagnostic>::empty();
    assert(none + none =~= none);
    assert(no_operator_from(0, kind_at(ts, 5)));
    assert(no_operator_from(9, kind_at(ts, 3)));
    assert(no_operator_from(9, kind_at(ts, 1)));
    lemma_operand(ts, 0, 4, c);
    lemma_operand(ts, 9, 2, b);
    let inner = ExpressionView::Binary(
        Box::new(integer_leaf(b, ts[2].2)),
        ts[3],
        Box::new(integer_leaf(c, ts[4].2)),
    );
    assert(parse_rung(ts, 8, 2) == (Some(inner), 5int, none));
    lemma_lift(ts, 0, 8, 2, inner, 5);
    lemma_operand(ts, 9, 0, a);
    let outer = ExpressionView::Binary(Box::new(integer_leaf(a, ts[0].2)), ts[1], Box::new(inner));
    assert(parse_rung(ts, 8, 0) == (Some(outer), 5int, none));
    lemma_lift(ts, 0, 8, 0, outer, 5);
}

} // verus!
