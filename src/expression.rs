//! Literals, expression trees and their evaluation.
//!
//! Integer results are computed exactly. A float result is kept as a term: a
//! tree of operators over float literals (as written) and integers, which the
//! caller folds in floating-point arithmetic. Which operator applies, and
//! whether the result is an integer or a float, is decided here.
use vstd::prelude::*;

use crate::diagnostic::Diagnostic;
use crate::environment::{lookup, reduced, Binding, Environment};
use crate::token::{Token, TokenKind, TokenView};

verus! {

/// A float value as a term.
#[derive(Debug)]
pub enum FloatTerm {
    /// A float literal as written: digits with one `.`.
    Constant(String),
    /// An integer converted to float.
    Integer(usize),
    /// An operator applied to two float values: arithmetic (`+ - * / % **`)
    /// gives its float result, a comparison gives `1.0` or `0.0`, and `&&`
    /// or `||` gives `1.0` or `0.0` taking a value as true when above zero.
    Binary(Box<FloatTerm>, TokenKind, Box<FloatTerm>),
}

/// The view of a float term.
pub enum FloatView {
    Constant(Seq<char>),
    Integer(usize),
    Binary(Box<FloatView>, TokenKind, Box<FloatView>),
}

impl View for FloatTerm {
    type V = FloatView;

    open spec fn view(&self) -> FloatView
        decreases self,
    {
        match self {
            FloatTerm::Constant(s) => FloatView::Constant(s@),
            FloatTerm::Integer(n) => FloatView::Integer(*n),
            FloatTerm::Binary(l, k, r) => FloatView::Binary(Box::new((**l)@), *k, Box::new((**r)@)),
        }
    }
}

impl FloatTerm {
    /// A copy with the same view.
    pub fn duplicate(&self) -> (r: FloatTerm)
        ensures
            r@ == self@,
        decreases self,
    {
        match self {
            FloatTerm::Constant(s) => FloatTerm::Constant(s.clone()),
            FloatTerm::Integer(n) => FloatTerm::Integer(*n),
            FloatTerm::Binary(l, k, r) => FloatTerm::Binary(
                Box::new(l.duplicate()),
                *k,
                Box::new(r.duplicate()),
            ),
        }
    }
}

/// A value: a name still to be resolved, a non-negative integer, or a float.
#[derive(Debug)]
pub enum Literal {
    Name(String),
    Integer(usize),
    Float(FloatTerm),
}

/// The view of a literal.
pub enum LiteralView {
    Name(Seq<char>),
    Integer(usize),
    Float(FloatView),
}

impl View for Literal {
    type V = LiteralView;

    open spec fn view(&self) -> LiteralView {
        match self {
            Literal::Name(s) => LiteralView::Name(s@),
            Literal::Integer(n) => LiteralView::Integer(*n),
            Literal::Float(t) => LiteralView::Float(t@),
        }
    }
}

impl Literal {
    /// A copy with the same view.
    pub fn duplicate(&self) -> (r: Literal)
        ensures
            r@ == self@,
    {
        match self {
            Literal::Name(s) => Literal::Name(s.clone()),
            Literal::Integer(n) => Literal::Integer(*n),
            Literal::Float(t) => Literal::Float(t.duplicate()),
        }
    }
}

/// An expression tree: an operator applied to two subtrees, or a literal
/// with the offset at which it was written.
#[derive(Debug)]
pub enum Expression {
    Binary(Box<Expression>, Token, Box<Expression>),
    Literal(Literal, usize),
}

/// The view of an expression tree.
pub enum ExpressionView {
    Binary(Box<ExpressionView>, TokenView, Box<ExpressionView>),
    Literal(LiteralView, usize),
}

impl View for Expression {
    type V = ExpressionView;

    open spec fn view(&self) -> ExpressionView
        decreases self,
    {
        match self {
            Expression::Binary(l, t, r) => ExpressionView::Binary(
                Box::new((**l)@),
                t@,
                Box::new((**r)@),
            ),
            Expression::Literal(v, at) => ExpressionView::Literal(v@, *at),
        }
    }
}

/// `base` to the power `exp`.
pub open spec fn power(base: int, exp: nat) -> int
    decreases exp,
{
    if exp == 0 {
        1
    } else {
        base * power(base, (exp - 1) as nat)
    }
}

/// An integer result, or, where it does not fit in `usize`, zero with a
/// diagnostic.
pub open spec fn checked(x: int, k: TokenKind) -> (LiteralView, Seq<Diagnostic>) {
    if 0 <= x <= usize::MAX {
        (LiteralView::Integer(x as usize), Seq::empty())
    } else {
        (LiteralView::Integer(0), seq![Diagnostic::OutOfRange(k)])
    }
}

/// `1` where `c` holds, else `0`.
pub open spec fn flag(c: bool) -> usize {
    if c {
        1
    } else {
        0
    }
}

/// The operators that take integers only.
pub open spec fn is_bitwise(k: TokenKind) -> bool {
    k == TokenKind::Pipe || k == TokenKind::Ampersand || k == TokenKind::Caret || k
        == TokenKind::GreaterThanGreaterThan || k == TokenKind::LessThanLessThan
}

/// The operators that give a float when an operand is a float.
pub open spec fn is_float_operator(k: TokenKind) -> bool {
    k == TokenKind::Plus || k == TokenKind::Minus || k == TokenKind::Asterisk || k
        == TokenKind::Slash || k == TokenKind::Modulo || k == TokenKind::AsteriskAsterisk || k
        == TokenKind::GreaterThan || k == TokenKind::LessThan || k == TokenKind::GreaterThanAssign
        || k == TokenKind::LessThanAssign || k == TokenKind::AssignAssign || k
        == TokenKind::ExclamationAssign || k == TokenKind::AmpersandAmpersand || k
        == TokenKind::PipePipe
}

/// An operator applied to two integers, with its diagnostics.
pub open spec fn apply_integers(a: usize, k: TokenKind, b: usize) -> (
    LiteralView,
    Seq<Diagnostic>,
) {
    let whole = |n: usize| (LiteralView::Integer(n), Seq::<Diagnostic>::empty());
    match k {
        TokenKind::Plus => checked(a + b, k),
        TokenKind::Minus => checked(a - b, k),
        TokenKind::Asterisk => checked(a * b, k),
        TokenKind::AsteriskAsterisk => checked(power(a as int, b as nat), k),
        TokenKind::LessThanLessThan => checked(a * power(2, b as nat), k),
        TokenKind::GreaterThanGreaterThan => whole((a as int / power(2, b as nat)) as usize),
        TokenKind::Modulo => if b == 0 {
            (LiteralView::Integer(0), seq![Diagnostic::DivisionByZero(k)])
        } else {
            whole(a % b)
        },
        TokenKind::Slash => (
            LiteralView::Float(
                FloatView::Binary(
                    Box::new(FloatView::Integer(a)),
                    k,
                    Box::new(FloatView::Integer(b)),
                ),
            ),
            Seq::empty(),
        ),
        TokenKind::Pipe => whole(a | b),
        TokenKind::Ampersand => whole(a & b),
        TokenKind::Caret => whole(a ^ b),
        TokenKind::GreaterThan => whole(flag(a > b)),
        TokenKind::LessThan => whole(flag(a < b)),
        TokenKind::GreaterThanAssign => whole(flag(a >= b)),
        TokenKind::LessThanAssign => whole(flag(a <= b)),
        TokenKind::AssignAssign => whole(flag(a == b)),
        TokenKind::ExclamationAssign => whole(flag(a != b)),
        TokenKind::AmpersandAmpersand => whole(flag(a > 0 && b > 0)),
        TokenKind::PipePipe => whole(flag(a > 0 || b > 0)),
        _ => whole(0),
    }
}

/// A value read as a float.
pub open spec fn as_float(v: LiteralView) -> FloatView {
    match v {
        LiteralView::Integer(n) => FloatView::Integer(n),
        LiteralView::Float(f) => f,
        LiteralView::Name(_) => FloatView::Integer(0),
    }
}

/// An operator applied to two values, with its diagnostics. Two integers give
/// the integer result (`/` gives a float); with a float operand an
/// integer-only operator gives zero and a diagnostic, any other gives a float.
pub open spec fn apply(a: LiteralView, k: TokenKind, b: LiteralView) -> (
    LiteralView,
    Seq<Diagnostic>,
) {
    match (a, b) {
        (LiteralView::Integer(x), LiteralView::Integer(y)) => apply_integers(x, k, y),
        _ => if is_bitwise(k) {
            (LiteralView::Integer(0), seq![Diagnostic::NonIntegerOperand(k)])
        } else if is_float_operator(k) {
            (LiteralView::Float(FloatView::Binary(Box::new(as_float(a)), k, Box::new(as_float(b)))), Seq::empty())
        } else {
            (LiteralView::Integer(0), Seq::empty())
        },
    }
}

/// The value of an expression under the bindings, with the diagnostics of
/// its evaluation in order: an unbound name is zero.
pub open spec fn eval(e: ExpressionView, env: Seq<Binding>) -> (LiteralView, Seq<Diagnostic>)
    decreases e,
{
    match e {
        ExpressionView::Literal(LiteralView::Name(n), at) => match lookup(env, n) {
            Some(v) => (v, Seq::empty()),
            None => (LiteralView::Integer(0), seq![Diagnostic::UndefinedName(at)]),
        },
        ExpressionView::Literal(v, _) => (v, Seq::empty()),
        ExpressionView::Binary(l, op, r) => {
            let (a, da) = eval(*l, env);
            let (b, db) = eval(*r, env);
            let (v, dv) = apply(a, op.0, b);
            (v, da + db + dv)
        },
    }
}

proof fn lemma_power_positive(base: int, exp: nat)
    requires
        base >= 1,
    ensures
        power(base, exp) >= 1,
    decreases exp,
{
    if exp > 0 {
        lemma_power_positive(base, (exp - 1) as nat);
        assert(base * power(base, (exp - 1) as nat) >= 1) by (nonlinear_arith)
            requires
                base >= 1,
                power(base, (exp - 1) as nat) >= 1,
        ;
    }
}

proof fn lemma_power_grows(base: int, small: nat, large: nat)
    requires
        base >= 1,
        small <= large,
    ensures
        power(base, small) <= power(base, large),
    decreases large,
{
    if small < large {
        lemma_power_grows(base, small, (large - 1) as nat);
        lemma_power_positive(base, (large - 1) as nat);
        let p = power(base, (large - 1) as nat);
        assert(p <= base * p) by (nonlinear_arith)
            requires
                base >= 1,
                p >= 1,
        ;
    }
}

proof fn lemma_power_of_small_bases(base: int, exp: nat)
    requires
        base == 0 || base == 1,
    ensures
        power(base, exp) == if base == 0 && exp > 0 {
            0int
        } else {
            1int
        },
    decreases exp,
{
    if exp > 0 {
        lemma_power_of_small_bases(base, (exp - 1) as nat);
    }
}

/// `base` to the power `exp`, where it fits in `usize`.
fn checked_power(base: usize, exp: usize) -> (r: Option<usize>)
    ensures
        r == if power(base as int, exp as nat) <= usize::MAX {
            Some(power(base as int, exp as nat) as usize)
        } else {
            None::<usize>
        },
{
    if base <= 1 {
        proof {
            lemma_power_of_small_bases(base as int, exp as nat);
        }
        return if base == 0 && exp > 0 {
            Some(0)
        } else {
            Some(1)
        };
    }
    proof {
        lemma_power_positive(base as int, exp as nat);
    }
    let mut acc: usize = 1;
    let mut i: usize = 0;
    while i < exp
        invariant
            i <= exp,
            base >= 2,
            acc == power(base as int, i as nat),
        decreases exp - i,
    {
        match acc.checked_mul(base) {
            Some(next) => {
                acc = next;
                i = i + 1;
            },
            None => {
                proof {
                    assert(power(base as int, (i + 1) as nat) == base * power(base as int, i as nat));
                    lemma_power_grows(base as int, (i + 1) as nat, exp as nat);
                }
                return None;
            },
        }
    }
    Some(acc)
}

fn is_bitwise_operator(k: TokenKind) -> (r: bool)
    ensures
        r == is_bitwise(k),
{
    matches!(
        k,
        TokenKind::Pipe | TokenKind::Ampersand | TokenKind::Caret
            | TokenKind::GreaterThanGreaterThan | TokenKind::LessThanLessThan
    )
}

fn is_promoting_operator(k: TokenKind) -> (r: bool)
    ensures
        r == is_float_operator(k),
{
    matches!(
        k,
        TokenKind::Plus | TokenKind::Minus | TokenKind::Asterisk | TokenKind::Slash
            | TokenKind::Modulo | TokenKind::AsteriskAsterisk | TokenKind::GreaterThan
            | TokenKind::LessThan | TokenKind::GreaterThanAssign | TokenKind::LessThanAssign
            | TokenKind::AssignAssign | TokenKind::ExclamationAssign
            | TokenKind::AmpersandAmpersand | TokenKind::PipePipe
    )
}

fn bool_flag(c: bool) -> (r: usize)
    ensures
        r == flag(c),
{
    if c {
        1
    } else {
        0
    }
}

/// The integer in `r`, or zero with an out-of-range diagnostic where there is
/// none; `r` holds `x` exactly when `x` fits.
fn checked_literal(
    r: Option<usize>,
    k: TokenKind,
    Ghost(x): Ghost<int>,
    diagnostics: &mut Vec<Diagnostic>,
) -> (v: Literal)
    requires
        r == if 0 <= x <= usize::MAX {
            Some(x as usize)
        } else {
            None::<usize>
        },
    ensures
        v@ == checked(x, k).0,
        final(diagnostics)@ == old(diagnostics)@ + checked(x, k).1,
{
    match r {
        Some(n) => {
            assert(diagnostics@ =~= diagnostics@ + Seq::<Diagnostic>::empty());
            Literal::Integer(n)
        },
        None => {
            diagnostics.push(Diagnostic::OutOfRange(k));
            assert(diagnostics@ =~= old(diagnostics)@ + seq![Diagnostic::OutOfRange(k)]);
            Literal::Integer(0)
        },
    }
}

/// An operator applied to two integers.
fn apply_to_integers(a: usize, k: TokenKind, b: usize, diagnostics: &mut Vec<Diagnostic>) -> (v:
    Literal)
    ensures
        v@ == apply_integers(a, k, b).0,
        final(diagnostics)@ == old(diagnostics)@ + apply_integers(a, k, b).1,
{
    let ghost d0 = diagnostics@;
    proof {
        assert(d0 =~= d0 + Seq::<Diagnostic>::empty());
    }
    match k {
        TokenKind::Plus => checked_literal(
            a.checked_add(b),
            k,
            Ghost(a as int + b as int),
            diagnostics,
        ),
        TokenKind::Minus => checked_literal(a.checked_sub(b), k, Ghost(a as int - b as int), diagnostics),
        TokenKind::Asterisk => checked_literal(a.checked_mul(b), k, Ghost(a as int * b as int), diagnostics),
        TokenKind::AsteriskAsterisk => {
            proof {
                if a == 0 {
                    lemma_power_of_small_bases(0, b as nat);
                } else {
                    lemma_power_positive(a as int, b as nat);
                }
            }
            checked_literal(checked_power(a, b), k, Ghost(power(a as int, b as nat)), diagnostics)
        },
        TokenKind::LessThanLessThan => {
            let ghost x = a * power(2, b as nat);
            proof {
                lemma_power_positive(2, b as nat);
            }
            if a == 0 {
                assert(x == 0) by (nonlinear_arith)
                    requires
                        x == a * power(2, b as nat),
                        a == 0,
                ;
                checked_literal(Some(0), k, Ghost(x), diagnostics)
            } else {
                match checked_power(2, b) {
                    Some(p) => {
                        proof {
                            assert(a * p >= 0) by (nonlinear_arith)
                                requires
                                    a >= 0,
                                    p >= 0,
                            ;
                        }
                        checked_literal(a.checked_mul(p), k, Ghost(x), diagnostics)
                    },
                    None => {
                        proof {
                            let q = power(2, b as nat);
                            assert(a * q >= q) by (nonlinear_arith)
                                requires
                                    a >= 1,
                                    q >= 0,
                            ;
                        }
                        checked_literal(None, k, Ghost(x), diagnostics)
                    },
                }
            }
        },
        TokenKind::GreaterThanGreaterThan => {
            proof {
                lemma_power_positive(2, b as nat);
            }
            match checked_power(2, b) {
                Some(p) => Literal::Integer(a / p),
                None => {
                    proof {
                        let q = power(2, b as nat);
                        assert(a as int / q == 0) by (nonlinear_arith)
                            requires
                                0 <= a < q,
                        ;
                    }
                    Literal::Integer(0)
                },
            }
        },
        TokenKind::Modulo => {
            if b == 0 {
                diagnostics.push(Diagnostic::DivisionByZero(k));
                assert(diagnostics@ =~= d0 + seq![Diagnostic::DivisionByZero(k)]);
                Literal::Integer(0)
            } else {
                Literal::Integer(a % b)
            }
        },
        TokenKind::Slash => {
            let numerator = FloatTerm::Integer(a);
            let denominator = FloatTerm::Integer(b);
            assert(numerator@ == FloatView::Integer(a) && denominator@ == FloatView::Integer(b));
            Literal::Float(FloatTerm::Binary(Box::new(numerator), k, Box::new(denominator)))
        },
        TokenKind::Pipe => Literal::Integer(a | b),
        TokenKind::Ampersand => Literal::Integer(a & b),
        TokenKind::Caret => Literal::Integer(a ^ b),
        TokenKind::GreaterThan => Literal::Integer(bool_flag(a > b)),
        TokenKind::LessThan => Literal::Integer(bool_flag(a < b)),
        TokenKind::GreaterThanAssign => Literal::Integer(bool_flag(a >= b)),
        TokenKind::LessThanAssign => Literal::Integer(bool_flag(a <= b)),
        TokenKind::AssignAssign => Literal::Integer(bool_flag(a == b)),
        TokenKind::ExclamationAssign => Literal::Integer(bool_flag(a != b)),
        TokenKind::AmpersandAmpersand => Literal::Integer(bool_flag(a > 0 && b > 0)),
        TokenKind::PipePipe => Literal::Integer(bool_flag(a > 0 || b > 0)),
        _ => Literal::Integer(0),
    }
}

/// A value read as a float term.
fn into_float(v: Literal) -> (r: FloatTerm)
    ensures
        r@ == as_float(v@),
{
    match v {
        Literal::Integer(n) => FloatTerm::Integer(n),
        Literal::Float(t) => t,
        Literal::Name(_) => FloatTerm::Integer(0),
    }
}

/// An operator applied to two values.
pub fn apply_operator(
    left: Literal,
    operator: TokenKind,
    right: Literal,
    diagnostics: &mut Vec<Diagnostic>,
) -> (r: Literal)
    ensures
        r@ == apply(left@, operator, right@).0,
        final(diagnostics)@ == old(diagnostics)@ + apply(left@, operator, right@).1,
{
    let ghost d0 = diagnostics@;
    proof {
        assert(d0 =~= d0 + Seq::<Diagnostic>::empty());
    }
    match (left, right) {
        (Literal::Integer(a), Literal::Integer(b)) => apply_to_integers(a, operator, b, diagnostics),
        (a, b) => {
            if is_bitwise_operator(operator) {
                diagnostics.push(Diagnostic::NonIntegerOperand(operator));
                assert(diagnostics@ =~= d0 + seq![Diagnostic::NonIntegerOperand(operator)]);
                Literal::Integer(0)
            } else if is_promoting_operator(operator) {
                Literal::Float(
                    FloatTerm::Binary(Box::new(into_float(a)), operator, Box::new(into_float(b))),
                )
            } else {
                Literal::Integer(0)
            }
        },
    }
}

impl Expression {
    /// The value of this expression under the bindings of `variables`;
    /// diagnostics of the evaluation are added to `diagnostics`.
    pub fn evaluate(&self, variables: &Environment, diagnostics: &mut Vec<Diagnostic>) -> (r:
        Literal)
        ensures
            r@ == eval(self@, variables.bindings()).0,
            final(diagnostics)@ == old(diagnostics)@ + eval(self@, variables.bindings()).1,
        decreases self,
    {
        let ghost d0 = diagnostics@;
        proof {
            assert(d0 =~= d0 + Seq::<Diagnostic>::empty());
        }
        match self {
            Expression::Binary(l, operator, r) => {
                let a = l.evaluate(variables, diagnostics);
                let b = r.evaluate(variables, diagnostics);
                let v = apply_operator(a, operator.kind(), b, diagnostics);
                proof {
                    let da = eval((**l)@, variables.bindings()).1;
                    let db = eval((**r)@, variables.bindings()).1;
                    let dv = apply(a@, operator@.0, b@).1;
                    assert(diagnostics@ =~= d0 + (da + db + dv));
                }
                v
            },
            Expression::Literal(Literal::Name(name), at) => match variables.get(name) {
                Some(v) => v.duplicate(),
                None => {
                    diagnostics.push(Diagnostic::UndefinedName(*at));
                    assert(diagnostics@ =~= d0 + seq![Diagnostic::UndefinedName(*at)]);
                    Literal::Integer(0)
                },
            },
            Expression::Literal(v, _) => v.duplicate(),
        }
    }
}

/// Evaluation under reduced bindings gives a reduced value.
pub proof fn lemma_eval_reduced(e: ExpressionView, env: Seq<Binding>)
    requires
        forall|i: int| 0 <= i < env.len() ==> reduced(#[trigger] env[i].1),
    ensures
        reduced(eval(e, env).0),
    decreases e,
{
    match e {
        ExpressionView::Literal(LiteralView::Name(n), _) => {
            lemma_lookup_reduced(env, n);
        },
        _ => {},
    }
}

proof fn lemma_lookup_reduced(env: Seq<Binding>, name: Seq<char>)
    requires
        forall|i: int| 0 <= i < env.len() ==> reduced(#[trigger] env[i].1),
    ensures
        lookup(env, name) matches Some(v) ==> reduced(v),
    decreases env.len(),
{
    if env.len() > 0 && env[0].0 != name {
        let rest = env.subrange(1, env.len() as int);
        assert forall|i: int| 0 <= i < rest.len() implies reduced(#[trigger] rest[i].1) by {
            assert(rest[i] == env[i + 1]);
        }
        lemma_lookup_reduced(rest, name);
    }
}

} // verus!
