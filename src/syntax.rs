//! Statements: the result of parsing one line.
use vstd::prelude::*;

use crate::expression::{Expression, ExpressionView};

verus! {

/// One statement.
#[derive(Debug)]
pub enum Syntax {
    /// A command keyword (`exit`, `clear`, `help`, `list`) for the caller to
    /// carry out.
    Command(String),
    /// An expression whose value is to be shown.
    Expression(Expression),
    /// `let name = expression`.
    Variable(String, Expression),
    /// Nothing to do.
    Nop,
}

/// The view of a statement.
pub enum SyntaxView {
    Command(Seq<char>),
    Expression(ExpressionView),
    Variable(Seq<char>, ExpressionView),
    Nop,
}

impl View for Syntax {
    type V = SyntaxView;

    open spec fn view(&self) -> SyntaxView {
        match self {
            Syntax::Command(s) => SyntaxView::Command(s@),
            Syntax::Expression(e) => SyntaxView::Expression(e@),
            Syntax::Variable(s, e) => SyntaxView::Variable(s@, e@),
            Syntax::Nop => SyntaxView::Nop,
        }
    }
}

} // verus!
