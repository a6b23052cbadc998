use scr::diagnostic::Diagnostic;
use scr::environment::Environment;
use scr::expression::{FloatTerm, Literal};
use scr::lexer::Lexer;
use scr::parser::Parser;
use scr::syntax::Syntax;
use scr::token::{Token, TokenKind};

fn flag(c: bool) -> f64 {
    if c {
        1.0
    } else {
        0.0
    }
}

fn fold(t: &FloatTerm) -> f64 {
    match t {
        FloatTerm::Constant(s) => s.parse().unwrap(),
        FloatTerm::Integer(n) => *n as f64,
        FloatTerm::Binary(l, k, r) => {
            let (a, b) = (fold(l), fold(r));
            match k {
                TokenKind::Plus => a + b,
                TokenKind::Minus => a - b,
                TokenKind::Asterisk => a * b,
                TokenKind::Slash => a / b,
                TokenKind::Modulo => a % b,
                TokenKind::AsteriskAsterisk => a.powf(b),
                TokenKind::GreaterThan => flag(a > b),
                TokenKind::LessThan => flag(a < b),
                TokenKind::GreaterThanAssign => flag(a >= b),
                TokenKind::LessThanAssign => flag(a <= b),
                TokenKind::AssignAssign => flag(a == b),
                TokenKind::ExclamationAssign => flag(a != b),
                TokenKind::AmpersandAmpersand => flag(a > 0.0 && b > 0.0),
                TokenKind::PipePipe => flag(a > 0.0 || b > 0.0),
                _ => panic!("not a float operator"),
            }
        }
    }
}

fn tokens_of(line: &str) -> (Vec<Token>, Vec<Diagnostic>) {
    let mut lexer = Lexer::new(line.to_string());
    let tokens = lexer.tokenize();
    (tokens, lexer.diagnostics().clone())
}

fn shape(t: &Token) -> (TokenKind, String, usize) {
    let text = match t {
        Token::Identifier(s, _) | Token::Decimal(s, _) | Token::Float(s, _) => s.clone(),
        _ => String::new(),
    };
    (t.kind(), text, t.offset())
}

fn statement_of(line: &str) -> (Syntax, Vec<Diagnostic>) {
    let (tokens, mut diagnostics) = tokens_of(line);
    let mut parser = Parser::new(tokens);
    let syntax = parser.parse();
    diagnostics.extend(parser.diagnostics().iter().copied());
    (syntax, diagnostics)
}

/// Runs one line against `env`: evaluates an expression, or binds a declared
/// value. Gives the value and every diagnostic.
fn run(line: &str, env: &mut Environment) -> (Option<Literal>, Vec<Diagnostic>) {
    let (syntax, mut diagnostics) = statement_of(line);
    match syntax {
        Syntax::Expression(e) => {
            let v = e.evaluate(env, &mut diagnostics);
            (Some(v), diagnostics)
        }
        Syntax::Variable(name, e) => {
            let v = e.evaluate(env, &mut diagnostics);
            let shown = v.duplicate();
            env.declare(name, v);
            (Some(shown), diagnostics)
        }
        _ => (None, diagnostics),
    }
}

fn integer(line: &str, env: &mut Environment) -> usize {
    match run(line, env) {
        (Some(Literal::Integer(n)), d) if d.is_empty() => n,
        other => panic!("expected an integer from {line:?}, got {other:?}"),
    }
}

fn float(line: &str, env: &mut Environment) -> f64 {
    match run(line, env) {
        (Some(Literal::Float(t)), d) if d.is_empty() => fold(&t),
        other => panic!("expected a float from {line:?}, got {other:?}"),
    }
}

#[test]
fn tokenize_simple_sum() {
    let (tokens, diagnostics) = tokens_of("1 + 22");
    let shapes: Vec<_> = tokens.iter().map(shape).collect();
    assert_eq!(
        shapes,
        vec![
            (TokenKind::Decimal, "1".to_string(), 0),
            (TokenKind::Plus, String::new(), 2),
            (TokenKind::Decimal, "22".to_string(), 4),
            (TokenKind::EndOfLine, String::new(), 6),
        ]
    );
    assert!(diagnostics.is_empty());
}

#[test]
fn tokenize_identifiers_and_floats() {
    let (tokens, _) = tokens_of("  _ab1 3.25 .5");
    let shapes: Vec<_> = tokens.iter().map(shape).collect();
    assert_eq!(
        shapes,
        vec![
            (TokenKind::Identifier, "_ab1".to_string(), 2),
            (TokenKind::Float, "3.25".to_string(), 7),
            (TokenKind::Float, ".5".to_string(), 12),
            (TokenKind::EndOfLine, String::new(), 14),
        ]
    );
}

#[test]
fn tokenize_two_byte_operators() {
    let (tokens, diagnostics) = tokens_of("** && || == >> << != >= <= * & | = > <");
    let kinds: Vec<_> = tokens.iter().map(|t| t.kind()).collect();
    assert_eq!(
        kinds,
        vec![
            TokenKind::AsteriskAsterisk,
            TokenKind::AmpersandAmpersand,
            TokenKind::PipePipe,
            TokenKind::AssignAssign,
            TokenKind::GreaterThanGreaterThan,
            TokenKind::LessThanLessThan,
            TokenKind::ExclamationAssign,
            TokenKind::GreaterThanAssign,
            TokenKind::LessThanAssign,
            TokenKind::Asterisk,
            TokenKind::Ampersand,
            TokenKind::Pipe,
            TokenKind::Assign,
            TokenKind::GreaterThan,
            TokenKind::LessThan,
            TokenKind::EndOfLine,
        ]
    );
    assert!(diagnostics.is_empty());
}

#[test]
fn tokenize_empty_line() {
    let (tokens, diagnostics) = tokens_of("");
    let shapes: Vec<_> = tokens.iter().map(shape).collect();
    assert_eq!(shapes, vec![(TokenKind::EndOfLine, String::new(), 0)]);
    assert!(diagnostics.is_empty());
}

#[test]
fn tokenize_second_dot_stops_number() {
    let (tokens, diagnostics) = tokens_of("1.2.3");
    let shapes: Vec<_> = tokens.iter().map(shape).collect();
    assert_eq!(
        shapes,
        vec![
            (TokenKind::Decimal, String::new(), 0),
            (TokenKind::Float, ".3".to_string(), 3),
            (TokenKind::EndOfLine, String::new(), 5),
        ]
    );
    assert_eq!(diagnostics, vec![Diagnostic::MalformedNumber(0)]);
}

#[test]
fn tokenize_lone_exclamation_is_skipped() {
    let (tokens, diagnostics) = tokens_of("1 ! 2");
    let kinds: Vec<_> = tokens.iter().map(|t| t.kind()).collect();
    assert_eq!(kinds, vec![TokenKind::Decimal, TokenKind::Decimal, TokenKind::EndOfLine]);
    assert_eq!(diagnostics, vec![Diagnostic::UnsupportedExclamation(2)]);
}

#[test]
fn tokenize_unhandled_character_is_skipped() {
    let (tokens, diagnostics) = tokens_of("1 @ 2");
    let kinds: Vec<_> = tokens.iter().map(|t| t.kind()).collect();
    assert_eq!(kinds, vec![TokenKind::Decimal, TokenKind::Decimal, TokenKind::EndOfLine]);
    assert_eq!(diagnostics, vec![Diagnostic::UnhandledCharacter(b'@', 2)]);
}

#[test]
fn integer_arithmetic_is_exact() {
    let mut env = Environment::new();
    assert_eq!(integer("7 + 5", &mut env), 12);
    assert_eq!(integer("7 - 5", &mut env), 2);
    assert_eq!(integer("7 * 5", &mut env), 35);
    assert_eq!(integer("7 % 5", &mut env), 2);
    assert_eq!(integer("18446744073709551615 + 0", &mut env), usize::MAX);
}

#[test]
fn division_is_true_division() {
    let mut env = Environment::new();
    assert_eq!(float("4 / 2", &mut env), 2.0);
    assert_eq!(float("7 / 2", &mut env), 3.5);
}

#[test]
fn mixed_operands_give_float() {
    let mut env = Environment::new();
    assert_eq!(float("1 + 2.5", &mut env), 3.5);
    assert_eq!(float("2.5 * 2", &mut env), 5.0);
    assert_eq!(float("3 - 0.5", &mut env), 2.5);
    assert_eq!(float("7.5 % 2", &mut env), 1.5);
}

#[test]
fn power_of_integers_and_floats() {
    let mut env = Environment::new();
    assert_eq!(integer("2 ** 10", &mut env), 1024);
    assert_eq!(float("2.0 ** 10", &mut env), 1024.0);
    assert_eq!(integer("0 ** 0", &mut env), 1);
}

#[test]
fn subtraction_groups_to_the_right() {
    let mut env = Environment::new();
    assert_eq!(integer("10 - 3 - 2", &mut env), 9);
}

#[test]
fn parentheses_override_grouping() {
    let mut env = Environment::new();
    assert_eq!(integer("(10 - 3) - 2", &mut env), 5);
}

#[test]
fn right_operand_is_read_from_the_top() {
    let mut env = Environment::new();
    assert_eq!(integer("1 + 2 * 3", &mut env), 7);
    assert_eq!(integer("2 * 3 + 1", &mut env), 8);
}

#[test]
fn declared_variable_is_used_and_redeclared() {
    let mut env = Environment::new();
    assert_eq!(integer("let x = 5", &mut env), 5);
    assert_eq!(integer("x + 1", &mut env), 6);
    assert_eq!(float("let x = 2.5", &mut env), 2.5);
    assert_eq!(float("x", &mut env), 2.5);
    assert_eq!(env.len(), 1);
}

#[test]
fn bindings_keep_declaration_order() {
    let mut env = Environment::new();
    integer("let a = 1", &mut env);
    integer("let b = 2", &mut env);
    integer("let a = 3", &mut env);
    assert_eq!(env.len(), 2);
    assert_eq!(env.name(0), "a");
    assert_eq!(env.name(1), "b");
    assert!(matches!(env.value(0), Literal::Integer(3)));
}

#[test]
fn undefined_name_is_zero() {
    let mut env = Environment::new();
    match run("y", &mut env) {
        (Some(Literal::Integer(0)), d) => assert_eq!(d, vec![Diagnostic::UndefinedName(0)]),
        other => panic!("{other:?}"),
    }
}

#[test]
fn bitwise_with_float_is_zero() {
    let mut env = Environment::new();
    match run("3 & 1.5", &mut env) {
        (Some(Literal::Integer(0)), d) => {
            assert_eq!(d, vec![Diagnostic::NonIntegerOperand(TokenKind::Ampersand)])
        }
        other => panic!("{other:?}"),
    }
}

#[test]
fn bitwise_and_shifts_on_integers() {
    let mut env = Environment::new();
    assert_eq!(integer("6 & 3", &mut env), 2);
    assert_eq!(integer("6 | 3", &mut env), 7);
    assert_eq!(integer("1 << 4", &mut env), 16);
    assert_eq!(integer("256 >> 4", &mut env), 16);
    assert_eq!(integer("1 >> 100", &mut env), 0);
}

#[test]
fn caret_is_not_read_as_an_operator() {
    let mut env = Environment::new();
    assert_eq!(integer("1 ^ 2", &mut env), 1);
}

#[test]
fn blank_lines_are_nop() {
    for line in ["", "   ", "\t \t"] {
        let (syntax, diagnostics) = statement_of(line);
        assert!(matches!(syntax, Syntax::Nop));
        assert!(diagnostics.is_empty());
    }
    let mut env = Environment::new();
    assert!(run("   ", &mut env).0.is_none());
    assert_eq!(env.len(), 0);
}

#[test]
fn equality_follows_operand_types() {
    let mut env = Environment::new();
    assert_eq!(integer("5 == 5", &mut env), 1);
    assert_eq!(float("5.0 == 5", &mut env), 1.0);
    assert_eq!(integer("5 != 6", &mut env), 1);
    assert_eq!(integer("5 != 5", &mut env), 0);
}

#[test]
fn comparisons_and_logic() {
    let mut env = Environment::new();
    assert_eq!(integer("3 > 2", &mut env), 1);
    assert_eq!(integer("3 <= 2", &mut env), 0);
    assert_eq!(integer("1 && 0", &mut env), 0);
    assert_eq!(integer("1 || 0", &mut env), 1);
    assert_eq!(float("0.5 && 2", &mut env), 1.0);
    assert_eq!(float("2.5 < 1", &mut env), 0.0);
}

#[test]
fn out_of_range_results_are_zero() {
    let mut env = Environment::new();
    match run("2 - 3", &mut env) {
        (Some(Literal::Integer(0)), d) => {
            assert_eq!(d, vec![Diagnostic::OutOfRange(TokenKind::Minus)])
        }
        other => panic!("{other:?}"),
    }
    match run("2 ** 64", &mut env) {
        (Some(Literal::Integer(0)), d) => {
            assert_eq!(d, vec![Diagnostic::OutOfRange(TokenKind::AsteriskAsterisk)])
        }
        other => panic!("{other:?}"),
    }
    match run("5 % 0", &mut env) {
        (Some(Literal::Integer(0)), d) => {
            assert_eq!(d, vec![Diagnostic::DivisionByZero(TokenKind::Modulo)])
        }
        other => panic!("{other:?}"),
    }
}

#[test]
fn commands_are_returned() {
    for word in ["exit", "clear", "help", "list"] {
        match statement_of(word) {
            (Syntax::Command(name), d) => {
                assert_eq!(name, word);
                assert!(d.is_empty());
            }
            other => panic!("{other:?}"),
        }
    }
}

#[test]
fn syntax_errors_give_nop() {
    let (syntax, d) = statement_of("+ 1");
    assert!(matches!(syntax, Syntax::Nop));
    assert_eq!(d, vec![Diagnostic::ExpectedStatement(TokenKind::Plus)]);

    let (syntax, d) = statement_of("1 +");
    assert!(matches!(syntax, Syntax::Nop));
    assert_eq!(d, vec![Diagnostic::ExpectedLiteral(Some(TokenKind::EndOfLine))]);

    let (syntax, d) = statement_of("1.2.3");
    assert!(matches!(syntax, Syntax::Nop));
    assert_eq!(d, vec![Diagnostic::MalformedNumber(0), Diagnostic::InvalidNumber(0)]);

    let (syntax, d) = statement_of("99999999999999999999999");
    assert!(matches!(syntax, Syntax::Nop));
    assert_eq!(d, vec![Diagnostic::InvalidNumber(0)]);
}

#[test]
fn missing_tokens_are_reported() {
    let mut env = Environment::new();
    match run("(1 + 2", &mut env) {
        (Some(Literal::Integer(3)), d) => assert_eq!(
            d,
            vec![Diagnostic::ExpectedToken(TokenKind::RightParenthesis, TokenKind::EndOfLine)]
        ),
        other => panic!("{other:?}"),
    }
    match run("let z 4", &mut env) {
        (Some(Literal::Integer(4)), d) => {
            assert_eq!(d, vec![Diagnostic::ExpectedToken(TokenKind::Assign, TokenKind::Decimal)])
        }
        other => panic!("{other:?}"),
    }
    assert_eq!(integer("z", &mut env), 4);
}
