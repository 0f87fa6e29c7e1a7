//! Direct exercises of the library's pieces: the lexer, the parser's
//! helpers, the environment, and the builtins called as plain functions.
use lockjaw::{
    add, car, Atom, Environment, Expression, Lexeme, LexemeType, Lexer, Numeric, Parser, Value,
};

#[test]
fn lexer_hands_out_tokens_in_order() {
    let mut lexer = Lexer::new("(+ 12 2.5) ; trailing commentary");
    let mut kinds = Vec::new();
    while let Some(item) = lexer.next() {
        kinds.push(item.unwrap().value);
    }
    assert_eq!(
        kinds,
        vec![
            LexemeType::LeftParen,
            LexemeType::RawSymbol(vec!['+']),
            LexemeType::Integer(vec!['1', '2']),
            LexemeType::Float(vec!['2', '.', '5']),
            LexemeType::RightParen,
        ]
    );
}

#[test]
fn lexer_reports_token_offsets() {
    let mut lexer = Lexer::new("  car {}");
    let first = lexer.next().unwrap().unwrap();
    assert_eq!(first.index, 2);
    let second = lexer.next().unwrap().unwrap();
    assert_eq!(second.index, 6);
}

fn lex_all(text: &str) -> Vec<Lexeme> {
    let mut lexer = Lexer::new(text);
    let mut out = Vec::new();
    while let Some(item) = lexer.next() {
        out.push(item.unwrap());
    }
    out
}

#[test]
fn parse_reads_one_expression() {
    let lexemes = lex_all("(+ 1) 7");
    let expr = Parser::parse(lexemes.as_slice()).unwrap();
    assert_eq!(
        expr,
        Expression::SExpression(vec![
            Expression::Atom(Atom::Symbol(String::from("+"))),
            Expression::Atom(Atom::Number(Numeric::Int(1))),
        ])
    );
    assert_eq!(Parser::lexeme_len(&expr), 4);
}

#[test]
fn parse_root_wraps_the_whole_program() {
    let lexemes = lex_all("1 {2}");
    let expr = Parser::parse_root(lexemes.as_slice()).unwrap();
    assert_eq!(
        expr,
        Expression::SExpression(vec![
            Expression::Atom(Atom::Number(Numeric::Int(1))),
            Expression::QExpression(vec![Expression::Atom(Atom::Number(Numeric::Int(2)))]),
        ])
    );
}

#[test]
fn parse_string_literal_decodes_escapes() {
    let decoded = Parser::parse_string_literal("a\\nb\\\\c").unwrap();
    assert_eq!(decoded, "a\nb\\c");
}

#[test]
fn environment_prefers_the_top_scope_then_the_global() {
    let mut env = Environment::new();
    env.def(String::from("x"), Value::Builtin(lockjaw::BuiltinOp::Add));
    env.push_env();
    env.put(String::from("x"), Value::Builtin(lockjaw::BuiltinOp::Mul));
    env.push_env();
    // The middle frame is skipped: the top frame is empty, so the global
    // binding answers.
    assert!(matches!(
        env.get(String::from("x")),
        Some(Value::Builtin(lockjaw::BuiltinOp::Add))
    ));
    env.pop_env();
    assert!(matches!(
        env.get(String::from("x")),
        Some(Value::Builtin(lockjaw::BuiltinOp::Mul))
    ));
    env.pop_env();
    assert!(matches!(
        env.get(String::from("x")),
        Some(Value::Builtin(lockjaw::BuiltinOp::Add))
    ));
    // The global frame is never popped.
    assert!(env.pop_env().is_none());
    assert!(env.get(String::from("x")).is_some());
}

#[test]
fn builtins_work_as_plain_functions() {
    let r = add(vec![
        Expression::Atom(Atom::Number(Numeric::Int(20))),
        Expression::Atom(Atom::Number(Numeric::Int(22))),
    ]);
    assert_eq!(r.unwrap(), Expression::Atom(Atom::Number(Numeric::Int(42))));

    let r = car(vec![Expression::QExpression(vec![
        Expression::Atom(Atom::Bool(true)),
        Expression::Atom(Atom::Bool(false)),
    ])]);
    assert_eq!(r.unwrap(), Expression::Atom(Atom::Bool(true)));
}
