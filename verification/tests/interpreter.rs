//! End-to-end runs of the interpreter: parse each command, evaluate it
//! against one environment, and compare the last result.
use lockjaw::{Atom, Evaluator, Expression, LockjawRuntimeError, Numeric, Parser, Value};

fn run_program(commands: Vec<&str>) -> Result<Expression, LockjawRuntimeError> {
    let mut environment = Evaluator::new();
    let mut result: Result<Expression, LockjawRuntimeError> =
        Ok(Expression::SExpression(Vec::new()));
    for command in commands {
        let parse = Parser::parse_from_text(command).unwrap();
        result = environment.evaluate(parse);
        if result.is_err() {
            return result;
        }
    }
    result
}

fn assert_program_output(commands: Vec<&str>, expected_output: Expression) {
    assert_eq!(expected_output, run_program(commands).unwrap());
}

#[test]
fn plus_adds() {
    assert_program_output(
        vec!["+ 3 4"],
        Expression::Atom(Atom::Number(Numeric::Int(7))),
    );
}

#[test]
fn plus_adds_variables() {
    assert_program_output(
        vec!["def {x} 3", "+ x 4"],
        Expression::Atom(Atom::Number(Numeric::Int(7))),
    );
}

#[test]
fn minus_subtracts() {
    assert_program_output(
        vec!["- 3 1 1 1"],
        Expression::Atom(Atom::Number(Numeric::Int(0))),
    );
}

#[test]
fn minus_negates() {
    assert_program_output(
        vec!["- 1"],
        Expression::Atom(Atom::Number(Numeric::Int(-1))),
    );
}

#[test]
fn math_operations_upcast_to_float() {
    assert_program_output(
        vec!["+ 1 2.4"],
        Expression::Atom(Atom::Number(Numeric::Float((3.4f64).to_bits()))),
    );

    assert_program_output(
        vec!["- 1 2.4"],
        Expression::Atom(Atom::Number(Numeric::Float((-1.4f64).to_bits()))),
    );

    assert_program_output(
        vec!["* 1 2.4"],
        Expression::Atom(Atom::Number(Numeric::Float((2.4f64).to_bits()))),
    );

    assert_program_output(
        vec!["/ 1 2"],
        Expression::Atom(Atom::Number(Numeric::Float((0.5f64).to_bits()))),
    );
}

#[test]
fn quote_handles_valid_expressions() {
    assert_program_output(
        vec!["quote 1 2 4 2 + - * \\ / dsfgsd &"],
        Expression::QExpression(vec![
            Expression::Atom(Atom::Number(Numeric::Int(1))),
            Expression::Atom(Atom::Number(Numeric::Int(2))),
            Expression::Atom(Atom::Number(Numeric::Int(4))),
            Expression::Atom(Atom::Number(Numeric::Int(2))),
            Expression::Atom(Atom::Symbol(String::from("+"))),
            Expression::Atom(Atom::Symbol(String::from("-"))),
            Expression::Atom(Atom::Symbol(String::from("*"))),
            Expression::Atom(Atom::Symbol(String::from("\\"))),
            Expression::Atom(Atom::Symbol(String::from("/"))),
            Expression::Atom(Atom::Symbol(String::from("dsfgsd"))),
            Expression::Atom(Atom::Symbol(String::from("&"))),
        ]),
    );
}

#[test]
fn curly_brackets_quote() {
    assert_program_output(
        vec!["eval {+ 1 2 3}"],
        Expression::Atom(Atom::Number(Numeric::Int(6))),
    );
}

#[test]
fn car_gets_front_element_of_qexpr() {
    assert_program_output(
        vec!["car {+ 1 2 3}"],
        Expression::Atom(Atom::Symbol(String::from("+"))),
    );
}

#[test]
fn cdr_gets_tail_of_qexpr() {
    assert_program_output(
        vec!["cdr {+ 1 }"],
        Expression::QExpression(vec![Expression::Atom(Atom::Number(Numeric::Int(1)))]),
    );
}

#[test]
fn join_combines_qexprs() {
    assert_program_output(
        vec!["eval (join {+} {1 2 3})"],
        Expression::Atom(Atom::Number(Numeric::Int(6))),
    );
}

#[test]
fn def_defines() {
    let commands = vec!["def {x} 3", "x"];
    assert_program_output(commands, Expression::Atom(Atom::Number(Numeric::Int(3))));
}

#[test]
fn functions_define_properly() {
    assert_program_output(
        vec!["def {inc} (fun {x} {+ x 1})", "inc 3"],
        Expression::Atom(Atom::Number(Numeric::Int(4))),
    );
}

#[test]
fn functions_can_call_functions() {
    assert_program_output(
        vec!["def {square} (fun {x} {* x x})", "square 4"],
        Expression::Atom(Atom::Number(Numeric::Int(16))),
    )
}

#[test]
fn unbound_curried_functions_evaluate() {
    assert_program_output(
        vec!["def {two_args} (fun {x y} {* y x})", "(two_args 2) 2"],
        Expression::Atom(Atom::Number(Numeric::Int(4))),
    )
}

#[test]
fn can_recurse_using_cond() {
    assert_program_output(
        vec![
            "def {lat?}
			(fun {l}
				{cond
					{(null? l) #t}
					{(atom? (car l)) (lat? (cdr l))}
					{else #f}})",
            "lat? {1 2 3 4 5 6 7 8 9 0}",
        ],
        Expression::Atom(Atom::Bool(true)),
    )
}

#[test]
fn boolean_expressions_confirm() {
    assert_program_output(vec!["and? #t #t"], Expression::Atom(Atom::Bool(true)));
    assert_program_output(vec!["and? #t #f"], Expression::Atom(Atom::Bool(false)));
    assert_program_output(vec!["and? #f #t"], Expression::Atom(Atom::Bool(false)));
    assert_program_output(vec!["and? #f #f"], Expression::Atom(Atom::Bool(false)));
    assert_program_output(vec!["or? #t #t"], Expression::Atom(Atom::Bool(true)));
    assert_program_output(vec!["or? #t #f"], Expression::Atom(Atom::Bool(true)));
    assert_program_output(vec!["or? #f #t"], Expression::Atom(Atom::Bool(true)));
    assert_program_output(vec!["or? #f #f"], Expression::Atom(Atom::Bool(false)));
    assert_program_output(vec!["xor? #t #t"], Expression::Atom(Atom::Bool(false)));
    assert_program_output(vec!["xor? #t #f"], Expression::Atom(Atom::Bool(true)));
    assert_program_output(vec!["xor? #f #t"], Expression::Atom(Atom::Bool(true)));
    assert_program_output(vec!["xor? #f #f"], Expression::Atom(Atom::Bool(false)));
}

#[test]
fn weird_string_literals_pass() {
    assert_program_output(
        vec!["\"!@#$%^&*()_+<>,.;':\\\"\\n\\t\\r`~😇👩👩👧👦🌓🌑🏳️⚧️\""],
        Expression::Atom(Atom::String(String::from(
            "!@#$%^&*()_+<>,.;':\"\n\t\r`~😇👩👩👧👦🌓🌑🏳️⚧️",
        ))),
    )
}

// ---------------------------------------------------------------------------
// Comparisons and predicates
// ---------------------------------------------------------------------------
#[test]
fn comparisons_widen_numbers() {
    assert_program_output(vec!["eq? 1 1.0"], Expression::Atom(Atom::Bool(true)));
    assert_program_output(vec!["eq? 1 2"], Expression::Atom(Atom::Bool(false)));
    assert_program_output(vec!["gt? 2 1"], Expression::Atom(Atom::Bool(true)));
    assert_program_output(vec!["gt? 1.5 2"], Expression::Atom(Atom::Bool(false)));
    assert_program_output(vec!["lt? 1.5 2.5"], Expression::Atom(Atom::Bool(true)));
    assert_program_output(vec!["lt? 3 2.5"], Expression::Atom(Atom::Bool(false)));
    assert_program_output(vec!["zero? 0.0"], Expression::Atom(Atom::Bool(true)));
    assert_program_output(vec!["zero? 0"], Expression::Atom(Atom::Bool(true)));
    assert_program_output(vec!["zero? 1"], Expression::Atom(Atom::Bool(false)));
}

#[test]
fn float_negation_flips_sign() {
    assert_program_output(
        vec!["- 1.5"],
        Expression::Atom(Atom::Number(Numeric::Float((-1.5f64).to_bits()))),
    );
    assert_program_output(
        vec!["+ 0 2.5"],
        Expression::Atom(Atom::Number(Numeric::Float((2.5f64).to_bits()))),
    );
}

#[test]
fn empty_lists_and_predicates() {
    assert_program_output(vec!["car {}"], Expression::QExpression(Vec::new()));
    assert_program_output(vec!["cdr {}"], Expression::QExpression(Vec::new()));
    assert_program_output(vec!["null? {}"], Expression::Atom(Atom::Bool(true)));
    assert_program_output(vec!["null? {1}"], Expression::Atom(Atom::Bool(false)));
    assert_program_output(vec!["null? 1"], Expression::Atom(Atom::Bool(false)));
    assert_program_output(vec!["atom? 1"], Expression::Atom(Atom::Bool(true)));
    assert_program_output(vec!["atom? {1}"], Expression::Atom(Atom::Bool(false)));
    assert_program_output(vec!["()"], Expression::Null);
}

// ---------------------------------------------------------------------------
// Shadowing and currying
// ---------------------------------------------------------------------------
#[test]
fn local_binding_shadows_global() {
    assert_program_output(
        vec!["def {x} 3", "def {f} (fun {x} {* x 10})", "f 5"],
        Expression::Atom(Atom::Number(Numeric::Int(50))),
    );
    assert_program_output(
        vec!["def {x} 3", "def {f} (fun {x} {* x 10})", "f 5", "x"],
        Expression::Atom(Atom::Number(Numeric::Int(3))),
    );
}

#[test]
fn partial_application_associates() {
    let program = "def {g} (fun {x y z} {+ x (+ y z)})";
    assert_program_output(
        vec![program, "((g 1) 2) 3"],
        Expression::Atom(Atom::Number(Numeric::Int(6))),
    );
    assert_program_output(
        vec![program, "(g 1 2) 3"],
        Expression::Atom(Atom::Number(Numeric::Int(6))),
    );
    assert_program_output(
        vec![program, "g 1 2 3"],
        Expression::Atom(Atom::Number(Numeric::Int(6))),
    );
}

#[test]
fn over_application_is_an_arity_error() {
    let r = run_program(vec!["def {inc} (fun {x} {+ x 1})", "inc 1 2"]);
    assert!(matches!(
        r,
        Err(LockjawRuntimeError::InvalidArgumentCount(_))
    ));
}

// ---------------------------------------------------------------------------
// Errors
// ---------------------------------------------------------------------------
#[test]
fn unbound_symbols_error() {
    let r = run_program(vec!["nosuchthing"]);
    assert!(matches!(r, Err(LockjawRuntimeError::UnboundExpression)));
}

#[test]
fn adding_non_numbers_errors() {
    let r = run_program(vec!["+ 1 #t"]);
    assert!(matches!(r, Err(LockjawRuntimeError::InvalidArguments(_))));
}

#[test]
fn car_wants_one_argument() {
    let r = run_program(vec!["car {1} {2}"]);
    assert!(matches!(
        r,
        Err(LockjawRuntimeError::InvalidArgumentCount(_))
    ));
}

#[test]
fn applying_a_number_errors() {
    let r = run_program(vec!["1 2"]);
    assert!(matches!(r, Err(LockjawRuntimeError::InvalidFunction(_))));
}

#[test]
fn cond_without_a_match_fails() {
    let r = run_program(vec!["cond {#f 1}"]);
    assert!(matches!(r, Err(LockjawRuntimeError::CondFailure)));
}

#[test]
fn loading_a_missing_file_errors() {
    let r = run_program(vec!["load \"nosuchfile.lj\""]);
    assert!(matches!(r, Err(LockjawRuntimeError::FileError(_))));
}

#[test]
fn integer_literals_must_fit() {
    let r = Parser::parse_from_text("99999999999999999999999");
    assert!(matches!(
        r,
        Err(lockjaw::ParsingError::IntParseFailure)
    ));
}

#[test]
fn missing_closers_are_eof_errors() {
    let r = Parser::parse_from_text("(+ 1");
    assert!(matches!(r, Err(lockjaw::ParsingError::UnexpectedEof)));
}

#[test]
fn unknown_escapes_are_rejected() {
    let r = Parser::parse_from_text("\"a\\qb\"");
    assert!(matches!(
        r,
        Err(lockjaw::ParsingError::InvalidStringLiteral { code: 'q' })
    ));
}

#[test]
fn stray_characters_fail_lexing() {
    let r = Parser::parse_from_text("+ 1 %");
    assert!(matches!(r, Err(lockjaw::ParsingError::LexingError(_))));
}

#[test]
fn runaway_recursion_hits_the_budget() {
    let r = run_program(vec!["def {spin} (fun {x} {spin x})", "spin 1"]);
    assert!(matches!(r, Err(LockjawRuntimeError::RecursionLimit)));
}

// ---------------------------------------------------------------------------
// Loading provided files
// ---------------------------------------------------------------------------
#[test]
fn load_runs_a_provided_file() {
    let mut environment = Evaluator::new();
    environment.provide_file(
        String::from("defs.lj"),
        String::from("(def {x} 3)\n(def {y} 4)"),
    );
    let parse = Parser::parse_from_text("load \"defs.lj\"").unwrap();
    assert_eq!(Expression::Null, environment.evaluate(parse).unwrap());
    let parse = Parser::parse_from_text("+ x y").unwrap();
    assert_eq!(
        Expression::Atom(Atom::Number(Numeric::Int(7))),
        environment.evaluate(parse).unwrap()
    );
}

// ---------------------------------------------------------------------------
// Comments and the data model
// ---------------------------------------------------------------------------
#[test]
fn comments_are_skipped() {
    assert_program_output(
        vec!["+ 1 2 ; the rest is commentary + 4 5"],
        Expression::Atom(Atom::Number(Numeric::Int(3))),
    );
}

#[test]
fn fun_builds_a_value() {
    let r = run_program(vec!["fun {x} {+ x 1}"]).unwrap();
    assert!(matches!(
        r,
        Expression::Atom(Atom::Value(Value::UserDef(_)))
    ));
}

#[test]
fn rendering_matches_the_layout() {
    let r = run_program(vec!["quote 1 2"]).unwrap();
    assert_eq!("{ Number: 1 Number: 2 }", r.to_text());
    let r = run_program(vec!["+ 1 2"]).unwrap();
    assert_eq!("Number: 3", r.to_text());
    let r = run_program(vec!["- 5"]).unwrap();
    assert_eq!("Number: -5", r.to_text());
    let r = run_program(vec!["car {abc}"]).unwrap();
    assert_eq!("Symbol: abc", r.to_text());
    let r = run_program(vec!["()"]).unwrap();
    assert_eq!("()", r.to_text());
    let r = run_program(vec!["#t"]).unwrap();
    assert_eq!("true", r.to_text());
}
