//! Lockjaw: a small Lisp-family interpreter, verified with Verus.
//!
//! Source text is lexed into tokens, parsed into a homoiconic expression
//! tree, and evaluated against a lexically scoped environment. Every stage
//! carries a specification: the lexer and parser are proved equal to spec
//! functions over character sequences, and the evaluator is proved equal to
//! a fuelled spec-level interpreter over ghost models of the data.
mod builtins;
mod display;
mod environment;
mod evaluator;
mod floatbits;
mod laws;
mod lexer;
mod numeric;
mod parser;
mod text;
mod types;

pub use evaluator::{
    apply_spec, bind_formals_spec, cond_spec, def_bind_spec, def_spec, dispatch_spec,
    eval_seq_spec, eval_spec, eval_top_seq_spec, files_model, initial_env, load_spec,
    lookup_symbol_spec, resolve_spec, Evaluator, FilesM, DEFAULT_FUEL,
};
pub use laws::{
    lemma_application_arity, lemma_builtin_add_widening, lemma_environment_shadowing,
    lemma_numeric_widening, lemma_partial_application_associates, lemma_quote_round_trip,
    lemma_quote_round_trip_of_parsed, lemma_symbol_shadowing,
};
pub use floatbits::{
    f64_add, f64_div, f64_eq, f64_lt, f64_mul, f64_of_i64, f64_of_text, f64_sub, f64_text,
};
pub use numeric::{
    spec_add, spec_div, spec_mul, spec_neg, spec_num_eq, spec_num_lt, spec_sub, spec_widen, Numeric,
};
pub use lexer::{
    spec_lex, spec_lex_from, spec_scan, LexErrM, Lexeme, LexemeM, LexemeType, Lexer, LexingError,
    LexingErrorKind, LexTokM, ScanStep,
};
pub use builtins::{
    add, and_q, atom_q, call_builtin, car, cdr, div, eq_q, fun, gt_q, join, lt_q, mul, null_q,
    or_q, spec_builtin, sub, xor_q, zero_q,
};
pub use display::{atom_text, dec_text, expr_text, i64_text, list_text, num_text, value_text};
pub use environment::{
    env_def, env_lookup, env_pop, env_push, env_put, scope_model, scopes_model, EnvM, Environment,
};
pub use parser::{ParseErrM, Parser, ParsingError};
pub use text::{chars_to_string, str_to_chars};
pub use types::{
    esize, esizes, expr_model, exprs_model, res_model, atom_model, value_model, ufunc_model,
    lemma_exprs_model, Atom, AtomM, BuiltinOp, ExprM, Expression, LockjawRuntimeError,
    RuntimeErrM, UserFunc, UserFuncM, Value, ValueM,
};
