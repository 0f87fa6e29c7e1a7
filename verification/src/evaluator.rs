//! The tree-walking evaluator, proved equal to a fuelled spec-level
//! interpreter.
//!
//! Evaluation of a Turing-complete language need not terminate, so both the
//! spec interpreter and the executable evaluator carry a fuel budget: every
//! function application, `eval`, `cond` query, and `load`ed statement spends
//! one unit, and an exhausted budget reports `RecursionLimit`. The public
//! entry points use `DEFAULT_FUEL`.
//!
//! `load` takes file contents from a store filled by `provide_file`: the
//! caller reads a file and hands the text in; a path that was never provided
//! reports `FileError` with that path, so the caller may read it and try
//! again.
use vstd::prelude::*;
use vstd::string::StringExecFns;
use crate::builtins::{call_builtin, spec_builtin};
use crate::environment::{env_def, env_lookup, env_pop, env_push, env_put, EnvM, Environment};
use crate::parser::{spec_parse_text, Parser};
use crate::types::{
    esize, esizes, expr_model, exprs_model, lemma_exprs_model, lemma_exprs_model_drop_first,
    res_model, ufunc_model, value_model, Atom, AtomM, BuiltinOp, ExprM, Expression,
    LockjawRuntimeError, RuntimeErrM, UserFunc, UserFuncM, Value, ValueM,
};

verus! {

broadcast use {vstd::std_specs::vec::group_vec_axioms, crate::types::lemma_esize_pos};

/// The recursion budget of the public entry points.
pub const DEFAULT_FUEL: u64 = 2000;

/// The model of the file store: path to contents.
pub type FilesM = Map<Seq<char>, Seq<char>>;

/// The contents the provided files give each path; a later entry for the
/// same path wins.
pub open spec fn files_model(s: Seq<(String, String)>) -> FilesM
    decreases s,
{
    if s.len() == 0 {
        Map::empty()
    } else {
        files_model(s.drop_last()).insert(s.last().0@, s.last().1@)
    }
}

// ---------------------------------------------------------------------------
// The spec interpreter
// ---------------------------------------------------------------------------
/// What a symbol resolves to: a `Variable` binding unwraps once, any other
/// binding travels on as a value atom, and an unbound name is an error.
pub open spec fn lookup_symbol_spec(env: EnvM, s: Seq<char>) -> Result<ExprM, RuntimeErrM> {
    match env_lookup(env, s) {
        Some(ValueM::Variable(b)) => Ok(*b),
        Some(v) => Ok(ExprM::Atom(AtomM::Value(v))),
        None => Err(RuntimeErrM::Unbound),
    }
}

/// Bind formals to values pairwise in the top scope; a non-symbol formal
/// silently consumes its value.
pub open spec fn bind_formals_spec(env: EnvM, formals: Seq<ExprM>, vals: Seq<ExprM>) -> EnvM
    decreases formals.len(),
{
    if formals.len() == 0 || vals.len() == 0 {
        env
    } else {
        let env1 = match formals[0] {
            ExprM::Atom(AtomM::Symbol(s)) => env_put(env, s, ValueM::Variable(Box::new(vals[0]))),
            _ => env,
        };
        bind_formals_spec(env1, formals.drop_first(), vals.drop_first())
    }
}

/// Bind symbols to values pairwise in the global scope; a non-symbol entry
/// silently consumes its value.
pub open spec fn def_bind_spec(env: EnvM, symbols: Seq<ExprM>, vals: Seq<ExprM>) -> EnvM
    decreases symbols.len(),
{
    if symbols.len() == 0 || vals.len() == 0 {
        env
    } else {
        let env1 = match symbols[0] {
            ExprM::Atom(AtomM::Symbol(s)) => env_def(env, s, ValueM::Variable(Box::new(vals[0]))),
            _ => env,
        };
        def_bind_spec(env1, symbols.drop_first(), vals.drop_first())
    }
}

/// `def`: a Q-expression of names, then one value per name; the names are
/// bound in the global scope and the result is `Null`.
pub open spec fn def_spec(env: EnvM, args: Seq<ExprM>) -> (EnvM, Result<ExprM, RuntimeErrM>) {
    if args.len() == 0 {
        (env, Err(RuntimeErrM::InvalidArguments))
    } else {
        match args[0] {
            ExprM::QExpr(symbols) => if symbols.len() != args.len() - 1 {
                (env, Err(RuntimeErrM::InvalidArgumentCount))
            } else {
                (def_bind_spec(env, symbols, args.drop_first()), Ok(ExprM::Null))
            },
            _ => (env, Err(RuntimeErrM::InvalidArguments)),
        }
    }
}

/// The statements a `load` call would run: the parsed top level of the
/// provided file, or nothing when the arguments or the parse fail.
pub open spec fn load_stmts(files: FilesM, args: Seq<ExprM>) -> Seq<ExprM> {
    if args.len() == 1 {
        match args[0] {
            ExprM::Atom(AtomM::Str(p)) => if files.contains_key(p) {
                match spec_parse_text(files[p]) {
                    Ok(ExprM::SExpr(stmts)) => stmts,
                    _ => Seq::empty(),
                }
            } else {
                Seq::empty()
            },
            _ => Seq::empty(),
        }
    } else {
        Seq::empty()
    }
}

/// Evaluate an expression. The result pairs the environment after the call
/// with the outcome: symbols resolve, S-expressions apply, everything else
/// stands for itself.
pub open spec fn eval_spec(env: EnvM, files: FilesM, e: ExprM, fuel: nat) -> (EnvM, Result<
    ExprM,
    RuntimeErrM,
>)
    decreases fuel, esize(e), 0nat,
{
    match e {
        ExprM::Atom(AtomM::Symbol(s)) => (env, lookup_symbol_spec(env, s)),
        ExprM::Atom(_) => (env, Ok(e)),
        ExprM::SExpr(items) => resolve_spec(env, files, items, fuel),
        _ => (env, Ok(e)),
    }
}

/// Evaluate a sequence of expressions left to right, stopping at the first
/// error; the environment threads through.
pub open spec fn eval_seq_spec(env: EnvM, files: FilesM, items: Seq<ExprM>, fuel: nat) -> (
    EnvM,
    Result<Seq<ExprM>, RuntimeErrM>,
)
    decreases fuel, esizes(items), 2nat,
        via eval_seq_spec_decreases
{
    if items.len() == 0 {
        (env, Ok(Seq::empty()))
    } else {
        let (env1, r0) = eval_spec(env, files, items[0], fuel);
        match r0 {
            Err(e) => (env1, Err(e)),
            Ok(v0) => {
                let (env2, rr) = eval_seq_spec(env1, files, items.drop_first(), fuel);
                match rr {
                    Err(e) => (env2, Err(e)),
                    Ok(rest) => (env2, Ok(seq![v0] + rest)),
                }
            },
        }
    }
}

#[via_fn]
proof fn eval_seq_spec_decreases(env: EnvM, files: FilesM, items: Seq<ExprM>, fuel: nat) {
    if items.len() > 0 {
        assert(esizes(items) == esize(items[0]) + esizes(items.drop_first()));
    }
}

/// An evaluated sequence is as long as its input.
pub proof fn lemma_eval_seq_len(env: EnvM, files: FilesM, items: Seq<ExprM>, fuel: nat)
    ensures
        eval_seq_spec(env, files, items, fuel).1 matches Ok(vs) ==> vs.len() == items.len(),
    decreases items.len(),
{
    if items.len() > 0 {
        let (env1, r0) = eval_spec(env, files, items[0], fuel);
        match r0 {
            Ok(_) => {
                lemma_eval_seq_len(env1, files, items.drop_first(), fuel);
            },
            _ => {},
        }
    }
}

/// Resolve an S-expression: empty is `Null`; a leading `quote` symbol turns
/// the rest into an inert Q-expression without evaluating it; otherwise
/// every item is evaluated, a single result stands for itself, and a longer
/// list applies its head value to the rest.
pub open spec fn resolve_spec(env: EnvM, files: FilesM, items: Seq<ExprM>, fuel: nat) -> (
    EnvM,
    Result<ExprM, RuntimeErrM>,
)
    decreases fuel, esizes(items), 3nat,
{
    if items.len() == 0 {
        (env, Ok(ExprM::Null))
    } else if items[0] == ExprM::Atom(AtomM::Symbol("quote"@)) {
        (env, Ok(ExprM::QExpr(items.drop_first())))
    } else {
        let (env1, r) = eval_seq_spec(env, files, items, fuel);
        match r {
            Err(e) => (env1, Err(e)),
            Ok(evals) => if evals.len() == 1 {
                (env1, Ok(evals[0]))
            } else {
                match evals[0] {
                    ExprM::Atom(AtomM::Value(v)) => dispatch_spec(
                        env1,
                        files,
                        v,
                        evals.drop_first(),
                        fuel,
                    ),
                    _ => (env1, Err(RuntimeErrM::InvalidFunction)),
                }
            },
        }
    }
}

/// Apply a resolved head value to its evaluated arguments. Each of the
/// recursive forms spends one unit of fuel.
pub open spec fn dispatch_spec(
    env: EnvM,
    files: FilesM,
    v: ValueM,
    args: Seq<ExprM>,
    fuel: nat,
) -> (EnvM, Result<ExprM, RuntimeErrM>)
    decreases fuel, 0nat, 1nat,
{
    match v {
        ValueM::Builtin(op) => (env, spec_builtin(op, args)),
        ValueM::Variable(_) => (env, Err(RuntimeErrM::InvalidFunction)),
        ValueM::Eval => if fuel == 0 {
            (env, Err(RuntimeErrM::RecursionLimit))
        } else {
            match args[0] {
                ExprM::QExpr(content) => resolve_spec(env, files, content, (fuel - 1) as nat),
                _ => (env, Err(RuntimeErrM::InvalidArguments)),
            }
        },
        ValueM::Def => def_spec(env, args),
        ValueM::Cond => if args.len() == 0 {
            (env, Err(RuntimeErrM::InvalidArgumentCount))
        } else if fuel == 0 {
            (env, Err(RuntimeErrM::RecursionLimit))
        } else {
            cond_spec(env, files, args, (fuel - 1) as nat)
        },
        ValueM::Load => if fuel == 0 {
            (env, Err(RuntimeErrM::RecursionLimit))
        } else {
            load_spec(env, files, args, (fuel - 1) as nat)
        },
        ValueM::UserDef(f) => if fuel == 0 {
            (env, Err(RuntimeErrM::RecursionLimit))
        } else {
            apply_spec(env, files, f, args, (fuel - 1) as nat)
        },
    }
}

/// `cond`: clauses are Q-expressions of a query and a consequent; the first
/// query that evaluates to `true` selects its consequent, and none matching
/// is a `CondFailure`.
pub open spec fn cond_spec(env: EnvM, files: FilesM, clauses: Seq<ExprM>, fuel: nat) -> (
    EnvM,
    Result<ExprM, RuntimeErrM>,
)
    decreases fuel, clauses.len(), 1nat,
{
    if clauses.len() == 0 {
        (env, Err(RuntimeErrM::CondFailure))
    } else {
        match clauses[0] {
            ExprM::QExpr(clause) => if clause.len() != 2 {
                (env, Err(RuntimeErrM::InvalidArguments))
            } else if fuel == 0 {
                (env, Err(RuntimeErrM::RecursionLimit))
            } else {
                let (env1, q) = eval_spec(env, files, clause[0], (fuel - 1) as nat);
                match q {
                    Err(e) => (env1, Err(e)),
                    Ok(qv) => if qv == ExprM::Atom(AtomM::Bool(true)) {
                        eval_spec(env1, files, clause[1], (fuel - 1) as nat)
                    } else {
                        cond_spec(env1, files, clauses.drop_first(), fuel)
                    },
                }
            },
            _ => (env, Err(RuntimeErrM::InvalidArguments)),
        }
    }
}

/// Evaluate the top-level statements of a loaded file in order, stopping at
/// the first error; success is `Null`.
pub open spec fn eval_top_seq_spec(env: EnvM, files: FilesM, stmts: Seq<ExprM>, fuel: nat) -> (
    EnvM,
    Result<ExprM, RuntimeErrM>,
)
    decreases fuel, stmts.len(), 0nat,
{
    if stmts.len() == 0 {
        (env, Ok(ExprM::Null))
    } else if fuel == 0 {
        (env, Err(RuntimeErrM::RecursionLimit))
    } else {
        let (env1, r) = eval_spec(env, files, stmts[0], (fuel - 1) as nat);
        match r {
            Err(e) => (env1, Err(e)),
            Ok(_) => eval_top_seq_spec(env1, files, stmts.drop_first(), fuel),
        }
    }
}

/// `load`: one string argument naming a provided file; its text is lexed,
/// parsed, and evaluated statement by statement. A path never provided is a
/// `FileError` carrying that path; a non-string argument yields `Null`.
pub open spec fn load_spec(env: EnvM, files: FilesM, args: Seq<ExprM>, fuel: nat) -> (EnvM, Result<
    ExprM,
    RuntimeErrM,
>)
    decreases fuel, load_stmts(files, args).len() + 1, 0nat,
{
    if args.len() != 1 {
        (env, Err(RuntimeErrM::InvalidArgumentCount))
    } else {
        match args[0] {
            ExprM::Atom(AtomM::Str(path)) => if !files.contains_key(path) {
                (env, Err(RuntimeErrM::File(path)))
            } else {
                match spec_parse_text(files[path]) {
                    Err(pe) => (env, Err(RuntimeErrM::Parser(pe))),
                    Ok(ExprM::SExpr(stmts)) => eval_top_seq_spec(env, files, stmts, fuel),
                    Ok(other) => (env, Ok(other)),
                }
            },
            _ => (env, Ok(ExprM::Null)),
        }
    }
}

/// Apply a user function with currying: exactly enough arguments run the
/// body in a fresh scope; too few return a new function carrying them; too
/// many are an error. On success the scope is popped; an error from the
/// body leaves it in place, as the whole expression unwinds anyway.
pub open spec fn apply_spec(
    env: EnvM,
    files: FilesM,
    f: UserFuncM,
    args: Seq<ExprM>,
    fuel: nat,
) -> (EnvM, Result<ExprM, RuntimeErrM>)
    decreases fuel, esizes(f.body) + 1, 0nat,
{
    let n = f.args.len();
    let c = f.curried.len();
    let a = args.len();
    if c + a == n {
        let env1 = bind_formals_spec(env_push(env), f.args, f.curried + args);
        let (env2, r) = resolve_spec(env1, files, f.body, fuel);
        match r {
            Err(e) => (env2, Err(e)),
            Ok(value) => (env_pop(env2), Ok(value)),
        }
    } else if c + a < n {
        (
            env,
            Ok(
                ExprM::Atom(
                    AtomM::Value(
                        ValueM::UserDef(
                            UserFuncM { args: f.args, body: f.body, curried: f.curried + args },
                        ),
                    ),
                ),
            ),
        )
    } else {
        (env, Err(RuntimeErrM::InvalidArgumentCount))
    }
}

/// The global bindings every evaluator starts with.
pub open spec fn initial_env() -> EnvM {
    let e = seq![Map::<Seq<char>, ValueM>::empty()];
    let e = env_def(e, "+"@, ValueM::Builtin(BuiltinOp::Add));
    let e = env_def(e, "-"@, ValueM::Builtin(BuiltinOp::Sub));
    let e = env_def(e, "*"@, ValueM::Builtin(BuiltinOp::Mul));
    let e = env_def(e, "/"@, ValueM::Builtin(BuiltinOp::Div));
    let e = env_def(e, "car"@, ValueM::Builtin(BuiltinOp::Car));
    let e = env_def(e, "cdr"@, ValueM::Builtin(BuiltinOp::Cdr));
    let e = env_def(e, "join"@, ValueM::Builtin(BuiltinOp::Join));
    let e = env_def(e, "eval"@, ValueM::Eval);
    let e = env_def(e, "def"@, ValueM::Def);
    let e = env_def(e, "cond"@, ValueM::Cond);
    let e = env_def(e, "load"@, ValueM::Load);
    let e = env_def(e, "fun"@, ValueM::Builtin(BuiltinOp::Fun));
    let e = env_def(e, "null?"@, ValueM::Builtin(BuiltinOp::NullQ));
    let e = env_def(e, "atom?"@, ValueM::Builtin(BuiltinOp::AtomQ));
    let e = env_def(e, "and?"@, ValueM::Builtin(BuiltinOp::AndQ));
    let e = env_def(e, "or?"@, ValueM::Builtin(BuiltinOp::OrQ));
    let e = env_def(e, "xor?"@, ValueM::Builtin(BuiltinOp::XorQ));
    let e = env_def(e, "gt?"@, ValueM::Builtin(BuiltinOp::GtQ));
    let e = env_def(e, "lt?"@, ValueM::Builtin(BuiltinOp::LtQ));
    let e = env_def(e, "eq?"@, ValueM::Builtin(BuiltinOp::EqQ));
    let e = env_def(e, "zero?"@, ValueM::Builtin(BuiltinOp::ZeroQ));
    let e = env_def(e, "#f"@, ValueM::Variable(Box::new(ExprM::Atom(AtomM::Bool(false)))));
    let e = env_def(e, "#t"@, ValueM::Variable(Box::new(ExprM::Atom(AtomM::Bool(true)))));
    let e = env_def(e, "else"@, ValueM::Variable(Box::new(ExprM::Atom(AtomM::Bool(true)))));
    e
}

// ---------------------------------------------------------------------------
// The executable evaluator
// ---------------------------------------------------------------------------
pub struct Evaluator {
    pub env: Environment,
    pub files: Vec<(String, String)>,
}

impl Evaluator {
    /// A fresh evaluator: the builtins, the special forms, the boolean
    /// constants and `else` bound globally; no files provided yet.
    pub fn new() -> (r: Evaluator)
        ensures
            r.env@ == initial_env(),
            files_model(r.files@) == Map::<Seq<char>, Seq<char>>::empty(),
    {
        let mut env = Environment::new();
        env.def(String::from_str("+"), Value::Builtin(BuiltinOp::Add));
        env.def(String::from_str("-"), Value::Builtin(BuiltinOp::Sub));
        env.def(String::from_str("*"), Value::Builtin(BuiltinOp::Mul));
        env.def(String::from_str("/"), Value::Builtin(BuiltinOp::Div));
        env.def(String::from_str("car"), Value::Builtin(BuiltinOp::Car));
        env.def(String::from_str("cdr"), Value::Builtin(BuiltinOp::Cdr));
        env.def(String::from_str("join"), Value::Builtin(BuiltinOp::Join));
        env.def(String::from_str("eval"), Value::Eval);
        env.def(String::from_str("def"), Value::Def);
        env.def(String::from_str("cond"), Value::Cond);
        env.def(String::from_str("load"), Value::Load);
        env.def(String::from_str("fun"), Value::Builtin(BuiltinOp::Fun));
        env.def(String::from_str("null?"), Value::Builtin(BuiltinOp::NullQ));
        env.def(String::from_str("atom?"), Value::Builtin(BuiltinOp::AtomQ));
        env.def(String::from_str("and?"), Value::Builtin(BuiltinOp::AndQ));
        env.def(String::from_str("or?"), Value::Builtin(BuiltinOp::OrQ));
        env.def(String::from_str("xor?"), Value::Builtin(BuiltinOp::XorQ));
        env.def(String::from_str("gt?"), Value::Builtin(BuiltinOp::GtQ));
        env.def(String::from_str("lt?"), Value::Builtin(BuiltinOp::LtQ));
        env.def(String::from_str("eq?"), Value::Builtin(BuiltinOp::EqQ));
        env.def(String::from_str("zero?"), Value::Builtin(BuiltinOp::ZeroQ));
        env.def(
            String::from_str("#f"),
            Value::Variable(Box::new(Expression::Atom(Atom::Bool(false)))),
        );
        env.def(
            String::from_str("#t"),
            Value::Variable(Box::new(Expression::Atom(Atom::Bool(true)))),
        );
        env.def(
            String::from_str("else"),
            Value::Variable(Box::new(Expression::Atom(Atom::Bool(true)))),
        );
        Evaluator { env, files: Vec::new() }
    }

    /// Hand the evaluator the contents of a file, so that `load` can use
    /// it. A later call for the same path replaces the text.
    pub fn provide_file(&mut self, path: String, contents: String)
        ensures
            final(self).env@ == old(self).env@,
            files_model(final(self).files@) == files_model(old(self).files@).insert(
                path@,
                contents@,
            ),
    {
        let ghost f0 = self.files@;
        self.files.push((path, contents));
        proof {
            assert(self.files@.drop_last() =~= f0);
        }
    }

    /// The contents provided for a path, if any.
    fn file_get(&self, path: &String) -> (r: Option<&String>)
        ensures
            files_model(self.files@).contains_key(path@) ==> (r matches Some(c) && c@
                == files_model(self.files@)[path@]),
            !files_model(self.files@).contains_key(path@) ==> r is None,
    {
        let ghost s = self.files@;
        proof {
            assert(s.subrange(0, s.len() as int) =~= s);
        }
        let mut j = self.files.len();
        while j > 0
            invariant
                0 <= j <= s.len(),
                self.files@ == s,
                files_model(s).contains_key(path@) == files_model(s.subrange(0, j as int))
                    .contains_key(path@),
                files_model(s).contains_key(path@) ==> files_model(s.subrange(0, j as int))[path@]
                    == files_model(s)[path@],
            decreases j,
        {
            j = j - 1;
            let pair = &self.files[j];
            proof {
                let p = s.subrange(0, j as int + 1);
                assert(p.drop_last() =~= s.subrange(0, j as int));
                assert(p.last() == s[j as int]);
            }
            if pair.0 == *path {
                return Some(&pair.1);
            }
        }
        proof {
            assert(s.subrange(0, 0) =~= Seq::<(String, String)>::empty());
        }
        None
    }

    /// Evaluate one expression with the default recursion budget.
    pub fn evaluate(&mut self, expression: Expression) -> (r: Result<
        Expression,
        LockjawRuntimeError,
    >)
        ensures
            ({
                let (env2, res) = eval_spec(
                    old(self).env@,
                    files_model(old(self).files@),
                    expression@,
                    DEFAULT_FUEL as nat,
                );
                &&& final(self).env@ == env2
                &&& final(self).files@ == old(self).files@
                &&& res_model(r) == res
            }),
    {
        self.eval_fuel(expression, DEFAULT_FUEL)
    }

    /// Evaluate one expression with an explicit budget.
    fn eval_fuel(&mut self, expression: Expression, fuel: u64) -> (r: Result<
        Expression,
        LockjawRuntimeError,
    >)
        ensures
            ({
                let (env2, res) = eval_spec(
                    old(self).env@,
                    files_model(old(self).files@),
                    expression@,
                    fuel as nat,
                );
                &&& final(self).env@ == env2
                &&& final(self).files@ == old(self).files@
                &&& res_model(r) == res
            }),
        decreases fuel, esize(expression@), 0nat,
    {
        match expression {
            Expression::Atom(a) => {
                match a {
                    Atom::Symbol(symb) => self.evaluate_symbol(symb),
                    other => Ok(Expression::Atom(other)),
                }
            },
            Expression::SExpression(expressions) => self.resolve_sexpression(expressions, fuel),
            other => Ok(other),
        }
    }

    /// Look a symbol up in the environment.
    fn evaluate_symbol(&self, symb: String) -> (r: Result<Expression, LockjawRuntimeError>)
        ensures
            res_model(r) == lookup_symbol_spec(self.env@, symb@),
    {
        match self.env.get(symb) {
            Some(val) => match val {
                Value::Variable(e) => Ok(e.duplicate()),
                other => Ok(Expression::Atom(Atom::Value(other.duplicate()))),
            },
            None => Err(LockjawRuntimeError::UnboundExpression),
        }
    }

    /// Evaluate every expression of a vector in order.
    fn eval_seq_fuel(&mut self, items: Vec<Expression>, fuel: u64) -> (r: Result<
        Vec<Expression>,
        LockjawRuntimeError,
    >)
        ensures
            ({
                let (env2, res) = eval_seq_spec(
                    old(self).env@,
                    files_model(old(self).files@),
                    exprs_model(items@),
                    fuel as nat,
                );
                &&& final(self).env@ == env2
                &&& final(self).files@ == old(self).files@
                &&& (match res {
                    Ok(vs) => r matches Ok(v) && exprs_model(v@) == vs,
                    Err(e) => r matches Err(x) && x@ == e,
                })
            }),
        decreases fuel, esizes(exprs_model(items@)), 2nat,
    {
        let ghost im = exprs_model(items@);
        proof {
            lemma_exprs_model(items@);
        }
        if items.len() == 0 {
            let out: Vec<Expression> = Vec::new();
            proof {
                assert(exprs_model(out@) =~= Seq::<ExprM>::empty());
            }
            return Ok(out);
        }
        let mut items = items;
        let ghost iv0 = items@;
        let first = items.remove(0);
        proof {
            lemma_exprs_model_drop_first(iv0);
            assert(items@ =~= iv0.drop_first());
            assert(exprs_model(items@) == im.drop_first());
            assert(first@ == im[0]) by {
                lemma_exprs_model(iv0);
            }
        }
        proof {
            assert(esizes(im) == esize(im[0]) + esizes(im.drop_first()));
        }
        let v0 = match self.eval_fuel(first, fuel) {
            Ok(v) => v,
            Err(e) => {
                return Err(e);
            },
        };
        let rest = match self.eval_seq_fuel(items, fuel) {
            Ok(v) => v,
            Err(e) => {
                return Err(e);
            },
        };
        let ghost rm = exprs_model(rest@);
        let ghost v0m = v0@;
        let ghost rv = rest@;
        let mut rest = rest;
        rest.insert(0, v0);
        proof {
            lemma_exprs_model(rv);
            lemma_exprs_model(rest@);
            assert forall|j: int| 0 <= j < rest@.len() implies exprs_model(rest@)[j] == (seq![v0m]
                + rm)[j] by {
                if j == 0 {
                } else {
                    assert(rest@[j] == rv[j - 1]);
                }
            }
            assert(exprs_model(rest@) =~= seq![v0m] + rm);
        }
        Ok(rest)
    }

    /// Resolve an S-expression against the environment: the quote form stays
    /// unevaluated; otherwise every item is evaluated and the head value is
    /// applied to the rest.
    fn resolve_sexpression(&mut self, expressions: Vec<Expression>, fuel: u64) -> (r: Result<
        Expression,
        LockjawRuntimeError,
    >)
        ensures
            ({
                let (env2, res) = resolve_spec(
                    old(self).env@,
                    files_model(old(self).files@),
                    exprs_model(expressions@),
                    fuel as nat,
                );
                &&& final(self).env@ == env2
                &&& final(self).files@ == old(self).files@
                &&& res_model(r) == res
            }),
        decreases fuel, esizes(exprs_model(expressions@)), 3nat,
    {
        let ghost im = exprs_model(expressions@);
        proof {
            lemma_exprs_model(expressions@);
        }
        if expressions.len() == 0 {
            return Ok(Expression::Null);
        }
        // The quote form must be recognised before anything is evaluated.
        let is_quote = match &expressions[0] {
            Expression::Atom(Atom::Symbol(s)) => {
                let q = String::from_str("quote");
                let eq = *s == q;
                proof {
                    assert(im[0] == expressions@[0]@);
                }
                eq
            },
            _ => {
                proof {
                    assert(im[0] == expressions@[0]@);
                    assert(match im[0] {
                        ExprM::Atom(AtomM::Symbol(_)) => false,
                        _ => true,
                    });
                }
                false
            },
        };
        if is_quote {
            let mut rest = expressions;
            let ghost rv0 = rest@;
            rest.remove(0);
            proof {
                lemma_exprs_model_drop_first(rv0);
                assert(rest@ =~= rv0.drop_first());
            }
            return Ok(Expression::QExpression(rest));
        }
        let mut evals = match self.eval_seq_fuel(expressions, fuel) {
            Ok(v) => v,
            Err(e) => {
                return Err(e);
            },
        };
        let ghost em = exprs_model(evals@);
        proof {
            lemma_eval_seq_len(old(self).env@, files_model(old(self).files@), im, fuel as nat);
            lemma_exprs_model(evals@);
        }
        if evals.len() == 1 {
            let single = evals.remove(0);
            return Ok(single);
        }
        let ghost ev0 = evals@;
        let head = evals.remove(0);
        proof {
            lemma_exprs_model_drop_first(ev0);
            assert(evals@ =~= ev0.drop_first());
            assert(head@ == em[0]) by {
                lemma_exprs_model(ev0);
            }
        }
        match head {
            Expression::Atom(Atom::Value(v)) => self.dispatch(v, evals, fuel),
            _ => {
                proof {
                    assert(match em[0] {
                        ExprM::Atom(AtomM::Value(_)) => false,
                        _ => true,
                    });
                }
                Err(
                    LockjawRuntimeError::InvalidFunction(
                        String::from_str("Expected Function, got something else"),
                    ),
                )
            },
        }
    }

    /// Apply a head value to its evaluated arguments.
    fn dispatch(&mut self, v: Value, args: Vec<Expression>, fuel: u64) -> (r: Result<
        Expression,
        LockjawRuntimeError,
    >)
        requires
            args@.len() >= 1,
        ensures
            ({
                let (env2, res) = dispatch_spec(
                    old(self).env@,
                    files_model(old(self).files@),
                    value_model(v),
                    exprs_model(args@),
                    fuel as nat,
                );
                &&& final(self).env@ == env2
                &&& final(self).files@ == old(self).files@
                &&& res_model(r) == res
            }),
        decreases fuel, 0nat, 1nat,
    {
        proof {
            lemma_exprs_model(args@);
        }
        match v {
            Value::Builtin(op) => call_builtin(op, args),
            Value::Variable(_) => Err(
                LockjawRuntimeError::InvalidFunction(
                    String::from_str("Expected Function, got a value"),
                ),
            ),
            Value::Eval => {
                if fuel == 0 {
                    return Err(LockjawRuntimeError::RecursionLimit);
                }
                let mut args = args;
                let first = args.remove(0);
                match first.get_from_q_expression() {
                    Ok(content) => self.resolve_sexpression(content, fuel - 1),
                    Err(e) => Err(e),
                }
            },
            Value::Def => self.def(args),
            Value::Cond => {
                if args.len() == 0 {
                    return Err(
                        LockjawRuntimeError::InvalidArgumentCount(
                            String::from_str(
                                "At least one condition is required for a cond statement.",
                            ),
                        ),
                    );
                }
                if fuel == 0 {
                    return Err(LockjawRuntimeError::RecursionLimit);
                }
                self.cond_fuel(args, fuel - 1)
            },
            Value::Load => {
                if fuel == 0 {
                    return Err(LockjawRuntimeError::RecursionLimit);
                }
                self.load_fuel(args, fuel - 1)
            },
            Value::UserDef(f) => {
                if fuel == 0 {
                    return Err(LockjawRuntimeError::RecursionLimit);
                }
                self.evaluate_user_func(f, args, fuel - 1)
            },
        }
    }

    /// `def`: bind each symbol of the first argument to the matching value,
    /// in the global scope.
    fn def(&mut self, args: Vec<Expression>) -> (r: Result<Expression, LockjawRuntimeError>)
        ensures
            ({
                let (env2, res) = def_spec(old(self).env@, exprs_model(args@));
                &&& final(self).env@ == env2
                &&& final(self).files@ == old(self).files@
                &&& res_model(r) == res
            }),
    {
        let ghost am = exprs_model(args@);
        proof {
            lemma_exprs_model(args@);
        }
        let mut args = args;
        if args.len() == 0 {
            return Err(
                LockjawRuntimeError::InvalidArguments(String::from_str("Def needs arguments")),
            );
        }
        let ghost av0 = args@;
        let first = args.remove(0);
        proof {
            lemma_exprs_model_drop_first(av0);
            assert(args@ =~= av0.drop_first());
            assert(first@ == am[0]);
        }
        let symbols = match first.get_from_q_expression() {
            Ok(v) => v,
            Err(e) => {
                return Err(e);
            },
        };
        proof {
            lemma_exprs_model(symbols@);
            assert(am[0] matches ExprM::QExpr(ss) && ss == exprs_model(symbols@));
        }
        if symbols.len() != args.len() {
            return Err(
                LockjawRuntimeError::InvalidArgumentCount(
                    String::from_str("Def requires one value per variable name"),
                ),
            );
        }
        let ghost sm = exprs_model(symbols@);
        let ghost vm = exprs_model(args@);
        proof {
            lemma_exprs_model(symbols@);
            lemma_exprs_model(args@);
            assert(sm.subrange(0, sm.len() as int) =~= sm);
            assert(vm.subrange(0, vm.len() as int) =~= vm);
        }
        let n = symbols.len();
        let ghost env0 = self.env@;
        let mut i: usize = 0;
        while i < n
            invariant
                0 <= i <= n,
                n == symbols@.len() == args@.len(),
                sm == exprs_model(symbols@),
                vm == exprs_model(args@),
                sm.len() == n && vm.len() == n,
                forall|j: int| 0 <= j < n ==> sm[j] == #[trigger] symbols@[j]@,
                forall|j: int| 0 <= j < n ==> vm[j] == #[trigger] args@[j]@,
                self.files@ == old(self).files@,
                def_bind_spec(env0, sm, vm) == def_bind_spec(
                    self.env@,
                    sm.subrange(i as int, n as int),
                    vm.subrange(i as int, n as int),
                ),
            decreases n - i,
        {
            proof {
                assert(sm.subrange(i as int, n as int)[0] == sm[i as int]);
                assert(sm.subrange(i as int, n as int).drop_first() =~= sm.subrange(
                    i as int + 1,
                    n as int,
                ));
                assert(vm.subrange(i as int, n as int)[0] == vm[i as int]);
                assert(vm.subrange(i as int, n as int).drop_first() =~= vm.subrange(
                    i as int + 1,
                    n as int,
                ));
            }
            match &symbols[i] {
                Expression::Atom(Atom::Symbol(phrase)) => {
                    proof {
                        assert(sm[i as int] == symbols@[i as int]@);
                        assert(vm[i as int] == args@[i as int]@);
                    }
                    let value = args[i].duplicate();
                    proof {
                        assert(value@ == vm[i as int]);
                        assert(value_model(Value::Variable(Box::new(value)))
                            == ValueM::Variable(Box::new(vm[i as int])));
                    }
                    self.env.def(phrase.clone(), Value::Variable(Box::new(value)));
                },
                _ => {
                    proof {
                        assert(sm[i as int] == symbols@[i as int]@);
                        assert(match sm[i as int] {
                            ExprM::Atom(AtomM::Symbol(_)) => false,
                            _ => true,
                        });
                    }
                },
            }
            i = i + 1;
        }
        proof {
            assert(sm.subrange(n as int, n as int) =~= Seq::<ExprM>::empty());
        }
        Ok(Expression::Null)
    }

    /// `cond` with the default budget: evaluate each clause's query in turn
    /// and return its consequent's value at the first `true`.
    pub fn cond(&mut self, args: Vec<Expression>) -> (r: Result<Expression, LockjawRuntimeError>)
        ensures
            ({
                let (env2, res) = if exprs_model(args@).len() == 0 {
                    (old(self).env@, Err(RuntimeErrM::InvalidArgumentCount))
                } else {
                    cond_spec(
                        old(self).env@,
                        files_model(old(self).files@),
                        exprs_model(args@),
                        DEFAULT_FUEL as nat,
                    )
                };
                &&& final(self).env@ == env2
                &&& final(self).files@ == old(self).files@
                &&& res_model(r) == res
            }),
    {
        proof {
            lemma_exprs_model(args@);
        }
        if args.len() == 0 {
            return Err(
                LockjawRuntimeError::InvalidArgumentCount(
                    String::from_str("At least one condition is required for a cond statement."),
                ),
            );
        }
        self.cond_fuel(args, DEFAULT_FUEL)
    }

    /// `cond` with an explicit budget.
    #[verifier::loop_isolation(false)]
    fn cond_fuel(&mut self, args: Vec<Expression>, fuel: u64) -> (r: Result<
        Expression,
        LockjawRuntimeError,
    >)
        ensures
            ({
                let (env2, res) = cond_spec(
                    old(self).env@,
                    files_model(old(self).files@),
                    exprs_model(args@),
                    fuel as nat,
                );
                &&& final(self).env@ == env2
                &&& final(self).files@ == old(self).files@
                &&& res_model(r) == res
            }),
        decreases fuel, 0nat, 0nat,
    {
        let ghost am = exprs_model(args@);
        let ghost files = files_model(self.files@);
        proof {
            lemma_exprs_model(args@);
            assert(am.subrange(0, am.len() as int) =~= am);
        }
        let ghost env0 = self.env@;
        let n = args.len();
        let mut i: usize = 0;
        while i < n
            invariant
                0 <= i <= n,
                n == args@.len(),
                am == exprs_model(args@),
                am.len() == n,
                forall|j: int| 0 <= j < n ==> am[j] == #[trigger] args@[j]@,
                self.files@ == old(self).files@,
                files == files_model(self.files@),
                cond_spec(env0, files, am, fuel as nat) == cond_spec(
                    self.env@,
                    files,
                    am.subrange(i as int, n as int),
                    fuel as nat,
                ),
            decreases n - i,
        {
            proof {
                assert(am.subrange(i as int, n as int)[0] == am[i as int]);
                assert(am.subrange(i as int, n as int).drop_first() =~= am.subrange(
                    i as int + 1,
                    n as int,
                ));
            }
            let (query, consequent) = match &args[i] {
                Expression::QExpression(cl) => {
                    proof {
                        lemma_exprs_model(cl@);
                        assert(am[i as int] == args@[i as int]@);
                        assert(am[i as int] == ExprM::QExpr(exprs_model(cl@)));
                    }
                    if cl.len() != 2 {
                        return Err(
                            LockjawRuntimeError::InvalidArguments(
                                String::from_str(
                                    "All Conditions must have one query and one predicate.",
                                ),
                            ),
                        );
                    }
                    let q = cl[0].duplicate();
                    let co = cl[1].duplicate();
                    proof {
                        assert(q@ == exprs_model(cl@)[0]);
                        assert(co@ == exprs_model(cl@)[1]);
                    }
                    (q, co)
                },
                _ => {
                    proof {
                        assert(am[i as int] == args@[i as int]@);
                        assert(match am[i as int] {
                            ExprM::QExpr(_) => false,
                            _ => true,
                        });
                    }
                    return Err(
                        LockjawRuntimeError::InvalidArguments(
                            String::from_str("Expected QExpression, got something else"),
                        ),
                    );
                },
            };
            if fuel == 0 {
                return Err(LockjawRuntimeError::RecursionLimit);
            }
            let qr = match self.eval_fuel(query, fuel - 1) {
                Ok(v) => v,
                Err(e) => {
                    return Err(e);
                },
            };
            let is_true = match &qr {
                Expression::Atom(Atom::Bool(true)) => true,
                _ => false,
            };
            proof {
                if !is_true {
                    assert(match qr {
                        Expression::Atom(Atom::Bool(b)) => !b,
                        _ => true,
                    });
                    assert(qr@ != ExprM::Atom(AtomM::Bool(true)));
                }
            }
            if is_true {
                return self.eval_fuel(consequent, fuel - 1);
            }
            i = i + 1;
        }
        proof {
            assert(am.subrange(n as int, n as int) =~= Seq::<ExprM>::empty());
        }
        Err(LockjawRuntimeError::CondFailure)
    }

    /// `load` with the default budget: run a provided file.
    pub fn load(&mut self, args: Vec<Expression>) -> (r: Result<Expression, LockjawRuntimeError>)
        ensures
            ({
                let (env2, res) = load_spec(
                    old(self).env@,
                    files_model(old(self).files@),
                    exprs_model(args@),
                    DEFAULT_FUEL as nat,
                );
                &&& final(self).env@ == env2
                &&& final(self).files@ == old(self).files@
                &&& res_model(r) == res
            }),
    {
        self.load_fuel(args, DEFAULT_FUEL)
    }

    /// `load` with an explicit budget.
    fn load_fuel(&mut self, args: Vec<Expression>, fuel: u64) -> (r: Result<
        Expression,
        LockjawRuntimeError,
    >)
        ensures
            ({
                let (env2, res) = load_spec(
                    old(self).env@,
                    files_model(old(self).files@),
                    exprs_model(args@),
                    fuel as nat,
                );
                &&& final(self).env@ == env2
                &&& final(self).files@ == old(self).files@
                &&& res_model(r) == res
            }),
        decreases fuel, 1nat, 0nat,
    {
        let ghost am = exprs_model(args@);
        proof {
            lemma_exprs_model(args@);
        }
        let mut args = args;
        if args.len() != 1 {
            return Err(
                LockjawRuntimeError::InvalidArgumentCount(
                    String::from_str("load takes a single file name as input."),
                ),
            );
        }
        let first = args.remove(0);
        proof {
            assert(first@ == am[0]);
        }
        match first {
            Expression::Atom(Atom::String(path)) => {
                let contents = match self.file_get(&path) {
                    Some(c) => c,
                    None => {
                        return Err(LockjawRuntimeError::FileError(path));
                    },
                };
                match Parser::parse_from_text(contents.as_str()) {
                    Err(pe) => Err(LockjawRuntimeError::ParserError(pe)),
                    Ok(expr) => match expr {
                        Expression::SExpression(stmts) => self.eval_top_seq(stmts, fuel),
                        other => {
                            proof {
                                assert(match other@ {
                                    ExprM::SExpr(_) => false,
                                    _ => true,
                                });
                            }
                            Ok(other)
                        },
                    },
                }
            },
            other => {
                proof {
                    assert(match other@ {
                        ExprM::Atom(AtomM::Str(_)) => false,
                        _ => true,
                    });
                }
                Ok(Expression::Null)
            },
        }
    }

    /// Evaluate the top-level statements of a loaded file in order.
    #[verifier::loop_isolation(false)]
    fn eval_top_seq(&mut self, stmts: Vec<Expression>, fuel: u64) -> (r: Result<
        Expression,
        LockjawRuntimeError,
    >)
        ensures
            ({
                let (env2, res) = eval_top_seq_spec(
                    old(self).env@,
                    files_model(old(self).files@),
                    exprs_model(stmts@),
                    fuel as nat,
                );
                &&& final(self).env@ == env2
                &&& final(self).files@ == old(self).files@
                &&& res_model(r) == res
            }),
        decreases fuel, 0nat, 0nat,
    {
        let ghost sm = exprs_model(stmts@);
        let ghost files = files_model(self.files@);
        proof {
            lemma_exprs_model(stmts@);
            assert(sm.subrange(0, sm.len() as int) =~= sm);
        }
        let ghost env0 = self.env@;
        let n = stmts.len();
        let mut i: usize = 0;
        while i < n
            invariant
                0 <= i <= n,
                n == stmts@.len(),
                sm == exprs_model(stmts@),
                sm.len() == n,
                forall|j: int| 0 <= j < n ==> sm[j] == #[trigger] stmts@[j]@,
                self.files@ == old(self).files@,
                files == files_model(self.files@),
                eval_top_seq_spec(env0, files, sm, fuel as nat) == eval_top_seq_spec(
                    self.env@,
                    files,
                    sm.subrange(i as int, n as int),
                    fuel as nat,
                ),
            decreases n - i,
        {
            proof {
                assert(sm.subrange(i as int, n as int)[0] == sm[i as int]);
                assert(sm.subrange(i as int, n as int).drop_first() =~= sm.subrange(
                    i as int + 1,
                    n as int,
                ));
            }
            if fuel == 0 {
                return Err(LockjawRuntimeError::RecursionLimit);
            }
            proof {
                assert(sm[i as int] == stmts@[i as int]@);
            }
            let stmt = stmts[i].duplicate();
            proof {
                assert(stmt@ == sm[i as int]);
            }
            match self.eval_fuel(stmt, fuel - 1) {
                Ok(_) => {},
                Err(e) => {
                    return Err(e);
                },
            }
            i = i + 1;
        }
        proof {
            assert(sm.subrange(n as int, n as int) =~= Seq::<ExprM>::empty());
        }
        Ok(Expression::Null)
    }

    /// Apply a user function with currying semantics.
    #[verifier::loop_isolation(false)]
    fn evaluate_user_func(&mut self, func: UserFunc, args: Vec<Expression>, fuel: u64) -> (r:
        Result<Expression, LockjawRuntimeError>)
        ensures
            ({
                let (env2, res) = apply_spec(
                    old(self).env@,
                    files_model(old(self).files@),
                    func@,
                    exprs_model(args@),
                    fuel as nat,
                );
                &&& final(self).env@ == env2
                &&& final(self).files@ == old(self).files@
                &&& res_model(r) == res
            }),
        decreases fuel, esizes(exprs_model(func.body@)) + 1, 0nat,
    {
        let ghost fm = func@;
        let ghost am = exprs_model(args@);
        let UserFunc { args: formals, body, curried } = func;
        let n = formals.len();
        let c = curried.len();
        let a = args.len();
        proof {
            lemma_exprs_model(formals@);
            lemma_exprs_model(curried@);
            lemma_exprs_model(args@);
            assert(fm.args == exprs_model(formals@));
            assert(fm.body == exprs_model(body@));
            assert(fm.curried == exprs_model(curried@));
        }
        let total = match c.checked_add(a) {
            Some(t) => t,
            None => {
                return Err(
                    LockjawRuntimeError::InvalidArgumentCount(
                        String::from_str("Too many arguments for function!"),
                    ),
                );
            },
        };
        if total == n {
            // Exactly saturated: bind each formal in a fresh scope and run
            // the body.
            self.env.push_env();
            let ghost sm = exprs_model(formals@);
            let ghost vm = exprs_model(curried@) + am;
            let ghost env1 = self.env@;
            proof {
                assert(sm.subrange(0, sm.len() as int) =~= sm);
                assert(vm.subrange(0, vm.len() as int) =~= vm);
            }
            let mut i: usize = 0;
            while i < n
                invariant
                    0 <= i <= n,
                    n == formals@.len(),
                    c == curried@.len(),
                    a == args@.len(),
                    n == c + a,
                    sm == exprs_model(formals@),
                    vm == exprs_model(curried@) + exprs_model(args@),
                    sm.len() == n && vm.len() == n,
                    forall|j: int| 0 <= j < n ==> sm[j] == #[trigger] formals@[j]@,
                    forall|j: int| 0 <= j < c ==> vm[j] == #[trigger] curried@[j]@,
                    forall|j: int| 0 <= j < a ==> vm[c + j] == #[trigger] args@[j]@,
                    self.files@ == old(self).files@,
                    bind_formals_spec(env1, sm, vm) == bind_formals_spec(
                        self.env@,
                        sm.subrange(i as int, n as int),
                        vm.subrange(i as int, n as int),
                    ),
                decreases n - i,
            {
                proof {
                    assert(sm.subrange(i as int, n as int)[0] == sm[i as int]);
                    assert(sm.subrange(i as int, n as int).drop_first() =~= sm.subrange(
                        i as int + 1,
                        n as int,
                    ));
                    assert(vm.subrange(i as int, n as int)[0] == vm[i as int]);
                    assert(vm.subrange(i as int, n as int).drop_first() =~= vm.subrange(
                        i as int + 1,
                        n as int,
                    ));
                }
                let value = if i < c {
                    curried[i].duplicate()
                } else {
                    args[i - c].duplicate()
                };
                proof {
                    assert(value@ == vm[i as int]);
                }
                match &formals[i] {
                    Expression::Atom(Atom::Symbol(symb)) => {
                        proof {
                            assert(sm[i as int] == formals@[i as int]@);
                        }
                        self.env.put(symb.clone(), Value::Variable(Box::new(value)));
                    },
                    _ => {
                        proof {
                            assert(sm[i as int] == formals@[i as int]@);
                            assert(match sm[i as int] {
                                ExprM::Atom(AtomM::Symbol(_)) => false,
                                _ => true,
                            });
                        }
                    },
                }
                i = i + 1;
            }
            proof {
                assert(sm.subrange(n as int, n as int) =~= Seq::<ExprM>::empty());
                assert(vm.subrange(n as int, n as int) =~= Seq::<ExprM>::empty());
                assert(sm == fm.args);
                assert(vm == fm.curried + am);
                assert(self.env@ == bind_formals_spec(
                    env_push(old(self).env@),
                    fm.args,
                    fm.curried + am,
                ));
            }
            let value = match self.resolve_sexpression(body, fuel) {
                Ok(v) => v,
                Err(e) => {
                    return Err(e);
                },
            };
            self.env.pop_env();
            Ok(value)
        } else if total < n {
            // Partial application: carry the new arguments along.
            let mut curried = curried;
            let mut args = args;
            let ghost cv = curried@;
            let ghost av = args@;
            curried.append(&mut args);
            proof {
                lemma_exprs_model(cv);
                lemma_exprs_model(av);
                lemma_exprs_model(curried@);
                assert(curried@ == cv + av);
                assert forall|j: int| 0 <= j < curried@.len() implies exprs_model(curried@)[j] == (
                exprs_model(cv) + exprs_model(av))[j] by {
                    if j < cv.len() {
                        assert(curried@[j] == cv[j]);
                    } else {
                        assert(curried@[j] == av[j - cv.len()]);
                    }
                }
                assert(exprs_model(curried@) =~= exprs_model(cv) + exprs_model(av));
            }
            let uf = UserFunc { args: formals, body, curried };
            proof {
                assert(ufunc_model(uf) == UserFuncM {
                    args: exprs_model(uf.args@),
                    body: exprs_model(uf.body@),
                    curried: exprs_model(uf.curried@),
                });
                assert(ufunc_model(uf) == UserFuncM {
                    args: fm.args,
                    body: fm.body,
                    curried: fm.curried + am,
                });
            }
            let v = Value::UserDef(uf);
            proof {
                assert(v@ matches ValueM::UserDef(g) && g == ufunc_model(uf));
            }
            let at = Atom::Value(v);
            proof {
                assert(at@ matches AtomM::Value(ValueM::UserDef(g)) && g == ufunc_model(uf));
            }
            let r = Expression::Atom(at);
            proof {
                assert(r@ == ExprM::Atom(AtomM::Value(ValueM::UserDef(UserFuncM {
                    args: fm.args,
                    body: fm.body,
                    curried: fm.curried + am,
                }))));
            }
            Ok(r)
        } else {
            Err(
                LockjawRuntimeError::InvalidArgumentCount(
                    String::from_str("Too many arguments for function!"),
                ),
            )
        }
    }
}

} // verus!
