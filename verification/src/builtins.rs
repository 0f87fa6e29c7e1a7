//! The builtin functions: pure functions over already-evaluated argument
//! vectors. Each has a spec twin over expression models, and the executable
//! function is proved to return exactly what the twin says.
use vstd::prelude::*;
use vstd::string::StringExecFns;
use crate::numeric::{
    spec_add, spec_div, spec_mul, spec_neg, spec_num_eq, spec_num_lt, spec_sub, Numeric,
};
use crate::types::{
    exprs_model, lemma_exprs_model, res_model, ufunc_model, Atom, AtomM, BuiltinOp, ExprM,
    Expression, LockjawRuntimeError, RuntimeErrM, UserFunc, UserFuncM, Value, ValueM,
};

verus! {

broadcast use vstd::std_specs::vec::group_vec_axioms;

// ---------------------------------------------------------------------------
// Arithmetic: spec twins
// ---------------------------------------------------------------------------
/// Fold addition over the remaining arguments: each must be a numeric atom,
/// and a new value is added to the accumulator from the left.
pub open spec fn spec_fold_add(args: Seq<ExprM>, acc: Numeric) -> Result<ExprM, RuntimeErrM>
    decreases args.len(),
{
    if args.len() == 0 {
        Ok(ExprM::Atom(AtomM::Number(acc)))
    } else {
        match args[0] {
            ExprM::Atom(AtomM::Number(n)) => spec_fold_add(args.drop_first(), spec_add(n, acc)),
            _ => Err(RuntimeErrM::InvalidArguments),
        }
    }
}

/// `+`: the sum of one or more numbers, starting from `Int(0)`.
pub open spec fn spec_builtin_add(args: Seq<ExprM>) -> Result<ExprM, RuntimeErrM> {
    if args.len() == 0 {
        Err(RuntimeErrM::InvalidArgumentCount)
    } else {
        spec_fold_add(args, Numeric::Int(0))
    }
}

/// Fold subtraction: the accumulator loses each following number in turn.
pub open spec fn spec_fold_sub(args: Seq<ExprM>, acc: AtomM) -> Result<ExprM, RuntimeErrM>
    decreases args.len(),
{
    if args.len() == 0 {
        Ok(ExprM::Atom(acc))
    } else {
        match (acc, args[0]) {
            (AtomM::Number(a), ExprM::Atom(AtomM::Number(b))) => spec_fold_sub(
                args.drop_first(),
                AtomM::Number(spec_sub(a, b)),
            ),
            _ => Err(RuntimeErrM::InvalidArguments),
        }
    }
}

/// `-`: with one number, its negation; with more, a left fold of
/// subtraction.
pub open spec fn spec_builtin_sub(args: Seq<ExprM>) -> Result<ExprM, RuntimeErrM> {
    if args.len() == 0 {
        Err(RuntimeErrM::InvalidArgumentCount)
    } else {
        match args[0] {
            ExprM::Atom(a0) => {
                if args.len() == 1 {
                    match a0 {
                        AtomM::Number(n) => Ok(ExprM::Atom(AtomM::Number(spec_neg(n)))),
                        _ => Err(RuntimeErrM::InvalidArguments),
                    }
                } else {
                    spec_fold_sub(args.drop_first(), a0)
                }
            },
            _ => Err(RuntimeErrM::InvalidArguments),
        }
    }
}

/// Fold multiplication: each new value multiplies the accumulator.
pub open spec fn spec_fold_mul(args: Seq<ExprM>, acc: AtomM) -> Result<ExprM, RuntimeErrM>
    decreases args.len(),
{
    if args.len() == 0 {
        Ok(ExprM::Atom(acc))
    } else {
        match (args[0], acc) {
            (ExprM::Atom(AtomM::Number(a)), AtomM::Number(b)) => spec_fold_mul(
                args.drop_first(),
                AtomM::Number(spec_mul(a, b)),
            ),
            _ => Err(RuntimeErrM::InvalidArguments),
        }
    }
}

/// `*`: the product, with the first argument as the accumulator.
pub open spec fn spec_builtin_mul(args: Seq<ExprM>) -> Result<ExprM, RuntimeErrM> {
    if args.len() == 0 {
        Err(RuntimeErrM::InvalidArgumentCount)
    } else {
        match args[0] {
            ExprM::Atom(a0) => spec_fold_mul(args.drop_first(), a0),
            _ => Err(RuntimeErrM::InvalidArguments),
        }
    }
}

/// Fold division: the accumulator is divided by each following number, and
/// every division yields a float.
pub open spec fn spec_fold_div(args: Seq<ExprM>, acc: AtomM) -> Result<ExprM, RuntimeErrM>
    decreases args.len(),
{
    if args.len() == 0 {
        Ok(ExprM::Atom(acc))
    } else {
        match (acc, args[0]) {
            (AtomM::Number(a), ExprM::Atom(AtomM::Number(b))) => spec_fold_div(
                args.drop_first(),
                AtomM::Number(spec_div(a, b)),
            ),
            _ => Err(RuntimeErrM::InvalidArguments),
        }
    }
}

/// `/`: a left fold of division, with the first argument as accumulator.
pub open spec fn spec_builtin_div(args: Seq<ExprM>) -> Result<ExprM, RuntimeErrM> {
    if args.len() == 0 {
        Err(RuntimeErrM::InvalidArgumentCount)
    } else {
        match args[0] {
            ExprM::Atom(a0) => spec_fold_div(args.drop_first(), a0),
            _ => Err(RuntimeErrM::InvalidArguments),
        }
    }
}

// ---------------------------------------------------------------------------
// Lists, functions, predicates: spec twins
// ---------------------------------------------------------------------------
/// `car`: the first element of a Q-expression; an empty one stays empty.
pub open spec fn spec_builtin_car(args: Seq<ExprM>) -> Result<ExprM, RuntimeErrM> {
    if args.len() != 1 {
        Err(RuntimeErrM::InvalidArgumentCount)
    } else {
        match args[0] {
            ExprM::QExpr(items) => if items.len() == 0 {
                Ok(ExprM::QExpr(items))
            } else {
                Ok(items[0])
            },
            _ => Err(RuntimeErrM::InvalidArguments),
        }
    }
}

/// `cdr`: everything after the first element, as a Q-expression.
pub open spec fn spec_builtin_cdr(args: Seq<ExprM>) -> Result<ExprM, RuntimeErrM> {
    if args.len() != 1 {
        Err(RuntimeErrM::InvalidArgumentCount)
    } else {
        match args[0] {
            ExprM::QExpr(items) => if items.len() == 0 {
                Ok(ExprM::QExpr(items))
            } else {
                Ok(ExprM::QExpr(items.drop_first()))
            },
            _ => Err(RuntimeErrM::InvalidArguments),
        }
    }
}

/// `join`: the concatenation of two Q-expressions.
pub open spec fn spec_builtin_join(args: Seq<ExprM>) -> Result<ExprM, RuntimeErrM> {
    if args.len() != 2 {
        Err(RuntimeErrM::InvalidArgumentCount)
    } else {
        match args[0] {
            ExprM::QExpr(a) => match args[1] {
                ExprM::QExpr(b) => Ok(ExprM::QExpr(a + b)),
                _ => Err(RuntimeErrM::InvalidArguments),
            },
            _ => Err(RuntimeErrM::InvalidArguments),
        }
    }
}

/// `fun`: build a user function from a Q-expression of formals and a
/// Q-expression body, with nothing curried yet.
pub open spec fn spec_builtin_fun(args: Seq<ExprM>) -> Result<ExprM, RuntimeErrM> {
    if args.len() != 2 {
        Err(RuntimeErrM::InvalidArgumentCount)
    } else {
        match args[0] {
            ExprM::QExpr(formals) => match args[1] {
                ExprM::QExpr(body) => Ok(
                    ExprM::Atom(
                        AtomM::Value(
                            ValueM::UserDef(
                                UserFuncM { args: formals, body, curried: Seq::empty() },
                            ),
                        ),
                    ),
                ),
                _ => Err(RuntimeErrM::InvalidArguments),
            },
            _ => Err(RuntimeErrM::InvalidArguments),
        }
    }
}

/// `null?`: true of `Null` and of empty S- and Q-expressions.
pub open spec fn spec_builtin_null_q(args: Seq<ExprM>) -> Result<ExprM, RuntimeErrM> {
    if args.len() != 1 {
        Err(RuntimeErrM::InvalidArgumentCount)
    } else {
        match args[0] {
            ExprM::Null => Ok(ExprM::Atom(AtomM::Bool(true))),
            ExprM::QExpr(items) => Ok(ExprM::Atom(AtomM::Bool(items.len() == 0))),
            ExprM::SExpr(items) => Ok(ExprM::Atom(AtomM::Bool(items.len() == 0))),
            ExprM::Atom(_) => Ok(ExprM::Atom(AtomM::Bool(false))),
        }
    }
}

/// `atom?`: true exactly of atoms.
pub open spec fn spec_builtin_atom_q(args: Seq<ExprM>) -> Result<ExprM, RuntimeErrM> {
    if args.len() != 1 {
        Err(RuntimeErrM::InvalidArgumentCount)
    } else {
        match args[0] {
            ExprM::Atom(_) => Ok(ExprM::Atom(AtomM::Bool(true))),
            _ => Ok(ExprM::Atom(AtomM::Bool(false))),
        }
    }
}

/// A logical connective over two boolean atoms.
pub open spec fn spec_builtin_logic(args: Seq<ExprM>, op: BuiltinOp) -> Result<
    ExprM,
    RuntimeErrM,
> {
    if args.len() != 2 {
        Err(RuntimeErrM::InvalidArgumentCount)
    } else {
        match (args[0], args[1]) {
            (ExprM::Atom(AtomM::Bool(a)), ExprM::Atom(AtomM::Bool(b))) => Ok(
                ExprM::Atom(
                    AtomM::Bool(
                        match op {
                            BuiltinOp::AndQ => a && b,
                            BuiltinOp::OrQ => a || b,
                            _ => a != b,
                        },
                    ),
                ),
            ),
            _ => Err(RuntimeErrM::InvalidArguments),
        }
    }
}

/// A comparison over two numeric atoms, after widening.
pub open spec fn spec_builtin_cmp(args: Seq<ExprM>, op: BuiltinOp) -> Result<ExprM, RuntimeErrM> {
    if args.len() != 2 {
        Err(RuntimeErrM::InvalidArgumentCount)
    } else {
        match (args[0], args[1]) {
            (ExprM::Atom(AtomM::Number(a)), ExprM::Atom(AtomM::Number(b))) => Ok(
                ExprM::Atom(
                    AtomM::Bool(
                        match op {
                            BuiltinOp::GtQ => spec_num_lt(b, a),
                            BuiltinOp::LtQ => spec_num_lt(a, b),
                            _ => spec_num_eq(a, b),
                        },
                    ),
                ),
            ),
            _ => Err(RuntimeErrM::InvalidArguments),
        }
    }
}

/// `zero?`: whether a number equals `Int(0)` after widening.
pub open spec fn spec_builtin_zero_q(args: Seq<ExprM>) -> Result<ExprM, RuntimeErrM> {
    if args.len() != 1 {
        Err(RuntimeErrM::InvalidArgumentCount)
    } else {
        match args[0] {
            ExprM::Atom(AtomM::Number(a)) => Ok(
                ExprM::Atom(AtomM::Bool(spec_num_eq(a, Numeric::Int(0)))),
            ),
            _ => Err(RuntimeErrM::InvalidArguments),
        }
    }
}

/// What any builtin returns on a vector of evaluated arguments.
pub open spec fn spec_builtin(op: BuiltinOp, args: Seq<ExprM>) -> Result<ExprM, RuntimeErrM> {
    match op {
        BuiltinOp::Add => spec_builtin_add(args),
        BuiltinOp::Sub => spec_builtin_sub(args),
        BuiltinOp::Mul => spec_builtin_mul(args),
        BuiltinOp::Div => spec_builtin_div(args),
        BuiltinOp::Car => spec_builtin_car(args),
        BuiltinOp::Cdr => spec_builtin_cdr(args),
        BuiltinOp::Join => spec_builtin_join(args),
        BuiltinOp::Fun => spec_builtin_fun(args),
        BuiltinOp::NullQ => spec_builtin_null_q(args),
        BuiltinOp::AtomQ => spec_builtin_atom_q(args),
        BuiltinOp::AndQ | BuiltinOp::OrQ | BuiltinOp::XorQ => spec_builtin_logic(args, op),
        BuiltinOp::GtQ | BuiltinOp::LtQ | BuiltinOp::EqQ => spec_builtin_cmp(args, op),
        BuiltinOp::ZeroQ => spec_builtin_zero_q(args),
    }
}

// ---------------------------------------------------------------------------
// Executable builtins
// ---------------------------------------------------------------------------
/// `+`: sum of one or more numeric atoms.
pub fn add(args: Vec<Expression>) -> (r: Result<Expression, LockjawRuntimeError>)
    ensures
        res_model(r) == spec_builtin_add(exprs_model(args@)),
{
    let ghost am = exprs_model(args@);
    proof {
        lemma_exprs_model(args@);
    }
    if args.len() == 0 {
        return Err(
            LockjawRuntimeError::InvalidArgumentCount(
                String::from_str("+ requires at least one argument."),
            ),
        );
    }
    let n = args.len();
    proof {
        assert(am.subrange(0, n as int) =~= am);
    }
    let mut acc = Numeric::Int(0);
    let mut i: usize = 0;
    while i < n
        invariant
            0 <= i <= n,
            n == args@.len(),
            am == exprs_model(args@),
            am.len() == n,
            forall|j: int| 0 <= j < n ==> am[j] == #[trigger] args@[j]@,
            spec_fold_add(am, Numeric::Int(0)) == spec_fold_add(
                am.subrange(i as int, n as int),
                acc,
            ),
        decreases n - i,
    {
        proof {
            assert(am.subrange(i as int, n as int)[0] == am[i as int]);
            assert(am.subrange(i as int, n as int).drop_first() =~= am.subrange(
                i as int + 1,
                n as int,
            ));
        }
        match &args[i] {
            Expression::Atom(Atom::Number(v)) => {
                proof {
                    assert(am[i as int] == args@[i as int]@);
                    assert(am[i as int] == ExprM::Atom(AtomM::Number(*v)));
                }
                acc = v.add(acc);
            },
            _ => {
                proof {
                    assert(am[i as int] == args@[i as int]@);
                    assert(match am[i as int] {
                        ExprM::Atom(AtomM::Number(_)) => false,
                        _ => true,
                    });
                }
                return Err(
                    LockjawRuntimeError::InvalidArguments(
                        String::from_str("Cannot add non-number"),
                    ),
                );
            },
        }
        i = i + 1;
    }
    proof {
        assert(am.subrange(n as int, n as int) =~= Seq::<ExprM>::empty());
    }
    Ok(Expression::Atom(Atom::Number(acc)))
}

/// `-`: negation of one number, or a left fold of subtraction.
pub fn sub(args: Vec<Expression>) -> (r: Result<Expression, LockjawRuntimeError>)
    ensures
        res_model(r) == spec_builtin_sub(exprs_model(args@)),
{
    let ghost am = exprs_model(args@);
    proof {
        lemma_exprs_model(args@);
    }
    if args.len() == 0 {
        return Err(
            LockjawRuntimeError::InvalidArgumentCount(
                String::from_str("- requires at least one argument."),
            ),
        );
    }
    let n = args.len();
    let first = match &args[0] {
        Expression::Atom(a) => a,
        _ => {
            return Err(
                LockjawRuntimeError::InvalidArguments(
                    String::from_str("Cannot subtract non-number"),
                ),
            );
        },
    };
    if n == 1 {
        return match first {
            Atom::Number(num) => Ok(Expression::Atom(Atom::Number(num.neg()))),
            _ => Err(
                LockjawRuntimeError::InvalidArguments(String::from_str("Cannot negate non-number")),
            ),
        };
    }
    let mut acc = first.duplicate();
    proof {
        assert(am[0] == ExprM::Atom(first@));
        assert(am.drop_first() =~= am.subrange(1, n as int));
    }
    let mut i: usize = 1;
    while i < n
        invariant
            1 <= i <= n,
            n == args@.len(),
            am == exprs_model(args@),
            am.len() == n,
            am[0] is Atom,
            forall|j: int| 0 <= j < n ==> am[j] == #[trigger] args@[j]@,
            spec_fold_sub(am.drop_first(), am[0]->Atom_0) == spec_fold_sub(
                am.subrange(i as int, n as int),
                acc@,
            ),
        decreases n - i,
    {
        proof {
            assert(am.subrange(i as int, n as int)[0] == am[i as int]);
            assert(am.subrange(i as int, n as int).drop_first() =~= am.subrange(
                i as int + 1,
                n as int,
            ));
        }
        let b = match &args[i] {
            Expression::Atom(Atom::Number(b)) => {
                proof {
                    assert(am[i as int] == args@[i as int]@);
                    assert(am[i as int] == ExprM::Atom(AtomM::Number(*b)));
                }
                *b
            },
            _ => {
                proof {
                    assert(am[i as int] == args@[i as int]@);
                    assert(match am[i as int] {
                        ExprM::Atom(AtomM::Number(_)) => false,
                        _ => true,
                    });
                }
                return Err(
                    LockjawRuntimeError::InvalidArguments(
                        String::from_str("Cannot subtract non-number"),
                    ),
                );
            },
        };
        match acc {
            Atom::Number(a) => {
                acc = Atom::Number(a.sub(b));
            },
            _ => {
                return Err(
                    LockjawRuntimeError::InvalidArguments(
                        String::from_str("Cannot subtract non-number"),
                    ),
                );
            },
        }
        i = i + 1;
    }
    proof {
        assert(am.subrange(n as int, n as int) =~= Seq::<ExprM>::empty());
        assert(am.drop_first() =~= am.subrange(1, n as int));
    }
    Ok(Expression::Atom(acc))
}

/// `*`: a fold of multiplication with the first argument as accumulator.
pub fn mul(args: Vec<Expression>) -> (r: Result<Expression, LockjawRuntimeError>)
    ensures
        res_model(r) == spec_builtin_mul(exprs_model(args@)),
{
    let ghost am = exprs_model(args@);
    proof {
        lemma_exprs_model(args@);
    }
    if args.len() == 0 {
        return Err(
            LockjawRuntimeError::InvalidArgumentCount(
                String::from_str("* requires at least one argument."),
            ),
        );
    }
    let n = args.len();
    let first = match &args[0] {
        Expression::Atom(a) => a,
        _ => {
            return Err(
                LockjawRuntimeError::InvalidArguments(
                    String::from_str("Cannot multiply a non-number"),
                ),
            );
        },
    };
    let mut acc = first.duplicate();
    proof {
        assert(am[0] == ExprM::Atom(first@));
        assert(am.drop_first() =~= am.subrange(1, n as int));
    }
    let mut i: usize = 1;
    while i < n
        invariant
            1 <= i <= n,
            n == args@.len(),
            am == exprs_model(args@),
            am.len() == n,
            am[0] is Atom,
            forall|j: int| 0 <= j < n ==> am[j] == #[trigger] args@[j]@,
            spec_fold_mul(am.drop_first(), am[0]->Atom_0) == spec_fold_mul(
                am.subrange(i as int, n as int),
                acc@,
            ),
        decreases n - i,
    {
        proof {
            assert(am.subrange(i as int, n as int)[0] == am[i as int]);
            assert(am.subrange(i as int, n as int).drop_first() =~= am.subrange(
                i as int + 1,
                n as int,
            ));
        }
        let b = match &args[i] {
            Expression::Atom(Atom::Number(b)) => {
                proof {
                    assert(am[i as int] == args@[i as int]@);
                    assert(am[i as int] == ExprM::Atom(AtomM::Number(*b)));
                }
                *b
            },
            _ => {
                proof {
                    assert(am[i as int] == args@[i as int]@);
                    assert(match am[i as int] {
                        ExprM::Atom(AtomM::Number(_)) => false,
                        _ => true,
                    });
                }
                return Err(
                    LockjawRuntimeError::InvalidArguments(
                        String::from_str("Cannot multiply a non-number"),
                    ),
                );
            },
        };
        match acc {
            Atom::Number(a) => {
                acc = Atom::Number(b.mul(a));
            },
            _ => {
                return Err(
                    LockjawRuntimeError::InvalidArguments(
                        String::from_str("Cannot multiply a non-number"),
                    ),
                );
            },
        }
        i = i + 1;
    }
    proof {
        assert(am.subrange(n as int, n as int) =~= Seq::<ExprM>::empty());
        assert(am.drop_first() =~= am.subrange(1, n as int));
    }
    Ok(Expression::Atom(acc))
}

/// `/`: a left fold of division; every quotient is a float.
pub fn div(args: Vec<Expression>) -> (r: Result<Expression, LockjawRuntimeError>)
    ensures
        res_model(r) == spec_builtin_div(exprs_model(args@)),
{
    let ghost am = exprs_model(args@);
    proof {
        lemma_exprs_model(args@);
    }
    if args.len() == 0 {
        return Err(
            LockjawRuntimeError::InvalidArgumentCount(
                String::from_str("/ requires at least one argument."),
            ),
        );
    }
    let n = args.len();
    let first = match &args[0] {
        Expression::Atom(a) => a,
        _ => {
            return Err(
                LockjawRuntimeError::InvalidArguments(
                    String::from_str("Cannot divide a non-number"),
                ),
            );
        },
    };
    let mut acc = first.duplicate();
    proof {
        assert(am[0] == ExprM::Atom(first@));
        assert(am.drop_first() =~= am.subrange(1, n as int));
    }
    let mut i: usize = 1;
    while i < n
        invariant
            1 <= i <= n,
            n == args@.len(),
            am == exprs_model(args@),
            am.len() == n,
            am[0] is Atom,
            forall|j: int| 0 <= j < n ==> am[j] == #[trigger] args@[j]@,
            spec_fold_div(am.drop_first(), am[0]->Atom_0) == spec_fold_div(
                am.subrange(i as int, n as int),
                acc@,
            ),
        decreases n - i,
    {
        proof {
            assert(am.subrange(i as int, n as int)[0] == am[i as int]);
            assert(am.subrange(i as int, n as int).drop_first() =~= am.subrange(
                i as int + 1,
                n as int,
            ));
        }
        let b = match &args[i] {
            Expression::Atom(Atom::Number(b)) => {
                proof {
                    assert(am[i as int] == args@[i as int]@);
                    assert(am[i as int] == ExprM::Atom(AtomM::Number(*b)));
                }
                *b
            },
            _ => {
                proof {
                    assert(am[i as int] == args@[i as int]@);
                    assert(match am[i as int] {
                        ExprM::Atom(AtomM::Number(_)) => false,
                        _ => true,
                    });
                }
                return Err(
                    LockjawRuntimeError::InvalidArguments(
                        String::from_str("Cannot divide a non-number"),
                    ),
                );
            },
        };
        match acc {
            Atom::Number(a) => {
                acc = Atom::Number(a.div(b));
            },
            _ => {
                return Err(
                    LockjawRuntimeError::InvalidArguments(
                        String::from_str("Cannot divide a non-number"),
                    ),
                );
            },
        }
        i = i + 1;
    }
    proof {
        assert(am.subrange(n as int, n as int) =~= Seq::<ExprM>::empty());
        assert(am.drop_first() =~= am.subrange(1, n as int));
    }
    Ok(Expression::Atom(acc))
}

/// `car`: the first element of a Q-expression.
pub fn car(args: Vec<Expression>) -> (r: Result<Expression, LockjawRuntimeError>)
    ensures
        res_model(r) == spec_builtin_car(exprs_model(args@)),
{
    proof {
        lemma_exprs_model(args@);
    }
    let mut args = args;
    if args.len() != 1 {
        return Err(
            LockjawRuntimeError::InvalidArgumentCount(
                String::from_str("Car only takes one argument."),
            ),
        );
    }
    let arg = args.remove(0);
    let mut items = match arg.get_from_q_expression() {
        Ok(v) => v,
        Err(e) => {
            return Err(e);
        },
    };
    proof {
        lemma_exprs_model(items@);
    }
    if items.len() == 0 {
        Ok(Expression::QExpression(items))
    } else {
        let first = items.remove(0);
        Ok(first)
    }
}

/// `cdr`: the tail of a Q-expression.
pub fn cdr(args: Vec<Expression>) -> (r: Result<Expression, LockjawRuntimeError>)
    ensures
        res_model(r) == spec_builtin_cdr(exprs_model(args@)),
{
    proof {
        lemma_exprs_model(args@);
    }
    let mut args = args;
    if args.len() != 1 {
        return Err(
            LockjawRuntimeError::InvalidArgumentCount(
                String::from_str("Cdr only takes one argument."),
            ),
        );
    }
    let arg = args.remove(0);
    let mut items = match arg.get_from_q_expression() {
        Ok(v) => v,
        Err(e) => {
            return Err(e);
        },
    };
    let ghost items0 = exprs_model(items@);
    if items.len() > 0 {
        let ghost iv0 = items@;
        items.remove(0);
        proof {
            lemma_exprs_model(iv0);
            lemma_exprs_model(items@);
            assert(items@ =~= iv0.drop_first());
            assert(exprs_model(items@) =~= items0.drop_first());
        }
    }
    Ok(Expression::QExpression(items))
}

/// `join`: concatenate two Q-expressions.
pub fn join(args: Vec<Expression>) -> (r: Result<Expression, LockjawRuntimeError>)
    ensures
        res_model(r) == spec_builtin_join(exprs_model(args@)),
{
    proof {
        lemma_exprs_model(args@);
    }
    let mut args = args;
    if args.len() != 2 {
        return Err(
            LockjawRuntimeError::InvalidArgumentCount(
                String::from_str("Join requires two arguments."),
            ),
        );
    }
    let second = args.remove(1);
    let first = args.remove(0);
    let mut a = match first.get_from_q_expression() {
        Ok(v) => v,
        Err(e) => {
            return Err(e);
        },
    };
    let mut b = match second.get_from_q_expression() {
        Ok(v) => v,
        Err(e) => {
            return Err(e);
        },
    };
    let ghost amod = exprs_model(a@);
    let ghost bmod = exprs_model(b@);
    let ghost av = a@;
    let ghost bv = b@;
    a.append(&mut b);
    proof {
        lemma_exprs_model(av);
        lemma_exprs_model(bv);
        lemma_exprs_model(a@);
        assert(a@ == av + bv);
        assert forall|j: int| 0 <= j < a@.len() implies exprs_model(a@)[j] == (amod + bmod)[j] by {
            if j < av.len() {
                assert(a@[j] == av[j]);
            } else {
                assert(a@[j] == bv[j - av.len()]);
            }
        }
        assert(exprs_model(a@) =~= amod + bmod);
    }
    Ok(Expression::QExpression(a))
}

/// `fun`: build a user function from formals and body.
pub fn fun(args: Vec<Expression>) -> (r: Result<Expression, LockjawRuntimeError>)
    ensures
        res_model(r) == spec_builtin_fun(exprs_model(args@)),
{
    let ghost am = exprs_model(args@);
    proof {
        lemma_exprs_model(args@);
    }
    let mut args = args;
    if args.len() != 2 {
        return Err(
            LockjawRuntimeError::InvalidArgumentCount(
                String::from_str("Functions require three arguments!"),
            ),
        );
    }
    let second = args.remove(1);
    let first = args.remove(0);
    let formals = match first.get_from_q_expression() {
        Ok(v) => v,
        Err(e) => {
            return Err(e);
        },
    };
    let body = match second.get_from_q_expression() {
        Ok(v) => v,
        Err(e) => {
            return Err(e);
        },
    };
    let curried: Vec<Expression> = Vec::new();
    proof {
        assert(exprs_model(curried@) =~= Seq::<ExprM>::empty());
        assert(am[0] matches ExprM::QExpr(f) && exprs_model(formals@) == f);
        assert(am[1] matches ExprM::QExpr(b) && exprs_model(body@) == b);
    }
    let uf = UserFunc { args: formals, body, curried };
    proof {
        assert(ufunc_model(uf) == UserFuncM {
            args: exprs_model(uf.args@),
            body: exprs_model(uf.body@),
            curried: exprs_model(uf.curried@),
        });
        assert(ufunc_model(uf).curried == Seq::<ExprM>::empty());
    }
    let v = Value::UserDef(uf);
    proof {
        assert(v@ matches ValueM::UserDef(f) && f.curried == Seq::<ExprM>::empty());
    }
    let a = Atom::Value(v);
    proof {
        assert(a@ matches AtomM::Value(ValueM::UserDef(f)) && f.curried == Seq::<ExprM>::empty());
    }
    let r = Expression::Atom(a);
    proof {
        assert(r@ matches ExprM::Atom(AtomM::Value(ValueM::UserDef(f))) && f.curried
            == Seq::<ExprM>::empty());
    }
    Ok(r)
}

/// `null?`: true of `Null` and of empty S- and Q-expressions.
pub fn null_q(args: Vec<Expression>) -> (r: Result<Expression, LockjawRuntimeError>)
    ensures
        res_model(r) == spec_builtin_null_q(exprs_model(args@)),
{
    proof {
        lemma_exprs_model(args@);
    }
    let mut args = args;
    if args.len() != 1 {
        return Err(
            LockjawRuntimeError::InvalidArgumentCount(
                String::from_str("null? takes exactly one argument"),
            ),
        );
    }
    let arg = args.remove(0);
    proof {
        if arg@ matches ExprM::SExpr(items) {
            lemma_exprs_model_len_eq(arg);
        }
        if arg@ matches ExprM::QExpr(items) {
            lemma_exprs_model_len_eq(arg);
        }
    }
    match arg {
        Expression::Null => Ok(Expression::Atom(Atom::Bool(true))),
        Expression::QExpression(v) => Ok(Expression::Atom(Atom::Bool(v.is_empty()))),
        Expression::SExpression(v) => Ok(Expression::Atom(Atom::Bool(v.is_empty()))),
        Expression::Atom(_) => Ok(Expression::Atom(Atom::Bool(false))),
    }
}

/// The model list of a bracketed expression is as long as its vector.
proof fn lemma_exprs_model_len_eq(e: Expression)
    ensures
        e matches Expression::SExpression(v) ==> exprs_model(v@).len() == v@.len(),
        e matches Expression::QExpression(v) ==> exprs_model(v@).len() == v@.len(),
{
    match e {
        Expression::SExpression(v) => {
            lemma_exprs_model(v@);
        },
        Expression::QExpression(v) => {
            lemma_exprs_model(v@);
        },
        _ => {},
    }
}

/// `atom?`: true exactly of atoms.
pub fn atom_q(args: Vec<Expression>) -> (r: Result<Expression, LockjawRuntimeError>)
    ensures
        res_model(r) == spec_builtin_atom_q(exprs_model(args@)),
{
    proof {
        lemma_exprs_model(args@);
    }
    let mut args = args;
    if args.len() != 1 {
        return Err(
            LockjawRuntimeError::InvalidArgumentCount(
                String::from_str("null? takes exactly one argument"),
            ),
        );
    }
    let arg = args.remove(0);
    match arg {
        Expression::Atom(_) => Ok(Expression::Atom(Atom::Bool(true))),
        _ => Ok(Expression::Atom(Atom::Bool(false))),
    }
}

/// Take exactly two arguments out of the vector, or say how many were owed.
fn take_two(args: Vec<Expression>, msg: &str) -> (r: Result<
    (Expression, Expression),
    LockjawRuntimeError,
>)
    ensures
        exprs_model(args@).len() == 2 ==> (r matches Ok(p) && p.0@ == exprs_model(args@)[0] && p.1@
            == exprs_model(args@)[1]),
        exprs_model(args@).len() != 2 ==> (r matches Err(e) && e@
            == RuntimeErrM::InvalidArgumentCount),
{
    proof {
        lemma_exprs_model(args@);
    }
    let mut args = args;
    if args.len() != 2 {
        return Err(LockjawRuntimeError::InvalidArgumentCount(String::from_str(msg)));
    }
    let b = args.remove(1);
    let a = args.remove(0);
    Ok((a, b))
}

/// `and?`, `or?`, `xor?`: the logical connectives over two booleans.
pub fn logic_op(args: Vec<Expression>, op: BuiltinOp) -> (r: Result<
    Expression,
    LockjawRuntimeError,
>)
    requires
        op == BuiltinOp::AndQ || op == BuiltinOp::OrQ || op == BuiltinOp::XorQ,
    ensures
        res_model(r) == spec_builtin_logic(exprs_model(args@), op),
{
    let ghost am = exprs_model(args@);
    let msg = match op {
        BuiltinOp::AndQ => "and? takes exactly two arguments",
        BuiltinOp::OrQ => "or? takes exactly two arguments",
        _ => "xor? takes exactly two arguments",
    };
    let (a, b) = match take_two(args, msg) {
        Ok(p) => p,
        Err(e) => {
            return Err(e);
        },
    };
    match (a, b) {
        (Expression::Atom(Atom::Bool(x)), Expression::Atom(Atom::Bool(y))) => {
            let v = match op {
                BuiltinOp::AndQ => x && y,
                BuiltinOp::OrQ => x || y,
                _ => x ^ y,
            };
            Ok(Expression::Atom(Atom::Bool(v)))
        },
        _ => Err(
            LockjawRuntimeError::InvalidArguments(String::from_str("Arguments must be bool.")),
        ),
    }
}

pub fn and_q(args: Vec<Expression>) -> (r: Result<Expression, LockjawRuntimeError>)
    ensures
        res_model(r) == spec_builtin_logic(exprs_model(args@), BuiltinOp::AndQ),
{
    logic_op(args, BuiltinOp::AndQ)
}

pub fn or_q(args: Vec<Expression>) -> (r: Result<Expression, LockjawRuntimeError>)
    ensures
        res_model(r) == spec_builtin_logic(exprs_model(args@), BuiltinOp::OrQ),
{
    logic_op(args, BuiltinOp::OrQ)
}

pub fn xor_q(args: Vec<Expression>) -> (r: Result<Expression, LockjawRuntimeError>)
    ensures
        res_model(r) == spec_builtin_logic(exprs_model(args@), BuiltinOp::XorQ),
{
    logic_op(args, BuiltinOp::XorQ)
}

/// `gt?`, `lt?`, `eq?`: comparisons over two numbers, after widening.
pub fn cmp_op(args: Vec<Expression>, op: BuiltinOp) -> (r: Result<Expression, LockjawRuntimeError>)
    requires
        op == BuiltinOp::GtQ || op == BuiltinOp::LtQ || op == BuiltinOp::EqQ,
    ensures
        res_model(r) == spec_builtin_cmp(exprs_model(args@), op),
{
    let ghost am = exprs_model(args@);
    let msg = match op {
        BuiltinOp::GtQ => "gt? takes exactly two arguments",
        BuiltinOp::LtQ => "lt? takes exactly two arguments",
        _ => "eq? takes exactly two arguments",
    };
    let (a, b) = match take_two(args, msg) {
        Ok(p) => p,
        Err(e) => {
            return Err(e);
        },
    };
    match (a, b) {
        (Expression::Atom(Atom::Number(x)), Expression::Atom(Atom::Number(y))) => {
            let v = match op {
                BuiltinOp::GtQ => y.lt(x),
                BuiltinOp::LtQ => x.lt(y),
                _ => x.eq_num(y),
            };
            Ok(Expression::Atom(Atom::Bool(v)))
        },
        _ => Err(
            LockjawRuntimeError::InvalidArguments(String::from_str("Arguments must be numeric.")),
        ),
    }
}

pub fn gt_q(args: Vec<Expression>) -> (r: Result<Expression, LockjawRuntimeError>)
    ensures
        res_model(r) == spec_builtin_cmp(exprs_model(args@), BuiltinOp::GtQ),
{
    cmp_op(args, BuiltinOp::GtQ)
}

pub fn lt_q(args: Vec<Expression>) -> (r: Result<Expression, LockjawRuntimeError>)
    ensures
        res_model(r) == spec_builtin_cmp(exprs_model(args@), BuiltinOp::LtQ),
{
    cmp_op(args, BuiltinOp::LtQ)
}

pub fn eq_q(args: Vec<Expression>) -> (r: Result<Expression, LockjawRuntimeError>)
    ensures
        res_model(r) == spec_builtin_cmp(exprs_model(args@), BuiltinOp::EqQ),
{
    cmp_op(args, BuiltinOp::EqQ)
}

/// `zero?`: whether a number equals zero after widening.
pub fn zero_q(args: Vec<Expression>) -> (r: Result<Expression, LockjawRuntimeError>)
    ensures
        res_model(r) == spec_builtin_zero_q(exprs_model(args@)),
{
    proof {
        lemma_exprs_model(args@);
    }
    let mut args = args;
    if args.len() != 1 {
        return Err(
            LockjawRuntimeError::InvalidArgumentCount(
                String::from_str("xor? takes exactly one argument"),
            ),
        );
    }
    let arg = args.remove(0);
    match arg {
        Expression::Atom(Atom::Number(a)) => Ok(
            Expression::Atom(Atom::Bool(a.eq_num(Numeric::Int(0)))),
        ),
        _ => Err(
            LockjawRuntimeError::InvalidArguments(
                String::from_str("Arguments to gt? must be numeric."),
            ),
        ),
    }
}

/// Run the builtin a tag names.
pub fn call_builtin(op: BuiltinOp, args: Vec<Expression>) -> (r: Result<
    Expression,
    LockjawRuntimeError,
>)
    ensures
        res_model(r) == spec_builtin(op, exprs_model(args@)),
{
    match op {
        BuiltinOp::Add => crate::builtins::add(args),
        BuiltinOp::Sub => crate::builtins::sub(args),
        BuiltinOp::Mul => crate::builtins::mul(args),
        BuiltinOp::Div => div(args),
        BuiltinOp::Car => car(args),
        BuiltinOp::Cdr => cdr(args),
        BuiltinOp::Join => join(args),
        BuiltinOp::Fun => fun(args),
        BuiltinOp::NullQ => null_q(args),
        BuiltinOp::AtomQ => atom_q(args),
        BuiltinOp::AndQ => and_q(args),
        BuiltinOp::OrQ => or_q(args),
        BuiltinOp::XorQ => xor_q(args),
        BuiltinOp::GtQ => gt_q(args),
        BuiltinOp::LtQ => lt_q(args),
        BuiltinOp::EqQ => eq_q(args),
        BuiltinOp::ZeroQ => zero_q(args),
    }
}

} // verus!
