//! Laws of the interpreter, stated over the spec-level models and proved
//! once and for all.
use vstd::prelude::*;
use crate::environment::{env_def, env_lookup, env_pop, env_push, env_put, EnvM};
use crate::evaluator::{
    apply_spec, bind_formals_spec, eval_spec, lookup_symbol_spec, resolve_spec, FilesM,
};
use crate::parser::spec_parse_text;
use crate::builtins::{spec_builtin_add, spec_fold_add};
use crate::numeric::{spec_add, spec_div, spec_mul, spec_sub, spec_widen, Numeric};
use crate::floatbits::{f64_add, f64_of_i64};
use crate::types::{AtomM, ExprM, RuntimeErrM, UserFuncM, ValueM};

verus! {

broadcast use vstd::std_specs::vec::group_vec_axioms;

/// Quoting round-trips: evaluating an S-expression whose head is the symbol
/// `quote` yields the remaining items as an inert Q-expression, unevaluated
/// and verbatim, and leaves the environment alone. In particular, for any
/// expression parsed from text — always an S-expression at top level —
/// prepending `quote` turns its body into the same body behind a
/// Q-expression wrapper.
pub proof fn lemma_quote_round_trip(env: EnvM, files: FilesM, items: Seq<ExprM>, fuel: nat)
    ensures
        eval_spec(
            env,
            files,
            ExprM::SExpr(seq![ExprM::Atom(AtomM::Symbol("quote"@))] + items),
            fuel,
        ) == (env, Ok::<ExprM, RuntimeErrM>(ExprM::QExpr(items))),
{
    let body = seq![ExprM::Atom(AtomM::Symbol("quote"@))] + items;
    assert(body.len() == 1 + items.len());
    assert(body[0] == ExprM::Atom(AtomM::Symbol("quote"@)));
    assert(body.drop_first() =~= items);
    assert(resolve_spec(env, files, body, fuel) == (
        env,
        Ok::<ExprM, RuntimeErrM>(ExprM::QExpr(items)),
    ));
}

/// The round trip through text: whatever expression a program parses to —
/// always an S-expression at top level — evaluating it behind a leading
/// `quote` gives back its own body as a Q-expression, unevaluated.
pub proof fn lemma_quote_round_trip_of_parsed(
    env: EnvM,
    files: FilesM,
    text: Seq<char>,
    items: Seq<ExprM>,
    fuel: nat,
)
    requires
        spec_parse_text(text) == Ok::<ExprM, crate::parser::ParseErrM>(ExprM::SExpr(items)),
    ensures
        eval_spec(
            env,
            files,
            ExprM::SExpr(seq![ExprM::Atom(AtomM::Symbol("quote"@))] + items),
            fuel,
        ) == (env, Ok::<ExprM, RuntimeErrM>(ExprM::QExpr(items))),
{
    lemma_quote_round_trip(env, files, items, fuel);
}

/// Numeric widening: addition, subtraction and multiplication of two
/// integers stay integers, while any operation that touches a float — and
/// every division — widens to a float.
pub proof fn lemma_numeric_widening(a: Numeric, b: Numeric)
    ensures
        a is Int && b is Int ==> spec_add(a, b) is Int && spec_sub(a, b) is Int && spec_mul(a, b)
            is Int,
        a is Float || b is Float ==> spec_add(a, b) is Float && spec_sub(a, b) is Float
            && spec_mul(a, b) is Float,
        spec_div(a, b) is Float,
{
}

/// Numeric widening at the `+` builtin: two integer atoms sum to an integer
/// atom, and an integer next to a float sums to the float of the widened
/// operands.
pub proof fn lemma_builtin_add_widening(a: i64, b: i64, f: u64)
    ensures
        spec_builtin_add(
            seq![
                ExprM::Atom(AtomM::Number(Numeric::Int(a))),
                ExprM::Atom(AtomM::Number(Numeric::Int(b))),
            ],
        ) == Ok::<ExprM, RuntimeErrM>(
            ExprM::Atom(AtomM::Number(Numeric::Int(b.wrapping_add(a)))),
        ),
        spec_builtin_add(
            seq![
                ExprM::Atom(AtomM::Number(Numeric::Int(a))),
                ExprM::Atom(AtomM::Number(Numeric::Float(f))),
            ],
        ) == Ok::<ExprM, RuntimeErrM>(
            ExprM::Atom(AtomM::Number(Numeric::Float(f64_add(f, f64_of_i64(a))))),
        ),
{
    let ii = seq![
        ExprM::Atom(AtomM::Number(Numeric::Int(a))),
        ExprM::Atom(AtomM::Number(Numeric::Int(b))),
    ];
    assert(ii[0] == ExprM::Atom(AtomM::Number(Numeric::Int(a))));
    assert(ii.drop_first() =~= seq![ExprM::Atom(AtomM::Number(Numeric::Int(b)))]);
    assert(ii.drop_first()[0] == ExprM::Atom(AtomM::Number(Numeric::Int(b))));
    assert(ii.drop_first().drop_first() =~= Seq::<ExprM>::empty());
    assert(spec_add(Numeric::Int(a), Numeric::Int(0)) == Numeric::Int(a)) by {
        assert(a.wrapping_add(0) == a);
    }
    assert(spec_fold_add(ii, Numeric::Int(0)) == spec_fold_add(ii.drop_first(), Numeric::Int(a)));
    assert(spec_fold_add(ii.drop_first(), Numeric::Int(a)) == spec_fold_add(
        Seq::<ExprM>::empty(),
        spec_add(Numeric::Int(b), Numeric::Int(a)),
    ));
    assert(spec_fold_add(
        Seq::<ExprM>::empty(),
        spec_add(Numeric::Int(b), Numeric::Int(a)),
    ) == Ok::<ExprM, RuntimeErrM>(
        ExprM::Atom(AtomM::Number(Numeric::Int(b.wrapping_add(a)))),
    ));
    let fi = seq![
        ExprM::Atom(AtomM::Number(Numeric::Int(a))),
        ExprM::Atom(AtomM::Number(Numeric::Float(f))),
    ];
    assert(fi[0] == ExprM::Atom(AtomM::Number(Numeric::Int(a))));
    assert(fi.drop_first() =~= seq![ExprM::Atom(AtomM::Number(Numeric::Float(f)))]);
    assert(fi.drop_first()[0] == ExprM::Atom(AtomM::Number(Numeric::Float(f))));
    assert(fi.drop_first().drop_first() =~= Seq::<ExprM>::empty());
    assert(spec_widen(Numeric::Int(a)) == f64_of_i64(a));
    assert(spec_fold_add(fi, Numeric::Int(0)) == spec_fold_add(fi.drop_first(), Numeric::Int(a)));
    assert(spec_fold_add(fi.drop_first(), Numeric::Int(a)) == spec_fold_add(
        Seq::<ExprM>::empty(),
        spec_add(Numeric::Float(f), Numeric::Int(a)),
    ));
    assert(spec_add(Numeric::Float(f), Numeric::Int(a)) == Numeric::Float(
        f64_add(f, f64_of_i64(a)),
    ));
}

/// Environment shadowing: from a top-level environment, defining `x`
/// globally, then binding a local `x` inside a call frame, makes the local
/// value visible; popping the frame brings the global value back.
pub proof fn lemma_environment_shadowing(env: EnvM, x: Seq<char>, v1: ValueM, v2: ValueM)
    requires
        env.len() == 1,
    ensures
        ({
            let genv = env_def(env, x, v1);
            let inside = env_put(env_push(genv), x, v2);
            &&& env_lookup(inside, x) == Some(v2)
            &&& env_pop(inside) == genv
            &&& env_lookup(genv, x) == Some(v1)
        }),
{
    let genv = env_def(env, x, v1);
    let inside = env_put(env_push(genv), x, v2);
    assert(genv.len() == 1);
    assert(genv[0] == env[0].insert(x, v1));
    assert(inside.len() == 2);
    assert(inside.last() == Map::<Seq<char>, ValueM>::empty().insert(x, v2));
    assert(env_pop(inside) =~~= genv);
}

/// Shadowing at symbol resolution: with a global `x` standing for one
/// expression and a call-frame `x` standing for another, the symbol
/// resolves to the local expression inside the call and to the global one
/// again once the frame is popped.
pub proof fn lemma_symbol_shadowing(env: EnvM, x: Seq<char>, e1: ExprM, e2: ExprM)
    requires
        env.len() == 1,
    ensures
        ({
            let genv = env_def(env, x, ValueM::Variable(Box::new(e1)));
            let inside = env_put(env_push(genv), x, ValueM::Variable(Box::new(e2)));
            &&& lookup_symbol_spec(inside, x) == Ok::<ExprM, RuntimeErrM>(e2)
            &&& lookup_symbol_spec(env_pop(inside), x) == Ok::<ExprM, RuntimeErrM>(e1)
        }),
{
    lemma_environment_shadowing(env, x, ValueM::Variable(Box::new(e1)), ValueM::Variable(
        Box::new(e2),
    ));
}

/// Partial application associates: applying a user function to too few
/// arguments yields a new function carrying them, and applying that
/// function to more arguments behaves exactly like applying the original to
/// all of the arguments at once. So `((f a) b) c` is `(f a b c)` for every
/// user function of sufficient arity.
pub proof fn lemma_partial_application_associates(
    env: EnvM,
    files: FilesM,
    f: UserFuncM,
    args1: Seq<ExprM>,
    args2: Seq<ExprM>,
    fuel: nat,
)
    requires
        f.curried.len() + args1.len() < f.args.len(),
    ensures
        ({
            let partial = UserFuncM { args: f.args, body: f.body, curried: f.curried + args1 };
            &&& apply_spec(env, files, f, args1, fuel) == (
                env,
                Ok::<ExprM, RuntimeErrM>(
                    ExprM::Atom(AtomM::Value(ValueM::UserDef(partial))),
                ),
            )
            &&& apply_spec(env, files, partial, args2, fuel) == apply_spec(
                env,
                files,
                f,
                args1 + args2,
                fuel,
            )
        }),
{
    let partial = UserFuncM { args: f.args, body: f.body, curried: f.curried + args1 };
    assert((f.curried + args1) + args2 =~= f.curried + (args1 + args2));
    let n = f.args.len();
    let c2 = partial.curried.len() + args2.len();
    if c2 == n {
        assert(bind_formals_spec(env_push(env), f.args, partial.curried + args2)
            == bind_formals_spec(env_push(env), f.args, f.curried + (args1 + args2)));
    } else if c2 < n {
        assert(partial.curried + args2 =~= f.curried + (args1 + args2));
    }
}

/// Arity at application: more arguments than formals fail with an argument
/// count error; exactly as many run the body against the bound formals; and
/// fewer return a new callable carrying the arguments. The environment is
/// untouched except by the body itself.
pub proof fn lemma_application_arity(
    env: EnvM,
    files: FilesM,
    f: UserFuncM,
    args: Seq<ExprM>,
    fuel: nat,
)
    ensures
        f.curried.len() + args.len() > f.args.len() ==> apply_spec(env, files, f, args, fuel) == (
            env,
            Err::<ExprM, RuntimeErrM>(RuntimeErrM::InvalidArgumentCount),
        ),
        f.curried.len() + args.len() < f.args.len() ==> apply_spec(env, files, f, args, fuel) == (
            env,
            Ok::<ExprM, RuntimeErrM>(
                ExprM::Atom(
                    AtomM::Value(
                        ValueM::UserDef(
                            UserFuncM { args: f.args, body: f.body, curried: f.curried + args },
                        ),
                    ),
                ),
            ),
        ),
        f.curried.len() + args.len() == f.args.len() ==> apply_spec(
            env,
            files,
            f,
            args,
            fuel,
        ).1 == resolve_spec(
            bind_formals_spec(env_push(env), f.args, f.curried + args),
            files,
            f.body,
            fuel,
        ).1,
{
}

} // verus!
