//! The shared data model: expressions, atoms, resolved values, and the
//! runtime error taxonomy, together with their ghost models.
//!
//! An `Expression` is a plain owned tree. Its ghost model `ExprM` replaces
//! vectors by sequences and strings by character sequences, so contracts can
//! speak of expressions as mathematical values.
use vstd::prelude::*;
use crate::numeric::Numeric;
use crate::parser::{ParseErrM, ParsingError};
use vstd::string::StringExecFns;

verus! {

broadcast use vstd::std_specs::vec::group_vec_axioms;

// ---------------------------------------------------------------------------
// Executable types
// ---------------------------------------------------------------------------
/// The reasons evaluation can fail. Each variant's text is diagnostic only;
/// the ghost model keeps the kind and drops the prose.
#[derive(Debug, PartialEq)]
pub enum LockjawRuntimeError {
    InvalidArguments(String),
    InvalidArgumentCount(String),
    InvalidFunction(String),
    ParserError(ParsingError),
    /// The named file is not in the evaluator's file store; the caller may
    /// read it, provide it, and evaluate again.
    FileError(String),
    CondFailure,
    UnboundExpression,
    /// The evaluation recursion budget ran out.
    RecursionLimit,
}

/// The builtin functions, dispatched by tag.
#[derive(Debug, Clone, Copy, PartialEq, Eq)]
pub enum BuiltinOp {
    Add,
    Sub,
    Mul,
    Div,
    Car,
    Cdr,
    Join,
    Fun,
    NullQ,
    AtomQ,
    AndQ,
    OrQ,
    XorQ,
    GtQ,
    LtQ,
    EqQ,
    ZeroQ,
}

/// A user-defined function: formal parameters, body, and the arguments
/// already bound by partial application.
#[derive(Debug, PartialEq)]
pub struct UserFunc {
    pub args: Vec<Expression>,
    pub body: Vec<Expression>,
    pub curried: Vec<Expression>,
}

/// The payload of a resolved environment binding.
#[derive(Debug, PartialEq)]
pub enum Value {
    Builtin(BuiltinOp),
    UserDef(UserFunc),
    // Special forms: they need the evaluator itself, so they are dispatched
    // by identity rather than called like builtins.
    Eval,
    Def,
    Cond,
    Load,
    Variable(Box<Expression>),
}

/// A leaf expression.
#[derive(Debug, PartialEq)]
pub enum Atom {
    Number(Numeric),
    Symbol(String),
    Value(Value),
    String(String),
    Bool(bool),
}

/// The homoiconic tree: an S-expression is evaluated, a Q-expression is
/// inert data, and `Null` is the result of side-effecting forms.
#[derive(Debug, PartialEq)]
pub enum Expression {
    Atom(Atom),
    SExpression(Vec<Expression>),
    QExpression(Vec<Expression>),
    Null,
}

// ---------------------------------------------------------------------------
// Ghost models
// ---------------------------------------------------------------------------
pub enum ExprM {
    Atom(AtomM),
    SExpr(Seq<ExprM>),
    QExpr(Seq<ExprM>),
    Null,
}

pub enum AtomM {
    Number(Numeric),
    Symbol(Seq<char>),
    Value(ValueM),
    Str(Seq<char>),
    Bool(bool),
}

pub enum ValueM {
    Builtin(BuiltinOp),
    UserDef(UserFuncM),
    Eval,
    Def,
    Cond,
    Load,
    Variable(Box<ExprM>),
}

pub struct UserFuncM {
    pub args: Seq<ExprM>,
    pub body: Seq<ExprM>,
    pub curried: Seq<ExprM>,
}

/// Model of a runtime failure: the kind, without its diagnostic text.
pub enum RuntimeErrM {
    InvalidArguments,
    InvalidArgumentCount,
    InvalidFunction,
    Parser(ParseErrM),
    File(Seq<char>),
    CondFailure,
    Unbound,
    RecursionLimit,
}

// ---------------------------------------------------------------------------
// Views
// ---------------------------------------------------------------------------
pub open spec fn exprs_model(s: Seq<Expression>) -> Seq<ExprM>
    decreases s,
{
    if s.len() == 0 {
        Seq::empty()
    } else {
        exprs_model(s.drop_last()).push(expr_model(s.last()))
    }
}

pub open spec fn expr_model(e: Expression) -> ExprM
    decreases e,
{
    match e {
        Expression::Atom(a) => ExprM::Atom(atom_model(a)),
        Expression::SExpression(v) => ExprM::SExpr(exprs_model(v@)),
        Expression::QExpression(v) => ExprM::QExpr(exprs_model(v@)),
        Expression::Null => ExprM::Null,
    }
}

pub open spec fn atom_model(a: Atom) -> AtomM
    decreases a,
{
    match a {
        Atom::Number(n) => AtomM::Number(n),
        Atom::Symbol(s) => AtomM::Symbol(s@),
        Atom::Value(v) => AtomM::Value(value_model(v)),
        Atom::String(s) => AtomM::Str(s@),
        Atom::Bool(b) => AtomM::Bool(b),
    }
}

pub open spec fn value_model(v: Value) -> ValueM
    decreases v,
{
    match v {
        Value::Builtin(op) => ValueM::Builtin(op),
        Value::UserDef(f) => ValueM::UserDef(ufunc_model(f)),
        Value::Eval => ValueM::Eval,
        Value::Def => ValueM::Def,
        Value::Cond => ValueM::Cond,
        Value::Load => ValueM::Load,
        Value::Variable(b) => ValueM::Variable(Box::new(expr_model(*b))),
    }
}

pub open spec fn ufunc_model(f: UserFunc) -> UserFuncM
    decreases f,
{
    UserFuncM {
        args: exprs_model(f.args@),
        body: exprs_model(f.body@),
        curried: exprs_model(f.curried@),
    }
}

impl View for Expression {
    type V = ExprM;

    open spec fn view(&self) -> ExprM {
        expr_model(*self)
    }
}

impl View for Atom {
    type V = AtomM;

    open spec fn view(&self) -> AtomM {
        atom_model(*self)
    }
}

impl View for Value {
    type V = ValueM;

    open spec fn view(&self) -> ValueM {
        value_model(*self)
    }
}

impl View for UserFunc {
    type V = UserFuncM;

    open spec fn view(&self) -> UserFuncM {
        ufunc_model(*self)
    }
}

impl View for LockjawRuntimeError {
    type V = RuntimeErrM;

    open spec fn view(&self) -> RuntimeErrM {
        match self {
            LockjawRuntimeError::InvalidArguments(_) => RuntimeErrM::InvalidArguments,
            LockjawRuntimeError::InvalidArgumentCount(_) => RuntimeErrM::InvalidArgumentCount,
            LockjawRuntimeError::InvalidFunction(_) => RuntimeErrM::InvalidFunction,
            LockjawRuntimeError::ParserError(e) => RuntimeErrM::Parser(e@),
            LockjawRuntimeError::FileError(p) => RuntimeErrM::File(p@),
            LockjawRuntimeError::CondFailure => RuntimeErrM::CondFailure,
            LockjawRuntimeError::UnboundExpression => RuntimeErrM::Unbound,
            LockjawRuntimeError::RecursionLimit => RuntimeErrM::RecursionLimit,
        }
    }
}

/// The model of an evaluation result.
pub open spec fn res_model(r: Result<Expression, LockjawRuntimeError>) -> Result<
    ExprM,
    RuntimeErrM,
> {
    match r {
        Ok(e) => Ok(expr_model(e)),
        Err(e) => Err(e@),
    }
}

/// Each element of `exprs_model(s)` is the model of the matching element.
pub proof fn lemma_exprs_model(s: Seq<Expression>)
    ensures
        exprs_model(s).len() == s.len(),
        forall|i: int| 0 <= i < s.len() ==> exprs_model(s)[i] == expr_model(s[i]),
    decreases s.len(),
{
    if s.len() > 0 {
        lemma_exprs_model(s.drop_last());
    }
}

// ---------------------------------------------------------------------------
// Sizes, for termination of evaluation
// ---------------------------------------------------------------------------
/// The number of nodes of an expression model.
pub open spec fn esize(e: ExprM) -> nat
    decreases e,
{
    match e {
        ExprM::Atom(_) => 1,
        ExprM::SExpr(s) => 1 + esizes(s),
        ExprM::QExpr(s) => 1 + esizes(s),
        ExprM::Null => 1,
    }
}

/// The node count of a sequence of expression models.
pub open spec fn esizes(s: Seq<ExprM>) -> nat
    decreases s,
{
    if s.len() == 0 {
        0
    } else {
        esize(s[0]) + esizes(s.drop_first())
    }
}

// ---------------------------------------------------------------------------
// Lexeme spans
// ---------------------------------------------------------------------------
/// How many lexemes an expression spans: an atom is one lexeme, a bracketed
/// form two more than its children, and `Null` renders as `()`.
pub open spec fn spec_lexeme_len(e: ExprM) -> nat
    decreases e,
{
    match e {
        ExprM::Atom(_) => 1,
        ExprM::SExpr(s) => 2 + spec_lexeme_lens(s),
        ExprM::QExpr(s) => 2 + spec_lexeme_lens(s),
        ExprM::Null => 2,
    }
}

/// The lexeme span of a sequence of expressions.
pub open spec fn spec_lexeme_lens(s: Seq<ExprM>) -> nat
    decreases s,
{
    if s.len() == 0 {
        0
    } else {
        spec_lexeme_lens(s.drop_last()) + spec_lexeme_len(s.last())
    }
}

/// Every expression spans at least one lexeme.
pub broadcast proof fn lemma_lexeme_len_pos(e: ExprM)
    ensures
        #[trigger] spec_lexeme_len(e) >= 1,
{
}

/// Every expression model has at least one node.
pub broadcast proof fn lemma_esize_pos(e: ExprM)
    ensures
        #[trigger] esize(e) >= 1,
{
}

/// Dropping the first expression drops the first model.
pub proof fn lemma_exprs_model_drop_first(s: Seq<Expression>)
    requires
        s.len() > 0,
    ensures
        exprs_model(s.drop_first()) == exprs_model(s).drop_first(),
{
    lemma_exprs_model(s);
    lemma_exprs_model(s.drop_first());
    assert forall|j: int| 0 <= j < s.len() - 1 implies exprs_model(s.drop_first())[j]
        == exprs_model(s).drop_first()[j] by {
        assert(s.drop_first()[j] == s[j + 1]);
    }
    assert(exprs_model(s.drop_first()) =~= exprs_model(s).drop_first());
}

// ---------------------------------------------------------------------------
// Deep copies
// ---------------------------------------------------------------------------
/// Copy a vector of expressions, model for model.
pub fn dup_exprs(v: &Vec<Expression>) -> (r: Vec<Expression>)
    ensures
        r@.len() == v@.len(),
        exprs_model(r@) == exprs_model(v@),
    decreases v@,
{
    let mut r: Vec<Expression> = Vec::new();
    let n = v.len();
    let mut i: usize = 0;
    while i < n
        invariant
            i <= n,
            n == v@.len(),
            r@.len() == i,
            forall|j: int| 0 <= j < i ==> expr_model(r@[j]) == expr_model(v@[j]),
        decreases n - i,
    {
        let e = &v[i];
        r.push(e.duplicate());
        i = i + 1;
    }
    proof {
        lemma_exprs_model(r@);
        lemma_exprs_model(v@);
        assert(exprs_model(r@) =~= exprs_model(v@));
    }
    r
}

impl Expression {
    /// A deep copy with the same model.
    pub fn duplicate(&self) -> (r: Expression)
        ensures
            r@ == self@,
        decreases self,
    {
        match self {
            Expression::Atom(a) => Expression::Atom(a.duplicate()),
            Expression::SExpression(v) => Expression::SExpression(dup_exprs(v)),
            Expression::QExpression(v) => Expression::QExpression(dup_exprs(v)),
            Expression::Null => Expression::Null,
        }
    }
}

impl Atom {
    /// A deep copy with the same model.
    pub fn duplicate(&self) -> (r: Atom)
        ensures
            r@ == self@,
        decreases self,
    {
        match self {
            Atom::Number(n) => Atom::Number(*n),
            Atom::Symbol(s) => Atom::Symbol(s.clone()),
            Atom::Value(v) => Atom::Value(v.duplicate()),
            Atom::String(s) => Atom::String(s.clone()),
            Atom::Bool(b) => Atom::Bool(*b),
        }
    }
}

impl Value {
    /// A deep copy with the same model.
    pub fn duplicate(&self) -> (r: Value)
        ensures
            r@ == self@,
        decreases self,
    {
        match self {
            Value::Builtin(op) => Value::Builtin(*op),
            Value::UserDef(f) => Value::UserDef(f.duplicate()),
            Value::Eval => Value::Eval,
            Value::Def => Value::Def,
            Value::Cond => Value::Cond,
            Value::Load => Value::Load,
            Value::Variable(b) => Value::Variable(Box::new(b.duplicate())),
        }
    }
}

impl UserFunc {
    /// A deep copy with the same model.
    pub fn duplicate(&self) -> (r: UserFunc)
        ensures
            r@ == self@,
        decreases self,
    {
        UserFunc {
            args: dup_exprs(&self.args),
            body: dup_exprs(&self.body),
            curried: dup_exprs(&self.curried),
        }
    }
}

// ---------------------------------------------------------------------------
// Accessors
// ---------------------------------------------------------------------------
impl Atom {
    /// The symbol's text, or `InvalidArguments` for any other atom.
    pub fn get_as_symbol(self) -> (r: Result<String, LockjawRuntimeError>)
        ensures
            self@ matches AtomM::Symbol(s) ==> (r matches Ok(t) && t@ == s),
            !(self@ is Symbol) ==> (r matches Err(e) && e@ == RuntimeErrM::InvalidArguments),
    {
        if let Atom::Symbol(symb) = self {
            Ok(symb)
        } else {
            Err(
                LockjawRuntimeError::InvalidArguments(
                    String::from_str("Expected Symbol, got something else"),
                ),
            )
        }
    }

    /// The resolved value, or `InvalidArguments` for any other atom.
    pub fn get_as_value(self) -> (r: Result<Value, LockjawRuntimeError>)
        ensures
            self@ matches AtomM::Value(v) ==> (r matches Ok(w) && w@ == v),
            !(self@ is Value) ==> (r matches Err(e) && e@ == RuntimeErrM::InvalidArguments),
    {
        if let Atom::Value(v) = self {
            Ok(v)
        } else {
            Err(
                LockjawRuntimeError::InvalidArguments(
                    String::from_str("Expected Value, got something else"),
                ),
            )
        }
    }
}

impl Expression {
    /// The elements of a Q-expression, or `InvalidArguments` otherwise.
    pub fn get_from_q_expression(self) -> (r: Result<Vec<Expression>, LockjawRuntimeError>)
        ensures
            self@ matches ExprM::QExpr(s) ==> (r matches Ok(v) && exprs_model(v@) == s),
            !(self@ is QExpr) ==> (r matches Err(e) && e@ == RuntimeErrM::InvalidArguments),
    {
        match self {
            Expression::QExpression(val) => Ok(val),
            _ => Err(
                LockjawRuntimeError::InvalidArguments(
                    String::from_str("Expected QExpression, got something else"),
                ),
            ),
        }
    }

    /// The atom inside, or `InvalidArguments` for any other expression.
    pub fn get_atom(self) -> (r: Result<Atom, LockjawRuntimeError>)
        ensures
            self@ matches ExprM::Atom(a) ==> (r matches Ok(b) && b@ == a),
            !(self@ is Atom) ==> (r matches Err(e) && e@ == RuntimeErrM::InvalidArguments),
    {
        match self {
            Expression::Atom(val) => Ok(val),
            _ => Err(
                LockjawRuntimeError::InvalidArguments(
                    String::from_str("Expected Atom, got something else"),
                ),
            ),
        }
    }
}

} // verus!
