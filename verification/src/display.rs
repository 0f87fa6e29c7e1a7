//! Rendering of values back to text.
//!
//! Verus cannot verify `core::fmt` implementations, so each type offers a
//! `to_text` method instead, proved to produce exactly the rendering that
//! the spec functions here describe: `( a b c )` for an S-expression,
//! `{ a b c }` for a Q-expression, `()` for `Null`, decimal for integers,
//! and the `floatbits` decimal rendering for floats.
use vstd::prelude::*;
use crate::floatbits::{bits_to_text, f64_text};
use crate::numeric::Numeric;
use crate::text::{chars_to_string, str_to_chars};
use crate::types::{
    exprs_model, lemma_exprs_model, Atom, AtomM, Expression, ExprM, Value, ValueM,
};

verus! {

broadcast use vstd::std_specs::vec::group_vec_axioms;

/// The decimal digit character of a value below ten.
pub open spec fn digit_char(d: int) -> char {
    if d == 0 {
        '0'
    } else if d == 1 {
        '1'
    } else if d == 2 {
        '2'
    } else if d == 3 {
        '3'
    } else if d == 4 {
        '4'
    } else if d == 5 {
        '5'
    } else if d == 6 {
        '6'
    } else if d == 7 {
        '7'
    } else if d == 8 {
        '8'
    } else {
        '9'
    }
}

/// The decimal rendering of a non-negative number.
pub open spec fn dec_text(n: int) -> Seq<char>
    decreases n,
{
    if n < 10 {
        seq![digit_char(n)]
    } else {
        dec_text(n / 10).push(digit_char(n % 10))
    }
}

/// The decimal rendering of a signed integer: a minus sign, then digits.
pub open spec fn i64_text(i: i64) -> Seq<char> {
    if i >= 0 {
        dec_text(i as int)
    } else {
        seq!['-'] + dec_text(-(i as int))
    }
}

/// The rendering of a number: decimal for an integer, the binary64 decimal
/// rendering for a float.
pub open spec fn num_text(n: Numeric) -> Seq<char> {
    match n {
        Numeric::Int(i) => i64_text(i),
        Numeric::Float(f) => f64_text(f),
    }
}

/// The rendering of an atom.
pub open spec fn atom_text(a: AtomM) -> Seq<char>
    decreases a,
{
    match a {
        AtomM::Number(n) => "Number: "@ + num_text(n),
        AtomM::Symbol(s) => "Symbol: "@ + s,
        AtomM::Value(v) => value_text(v),
        AtomM::Str(s) => s,
        AtomM::Bool(b) => if b {
            "true"@
        } else {
            "false"@
        },
    }
}

/// The rendering of a resolved value: a variable renders as the expression
/// it stands for, functions as opaque markers.
pub open spec fn value_text(v: ValueM) -> Seq<char>
    decreases v,
{
    match v {
        ValueM::Variable(e) => expr_text(*e),
        ValueM::UserDef(_) => "<USER FUNC>"@,
        _ => "<BUILTIN_FUNC>"@,
    }
}

/// The rendering of an expression.
pub open spec fn expr_text(e: ExprM) -> Seq<char>
    decreases e,
{
    match e {
        ExprM::Atom(a) => atom_text(a),
        ExprM::SExpr(items) => "( "@ + list_text(items) + ")"@,
        ExprM::QExpr(items) => "{ "@ + list_text(items) + "}"@,
        ExprM::Null => "()"@,
    }
}

/// The rendering of a sequence of expressions, each followed by a space.
pub open spec fn list_text(items: Seq<ExprM>) -> Seq<char>
    decreases items,
{
    if items.len() == 0 {
        Seq::empty()
    } else {
        expr_text(items[0]) + seq![' '] + list_text(items.drop_first())
    }
}

/// The digit character of a value below ten.
fn digit_char_of(d: u64) -> (r: char)
    requires
        d < 10,
    ensures
        r == digit_char(d as int),
{
    if d == 0 {
        '0'
    } else if d == 1 {
        '1'
    } else if d == 2 {
        '2'
    } else if d == 3 {
        '3'
    } else if d == 4 {
        '4'
    } else if d == 5 {
        '5'
    } else if d == 6 {
        '6'
    } else if d == 7 {
        '7'
    } else if d == 8 {
        '8'
    } else {
        '9'
    }
}

/// The decimal digits of a non-negative number.
fn dec_chars(n: u64) -> (r: Vec<char>)
    ensures
        r@ == dec_text(n as int),
    decreases n,
{
    if n < 10 {
        let mut v: Vec<char> = Vec::new();
        v.push(digit_char_of(n));
        proof {
            assert(v@ =~= seq![digit_char(n as int)]);
        }
        v
    } else {
        let mut v = dec_chars(n / 10);
        v.push(digit_char_of(n % 10));
        v
    }
}

/// The decimal rendering of a signed integer.
fn i64_chars(i: i64) -> (r: Vec<char>)
    ensures
        r@ == i64_text(i),
{
    if i >= 0 {
        dec_chars(i as u64)
    } else {
        let mag = (0i64.wrapping_sub(i)) as u64;
        proof {
            assert(mag == -(i as int)) by (bit_vector)
                requires
                    i < 0 && mag == (0i64.wrapping_sub(i)) as u64,
            ;
        }
        let mut v: Vec<char> = Vec::new();
        v.push('-');
        let mut digits = dec_chars(mag);
        v.append(&mut digits);
        proof {
            assert(v@ =~= seq!['-'] + dec_text(-(i as int)));
        }
        v
    }
}

/// The characters of a number's rendering.
fn num_chars(n: Numeric) -> (r: Vec<char>)
    ensures
        r@ == num_text(n),
{
    match n {
        Numeric::Int(i) => i64_chars(i),
        Numeric::Float(f) => str_to_chars(bits_to_text(f).as_str()),
    }
}

/// The characters of an atom's rendering.
fn atom_chars(a: &Atom) -> (r: Vec<char>)
    ensures
        r@ == atom_text(a@),
    decreases a,
{
    match a {
        Atom::Number(n) => {
            let mut out = str_to_chars("Number: ");
            let mut digits = num_chars(*n);
            out.append(&mut digits);
            out
        },
        Atom::Symbol(s) => {
            let mut out = str_to_chars("Symbol: ");
            let mut text = str_to_chars(s.as_str());
            out.append(&mut text);
            out
        },
        Atom::Value(v) => value_chars(v),
        Atom::String(s) => str_to_chars(s.as_str()),
        Atom::Bool(b) => if *b {
            str_to_chars("true")
        } else {
            str_to_chars("false")
        },
    }
}

/// The characters of a value's rendering.
fn value_chars(v: &Value) -> (r: Vec<char>)
    ensures
        r@ == value_text(v@),
    decreases v,
{
    match v {
        Value::Variable(e) => expr_chars(e),
        Value::UserDef(_) => str_to_chars("<USER FUNC>"),
        _ => str_to_chars("<BUILTIN_FUNC>"),
    }
}

/// The characters of an expression's rendering.
fn expr_chars(e: &Expression) -> (r: Vec<char>)
    ensures
        r@ == expr_text(e@),
    decreases e,
{
    match e {
        Expression::Atom(a) => atom_chars(a),
        Expression::SExpression(items) => {
            let mut out = str_to_chars("( ");
            let mut inner = list_chars(items);
            out.append(&mut inner);
            out.push(')');
            proof {
                reveal_strlit(")");
                assert(out@ =~= "( "@ + list_text(exprs_model(items@)) + ")"@);
            }
            out
        },
        Expression::QExpression(items) => {
            let mut out = str_to_chars("{ ");
            let mut inner = list_chars(items);
            out.append(&mut inner);
            out.push('}');
            proof {
                reveal_strlit("}");
                assert(out@ =~= "{ "@ + list_text(exprs_model(items@)) + "}"@);
            }
            out
        },
        Expression::Null => str_to_chars("()"),
    }
}

/// The characters of a rendered expression list, each expression followed
/// by a space.
#[verifier::loop_isolation(false)]
fn list_chars(items: &Vec<Expression>) -> (r: Vec<char>)
    ensures
        r@ == list_text(exprs_model(items@)),
    decreases items@,
{
    let ghost im = exprs_model(items@);
    proof {
        lemma_exprs_model(items@);
        assert(im.subrange(0, im.len() as int) =~= im);
    }
    let n = items.len();
    let mut out: Vec<char> = Vec::new();
    let mut i: usize = 0;
    while i < n
        invariant
            0 <= i <= n,
            out@ + list_text(im.subrange(i as int, n as int)) == list_text(im),
        decreases n - i,
    {
        proof {
            assert(im.subrange(i as int, n as int)[0] == im[i as int]);
            assert(im.subrange(i as int, n as int).drop_first() =~= im.subrange(
                i as int + 1,
                n as int,
            ));
            assert(im[i as int] == items@[i as int]@);
        }
        let ghost out0 = out@;
        let mut piece = expr_chars(&items[i]);
        out.append(&mut piece);
        out.push(' ');
        proof {
            assert(out@ =~= out0 + (expr_text(im[i as int]) + seq![' ']));
            assert(out0 + (expr_text(im[i as int]) + seq![' ']) + list_text(
                im.subrange(i as int + 1, n as int),
            ) =~= out0 + (expr_text(im[i as int]) + seq![' '] + list_text(
                im.subrange(i as int + 1, n as int),
            )));
        }
        i = i + 1;
    }
    proof {
        assert(im.subrange(n as int, n as int) =~= Seq::<ExprM>::empty());
        assert(out@ + Seq::<char>::empty() =~= out@);
    }
    out
}

impl Numeric {
    /// The decimal rendering of this number.
    pub fn to_text(&self) -> (r: String)
        ensures
            r@ == num_text(*self),
    {
        chars_to_string(&num_chars(*self))
    }
}

impl Atom {
    /// The rendering of this atom.
    pub fn to_text(&self) -> (r: String)
        ensures
            r@ == atom_text(self@),
    {
        chars_to_string(&atom_chars(self))
    }
}

impl Value {
    /// The rendering of this value.
    pub fn to_text(&self) -> (r: String)
        ensures
            r@ == value_text(self@),
    {
        chars_to_string(&value_chars(self))
    }
}

impl Expression {
    /// The rendering of this expression.
    pub fn to_text(&self) -> (r: String)
        ensures
            r@ == expr_text(self@),
    {
        chars_to_string(&expr_chars(self))
    }
}

} // verus!
