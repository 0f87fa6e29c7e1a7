//! Recursive-descent parser: a slice of lexemes becomes an expression tree.
//!
//! `spec_parse_at` gives the meaning of parsing one expression at a position
//! of the token sequence, `spec_parse_root` of parsing a whole program as an
//! implicit S-expression; the executable `Parser` methods are proved equal
//! to them. String escape decoding happens here, not in the lexer.
use vstd::prelude::*;
use vstd::slice::slice_index_get;
use crate::lexer::{LexErrM, Lexeme, LexemeM, LexemeType, Lexer, LexingError, LexTokM};
use crate::lexer::{lemma_spec_scan_bounds, spec_lex, spec_lex_from};
use crate::types::{expr_model, exprs_model, lemma_exprs_model, lemma_lexeme_len_pos,
    spec_lexeme_len, spec_lexeme_lens, Atom, AtomM, ExprM, Expression};
use crate::numeric::Numeric;
use crate::floatbits::{f64_of_text, text_to_bits};
use crate::text::{chars_to_string, str_to_chars};

verus! {

broadcast use {vstd::std_specs::vec::group_vec_axioms, crate::types::lemma_lexeme_len_pos};

// ---------------------------------------------------------------------------
// Errors
// ---------------------------------------------------------------------------
/// Model of a parsing failure.
pub enum ParseErrM {
    InvalidLiteral { index: int },
    InvalidStringLiteral { code: char },
    Lexing(LexErrM),
    IntParseFailure,
    FloatParseFailure,
    UnexpectedEof,
}

#[derive(Debug, Clone, PartialEq, Eq)]
pub enum ParsingError {
    InvalidLiteral { index: usize },
    InvalidStringLiteral { code: char },
    LexingError(LexingError),
    IntParseFailure,
    FloatParseFailure,
    UnexpectedEof,
}

impl View for ParsingError {
    type V = ParseErrM;

    open spec fn view(&self) -> ParseErrM {
        match self {
            ParsingError::InvalidLiteral { index } => ParseErrM::InvalidLiteral {
                index: *index as int,
            },
            ParsingError::InvalidStringLiteral { code } => ParseErrM::InvalidStringLiteral {
                code: *code,
            },
            ParsingError::LexingError(e) => ParseErrM::Lexing(e@),
            ParsingError::IntParseFailure => ParseErrM::IntParseFailure,
            ParsingError::FloatParseFailure => ParseErrM::FloatParseFailure,
            ParsingError::UnexpectedEof => ParseErrM::UnexpectedEof,
        }
    }
}

// ---------------------------------------------------------------------------
// Token sequences
// ---------------------------------------------------------------------------
/// The models of a sequence of lexemes.
pub open spec fn lexemes_model(s: Seq<Lexeme>) -> Seq<LexemeM>
    decreases s,
{
    if s.len() == 0 {
        Seq::empty()
    } else {
        lexemes_model(s.drop_last()).push(s.last()@)
    }
}

/// Each element of `lexemes_model(s)` is the view of the matching lexeme.
pub proof fn lemma_lexemes_model(s: Seq<Lexeme>)
    ensures
        lexemes_model(s).len() == s.len(),
        forall|i: int| 0 <= i < s.len() ==> lexemes_model(s)[i] == s[i]@,
    decreases s.len(),
{
    if s.len() > 0 {
        lemma_lexemes_model(s.drop_last());
    }
}

// ---------------------------------------------------------------------------
// String escape decoding
// ---------------------------------------------------------------------------
/// The character an escape code stands for, or `None` for an unknown code.
pub open spec fn spec_escape_char(c: char) -> Option<char> {
    if c == 't' {
        Some('\t')
    } else if c == 'n' {
        Some('\n')
    } else if c == 'r' {
        Some('\r')
    } else if c == '0' {
        Some('\0')
    } else if c == '\\' {
        Some('\\')
    } else if c == '"' {
        Some('"')
    } else if c == '\'' {
        Some('\'')
    } else {
        None
    }
}

/// The decoded text of a string literal body from position `k` on: each
/// backslash and its follower become one character; an unknown code is an
/// error, and a trailing backslash runs off the end of the input.
pub open spec fn spec_decode_from(s: Seq<char>, k: int) -> Result<Seq<char>, ParseErrM>
    decreases s.len() - k,
{
    if k < 0 || k >= s.len() {
        Ok(Seq::empty())
    } else if s[k] == '\\' {
        if k + 1 >= s.len() {
            Err(ParseErrM::UnexpectedEof)
        } else {
            match spec_escape_char(s[k + 1]) {
                None => Err(ParseErrM::InvalidStringLiteral { code: s[k + 1] }),
                Some(d) => match spec_decode_from(s, k + 2) {
                    Err(e) => Err(e),
                    Ok(rest) => Ok(seq![d] + rest),
                },
            }
        }
    } else {
        match spec_decode_from(s, k + 1) {
            Err(e) => Err(e),
            Ok(rest) => Ok(seq![s[k]] + rest),
        }
    }
}

/// The decoded text of a whole string literal body.
pub open spec fn spec_decode(s: Seq<char>) -> Result<Seq<char>, ParseErrM> {
    spec_decode_from(s, 0)
}

// ---------------------------------------------------------------------------
// Integer literals
// ---------------------------------------------------------------------------
/// The numeric value of a digit string.
pub open spec fn digits_val(s: Seq<char>) -> int
    decreases s,
{
    if s.len() == 0 {
        0
    } else {
        digits_val(s.drop_last()) * 10 + (s.last() as u32 - '0' as u32)
    }
}

pub open spec fn all_digits(s: Seq<char>) -> bool {
    forall|i: int| 0 <= i < s.len() ==> crate::lexer::is_digit_char(#[trigger] s[i])
}

/// The `i64` an integer literal denotes: defined only for a non-empty digit
/// string whose value fits.
pub open spec fn spec_parse_i64(s: Seq<char>) -> Option<i64> {
    if s.len() > 0 && all_digits(s) && digits_val(s) <= i64::MAX {
        Some(digits_val(s) as i64)
    } else {
        None
    }
}

proof fn lemma_digits_val_nonneg(s: Seq<char>)
    requires
        all_digits(s),
    ensures
        digits_val(s) >= 0,
    decreases s.len(),
{
    if s.len() > 0 {
        assert(all_digits(s.drop_last())) by {
            assert(forall|i: int|
                0 <= i < s.len() - 1 ==> s.drop_last()[i] == #[trigger] s[i]);
        }
        lemma_digits_val_nonneg(s.drop_last());
        assert(crate::lexer::is_digit_char(s.last()));
    }
}

/// A longer digit prefix never denotes a smaller value.
proof fn lemma_digits_val_prefix_le(s: Seq<char>, k: int)
    requires
        all_digits(s),
        0 <= k <= s.len(),
    ensures
        digits_val(s.subrange(0, k)) <= digits_val(s),
    decreases s.len() - k,
{
    if k == s.len() {
        assert(s.subrange(0, k) =~= s);
    } else {
        lemma_digits_val_prefix_le(s, k + 1);
        let p = s.subrange(0, k + 1);
        assert(p.drop_last() =~= s.subrange(0, k));
        assert(all_digits(s.subrange(0, k))) by {
            assert(forall|i: int|
                0 <= i < k ==> s.subrange(0, k)[i] == #[trigger] s[i]);
        }
        lemma_digits_val_nonneg(s.subrange(0, k));
        assert(crate::lexer::is_digit_char(p.last()));
        assert(digits_val(p) == digits_val(s.subrange(0, k)) * 10 + (p.last() as u32 - '0' as u32));
    }
}

/// Parse a digit vector as an `i64`; `None` on a non-digit, emptiness, or
/// overflow — exactly when `spec_parse_i64` has no value.
fn parse_i64(chars: &Vec<char>) -> (r: Option<i64>)
    ensures
        r == spec_parse_i64(chars@),
{
    let ghost s = chars@;
    let n = chars.len();
    if n == 0 {
        return None;
    }
    let mut acc: i64 = 0;
    let mut k: usize = 0;
    while k < n
        invariant
            0 <= k <= n,
            n == s.len(),
            chars@ == s,
            all_digits(s.subrange(0, k as int)),
            acc == digits_val(s.subrange(0, k as int)),
            0 <= acc,
        decreases n - k,
    {
        let d = chars[k];
        if !('0' <= d && d <= '9') {
            proof {
                assert(!crate::lexer::is_digit_char(s[k as int]));
                assert(!all_digits(s));
            }
            return None;
        }
        let dv: i64 = (d as u32 - '0' as u32) as i64;
        let acc10 = match acc.checked_mul(10) {
            Some(v) => v,
            None => {
                proof {
                    overflow_means_none(s, k as int);
                }
                return None;
            },
        };
        let acc2 = match acc10.checked_add(dv) {
            Some(v) => v,
            None => {
                proof {
                    overflow_means_none(s, k as int);
                }
                return None;
            },
        };
        proof {
            let p = s.subrange(0, k as int + 1);
            assert(p.drop_last() =~= s.subrange(0, k as int));
            assert(p.last() == s[k as int]);
            assert(all_digits(p)) by {
                assert(forall|i: int|
                    0 <= i < k as int + 1 ==> p[i] == #[trigger] s[i]);
            }
        }
        acc = acc2;
        k = k + 1;
    }
    proof {
        assert(s.subrange(0, n as int) =~= s);
    }
    Some(acc)
}

/// If one more digit overflows an `i64` accumulator holding the prefix
/// value, the whole literal is out of range.
proof fn overflow_means_none(s: Seq<char>, k: int)
    requires
        0 <= k < s.len(),
        all_digits(s.subrange(0, k)),
        crate::lexer::is_digit_char(s[k]),
        digits_val(s.subrange(0, k)) * 10 + (s[k] as u32 - '0' as u32) > i64::MAX,
    ensures
        spec_parse_i64(s) is None,
{
    if all_digits(s) {
        let p = s.subrange(0, k + 1);
        assert(p.drop_last() =~= s.subrange(0, k));
        assert(p.last() == s[k]);
        assert(digits_val(p) == digits_val(s.subrange(0, k)) * 10 + (s[k] as u32 - '0' as u32));
        lemma_digits_val_prefix_le(s, k + 1);
        assert(digits_val(s) > i64::MAX);
    }
}

/// A span prefix never exceeds the whole span.
proof fn lemma_lens_prefix(s: Seq<ExprM>, k: int)
    requires
        0 <= k <= s.len(),
    ensures
        spec_lexeme_lens(s.subrange(0, k)) <= spec_lexeme_lens(s),
    decreases s.len() - k,
{
    if k == s.len() {
        assert(s.subrange(0, k) =~= s);
    } else {
        lemma_lens_prefix(s, k + 1);
        let p = s.subrange(0, k + 1);
        assert(p.drop_last() =~= s.subrange(0, k));
    }
}

/// The span of a sequence with one expression in front.
proof fn lemma_lens_cons(e: ExprM, rest: Seq<ExprM>)
    ensures
        spec_lexeme_lens(seq![e] + rest) == spec_lexeme_len(e) + spec_lexeme_lens(rest),
    decreases rest.len(),
{
    if rest.len() == 0 {
        assert(seq![e] + rest =~= seq![e]);
        assert(seq![e].drop_last() =~= Seq::<ExprM>::empty());
        assert(seq![e].last() == e);
        assert(spec_lexeme_lens(Seq::<ExprM>::empty()) == 0);
        assert(spec_lexeme_lens(seq![e]) == spec_lexeme_lens(seq![e].drop_last())
            + spec_lexeme_len(seq![e].last()));
    } else {
        lemma_lens_cons(e, rest.drop_last());
        let w = seq![e] + rest;
        assert(w.len() == 1 + rest.len());
        assert(w.drop_last() =~= seq![e] + rest.drop_last());
        assert(w.last() == rest.last());
        assert(spec_lexeme_lens(w) == spec_lexeme_lens(w.drop_last()) + spec_lexeme_len(w.last()));
    }
}

// ---------------------------------------------------------------------------
// The grammar
// ---------------------------------------------------------------------------
/// A non-negative distance to the end of the token sequence, for
/// termination measures.
pub open spec fn toks_left(toks: Seq<LexemeM>, i: int) -> int {
    if toks.len() - i >= 0 {
        toks.len() - i
    } else {
        0
    }
}

/// The expression whose first lexeme stands at `i`. A closing bracket or
/// the end of input at an expression position is an error; number, symbol
/// and string tokens decode here.
pub open spec fn spec_parse_at(toks: Seq<LexemeM>, i: int) -> Result<ExprM, ParseErrM>
    decreases toks_left(toks, i), 0int,
{
    if i < 0 || i >= toks.len() {
        Err(ParseErrM::UnexpectedEof)
    } else {
        match toks[i].value {
            LexTokM::LParen => match spec_parse_items(toks, i + 1, false) {
                Err(e) => Err(e),
                Ok(items) => Ok(ExprM::SExpr(items)),
            },
            LexTokM::LBrace => match spec_parse_items(toks, i + 1, true) {
                Err(e) => Err(e),
                Ok(items) => Ok(ExprM::QExpr(items)),
            },
            LexTokM::Int(text) => match spec_parse_i64(text) {
                Some(v) => Ok(ExprM::Atom(AtomM::Number(Numeric::Int(v)))),
                None => Err(ParseErrM::IntParseFailure),
            },
            LexTokM::Float(text) => match f64_of_text(text) {
                Some(b) => Ok(ExprM::Atom(AtomM::Number(Numeric::Float(b)))),
                None => Err(ParseErrM::FloatParseFailure),
            },
            LexTokM::Sym(text) => Ok(ExprM::Atom(AtomM::Symbol(text))),
            LexTokM::StrLit(text) => match spec_decode(text) {
                Err(e) => Err(e),
                Ok(d) => Ok(ExprM::Atom(AtomM::Str(d))),
            },
            _ => Err(ParseErrM::InvalidLiteral { index: toks[i].index }),
        }
    }
}

/// The expressions from `i` up to the matching closer (`}` when `brace`,
/// else `)`); running out of tokens first is an `UnexpectedEof`.
pub open spec fn spec_parse_items(toks: Seq<LexemeM>, i: int, brace: bool) -> Result<
    Seq<ExprM>,
    ParseErrM,
>
    decreases toks_left(toks, i), 1int,
{
    if i < 0 || i >= toks.len() {
        Err(ParseErrM::UnexpectedEof)
    } else if (brace && toks[i].value is RBrace) || (!brace && toks[i].value is RParen) {
        Ok(Seq::empty())
    } else {
        match spec_parse_at(toks, i) {
            Err(e) => Err(e),
            Ok(e) => match spec_parse_items(toks, i + spec_lexeme_len(e), brace) {
                Err(err) => Err(err),
                Ok(rest) => Ok(seq![e] + rest),
            },
        }
    }
}

/// The top-level expressions from `i` to the end of the tokens.
pub open spec fn spec_parse_top(toks: Seq<LexemeM>, i: int) -> Result<Seq<ExprM>, ParseErrM>
    decreases toks_left(toks, i), 2int,
{
    if i < 0 || i >= toks.len() {
        Ok(Seq::empty())
    } else {
        match spec_parse_at(toks, i) {
            Err(e) => Err(e),
            Ok(e) => match spec_parse_top(toks, i + spec_lexeme_len(e)) {
                Err(err) => Err(err),
                Ok(rest) => Ok(seq![e] + rest),
            },
        }
    }
}

/// A whole program: its top-level expressions as an implicit S-expression.
pub open spec fn spec_parse_root(toks: Seq<LexemeM>) -> Result<ExprM, ParseErrM> {
    match spec_parse_top(toks, 0) {
        Err(e) => Err(e),
        Ok(items) => Ok(ExprM::SExpr(items)),
    }
}

/// Source text all the way to a tree: lex, then parse.
pub open spec fn spec_parse_text(text: Seq<char>) -> Result<ExprM, ParseErrM> {
    match spec_lex(text) {
        Err(le) => Err(ParseErrM::Lexing(le)),
        Ok(toks) => spec_parse_root(toks),
    }
}

/// A successful parse never spans more tokens than the input offers.
pub proof fn lemma_spec_parse_len(toks: Seq<LexemeM>, i: int)
    requires
        0 <= i,
    ensures
        spec_parse_at(toks, i) matches Ok(e) ==> i + spec_lexeme_len(e) <= toks.len(),
    decreases toks_left(toks, i), 1int,
{
    if 0 <= i < toks.len() {
        match toks[i].value {
            LexTokM::LParen => {
                lemma_spec_parse_len_items(toks, i + 1, false);
            },
            LexTokM::LBrace => {
                lemma_spec_parse_len_items(toks, i + 1, true);
            },
            _ => {},
        }
    }
}

/// As above for an expression list: the closer is accounted for too.
proof fn lemma_spec_parse_len_items(toks: Seq<LexemeM>, i: int, brace: bool)
    requires
        0 <= i,
    ensures
        spec_parse_items(toks, i, brace) matches Ok(items) ==> i + spec_lexeme_lens(items) + 1
            <= toks.len(),
    decreases toks_left(toks, i), 2int,
{
    if 0 <= i < toks.len() {
        if (brace && toks[i].value is RBrace) || (!brace && toks[i].value is RParen) {
        } else {
            match spec_parse_at(toks, i) {
                Ok(e) => {
                    lemma_lexeme_len_pos(e);
                    lemma_spec_parse_len(toks, i);
                    lemma_spec_parse_len_items(toks, i + spec_lexeme_len(e), brace);
                    match spec_parse_items(toks, i + spec_lexeme_len(e), brace) {
                        Ok(rest) => {
                            lemma_lens_cons(e, rest);
                        },
                        _ => {},
                    }
                },
                _ => {},
            }
        }
    }
}

// ---------------------------------------------------------------------------
// Executable parser
// ---------------------------------------------------------------------------
/// The parser itself carries no state; parsing works over lexeme slices.
#[derive(Debug, PartialEq)]
pub struct Parser {}

impl Parser {
    /// The number of lexemes an expression spans.
    pub fn lexeme_len(expr: &Expression) -> (r: usize)
        requires
            spec_lexeme_len(expr@) <= usize::MAX,
        ensures
            r == spec_lexeme_len(expr@),
        decreases expr, 1int,
    {
        match expr {
            Expression::Atom(_) => 1,
            Expression::Null => 2,
            Expression::SExpression(v) => 2 + Self::lexeme_lens_vec(v),
            Expression::QExpression(v) => 2 + Self::lexeme_lens_vec(v),
        }
    }

    /// The combined span of a vector of expressions.
    #[verifier::loop_isolation(false)]
    fn lexeme_lens_vec(v: &Vec<Expression>) -> (r: usize)
        requires
            spec_lexeme_lens(exprs_model(v@)) <= usize::MAX,
        ensures
            r == spec_lexeme_lens(exprs_model(v@)),
        decreases v@, 0int,
    {
        let ghost items = exprs_model(v@);
        proof {
            lemma_exprs_model(v@);
        }
        let n = v.len();
        let mut sum: usize = 0;
        let mut k: usize = 0;
        while k < n
            invariant
                0 <= k <= n,
                sum == spec_lexeme_lens(items.subrange(0, k as int)),
            decreases n - k,
        {
            proof {
                lemma_lens_prefix(items, k as int + 1);
                let p = items.subrange(0, k as int + 1);
                assert(p.drop_last() =~= items.subrange(0, k as int));
                assert(p.last() == items[k as int]);
            }
            let child = Self::lexeme_len(&v[k]);
            sum = sum + child;
            k = k + 1;
        }
        proof {
            assert(items.subrange(0, n as int) =~= items);
        }
        sum
    }

    /// Decode the escape sequences of a string literal body.
    pub fn parse_string_literal(s: &str) -> (r: Result<String, ParsingError>)
        ensures
            match spec_decode(s@) {
                Ok(d) => r matches Ok(t) && t@ == d,
                Err(e) => r matches Err(err) && err@ == e,
            },
    {
        let chars = str_to_chars(s);
        match Self::decode_chars(&chars) {
            Ok(out) => Ok(chars_to_string(&out)),
            Err(e) => Err(e),
        }
    }

    /// Decode the escape sequences of a character vector.
    #[verifier::loop_isolation(false)]
    fn decode_chars(chars: &Vec<char>) -> (r: Result<Vec<char>, ParsingError>)
        ensures
            match spec_decode(chars@) {
                Ok(d) => r matches Ok(v) && v@ == d,
                Err(e) => r matches Err(err) && err@ == e,
            },
    {
        let ghost s = chars@;
        let n = chars.len();
        let mut out: Vec<char> = Vec::new();
        let mut k: usize = 0;
        while k < n
            invariant
                0 <= k <= n,
                spec_decode_from(s, 0) == (match spec_decode_from(s, k as int) {
                    Ok(rest) => Ok::<Seq<char>, ParseErrM>(out@ + rest),
                    Err(e) => Err::<Seq<char>, ParseErrM>(e),
                }),
            decreases n - k,
        {
            let ghost out0 = out@;
            let c = chars[k];
            if c == '\\' {
                if k + 1 >= n {
                    return Err(ParsingError::UnexpectedEof);
                }
                let e = chars[k + 1];
                let decoded: char = if e == 't' {
                    '\t'
                } else if e == 'n' {
                    '\n'
                } else if e == 'r' {
                    '\r'
                } else if e == '0' {
                    '\0'
                } else if e == '\\' {
                    '\\'
                } else if e == '"' {
                    '"'
                } else if e == '\'' {
                    '\''
                } else {
                    return Err(ParsingError::InvalidStringLiteral { code: e });
                };
                out.push(decoded);
                proof {
                    assert(spec_escape_char(s[k as int + 1]) == Some(decoded));
                    match spec_decode_from(s, k as int + 2) {
                        Ok(rest) => {
                            assert(out0 + (seq![decoded] + rest) =~= out@ + rest);
                        },
                        Err(_) => {},
                    }
                }
                k = k + 2;
            } else {
                out.push(c);
                proof {
                    match spec_decode_from(s, k as int + 1) {
                        Ok(rest) => {
                            assert(out0 + (seq![c] + rest) =~= out@ + rest);
                        },
                        Err(_) => {},
                    }
                }
                k = k + 1;
            }
        }
        proof {
            assert(out@ + Seq::<char>::empty() =~= out@);
        }
        Ok(out)
    }

    /// Lex a whole source text, then parse it as a program.
    pub fn parse_from_text(s: &str) -> (r: Result<Expression, ParsingError>)
        ensures
            match spec_parse_text(s@) {
                Ok(e) => r matches Ok(expr) && expr@ == e,
                Err(pe) => r matches Err(err) && err@ == pe,
            },
    {
        let ghost text = s@;
        let mut lexer = Lexer::new(s);
        let mut lexemes: Vec<Lexeme> = Vec::new();
        loop
            invariant_except_break
                text == s@,
                lexer.text@ == text,
                !lexer.has_errored,
                0 <= lexer.index <= text.len(),
                spec_lex_from(text, 0) == (match spec_lex_from(text, lexer.index as int) {
                    Ok(rest) => Ok::<Seq<LexemeM>, LexErrM>(lexemes_model(lexemes@) + rest),
                    Err(e) => Err::<Seq<LexemeM>, LexErrM>(e),
                }),
            ensures
                spec_lex_from(text, 0) == Ok::<Seq<LexemeM>, LexErrM>(lexemes_model(lexemes@)),
            decreases text.len() + 1 - lexer.index,
        {
            let ghost i = lexer.index as int;
            proof {
                lemma_spec_scan_bounds(text, i);
            }
            match lexer.next() {
                None => {
                    proof {
                        assert(spec_lex_from(text, i) == Ok::<Seq<LexemeM>, LexErrM>(Seq::empty()));
                        assert(lexemes_model(lexemes@) + Seq::<LexemeM>::empty() =~= lexemes_model(
                            lexemes@,
                        ));
                    }
                    break;
                },
                Some(Err(e)) => {
                    proof {
                        assert(spec_lex_from(text, i) == Err::<Seq<LexemeM>, LexErrM>(e@));
                        assert(spec_parse_text(text) == Err::<ExprM, ParseErrM>(
                            ParseErrM::Lexing(e@),
                        ));
                    }
                    return Err(ParsingError::LexingError(e));
                },
                Some(Ok(lx)) => {
                    let ghost lxm = lx@;
                    let ghost lexs0 = lexemes@;
                    lexemes.push(lx);
                    proof {
                        assert(lexemes@.drop_last() =~= lexs0);
                        assert(lexemes@.last() == lx);
                        assert(lexemes_model(lexemes@) == lexemes_model(lexs0).push(lxm));
                        match spec_lex_from(text, lexer.index as int) {
                            Ok(rest) => {
                                assert(lexemes_model(lexs0) + (seq![lxm] + rest) =~= lexemes_model(
                                    lexemes@,
                                ) + rest);
                            },
                            Err(_) => {},
                        }
                    }
                },
            }
        }
        Self::parse_root(lexemes.as_slice())
    }

    /// Parse the first expression of a lexeme slice.
    pub fn parse(lexemes: &[Lexeme]) -> (r: Result<Expression, ParsingError>)
        ensures
            match spec_parse_at(lexemes_model(lexemes@), 0) {
                Ok(e) => r matches Ok(expr) && expr@ == e,
                Err(pe) => r matches Err(err) && err@ == pe,
            },
    {
        Self::parse_at(lexemes, 0)
    }

    /// Parse one expression starting at position `i`.
    #[verifier::loop_isolation(false)]
    fn parse_at(lexemes: &[Lexeme], i: usize) -> (r: Result<Expression, ParsingError>)
        ensures
            match spec_parse_at(lexemes_model(lexemes@), i as int) {
                Ok(e) => r matches Ok(expr) && expr@ == e,
                Err(pe) => r matches Err(err) && err@ == pe,
            },
        decreases lexemes@.len() - i, 0int,
    {
        let ghost toks = lexemes_model(lexemes@);
        proof {
            lemma_lexemes_model(lexemes@);
        }
        if i >= lexemes.len() {
            return Err(ParsingError::UnexpectedEof);
        }
        let lx = slice_index_get(lexemes, i);
        match &lx.value {
            LexemeType::LeftParen => match Self::parse_items(lexemes, i + 1, false) {
                Ok(items) => Ok(Expression::SExpression(items)),
                Err(e) => Err(e),
            },
            LexemeType::LeftCBracket => match Self::parse_items(lexemes, i + 1, true) {
                Ok(items) => Ok(Expression::QExpression(items)),
                Err(e) => Err(e),
            },
            LexemeType::Integer(text) => match parse_i64(text) {
                Some(v) => Ok(Expression::Atom(Atom::Number(Numeric::Int(v)))),
                None => Err(ParsingError::IntParseFailure),
            },
            LexemeType::Float(text) => {
                let st = chars_to_string(text);
                match text_to_bits(st.as_str()) {
                    Some(b) => Ok(Expression::Atom(Atom::Number(Numeric::Float(b)))),
                    None => Err(ParsingError::FloatParseFailure),
                }
            },
            LexemeType::RawSymbol(text) => Ok(
                Expression::Atom(Atom::Symbol(chars_to_string(text))),
            ),
            LexemeType::StringLiteral(text) => match Self::decode_chars(text) {
                Ok(out) => Ok(Expression::Atom(Atom::String(chars_to_string(&out)))),
                Err(e) => Err(e),
            },
            _ => Err(ParsingError::InvalidLiteral { index: lx.index }),
        }
    }

    /// Parse expressions up to the matching closer.
    #[verifier::loop_isolation(false)]
    fn parse_items(lexemes: &[Lexeme], i: usize, brace: bool) -> (r: Result<
        Vec<Expression>,
        ParsingError,
    >)
        requires
            i <= lexemes@.len(),
        ensures
            match spec_parse_items(lexemes_model(lexemes@), i as int, brace) {
                Ok(items) => r matches Ok(v) && exprs_model(v@) == items,
                Err(pe) => r matches Err(err) && err@ == pe,
            },
        decreases lexemes@.len() - i, 1int,
    {
        let ghost toks = lexemes_model(lexemes@);
        proof {
            lemma_lexemes_model(lexemes@);
        }
        let mut out: Vec<Expression> = Vec::new();
        let mut cur = i;
        loop
            invariant
                i <= cur <= lexemes@.len(),
                spec_parse_items(toks, i as int, brace) == (match spec_parse_items(
                    toks,
                    cur as int,
                    brace,
                ) {
                    Ok(rest) => Ok::<Seq<ExprM>, ParseErrM>(exprs_model(out@) + rest),
                    Err(e) => Err::<Seq<ExprM>, ParseErrM>(e),
                }),
            decreases lexemes@.len() - cur,
        {
            if cur >= lexemes.len() {
                return Err(ParsingError::UnexpectedEof);
            }
            let lx = slice_index_get(lexemes, cur);
            let closes = if brace {
                matches!(&lx.value, LexemeType::RightCBracket)
            } else {
                matches!(&lx.value, LexemeType::RightParen)
            };
            if closes {
                proof {
                    assert(exprs_model(out@) + Seq::<ExprM>::empty() =~= exprs_model(out@));
                }
                return Ok(out);
            }
            match Self::parse_at(lexemes, cur) {
                Err(e) => {
                    return Err(e);
                },
                Ok(expr) => {
                    proof {
                        lemma_spec_parse_len(toks, cur as int);
                    }
                    let ghost em = expr@;
                    let ghost out0 = out@;
                    let step = Self::lexeme_len(&expr);
                    out.push(expr);
                    proof {
                        assert(out@.drop_last() =~= out0);
                        assert(out@.last() == expr);
                        assert(exprs_model(out@) == exprs_model(out0).push(em));
                        match spec_parse_items(toks, cur as int + step as int, brace) {
                            Ok(rest) => {
                                assert(exprs_model(out0) + (seq![em] + rest) =~= exprs_model(out@)
                                    + rest);
                            },
                            Err(_) => {},
                        }
                    }
                    cur = cur + step;
                },
            }
        }
    }

    /// Parse a whole program: every top-level expression, wrapped as an
    /// implicit S-expression.
    #[verifier::loop_isolation(false)]
    pub fn parse_root(lexemes: &[Lexeme]) -> (r: Result<Expression, ParsingError>)
        ensures
            match spec_parse_root(lexemes_model(lexemes@)) {
                Ok(e) => r matches Ok(expr) && expr@ == e,
                Err(pe) => r matches Err(err) && err@ == pe,
            },
    {
        let ghost toks = lexemes_model(lexemes@);
        proof {
            lemma_lexemes_model(lexemes@);
        }
        let mut out: Vec<Expression> = Vec::new();
        let mut cur: usize = 0;
        loop
            invariant
                0 <= cur,
                spec_parse_top(toks, 0) == (match spec_parse_top(toks, cur as int) {
                    Ok(rest) => Ok::<Seq<ExprM>, ParseErrM>(exprs_model(out@) + rest),
                    Err(e) => Err::<Seq<ExprM>, ParseErrM>(e),
                }),
            decreases lexemes@.len() + 1 - cur,
        {
            if cur >= lexemes.len() {
                proof {
                    assert(spec_parse_top(toks, cur as int) == Ok::<Seq<ExprM>, ParseErrM>(
                        Seq::empty(),
                    ));
                    assert(exprs_model(out@) + Seq::<ExprM>::empty() =~= exprs_model(out@));
                }
                return Ok(Expression::SExpression(out));
            }
            match Self::parse_at(lexemes, cur) {
                Err(e) => {
                    return Err(e);
                },
                Ok(expr) => {
                    proof {
                        lemma_spec_parse_len(toks, cur as int);
                    }
                    let ghost em = expr@;
                    let ghost out0 = out@;
                    let step = Self::lexeme_len(&expr);
                    out.push(expr);
                    proof {
                        assert(out@.drop_last() =~= out0);
                        assert(out@.last() == expr);
                        assert(exprs_model(out@) == exprs_model(out0).push(em));
                        match spec_parse_top(toks, cur as int + step as int) {
                            Ok(rest) => {
                                assert(exprs_model(out0) + (seq![em] + rest) =~= exprs_model(out@)
                                    + rest);
                            },
                            Err(_) => {},
                        }
                    }
                    cur = cur + step;
                },
            }
        }
    }
}

} // verus!
