//! Tokenizer for source text.
//!
//! `spec_scan` gives the meaning of one scanning step over a sequence of
//! characters: skip whitespace and comments, then either the end of input,
//! one token together with the index just after it, or a lexing error.
//! `spec_lex` folds the steps into the token sequence of a whole input.
//! The executable `Lexer` is proved to follow `spec_scan` step by step.
use vstd::prelude::*;
use vstd::string::StringExecFns;
use crate::text::{chars_to_string, str_to_chars};

verus! {

broadcast use vstd::std_specs::vec::group_vec_axioms;

// ---------------------------------------------------------------------------
// Ghost models
// ---------------------------------------------------------------------------
/// Model of one token: brackets, or a token carrying its source text.
pub enum LexTokM {
    LParen,
    RParen,
    LBrace,
    RBrace,
    Int(Seq<char>),
    Float(Seq<char>),
    Sym(Seq<char>),
    StrLit(Seq<char>),
}

/// Model of a token with the byte offset of its first character.
pub struct LexemeM {
    pub index: int,
    pub value: LexTokM,
}

/// Model of a lexing failure.
pub enum LexErrM {
    InvalidLiteral { position: int, got: Seq<char> },
    UnexpectedEof { position: int },
}

/// One step of scanning: either the input is exhausted, or one token was
/// found ending before the carried index.
pub enum ScanStep {
    Done,
    Tok(LexemeM, int),
}

// ---------------------------------------------------------------------------
// Character classes
// ---------------------------------------------------------------------------
pub open spec fn is_digit_char(c: char) -> bool {
    '0' <= c && c <= '9'
}

pub open spec fn is_symbol_char(c: char) -> bool {
    ('a' <= c && c <= 'z') || ('A' <= c && c <= 'Z') || c == '/' || c == '_' || c == '+' || c == '-'
        || c == '*' || c == '\\' || c == '=' || c == '>' || c == '<' || c == '!' || c == '&'
        || c == '?' || c == '#'
}

pub open spec fn is_whitespace_char(c: char) -> bool {
    c == ' ' || c == '\t' || c == '\n'
}

// ---------------------------------------------------------------------------
// Scanning helpers
// ---------------------------------------------------------------------------
/// The index of the first newline at or after `j`, or the input length.
pub open spec fn find_newline(text: Seq<char>, j: int) -> int
    decreases text.len() - j,
{
    if j < 0 || j >= text.len() {
        text.len() as int
    } else if text[j] == '\n' {
        j
    } else {
        find_newline(text, j + 1)
    }
}

pub proof fn lemma_find_newline(text: Seq<char>, j: int)
    requires
        0 <= j <= text.len(),
    ensures
        j <= find_newline(text, j) <= text.len(),
    decreases text.len() - j,
{
    if j < text.len() && text[j] != '\n' {
        lemma_find_newline(text, j + 1);
    }
}

/// The index of the first non-digit at or after `j`, or the input length.
pub open spec fn scan_digits(text: Seq<char>, j: int) -> int
    decreases text.len() - j,
{
    if j < 0 || j >= text.len() {
        text.len() as int
    } else if is_digit_char(text[j]) {
        scan_digits(text, j + 1)
    } else {
        j
    }
}

pub proof fn lemma_scan_digits(text: Seq<char>, j: int)
    requires
        0 <= j <= text.len(),
    ensures
        j <= scan_digits(text, j) <= text.len(),
    decreases text.len() - j,
{
    if j < text.len() && is_digit_char(text[j]) {
        lemma_scan_digits(text, j + 1);
    }
}

/// The index of the first non-symbol character at or after `j`, or the length.
pub open spec fn scan_symbol(text: Seq<char>, j: int) -> int
    decreases text.len() - j,
{
    if j < 0 || j >= text.len() {
        text.len() as int
    } else if is_symbol_char(text[j]) {
        scan_symbol(text, j + 1)
    } else {
        j
    }
}

pub proof fn lemma_scan_symbol(text: Seq<char>, j: int)
    requires
        0 <= j <= text.len(),
    ensures
        j <= scan_symbol(text, j) <= text.len(),
    decreases text.len() - j,
{
    if j < text.len() && is_symbol_char(text[j]) {
        lemma_scan_symbol(text, j + 1);
    }
}

/// The index of the closing quote `q` at or after `j`, where a backslash
/// escapes the following character; `None` when the input ends first.
pub open spec fn scan_string_end(text: Seq<char>, j: int, q: char) -> Option<int>
    decreases text.len() - j,
{
    if j < 0 || j >= text.len() {
        None
    } else if text[j] == '\\' {
        if j + 1 >= text.len() {
            None
        } else {
            scan_string_end(text, j + 2, q)
        }
    } else if text[j] == q {
        Some(j)
    } else {
        scan_string_end(text, j + 1, q)
    }
}

pub proof fn lemma_scan_string_end(text: Seq<char>, j: int, q: char)
    requires
        0 <= j <= text.len(),
    ensures
        scan_string_end(text, j, q) matches Some(e) ==> j <= e < text.len() && text[e] == q,
    decreases text.len() - j,
{
    if j < text.len() {
        if text[j] == '\\' {
            if j + 1 < text.len() {
                lemma_scan_string_end(text, j + 2, q);
            }
        } else if text[j] != q {
            lemma_scan_string_end(text, j + 1, q);
        }
    }
}

// ---------------------------------------------------------------------------
// One token
// ---------------------------------------------------------------------------
/// The number token starting at `start` (which holds a digit), and the index
/// after it: digits, then optionally a dot followed by at least one digit.
pub open spec fn spec_number(text: Seq<char>, start: int) -> (LexTokM, int) {
    let d_end = scan_digits(text, start);
    if d_end < text.len() && text[d_end] == '.' && d_end + 1 < text.len() && is_digit_char(
        text[d_end + 1],
    ) {
        let f_end = scan_digits(text, d_end + 1);
        (LexTokM::Float(text.subrange(start, f_end)), f_end)
    } else {
        (LexTokM::Int(text.subrange(start, d_end)), d_end)
    }
}

/// The symbol token starting at `start` (which holds a symbol character).
pub open spec fn spec_symbol(text: Seq<char>, start: int) -> (LexTokM, int) {
    let s_end = scan_symbol(text, start);
    (LexTokM::Sym(text.subrange(start, s_end)), s_end)
}

/// The string token whose opening quote stands at `qpos`: the raw characters
/// between the quotes, escapes untouched; an error when the input ends first.
pub open spec fn spec_string(text: Seq<char>, qpos: int) -> Result<(LexTokM, int), LexErrM> {
    let q = text[qpos];
    match scan_string_end(text, qpos + 1, q) {
        Some(e) => Ok((LexTokM::StrLit(text.subrange(qpos + 1, e)), e + 1)),
        None => Err(LexErrM::UnexpectedEof { position: qpos + 1 }),
    }
}

// ---------------------------------------------------------------------------
// One scanning step
// ---------------------------------------------------------------------------
/// Skip whitespace and comments from `i`; then the end of input, one token,
/// or an error at the offending character.
pub open spec fn spec_scan(text: Seq<char>, i: int) -> Result<ScanStep, LexErrM>
    decreases text.len() - i, 0int,
        via spec_scan_decreases
{
    if i < 0 || i >= text.len() {
        Ok(ScanStep::Done)
    } else {
        let c = text[i];
        if c == '(' {
            Ok(ScanStep::Tok(LexemeM { index: i, value: LexTokM::LParen }, i + 1))
        } else if c == ')' {
            Ok(ScanStep::Tok(LexemeM { index: i, value: LexTokM::RParen }, i + 1))
        } else if c == '{' {
            Ok(ScanStep::Tok(LexemeM { index: i, value: LexTokM::LBrace }, i + 1))
        } else if c == '}' {
            Ok(ScanStep::Tok(LexemeM { index: i, value: LexTokM::RBrace }, i + 1))
        } else if c == ';' {
            spec_scan(text, find_newline(text, i + 1))
        } else if c == '"' || c == '\'' {
            match spec_string(text, i) {
                Ok((tok, next)) => Ok(ScanStep::Tok(LexemeM { index: i, value: tok }, next)),
                Err(e) => Err(e),
            }
        } else if is_digit_char(c) {
            let (tok, next) = spec_number(text, i);
            Ok(ScanStep::Tok(LexemeM { index: i, value: tok }, next))
        } else if is_whitespace_char(c) {
            spec_scan(text, i + 1)
        } else if is_symbol_char(c) {
            let (tok, next) = spec_symbol(text, i);
            Ok(ScanStep::Tok(LexemeM { index: i, value: tok }, next))
        } else {
            Err(LexErrM::InvalidLiteral { position: i, got: seq![c] })
        }
    }
}

#[via_fn]
proof fn spec_scan_decreases(text: Seq<char>, i: int) {
    if 0 <= i < text.len() && text[i] == ';' {
        lemma_find_newline(text, i + 1);
    }
}

/// Every token step moves the index strictly forward, never past the end.
pub proof fn lemma_spec_scan_bounds(text: Seq<char>, i: int)
    requires
        0 <= i,
    ensures
        spec_scan(text, i) matches Ok(ScanStep::Tok(lx, next)) ==> i < next <= text.len(),
    decreases text.len() - i,
{
    if i < text.len() {
        let c = text[i];
        if c == '(' || c == ')' || c == '{' || c == '}' {
        } else if c == ';' {
            lemma_find_newline(text, i + 1);
            lemma_spec_scan_bounds(text, find_newline(text, i + 1));
        } else if c == '"' || c == '\'' {
            lemma_scan_string_end(text, i + 1, c);
        } else if is_digit_char(c) {
            lemma_scan_digits(text, i + 1);
            assert(scan_digits(text, i) == scan_digits(text, i + 1));
            let d_end = scan_digits(text, i);
            if d_end < text.len() && text[d_end] == '.' && d_end + 1 < text.len() && is_digit_char(
                text[d_end + 1],
            ) {
                lemma_scan_digits(text, d_end + 2);
                assert(scan_digits(text, d_end + 1) == scan_digits(text, d_end + 2));
            }
        } else if is_whitespace_char(c) {
            lemma_spec_scan_bounds(text, i + 1);
        } else if is_symbol_char(c) {
            lemma_scan_symbol(text, i + 1);
            assert(scan_symbol(text, i) == scan_symbol(text, i + 1));
        }
    }
}

// ---------------------------------------------------------------------------
// A whole input
// ---------------------------------------------------------------------------
/// The token sequence of the input from `i` on, or its first lexing error.
pub open spec fn spec_lex_from(text: Seq<char>, i: int) -> Result<Seq<LexemeM>, LexErrM>
    decreases text.len() - i, 1int,
        via spec_lex_from_decreases
{
    if i < 0 || i > text.len() {
        Ok(Seq::empty())
    } else {
        match spec_scan(text, i) {
            Err(e) => Err(e),
            Ok(ScanStep::Done) => Ok(Seq::empty()),
            Ok(ScanStep::Tok(lx, next)) => match spec_lex_from(text, next) {
                Err(e) => Err(e),
                Ok(rest) => Ok(seq![lx] + rest),
            },
        }
    }
}

#[via_fn]
proof fn spec_lex_from_decreases(text: Seq<char>, i: int) {
    if 0 <= i <= text.len() {
        lemma_spec_scan_bounds(text, i);
    }
}

/// The token sequence of a whole input, or its first lexing error.
pub open spec fn spec_lex(text: Seq<char>) -> Result<Seq<LexemeM>, LexErrM> {
    spec_lex_from(text, 0)
}

// ---------------------------------------------------------------------------
// Executable types
// ---------------------------------------------------------------------------
#[derive(Debug, Clone, PartialEq, Eq)]
pub enum LexingErrorKind {
    InvalidLiteral { expected: String, got: String },
    UnexpectedEof,
}

#[derive(Debug, Clone, PartialEq, Eq)]
pub struct LexingError {
    pub position: usize,
    pub kind: LexingErrorKind,
}

impl View for LexingError {
    type V = LexErrM;

    open spec fn view(&self) -> LexErrM {
        match self.kind {
            LexingErrorKind::InvalidLiteral { expected: _, got } => LexErrM::InvalidLiteral {
                position: self.position as int,
                got: got@,
            },
            LexingErrorKind::UnexpectedEof => LexErrM::UnexpectedEof {
                position: self.position as int,
            },
        }
    }
}

/// A token. Number, symbol and string tokens carry their source characters;
/// converting the text to a value is the parser's business.
#[derive(Debug, PartialEq)]
pub enum LexemeType {
    RightParen,
    LeftParen,
    RightCBracket,
    LeftCBracket,
    Integer(Vec<char>),
    Float(Vec<char>),
    RawSymbol(Vec<char>),
    StringLiteral(Vec<char>),
}

impl View for LexemeType {
    type V = LexTokM;

    open spec fn view(&self) -> LexTokM {
        match self {
            LexemeType::RightParen => LexTokM::RParen,
            LexemeType::LeftParen => LexTokM::LParen,
            LexemeType::RightCBracket => LexTokM::RBrace,
            LexemeType::LeftCBracket => LexTokM::LBrace,
            LexemeType::Integer(v) => LexTokM::Int(v@),
            LexemeType::Float(v) => LexTokM::Float(v@),
            LexemeType::RawSymbol(v) => LexTokM::Sym(v@),
            LexemeType::StringLiteral(v) => LexTokM::StrLit(v@),
        }
    }
}

#[derive(Debug, PartialEq)]
pub struct Lexeme {
    pub index: usize,
    pub value: LexemeType,
}

impl View for Lexeme {
    type V = LexemeM;

    open spec fn view(&self) -> LexemeM {
        LexemeM { index: self.index as int, value: self.value@ }
    }
}

pub struct Lexer {
    pub text: Vec<char>,
    pub index: usize,
    pub has_errored: bool,
}

// ---------------------------------------------------------------------------
// Executable lexer
// ---------------------------------------------------------------------------
/// Copy `text[from..to]` into a fresh vector.
#[verifier::loop_isolation(false)]
fn copy_range(text: &Vec<char>, from: usize, to: usize) -> (r: Vec<char>)
    requires
        from <= to <= text@.len(),
    ensures
        r@ == text@.subrange(from as int, to as int),
{
    let mut v: Vec<char> = Vec::new();
    let mut k = from;
    while k < to
        invariant
            from <= k <= to <= text@.len(),
            v@ == text@.subrange(from as int, k as int),
        decreases to - k,
    {
        v.push(text[k]);
        k = k + 1;
        proof {
            assert(v@ =~= text@.subrange(from as int, k as int));
        }
    }
    v
}

impl Lexer {
    pub fn new(text: &str) -> (r: Lexer)
        ensures
            r.text@ == text@,
            r.index == 0,
            !r.has_errored,
    {
        Lexer { text: str_to_chars(text), index: 0, has_errored: false }
    }

    /// Step one character forward, handing back the character passed over.
    pub fn advance_char(&mut self) -> (r: Option<char>)
        ensures
            final(self).text@ == old(self).text@,
            final(self).has_errored == old(self).has_errored,
            old(self).index < old(self).text@.len() ==> r == Some(
                old(self).text@[old(self).index as int],
            ) && final(self).index == old(self).index + 1,
            old(self).index >= old(self).text@.len() ==> r is None && final(self).index == old(
                self).index,
    {
        if self.index < self.text.len() {
            let c = self.text[self.index];
            self.index = self.index + 1;
            Some(c)
        } else {
            None
        }
    }

    pub fn is_valid_raw_symbol(c: char) -> (r: bool)
        ensures
            r == is_symbol_char(c),
    {
        ('a' <= c && c <= 'z') || ('A' <= c && c <= 'Z') || c == '/' || c == '_' || c == '+'
            || c == '-' || c == '*' || c == '\\' || c == '=' || c == '>' || c == '<' || c == '!'
            || c == '&' || c == '?' || c == '#'
    }

    /// Scan the number whose first digit the cursor has just passed.
    #[verifier::loop_isolation(false)]
    pub fn lex_number(&mut self) -> (r: LexemeType)
        requires
            0 < old(self).index <= old(self).text@.len(),
            is_digit_char(old(self).text@[old(self).index - 1]),
        ensures
            final(self).text@ == old(self).text@,
            final(self).has_errored == old(self).has_errored,
            ({
                let (tok, next) = spec_number(old(self).text@, old(self).index - 1);
                r@ == tok && final(self).index == next
            }),
    {
        let ghost text = self.text@;
        let numstart = self.index - 1;
        let mut j = numstart;
        while j < self.text.len() && ('0' <= self.text[j] && self.text[j] <= '9')
            invariant
                self.text@ == text,
                numstart <= j <= text.len(),
                scan_digits(text, numstart as int) == scan_digits(text, j as int),
            decreases text.len() - j,
        {
            j = j + 1;
        }
        proof {
            assert(scan_digits(text, j as int) == j);
        }
        let d_end = j;
        let is_float = d_end < self.text.len() && self.text[d_end] == '.' && d_end + 1
            < self.text.len() && ('0' <= self.text[d_end + 1] && self.text[d_end + 1] <= '9');
        if is_float {
            let mut k = d_end + 1;
            while k < self.text.len() && ('0' <= self.text[k] && self.text[k] <= '9')
                invariant
                    self.text@ == text,
                    d_end + 1 <= k <= text.len(),
                    scan_digits(text, d_end + 1) == scan_digits(text, k as int),
                decreases text.len() - k,
            {
                k = k + 1;
            }
            proof {
                assert(scan_digits(text, k as int) == k);
            }
            let chars = copy_range(&self.text, numstart, k);
            self.index = k;
            LexemeType::Float(chars)
        } else {
            let chars = copy_range(&self.text, numstart, d_end);
            self.index = d_end;
            LexemeType::Integer(chars)
        }
    }

    /// Scan the symbol whose first character the cursor has just passed.
    #[verifier::loop_isolation(false)]
    pub fn lex_raw_symbol(&mut self) -> (r: LexemeType)
        requires
            0 < old(self).index <= old(self).text@.len(),
            is_symbol_char(old(self).text@[old(self).index - 1]),
        ensures
            final(self).text@ == old(self).text@,
            final(self).has_errored == old(self).has_errored,
            ({
                let (tok, next) = spec_symbol(old(self).text@, old(self).index - 1);
                r@ == tok && final(self).index == next
            }),
    {
        let ghost text = self.text@;
        let symbol_start = self.index - 1;
        let mut j = symbol_start;
        while j < self.text.len() && Self::is_valid_raw_symbol(self.text[j])
            invariant
                self.text@ == text,
                symbol_start <= j <= text.len(),
                scan_symbol(text, symbol_start as int) == scan_symbol(text, j as int),
            decreases text.len() - j,
        {
            j = j + 1;
        }
        proof {
            assert(scan_symbol(text, j as int) == j);
        }
        let chars = copy_range(&self.text, symbol_start, j);
        self.index = j;
        LexemeType::RawSymbol(chars)
    }

    /// Scan the string literal whose opening quote the cursor has just
    /// passed. The token text is the raw span between the quotes.
    #[verifier::loop_isolation(false)]
    pub fn lex_string_literal(&mut self) -> (r: Result<LexemeType, LexingError>)
        requires
            0 < old(self).index <= old(self).text@.len(),
        ensures
            final(self).text@ == old(self).text@,
            final(self).has_errored == old(self).has_errored,
            match spec_string(old(self).text@, old(self).index - 1) {
                Ok((tok, next)) => r matches Ok(l) && l@ == tok && final(self).index == next,
                Err(e) => r matches Err(err) && err@ == e && final(self).index == old(self).index,
            },
    {
        let ghost text = self.text@;
        let ghost err0 = self.has_errored;
        let qpos = self.index - 1;
        let q = self.text[qpos];
        let mut j = qpos + 1;
        loop
            invariant
                self.text@ == text,
                self.index == qpos + 1,
                self.has_errored == err0,
                qpos + 1 <= j <= text.len(),
                q == text[qpos as int],
                scan_string_end(text, qpos + 1, q) == scan_string_end(text, j as int, q),
            decreases text.len() - j,
        {
            if j >= self.text.len() {
                return Err(
                    LexingError { position: self.index, kind: LexingErrorKind::UnexpectedEof },
                );
            }
            let c = self.text[j];
            if c == '\\' {
                if j + 1 >= self.text.len() {
                    return Err(
                        LexingError { position: self.index, kind: LexingErrorKind::UnexpectedEof },
                    );
                }
                j = j + 2;
            } else if c == q {
                let chars = copy_range(&self.text, qpos + 1, j);
                self.index = j + 1;
                return Ok(LexemeType::StringLiteral(chars));
            } else {
                j = j + 1;
            }
        }
    }

    /// The next token, an error, or `None` at the end of input. After an
    /// error the lexer is fused and always hands back `None`.
    #[verifier::loop_isolation(false)]
    pub fn next(&mut self) -> (r: Option<Result<Lexeme, LexingError>>)
        ensures
            final(self).text@ == old(self).text@,
            old(self).has_errored ==> r is None && *final(self) == *old(self),
            !old(self).has_errored ==> match spec_scan(old(self).text@, old(self).index as int) {
                Err(e) => (r matches Some(rr) && rr matches Err(err) && err@ == e) && final(
                    self).has_errored,
                Ok(ScanStep::Done) => r is None && !final(self).has_errored,
                Ok(ScanStep::Tok(lx, next)) => (r matches Some(rr) && rr matches Ok(l) && l@ == lx)
                    && final(self).index == next && !final(self).has_errored && old(self).index
                    < next,
            },
    {
        if self.has_errored {
            return None;
        }
        if self.index >= self.text.len() {
            return None;
        }
        let ghost text = self.text@;
        let ghost i0 = self.index as int;
        loop
            invariant
                self.text@ == text,
                !self.has_errored,
                0 <= self.index <= text.len(),
                spec_scan(text, i0) == spec_scan(text, self.index as int),
                i0 <= self.index,
            decreases text.len() - self.index,
        {
            let ghost i = self.index as int;
            proof {
                lemma_spec_scan_bounds(text, i);
            }
            if self.index >= self.text.len() {
                return None;
            }
            let index = self.index;
            let c = self.text[index];
            self.index = self.index + 1;
            if c == '(' {
                return Some(Ok(Lexeme { index, value: LexemeType::LeftParen }));
            } else if c == ')' {
                return Some(Ok(Lexeme { index, value: LexemeType::RightParen }));
            } else if c == '{' {
                return Some(Ok(Lexeme { index, value: LexemeType::LeftCBracket }));
            } else if c == '}' {
                return Some(Ok(Lexeme { index, value: LexemeType::RightCBracket }));
            } else if c == ';' {
                // Skip the comment: everything up to the next newline.
                let mut j = self.index;
                while j < self.text.len() && self.text[j] != '\n'
                    invariant
                        self.text@ == text,
                        i + 1 <= j <= text.len(),
                        find_newline(text, i + 1) == find_newline(text, j as int),
                    decreases text.len() - j,
                {
                    j = j + 1;
                }
                proof {
                    assert(find_newline(text, j as int) == j);
                }
                self.index = j;
            } else if c == '"' || c == '\'' {
                match self.lex_string_literal() {
                    Ok(value) => {
                        return Some(Ok(Lexeme { index, value }));
                    },
                    Err(e) => {
                        self.has_errored = true;
                        return Some(Err(e));
                    },
                }
            } else if '0' <= c && c <= '9' {
                let value = self.lex_number();
                return Some(Ok(Lexeme { index, value }));
            } else if c == ' ' || c == '\t' || c == '\n' {
                // Whitespace: fall through to the next iteration.
            } else if Self::is_valid_raw_symbol(c) {
                let value = self.lex_raw_symbol();
                return Some(Ok(Lexeme { index, value }));
            } else {
                let mut gv: Vec<char> = Vec::new();
                gv.push(c);
                proof {
                    assert(gv@ =~= seq![c]);
                }
                let got = chars_to_string(&gv);
                let expected = String::from_str("one of '(', ')', '{', '}', ';' '\"', '\'', ");
                self.has_errored = true;
                return Some(
                    Err(
                        LexingError {
                            position: index,
                            kind: LexingErrorKind::InvalidLiteral { expected, got },
                        },
                    ),
                );
            }
        }
    }
}

} // verus!
