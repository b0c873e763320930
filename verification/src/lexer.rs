//! Lexing the DSL surface: keywords, identifiers, integer and float
//! literals, punctuation and arithmetic, with whitespace skipped. The
//! token stream is pinned to [`spec_lex`], so lexing is deterministic and
//! the error position is exactly the first byte no token rule covers.
//!
//! A float literal is kept as its decimal parts — the digits before the
//! dot as a number, the digits after it as text — so no floating point is
//! involved.

use vstd::prelude::*;

use crate::error::LexerError;

verus! {

broadcast use vstd::std_specs::vec::group_vec_axioms, vstd::seq::group_seq_axioms;

#[derive(Clone, Debug, PartialEq, Eq, Hash)]
pub enum Token {
    KwImport,
    KwSub,
    KwFor,
    KwIn,
    KwIf,
    KwDf,
    TyInt,
    TyFloat,
    TyValue,
    TyName,
    Lparen,
    Rparen,
    Lbrace,
    Rbrace,
    Comma,
    Dots,
    Semi,
    Add,
    Sub,
    Mul,
    Div,
    Ident(String),
    Integer(i64),
    Float(u64, String),
}

#[verifier::ext_equal]
pub enum SpecToken {
    KwImport,
    KwSub,
    KwFor,
    KwIn,
    KwIf,
    KwDf,
    TyInt,
    TyFloat,
    TyValue,
    TyName,
    Lparen,
    Rparen,
    Lbrace,
    Rbrace,
    Comma,
    Dots,
    Semi,
    Add,
    Sub,
    Mul,
    Div,
    Ident(Seq<char>),
    Integer(i64),
    Float(u64, Seq<char>),
}

impl View for Token {
    type V = SpecToken;

    open spec fn view(&self) -> SpecToken {
        match self {
            Token::KwImport => SpecToken::KwImport,
            Token::KwSub => SpecToken::KwSub,
            Token::KwFor => SpecToken::KwFor,
            Token::KwIn => SpecToken::KwIn,
            Token::KwIf => SpecToken::KwIf,
            Token::KwDf => SpecToken::KwDf,
            Token::TyInt => SpecToken::TyInt,
            Token::TyFloat => SpecToken::TyFloat,
            Token::TyValue => SpecToken::TyValue,
            Token::TyName => SpecToken::TyName,
            Token::Lparen => SpecToken::Lparen,
            Token::Rparen => SpecToken::Rparen,
            Token::Lbrace => SpecToken::Lbrace,
            Token::Rbrace => SpecToken::Rbrace,
            Token::Comma => SpecToken::Comma,
            Token::Dots => SpecToken::Dots,
            Token::Semi => SpecToken::Semi,
            Token::Add => SpecToken::Add,
            Token::Sub => SpecToken::Sub,
            Token::Mul => SpecToken::Mul,
            Token::Div => SpecToken::Div,
            Token::Ident(s) => SpecToken::Ident(s@),
            Token::Integer(v) => SpecToken::Integer(*v),
            Token::Float(w, f) => SpecToken::Float(*w, f@),
        }
    }
}

impl DeepView for Token {
    type V = SpecToken;

    open spec fn deep_view(&self) -> SpecToken {
        self@
    }
}

pub open spec fn is_ws(c: char) -> bool {
    c == ' ' || c == '\t' || c == '\r' || c == '\n'
}

pub open spec fn is_alpha(c: char) -> bool {
    ('a' <= c && c <= 'z') || ('A' <= c && c <= 'Z') || c == '_'
}

pub open spec fn is_digit(c: char) -> bool {
    '0' <= c && c <= '9'
}

pub open spec fn is_ident_char(c: char) -> bool {
    is_alpha(c) || is_digit(c)
}

/// The end of the identifier run starting at `i`.
pub open spec fn scan_ident(s: Seq<char>, i: int) -> int
    decreases s.len() - i,
{
    if 0 <= i < s.len() && is_ident_char(s[i]) {
        scan_ident(s, i + 1)
    } else {
        i
    }
}

/// The end of the digit run starting at `i`.
pub open spec fn scan_digits(s: Seq<char>, i: int) -> int
    decreases s.len() - i,
{
    if 0 <= i < s.len() && is_digit(s[i]) {
        scan_digits(s, i + 1)
    } else {
        i
    }
}

pub open spec fn digit_value(c: char) -> int {
    c as int - '0' as int
}

/// The number the digit run `s[i..e]` denotes.
pub open spec fn digits_value(s: Seq<char>, i: int, e: int) -> int
    decreases e - i,
{
    if i >= e {
        0
    } else {
        digits_value(s, i, e - 1) * 10 + digit_value(s[e - 1])
    }
}

/// What an identifier-shaped word means: a keyword, a type keyword, or a
/// plain identifier.
pub open spec fn spec_word_token(w: Seq<char>) -> SpecToken {
    if w == "import"@ {
        SpecToken::KwImport
    } else if w == "sub"@ {
        SpecToken::KwSub
    } else if w == "for"@ {
        SpecToken::KwFor
    } else if w == "in"@ {
        SpecToken::KwIn
    } else if w == "if"@ {
        SpecToken::KwIf
    } else if w == "df"@ {
        SpecToken::KwDf
    } else if w == "int"@ {
        SpecToken::TyInt
    } else if w == "float"@ {
        SpecToken::TyFloat
    } else if w == "value"@ {
        SpecToken::TyValue
    } else if w == "name"@ {
        SpecToken::TyName
    } else {
        SpecToken::Ident(w)
    }
}

pub open spec fn spec_punct_token(c: char) -> Option<SpecToken> {
    if c == '(' {
        Some(SpecToken::Lparen)
    } else if c == ')' {
        Some(SpecToken::Rparen)
    } else if c == '{' {
        Some(SpecToken::Lbrace)
    } else if c == '}' {
        Some(SpecToken::Rbrace)
    } else if c == ',' {
        Some(SpecToken::Comma)
    } else if c == ';' {
        Some(SpecToken::Semi)
    } else if c == '+' {
        Some(SpecToken::Add)
    } else if c == '-' {
        Some(SpecToken::Sub)
    } else if c == '*' {
        Some(SpecToken::Mul)
    } else if c == '/' {
        Some(SpecToken::Div)
    } else {
        None
    }
}

/// The end of the number starting at `i`: a single `0` or a nonzero digit
/// run, per the literal grammar.
pub open spec fn spec_int_end(s: Seq<char>, i: int) -> int {
    if s[i] == '0' {
        i + 1
    } else {
        scan_digits(s, i)
    }
}

/// Whether the number at `i..e` continues as a float: a dot with at least
/// one digit after it.
pub open spec fn spec_is_float_at(s: Seq<char>, e: int) -> bool {
    e + 1 < s.len() && s[e] == '.' && is_digit(s[e + 1])
}

/// The tokens of `s[i..]`, or the position of the first unlexable byte.
/// An integer literal beyond `i64`'s range, or a float's whole part beyond
/// `u64`'s, is reported at its first digit.
pub open spec fn spec_lex(s: Seq<char>, i: int) -> core::result::Result<Seq<SpecToken>, int>
    decreases s.len() - i, 1int,
{
    if i < 0 || i >= s.len() {
        Ok(Seq::empty())
    } else if is_ws(s[i]) {
        spec_lex(s, i + 1)
    } else if is_alpha(s[i]) {
        spec_lex_cons(s, i, spec_word_token(s.subrange(i, scan_ident(s, i))), scan_ident(s, i))
    } else if is_digit(s[i]) {
        let e = spec_int_end(s, i);
        if spec_is_float_at(s, e) {
            let f = scan_digits(s, e + 1);
            if digits_value(s, i, e) > u64::MAX {
                Err(i)
            } else {
                spec_lex_cons(
                    s,
                    i,
                    SpecToken::Float(digits_value(s, i, e) as u64, s.subrange(e + 1, f)),
                    f,
                )
            }
        } else {
            if digits_value(s, i, e) > i64::MAX {
                Err(i)
            } else {
                spec_lex_cons(s, i, SpecToken::Integer(digits_value(s, i, e) as i64), e)
            }
        }
    } else if s[i] == '.' && i + 1 < s.len() && s[i + 1] == '.' {
        spec_lex_cons(s, i, SpecToken::Dots, i + 2)
    } else {
        match spec_punct_token(s[i]) {
            Some(t) => spec_lex_cons(s, i, t, i + 1),
            None => Err(i),
        }
    }
}

/// One token found at `i`, ending at `e`: prepend it to the rest.
pub open spec fn spec_lex_cons(s: Seq<char>, i: int, t: SpecToken, e: int) -> core::result::Result<
    Seq<SpecToken>,
    int,
>
    decreases s.len() - i, 0int,
{
    if i < e <= s.len() {
        match spec_lex(s, e) {
            Err(p) => Err(p),
            Ok(rest) => Ok(seq![t] + rest),
        }
    } else {
        Err(i)
    }
}

pub proof fn lemma_scan_ident_range(s: Seq<char>, i: int)
    requires
        0 <= i <= s.len(),
    ensures
        i <= scan_ident(s, i) <= s.len(),
        forall|k: int| i <= k < scan_ident(s, i) ==> is_ident_char(s[k]),
        scan_ident(s, i) < s.len() ==> !is_ident_char(s[scan_ident(s, i)]),
    decreases s.len() - i,
{
    if i < s.len() && is_ident_char(s[i]) {
        lemma_scan_ident_range(s, i + 1);
    }
}

pub proof fn lemma_scan_digits_range(s: Seq<char>, i: int)
    requires
        0 <= i <= s.len(),
    ensures
        i <= scan_digits(s, i) <= s.len(),
        forall|k: int| i <= k < scan_digits(s, i) ==> is_digit(s[k]),
        scan_digits(s, i) < s.len() ==> !is_digit(s[scan_digits(s, i)]),
    decreases s.len() - i,
{
    if i < s.len() && is_digit(s[i]) {
        lemma_scan_digits_range(s, i + 1);
    }
}


pub proof fn lemma_digits_value_nonneg(s: Seq<char>, i: int, e: int)
    requires
        0 <= i <= e,
        forall|k: int| i <= k < e ==> is_digit(s[k]),
    ensures
        digits_value(s, i, e) >= 0,
    decreases e - i,
{
    if i < e {
        lemma_digits_value_nonneg(s, i, e - 1);
    }
}

pub proof fn lemma_digits_value_mono(s: Seq<char>, i: int, j: int, e: int)
    requires
        0 <= i <= j <= e,
        forall|k: int| i <= k < e ==> is_digit(s[k]),
    ensures
        digits_value(s, i, e) >= digits_value(s, i, j),
    decreases e - j,
{
    if j < e {
        lemma_digits_value_mono(s, i, j + 1, e);
        lemma_digits_value_nonneg(s, i, j);
    }
}

fn is_ws_e(c: char) -> (r: bool)
    ensures
        r == is_ws(c),
{
    c == ' ' || c == '\t' || c == '\r' || c == '\n'
}

fn is_alpha_e(c: char) -> (r: bool)
    ensures
        r == is_alpha(c),
{
    ('a' <= c && c <= 'z') || ('A' <= c && c <= 'Z') || c == '_'
}

fn is_digit_e(c: char) -> (r: bool)
    ensures
        r == is_digit(c),
{
    '0' <= c && c <= '9'
}

fn is_ident_char_e(c: char) -> (r: bool)
    ensures
        r == is_ident_char(c),
{
    is_alpha_e(c) || is_digit_e(c)
}

fn word_token(word: String) -> (r: Token)
    ensures
        r@ == spec_word_token(word@),
{
    if crate::names::name_eq(&word, &"import".to_owned()) {
        Token::KwImport
    } else if crate::names::name_eq(&word, &"sub".to_owned()) {
        Token::KwSub
    } else if crate::names::name_eq(&word, &"for".to_owned()) {
        Token::KwFor
    } else if crate::names::name_eq(&word, &"in".to_owned()) {
        Token::KwIn
    } else if crate::names::name_eq(&word, &"if".to_owned()) {
        Token::KwIf
    } else if crate::names::name_eq(&word, &"df".to_owned()) {
        Token::KwDf
    } else if crate::names::name_eq(&word, &"int".to_owned()) {
        Token::TyInt
    } else if crate::names::name_eq(&word, &"float".to_owned()) {
        Token::TyFloat
    } else if crate::names::name_eq(&word, &"value".to_owned()) {
        Token::TyValue
    } else if crate::names::name_eq(&word, &"name".to_owned()) {
        Token::TyName
    } else {
        Token::Ident(word)
    }
}

/// Scan to the end of the identifier run starting at `i`.
#[verifier::loop_isolation(false)]
fn scan_ident_e(input: &str, n: usize, i: usize) -> (e: usize)
    requires
        n == input@.len(),
        i < n,
        is_ident_char(input@[i as int]),
    ensures
        e as int == scan_ident(input@, i as int),
        i < e <= n,
{
    let ghost sv = input@;
    let mut e: usize = i;
    while e < n && is_ident_char_e(input.get_char(e))
        invariant
            i <= e <= n,
            scan_ident(sv, i as int) == scan_ident(sv, e as int),
        decreases n - e,
    {
        e = e + 1;
    }
    proof {
        lemma_scan_ident_range(sv, i as int);
    }
    e
}

/// Scan to the end of the digit run starting at `i`.
#[verifier::loop_isolation(false)]
fn scan_digits_e(input: &str, n: usize, i: usize) -> (e: usize)
    requires
        n == input@.len(),
        i <= n,
    ensures
        e as int == scan_digits(input@, i as int),
        i <= e <= n,
{
    let ghost sv = input@;
    let mut e: usize = i;
    while e < n && is_digit_e(input.get_char(e))
        invariant
            i <= e <= n,
            scan_digits(sv, i as int) == scan_digits(sv, e as int),
        decreases n - e,
    {
        e = e + 1;
    }
    e
}

/// The value of the digit run `input[i..e]`, or nothing if it exceeds
/// `limit`.
#[verifier::loop_isolation(false)]
fn digits_value_e(input: &str, i: usize, e: usize, limit: u64) -> (r: Option<u64>)
    requires
        e as int <= input@.len(),
        i <= e,
        limit >= 9,
        forall|k: int| i <= k < e ==> is_digit(input@[k]),
    ensures
        match r {
            Some(v) => v == digits_value(input@, i as int, e as int) && v <= limit,
            None => digits_value(input@, i as int, e as int) > limit,
        },
{
    let ghost sv = input@;
    let mut acc: u64 = 0;
    let mut j: usize = i;
    while j < e
        invariant
            i <= j <= e,
            acc as int == digits_value(sv, i as int, j as int),
            acc <= limit,
        decreases e - j,
    {
        let c = input.get_char(j);
        let d: u64 = (c as u32 as u64) - ('0' as u32 as u64);
        proof {
            assert(is_digit(sv[j as int]));
            assert(d as int == digit_value(sv[j as int]));
        }
        if acc > (limit - d) / 10 {
            proof {
                lemma_digits_value_mono(sv, i as int, j + 1, e as int);
                lemma_digits_value_nonneg(sv, i as int, j as int);
                assert(digits_value(sv, i as int, j + 1) == acc * 10 + d);
                assert(acc * 10 + d > limit) by (nonlinear_arith)
                    requires
                        acc > (limit - d) / 10,
                        d < 10,
                        acc >= 0,
                        limit >= d,
                ;
            }
            return None;
        }
        proof {
            assert(acc * 10 + d <= limit) by (nonlinear_arith)
                requires
                    acc <= (limit - d) / 10,
                    d < 10,
                    acc >= 0,
                    limit >= d,
            ;
        }
        acc = acc * 10 + d;
        j = j + 1;
    }
    Some(acc)
}

/// Lex a whole source text. The token stream is exactly [`spec_lex`]'s;
/// on failure the error carries the character position of the first byte
/// no rule covers (a literal out of range is reported at its first digit).
#[verifier::loop_isolation(false)]
#[verifier::rlimit(80)]
pub fn lex(input: &str) -> (r: core::result::Result<Vec<Token>, LexerError>)
    ensures
        match (r, spec_lex(input@, 0)) {
            (core::result::Result::Ok(ts), core::result::Result::Ok(sts)) => ts.deep_view()
                == sts,
            (core::result::Result::Err(le), core::result::Result::Err(p)) => le.span_start as int
                == p && le.span_end as int == p + 1,
            _ => false,
        },
{
    let ghost sv = input@;
    let n = input.unicode_len();
    let mut out: Vec<Token> = Vec::new();
    let mut i: usize = 0;
    while i < n
        invariant
            i <= n,
            n == sv.len(),
            match spec_lex(sv, i as int) {
                core::result::Result::Ok(rest) => spec_lex(sv, 0) == core::result::Result::<
                    Seq<SpecToken>,
                    int,
                >::Ok(out.deep_view() + rest),
                core::result::Result::Err(p) => spec_lex(sv, 0) == core::result::Result::<
                    Seq<SpecToken>,
                    int,
                >::Err(p),
            },
        decreases n - i,
    {
        let c = input.get_char(i);
        if is_ws_e(c) {
            i = i + 1;
        } else if is_alpha_e(c) {
            let e = scan_ident_e(input, n, i);
            let word = input.substring_char(i, e).to_owned();
            let tok = word_token(word);
            let ghost opre = out.deep_view();
            let ghost tv = tok@;
            out.push(tok);
            proof {
                assert(spec_lex(sv, i as int) == spec_lex_cons(sv, i as int, tv, e as int));
                assert(out.deep_view() =~= opre.push(tv));
                match spec_lex(sv, e as int) {
                    core::result::Result::Ok(rest2) => {
                        assert(out.deep_view() + rest2 =~= opre + (seq![tv] + rest2));
                    },
                    core::result::Result::Err(_) => {},
                }
            }
            i = e;
        } else if is_digit_e(c) {
            let e: usize = if c == '0' {
                i + 1
            } else {
                scan_digits_e(input, n, i)
            };
            proof {
                lemma_scan_digits_range(sv, i as int);
                assert(forall|k: int| i <= k < e ==> is_digit(sv[k]));
            }
            let mut is_float: bool = false;
            if e < n && input.get_char(e) == '.' {
                if e + 1 < n && is_digit_e(input.get_char(e + 1)) {
                    is_float = true;
                }
            }
            if is_float {
                let f = scan_digits_e(input, n, e + 1);
                match digits_value_e(input, i, e, u64::MAX) {
                    Option::None => {
                        return Err(LexerError { span_start: i, span_end: i + 1 });
                    },
                    Option::Some(w) => {
                        let frac = input.substring_char(e + 1, f).to_owned();
                        let tok = Token::Float(w, frac);
                        let ghost opre = out.deep_view();
                        let ghost tv = tok@;
                        out.push(tok);
                        proof {
                            assert(e as int == spec_int_end(sv, i as int));
                            assert(spec_is_float_at(sv, e as int));
                            assert(digits_value(sv, i as int, e as int) == w as int);
                            assert(tv == SpecToken::Float(
                                digits_value(sv, i as int, e as int) as u64,
                                sv.subrange(e + 1, f as int),
                            ));
                            assert(spec_lex(sv, i as int) == spec_lex_cons(
                                sv,
                                i as int,
                                tv,
                                f as int,
                            ));
                            assert(out.deep_view() =~= opre.push(tv));
                            match spec_lex(sv, f as int) {
                                core::result::Result::Ok(rest2) => {
                                    assert(out.deep_view() + rest2 =~= opre + (seq![tv]
                                        + rest2));
                                },
                                core::result::Result::Err(_) => {},
                            }
                        }
                        i = f;
                    },
                }
            } else {
                match digits_value_e(input, i, e, i64::MAX as u64) {
                    Option::None => {
                        return Err(LexerError { span_start: i, span_end: i + 1 });
                    },
                    Option::Some(v) => {
                        let tok = Token::Integer(v as i64);
                        let ghost opre = out.deep_view();
                        let ghost tv = tok@;
                        out.push(tok);
                        proof {
                            assert(e as int == spec_int_end(sv, i as int));
                            assert(!spec_is_float_at(sv, e as int));
                            assert(tv == SpecToken::Integer(
                                digits_value(sv, i as int, e as int) as i64,
                            ));
                            assert(spec_lex(sv, i as int) == spec_lex_cons(
                                sv,
                                i as int,
                                tv,
                                e as int,
                            ));
                            assert(out.deep_view() =~= opre.push(tv));
                            match spec_lex(sv, e as int) {
                                core::result::Result::Ok(rest2) => {
                                    assert(out.deep_view() + rest2 =~= opre + (seq![tv]
                                        + rest2));
                                },
                                core::result::Result::Err(_) => {},
                            }
                        }
                        i = e;
                    },
                }
            }
        } else if c == '.' {
            if i + 1 < n && input.get_char(i + 1) == '.' {
                let ghost opre = out.deep_view();
                out.push(Token::Dots);
                proof {
                    assert(spec_lex(sv, i as int) == spec_lex_cons(
                        sv,
                        i as int,
                        SpecToken::Dots,
                        i + 2,
                    ));
                    assert(out.deep_view() =~= opre.push(SpecToken::Dots));
                    match spec_lex(sv, i + 2) {
                        core::result::Result::Ok(rest2) => {
                            assert(out.deep_view() + rest2 =~= opre + (seq![SpecToken::Dots]
                                + rest2));
                        },
                        core::result::Result::Err(_) => {},
                    }
                }
                i = i + 2;
            } else {
                return Err(LexerError { span_start: i, span_end: i + 1 });
            }
        } else {
            let tok: Token;
            if c == '(' {
                tok = Token::Lparen;
            } else if c == ')' {
                tok = Token::Rparen;
            } else if c == '{' {
                tok = Token::Lbrace;
            } else if c == '}' {
                tok = Token::Rbrace;
            } else if c == ',' {
                tok = Token::Comma;
            } else if c == ';' {
                tok = Token::Semi;
            } else if c == '+' {
                tok = Token::Add;
            } else if c == '-' {
                tok = Token::Sub;
            } else if c == '*' {
                tok = Token::Mul;
            } else if c == '/' {
                tok = Token::Div;
            } else {
                return Err(LexerError { span_start: i, span_end: i + 1 });
            }
            let ghost opre = out.deep_view();
            let ghost tv = tok@;
            out.push(tok);
            proof {
                assert(spec_punct_token(sv[i as int]) == Some(tv));
                assert(spec_lex(sv, i as int) == spec_lex_cons(sv, i as int, tv, i + 1));
                match spec_lex(sv, i + 1) {
                    core::result::Result::Ok(rest2) => {
                        assert(out.deep_view() =~= opre.push(tv));
                        assert(out.deep_view() + rest2 =~= opre + (seq![tv] + rest2));
                    },
                    core::result::Result::Err(_) => {},
                }
            }
            i = i + 1;
        }
    }
    proof {
        assert(out.deep_view() + Seq::<SpecToken>::empty() =~= out.deep_view());
    }
    Ok(out)
}

} // verus!
