//! The lexer: raw text to a flat sequence of tokens.

use vstd::prelude::*;

use vstd::slice::slice_subrange;

use crate::text::{
    chars_of, decimal_value, digit_value, is_digit, lemma_decimal_prefix_le, string_from_chars,
};

verus! {

/// A minimal lexical unit.
#[derive(Debug, PartialEq)]
pub enum Token {
    /// A run of decimal digits; there is no sign.
    Integer(i64),
    /// A run of ASCII letters, or the single character `+`.
    Symbol(String),
    /// `(`
    LParen,
    /// `)`
    RParen,
}

/// The mathematical content of a token: a symbol's text as a character sequence.
pub enum SpecToken {
    Integer(i64),
    Symbol(Seq<char>),
    LParen,
    RParen,
}

impl View for Token {
    type V = SpecToken;

    open spec fn view(&self) -> SpecToken {
        match self {
            Token::Integer(v) => SpecToken::Integer(*v),
            Token::Symbol(s) => SpecToken::Symbol(s@),
            Token::LParen => SpecToken::LParen,
            Token::RParen => SpecToken::RParen,
        }
    }
}

impl Token {
    /// A copy of this token.
    pub fn duplicate(&self) -> (r: Token)
        ensures
            r@ == self@,
    {
        match self {
            Token::Integer(v) => Token::Integer(*v),
            Token::Symbol(s) => Token::Symbol(s.clone()),
            Token::LParen => Token::LParen,
            Token::RParen => Token::RParen,
        }
    }
}

/// Why scanning stopped before the end of the input.
#[derive(Debug, PartialEq, Eq, Clone, Copy, Structural)]
pub enum LexError {
    /// The character at `position` starts no token.
    UnrecognizedCharacter { position: usize, found: char },
    /// The digit run starting at `position` does not fit in an `i64`.
    IntegerOverflow { position: usize },
}

/// Insignificant whitespace between tokens.
pub open spec fn is_space(c: char) -> bool {
    c == ' ' || c == '\t' || c == '\n' || c == '\r'
}

/// An ASCII letter.
pub open spec fn is_alpha(c: char) -> bool {
    ('a' <= c && c <= 'z') || ('A' <= c && c <= 'Z')
}

/// The end of the run of digits that starts at `i`.
pub open spec fn digits_end(s: Seq<char>, i: int) -> int
    decreases s.len() - i,
{
    if 0 <= i < s.len() && is_digit(s[i]) {
        digits_end(s, i + 1)
    } else {
        i
    }
}

/// The end of the run of letters that starts at `i`.
pub open spec fn alphas_end(s: Seq<char>, i: int) -> int
    decreases s.len() - i,
{
    if 0 <= i < s.len() && is_alpha(s[i]) {
        alphas_end(s, i + 1)
    } else {
        i
    }
}

/// A digit run ends inside the text, after its start, at a non-digit.
pub proof fn lemma_digits_end(s: Seq<char>, i: int)
    requires
        0 <= i <= s.len(),
    ensures
        i <= digits_end(s, i) <= s.len(),
        forall|k: int| i <= k < digits_end(s, i) ==> is_digit(#[trigger] s[k]),
        digits_end(s, i) == s.len() || !is_digit(s[digits_end(s, i)]),
    decreases s.len() - i,
{
    if i < s.len() && is_digit(s[i]) {
        lemma_digits_end(s, i + 1);
    }
}

/// A letter run ends inside the text, after its start, at a non-letter.
pub proof fn lemma_alphas_end(s: Seq<char>, i: int)
    requires
        0 <= i <= s.len(),
    ensures
        i <= alphas_end(s, i) <= s.len(),
        forall|k: int| i <= k < alphas_end(s, i) ==> is_alpha(#[trigger] s[k]),
        alphas_end(s, i) == s.len() || !is_alpha(s[alphas_end(s, i)]),
    decreases s.len() - i,
{
    if i < s.len() && is_alpha(s[i]) {
        lemma_alphas_end(s, i + 1);
    }
}

/// Puts `t` in front of the tokens of a successful scan; passes an error on.
pub open spec fn cons_token(t: SpecToken, r: Result<Seq<SpecToken>, LexError>) -> Result<
    Seq<SpecToken>,
    LexError,
> {
    match r {
        Ok(ts) => Ok(seq![t] + ts),
        Err(e) => Err(e),
    }
}

/// Puts `p` in front of the tokens of a successful scan; passes an error on.
pub open spec fn prepend_tokens(p: Seq<SpecToken>, r: Result<Seq<SpecToken>, LexError>) -> Result<
    Seq<SpecToken>,
    LexError,
> {
    match r {
        Ok(ts) => Ok(p + ts),
        Err(e) => Err(e),
    }
}

/// The tokens of `s` from position `i` on. Whitespace separates tokens and
/// yields none; at each token the first rule that applies wins: `(`, `)`, a
/// digit run, a letter run, `+`. Any other character is an error, as is a
/// digit run whose value exceeds `i64::MAX`.
pub open spec fn lex_from(s: Seq<char>, i: int) -> Result<Seq<SpecToken>, LexError>
    decreases s.len() - i,
{
    if !(0 <= i < s.len()) {
        Ok(seq![])
    } else {
        let c = s[i];
        if is_space(c) {
            lex_from(s, i + 1)
        } else if c == '(' {
            cons_token(SpecToken::LParen, lex_from(s, i + 1))
        } else if c == ')' {
            cons_token(SpecToken::RParen, lex_from(s, i + 1))
        } else if is_digit(c) {
            let e = digits_end(s, i);
            let v = decimal_value(s.subrange(i, e));
            proof {
                lemma_digits_end(s, i + 1);
            }
            if v > i64::MAX {
                Err(LexError::IntegerOverflow { position: i as usize })
            } else {
                cons_token(SpecToken::Integer(v as i64), lex_from(s, e))
            }
        } else if is_alpha(c) {
            let e = alphas_end(s, i);
            proof {
                lemma_alphas_end(s, i + 1);
            }
            cons_token(SpecToken::Symbol(s.subrange(i, e)), lex_from(s, e))
        } else if c == '+' {
            cons_token(SpecToken::Symbol(seq!['+']), lex_from(s, i + 1))
        } else {
            Err(LexError::UnrecognizedCharacter { position: i as usize, found: c })
        }
    }
}

/// The tokens of the whole text `s`.
pub open spec fn lex(s: Seq<char>) -> Result<Seq<SpecToken>, LexError> {
    lex_from(s, 0)
}

/// The views of a vector of tokens.
pub open spec fn tokens_view(v: Seq<Token>) -> Seq<SpecToken> {
    v.map_values(|t: Token| t@)
}

/// Emitting one more token and scanning on agree with scanning on and
/// putting the token in front.
proof fn lemma_prepend_cons(p: Seq<SpecToken>, t: SpecToken, r: Result<Seq<SpecToken>, LexError>)
    ensures
        prepend_tokens(p, cons_token(t, r)) == prepend_tokens(p.push(t), r),
{
    if let Ok(ts) = r {
        assert(p + (seq![t] + ts) =~= p.push(t) + ts);
    }
}

/// The views of a pushed vector are the old views and the new one.
proof fn lemma_tokens_view_push(v: Seq<Token>, t: Token)
    ensures
        tokens_view(v.push(t)) == tokens_view(v).push(t@),
{
    assert(tokens_view(v.push(t)) =~= tokens_view(v).push(t@));
}

/// Whether `r` is what scanning the text `s` gives.
pub open spec fn tokenize_fits(r: Result<Vec<Token>, LexError>, s: Seq<char>) -> bool {
    match r {
        Ok(v) => lex(s) == Ok::<Seq<SpecToken>, LexError>(tokens_view(v@)),
        Err(e) => lex(s) == Err::<Seq<SpecToken>, LexError>(e),
    }
}

/// Scanning has no hidden state: two scans of the same text give the same
/// tokens, or the same error.
pub proof fn lemma_tokenize_deterministic(
    s: Seq<char>,
    first: Result<Vec<Token>, LexError>,
    second: Result<Vec<Token>, LexError>,
)
    requires
        tokenize_fits(first, s),
        tokenize_fits(second, s),
    ensures
        match (first, second) {
            (Ok(a), Ok(b)) => tokens_view(a@) == tokens_view(b@),
            (Err(e1), Err(e2)) => e1 == e2,
            _ => false,
        },
{
}

/// Splits `input` into tokens, skipping whitespace between them.
///
/// Scanning is all or nothing: a character that starts no token, or a digit
/// run too large for an `i64`, makes the whole call fail with the position
/// (in characters) where that token begins.
pub fn tokenize(input: &str) -> (r: Result<Vec<Token>, LexError>)
    ensures
        tokenize_fits(r, input@),
{
    let s = chars_of(input);
    let mut out: Vec<Token> = Vec::new();
    let mut i: usize = 0;
    assert(prepend_tokens(tokens_view(out@), lex_from(s@, 0)) == lex_from(s@, 0)) by {
        if let Ok(ts) = lex_from(s@, 0) {
            assert(tokens_view(out@) + ts =~= ts);
        }
    }
    while i < s.len()
        invariant
            s@ == input@,
            i <= s@.len(),
            lex(s@) == prepend_tokens(tokens_view(out@), lex_from(s@, i as int)),
        decreases s@.len() - i,
    {
        let c = s[i];
        let ghost before = out@;
        if is_blank(c) {
            i = i + 1;
        } else if c == '(' {
            out.push(Token::LParen);
            proof {
                lemma_tokens_view_push(before, Token::LParen);
                lemma_prepend_cons(tokens_view(before), SpecToken::LParen, lex_from(s@, i + 1));
            }
            i = i + 1;
        } else if c == ')' {
            out.push(Token::RParen);
            proof {
                lemma_tokens_view_push(before, Token::RParen);
                lemma_prepend_cons(tokens_view(before), SpecToken::RParen, lex_from(s@, i + 1));
            }
            i = i + 1;
        } else if is_ascii_digit(c) {
            match scan_integer(&s, i) {
                Err(e) => {
                    return Err(e);
                },
                Ok((n, k)) => {
                    out.push(Token::Integer(n));
                    proof {
                        lemma_tokens_view_push(before, Token::Integer(n));
                        lemma_prepend_cons(
                            tokens_view(before),
                            SpecToken::Integer(n),
                            lex_from(s@, k as int),
                        );
                    }
                    i = k;
                },
            }
        } else if is_ascii_letter(c) {
            let k = scan_letters(&s, i);
            let word = string_from_chars(slice_subrange(s.as_slice(), i, k));
            let tok = Token::Symbol(word);
            out.push(tok);
            proof {
                lemma_tokens_view_push(before, tok);
                lemma_prepend_cons(
                    tokens_view(before),
                    SpecToken::Symbol(s@.subrange(i as int, k as int)),
                    lex_from(s@, k as int),
                );
            }
            i = k;
        } else if c == '+' {
            let plus: Vec<char> = vec!['+'];
            let tok = Token::Symbol(string_from_chars(plus.as_slice()));
            out.push(tok);
            proof {
                assert(plus@ =~= seq!['+']);
                lemma_tokens_view_push(before, tok);
                lemma_prepend_cons(tokens_view(before), SpecToken::Symbol(seq!['+']), lex_from(s@, i + 1));
            }
            i = i + 1;
        } else {
            return Err(LexError::UnrecognizedCharacter { position: i, found: c });
        }
    }
    assert(prepend_tokens(tokens_view(out@), lex_from(s@, i as int)) == Ok::<Seq<SpecToken>, LexError>(tokens_view(out@))) by {
        assert(tokens_view(out@) + seq![] =~= tokens_view(out@));
    }
    Ok(out)
}

/// The end of the run of letters of `s` that starts at `i`.
fn scan_letters(s: &Vec<char>, i: usize) -> (k: usize)
    requires
        i <= s@.len(),
    ensures
        k == alphas_end(s@, i as int),
        i <= k <= s@.len(),
        i < s@.len() && is_alpha(s@[i as int]) ==> i < k,
{
    let mut k: usize = i;
    proof {
        lemma_alphas_end(s@, i as int);
    }
    while k < s.len() && is_ascii_letter(s[k])
        invariant
            i <= k <= alphas_end(s@, i as int) <= s@.len(),
            alphas_end(s@, k as int) == alphas_end(s@, i as int),
        decreases s@.len() - k,
    {
        proof {
            lemma_alphas_end(s@, k + 1);
        }
        k = k + 1;
    }
    proof {
        if i < s@.len() && is_alpha(s@[i as int]) {
            lemma_alphas_end(s@, i + 1);
        }
    }
    k
}

/// Scans the digit run of `s` that starts at `i`.
fn scan_integer(s: &Vec<char>, i: usize) -> (r: Result<(i64, usize), LexError>)
    requires
        i < s@.len(),
        is_digit(s@[i as int]),
    ensures
        ({
            let e = digits_end(s@, i as int);
            let v = decimal_value(s@.subrange(i as int, e));
            match r {
                Ok((n, k)) => k == e && i < k <= s@.len() && v <= i64::MAX && n == v,
                Err(err) => v > i64::MAX && err == LexError::IntegerOverflow { position: i },
            }
        }),
{
    let ghost e = digits_end(s@, i as int);
    proof {
        lemma_digits_end(s@, i as int);
    }
    let mut k: usize = i;
    let mut acc: i64 = 0;
    while k < s.len() && is_ascii_digit(s[k])
        invariant
            e == digits_end(s@, i as int),
            i <= k <= e <= s@.len(),
            forall|m: int| i <= m < e ==> is_digit(#[trigger] s@[m]),
            e == s@.len() || !is_digit(s@[e]),
            acc == decimal_value(s@.subrange(i as int, k as int)),
        decreases s@.len() - k,
    {
        let d = (s[k] as u32 - '0' as u32) as i64;
        assert(s@.subrange(i as int, k + 1).drop_last() == s@.subrange(i as int, k as int));
        assert(d == digit_value(s@[k as int]));
        proof {
            let run = s@.subrange(i as int, e);
            assert forall|m: int| 0 <= m < run.len() implies is_digit(#[trigger] run[m]) by {
                assert(run[m] == s@[i + m]);
            }
            lemma_decimal_prefix_le(run, (k + 1 - i) as int);
            assert(decimal_value(s@.subrange(i as int, k + 1)) == acc * 10 + d);
            assert(run.take((k + 1 - i) as int) =~= s@.subrange(i as int, k + 1));
            assert(decimal_value(s@.subrange(i as int, k + 1)) <= decimal_value(run));
        }
        if acc > (i64::MAX - d) / 10 {
            assert(acc * 10 + d > i64::MAX) by (nonlinear_arith)
                requires
                    acc > (i64::MAX - d) / 10,
                    0 <= d <= 9,
            ;
            return Err(LexError::IntegerOverflow { position: i });
        }
        assert(acc * 10 + d <= i64::MAX) by (nonlinear_arith)
            requires
                acc <= (i64::MAX - d) / 10,
                0 <= d <= 9,
        ;
        acc = acc * 10 + d;
        k = k + 1;
    }
    Ok((acc, k))
}

/// Whether `c` is an ASCII decimal digit.
fn is_ascii_digit(c: char) -> (r: bool)
    ensures
        r == is_digit(c),
{
    '0' <= c && c <= '9'
}

/// Whether `c` is an ASCII letter.
fn is_ascii_letter(c: char) -> (r: bool)
    ensures
        r == is_alpha(c),
{
    ('a' <= c && c <= 'z') || ('A' <= c && c <= 'Z')
}

/// Whether `c` is whitespace between tokens.
fn is_blank(c: char) -> (r: bool)
    ensures
        r == is_space(c),
{
    c == ' ' || c == '\t' || c == '\n' || c == '\r'
}

} // verus!
