//! Polynomials in `x` with integer coefficients and powers: parsing from
//! text such as `10x^2 - 5x + 2`, rendering back to text, and the derivative
//! by the power rule.

use vstd::prelude::*;

use crate::text::{
    append_chars, chars_of, i32_value, int_chars, int_text, join, parse_i32, remove_char,
    remove_chars, replace_all, replace_chars, split_chars, split_on, string_from_chars,
};

verus! {

/// One term `coef * x^power`.
#[derive(Clone, Copy, Debug, PartialEq, Eq, Structural)]
pub struct Term {
    pub coef: i32,
    pub power: i32,
}

/// Why a text is not a term.
#[derive(Debug, PartialEq)]
pub enum TermParseError {
    /// The text holds more than one `x`.
    TooManyElements,
    /// Reserved: no parse yields it.
    InvalidFormat,
    /// The coefficient or the power is not an `i32`.
    ParseIntError(std::num::ParseIntError),
}

/// Whether `m` is what a term parse error says in words.
pub open spec fn term_error_text_fits(e: TermParseError, m: Seq<char>) -> bool {
    match e {
        TermParseError::TooManyElements => m == "Too many elements matched"@,
        TermParseError::InvalidFormat => m == "Invalid format for Term"@,
        TermParseError::ParseIntError(_) => "Integer parsing error: "@.is_prefix_of(m),
    }
}

impl TermParseError {
    /// This error in words; an integer error adds the standard library's
    /// description of it.
    pub fn message(&self) -> (r: String)
        ensures
            term_error_text_fits(*self, r@),
    {
        match self {
            TermParseError::TooManyElements => string_from_chars(chars_of("Too many elements matched").as_slice()),
            TermParseError::InvalidFormat => string_from_chars(chars_of("Invalid format for Term").as_slice()),
            TermParseError::ParseIntError(e) => {
                let mut out = chars_of("Integer parsing error: ");
                let detail = e.to_string();
                append_chars(&mut out, &chars_of(detail.as_str()));
                string_from_chars(out.as_slice())
            },
        }
    }
}

/// Whether a term is anything but the constant zero.
pub open spec fn non_zero(t: Term) -> bool {
    t.coef != 0 || t.power != 0
}

/// Whether `t` is not the constant zero term.
pub fn is_non_zero_term(term: &Term) -> (r: bool)
    ensures
        r == non_zero(*term),
{
    term.coef != 0 || term.power != 0
}

/// Whether the derivative of `t` fits in `i32` coefficients and powers.
pub open spec fn derivable(t: Term) -> bool {
    t.power == 0 || (i32::MIN <= t.power * t.coef <= i32::MAX && t.power > i32::MIN)
}

/// The derivative of `t`: `d/dx c*x^p = (p*c) * x^(p-1)`, and zero for a
/// constant.
pub open spec fn derivative(t: Term) -> Term {
    if t.power == 0 {
        Term { coef: 0, power: 0 }
    } else {
        Term { coef: (t.power * t.coef) as i32, power: (t.power - 1) as i32 }
    }
}

/// Differentiates one term by the power rule.
pub fn power_rule(term: Term) -> (r: Term)
    requires
        derivable(term),
    ensures
        r == derivative(term),
{
    if term.power == 0 {
        return Term { coef: 0, power: 0 };
    }
    let next_coef = term.power * term.coef;
    let next_power = term.power - 1;
    Term { coef: next_coef, power: next_power }
}

/// The pieces of a term's text around `x`, once `^` is dropped.
pub open spec fn term_parts(s: Seq<char>) -> Seq<Seq<char>> {
    split_on(remove_char(s, '^'), 'x')
}

/// Whether the text of a term holds more than one `x`.
pub open spec fn too_many_parts(s: Seq<char>) -> bool {
    term_parts(s).len() > 2
}

/// A coefficient or power: empty text stands for 1.
pub open spec fn number_or_one(s: Seq<char>) -> Option<int> {
    if s.len() == 0 {
        Some(1)
    } else {
        i32_value(s)
    }
}

/// The coefficient and power that the text `s` denotes: the number before
/// `x` (1 if there is none) and the number after it (1 if there is none,
/// 0 if there is no `x`); `^` is ignored.
pub open spec fn term_value(s: Seq<char>) -> Option<(int, int)> {
    let p = term_parts(s);
    let c = number_or_one(p[0]);
    let w = if p.len() > 1 {
        number_or_one(p[1])
    } else {
        Some(0)
    };
    if p.len() > 2 {
        None
    } else if c is Some && w is Some {
        Some((c->0, w->0))
    } else {
        None
    }
}

/// Whether `e` is the error that parsing the term text `s` reports.
pub open spec fn term_error_fits(e: TermParseError, s: Seq<char>) -> bool {
    match e {
        TermParseError::TooManyElements => too_many_parts(s),
        TermParseError::ParseIntError(_) => !too_many_parts(s) && term_value(s) is None,
        TermParseError::InvalidFormat => false,
    }
}

/// The contract of a term parse on the text `s`.
pub open spec fn term_result_fits(r: Result<Term, TermParseError>, s: Seq<char>) -> bool {
    match r {
        Ok(t) => term_value(s) == Some((t.coef as int, t.power as int)),
        Err(e) => term_error_fits(e, s),
    }
}

/// A coefficient or power; empty text stands for 1.
fn number_or_one_of(s: &Vec<char>) -> (r: Result<i32, std::num::ParseIntError>)
    ensures
        match r {
            Ok(v) => number_or_one(s@) == Some(v as int),
            Err(_) => number_or_one(s@) is None,
        },
{
    if s.len() == 0 {
        return Ok(1);
    }
    let text = string_from_chars(s.as_slice());
    parse_i32(text.as_str())
}

/// Parses the characters of one term.
pub fn term_from_chars(s: &Vec<char>) -> (r: Result<Term, TermParseError>)
    ensures
        term_result_fits(r, s@),
{
    let parts = split_chars(remove_chars(s, '^').as_slice(), 'x');
    proof {
        crate::text::lemma_split_on_len(remove_char(s@, '^'), 'x');
        assert(parts@.map_values(|q: Vec<char>| q@)[0] == parts@[0]@);
    }
    if parts.len() > 2 {
        return Err(TermParseError::TooManyElements);
    }
    let coef = match number_or_one_of(&parts[0]) {
        Ok(v) => v,
        Err(e) => {
            return Err(TermParseError::ParseIntError(e));
        },
    };
    let power = if parts.len() > 1 {
        assert(parts@.map_values(|q: Vec<char>| q@)[1] == parts@[1]@);
        match number_or_one_of(&parts[1]) {
            Ok(v) => v,
            Err(e) => {
                return Err(TermParseError::ParseIntError(e));
            },
        }
    } else {
        0
    };
    Ok(Term { coef, power })
}

impl Term {
    /// Parses a term such as `3x^2`, `2x`, `x^3` or `3`.
    pub fn from_text(s: &str) -> (r: Result<Term, TermParseError>)
        ensures
            term_result_fits(r, s@),
    {
        let chars = chars_of(s);
        term_from_chars(&chars)
    }
}

impl std::str::FromStr for Term {
    type Err = TermParseError;

    fn from_str(s: &str) -> Result<Term, TermParseError> {
        Term::from_text(s)
    }
}

/// A sum of terms, in the order written.
#[derive(Debug, PartialEq)]
pub struct Polynomial {
    pub terms: Vec<Term>,
}

/// Why a text is not a polynomial.
#[derive(Debug, PartialEq)]
pub enum PolynomialParseError {
    /// Reserved: no parse yields it.
    InvalidFormat,
    /// Reserved: no parse yields it.
    ParseIntError(std::num::ParseIntError),
    /// One of the terms is not a term.
    TermParseError(TermParseError),
}

/// Whether `m` is what a polynomial parse error says in words.
pub open spec fn polynomial_error_text_fits(e: PolynomialParseError, m: Seq<char>) -> bool {
    match e {
        PolynomialParseError::InvalidFormat => m == "Invalid format for Polynomial"@,
        PolynomialParseError::ParseIntError(_) => "Int parsing error: "@.is_prefix_of(m),
        PolynomialParseError::TermParseError(t) => "Term parsing error: "@.is_prefix_of(m)
            && term_error_text_fits(t, m.skip("Term parsing error: "@.len() as int)),
    }
}

impl PolynomialParseError {
    /// This error in words, with the words of the term error it carries.
    pub fn message(&self) -> (r: String)
        ensures
            polynomial_error_text_fits(*self, r@),
    {
        match self {
            PolynomialParseError::InvalidFormat => string_from_chars(
                chars_of("Invalid format for Polynomial").as_slice(),
            ),
            PolynomialParseError::ParseIntError(e) => {
                let mut out = chars_of("Int parsing error: ");
                let detail = e.to_string();
                append_chars(&mut out, &chars_of(detail.as_str()));
                string_from_chars(out.as_slice())
            },
            PolynomialParseError::TermParseError(t) => {
                let ghost prefix = "Term parsing error: "@;
                let mut out = chars_of("Term parsing error: ");
                let detail = t.message();
                append_chars(&mut out, &chars_of(detail.as_str()));
                assert(out@.skip(prefix.len() as int) =~= detail@);
                assert(prefix.is_prefix_of(out@));
                string_from_chars(out.as_slice())
            },
        }
    }
}

/// The texts of the terms of a polynomial's text: `- ` becomes `+-`, spaces
/// go, and what stands between the `+` signs is one term each.
pub open spec fn polynomial_parts(s: Seq<char>) -> Seq<Seq<char>> {
    split_on(remove_char(replace_all(s, seq!['-', ' '], seq!['+', '-']), ' '), '+')
}

/// Whether every piece of `parts` is the text of a term.
pub open spec fn all_terms_parse(parts: Seq<Seq<char>>) -> bool {
    forall|i: int| 0 <= i < parts.len() ==> (#[trigger] term_value(parts[i])) is Some
}

/// Whether the terms `ts` are, one for one, the terms that `parts` denote.
pub open spec fn terms_match(ts: Seq<Term>, parts: Seq<Seq<char>>) -> bool {
    &&& ts.len() == parts.len()
    &&& forall|i: int|
        0 <= i < parts.len() ==> term_value(#[trigger] parts[i]) == Some(
            (ts[i].coef as int, ts[i].power as int),
        )
}

/// The contract of a polynomial parse on the text `s`: success exactly when
/// every term parses, with those terms; otherwise the error of the first term
/// that does not.
pub open spec fn polynomial_result_fits(r: Result<Polynomial, PolynomialParseError>, s: Seq<char>) -> bool {
    let parts = polynomial_parts(s);
    match r {
        Ok(p) => all_terms_parse(parts) && terms_match(p.terms@, parts),
        Err(PolynomialParseError::TermParseError(e)) => exists|k: int|
            0 <= k < parts.len() && term_value(#[trigger] parts[k]) is None
                && all_terms_parse(parts.take(k)) && term_error_fits(e, parts[k]),
        Err(_) => false,
    }
}

impl Polynomial {
    /// Parses a polynomial such as `10x^2 - 5x + 2`.
    pub fn from_text(s: &str) -> (r: Result<Polynomial, PolynomialParseError>)
        ensures
            polynomial_result_fits(r, s@),
    {
        let chars = chars_of(s);
        let minus: Vec<char> = vec!['-', ' '];
        let plus_minus: Vec<char> = vec!['+', '-'];
        assert(minus@ =~= seq!['-', ' ']);
        assert(plus_minus@ =~= seq!['+', '-']);
        let replaced = replace_chars(&chars, &minus, &plus_minus);
        let parts = split_chars(remove_chars(&replaced, ' ').as_slice(), '+');
        let ghost ps = polynomial_parts(s@);
        assert(parts@.map_values(|q: Vec<char>| q@) == ps);
        let mut terms: Vec<Term> = Vec::new();
        let mut i: usize = 0;
        while i < parts.len()
            invariant
                i <= parts@.len(),
                ps == polynomial_parts(s@),
                ps == parts@.map_values(|q: Vec<char>| q@),
                all_terms_parse(ps.take(i as int)),
                terms_match(terms@, ps.take(i as int)),
            decreases parts@.len() - i,
        {
            assert(ps[i as int] == parts@[i as int]@);
            match term_from_chars(&parts[i]) {
                Ok(t) => {
                    terms.push(t);
                    i = i + 1;
                    assert forall|k: int| 0 <= k < i implies (#[trigger] term_value(ps.take(i as int)[k])) is Some by {
                        if k < i - 1 {
                            assert(ps.take(i as int)[k] == ps.take(i - 1)[k]);
                        }
                    }
                    assert forall|k: int| 0 <= k < i implies term_value(#[trigger] ps.take(i as int)[k]) == Some(
                        (terms@[k].coef as int, terms@[k].power as int),
                    ) by {
                        if k < i - 1 {
                            assert(ps.take(i as int)[k] == ps.take(i - 1)[k]);
                        }
                    }
                },
                Err(e) => {
                    assert(term_error_fits(e, ps[i as int]));
                    assert(term_value(ps[i as int]) is None);
                    return Err(PolynomialParseError::TermParseError(e));
                },
            }
        }
        assert(ps.take(i as int) =~= ps);
        Ok(Polynomial { terms })
    }
}

/// The text of a term: `c` for a constant, `x` for `1x^1`, `x^p` for a
/// coefficient of 1, `cx` for a power of 1, `cx^p` otherwise.
pub open spec fn term_text(t: Term) -> Seq<char> {
    if t.power == 0 {
        int_text(t.coef as int)
    } else if t.coef == 1 && t.power == 1 {
        seq!['x']
    } else if t.coef == 1 {
        seq!['x', '^'] + int_text(t.power as int)
    } else if t.power == 1 {
        int_text(t.coef as int) + seq!['x']
    } else {
        int_text(t.coef as int) + seq!['x', '^'] + int_text(t.power as int)
    }
}

/// The text of a polynomial: its terms joined by ` + `, then ` + 0` dropped,
/// ` + -` written ` - ` and `0 - ` written `-`, each replacement made
/// throughout before the next.
pub open spec fn polynomial_text(ts: Seq<Term>) -> Seq<char> {
    let joined = join(ts.map_values(|t: Term| term_text(t)), seq![' ', '+', ' ']);
    let no_zero = replace_all(joined, seq![' ', '+', ' ', '0'], seq![]);
    let minus = replace_all(no_zero, seq![' ', '+', ' ', '-'], seq![' ', '-', ' ']);
    replace_all(minus, seq!['0', ' ', '-', ' '], seq!['-'])
}

/// The characters of the text of `t`.
fn term_chars(t: Term) -> (r: Vec<char>)
    ensures
        r@ == term_text(t),
{
    if t.power == 0 {
        int_chars(t.coef as i64)
    } else if t.coef == 1 && t.power == 1 {
        let r: Vec<char> = vec!['x'];
        assert(r@ =~= seq!['x']);
        r
    } else if t.coef == 1 {
        let mut r: Vec<char> = vec!['x', '^'];
        assert(r@ =~= seq!['x', '^']);
        append_chars(&mut r, &int_chars(t.power as i64));
        r
    } else if t.power == 1 {
        let mut r = int_chars(t.coef as i64);
        let x: Vec<char> = vec!['x'];
        assert(x@ =~= seq!['x']);
        append_chars(&mut r, &x);
        r
    } else {
        let mut r = int_chars(t.coef as i64);
        let x: Vec<char> = vec!['x', '^'];
        assert(x@ =~= seq!['x', '^']);
        append_chars(&mut r, &x);
        append_chars(&mut r, &int_chars(t.power as i64));
        r
    }
}

impl Term {
    /// The text of this term, such as `3x^2`.
    pub fn to_text(&self) -> (r: String)
        ensures
            r@ == term_text(*self),
    {
        string_from_chars(term_chars(*self).as_slice())
    }
}

impl Polynomial {
    /// The text of this polynomial, such as `10x^2 - 5x + 2`.
    pub fn to_text(&self) -> (r: String)
        ensures
            r@ == polynomial_text(self.terms@),
    {
        let ghost texts = self.terms@.map_values(|t: Term| term_text(t));
        let sep: Vec<char> = vec![' ', '+', ' '];
        assert(sep@ =~= seq![' ', '+', ' ']);
        let mut joined: Vec<char> = Vec::new();
        let mut i: usize = 0;
        assert(texts.take(0) =~= seq![]);
        while i < self.terms.len()
            invariant
                i <= self.terms@.len(),
                texts == self.terms@.map_values(|t: Term| term_text(t)),
                sep@ == seq![' ', '+', ' '],
                joined@ == join(texts.take(i as int), sep@),
            decreases self.terms@.len() - i,
        {
            assert(texts.take(i + 1).drop_last() =~= texts.take(i as int));
            if i > 0 {
                append_chars(&mut joined, &sep);
            } else {
                assert(joined@ =~= seq![]);
            }
            append_chars(&mut joined, &term_chars(self.terms[i]));
            i = i + 1;
            assert(joined@ =~= join(texts.take(i as int), sep@));
        }
        assert(texts.take(i as int) =~= texts);
        let plus_zero: Vec<char> = vec![' ', '+', ' ', '0'];
        let plus_minus: Vec<char> = vec![' ', '+', ' ', '-'];
        let minus: Vec<char> = vec![' ', '-', ' '];
        let zero_minus: Vec<char> = vec!['0', ' ', '-', ' '];
        let dash: Vec<char> = vec!['-'];
        let nothing: Vec<char> = Vec::new();
        assert(plus_zero@ =~= seq![' ', '+', ' ', '0']);
        assert(plus_minus@ =~= seq![' ', '+', ' ', '-']);
        assert(minus@ =~= seq![' ', '-', ' ']);
        assert(zero_minus@ =~= seq!['0', ' ', '-', ' ']);
        assert(dash@ =~= seq!['-']);
        assert(nothing@ =~= seq![]);
        let no_zero = replace_chars(&joined, &plus_zero, &nothing);
        let signed = replace_chars(&no_zero, &plus_minus, &minus);
        let text = replace_chars(&signed, &zero_minus, &dash);
        string_from_chars(text.as_slice())
    }
}

/// Whether every term of `ts` has a derivative within `i32`.
pub open spec fn all_derivable(ts: Seq<Term>) -> bool {
    forall|i: int| 0 <= i < ts.len() ==> derivable(#[trigger] ts[i])
}

/// The derivative's terms: each term differentiated, in order, with the zero
/// terms left out.
pub open spec fn derivative_terms(ts: Seq<Term>) -> Seq<Term> {
    ts.map_values(|t: Term| derivative(t)).filter(|t: Term| non_zero(t))
}

/// The derivative of a polynomial, term by term.
pub fn differentiate(input: Polynomial) -> (r: Polynomial)
    requires
        all_derivable(input.terms@),
    ensures
        r.terms@ == derivative_terms(input.terms@),
{
    let ts = input.terms;
    let mut next_terms: Vec<Term> = Vec::new();
    let mut i: usize = 0;
    proof {
        reveal(Seq::filter);
        assert(ts@.take(0).map_values(|t: Term| derivative(t)) =~= seq![]);
    }
    while i < ts.len()
        invariant
            i <= ts@.len(),
            all_derivable(ts@),
            next_terms@ == derivative_terms(ts@.take(i as int)),
        decreases ts@.len() - i,
    {
        let d = power_rule(ts[i]);
        proof {
            reveal(Seq::filter);
            let prev = ts@.take(i as int).map_values(|t: Term| derivative(t));
            let next = ts@.take(i + 1).map_values(|t: Term| derivative(t));
            assert(next.drop_last() =~= prev);
            assert(next.last() == d);
        }
        if is_non_zero_term(&d) {
            next_terms.push(d);
        }
        i = i + 1;
    }
    assert(ts@.take(i as int) =~= ts@);
    Polynomial { terms: next_terms }
}

impl std::str::FromStr for Polynomial {
    type Err = PolynomialParseError;

    fn from_str(s: &str) -> Result<Polynomial, PolynomialParseError> {
        Polynomial::from_text(s)
    }
}

} // verus!
