//! The parser: a token sequence to a nested list tree, by recursive descent
//! over an index into the tokens.

use vstd::prelude::*;

use crate::lexer::{lex, lex_from, tokenize, tokens_view, LexError, SpecToken, Token};
use crate::text::{append_chars, chars_of, int_chars, int_text, nat_chars, nat_text, string_from_chars};

verus! {

/// The deepest nesting of lists that the parser accepts.
pub const MAX_DEPTH: usize = 512;

/// A node of the syntax tree.
///
/// `Bool` and `Lambda` are reserved for a later evaluation stage: the parser
/// never builds them.
#[derive(Debug, PartialEq)]
pub enum AST {
    /// Marks an explicitly empty list: `()` parses to `List([Void])`.
    Void,
    Integer(i64),
    Bool(bool),
    Symbol(String),
    Lambda(Vec<String>, Vec<AST>),
    List(Vec<AST>),
}

/// The mathematical content of a syntax tree.
pub enum SpecAst {
    Void,
    Integer(i64),
    Bool(bool),
    Symbol(Seq<char>),
    Lambda(Seq<Seq<char>>, Seq<SpecAst>),
    List(Seq<SpecAst>),
}

/// The mathematical content of `a`.
pub open spec fn ast_view(a: AST) -> SpecAst
    decreases a,
{
    match a {
        AST::Void => SpecAst::Void,
        AST::Integer(v) => SpecAst::Integer(v),
        AST::Bool(b) => SpecAst::Bool(b),
        AST::Symbol(s) => SpecAst::Symbol(s@),
        AST::Lambda(params, body) => SpecAst::Lambda(
            params@.map_values(|p: String| p@),
            Seq::new(body@.len(), |i: int| if 0 <= i < body.len() { ast_view(body[i]) } else { SpecAst::Void }),
        ),
        AST::List(items) => SpecAst::List(
            Seq::new(items@.len(), |i: int| if 0 <= i < items.len() { ast_view(items[i]) } else { SpecAst::Void }),
        ),
    }
}

impl View for AST {
    type V = SpecAst;

    open spec fn view(&self) -> SpecAst {
        ast_view(*self)
    }
}

/// The views of a sequence of trees.
pub open spec fn asts_view(v: Seq<AST>) -> Seq<SpecAst> {
    Seq::new(v.len(), |i: int| v[i]@)
}

/// A list node's view holds the views of its elements.
proof fn lemma_list_view(v: Vec<AST>)
    ensures
        AST::List(v)@ == SpecAst::List(asts_view(v@)),
{
    assert(AST::List(v)@->List_0 =~= asts_view(v@));
}

/// Why a text is not a program.
#[derive(Debug, PartialEq)]
pub enum ParseError {
    /// A list was required where the input holds `found`, or nothing.
    ExpectedOpenParen { found: Option<Token> },
    /// The tokens ran out while a list was still open.
    UnexpectedEndOfInput,
    /// Lists are nested more than `MAX_DEPTH` deep.
    NestingTooDeep,
    /// The digit run starting at `position` does not fit in an `i64`.
    IntegerOverflow { position: usize },
    /// The character at `position` starts no token.
    UnrecognizedCharacter { position: usize, found: char },
}

/// The mathematical content of a parse error.
pub enum SpecParseError {
    ExpectedOpenParen { found: Option<SpecToken> },
    UnexpectedEndOfInput,
    NestingTooDeep,
    IntegerOverflow { position: usize },
    UnrecognizedCharacter { position: usize, found: char },
}

impl View for ParseError {
    type V = SpecParseError;

    open spec fn view(&self) -> SpecParseError {
        match self {
            ParseError::ExpectedOpenParen { found } => SpecParseError::ExpectedOpenParen {
                found: match found {
                    Some(t) => Some(t@),
                    None => None,
                },
            },
            ParseError::UnexpectedEndOfInput => SpecParseError::UnexpectedEndOfInput,
            ParseError::NestingTooDeep => SpecParseError::NestingTooDeep,
            ParseError::IntegerOverflow { position } => SpecParseError::IntegerOverflow {
                position: *position,
            },
            ParseError::UnrecognizedCharacter { position, found } =>
                SpecParseError::UnrecognizedCharacter { position: *position, found: *found },
        }
    }
}

/// The text of a token as it appears in a program.
pub open spec fn token_text(t: SpecToken) -> Seq<char> {
    match t {
        SpecToken::Integer(v) => int_text(v as int),
        SpecToken::Symbol(s) => s,
        SpecToken::LParen => seq!['('],
        SpecToken::RParen => seq![')'],
    }
}

/// What a parse error says in words.
pub open spec fn parse_error_text(e: SpecParseError) -> Seq<char> {
    "Parse error: "@ + match e {
        SpecParseError::ExpectedOpenParen { found: None } => "expected ( but the input ended"@,
        SpecParseError::ExpectedOpenParen { found: Some(t) } => "expected ( but found "@ + token_text(t),
        SpecParseError::UnexpectedEndOfInput => "not enough tokens to close the list"@,
        SpecParseError::NestingTooDeep => "lists nested too deep"@,
        SpecParseError::IntegerOverflow { position } => "integer too large at position "@ + nat_text(
            position as nat,
        ),
        SpecParseError::UnrecognizedCharacter { position, found } => "unrecognized character "@
            + seq![found] + " at position "@ + nat_text(position as nat),
    }
}

/// The characters of a token's text.
fn token_chars(t: &Token) -> (r: Vec<char>)
    ensures
        r@ == token_text(t@),
{
    match t {
        Token::Integer(v) => int_chars(*v),
        Token::Symbol(s) => chars_of(s.as_str()),
        Token::LParen => {
            let r: Vec<char> = vec!['('];
            assert(r@ =~= seq!['(']);
            r
        },
        Token::RParen => {
            let r: Vec<char> = vec![')'];
            assert(r@ =~= seq![')']);
            r
        },
    }
}

impl ParseError {
    /// This error in words, such as `Parse error: expected ( but found +`.
    pub fn message(&self) -> (r: String)
        ensures
            r@ == parse_error_text(self@),
    {
        let mut out = chars_of("Parse error: ");
        match self {
            ParseError::ExpectedOpenParen { found: None } => {
                append_chars(&mut out, &chars_of("expected ( but the input ended"));
            },
            ParseError::ExpectedOpenParen { found: Some(t) } => {
                append_chars(&mut out, &chars_of("expected ( but found "));
                append_chars(&mut out, &token_chars(t));
            },
            ParseError::UnexpectedEndOfInput => {
                append_chars(&mut out, &chars_of("not enough tokens to close the list"));
            },
            ParseError::NestingTooDeep => {
                append_chars(&mut out, &chars_of("lists nested too deep"));
            },
            ParseError::IntegerOverflow { position } => {
                append_chars(&mut out, &chars_of("integer too large at position "));
                append_chars(&mut out, &nat_chars(*position as u64));
            },
            ParseError::UnrecognizedCharacter { position, found } => {
                append_chars(&mut out, &chars_of("unrecognized character "));
                let c: Vec<char> = vec![*found];
                assert(c@ =~= seq![*found]);
                append_chars(&mut out, &c);
                append_chars(&mut out, &chars_of(" at position "));
                append_chars(&mut out, &nat_chars(*position as u64));
            },
        }
        proof {
            assert(out@ =~= parse_error_text(self@));
        }
        string_from_chars(out.as_slice())
    }
}

/// A scanning failure seen as a parse failure.
pub open spec fn lex_failure(e: LexError) -> SpecParseError {
    match e {
        LexError::UnrecognizedCharacter { position, found } =>
            SpecParseError::UnrecognizedCharacter { position, found },
        LexError::IntegerOverflow { position } => SpecParseError::IntegerOverflow { position },
    }
}

/// The list that starts at token `i`, nested `depth` deep, and the position
/// just after it.
///
/// The list must open with `(`. A `(` followed at once by `)` is the empty
/// list, `List([Void])`; that `)` is left in place, so it also closes the list
/// around it. Otherwise the elements follow, up to the matching `)`.
pub open spec fn parse_list_at(t: Seq<SpecToken>, i: int, depth: nat) -> Result<
    (SpecAst, int),
    SpecParseError,
>
    decreases t.len() - i, 0nat,
{
    if !(0 <= i < t.len()) {
        Err(SpecParseError::ExpectedOpenParen { found: None })
    } else if !(t[i] is LParen) {
        Err(SpecParseError::ExpectedOpenParen { found: Some(t[i]) })
    } else if depth > MAX_DEPTH {
        Err(SpecParseError::NestingTooDeep)
    } else if i + 1 < t.len() && t[i + 1] is RParen {
        Ok((SpecAst::List(seq![SpecAst::Void]), i + 1))
    } else {
        parse_items(t, i + 1, depth, seq![])
    }
}

/// The rest of a list whose elements so far are `acc`, from token `i` up to
/// and including its closing `)`.
pub open spec fn parse_items(t: Seq<SpecToken>, i: int, depth: nat, acc: Seq<SpecAst>) -> Result<
    (SpecAst, int),
    SpecParseError,
>
    decreases t.len() - i, 1nat,
{
    if !(0 <= i < t.len()) {
        Err(SpecParseError::UnexpectedEndOfInput)
    } else {
        match t[i] {
            SpecToken::Symbol(s) => parse_items(t, i + 1, depth, acc.push(SpecAst::Symbol(s))),
            SpecToken::Integer(v) => parse_items(t, i + 1, depth, acc.push(SpecAst::Integer(v))),
            SpecToken::RParen => Ok((SpecAst::List(acc), i + 1)),
            SpecToken::LParen => match parse_list_at(t, i, depth + 1) {
                Err(e) => Err(e),
                Ok((a, j)) => if i < j <= t.len() {
                    parse_items(t, j, depth, acc.push(a))
                } else {
                    Err(SpecParseError::UnexpectedEndOfInput)
                },
            },
        }
    }
}

/// The tree of the first list in `t`; tokens after it are ignored.
pub open spec fn parse_token_seq(t: Seq<SpecToken>) -> Result<SpecAst, SpecParseError> {
    match parse_list_at(t, 0, 1) {
        Ok((a, _)) => Ok(a),
        Err(e) => Err(e),
    }
}

/// The tree of the program text `s`.
pub open spec fn parse_text(s: Seq<char>) -> Result<SpecAst, SpecParseError> {
    match lex(s) {
        Ok(t) => parse_token_seq(t),
        Err(e) => Err(lex_failure(e)),
    }
}

/// Collecting the rest of a list keeps the elements collected so far.
proof fn lemma_items_grow(t: Seq<SpecToken>, i: int, depth: nat, acc: Seq<SpecAst>)
    ensures
        parse_items(t, i, depth, acc) matches Ok((a, _)) ==> a is List && a->List_0.len()
            >= acc.len(),
    decreases t.len() - i,
{
    if 0 <= i < t.len() {
        match t[i] {
            SpecToken::Symbol(s) => lemma_items_grow(t, i + 1, depth, acc.push(SpecAst::Symbol(s))),
            SpecToken::Integer(v) => lemma_items_grow(t, i + 1, depth, acc.push(SpecAst::Integer(v))),
            SpecToken::RParen => {},
            SpecToken::LParen => {
                if let Ok((a, j)) = parse_list_at(t, i, depth + 1) {
                    if i < j <= t.len() {
                        lemma_items_grow(t, j, depth, acc.push(a));
                    }
                }
            },
        }
    }
}

/// Every list that parses has at least one element: `()` stands as
/// `List([Void])`, never as an empty list.
pub proof fn lemma_parsed_list_not_empty(s: Seq<char>)
    ensures
        parse_text(s) matches Ok(a) ==> a is List && a->List_0.len() >= 1,
{
    if let Ok(t) = lex(s) {
        if 0 < t.len() && t[0] is LParen && !(1 < t.len() && t[1] is RParen) {
            if 1 < t.len() {
                let first = t[1];
                match first {
                    SpecToken::Symbol(x) => lemma_items_grow(t, 2, 1, seq![SpecAst::Symbol(x)]),
                    SpecToken::Integer(v) => lemma_items_grow(t, 2, 1, seq![SpecAst::Integer(v)]),
                    SpecToken::LParen => {
                        if let Ok((a, j)) = parse_list_at(t, 1, 2) {
                            if 1 < j <= t.len() {
                                lemma_items_grow(t, j, 1, seq![a]);
                            }
                        }
                    },
                    SpecToken::RParen => {},
                }
            }
        }
    }
}

/// `n` opening parentheses followed by `n` closing ones.
pub open spec fn nested_text(n: nat) -> Seq<char> {
    Seq::new(2 * n, |k: int| if k < n { '(' } else { ')' })
}

/// The tokens of `nested_text(n)`.
pub open spec fn nested_tokens(n: nat) -> Seq<SpecToken> {
    Seq::new(2 * n, |k: int| if k < n { SpecToken::LParen } else { SpecToken::RParen })
}

/// `n` lists, each the only element of the one around it, the innermost
/// empty.
pub open spec fn nested_tree(n: nat) -> SpecAst
    decreases n,
{
    if n <= 1 {
        SpecAst::List(seq![SpecAst::Void])
    } else {
        SpecAst::List(seq![nested_tree((n - 1) as nat)])
    }
}

/// Scanning `nested_text(n)` from `i` gives the remaining parentheses.
proof fn lemma_lex_nested(n: nat, i: int)
    requires
        0 <= i <= 2 * n,
    ensures
        lex_from(nested_text(n), i) == Ok::<Seq<SpecToken>, LexError>(nested_tokens(n).skip(i)),
    decreases 2 * n - i,
{
    let s = nested_text(n);
    if i < 2 * n {
        lemma_lex_nested(n, i + 1);
        assert(seq![nested_tokens(n)[i]] + nested_tokens(n).skip(i + 1) =~= nested_tokens(n).skip(i));
    } else {
        assert(nested_tokens(n).skip(i) =~= seq![]);
    }
}

/// Within the depth limit, the list at `i` is the tree of the `n - i`
/// levels inside it.
proof fn lemma_parse_nested_within(n: nat, i: int)
    requires
        1 <= n <= MAX_DEPTH,
        0 <= i < n,
    ensures
        parse_list_at(nested_tokens(n), i, (i + 1) as nat) == Ok::<(SpecAst, int), SpecParseError>(
            (nested_tree((n - i) as nat), 2 * n - 1 - i),
        ),
    decreases n - i,
{
    let t = nested_tokens(n);
    if i < n - 1 {
        lemma_parse_nested_within(n, i + 1);
        let inner = nested_tree((n - i - 1) as nat);
        assert(parse_items(t, 2 * n - 2 - i, (i + 1) as nat, seq![inner]) == Ok::<
            (SpecAst, int),
            SpecParseError,
        >((SpecAst::List(seq![inner]), 2 * n - 1 - i)));
        assert(seq![].push(inner) =~= seq![inner]);
        assert(parse_items(t, i + 1, (i + 1) as nat, seq![]) == parse_items(
            t,
            2 * n - 2 - i,
            (i + 1) as nat,
            seq![inner],
        ));
    }
}

/// Beyond the depth limit, every enclosing list fails with
/// `NestingTooDeep`.
proof fn lemma_parse_nested_beyond(n: nat, i: int)
    requires
        MAX_DEPTH < n,
        0 <= i <= MAX_DEPTH,
    ensures
        parse_list_at(nested_tokens(n), i, (i + 1) as nat) == Err::<(SpecAst, int), SpecParseError>(
            SpecParseError::NestingTooDeep,
        ),
    decreases MAX_DEPTH - i,
{
    if i < MAX_DEPTH {
        lemma_parse_nested_beyond(n, i + 1);
    }
}

/// Lists nested `n` deep, `((...))`, parse to a tree of exactly that depth
/// when `n` is at most `MAX_DEPTH`, and fail with `NestingTooDeep` beyond it:
/// a deep input is never cut short.
pub proof fn lemma_nested_lists(n: nat)
    requires
        n >= 1,
    ensures
        parse_text(nested_text(n)) == if n <= MAX_DEPTH {
            Ok::<SpecAst, SpecParseError>(nested_tree(n))
        } else {
            Err::<SpecAst, SpecParseError>(SpecParseError::NestingTooDeep)
        },
{
    lemma_lex_nested(n, 0);
    assert(nested_tokens(n).skip(0) =~= nested_tokens(n));
    if n <= MAX_DEPTH {
        lemma_parse_nested_within(n, 0);
    } else {
        lemma_parse_nested_beyond(n, 0);
    }
}

/// Parses the list that starts at `tokens[pos]`, nested `depth` deep.
fn parse_list(tokens: &Vec<Token>, pos: usize, depth: usize) -> (r: Result<(AST, usize), ParseError>)
    requires
        1 <= depth <= MAX_DEPTH,
    ensures
        match r {
            Ok((a, j)) => parse_list_at(tokens_view(tokens@), pos as int, depth as nat) == Ok::<
                (SpecAst, int),
                SpecParseError,
            >((a@, j as int)) && pos < j <= tokens@.len(),
            Err(e) => parse_list_at(tokens_view(tokens@), pos as int, depth as nat) == Err::<
                (SpecAst, int),
                SpecParseError,
            >(e@),
        },
    decreases tokens@.len() - pos,
{
    let ghost t = tokens_view(tokens@);
    if pos >= tokens.len() {
        return Err(ParseError::ExpectedOpenParen { found: None });
    }
    match &tokens[pos] {
        Token::LParen => {},
        other => {
            return Err(ParseError::ExpectedOpenParen { found: Some(other.duplicate()) });
        },
    }
    if pos + 1 < tokens.len() {
        if let Token::RParen = &tokens[pos + 1] {
            let items: Vec<AST> = vec![AST::Void];
            proof {
                lemma_list_view(items);
                assert(asts_view(items@) =~= seq![SpecAst::Void]);
            }
            return Ok((AST::List(items), pos + 1));
        }
    }
    let mut objects: Vec<AST> = Vec::new();
    let mut k: usize = pos + 1;
    assert(asts_view(objects@) =~= seq![]);
    while k < tokens.len()
        invariant
            t == tokens_view(tokens@),
            1 <= depth <= MAX_DEPTH,
            pos < k <= tokens@.len(),
            parse_list_at(t, pos as int, depth as nat) == parse_items(
                t,
                k as int,
                depth as nat,
                asts_view(objects@),
            ),
        decreases tokens@.len() - k,
    {
        let ghost before = objects@;
        match &tokens[k] {
            Token::Symbol(s) => {
                let node = AST::Symbol(s.clone());
                objects.push(node);
                assert(asts_view(objects@) =~= asts_view(before).push(node@));
                k = k + 1;
            },
            Token::Integer(v) => {
                let node = AST::Integer(*v);
                objects.push(node);
                assert(asts_view(objects@) =~= asts_view(before).push(node@));
                k = k + 1;
            },
            Token::RParen => {
                proof {
                    lemma_list_view(objects);
                }
                return Ok((AST::List(objects), k + 1));
            },
            Token::LParen => {
                if depth == MAX_DEPTH {
                    return Err(ParseError::NestingTooDeep);
                }
                let (node, j) = parse_list(tokens, k, depth + 1)?;
                let ghost nv = node@;
                objects.push(node);
                assert(asts_view(objects@) =~= asts_view(before).push(nv));
                k = j;
            },
        }
    }
    Err(ParseError::UnexpectedEndOfInput)
}

/// Parses the first list of `tokens` into a tree; tokens after it are ignored.
pub fn parse_tokens(tokens: &Vec<Token>) -> (r: Result<AST, ParseError>)
    ensures
        match r {
            Ok(a) => parse_token_seq(tokens_view(tokens@)) == Ok::<SpecAst, SpecParseError>(a@),
            Err(e) => parse_token_seq(tokens_view(tokens@)) == Err::<SpecAst, SpecParseError>(e@),
        },
{
    match parse_list(tokens, 0, 1) {
        Ok((a, _)) => Ok(a),
        Err(e) => Err(e),
    }
}

/// Parses a program: one list, possibly nested, of symbols and integers.
///
/// Scanning errors come back as parse errors. Tokens after the first complete
/// list are ignored. Lists nested deeper than `MAX_DEPTH` are refused with
/// `NestingTooDeep` rather than parsed on an ever deeper call stack.
pub fn parse_lisp(input: &str) -> (r: Result<AST, ParseError>)
    ensures
        match r {
            Ok(a) => parse_text(input@) == Ok::<SpecAst, SpecParseError>(a@),
            Err(e) => parse_text(input@) == Err::<SpecAst, SpecParseError>(e@),
        },
{
    match tokenize(input) {
        Ok(tokens) => parse_tokens(&tokens),
        Err(LexError::UnrecognizedCharacter { position, found }) => Err(
            ParseError::UnrecognizedCharacter { position, found },
        ),
        Err(LexError::IntegerOverflow { position }) => Err(ParseError::IntegerOverflow { position }),
    }
}

} // verus!
