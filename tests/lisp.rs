use lisp_parser::{parse_lisp, parse_tokens, tokenize, LexError, ParseError, Token, AST, MAX_DEPTH};

#[test]
fn parse_nested() {
    let expected: AST = AST::List(vec![
        AST::Symbol("first".to_string()),
        AST::List(vec![
            AST::Symbol("list".to_string()),
            AST::Integer(1),
            AST::List(vec![
                AST::Symbol("+".to_string()),
                AST::Integer(2),
                AST::Integer(3),
            ]),
            AST::Integer(9),
        ]),
    ]);

    let input = "(first (list 1 (+ 2 3) 9))";

    let result = parse_lisp(input).unwrap();

    assert_eq!(result, expected);
}

#[test]
fn parse_simple_add() {
    let expected: AST = AST::List(vec![
        AST::Symbol("+".to_string()),
        AST::Integer(1),
        AST::Integer(2),
    ]);

    let input = "(+ 1 2)";

    let result = parse_lisp(input).unwrap();

    assert_eq!(result, expected);
}

#[test]
fn parse_simple() {
    let expected: AST = AST::List(vec![AST::Void]);

    let input = "()";

    let result = parse_lisp(input).unwrap();

    assert_eq!(result, expected);
}

#[test]
fn tokenize_complex() {
    let expected: Vec<Token> = vec![
        Token::LParen,
        Token::Symbol("first".to_string()),
        Token::LParen,
        Token::Symbol("list".to_string()),
        Token::Integer(1),
        Token::LParen,
        Token::Symbol("+".to_string()),
        Token::Integer(2),
        Token::Integer(3),
        Token::RParen,
        Token::Integer(9),
        Token::RParen,
        Token::RParen,
    ];

    let result = tokenize("(first (list 1 (+ 2 3) 9))").unwrap();

    assert_eq!(result, expected);
}

#[test]
fn tokenize_simple() {
    let expected: Vec<Token> = vec![Token::LParen, Token::Integer(1), Token::RParen];

    let result = tokenize("(1)").unwrap();

    assert_eq!(result, expected);
}

#[test]
fn empty_list_is_never_bare() {
    let result = parse_lisp("()").unwrap();
    assert_ne!(result, AST::List(vec![]));
}

#[test]
fn tokenize_twice_gives_same_tokens() {
    let input = " (first\t(list 1 (+ 2 3) 9))\n";
    assert_eq!(tokenize(input), tokenize(input));
}

#[test]
fn tokenize_skips_all_whitespace() {
    let result = tokenize(" \t\r\n( ab\n12 +)  ").unwrap();
    assert_eq!(
        result,
        vec![
            Token::LParen,
            Token::Symbol("ab".to_string()),
            Token::Integer(12),
            Token::Symbol("+".to_string()),
            Token::RParen,
        ]
    );
}

#[test]
fn tokenize_splits_digits_from_letters() {
    let result = tokenize("12ab+3").unwrap();
    assert_eq!(
        result,
        vec![
            Token::Integer(12),
            Token::Symbol("ab".to_string()),
            Token::Symbol("+".to_string()),
            Token::Integer(3),
        ]
    );
}

#[test]
fn tokenize_empty_input() {
    assert_eq!(tokenize("").unwrap(), vec![]);
    assert_eq!(tokenize("   ").unwrap(), vec![]);
}

#[test]
fn tokenize_largest_integer() {
    assert_eq!(
        tokenize("9223372036854775807").unwrap(),
        vec![Token::Integer(i64::MAX)]
    );
}

#[test]
fn tokenize_integer_overflow() {
    assert_eq!(
        tokenize("(a 9223372036854775808)"),
        Err(LexError::IntegerOverflow { position: 3 })
    );
}

#[test]
fn tokenize_unrecognized_character() {
    assert_eq!(
        tokenize("(a - b)"),
        Err(LexError::UnrecognizedCharacter { position: 3, found: '-' })
    );
}

#[test]
fn parse_truncated_input_fails() {
    assert_eq!(parse_lisp("(+ 1 2"), Err(ParseError::UnexpectedEndOfInput));
    assert_eq!(parse_lisp("("), Err(ParseError::UnexpectedEndOfInput));
}

#[test]
fn parse_missing_open_paren_fails() {
    assert_eq!(
        parse_lisp("+ 1 2)"),
        Err(ParseError::ExpectedOpenParen { found: Some(Token::Symbol("+".to_string())) })
    );
}

#[test]
fn parse_empty_input_fails() {
    assert_eq!(parse_lisp(""), Err(ParseError::ExpectedOpenParen { found: None }));
    assert_eq!(
        parse_lisp(")"),
        Err(ParseError::ExpectedOpenParen { found: Some(Token::RParen) })
    );
}

#[test]
fn parse_reports_lexing_errors() {
    assert_eq!(
        parse_lisp("(+ 1 #)"),
        Err(ParseError::UnrecognizedCharacter { position: 5, found: '#' })
    );
    assert_eq!(
        parse_lisp("(99999999999999999999)"),
        Err(ParseError::IntegerOverflow { position: 1 })
    );
}

#[test]
fn parse_ignores_trailing_tokens() {
    assert_eq!(
        parse_lisp("(a) (b)").unwrap(),
        AST::List(vec![AST::Symbol("a".to_string())])
    );
}

#[test]
fn parse_empty_list_closes_enclosing_list() {
    assert_eq!(
        parse_lisp("(a () b)").unwrap(),
        AST::List(vec![AST::Symbol("a".to_string()), AST::List(vec![AST::Void])])
    );
}

#[test]
fn parse_tokens_reads_first_list() {
    let tokens = vec![Token::LParen, Token::Integer(7), Token::RParen, Token::Integer(8)];
    assert_eq!(parse_tokens(&tokens).unwrap(), AST::List(vec![AST::Integer(7)]));
}

fn nested_text(n: usize) -> String {
    let mut s = String::new();
    for _ in 0..n {
        s.push('(');
    }
    for _ in 0..n {
        s.push(')');
    }
    s
}

fn nested_tree(n: usize) -> AST {
    let mut tree = AST::List(vec![AST::Void]);
    for _ in 1..n {
        tree = AST::List(vec![tree]);
    }
    tree
}

#[test]
fn parse_nesting_within_limit() {
    for n in [1, 2, 3, 10, MAX_DEPTH] {
        assert_eq!(parse_lisp(&nested_text(n)).unwrap(), nested_tree(n));
    }
}

#[test]
fn parse_nesting_beyond_limit() {
    assert_eq!(
        parse_lisp(&nested_text(MAX_DEPTH + 1)),
        Err(ParseError::NestingTooDeep)
    );
    assert_eq!(
        parse_lisp(&nested_text(10 * MAX_DEPTH)),
        Err(ParseError::NestingTooDeep)
    );
}

#[test]
fn parse_error_messages() {
    assert_eq!(
        parse_lisp("+ 1 2)").unwrap_err().message(),
        "Parse error: expected ( but found +"
    );
    assert_eq!(
        parse_lisp("42").unwrap_err().message(),
        "Parse error: expected ( but found 42"
    );
    assert_eq!(
        parse_lisp("").unwrap_err().message(),
        "Parse error: expected ( but the input ended"
    );
    assert_eq!(
        parse_lisp("(+ 1 2").unwrap_err().message(),
        "Parse error: not enough tokens to close the list"
    );
    assert_eq!(
        ParseError::NestingTooDeep.message(),
        "Parse error: lists nested too deep"
    );
    assert_eq!(
        parse_lisp("(1 99999999999999999999)").unwrap_err().message(),
        "Parse error: integer too large at position 3"
    );
    assert_eq!(
        parse_lisp("(a ?)").unwrap_err().message(),
        "Parse error: unrecognized character ? at position 3"
    );
}

#[test]
fn duplicate_copies_token() {
    let t = Token::Symbol("abc".to_string());
    assert_eq!(t.duplicate(), t);
    assert_eq!(Token::Integer(-5).duplicate(), Token::Integer(-5));
}
