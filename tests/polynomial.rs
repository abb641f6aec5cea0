use lisp_parser::{
    differentiate, is_non_zero_term, power_rule, Polynomial, PolynomialParseError, Term,
    TermParseError,
};

#[test]
fn test_parse_term() {
    let input_1 = "3x^2";
    let expected_1 = Ok(Term { coef: 3, power: 2 });

    let input_2 = "2x";
    let expected_2 = Ok(Term { coef: 2, power: 1 });

    let input_3 = "x^3";
    let expected_3 = Ok(Term { coef: 1, power: 3 });

    let input_4 = "3";
    let expected_4 = Ok(Term { coef: 3, power: 0 });

    let result_1 = input_1.parse::<Term>();
    let result_2 = input_2.parse::<Term>();
    let result_3 = input_3.parse::<Term>();
    let result_4 = input_4.parse::<Term>();

    assert_eq!(result_1, expected_1);
    assert_eq!(result_2, expected_2);
    assert_eq!(result_3, expected_3);
    assert_eq!(result_4, expected_4);
}

#[test]
fn test_power_rule() {
    let input_1 = Term { coef: 3, power: 2 };
    let input_2 = Term { coef: 4, power: 1 };
    let input_3 = Term { coef: 5, power: 0 };

    let result_1 = power_rule(input_1);
    let result_2 = power_rule(input_2);
    let result_3 = power_rule(input_3);

    let expected_1 = Term { coef: 6, power: 1 };
    let expected_2 = Term { coef: 4, power: 0 };
    let expected_3 = Term { coef: 0, power: 0 };

    assert_eq!(result_1, expected_1);
    assert_eq!(result_2, expected_2);
    assert_eq!(result_3, expected_3);
}

#[test]
fn test_parse_polynomial() {
    let input_1: String = "x^2 + 3x".to_string();
    let expected_1 = Ok(Polynomial {
        terms: [Term { coef: 1, power: 2 }, Term { coef: 3, power: 1 }].to_vec(),
    });

    let input_2: String = "x + 3".to_string();
    let expected_2 = Ok(Polynomial {
        terms: [Term { coef: 1, power: 1 }, Term { coef: 3, power: 0 }].to_vec(),
    });

    let input_3: String = "10x^2 - 5x + 2".to_string();
    let expected_3 = Ok(Polynomial {
        terms: [
            Term { coef: 10, power: 2 },
            Term { coef: -5, power: 1 },
            Term { coef: 2, power: 0 },
        ]
        .to_vec(),
    });

    let input_4: String = "-4x^2".to_string();
    let expected_4 = Ok(Polynomial {
        terms: [Term { coef: -4, power: 2 }].to_vec(),
    });

    let input_5: String = "gibberish".to_string();

    let result_1 = input_1.parse();
    let result_2 = input_2.parse();
    let result_3 = input_3.parse();
    let result_4 = input_4.parse();
    let result_5: Result<Polynomial, PolynomialParseError> = input_5.parse();

    assert_eq!(result_1, expected_1);
    assert_eq!(result_2, expected_2);
    assert_eq!(result_3, expected_3);
    assert_eq!(result_4, expected_4);
    assert!(result_5.is_err());
    let result_5_err = result_5.unwrap_err();
    match result_5_err {
        PolynomialParseError::TermParseError(_) => {}
        e => panic!("Wrong Parse Error Type Raised: {:?}", e),
    }
}

#[test]
fn test_format_polynomial() {
    let input_1 = "x^2 + 3x".parse::<Polynomial>().unwrap();
    let input_2 = "-4x".parse::<Polynomial>().unwrap();
    let input_3 = "123x^456".parse::<Polynomial>().unwrap();

    let result_1 = input_1.to_text();
    let result_2 = input_2.to_text();
    let result_3 = input_3.to_text();

    let expected_1 = "x^2 + 3x";
    let expected_2 = "-4x";
    let expected_3 = "123x^456";

    assert_eq!(result_1, expected_1);
    assert_eq!(result_2, expected_2);
    assert_eq!(result_3, expected_3);
}

#[test]
fn test_differential() {
    let input_1 = "x^2 + 3x".parse::<Polynomial>().unwrap();
    let input_2 = "x + 3".parse::<Polynomial>().unwrap();
    let input_3 = "10x^2 - 5x + 2".parse::<Polynomial>().unwrap();
    let input_4 = "-4x^2".parse::<Polynomial>().unwrap();

    let result_1 = differentiate(input_1);
    let result_2 = differentiate(input_2);
    let result_3 = differentiate(input_3);
    let result_4 = differentiate(input_4);

    let expected_1 = "2x + 3".parse::<Polynomial>().unwrap();
    let expected_2 = "1".parse::<Polynomial>().unwrap();
    let expected_3 = "20x - 5".parse::<Polynomial>().unwrap();
    let expected_4 = "-8x".parse::<Polynomial>().unwrap();

    assert_eq!(result_1, expected_1);
    assert_eq!(result_2, expected_2);
    assert_eq!(result_3, expected_3);
    assert_eq!(result_4, expected_4);
}

#[test]
fn term_with_two_xs_has_too_many_elements() {
    assert_eq!(Term::from_text("2x^3x"), Err(TermParseError::TooManyElements));
}

#[test]
fn term_with_bad_number_is_int_error() {
    assert!(matches!(Term::from_text("ax^2"), Err(TermParseError::ParseIntError(_))));
    assert!(matches!(Term::from_text("3x^b"), Err(TermParseError::ParseIntError(_))));
    assert!(matches!(Term::from_text("99999999999"), Err(TermParseError::ParseIntError(_))));
}

#[test]
fn term_edge_values() {
    assert_eq!(Term::from_text("x"), Ok(Term { coef: 1, power: 1 }));
    assert_eq!(Term::from_text(""), Ok(Term { coef: 1, power: 0 }));
    assert_eq!(Term::from_text("-x"), Err(TermParseError::ParseIntError("-".parse::<i32>().unwrap_err())));
    assert_eq!(Term::from_text("+7x^-2"), Ok(Term { coef: 7, power: -2 }));
    assert_eq!(Term::from_text("2147483647"), Ok(Term { coef: i32::MAX, power: 0 }));
    assert_eq!(Term::from_text("-2147483648x"), Ok(Term { coef: i32::MIN, power: 1 }));
}

#[test]
fn polynomial_reports_first_bad_term() {
    assert_eq!(
        Polynomial::from_text("x + 2x^3x + q"),
        Err(PolynomialParseError::TermParseError(TermParseError::TooManyElements))
    );
}

#[test]
fn term_text_forms() {
    assert_eq!(Term { coef: 7, power: 0 }.to_text(), "7");
    assert_eq!(Term { coef: 1, power: 1 }.to_text(), "x");
    assert_eq!(Term { coef: 1, power: 5 }.to_text(), "x^5");
    assert_eq!(Term { coef: -3, power: 1 }.to_text(), "-3x");
    assert_eq!(Term { coef: -12, power: -4 }.to_text(), "-12x^-4");
    assert_eq!(Term { coef: i32::MIN, power: 0 }.to_text(), "-2147483648");
}

#[test]
fn polynomial_text_rewrites_signs() {
    let p = Polynomial {
        terms: vec![Term { coef: 20, power: 1 }, Term { coef: -5, power: 0 }],
    };
    assert_eq!(p.to_text(), "20x - 5");
    let q = Polynomial {
        terms: vec![Term { coef: 2, power: 1 }, Term { coef: 0, power: 0 }],
    };
    assert_eq!(q.to_text(), "2x");
    let empty = Polynomial { terms: vec![] };
    assert_eq!(empty.to_text(), "");
}

#[test]
fn non_zero_terms() {
    assert!(!is_non_zero_term(&Term { coef: 0, power: 0 }));
    assert!(is_non_zero_term(&Term { coef: 0, power: 2 }));
    assert!(is_non_zero_term(&Term { coef: 3, power: 0 }));
}

#[test]
fn differentiate_drops_constants() {
    let p = Polynomial {
        terms: vec![Term { coef: 4, power: 0 }, Term { coef: 2, power: 3 }],
    };
    assert_eq!(
        differentiate(p).terms,
        vec![Term { coef: 6, power: 2 }]
    );
}

#[test]
fn term_error_messages() {
    assert_eq!(TermParseError::TooManyElements.message(), "Too many elements matched");
    assert_eq!(TermParseError::InvalidFormat.message(), "Invalid format for Term");
    let e = "q".parse::<i32>().unwrap_err();
    assert_eq!(
        TermParseError::ParseIntError(e.clone()).message(),
        format!("Integer parsing error: {}", e)
    );
}

#[test]
fn polynomial_error_messages() {
    assert_eq!(PolynomialParseError::InvalidFormat.message(), "Invalid format for Polynomial");
    assert_eq!(
        PolynomialParseError::TermParseError(TermParseError::TooManyElements).message(),
        "Term parsing error: Too many elements matched"
    );
    let e = "".parse::<i32>().unwrap_err();
    assert_eq!(
        PolynomialParseError::ParseIntError(e.clone()).message(),
        format!("Int parsing error: {}", e)
    );
}
