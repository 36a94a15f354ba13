use std::collections::HashMap;

use rlisp::exp::{parse, parse_token, tokenize, LispExp};
use rlisp::num::LispNum;
use rlisp::utils::exceptions::ParseError;

#[test]
fn test_exp_test_tokenization() {
    assert_eq!(
        tokenize("(head '(1 2 3))".to_string()),
        ["(", "head", "'", "(", "1", "2", "3", ")", ")"]
    );

    assert_eq!(
        tokenize("(head {1 2 3})".to_string()),
        ["(", "head", "{", "1", "2", "3", "}", ")"]
    );

    assert_eq!(
        tokenize("((lambda (arg) (+ arg 1)) 5)".to_string()),
        ["(", "(", "lambda", "(", "arg", ")", "(", "+", "arg", "1", ")", ")", "5", ")"]
    );
}

#[test]
fn test_parse_bool_token() {
    let boolean_tokens = HashMap::from([("true", true), ("false", false)]);

    for (token, value) in boolean_tokens {
        match parse_token(&token) {
            LispExp::Bool(boolean) => assert_eq!(boolean, value),
            _ => assert!(false),
        }
    }
}

#[test]
fn test_parse_number_token() {
    let number_tokens = HashMap::from([
        ("42", 42_000_000_000i64),
        ("4.5", 4_500_000_000i64),
        ("-13.564", -13_564_000_000i64),
    ]);

    for (token, value) in number_tokens {
        match parse_token(&token) {
            LispExp::Number(number) => assert_eq!(number, LispNum { mantissa: value }),
            _ => assert!(false),
        }
    }
}

#[test]
fn test_parse_symbol_token() {
    let symbol_tokens = HashMap::from([
        ("+", "+".to_string()),
        ("(", "(".to_string()),
        (")", ")".to_string()),
        ("let", "let".to_string()),
        ("lambda", "lambda".to_string()),
    ]);

    for (token, value) in symbol_tokens {
        match parse_token(&token) {
            LispExp::Symbol(symbol) => assert_eq!(symbol, value),
            _ => assert!(false),
        }
    }
}

fn test_parse(input: &str, result: &str) {
    let tokens = tokenize(input.to_string());
    let (exp, _) = parse(&tokens[..]).unwrap();
    assert_eq!(exp.to_text() == result, true);
}

#[test]
fn test_parse_expression() {
    test_parse("(* (+ 4 1) 2)", "(* (+ 4 1) 2)");

    test_parse("'(1 2 3 4)", "(list 1 2 3 4)");

    test_parse("{1 2 3 4}", "(set 1 2 3 4)");

    test_parse("(define x {1 2 3})", "(define x (set 1 2 3))");
}

fn test_parse_exception(input: &str, exception: ParseError) {
    let tokens = tokenize(input.to_string());
    let result = parse(&tokens[..]);
    match result {
        Err(e) => assert_eq!(e, exception),
        Ok(_) => panic!("Test should not reach here!"),
    }
}

#[test]
fn test_parse_exceprions() {
    test_parse_exception("(+ 3 4", ParseError::MissingToken);

    test_parse_exception(")(+ 3 4", ParseError::UnexpectedToken(")".to_string()));

    test_parse_exception("'{+ 3 4}", ParseError::UnexpectedToken("{".to_string()));
}

#[test]
fn test_parse_returns_remainder() {
    let tokens = tokenize("(+ 1 2) (+ 3 4)".to_string());
    let (exp, rest) = parse(&tokens[..]).unwrap();
    assert_eq!(exp.to_text(), "(+ 1 2)");
    let (exp2, rest2) = parse(rest).unwrap();
    assert_eq!(exp2.to_text(), "(+ 3 4)");
    assert!(rest2.is_empty());
}

#[test]
fn test_parse_single_atom() {
    let tokens = tokenize("42".to_string());
    let (exp, _) = parse(&tokens[..]).unwrap();
    match exp {
        LispExp::Number(n) => assert_eq!(n, LispNum { mantissa: 42_000_000_000 }),
        _ => assert!(false),
    }
}

#[test]
fn test_parse_empty_input() {
    let tokens: Vec<String> = Vec::new();
    match parse(&tokens[..]) {
        Err(ParseError::EmptyInput()) => {}
        _ => panic!("empty input must be refused"),
    }
}

#[test]
fn test_number_token_grammar_edges() {
    match parse_token("3.") {
        LispExp::Number(n) => assert_eq!(n, LispNum { mantissa: 3_000_000_000 }),
        _ => assert!(false),
    }
    match parse_token(".5") {
        LispExp::Number(n) => assert_eq!(n, LispNum { mantissa: 500_000_000 }),
        _ => assert!(false),
    }
    match parse_token("+3") {
        LispExp::Number(n) => assert_eq!(n, LispNum { mantissa: 3_000_000_000 }),
        _ => assert!(false),
    }
    // not numbers: they fall back to symbols
    assert!(matches!(parse_token("."), LispExp::Symbol(_)));
    assert!(matches!(parse_token("-"), LispExp::Symbol(_)));
    assert!(matches!(parse_token("1.2.3"), LispExp::Symbol(_)));
    // too large for the mantissa range: a symbol as well
    assert!(matches!(parse_token("99999999999999999999"), LispExp::Symbol(_)));
}

#[test]
fn test_tokenize_idempotent_on_spaced_input() {
    let first = tokenize("(head '(1 2 3))".to_string());
    let rejoined = first.join(" ");
    assert_eq!(tokenize(rejoined), first);
}
