use rlisp::exp::tokenize;
use rlisp::utils::exceptions::ReaderError;
use rlisp::utils::reader::from_reader;

#[test]
fn test_utils_test_tokenization() {
    assert_eq!(
        tokenize("(head '(1 2 3))".to_string()),
        ["(", "head", "'", "(", "1", "2", "3", ")", ")"]
    );

    assert_eq!(
        tokenize("(head {1 2 3})".to_string()),
        ["(", "head", "{", "1", "2", "3", "}", ")"]
    );

    assert_eq!(
        tokenize("((lambda (arg) (+ arg 1)) 5)".to_string()),
        ["(", "(", "lambda", "(", "arg", ")", "(", "+", "arg", "1", ")", ")", "5", ")"]
    );
}

#[test]
fn test_reader_two_terms() {
    let terms = from_reader("(+ 1 2)(+ 3 4)").unwrap();
    assert_eq!(terms, ["(+ 1 2)", "(+ 3 4)"]);
}

#[test]
fn test_reader_terms_across_lines() {
    let terms = from_reader("(+ 1 2)\n(+ 3 4)\n").unwrap();
    assert_eq!(terms, ["(+ 1 2)", "(+ 3 4)"]);
}

#[test]
fn test_reader_unmatched_close() {
    match from_reader("(a))") {
        Err(e) => assert_eq!(e, ReaderError::UnexpectedSymbol(')')),
        Ok(_) => panic!("an extra closer must be refused"),
    }
}

#[test]
fn test_reader_missing_close() {
    match from_reader("((a)") {
        Err(e) => assert_eq!(e, ReaderError::MissingSymbol(')')),
        Ok(_) => panic!("an unclosed opener must be refused"),
    }
}

#[test]
fn test_reader_nested_term() {
    let terms = from_reader("(a (b c) d)").unwrap();
    assert_eq!(terms, ["(a (b c) d)"]);
}
