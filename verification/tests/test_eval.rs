use rlisp::cli::{parse_log_level, LogLevel};
use rlisp::env::{default_env, LispEnv};
use rlisp::eval::{eval, LispEval};
use rlisp::exp::{parse, tokenize};
use rlisp::num::LispNum;
use rlisp::utils::exceptions::EvalError;

fn run(src: &str, env: &mut LispEnv) -> Result<LispEval, EvalError> {
    let tokens = tokenize(src.to_string());
    let (exp, _) = parse(&tokens[..]).unwrap();
    eval(exp, env)
}

#[test]
fn test_eval_if_statement() {
    let mut env = default_env();

    let tokens = tokenize("(if true 7 5)".to_string());
    let (exp, _) = parse(&tokens[..]).unwrap();
    let value = eval(exp, &mut env);

    if let LispEval::Number(n) = value.unwrap() {
        assert_eq!(n, LispNum { mantissa: 7_000_000_000 });
    } else {
        assert!(false);
    }
}

#[test]
fn test_define_variable() {
    let mut env = default_env();

    let tokens = tokenize("(define x 7.2)".to_string());
    let (exp, _) = parse(&tokens[..]).unwrap();
    let _ = eval(exp, &mut env);

    if let LispEval::Number(n) = env.get("x").unwrap() {
        assert_eq!(n, &LispNum { mantissa: 7_200_000_000 });
    } else {
        assert!(false);
    }
}

#[test]
fn test_call_function() {
    let mut env = default_env();

    let tokens = tokenize("(+ 3 4)".to_string());
    let (exp, _) = parse(&tokens[..]).unwrap();
    let value = eval(exp, &mut env);

    if let LispEval::Number(n) = value.unwrap() {
        assert_eq!(n, LispNum { mantissa: 7_000_000_000 });
    } else {
        assert!(false);
    }
}

#[test]
fn test_define_function() {
    let mut env = default_env();

    let tokens = tokenize("(fn plus a b (+ a b))".to_string());
    let (exp, _) = parse(&tokens[..]).unwrap();
    let _ = eval(exp, &mut env);

    let tokens = tokenize("(plus 3 4)".to_string());
    let (exp, _) = parse(&tokens[..]).unwrap();
    let value = eval(exp, &mut env);

    if let LispEval::Number(n) = value.unwrap() {
        assert_eq!(n, LispNum { mantissa: 7_000_000_000 });
    } else {
        assert!(false);
    }
}

#[test]
fn test_define_lambda_as_variable() {
    let mut env = default_env();

    let tokens = tokenize("(define plus (lambda a b (+ a b)))".to_string());
    let (exp, _) = parse(&tokens[..]).unwrap();
    let _ = eval(exp, &mut env);

    let tokens = tokenize("(plus 3 4)".to_string());
    let (exp, _) = parse(&tokens[..]).unwrap();
    let value = eval(exp, &mut env);

    if let LispEval::Number(n) = value.unwrap() {
        assert_eq!(n, LispNum { mantissa: 7_000_000_000 });
    } else {
        assert!(false);
    }
}

#[test]
fn test_arithmetic_folds() {
    let mut env = default_env();
    assert_eq!(run("(+ 1 2 3)", &mut env).unwrap().to_text(), "6");
    assert_eq!(run("(* 2 3 4)", &mut env).unwrap().to_text(), "24");
    assert_eq!(run("(- 10 4 3)", &mut env).unwrap().to_text(), "3");
    assert_eq!(run("(/ 7 2)", &mut env).unwrap().to_text(), "3.5");
    assert_eq!(run("(/ 1 3)", &mut env).unwrap().to_text(), "0.333333333");
    assert_eq!(run("(% 7 2)", &mut env).unwrap().to_text(), "1");
    assert_eq!(run("(+ 1.5 2.25)", &mut env).unwrap().to_text(), "3.75");
}

#[test]
fn test_arithmetic_skips_non_numbers() {
    let mut env = default_env();
    // non-numeric elements are silently skipped by the fold
    assert_eq!(run("(+ 1 true 2)", &mut env).unwrap().to_text(), "3");
}

#[test]
fn test_comparison_reflects_last_pair() {
    let mut env = default_env();
    // only the last adjacent pair decides the chain's outcome
    assert_eq!(run("(< 3 1 2)", &mut env).unwrap().to_text(), "true");
    assert_eq!(run("(< 1 2 0)", &mut env).unwrap().to_text(), "false");
    assert_eq!(run("(= 3 3)", &mut env).unwrap().to_text(), "true");
    assert_eq!(run("(>= 4 4)", &mut env).unwrap().to_text(), "true");
}

#[test]
fn test_logic_builtins() {
    let mut env = default_env();
    assert_eq!(run("(and true true false)", &mut env).unwrap().to_text(), "false");
    assert_eq!(run("(or false true)", &mut env).unwrap().to_text(), "true");
    assert_eq!(run("(not true)", &mut env).unwrap().to_text(), "false");
}

#[test]
fn test_list_and_set_builtins() {
    let mut env = default_env();
    assert_eq!(run("(head '(1 2 3))", &mut env).unwrap().to_text(), "1");
    assert_eq!(run("(cons 1 (list 2 3))", &mut env).unwrap().to_text(), "(1 2 3)");
    assert_eq!(run("(cons 1 2)", &mut env).unwrap().to_text(), "(1)");
    assert_eq!(run("{1 2 3}", &mut env).unwrap().to_text(), "{1 2 3}");
    assert_eq!(run("(set 1 1 2)", &mut env).unwrap().to_text(), "{1 2}");
    assert_eq!(run("(union {1 2} {2 3})", &mut env).unwrap().to_text(), "{1 2 3}");
    assert_eq!(run("(inter {1 2} {2 3})", &mut env).unwrap().to_text(), "{2}");
    assert_eq!(run("(inter {1 2} {1 2})", &mut env).unwrap().to_text(), "{1 2}");
    assert_eq!(run("(union {1 2} {1 2})", &mut env).unwrap().to_text(), "{1 2}");
}

#[test]
fn test_print_returns_argument() {
    let mut env = default_env();
    assert_eq!(run("(print 5)", &mut env).unwrap().to_text(), "5");
}

#[test]
fn test_constants() {
    let mut env = default_env();
    if let LispEval::Number(n) = env.get("pi").unwrap() {
        assert_eq!(n, &LispNum { mantissa: 3_141_592_653 });
    } else {
        assert!(false);
    }
    if let LispEval::Number(n) = env.get("e").unwrap() {
        assert_eq!(n, &LispNum { mantissa: 2_718_281_828 });
    } else {
        assert!(false);
    }
}

#[test]
fn test_eval_errors() {
    let mut env = default_env();
    assert!(matches!(run("y", &mut env), Err(EvalError::UnknownSymbol(_))));
    assert!(matches!(run("()", &mut env), Err(EvalError::InvalidListExpression())));
    assert!(matches!(run("(if 1 2 3)", &mut env), Err(EvalError::InvalidIfStatement())));
    assert!(matches!(run("(if true 1)", &mut env), Err(EvalError::InvalidNumberOfArguments())));
    assert!(matches!(run("(nosuch 1)", &mut env), Err(EvalError::NonDefineInThisScope)));
    assert!(matches!(run("(head 5)", &mut env), Err(EvalError::InvalidAgrumentType())));
    assert!(matches!(run("(head (list))", &mut env), Err(EvalError::UnexpectedExpression())));
    let _ = run("(define q 5)", &mut env);
    assert!(matches!(run("(q 1)", &mut env), Err(EvalError::InvalidFunctionCall)));
}

#[test]
fn test_lambda_with_too_few_arguments() {
    let mut env = default_env();
    let _ = run("(define g (lambda a b (+ a b)))", &mut env);
    assert!(matches!(run("(g 1)", &mut env), Err(EvalError::InvalidNumberOfArguments())));
}

#[test]
fn test_runaway_recursion_reports_default_error() {
    let mut env = default_env();
    let _ = run("(fn cycle a (cycle a))", &mut env);
    assert!(matches!(run("(cycle 1)", &mut env), Err(EvalError::DefaultError())));
}

#[test]
fn test_arithmetic_overflow_reports_default_error() {
    let mut env = default_env();
    assert!(matches!(
        run("(* 3000000000 3000000000)", &mut env),
        Err(EvalError::DefaultError())
    ));
    assert!(matches!(run("(/ 1 0)", &mut env), Err(EvalError::DefaultError())));
}

#[test]
fn test_list_headed_form_discards_head() {
    let mut env = default_env();
    // a list-headed form evaluates the head for effect, then the tail as
    // if it were the whole call; an exhausted tail is an invalid form,
    // but the definition made by the head persists
    let r = run("((define x 5) (+ x 1) (+ x 2))", &mut env);
    assert!(matches!(r, Err(EvalError::InvalidListExpression())));
    if let LispEval::Number(n) = env.get("x").unwrap() {
        assert_eq!(n, &LispNum { mantissa: 5_000_000_000 });
    } else {
        assert!(false);
    }
}

#[test]
fn test_define_set_value() {
    let mut env = default_env();
    let _ = run("(define s {1 2 3})", &mut env);
    assert_eq!(env.get("s").unwrap().to_text(), "{1 2 3}");
}

#[test]
fn test_value_equality_is_primitive_only() {
    let mut env = default_env();
    assert_eq!(
        run("(+ 3 4)", &mut env).unwrap(),
        LispEval::Number(LispNum { mantissa: 7_000_000_000 })
    );
    assert_eq!(run("true", &mut env).unwrap(), LispEval::Bool(true));
    // lists compare equal to nothing, themselves included
    let a = run("(list 1 2)", &mut env).unwrap();
    let b = run("(list 1 2)", &mut env).unwrap();
    assert!(a != b);
    assert!(a != a);
}

#[test]
fn test_parse_log_level_mapping() {
    assert_eq!(parse_log_level("info"), Some(LogLevel::Info));
    assert_eq!(parse_log_level("debug"), Some(LogLevel::Debug));
    assert_eq!(parse_log_level("none"), None);
    assert_eq!(parse_log_level("loud"), None);
}
