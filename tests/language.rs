use lisp_interpreter::error::Error;
use lisp_interpreter::interpret::{interpret_program, interpret_program_snippet, Value};
use lisp_interpreter::parser::parse;

fn snippet(s: &str) -> Result<Value, Error> {
    interpret_program_snippet(s.to_string())
}

fn program(s: &str) -> Result<Value, Error> {
    interpret_program(s.to_string())
}

#[test]
fn arithmetic_add() {
    assert_eq!(snippet("(+ 2 3)"), Ok(Value::Num(5)));
}

#[test]
fn arithmetic_sub_negative_result() {
    assert_eq!(snippet("(- 0 7)"), Ok(Value::Num(-7)));
}

#[test]
fn arithmetic_mod() {
    assert_eq!(snippet("(% 10 3)"), Ok(Value::Num(1)));
}

#[test]
fn arithmetic_div_by_zero() {
    assert_eq!(snippet("(/ 5 0)"), Err(Error::ArithmeticError));
}

#[test]
fn arithmetic_mod_by_zero() {
    assert_eq!(snippet("(% 5 0)"), Err(Error::ArithmeticError));
}

#[test]
fn arithmetic_div_truncates_toward_zero() {
    assert_eq!(snippet("(/ -7 2)"), Ok(Value::Num(-3)));
    assert_eq!(snippet("(% -7 2)"), Ok(Value::Num(-1)));
}

#[test]
fn arithmetic_nested_and_mul() {
    assert_eq!(snippet("(* (+ 1 2) [- 10 4])"), Ok(Value::Num(18)));
}

#[test]
fn arithmetic_overflow() {
    assert_eq!(snippet("(+ 2147483647 1)"), Err(Error::ArithmeticError));
    assert_eq!(snippet("(/ -2147483648 -1)"), Err(Error::ArithmeticError));
}

#[test]
fn literal_limits() {
    assert_eq!(snippet("2147483647"), Ok(Value::Num(2147483647)));
    assert_eq!(snippet("-2147483648"), Ok(Value::Num(-2147483648)));
    assert_eq!(snippet("2147483648"), Err(Error::ParseError));
}

#[test]
fn negative_literal() {
    assert_eq!(snippet("-5"), Ok(Value::Num(-5)));
    assert_eq!(snippet("(+ -2 3)"), Ok(Value::Num(1)));
}

#[test]
fn boolean_and() {
    assert_eq!(snippet("(& true false)"), Ok(Value::Bool(false)));
}

#[test]
fn boolean_not() {
    assert_eq!(snippet("(! true)"), Ok(Value::Bool(false)));
}

#[test]
fn boolean_less_than() {
    assert_eq!(snippet("(< 3 5)"), Ok(Value::Bool(true)));
}

#[test]
fn boolean_or_and_compare() {
    assert_eq!(snippet("(| false (= 4 4))"), Ok(Value::Bool(true)));
    assert_eq!(snippet("(> 4 4)"), Ok(Value::Bool(false)));
}

#[test]
fn cond_first_match_wins() {
    assert_eq!(snippet("(cond ((< 1 0) 1) ((> 2 1) 2) (true 3))"), Ok(Value::Num(2)));
}

#[test]
fn cond_without_match() {
    assert_eq!(snippet("(cond (false 1))"), Err(Error::NoMatchingCaseError));
}

#[test]
fn cond_without_cases() {
    assert_eq!(snippet("(cond)"), Err(Error::ParseError));
}

#[test]
fn function_call_square() {
    assert_eq!(program("(define (square x) (* x x)) (define (main) (square 4))"), Ok(Value::Num(16)));
}

#[test]
fn call_restores_caller_binding() {
    let p = "(define (g x) x) (define (f x) (+ (g 5) x)) (define (main) (f 1))";
    assert_eq!(program(p), Ok(Value::Num(6)));
}

#[test]
fn scoping_is_dynamic() {
    let p = "(define (h) y) (define (f y) (h)) (define (main) (f 9))";
    assert_eq!(program(p), Ok(Value::Num(9)));
}

#[test]
fn recursive_factorial() {
    let p = "(define (fact n) (cond ((= n 0) 1) (true (* n (fact (- n 1)))))) (define (main) (fact 5))";
    assert_eq!(program(p), Ok(Value::Num(120)));
}

#[test]
fn arity_mismatch() {
    assert_eq!(program("(define (f x) x) (define (main) (f 1 2))"), Err(Error::ArityError));
}

#[test]
fn undefined_function() {
    assert_eq!(program("(define (main) (h 1))"), Err(Error::UnboundNameError("h".to_string())));
}

#[test]
fn unbound_variable() {
    assert_eq!(snippet("(+ x 1)"), Err(Error::UnboundNameError("x".to_string())));
}

#[test]
fn program_without_main() {
    assert_eq!(program("(define (f x) x)"), Err(Error::ParseError));
}

#[test]
fn main_with_parameters() {
    assert_eq!(program("(define (main x) x)"), Err(Error::ParseError));
}

#[test]
fn program_with_trailing_tokens() {
    assert_eq!(program("(define (main) 1) 5"), Err(Error::ParseError));
}

#[test]
fn snippet_with_trailing_tokens() {
    assert_eq!(snippet("(+ 1 2) 3"), Err(Error::ParseError));
}

#[test]
fn illegal_character() {
    assert_eq!(snippet("(+ 1 #)"), Err(Error::LexError('#')));
}

#[test]
fn unknown_operator_after_open_paren() {
    assert_eq!(snippet("(list 1 2)"), Err(Error::ParseError));
}

#[test]
fn type_mismatch() {
    assert_eq!(program("(define (f) true) (define (main) (+ (f) 1))"), Err(Error::TypeError));
}

#[test]
fn definition_in_expression_position() {
    assert_eq!(snippet("(define (f) 1)"), Err(Error::InternalError));
}

#[test]
fn remainder_by_minus_one() {
    assert_eq!(snippet("(% -2147483648 -1)"), Ok(Value::Num(0)));
    assert_eq!(snippet("(% 7 -1)"), Ok(Value::Num(0)));
}

#[test]
fn undefined_callee_named() {
    assert_eq!(program("(define (main) (g 1))"), Err(Error::UnboundNameError("g".to_string())));
}

#[test]
fn value_text() {
    assert_eq!(Value::Num(-5).to_string(), "-5");
    assert_eq!(Value::Num(42).to_string(), "42");
    assert_eq!(Value::Num(0).to_string(), "0");
    assert_eq!(Value::Num(-2147483648).to_string(), "-2147483648");
    assert_eq!(Value::Bool(true).to_string(), "true");
    assert_eq!(Value::Bool(false).to_string(), "false");
}

#[test]
fn parse_accepts_each_form() {
    for s in [
        "7",
        "-7",
        "true",
        "x",
        "(+ 1 (- 2 3))",
        "(% 9 4)",
        "(& true (| false true))",
        "(! (< 1 2))",
        "(cond ((= x 1) 1) (true (f x)))",
        "(define (f a b) (+ a b))",
        "(f 1 true (g))",
    ] {
        assert!(parse(s.to_string()).is_ok(), "{}", s);
    }
}

#[test]
fn parse_rejects_malformed() {
    assert!(matches!(parse("(+ 1".to_string()), Err(Error::ParseError)));
    assert!(matches!(parse("".to_string()), Err(Error::ParseError)));
    assert!(matches!(parse(")".to_string()), Err(Error::ParseError)));
    assert!(matches!(parse("(! 1)".to_string()), Err(Error::ParseError)));
}

#[test]
fn recursion_deeper_than_two_hundred_calls() {
    let p = "(define (down n) (cond ((= n 0) 0) (true (+ 1 (down (- n 1)))))) (define (main) (down 250))";
    assert_eq!(program(p), Ok(Value::Num(250)));
}
