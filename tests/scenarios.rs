use skim::exception::{Arity, Condition};
use skim::runtime::default_env;
use skim::session::{exec_source, parse_eval};

fn show(src: &str) -> String {
    let mut env = default_env();
    match parse_eval(src, &mut env) {
        Ok(v) => v.format(),
        Err(e) => e.render(),
    }
}

#[test]
fn sum_of_three() {
    assert_eq!(show("(+ 1 2 3)"), "6");
}

#[test]
fn sum_of_none_is_zero() {
    assert_eq!(show("(+)"), "0");
}

#[test]
fn negation_of_one_argument() {
    assert_eq!(show("(- 10)"), "-10");
}

#[test]
fn subtraction_left_to_right() {
    assert_eq!(show("(- 10 1 2)"), "7");
}

#[test]
fn subtraction_of_zero_is_not_negation() {
    assert_eq!(show("(- 10 0)"), "10");
}

#[test]
fn define_then_use() {
    let mut env = default_env();
    let first = parse_eval("(define x 5)", &mut env).ok().unwrap();
    assert_eq!(first.format(), "()");
    let second = parse_eval("(+ x x)", &mut env).ok().unwrap();
    assert_eq!(second.format(), "10");
}

#[test]
fn multiplication_is_not_defined() {
    let mut env = default_env();
    assert!(parse_eval("(define (sq x) (* x x))", &mut env).is_ok());
    let e = parse_eval("(sq 3)", &mut env).err().unwrap();
    assert!(matches!(e.condition, Condition::Other(_)));
    assert!(e.render().starts_with("exception: unknown"));
}

#[test]
fn define_function_and_call() {
    let mut env = default_env();
    assert!(exec_source(&mut env, "(define (twice x) (+ x x))", None).is_ok());
    assert_eq!(parse_eval("(twice 21)", &mut env).ok().unwrap().format(), "42");
}

#[test]
fn if_false_takes_else() {
    assert_eq!(show("(if #f 1 2)"), "2");
}

#[test]
fn if_empty_list_is_true() {
    assert_eq!(show("(if (quote ()) 1 2)"), "1");
}

#[test]
fn cond_empty_list_is_not_false() {
    assert_eq!(show("(cond ((quote ()) 1) (else 2))"), "1");
}

#[test]
fn cond_falls_to_else() {
    assert_eq!(show("(cond (#f 1) (else 2 3))"), "3");
}

#[test]
fn cond_without_match_is_nil() {
    assert_eq!(show("(cond (#f 1))"), "()");
}

#[test]
fn car_of_quoted_list() {
    assert_eq!(show("(car (quote (1 2 3)))"), "1");
}

#[test]
fn cdr_of_quoted_list() {
    assert_eq!(show("(cdr (quote (1 2 3)))"), "(2 3)");
}

#[test]
fn cons_builds_list() {
    assert_eq!(show("(cons 1 (cons 2 (quote ())))"), "(1 2)");
}

#[test]
fn cons_builds_dotted_pair() {
    assert_eq!(show("(cons 1 2)"), "(1 . 2)");
}

#[test]
fn primitive_prints_as_such() {
    assert_eq!(show("+"), "primitive function");
}

#[test]
fn lambda_prints_as_such() {
    assert_eq!(show("(lambda (x) x)"), "lambda function");
}

#[test]
fn plus_with_boolean_is_type_error() {
    let mut env = default_env();
    let e = parse_eval("(+ 1 #t)", &mut env).err().unwrap();
    match &e.condition {
        Condition::Type(expected, found) => {
            assert_eq!(expected, "number");
            assert_eq!(found, "boolean");
        }
        _ => panic!("expected a type error"),
    }
    assert_eq!(e.meta.position, 6);
    assert_eq!(e.meta.token_length, 2);
    assert!(e.render().starts_with("exception: mismatched types"));
}

#[test]
fn minus_without_arguments_is_arity_error() {
    let mut env = default_env();
    let e = parse_eval("(-)", &mut env).err().unwrap();
    match &e.condition {
        Condition::Arity(Arity::AtLeast(1), 0) => {}
        _ => panic!("expected an arity error"),
    }
    assert_eq!(e.meta.position, 1);
    assert!(e.render().starts_with("exception: wrong number of arguments"));
}

#[test]
fn unterminated_list_is_syntax_error() {
    let mut env = default_env();
    let e = parse_eval("(1 2", &mut env).err().unwrap();
    match &e.condition {
        Condition::Syntax(m) => assert_eq!(m, "unexpected end of input"),
        _ => panic!("expected a syntax error"),
    }
    assert!(e.render().starts_with("exception: wrong syntax"));
}
