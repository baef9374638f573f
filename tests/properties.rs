use skim::ast::{Exp, Item, LispCell};
use skim::exception::{Condition, Meta};
use skim::parser::{lex, parse};
use skim::runtime::{default_env, eval};
use skim::session::{exec_source, parse_eval};

fn show(src: &str) -> String {
    let mut env = default_env();
    match parse_eval(src, &mut env) {
        Ok(v) => v.format(),
        Err(e) => e.render(),
    }
}

fn read_print(src: &str) -> String {
    let tokens = lex(src, None);
    let (item, _) = parse(&tokens).ok().unwrap();
    item.format()
}

#[test]
fn read_print_round_trip() {
    for src in ["(1 (2 3) #t foo)", "()", "(a () b)", "'x", "((1) ((2)))", "-42"] {
        let once = read_print(src);
        let twice = read_print(&once);
        assert_eq!(once, twice);
    }
    assert_eq!(read_print("'x"), "(quote x)");
    assert_eq!(read_print("( 1   2 )"), "(1 2)");
}

#[test]
fn quote_returns_datum() {
    assert_eq!(show("(quote (a (b c) 1 #f))"), "(a (b c) 1 #f)");
    assert_eq!(show("'sym"), "sym");
}

#[test]
fn atoms_evaluate_to_themselves() {
    assert_eq!(show("12"), "12");
    assert_eq!(show("#t"), "#t");
    assert_eq!(show("#f"), "#f");
    assert_eq!(show("()"), "()");
}

#[test]
fn define_visible_in_deeper_scope() {
    let mut env = default_env();
    assert!(exec_source(&mut env, "(define y 7) (define (get) y)", None).is_ok());
    assert_eq!(parse_eval("(get)", &mut env).ok().unwrap().format(), "7");
    assert_eq!(parse_eval("y", &mut env).ok().unwrap().format(), "7");
}

#[test]
fn define_in_scope_shadows_then_disappears() {
    let mut env = default_env();
    assert!(exec_source(&mut env, "(define z 1) (define (f z) z)", None).is_ok());
    assert_eq!(parse_eval("(f 9)", &mut env).ok().unwrap().format(), "9");
    assert_eq!(parse_eval("z", &mut env).ok().unwrap().format(), "1");
}

#[test]
fn list_of_arguments_in_order() {
    assert_eq!(show("(list 1 2 3)"), "(1 2 3)");
    assert_eq!(show("(car (cdr (list 1 2 3)))"), "2");
    assert_eq!(show("(list)"), "()");
}

#[test]
fn and_or_fold() {
    assert_eq!(show("(and #t 1 #f)"), "#f");
    assert_eq!(show("(and)"), "#t");
    assert_eq!(show("(or #f #f)"), "#f");
    assert_eq!(show("(or #f ())"), "#t");
}

#[test]
fn display_writes_a_line() {
    let mut env = default_env();
    let r = parse_eval("(display (list 1 #t))", &mut env).ok().unwrap();
    assert_eq!(r.format(), "()");
    assert_eq!(env.take_output(), vec!["(1 #t)".to_string()]);
    assert!(env.take_output().is_empty());
}

#[test]
fn undefined_symbol_is_reported() {
    let mut env = default_env();
    let e = parse_eval("nope", &mut env).err().unwrap();
    match &e.condition {
        Condition::Other(m) => assert_eq!(m, "tried to look up undefined symbol"),
        _ => panic!("expected an undefined symbol"),
    }
}

#[test]
fn calling_a_number_is_type_error() {
    let mut env = default_env();
    let e = parse_eval("(1 2)", &mut env).err().unwrap();
    match &e.condition {
        Condition::Type(expected, found) => {
            assert_eq!(expected, "procedure");
            assert_eq!(found, "number");
        }
        _ => panic!("expected a type error"),
    }
}

#[test]
fn lambda_arity_is_checked() {
    let mut env = default_env();
    assert!(exec_source(&mut env, "(define (one a) a)", None).is_ok());
    let e = parse_eval("(one 1 2)", &mut env).err().unwrap();
    assert_eq!(e.render().lines().next().unwrap(), "exception: wrong number of arguments");
    assert!(e.render().contains("expected 1 arguments, found 2"));
}

#[test]
fn unexpected_close_paren() {
    let e = parse(&lex(")", None)).err().unwrap();
    match &e.condition {
        Condition::Syntax(m) => assert_eq!(m, "Found unexpected \")\""),
        _ => panic!("expected a syntax error"),
    }
}

#[test]
fn bad_hash_atom() {
    let e = parse(&lex("#x", None)).err().unwrap();
    match &e.condition {
        Condition::Syntax(m) => assert_eq!(m, "Unexpected token: #x"),
        _ => panic!("expected a syntax error"),
    }
}

#[test]
fn number_out_of_range() {
    let e = parse(&lex("99999999999999999999", None)).err().unwrap();
    assert!(matches!(e.condition, Condition::Syntax(_)));
    assert_eq!(show("-9223372036854775808"), "-9223372036854775808");
    assert_eq!(show("+17"), "17");
}

#[test]
fn sum_overflow_is_reported() {
    let mut env = default_env();
    let e = parse_eval("(+ 9223372036854775807 1)", &mut env).err().unwrap();
    match &e.condition {
        Condition::Other(m) => assert_eq!(m, "integer overflow"),
        _ => panic!("expected an overflow"),
    }
    let e = parse_eval("(- -9223372036854775808)", &mut env).err().unwrap();
    assert!(matches!(e.condition, Condition::Other(_)));
}

#[test]
fn lexer_locations() {
    let tokens = lex("(a bc) ; note\n  'x", Some("f.scm".to_string()));
    let texts: Vec<&str> = tokens.iter().map(|t| t.string.as_str()).collect();
    assert_eq!(texts, vec!["(", "a", "bc", ")", "'", "x"]);
    assert_eq!(tokens[2].meta.position, 4);
    assert_eq!(tokens[2].meta.token_length, 2);
    assert_eq!(tokens[2].meta.code, "(a bc) ; note");
    assert_eq!(tokens[5].meta.line, 2);
    assert_eq!(tokens[5].meta.position, 4);
    assert_eq!(tokens[5].meta.file_name.as_deref(), Some("f.scm"));
}

#[test]
fn atom_at_end_of_input_is_a_token() {
    let tokens = lex("abc", None);
    assert_eq!(tokens.len(), 1);
    assert_eq!(tokens[0].string, "abc");
}

#[test]
fn list_location_spans_parens() {
    let tokens = lex("  (1 2)", None);
    let (item, rest) = parse(&tokens).ok().unwrap();
    assert!(rest.is_empty());
    assert_eq!(item.meta.position, 3);
    assert_eq!(item.meta.token_length, 5);
}

#[test]
fn diagnostic_with_file() {
    let mut env = default_env();
    let e = exec_source(&mut env, "(+ 1 #t)", Some("test.scm".to_string())).err().unwrap();
    assert_eq!(
        e.render(),
        "exception: mismatched types\n --> test.scm:1:6\n  |\n1 | (+ 1 #t)\n  |      ^^ expected number, found boolean\n"
    );
}

#[test]
fn diagnostic_without_location() {
    let e = skim::exception::Exn::other(Meta::empty(), "oops");
    assert_eq!(e.render(), "exception: unknown\noops\n");
}

#[test]
fn batch_runs_forms_in_order_and_stops_at_error() {
    let mut env = default_env();
    let r = exec_source(&mut env, "(display 1)\n(display (+ 1 1))\n(car 5)\n(display 3)", None);
    assert!(r.is_err());
    assert_eq!(env.take_output(), vec!["1".to_string(), "2".to_string()]);
}

#[test]
fn empty_source_runs() {
    let mut env = default_env();
    assert!(exec_source(&mut env, "; only a comment\n", None).is_ok());
}

#[test]
fn eval_of_parsed_item() {
    let tokens = lex("(cons (quote a) (quote b))", None);
    let (item, _) = parse(&tokens).ok().unwrap();
    let mut env = default_env();
    assert_eq!(eval(&mut env, &item).ok().unwrap().format(), "(a . b)");
}

#[test]
fn deep_recursion_is_cut_off() {
    let mut env = default_env();
    assert!(exec_source(&mut env, "(define (loop x) (loop x))", None).is_ok());
    let e = parse_eval("(loop 1)", &mut env).err().unwrap();
    match &e.condition {
        Condition::Other(m) => assert_eq!(m, "recursion too deep"),
        _ => panic!("expected the depth limit"),
    }
}

#[test]
fn append_adds_at_end() {
    let mut cell = LispCell::new(Item::new(Meta::empty(), Exp::Number(1)), Item::new(Meta::empty(), Exp::Nil));
    assert!(cell.append(Item::new(Meta::empty(), Exp::Number(2))).is_ok());
    assert!(cell.append(Item::new(Meta::empty(), Exp::Number(3))).is_ok());
    assert_eq!(Exp::Pair(cell).format(), "(1 2 3)");
}

#[test]
fn append_to_dotted_pair_fails() {
    let mut cell = LispCell::new(Item::new(Meta::empty(), Exp::Number(1)), Item::new(Meta::empty(), Exp::Number(2)));
    let e = cell.append(Item::new(Meta::empty(), Exp::Number(3))).err().unwrap();
    match &e.condition {
        Condition::Other(m) => assert_eq!(m, "tried to append to an unproper list"),
        _ => panic!("expected a failure"),
    }
    assert_eq!(Exp::Pair(cell).format(), "(1 . 2)");
}

#[test]
fn new_scope_shadows_without_touching_parent() {
    let mut env = default_env();
    env.set("v".to_string(), Item::new(Meta::empty(), Exp::Number(1)));
    let mut child = env.new_scope();
    assert_eq!(child.get("v").unwrap().format(), "1");
    child.set("v".to_string(), Item::new(Meta::empty(), Exp::Number(2)));
    assert_eq!(child.get("v").unwrap().format(), "2");
    assert_eq!(env.get("v").unwrap().format(), "1");
    assert!(env.get("missing").is_none());
}
