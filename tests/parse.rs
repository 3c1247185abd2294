use dyncall::ast::{DynFunction, DynParam};
use dyncall::parse::{is_valid_identifier_char, parser, ParseError, ParseErrorKind};
use dyncall::value::DynType;

fn int_param(p: &DynParam) -> i64 {
    match p {
        DynParam::Value(DynType::I64(v)) => *v,
        other => panic!("expected an integer, found {:?}", other),
    }
}

fn float_text(p: &DynParam) -> String {
    match p {
        DynParam::Value(DynType::F64(t)) => t.clone(),
        other => panic!("expected a float, found {:?}", other),
    }
}

fn text_param(p: &DynParam) -> String {
    match p {
        DynParam::Value(DynType::Str(t)) => t.clone(),
        other => panic!("expected a text, found {:?}", other),
    }
}

fn call_param(p: &DynParam) -> &DynFunction {
    match p {
        DynParam::Function(f) => f,
        other => panic!("expected a call, found {:?}", other),
    }
}

fn only_param(input: &str) -> DynParam {
    let (_, mut f) = parser(input).unwrap();
    assert_eq!(f.params.len(), 1);
    f.params.pop().unwrap()
}

#[test]
fn ast_parser_test() {
    let input = "sum(
        sendHttp('http://127.0.0.1:8080/getNumber','id=123'),
        add( 1.26, 2, 3, add( 7, 8, 9)),
        multiplication(4, 5, 6),
        division(1,3))";
    let res = parser(input);
    println!("{:#?}", res);
    let (rest, f) = res.unwrap();
    assert_eq!(rest, "");
    assert_eq!(f.name, "sum");
    assert_eq!(f.params.len(), 4);
    let http = call_param(&f.params[0]);
    assert_eq!(http.name, "sendHttp");
    assert_eq!(text_param(&http.params[0]), "http://127.0.0.1:8080/getNumber");
    assert_eq!(text_param(&http.params[1]), "id=123");
    let add = call_param(&f.params[1]);
    assert_eq!(add.name, "add");
    assert_eq!(float_text(&add.params[0]), "1.26");
    assert_eq!(int_param(&add.params[1]), 2);
    assert_eq!(int_param(&add.params[2]), 3);
    let inner = call_param(&add.params[3]);
    assert_eq!(inner.name, "add");
    assert_eq!(inner.params.len(), 3);
    assert_eq!(call_param(&f.params[2]).name, "multiplication");
    assert_eq!(call_param(&f.params[3]).params.len(), 2);
}

#[test]
fn sum_call_has_three_integers() {
    let (rest, f) = parser("sum(6,74444,14564156416)").unwrap();
    assert_eq!(rest, "");
    assert_eq!(f.name, "sum");
    assert_eq!(f.params.len(), 3);
    assert_eq!(int_param(&f.params[0]), 6);
    assert_eq!(int_param(&f.params[1]), 74444);
    assert_eq!(int_param(&f.params[2]), 14564156416);
}

#[test]
fn numbers_lex_by_their_dot() {
    let t = float_text(&only_param("f(1.26)"));
    assert_eq!(t, "1.26");
    assert_eq!(t.parse::<f64>().unwrap(), 1.26);
    assert_eq!(int_param(&only_param("f(7)")), 7);
    let t = float_text(&only_param("f(3.)"));
    assert_eq!(t, "3.");
    assert_eq!(t.parse::<f64>().unwrap(), 3.0);
}

#[test]
fn quoted_text_keeps_commas_and_parentheses() {
    assert_eq!(text_param(&only_param("f('id=123')")), "id=123");
    assert_eq!(text_param(&only_param("f('a, b(c)')")), "a, b(c)");
    assert_eq!(text_param(&only_param("f('')")), "");
}

#[test]
fn nested_call_is_a_call_node() {
    let (_, f) = parser("add(1, mul(2,3))").unwrap();
    assert_eq!(f.name, "add");
    assert_eq!(f.params.len(), 2);
    assert_eq!(int_param(&f.params[0]), 1);
    let mul = call_param(&f.params[1]);
    assert_eq!(mul.name, "mul");
    assert_eq!(mul.params.len(), 2);
    assert_eq!(int_param(&mul.params[0]), 2);
    assert_eq!(int_param(&mul.params[1]), 3);
}

#[test]
fn empty_argument_list() {
    let (rest, f) = parser("foo()").unwrap();
    assert_eq!(rest, "");
    assert_eq!(f.name, "foo");
    assert_eq!(f.params.len(), 0);
    let (_, f) = parser("  foo ( ) ").unwrap();
    assert_eq!(f.name, "foo");
    assert_eq!(f.params.len(), 0);
}

#[test]
fn missing_close_parenthesis_fails() {
    assert_eq!(parser("sum(1,2").unwrap_err(), ParseError { position: 7, kind: ParseErrorKind::Syntax });
}

#[test]
fn malformed_inputs_fail() {
    assert_eq!(parser("").unwrap_err(), ParseError { position: 0, kind: ParseErrorKind::Syntax });
    assert_eq!(parser("   ").unwrap_err(), ParseError { position: 3, kind: ParseErrorKind::Syntax });
    assert_eq!(parser("(1)").unwrap_err(), ParseError { position: 0, kind: ParseErrorKind::Syntax });
    assert_eq!(parser("f").unwrap_err(), ParseError { position: 1, kind: ParseErrorKind::Syntax });
    assert_eq!(parser("f(1,)").unwrap_err(), ParseError { position: 4, kind: ParseErrorKind::Syntax });
    assert_eq!(parser("f('abc)").unwrap_err(), ParseError { position: 7, kind: ParseErrorKind::Syntax });
    assert_eq!(parser("f(1 2)").unwrap_err(), ParseError { position: 4, kind: ParseErrorKind::Syntax });
    assert_eq!(parser("f(1.2.3)").unwrap_err(), ParseError { position: 5, kind: ParseErrorKind::Syntax });
}

#[test]
fn integer_literal_must_fit() {
    let (_, f) = parser("f(9223372036854775807)").unwrap();
    assert_eq!(int_param(&f.params[0]), i64::MAX);
    assert_eq!(
        parser("f(9223372036854775808)").unwrap_err(),
        ParseError { position: 2, kind: ParseErrorKind::IntegerOutOfRange }
    );
    assert_eq!(
        parser("f(1, g(99999999999999999999))").unwrap_err(),
        ParseError { position: 7, kind: ParseErrorKind::IntegerOutOfRange }
    );
}

#[test]
fn whitespace_does_not_change_the_tree() {
    let (_, f) = parser(" \n add ( 1 ,\t'x' , mul( 2 , 3 ) ) ").unwrap();
    assert_eq!(f.name, "add");
    assert_eq!(int_param(&f.params[0]), 1);
    assert_eq!(text_param(&f.params[1]), "x");
    let mul = call_param(&f.params[2]);
    assert_eq!(mul.name, "mul");
    assert_eq!(int_param(&mul.params[1]), 3);
}

#[test]
fn text_after_the_call_is_returned() {
    let (rest, f) = parser("f(1) tail").unwrap();
    assert_eq!(f.name, "f");
    assert_eq!(rest, " tail");
}

#[test]
fn names_take_letters_digits_and_underscores() {
    let (_, f) = parser("get_value2(1)").unwrap();
    assert_eq!(f.name, "get_value2");
    let (_, f) = parser("grüße(1)").unwrap();
    assert_eq!(f.name, "grüße");
    assert!(is_valid_identifier_char('a'));
    assert!(is_valid_identifier_char('Z'));
    assert!(is_valid_identifier_char('5'));
    assert!(is_valid_identifier_char('_'));
    assert!(is_valid_identifier_char('é'));
    assert!(!is_valid_identifier_char('-'));
    assert!(!is_valid_identifier_char('('));
    assert!(!is_valid_identifier_char(' '));
}

#[test]
fn a_digit_commits_to_a_number() {
    assert_eq!(parser("f(1abc(2))").unwrap_err(), ParseError { position: 3, kind: ParseErrorKind::Syntax });
}
