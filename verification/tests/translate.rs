use qas::error::Error;
use qas::token::Token;
use qas::transform::comment::CommentError;
use qas::transform::format::FormatError;
use qas::transform::{start, TransformError};

fn chars(s: &str) -> Vec<char> {
    s.chars().collect()
}

fn text(v: &[char]) -> String {
    v.iter().collect()
}

fn translate(src: &str) -> Result<String, TransformError> {
    start("main.c", chars(src)).map(|v| text(&v))
}

fn translate_tokens(tokens: Vec<Token>) -> Result<String, Error> {
    qas::transform::c::start(tokens).map(|v| text(&v))
}

fn n(s: &str) -> Token {
    Token::Name(chars(s))
}

fn returning_number(ret: &str, number: &str) -> Vec<Token> {
    vec![
        n(ret),
        n("f"),
        Token::LParent,
        n("int"),
        n("a"),
        Token::RParent,
        Token::LFigure,
        n("return"),
        Token::Number(chars(number)),
        Token::Semicolon,
        Token::RFigure,
    ]
}

#[test]
fn translates_a_function_with_two_parameters() {
    let out = start("add.c", chars("int add(int a, int b) {\n    return a + b;\n}\n")).unwrap();
    assert_eq!(text(&out), "fn add(a: i32, b: i32) -> i32 {\n\treturn a + b;\n}\n");
}

#[test]
fn translates_a_typedef() {
    assert_eq!(translate("typedef int myint;\n").unwrap(), "type myint = i32;\n\n");
}

#[test]
fn typedef_to_its_own_rust_name_writes_nothing() {
    assert_eq!(translate("typedef int i32;\n").unwrap(), "\n");
}

#[test]
fn a_typedef_name_is_a_type() {
    let out = translate("typedef int myint;\nmyint f(myint a) {\n    return a;\n}\n").unwrap();
    assert_eq!(out, "type myint = i32;\n\nfn f(a: i32) -> i32 {\n\treturn a;\n}\n");
}

#[test]
fn return_value_is_cast_to_the_return_type() {
    let out = translate("long f(int a) {\n\treturn a;\n}").unwrap();
    assert_eq!(out, "fn f(a: i32) -> i64 {\n\treturn a as i64;\n}");
}

#[test]
fn an_expression_is_cast_in_parentheses() {
    let out = translate("long f(int a, int b) {\nreturn a + b;\n}").unwrap();
    assert_eq!(out, "fn f(a: i32, b: i32) -> i64 {\n\treturn (a + b) as i64;\n}");
}

#[test]
fn two_word_types() {
    let out = translate("unsigned int f(unsigned int a) {\nreturn a;\n}").unwrap();
    assert_eq!(out, "fn f(a: u32) -> u32 {\n\treturn a;\n}");
    let out = translate("signed char g(char c) {\nreturn c;\n}").unwrap();
    assert_eq!(out, "fn g(c: u8) -> i8 {\n\treturn c as i8;\n}");
}

#[test]
fn logical_and_of_bools() {
    let out = translate("_Bool f(_Bool a, _Bool b) {\nreturn a && b;\n}").unwrap();
    assert_eq!(out, "fn f(a: bool, b: bool) -> bool {\n\treturn a && b;\n}");
}

#[test]
fn several_statements_and_prefix_minus() {
    let out = translate("int f(int a) {\nreturn -a;\nreturn a * a;\n}").unwrap();
    // newlines inside a body are not written back
    assert_eq!(out, "fn f(a: i32) -> i32 {\n\treturn -a;\treturn a * a;\n}");
}

#[test]
fn reduction_replaces_the_first_operands_in_a_function() {
    let out = translate("int f(int a, int b, int c) {\nreturn a + b * c;\n}").unwrap();
    assert_eq!(out, "fn f(a: i32, b: i32, c: i32) -> i32 {\n\treturn b * c * c;\n}");
}

#[test]
fn parameters_stay_known_in_later_functions() {
    let out = translate("int f(int a) {\nreturn a;\n}\nint g(int b) {\nreturn a;\n}\n").unwrap();
    assert_eq!(out, "fn f(a: i32) -> i32 {\n\treturn a;\n}\nfn g(b: i32) -> i32 {\n\treturn a;\n}\n");
}

#[test]
fn comments_are_removed_first() {
    let out = translate("int f(int a) { // id\nreturn a; /* done */\n}\n").unwrap();
    assert_eq!(out, "fn f(a: i32) -> i32 {\n\treturn a;\n}\n");
}

#[test]
fn macros_are_expanded() {
    let out = translate("#define T int\nT f(T a) {\nreturn a;\n}\n").unwrap();
    assert_eq!(out, "\nfn f(a: i32) -> i32 {\n\treturn a;\n}\n");
}

#[test]
fn other_names_at_the_top_are_skipped() {
    assert_eq!(translate("static\nint f(int a) {\nreturn a;\n}").unwrap(), "\nfn f(a: i32) -> i32 {\n\treturn a;\n}");
}

#[test]
fn a_function_without_parameters_is_refused() {
    match translate("int f() {\n}") {
        Err(TransformError::Translate(Error::Unexpected(t))) => assert!(t.same(&Token::RParent)),
        other => panic!("unexpected {:?}", other),
    }
}

#[test]
fn unknown_parameter_type() {
    match translate("int f(float x) {\n}") {
        Err(TransformError::Translate(Error::UnknownType(t))) => assert_eq!(t, chars("float")),
        other => panic!("unexpected {:?}", other),
    }
}

#[test]
fn void_is_not_convertible() {
    assert!(matches!(
        translate("void f(int a) {\nreturn a;\n}"),
        Err(TransformError::Translate(Error::NotConvertible(4, 9)))
    ));
}

#[test]
fn return_without_semicolon() {
    assert!(matches!(
        translate("int f(int a) {\nreturn a\n}"),
        Err(TransformError::Translate(Error::MissingSemicolon))
    ));
}

#[test]
fn digits_after_a_name_are_not_a_number() {
    assert!(matches!(
        translate("int f(int a) {\nreturn 5;\n}"),
        Err(TransformError::Translate(Error::NoOverload))
    ));
}

#[test]
fn a_statement_other_than_return() {
    match translate("int f(int a) {\nx = a;\n}") {
        Err(TransformError::Translate(Error::Unexpected(t))) => assert!(t.same(&n("x"))),
        other => panic!("unexpected {:?}", other),
    }
}

#[test]
fn unexpected_token_at_the_top() {
    match translate("x +") {
        Err(TransformError::Translate(Error::Unexpected(t))) => assert!(t.same(&Token::Add)),
        other => panic!("unexpected {:?}", other),
    }
}

#[test]
fn typedef_errors() {
    match translate("typedef int long;\n") {
        Err(TransformError::Translate(Error::DuplicateType(t))) => assert_eq!(t, chars("long")),
        other => panic!("unexpected {:?}", other),
    }
    match translate("typedef float f;\n") {
        Err(TransformError::Translate(Error::UnknownType(t))) => assert_eq!(t, chars("float")),
        other => panic!("unexpected {:?}", other),
    }
    assert!(matches!(translate("typedef int x"), Err(TransformError::Translate(Error::Eof))));
}

#[test]
fn a_function_cut_short() {
    assert!(matches!(translate("int f(int a"), Err(TransformError::Translate(Error::Eof))));
    assert!(matches!(translate("int f(int a) {\n"), Err(TransformError::Translate(Error::Eof))));
}

#[test]
fn unknown_directive_stops_the_translation() {
    match translate("#pragma once\n") {
        Err(TransformError::Translate(Error::UnknownDirective(d))) => assert_eq!(d, chars("pragma")),
        other => panic!("unexpected {:?}", other),
    }
}

#[test]
fn format_errors() {
    assert!(matches!(start("main", chars("")), Err(TransformError::Format(FormatError::NoExtension))));
    match start("main.txt", chars("")) {
        Err(TransformError::Format(FormatError::UnknownExtension(e))) => assert_eq!(e, chars("txt")),
        other => panic!("unexpected {:?}", other),
    }
    assert_eq!(text(&start("a.h", chars("\n")).unwrap()), "\n");
}

#[test]
fn comment_errors() {
    assert!(matches!(translate("/* never closed"), Err(TransformError::Comment(CommentError::Unterminated))));
}

#[test]
fn string_closed_at_the_end() {
    assert!(matches!(translate("x \"a\""), Err(TransformError::StringAtEnd)));
}

#[test]
fn empty_source() {
    assert_eq!(translate("").unwrap(), "");
}

#[test]
fn number_literals_take_the_return_type() {
    assert_eq!(translate_tokens(returning_number("int", "5")).unwrap(), "fn f(a: i32) -> i32 {\n\treturn 5 as i32;\n}");
    assert_eq!(translate_tokens(returning_number("short", "200")).unwrap(), "fn f(a: i32) -> i16 {\n\treturn 200 as i16;\n}");
    assert_eq!(
        translate_tokens(returning_number("long", "3000000000")).unwrap(),
        "fn f(a: i32) -> i64 {\n\treturn 3000000000 as i64;\n}"
    );
    assert_eq!(
        translate_tokens(returning_number("unsigned long", "5000000000")).unwrap(),
        "fn f(a: i32) -> u64 {\n\treturn 5000000000;\n}"
    );
}

#[test]
fn a_bad_number_literal() {
    assert!(matches!(translate_tokens(returning_number("int", "12x")), Err(Error::BadNumber(_))));
}
