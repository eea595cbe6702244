use qas::error::Error;
use qas::token::Token;
use qas::transform::c::preprocessor::{preprocess, Macro, SystemPath};
use qas::transform::c::ty::Code;

fn pc(s: &str) -> Vec<char> {
    s.chars().collect()
}

fn nm(s: &str) -> Token {
    Token::Name(pc(s))
}

fn run(tokens: Vec<Token>) -> (Result<(), Error>, Vec<Token>, Vec<Macro>) {
    let mut code = Code::new();
    code.set(tokens);
    let mut macros = Vec::new();
    let r = preprocess(&mut code, &mut macros, SystemPath::default());
    (r, code.tokens, macros)
}

fn check_tokens(got: &[Token], want: &[Token]) {
    assert_eq!(got.len(), want.len(), "got {:?}", got);
    for (g, w) in got.iter().zip(want.iter()) {
        assert!(g.same(w), "got {:?}", got);
    }
}

#[test]
fn define_records_a_macro_and_expands_it() {
    let (r, code, macros) = run(vec![
        Token::Hashtag,
        nm("define"),
        nm("N"),
        Token::Number(pc("5")),
        Token::Newline,
        nm("x"),
        Token::Eq,
        nm("N"),
        Token::Semicolon,
        Token::Newline,
    ]);
    assert!(r.is_ok());
    check_tokens(
        &code,
        &[Token::Newline, nm("x"), Token::Eq, Token::Number(pc("5")), Token::Semicolon, Token::Newline],
    );
    assert_eq!(macros.len(), 1);
    assert_eq!(macros[0].name, pc("N"));
    check_tokens(&macros[0].data, &[Token::Number(pc("5"))]);
}

#[test]
fn a_macro_expands_to_several_tokens() {
    let (r, code, _) = run(vec![
        Token::Hashtag,
        nm("define"),
        nm("T"),
        nm("unsigned"),
        nm("int"),
        Token::Newline,
        nm("T"),
        nm("y"),
    ]);
    assert!(r.is_ok());
    check_tokens(&code, &[Token::Newline, nm("unsigned"), nm("int"), nm("y")]);
}

#[test]
fn ifdef_of_a_defined_macro_keeps_the_body() {
    let (r, code, _) = run(vec![
        Token::Hashtag, nm("define"), nm("A"), Token::Newline,
        Token::Hashtag, nm("ifdef"), nm("A"), Token::Newline,
        nm("x"), Token::Newline,
        Token::Hashtag, nm("endif"), Token::Newline,
        nm("y"), Token::Newline,
    ]);
    assert!(r.is_ok());
    // only the `#` of the directive goes; `#endif` goes whole
    check_tokens(
        &code,
        &[
            Token::Newline, nm("ifdef"), nm("A"), Token::Newline,
            nm("x"), Token::Newline, Token::Newline,
            nm("y"), Token::Newline,
        ],
    );
}

#[test]
fn ifndef_of_a_defined_macro_drops_the_body() {
    let (r, code, _) = run(vec![
        Token::Hashtag, nm("define"), nm("A"), Token::Newline,
        Token::Hashtag, nm("ifndef"), nm("A"), Token::Newline,
        nm("x"), Token::Newline,
        Token::Hashtag, nm("endif"), Token::Newline,
        nm("y"), Token::Newline,
    ]);
    assert!(r.is_ok());
    check_tokens(&code, &[Token::Newline, nm("endif"), Token::Newline, nm("y"), Token::Newline]);
}

#[test]
fn ifdef_of_an_undefined_macro_drops_the_body() {
    let (r, code, _) = run(vec![
        Token::Hashtag, nm("ifdef"), nm("B"), Token::Newline,
        nm("x"), Token::Newline,
        Token::Hashtag, nm("endif"), Token::Newline,
    ]);
    assert!(r.is_ok());
    check_tokens(&code, &[nm("endif"), Token::Newline]);
}

#[test]
fn include_drops_only_its_hash() {
    let (r, code, _) = run(vec![Token::Hashtag, nm("include"), nm("x"), Token::Newline]);
    assert!(r.is_ok());
    check_tokens(&code, &[nm("include"), nm("x"), Token::Newline]);
}

#[test]
fn a_macro_is_not_expanded_on_a_directive_line() {
    let (r, code, _) = run(vec![
        Token::Hashtag, nm("define"), nm("M"), nm("z"), Token::Newline,
        Token::Hashtag, nm("include"), nm("M"), Token::Newline,
        nm("M"),
    ]);
    assert!(r.is_ok());
    check_tokens(&code, &[Token::Newline, nm("include"), nm("M"), Token::Newline, nm("z")]);
}

#[test]
fn unknown_directive() {
    match run(vec![Token::Hashtag, nm("pragma"), Token::Newline]).0 {
        Err(Error::UnknownDirective(d)) => assert_eq!(d, pc("pragma")),
        other => panic!("unexpected {:?}", other),
    }
}

#[test]
fn hash_then_something_else() {
    match run(vec![Token::Hashtag, Token::Semicolon]).0 {
        Err(Error::Unexpected(t)) => assert!(t.same(&Token::Semicolon)),
        other => panic!("unexpected {:?}", other),
    }
}

#[test]
fn empty_directive_line() {
    let (r, code, _) = run(vec![Token::Hashtag, Token::Newline, nm("x")]);
    assert!(r.is_ok());
    check_tokens(&code, &[Token::Hashtag, Token::Newline, nm("x")]);
}

#[test]
fn define_without_newline_ends_early() {
    let tokens = vec![nm("a"), Token::Hashtag, nm("define"), nm("N"), Token::Number(pc("1"))];
    let (r, code, macros) = run(tokens);
    assert!(matches!(r, Err(Error::Eof)));
    check_tokens(&code, &[nm("a"), Token::Hashtag, nm("define"), nm("N"), Token::Number(pc("1"))]);
    assert!(macros.is_empty());
}

#[test]
fn define_of_a_non_name() {
    assert!(matches!(
        run(vec![Token::Hashtag, nm("define"), Token::Comma, Token::Newline]).0,
        Err(Error::Unexpected(_))
    ));
}

#[test]
fn ifdef_with_two_names() {
    assert!(matches!(
        run(vec![
            Token::Hashtag, nm("ifdef"), nm("A"), nm("B"), Token::Newline,
            Token::Hashtag, nm("endif"), Token::Newline,
        ])
        .0,
        Err(Error::TooManyOperands)
    ));
}

#[test]
fn ifdef_without_endif() {
    assert!(matches!(
        run(vec![Token::Hashtag, nm("ifdef"), nm("A"), Token::Newline, nm("x")]).0,
        Err(Error::Eof)
    ));
}

#[test]
fn code_without_directives_is_unchanged() {
    let (r, code, macros) = run(vec![nm("int"), nm("x"), Token::Semicolon, Token::Newline]);
    assert!(r.is_ok());
    check_tokens(&code, &[nm("int"), nm("x"), Token::Semicolon, Token::Newline]);
    assert!(macros.is_empty());
}

#[test]
fn system_paths_end_in_a_slash() {
    assert_eq!(SystemPath::new("/usr/include").0, pc("/usr/include/"));
    assert_eq!(SystemPath::new("/opt/").0, pc("/opt/"));
    let d = SystemPath::default();
    assert_eq!(d.len(), 1);
    assert_eq!(d[0].0, pc("/usr/include/"));
}
