use qas::token::{merge_strings, parse, Lexer, MergeError, Token, TokenStr};

fn to_chars(s: &str) -> Vec<char> {
    s.chars().collect()
}

fn name(s: &str) -> Token {
    Token::Name(to_chars(s))
}

fn number(s: &str) -> Token {
    Token::Number(to_chars(s))
}

fn string(s: &str) -> Token {
    Token::String(to_chars(s))
}

fn assert_same_tokens(got: &[Token], want: &[Token]) {
    assert_eq!(got.len(), want.len(), "got {:?}, want {:?}", got, want);
    for (g, w) in got.iter().zip(want.iter()) {
        assert!(g.same(w), "got {:?}, want {:?}", got, want);
    }
}

fn lex(s: &str) -> Vec<Token> {
    parse(&to_chars(s)).expect("the text should split into tokens")
}

#[test]
fn parse_splits_words_and_punctuation() {
    assert_same_tokens(
        &lex("int f(int a) {\n}"),
        &[
            name("int"),
            name("f"),
            Token::LParent,
            name("int"),
            name("a"),
            Token::RParent,
            Token::LFigure,
            Token::Newline,
            Token::RFigure,
        ],
    );
}

#[test]
fn parse_reads_every_one_character_token() {
    assert_same_tokens(
        &lex("()=+-/*,:;{}[]\t\n#&"),
        &[
            Token::LParent,
            Token::RParent,
            Token::Eq,
            Token::Add,
            Token::Sub,
            Token::Div,
            Token::Mul,
            Token::Comma,
            Token::TwoDots,
            Token::Semicolon,
            Token::LFigure,
            Token::RFigure,
            Token::LBracket,
            Token::RBracket,
            Token::Tab,
            Token::Newline,
            Token::Hashtag,
            Token::Ampersand,
        ],
    );
}

#[test]
fn parse_numbers_at_the_start_are_numbers() {
    assert_same_tokens(&lex("42"), &[number("42")]);
    assert_same_tokens(&lex("12ab"), &[number("12"), name("ab")]);
    assert_same_tokens(&lex("1 2"), &[number("1"), number("2")]);
}

#[test]
fn parse_digits_after_a_name_stay_names() {
    // the kind of the last word is kept after it ends, so digits that
    // follow a name are read as a name
    assert_same_tokens(&lex("x = 42;"), &[name("x"), Token::Eq, name("42"), Token::Semicolon]);
    assert_same_tokens(&lex("ab12"), &[name("ab12")]);
}

#[test]
fn parse_hex_letters_are_letters() {
    assert_same_tokens(&lex("7f"), &[number("7"), name("f")]);
    assert_same_tokens(&lex("_x1"), &[name("_x1")]);
}

#[test]
fn parse_five_spaces_make_a_tab() {
    assert_same_tokens(&lex("a     b"), &[name("a"), Token::Tab, name("b")]);
    assert_same_tokens(&lex("a    b"), &[name("a"), name("b")]);
    assert_same_tokens(&lex("          x"), &[Token::Tab, Token::Tab, name("x")]);
}

#[test]
fn parse_unknown_characters() {
    assert_same_tokens(&lex("a.b"), &[name("a"), Token::Unknown('.'), name("b")]);
    assert_same_tokens(&lex("@"), &[Token::Unknown('@')]);
}

#[test]
fn parse_keeps_two_ampersands_apart() {
    assert_same_tokens(&lex("a && b"), &[name("a"), Token::Ampersand, Token::Ampersand, name("b")]);
}

#[test]
fn parse_merges_a_string_literal() {
    // the literal takes the place of the token after its closing quote
    assert_same_tokens(&lex("s \"ab\" t u"), &[name("s"), string("ab"), name("u")]);
}

#[test]
fn parse_string_literal_keeps_token_texts_only() {
    assert_same_tokens(&lex("\"a b+c\";"), &[string("ab+c")]);
}

#[test]
fn parse_unterminated_string_drops_the_rest() {
    assert_same_tokens(&lex("x \"ab"), &[name("x")]);
}

#[test]
fn parse_string_closed_by_the_last_token_fails() {
    assert!(parse(&to_chars("x \"ab\"")).is_none());
}

#[test]
fn parse_of_nothing_is_nothing() {
    assert_same_tokens(&lex(""), &[]);
    assert_same_tokens(&lex("  \r "), &[]);
}

#[test]
fn merge_strings_overwrites_the_token_after_the_literal() {
    let mut ts = vec![Token::DoubleQuote, name("a"), Token::DoubleQuote, Token::Semicolon, name("z")];
    assert_eq!(merge_strings(&mut ts), Ok(()));
    assert_same_tokens(&ts, &[string("a"), name("z")]);
}

#[test]
fn merge_strings_joins_the_texts_inside() {
    let mut ts = vec![
        name("p"),
        Token::DoubleQuote,
        name("x"),
        Token::Add,
        Token::DoubleAmpersand,
        Token::Unknown('!'),
        Token::DoubleQuote,
        Token::Newline,
    ];
    assert_eq!(merge_strings(&mut ts), Ok(()));
    assert_same_tokens(&ts, &[name("p"), string("x+&&!")]);
}

#[test]
fn merge_strings_unterminated() {
    let mut ts = vec![name("x"), Token::DoubleQuote, name("a")];
    assert_eq!(merge_strings(&mut ts), Err(MergeError::Unterminated));
    assert_same_tokens(&ts, &[name("x")]);
}

#[test]
fn merge_strings_no_token_after() {
    let mut ts = vec![Token::DoubleQuote, name("a"), Token::DoubleQuote];
    assert_eq!(merge_strings(&mut ts), Err(MergeError::NoTokenAfter));
}

#[test]
fn merge_strings_twice_changes_nothing_more() {
    let mut ts = vec![Token::DoubleQuote, name("a"), Token::DoubleQuote, Token::Comma, name("b")];
    assert_eq!(merge_strings(&mut ts), Ok(()));
    let once: Vec<Token> = ts.iter().map(|t| t.copy()).collect();
    assert_eq!(merge_strings(&mut ts), Ok(()));
    assert_same_tokens(&ts, &once);
}

#[test]
fn merge_strings_without_quotes_changes_nothing() {
    let mut ts = vec![name("a"), Token::Comma, number("1")];
    assert_eq!(merge_strings(&mut ts), Ok(()));
    assert_same_tokens(&ts, &[name("a"), Token::Comma, number("1")]);
}

#[test]
fn token_text_writes_each_token_back() {
    assert_eq!(string("hi").text(), to_chars("\"hi\""));
    assert_eq!(Token::DoubleAmpersand.text(), to_chars("&&"));
    assert_eq!(Token::Unknown('$').text(), vec!['$']);
    assert_eq!(Token::LFigure.text(), vec!['{']);
    assert_eq!(name("abc").text(), to_chars("abc"));
}

#[test]
fn punctuation_reads_back_from_its_text() {
    for t in [Token::Comma, Token::Semicolon, Token::Hashtag, Token::Tab, Token::Mul] {
        let again = parse(&t.text()).unwrap();
        assert_same_tokens(&again, &[t]);
    }
}

#[test]
fn expect_punct_and_value() {
    assert!(Token::Comma.expect_punct(Token::Comma).is_ok());
    match Token::Comma.expect_punct(Token::Semicolon) {
        Err(qas::error::Error::Unexpected(t)) => assert!(t.same(&Token::Comma)),
        other => panic!("unexpected {:?}", other),
    }
    assert_eq!(name("x").expect_value(TokenStr::Name).unwrap(), &to_chars("x"));
    assert_eq!(number("7").expect_value(TokenStr::Number).unwrap(), &to_chars("7"));
    assert!(number("7").expect_value(TokenStr::Name).is_err());
    assert!(Token::Eq.expect_value(TokenStr::Name).is_err());
}

#[test]
fn token_kinds() {
    assert!(TokenStr::from_token(&name("a")) == TokenStr::Name);
    assert!(TokenStr::from_token(&number("1")) == TokenStr::Number);
    assert!(TokenStr::from_token(&Token::Eq) == TokenStr::No);
    assert!(TokenStr::Number.to_token(&to_chars("9")).same(&number("9")));
    assert!(TokenStr::Name.to_token(&to_chars("n")).same(&name("n")));
}

#[test]
fn lexer_steps_follow_the_given_classes() {
    let mut l = Lexer::new();
    l.step('k', true, false, false);
    l.step('\u{663}', false, true, false); // ARABIC-INDIC DIGIT THREE, numeric, inside a name
    l.step('\u{3000}', false, false, true); // IDEOGRAPHIC SPACE
    l.step('x', false, false, false); // a character of no class is unknown
    assert_eq!(l.ignored, 0);
    let ts = l.finish();
    assert_same_tokens(&ts, &[Token::Name(vec!['k', '\u{663}']), Token::Unknown('x')]);
}

#[test]
fn lexer_counts_white_space_and_makes_tabs() {
    let mut l = Lexer::new();
    for _ in 0..4 {
        l.step(' ', false, false, true);
    }
    assert_eq!(l.ignored, 4);
    l.step(' ', false, false, true);
    assert_eq!(l.ignored, 0);
    assert_same_tokens(&l.tokens, &[Token::Tab]);
}

#[test]
fn parse_reads_unicode_letters_and_digits() {
    assert_same_tokens(&lex("\u{e9}t\u{e9} \u{3b1}\u{661}"), &[name("\u{e9}t\u{e9}"), name("\u{3b1}\u{661}")]);
    assert_same_tokens(&lex("a\u{3000}b"), &[name("a"), name("b")]);
    assert_same_tokens(&lex("\u{661}"), &[Token::Unknown('\u{661}')]);
}

#[test]
fn a_run_of_one_character_tokens_reads_back_from_its_text() {
    let ts = vec![Token::Comma, Token::Semicolon, Token::Newline, Token::LFigure, Token::Tab, Token::Hashtag, Token::Mul];
    let mut text: Vec<char> = Vec::new();
    for t in &ts {
        text.extend(t.text());
    }
    assert_eq!(text, to_chars(",;\n{\t#*"));
    assert_same_tokens(&parse(&text).unwrap(), &ts);
}

fn listed_white_space(c: char) -> bool {
    let u = c as u32;
    (0x9..=0xd).contains(&u)
        || u == 0x20
        || u == 0x85
        || u == 0xa0
        || u == 0x1680
        || (0x2000..=0x200a).contains(&u)
        || u == 0x2028
        || u == 0x2029
        || u == 0x202f
        || u == 0x205f
        || u == 0x3000
}

#[test]
fn white_space_is_the_listed_code_points() {
    for u in 0..=0x10ffffu32 {
        if let Some(c) = char::from_u32(u) {
            assert_eq!(c.is_whitespace(), listed_white_space(c), "U+{:04X}", u);
        }
    }
}

#[test]
fn every_white_space_character_ends_a_word() {
    for u in [0x9u32, 0xb, 0xc, 0xd, 0x20, 0x85, 0xa0, 0x1680, 0x2000, 0x200a, 0x2028, 0x2029, 0x202f, 0x205f, 0x3000] {
        let c = char::from_u32(u).unwrap();
        let text: Vec<char> = vec!['a', c, 'b'];
        let ts = parse(&text).unwrap();
        let want = if c == '\t' { vec![name("a"), Token::Tab, name("b")] } else { vec![name("a"), name("b")] };
        assert_same_tokens(&ts, &want);
    }
    assert_same_tokens(&lex("a\u{180e}b"), &[name("a"), Token::Unknown('\u{180e}'), name("b")]);
}
