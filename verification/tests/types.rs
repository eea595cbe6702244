use qas::token::Token;
use qas::transform::c::ty::Code;
use qas::transform::c::types::{ConvertTemplate, Type, TypeConvert, TypeType};

fn chs(s: &str) -> Vec<char> {
    s.chars().collect()
}

fn word(s: &str) -> Token {
    Token::Name(chs(s))
}

fn none() -> Vec<TypeConvert> {
    Vec::new()
}

fn fresh_table() -> Vec<Type> {
    let mut code = Code::new();
    let mut types = Vec::new();
    Type::init(&mut code, &mut types);
    types
}

fn rust_of(types: &Vec<Type>, c: &str) -> Option<String> {
    Type::rustify(types, &chs(c)).map(|v| v.iter().collect())
}

#[test]
fn init_builds_the_builtin_table() {
    let types = fresh_table();
    assert_eq!(types.len(), 16);
    let names = [
        "signed char", "unsigned char", "signed short", "unsigned short", "signed int", "unsigned int",
        "signed long", "unsigned long", "_Bool", "void", "char", "short", "int", "long", "signed", "unsigned",
    ];
    for (i, n) in names.iter().enumerate() {
        assert_eq!(Type::id2c(&types, i), &chs(n));
    }
    assert!(matches!(types[10].data, TypeType::Alias { id: 1 }));
    assert!(matches!(types[15].data, TypeType::Alias { id: 5 }));
}

#[test]
fn init_joins_type_words_and_ampersands() {
    let mut code = Code::new();
    code.set(vec![
        word("unsigned"),
        word("int"),
        word("x"),
        Token::Ampersand,
        Token::Ampersand,
        word("signed"),
        word("long"),
        word("long"),
    ]);
    let mut types = Vec::new();
    Type::init(&mut code, &mut types);
    let want = [
        word("unsigned int"),
        word("x"),
        Token::DoubleAmpersand,
        word("signed long"),
        word("long"),
    ];
    assert_eq!(code.tokens.len(), want.len());
    for (g, w) in code.tokens.iter().zip(want.iter()) {
        assert!(g.same(w), "{:?}", code.tokens);
    }
}

#[test]
fn init_joins_three_ampersands_once() {
    let mut code = Code::new();
    code.set(vec![Token::Ampersand, Token::Ampersand, Token::Ampersand]);
    let mut types = Vec::new();
    Type::init(&mut code, &mut types);
    assert_eq!(code.tokens.len(), 2);
    assert!(code.tokens[0].same(&Token::DoubleAmpersand));
    assert!(code.tokens[1].same(&Token::Ampersand));
}

#[test]
fn rustify_follows_aliases() {
    let types = fresh_table();
    assert_eq!(rust_of(&types, "int").as_deref(), Some("i32"));
    assert_eq!(rust_of(&types, "char").as_deref(), Some("u8"));
    assert_eq!(rust_of(&types, "unsigned").as_deref(), Some("u32"));
    assert_eq!(rust_of(&types, "long").as_deref(), Some("i64"));
    assert_eq!(rust_of(&types, "void").as_deref(), Some("()"));
    assert_eq!(rust_of(&types, "_Bool").as_deref(), Some("bool"));
    assert_eq!(rust_of(&types, "float"), None);
}

#[test]
fn trueify_gives_the_full_c_name() {
    let types = fresh_table();
    assert_eq!(Type::trueify(&types, &chs("int")), &chs("signed int"));
    assert_eq!(Type::trueify(&types, &chs("short")), &chs("signed short"));
    assert_eq!(Type::trueify(&types, &chs("unsigned long")), &chs("unsigned long"));
}

#[test]
fn lookups_by_position_and_name() {
    let types = fresh_table();
    assert_eq!(Type::c2id(&types, &chs("void")), 9);
    assert_eq!(Type::c2id(&types, &chs("int")), 12);
    assert_eq!(Type::id2rust(&types, 12), &chs("i32"));
    assert_eq!(Type::rust2id(&types, &chs("i32")), 4);
    assert_eq!(Type::rust2id(&types, &chs("u8")), 1);
    assert_eq!(Type::true_id(&types, 12), 4);
    assert_eq!(Type::true_id(&types, 10), 1);
    assert_eq!(Type::true_id(&types, 6), 6);
    assert_eq!(types[13].rust_name(&types), &chs("i64"));
    assert_eq!(types[13].true_c_name(&types), &chs("signed long"));
    assert_eq!(types[0].true_c_name(&types), &chs("signed char"));
}

#[test]
fn fundamental_types_are_the_builtins() {
    assert!(Type::is_fundamental(0));
    assert!(Type::is_fundamental(15));
    assert!(!Type::is_fundamental(16));
}

#[test]
fn convert_casts_between_builtins() {
    let types = fresh_table();
    let got = Type::convert(&types, &none(), 12, 13, &chs("a")).unwrap();
    assert_eq!(got, chs("a as i64"));
    let got = Type::convert(&types, &none(), 4, 6, &chs("a + b")).unwrap();
    assert_eq!(got, chs("(a + b) as i64"));
    let got = Type::convert(&types, &none(), 8, 4, &chs("f")).unwrap();
    assert_eq!(got, chs("f as i32"));
    let got = Type::convert(&types, &none(), 4, 4, &chs("x")).unwrap();
    assert_eq!(got, chs("x as i32"));
}

#[test]
fn convert_refuses_void() {
    let types = fresh_table();
    assert_eq!(Type::convert(&types, &none(), 4, 9, &chs("a")), None);
    assert_eq!(Type::convert(&types, &none(), 9, 4, &chs("a")), None);
}

#[test]
fn convert_refuses_types_added_later() {
    let mut types = fresh_table();
    Type::add_full(&mut types, chs("thing"), chs("Thing"));
    assert_eq!(Type::convert(&types, &none(), 16, 4, &chs("t")), None);
    assert_eq!(Type::convert(&types, &none(), 4, 16, &chs("t")), None);
}

#[test]
fn an_alias_stands_for_its_target() {
    let mut types = fresh_table();
    Type::add_alias(&mut types, chs("myint"), 12);
    assert_eq!(types.len(), 17);
    assert_eq!(rust_of(&types, "myint").as_deref(), Some("i32"));
    assert_eq!(Type::trueify(&types, &chs("myint")), &chs("signed int"));
    assert_eq!(Type::c2id(&types, &chs("myint")), 16);
    assert_eq!(Type::true_id(&types, 16), 4);
    assert_eq!(Type::convert(&types, &none(), 16, 13, &chs("v")).unwrap(), chs("v as i64"));
    assert_eq!(rust_of(&types, "int").as_deref(), Some("i32"));
}

#[test]
fn a_full_type_has_its_own_rust_name() {
    let mut types = fresh_table();
    Type::add_full(&mut types, chs("size_t"), chs("usize"));
    assert_eq!(rust_of(&types, "size_t").as_deref(), Some("usize"));
    assert_eq!(Type::rust2id(&types, &chs("usize")), 16);
}

#[test]
fn convert_uses_a_registered_conversion() {
    let mut types = fresh_table();
    Type::add_full(&mut types, chs("big"), chs("Big"));
    Type::add_alias(&mut types, chs("bigint"), 16);
    let converts = vec![
        TypeConvert { from: 4, to: 16, convertor: ConvertTemplate::Call(chs("Big::from")) },
        TypeConvert { from: 16, to: 4, convertor: ConvertTemplate::Cast },
        TypeConvert { from: 4, to: 16, convertor: ConvertTemplate::Cast },
    ];
    // aliases on both sides are followed; the first matching entry is used
    assert_eq!(Type::convert(&types, &converts, 12, 17, &chs("x + 1")).unwrap(), chs("Big::from(x + 1)"));
    assert_eq!(Type::convert(&types, &converts, 17, 12, &chs("b")).unwrap(), chs("b as i32"));
    assert_eq!(Type::convert(&types, &converts, 16, 6, &chs("b")), None);
    // between fundamental types the cast wins over any registered conversion
    let shadow = vec![TypeConvert { from: 4, to: 6, convertor: ConvertTemplate::Call(chs("f")) }];
    assert_eq!(Type::convert(&types, &shadow, 4, 6, &chs("a")).unwrap(), chs("a as i64"));
}

#[test]
fn joining_type_words_twice_changes_nothing_more() {
    let mut code = Code::new();
    code.set(vec![
        word("signed"),
        word("signed"),
        word("char"),
        Token::Ampersand,
        Token::Ampersand,
        Token::Ampersand,
        Token::Ampersand,
        word("unsigned"),
        word("long"),
    ]);
    let mut types = Vec::new();
    Type::init(&mut code, &mut types);
    let once: Vec<Token> = code.tokens.iter().map(|t| t.copy()).collect();
    let want = [
        word("signed"),
        word("signed char"),
        Token::DoubleAmpersand,
        Token::DoubleAmpersand,
        word("unsigned long"),
    ];
    assert_eq!(once.len(), want.len());
    for (g, w) in once.iter().zip(want.iter()) {
        assert!(g.same(w), "{:?}", once);
    }
    let mut again = Vec::new();
    Type::init(&mut code, &mut again);
    assert_eq!(code.tokens.len(), once.len());
    for (g, w) in code.tokens.iter().zip(once.iter()) {
        assert!(g.same(w));
    }
}
