use qas::error::Error;
use qas::token::Token;
use qas::transform::c::ops::expression;
use qas::transform::c::ops::init::init;
use qas::transform::c::ops::types::{Fix, Op, OpTemplate, Operand, Order};
use qas::transform::c::ty::{Code, Let, SmartIter};
use qas::transform::c::types::Type;

fn cv(s: &str) -> Vec<char> {
    s.chars().collect()
}

fn builtins() -> (Vec<Type>, Vec<Op>) {
    let mut code = Code::new();
    let mut types = Vec::new();
    Type::init(&mut code, &mut types);
    let mut ops = Vec::new();
    init(&mut ops, &types);
    (types, ops)
}

fn op_of_priority(priority: u8, ret: usize) -> Op {
    Op {
        operands: vec![4, 4],
        ret,
        parts: vec![cv("@")],
        fix: Fix::Prefix,
        order: Order::Left,
        priority,
        make: OpTemplate::Infix(cv("@")),
    }
}

fn eval(tokens: Vec<Token>, lets: &Vec<Let>) -> (Result<Let, Error>, usize) {
    let (types, ops) = builtins();
    let mut code = Code::new();
    code.set(tokens);
    let mut it = SmartIter::new();
    let r = expression(&mut it, &code, lets, &ops, &types);
    (r, it.0)
}

fn param(name: &str, ty: usize) -> Let {
    Let { name: cv(name), ty }
}

fn id(s: &str) -> Token {
    Token::Name(cv(s))
}

#[test]
fn init_adds_the_builtin_operators_by_priority() {
    let (_, ops) = builtins();
    assert_eq!(ops.len(), 45);
    for w in ops.windows(2) {
        assert!(w[0].priority >= w[1].priority);
    }
    // unary `+` on the eight integer types, then unary `-` on the signed ones
    assert_eq!(ops[0].priority, 10);
    assert_eq!(ops[0].operands, vec![0]);
    assert_eq!(ops[0].parts, vec![cv("+")]);
    assert_eq!(ops[8].parts, vec![cv("-")]);
    assert_eq!(ops[11].operands, vec![6]);
    // `*` on signed char first
    assert_eq!(ops[12].parts, vec![cv("*")]);
    assert_eq!(ops[12].operands, vec![0, 0]);
    assert_eq!(ops[12].priority, 9);
    assert_eq!(ops[20].parts, vec![cv("/")]);
    assert_eq!(ops[28].parts, vec![cv("+")]);
    assert_eq!(ops[28].priority, 4);
    assert_eq!(ops[36].parts, vec![cv("-")]);
    assert_eq!(ops[44].parts, vec![cv("&&")]);
    assert_eq!(ops[44].operands, vec![8, 8]);
    assert_eq!(ops[44].ret, 8);
    assert_eq!(ops[44].priority, 3);
}

#[test]
fn add_keeps_higher_priorities_first() {
    let mut ops = Vec::new();
    Op::add(&mut ops, op_of_priority(5, 1));
    Op::add(&mut ops, op_of_priority(7, 2));
    Op::add(&mut ops, op_of_priority(5, 3));
    Op::add(&mut ops, op_of_priority(1, 4));
    Op::add(&mut ops, op_of_priority(6, 5));
    let order: Vec<usize> = ops.iter().map(|o| o.ret).collect();
    assert_eq!(order, vec![2, 5, 1, 3, 4]);
}

#[test]
fn expression_adds_two_parameters() {
    let lets = vec![param("a", 4), param("b", 4)];
    let (r, pos) = eval(vec![id("a"), Token::Add, id("b"), Token::Semicolon, id("rest")], &lets);
    let v = r.unwrap();
    assert_eq!(v.name, cv("a + b"));
    assert_eq!(v.ty, 4);
    assert_eq!(pos, 4);
}

#[test]
fn expression_prefix_minus() {
    let lets = vec![param("a", 4)];
    let v = eval(vec![Token::Sub, id("a"), Token::Semicolon], &lets).0.unwrap();
    assert_eq!(v.name, cv("-a"));
    assert_eq!(v.ty, 4);
}

#[test]
fn expression_prefix_plus_is_dropped() {
    let lets = vec![param("a", 5)];
    let v = eval(vec![Token::Add, id("a"), Token::Semicolon], &lets).0.unwrap();
    assert_eq!(v.name, cv("a"));
    assert_eq!(v.ty, 5);
}

#[test]
fn expression_reduction_replaces_the_first_operands() {
    // `b * c` is reduced first, but it replaces the first two operands
    let lets = vec![param("a", 4), param("b", 4), param("c", 4)];
    let v = eval(vec![id("a"), Token::Add, id("b"), Token::Mul, id("c"), Token::Semicolon], &lets).0.unwrap();
    assert_eq!(v.name, cv("b * c * c"));
}

#[test]
fn expression_logical_and_on_bools() {
    let lets = vec![param("p", 8), param("q", 8)];
    let v = eval(vec![id("p"), Token::DoubleAmpersand, id("q"), Token::Semicolon], &lets).0.unwrap();
    assert_eq!(v.name, cv("p && q"));
    assert_eq!(v.ty, 8);
}

#[test]
fn expression_number_types() {
    let none: Vec<Let> = Vec::new();
    let cases = [
        ("5", 0),
        ("128", 0),
        ("129", 11),
        ("32767", 11),
        ("40000", 12),
        ("2147483647", 12),
        ("3000000000", 5),
        ("5000000000", 7),
        ("-5", 0),
        ("-129", 11),
        ("-40000", 12),
        ("-3000000000", 13),
        ("+7", 0),
    ];
    for (n, ty) in cases {
        let v = eval(vec![Token::Number(cv(n)), Token::Semicolon], &none).0.unwrap();
        assert_eq!(v.name, cv(n));
        assert_eq!(v.ty, ty, "type of {}", n);
    }
}

#[test]
fn expression_bad_number() {
    let none: Vec<Let> = Vec::new();
    let big = "999999999999999999999999999999999999999999";
    match eval(vec![Token::Number(cv(big)), Token::Semicolon], &none).0 {
        Err(Error::BadNumber(s)) => assert_eq!(s, cv(big)),
        other => panic!("unexpected {:?}", other),
    }
    assert!(matches!(eval(vec![Token::Number(cv("1f")), Token::Semicolon], &none).0, Err(Error::BadNumber(_))));
}

#[test]
fn expression_without_semicolon() {
    let lets = vec![param("a", 4)];
    assert!(matches!(eval(vec![id("a"), Token::Add], &lets).0, Err(Error::Eof)));
}

#[test]
fn expression_of_mixed_types_has_no_overload() {
    let lets = vec![param("a", 4), param("b", 6)];
    assert!(matches!(eval(vec![id("a"), Token::Add, id("b"), Token::Semicolon], &lets).0, Err(Error::NoOverload)));
}

#[test]
fn expression_of_unknown_names_is_empty() {
    let none: Vec<Let> = Vec::new();
    assert!(matches!(eval(vec![id("x"), Token::Semicolon], &none).0, Err(Error::NoOverload)));
}

#[test]
fn expression_after_an_operand_operators_are_postfix() {
    // the second `-` is not a prefix, so nothing takes it
    let lets = vec![param("a", 4), param("b", 4)];
    assert!(matches!(
        eval(vec![id("a"), Token::Sub, Token::Sub, id("b"), Token::Semicolon], &lets).0,
        Err(Error::NoOverload)
    ));
}

#[test]
fn operand_type_and_value() {
    let l = param("x", 3);
    let a = Operand::Let(&l);
    let b = Operand::Expr(param("y + z", 7));
    assert_eq!(a.ty(), 3);
    assert_eq!(b.ty(), 7);
    assert_eq!(a.as_let().name, cv("x"));
    assert_eq!(b.as_let().name, cv("y + z"));
}

#[test]
fn expression_operator_matching_past_the_last_operator() {
    // three operands and one operator: the unary operators look at the
    // second operator, which is not there
    let lets = vec![param("a", 4), param("b", 4), param("c", 4)];
    assert!(matches!(
        eval(vec![id("a"), id("b"), Token::Add, id("c"), Token::Semicolon], &lets).0,
        Err(Error::OperatorOutOfRange)
    ));
}

#[test]
fn expression_name_of_two_parameters_counts_twice() {
    let lets = vec![param("a", 4), param("a", 4)];
    assert!(matches!(eval(vec![id("a"), Token::Semicolon], &lets).0, Err(Error::NoOverload)));
}

fn times(order: Order, left: usize, right: usize, ret: usize, priority: u8) -> Op {
    Op {
        operands: vec![left, right],
        ret,
        parts: vec![cv("*")],
        fix: Fix::Prefix,
        order,
        priority,
        make: OpTemplate::Infix(cv("*")),
    }
}

fn eval_with(ops: &Vec<Op>, tokens: Vec<Token>, lets: &Vec<Let>) -> Result<Let, Error> {
    let mut code = Code::new();
    let mut types = Vec::new();
    Type::init(&mut code, &mut types);
    code.set(tokens);
    let mut it = SmartIter::new();
    expression(&mut it, &code, lets, ops, &types)
}

#[test]
fn right_grouping_applies_at_the_last_fit() {
    // `*` taking (int, long) to long: `a * (b * c)` fits, `(a * b) * c` does not
    let lets = vec![param("a", 4), param("b", 4), param("c", 6)];
    let tokens = || vec![id("a"), Token::Mul, id("b"), Token::Mul, id("c"), Token::Semicolon];
    let mut right = Vec::new();
    Op::add(&mut right, times(Order::Right, 4, 6, 6, 9));
    let v = eval_with(&right, tokens(), &lets).unwrap();
    assert_eq!(v.name, cv("a * b * c"));
    assert_eq!(v.ty, 6);
    let mut left = Vec::new();
    Op::add(&mut left, times(Order::Left, 4, 6, 6, 9));
    assert!(matches!(eval_with(&left, tokens(), &lets), Err(Error::NoOverload)));
}

#[test]
fn right_grouping_reduces_the_last_pair_first() {
    // `b * c` (int * int) is made first and has type unsigned int; then
    // `a * (b * c)` (int * unsigned int)
    let lets = vec![param("a", 4), param("b", 4), param("c", 4)];
    let mut ops = Vec::new();
    Op::add(&mut ops, times(Order::Right, 4, 4, 5, 9));
    Op::add(&mut ops, times(Order::Right, 4, 5, 5, 8));
    let v = eval_with(&ops, vec![id("a"), Token::Mul, id("b"), Token::Mul, id("c"), Token::Semicolon], &lets).unwrap();
    assert_eq!(v.name, cv("a * b * c"));
    assert_eq!(v.ty, 5);
}

#[test]
fn right_grouping_with_two_operands() {
    let lets = vec![param("a", 4), param("b", 6)];
    let mut ops = Vec::new();
    Op::add(&mut ops, times(Order::Right, 4, 6, 6, 9));
    let v = eval_with(&ops, vec![id("a"), Token::Mul, id("b"), Token::Semicolon], &lets).unwrap();
    assert_eq!(v.name, cv("a * b"));
    assert_eq!(v.ty, 6);
}
