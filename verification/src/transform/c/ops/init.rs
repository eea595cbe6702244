//! The built-in operators.

use vstd::prelude::*;

use super::super::types::{Type, types_view, TypeID, builtin_c_name, lemma_builtin_find, types_ok};
use super::types::{Fix, Op, OpTemplate, Order, SpecOp, SpecOperator, SpecTemplate, ops_view};
use super::{collect, eval_from, eval_one, match_at, match_from, matching, reduce, scan_end, spec_expression, value_at};
use super::super::ty::SpecLet;
use super::super::types::builtin_table;
use crate::error::SpecError;
use crate::token::SpecToken;
use crate::text::str_chars;

verus! {

/// A one-operand operator on type `ty`, of priority 10, written as
/// `prefix` followed by its operand.
pub open spec fn unary_op(sym: Seq<char>, prefix: Seq<char>, ty: TypeID) -> SpecOp {
    SpecOp {
        operands: seq![ty],
        ret: ty,
        parts: seq![sym],
        fix: Fix::Prefix,
        order: Order::Left,
        priority: 10,
        make: SpecTemplate::Prefix(prefix),
    }
}

/// A two-operand operator on type `ty`, grouping to the left, written
/// `a sym b`.
pub open spec fn binary_op(sym: Seq<char>, priority: u8, ty: TypeID) -> SpecOp {
    SpecOp {
        operands: seq![ty, ty],
        ret: ty,
        parts: seq![sym],
        fix: Fix::Prefix,
        order: Order::Left,
        priority,
        make: SpecTemplate::Infix(sym),
    }
}

/// The integer types, signed ones first.
pub open spec fn plus_types() -> Seq<TypeID> {
    seq![0usize, 2, 4, 6, 1, 3, 5, 7]
}

/// The signed integer types.
pub open spec fn minus_types() -> Seq<TypeID> {
    seq![0usize, 2, 4, 6]
}

/// The integer types, each signed one before its unsigned one.
pub open spec fn integer_types() -> Seq<TypeID> {
    seq![0usize, 1, 2, 3, 4, 5, 6, 7]
}

/// The boolean type.
pub open spec fn bool_types() -> Seq<TypeID> {
    seq![8usize]
}

/// The built-in operators, in the order they are added (which is also the
/// order of priority).
pub open spec fn builtin_ops() -> Seq<SpecOp> {
    plus_types().map_values(|t: TypeID| unary_op("+"@, ""@, t))
        + minus_types().map_values(|t: TypeID| unary_op("-"@, "-"@, t))
        + integer_types().map_values(|t: TypeID| binary_op("*"@, 9, t))
        + integer_types().map_values(|t: TypeID| binary_op("/"@, 9, t))
        + integer_types().map_values(|t: TypeID| binary_op("+"@, 4, t))
        + integer_types().map_values(|t: TypeID| binary_op("-"@, 4, t))
        + seq![binary_op("&&"@, 3, 8)]
}

/// Each name is that of the built-in type at the same position in `ids`.
pub open spec fn group_ok(names: Seq<&str>, ids: Seq<TypeID>) -> bool {
    &&& names.len() == ids.len()
    &&& forall|k: int| 0 <= k < ids.len() ==> ids[k] < 16 && (#[trigger] names[k])@ == builtin_c_name(ids[k] as int)
}

/// Adds `sym` as a one-operand operator on each of the types named.
fn add_unary_group(ops: &mut Vec<Op>, types: &Vec<Type>, sym: &str, prefix: &str, names: &[&str], ids: Ghost<Seq<TypeID>>)
    requires
        types_ok(types_view(types@)),
        names@.len() == ids@.len(),
        group_ok(names@, ids@),
        forall|j: int| 0 <= j < old(ops)@.len() ==> (#[trigger] old(ops)@[j]).priority >= 10,
    ensures
        ops_view(final(ops)@) == ops_view(old(ops)@) + ids@.map_values(|t: TypeID| unary_op(sym@, prefix@, t)),
        forall|j: int| 0 <= j < final(ops)@.len() ==> (#[trigger] final(ops)@[j]).priority >= 10,
{
    let ghost start = ops_view(ops@);
    let mut k: usize = 0;
    while k < names.len()
        invariant
            types_ok(types_view(types@)),
            names@.len() == ids@.len(),
            group_ok(names@, ids@),
            k <= names.len(),
            ops_view(ops@) == start + ids@.take(k as int).map_values(|t: TypeID| unary_op(sym@, prefix@, t)),
            forall|j: int| 0 <= j < ops@.len() ==> (#[trigger] ops@[j]).priority >= 10,
        decreases names.len() - k,
    {
        let name = str_chars(names[k]);
        proof { lemma_builtin_find(types_view(types@), ids@[k as int] as int); }
        let ty = Type::c2id(types, &name);
        let op = Op {
            operands: vec![ty],
            ret: ty,
            parts: vec![str_chars(sym)],
            fix: Fix::Prefix,
            order: Order::Left,
            priority: 10,
            make: OpTemplate::Prefix(str_chars(prefix)),
        };
        let ghost before = ops_view(ops@);
        proof {
            assert(op@.parts =~= seq![sym@]);
            assert(op@.operands =~= seq![ty]);
            assert(op@ == unary_op(sym@, prefix@, ids@[k as int]));
        }
        ops.push(op);
        proof {
            assert(ids@.take(k + 1) =~= ids@.take(k as int).push(ids@[k as int]));
            assert(ops_view(ops@) =~= before.push(unary_op(sym@, prefix@, ids@[k as int])));
            assert(ids@.take(k + 1).map_values(|t: TypeID| unary_op(sym@, prefix@, t))
                =~= ids@.take(k as int).map_values(|t: TypeID| unary_op(sym@, prefix@, t)).push(unary_op(sym@, prefix@, ids@[k as int])));
        }
        k += 1;
    }
    assert(ids@.take(names.len() as int) =~= ids@);
}

/// Adds `sym` as a two-operand operator of priority `priority` on each of the
/// types named.
fn add_binary_group(ops: &mut Vec<Op>, types: &Vec<Type>, sym: &str, priority: u8, names: &[&str], ids: Ghost<Seq<TypeID>>)
    requires
        types_ok(types_view(types@)),
        names@.len() == ids@.len(),
        group_ok(names@, ids@),
        forall|j: int| 0 <= j < old(ops)@.len() ==> (#[trigger] old(ops)@[j]).priority >= priority,
    ensures
        ops_view(final(ops)@) == ops_view(old(ops)@) + ids@.map_values(|t: TypeID| binary_op(sym@, priority, t)),
        forall|j: int| 0 <= j < final(ops)@.len() ==> (#[trigger] final(ops)@[j]).priority >= priority,
{
    let ghost start = ops_view(ops@);
    let mut k: usize = 0;
    while k < names.len()
        invariant
            types_ok(types_view(types@)),
            names@.len() == ids@.len(),
            group_ok(names@, ids@),
            k <= names.len(),
            ops_view(ops@) == start + ids@.take(k as int).map_values(|t: TypeID| binary_op(sym@, priority, t)),
            forall|j: int| 0 <= j < ops@.len() ==> (#[trigger] ops@[j]).priority >= priority,
        decreases names.len() - k,
    {
        let name = str_chars(names[k]);
        proof { lemma_builtin_find(types_view(types@), ids@[k as int] as int); }
        let ty = Type::c2id(types, &name);
        let op = Op {
            operands: vec![ty, ty],
            ret: ty,
            parts: vec![str_chars(sym)],
            fix: Fix::Prefix,
            order: Order::Left,
            priority,
            make: OpTemplate::Infix(str_chars(sym)),
        };
        let ghost before = ops_view(ops@);
        proof {
            assert(op@.parts =~= seq![sym@]);
            assert(op@.operands =~= seq![ty, ty]);
            assert(op@ == binary_op(sym@, priority, ids@[k as int]));
        }
        ops.push(op);
        proof {
            assert(ids@.take(k + 1) =~= ids@.take(k as int).push(ids@[k as int]));
            assert(ops_view(ops@) =~= before.push(binary_op(sym@, priority, ids@[k as int])));
            assert(ids@.take(k + 1).map_values(|t: TypeID| binary_op(sym@, priority, t))
                =~= ids@.take(k as int).map_values(|t: TypeID| binary_op(sym@, priority, t)).push(binary_op(sym@, priority, ids@[k as int])));
        }
        k += 1;
    }
    assert(ids@.take(names.len() as int) =~= ids@);
}

/// Adds the built-in operators: unary `+` and `-`, then `*`, `/`, `+`, `-`
/// on each integer type, then `&&` on `_Bool`.
pub fn init(ops: &mut Vec<Op>, types: &Vec<Type>)
    requires
        types_ok(types_view(types@)),
        old(ops)@.len() == 0,
    ensures
        ops_view(final(ops)@) == builtin_ops(),
{
    let plus: [&str; 8] = [
        "signed char", "signed short", "signed int", "signed long",
        "unsigned char", "unsigned short", "unsigned int", "unsigned long",
    ];
    let minus: [&str; 4] = ["signed char", "signed short", "signed int", "signed long"];
    let ints: [&str; 8] = [
        "signed char", "unsigned char", "signed short", "unsigned short",
        "signed int", "unsigned int", "signed long", "unsigned long",
    ];
    let bools: [&str; 1] = ["_Bool"];
    assert(group_ok(plus@, plus_types()));
    assert(group_ok(minus@, minus_types()));
    assert(group_ok(ints@, integer_types()));
    assert(group_ok(bools@, bool_types()));
    let ghost v0 = ops_view(ops@);
    assert(v0 =~= Seq::<SpecOp>::empty());
    add_unary_group(ops, types, "+", "", &plus, Ghost(plus_types()));
    add_unary_group(ops, types, "-", "-", &minus, Ghost(minus_types()));
    add_binary_group(ops, types, "*", 9, &ints, Ghost(integer_types()));
    add_binary_group(ops, types, "/", 9, &ints, Ghost(integer_types()));
    add_binary_group(ops, types, "+", 4, &ints, Ghost(integer_types()));
    add_binary_group(ops, types, "-", 4, &ints, Ghost(integer_types()));
    add_binary_group(ops, types, "&&", 3, &bools, Ghost(bool_types()));
    assert(bool_types().map_values(|t: TypeID| binary_op("&&"@, 3, t)) =~= seq![binary_op("&&"@, 3, 8)]);
    assert(ops_view(ops@) =~= builtin_ops());
}

/// Where the built-in operators stand: the one-operand ones first, then for
/// each of `*`, `/`, `+`, `-` the two-operand one on each integer type in
/// turn, then `&&`.
proof fn lemma_builtin_layout()
    ensures
        builtin_ops().len() == 45,
        forall|i: int| 0 <= i < 12 ==> (#[trigger] builtin_ops()[i]).operands.len() == 1
            && builtin_ops()[i].fix == Fix::Prefix && builtin_ops()[i].order == Order::Left,
        forall|i: int| 12 <= i < 20 ==> #[trigger] builtin_ops()[i] == binary_op("*"@, 9, (i - 12) as TypeID),
        forall|i: int| 20 <= i < 28 ==> #[trigger] builtin_ops()[i] == binary_op("/"@, 9, (i - 20) as TypeID),
        forall|i: int| 28 <= i < 36 ==> #[trigger] builtin_ops()[i] == binary_op("+"@, 4, (i - 28) as TypeID),
        forall|i: int| 36 <= i < 44 ==> #[trigger] builtin_ops()[i] == binary_op("-"@, 4, (i - 36) as TypeID),
{
    let b = builtin_ops();
    assert forall|i: int| 0 <= i < 12 implies (#[trigger] b[i]).operands.len() == 1
        && b[i].fix == Fix::Prefix && b[i].order == Order::Left by {
        if i < 8 {} else {}
    }
    assert forall|i: int| 12 <= i < 20 implies #[trigger] b[i] == binary_op("*"@, 9, (i - 12) as TypeID) by {
        assert(integer_types()[i - 12] == (i - 12) as TypeID);
    }
    assert forall|i: int| 20 <= i < 28 implies #[trigger] b[i] == binary_op("/"@, 9, (i - 20) as TypeID) by {
        assert(integer_types()[i - 20] == (i - 20) as TypeID);
    }
    assert forall|i: int| 28 <= i < 36 implies #[trigger] b[i] == binary_op("+"@, 4, (i - 28) as TypeID) by {
        assert(integer_types()[i - 28] == (i - 28) as TypeID);
    }
    assert forall|i: int| 36 <= i < 44 implies #[trigger] b[i] == binary_op("-"@, 4, (i - 36) as TypeID) by {
        assert(integer_types()[i - 36] == (i - 36) as TypeID);
    }
}

/// Trying operators that do not apply changes nothing.
proof fn lemma_reduce_skip(ops: Seq<SpecOp>, idx: int, target: int, o: Seq<SpecLet>, r: Seq<SpecOperator>)
    requires
        0 <= idx <= target <= ops.len(),
        r.len() > 0,
        forall|i: int| idx <= i < target ==> #[trigger] eval_one(o, r, ops[i]) == Ok::<Option<SpecLet>, SpecError>(None),
    ensures
        reduce(ops, idx, o, r) == reduce(ops, target, o, r),
    decreases target - idx,
{
    if idx < target {
        assert(eval_one(o, r, ops[idx]) == Ok::<Option<SpecLet>, SpecError>(None));
        lemma_reduce_skip(ops, idx + 1, target, o, r);
    }
}

/// The built-in operators cover the arithmetic of every integer type: for
/// each of the eight integer types (`signed`/`unsigned` `char`, `short`,
/// `int`, `long`, positions 0 to 7 of the table, which every integer type
/// name resolves to) and each of `*`, `/`, `+`, `-`, the expression
/// `x op y;` over two values `x` and `y` of that type is the value
/// `x op y` of that same type.
pub proof fn law_builtin_arithmetic(t: TypeID, tok: SpecToken, x: Seq<char>, y: Seq<char>)
    requires
        t < 8,
        tok is Mul || tok is Div || tok is Add || tok is Sub,
        x != y,
    ensures
        builtin_table()[t as int].data is Full,
        spec_expression(
            seq![SpecToken::Name(x), tok, SpecToken::Name(y), SpecToken::Semicolon],
            0,
            seq![SpecLet { name: x, ty: t }, SpecLet { name: y, ty: t }],
            builtin_ops(),
        ) == Ok::<(SpecLet, int), SpecError>((SpecLet { name: x + seq![' '] + tok.text() + seq![' '] + y, ty: t }, 4)),
{
    reveal_strlit("*");
    reveal_strlit("/");
    reveal_strlit("+");
    reveal_strlit("-");
    let b = builtin_ops();
    lemma_builtin_layout();
    let ts = seq![SpecToken::Name(x), tok, SpecToken::Name(y), SpecToken::Semicolon];
    let lx = SpecLet { name: x, ty: t };
    let ly = SpecLet { name: y, ty: t };
    let lets = seq![lx, ly];
    let sym = tok.text();
    let opr = SpecOperator { data: sym, fix: Fix::Postfix };
    // reading the tokens
    assert(lets.drop_last() =~= seq![lx]);
    assert(seq![lx].drop_last() =~= Seq::<SpecLet>::empty());
    assert(lets.last() == ly);
    assert(seq![lx].last() == lx);
    assert(matching(Seq::<SpecLet>::empty(), x) == Seq::<SpecLet>::empty());
    assert(matching(Seq::<SpecLet>::empty(), y) == Seq::<SpecLet>::empty());
    assert(matching(seq![lx], x) =~= seq![lx]);
    assert(matching(seq![lx], y) =~= Seq::<SpecLet>::empty());
    assert(matching(lets, x) == matching(seq![lx], x) + Seq::<SpecLet>::empty());
    assert(matching(lets, x) =~= seq![lx]);
    assert(matching(lets, y) == matching(seq![lx], y) + seq![ly]);
    assert(matching(lets, y) =~= seq![ly]);
    assert(Seq::<SpecLet>::empty() + seq![lx] =~= seq![lx]);
    assert(seq![lx] + seq![ly] =~= seq![lx, ly]);
    assert(Seq::<SpecOperator>::empty().push(opr) =~= seq![opr]);
    let o = seq![lx, ly];
    let r = seq![opr];
    assert(collect(ts, 3, lets, o, r, false) == Ok::<(Seq<SpecLet>, Seq<SpecOperator>, int), SpecError>((o, r, 4)));
    assert(collect(ts, 2, lets, seq![lx], r, false) == collect(ts, 3, lets, o, r, false));
    assert(collect(ts, 1, lets, seq![lx], Seq::empty(), false) == collect(ts, 2, lets, seq![lx], r, false));
    assert(collect(ts, 0, lets, Seq::empty(), Seq::empty(), true) == collect(ts, 1, lets, seq![lx], Seq::empty(), false));
    // the operator group of `tok`
    let g: int = if tok is Mul { 0 } else if tok is Div { 1 } else if tok is Add { 2 } else { 3 };
    let gsym = if g == 0 { "*"@ } else if g == 1 { "/"@ } else if g == 2 { "+"@ } else { "-"@ };
    assert(sym == gsym);
    let target = 12 + 8 * g + t;
    assert forall|i: int| 0 <= i < target implies #[trigger] eval_one(o, r, b[i]) == Ok::<Option<SpecLet>, SpecError>(None) by {
        let op = b[i];
        assert(scan_end(o) == 1);
        if i < 12 {
            assert(match_at(o, r, op, 0) == Ok::<bool, SpecError>(false));
        } else {
            let gi: int = (i - 12) / 8;
            let j: int = (i - 12) % 8;
            assert(op.parts == seq![if gi == 0 { "*"@ } else if gi == 1 { "/"@ } else if gi == 2 { "+"@ } else { "-"@ }]);
            assert(op.operands == seq![j as TypeID, j as TypeID]);
            if gi != g {
                assert("*"@[0] == '*' && "/"@[0] == '/' && "+"@[0] == '+' && "-"@[0] == '-');
                assert(op.parts[0][0] != sym[0]);
                assert(op.parts[0] != sym);
            } else {
                assert(j < t);
            }
            assert(match_from(o, r, op, 0, 0) == Ok::<bool, SpecError>(false));
            assert(match_at(o, r, op, 0) == Ok::<bool, SpecError>(false));
        }
        assert(eval_from(o, r, op, 1) == Ok::<Option<SpecLet>, SpecError>(None));
    }
    lemma_reduce_skip(b, 0, target, o, r);
    let op = b[target];
    assert(op == binary_op(gsym, if g < 2 { 9u8 } else { 4u8 }, t));
    assert(match_from(o, r, op, 0, 2) == Ok::<bool, SpecError>(true));
    assert(match_from(o, r, op, 0, 1) == Ok::<bool, SpecError>(true));
    assert(match_from(o, r, op, 0, 0) == Ok::<bool, SpecError>(true));
    let v = SpecLet { name: x + seq![' '] + sym + seq![' '] + y, ty: t };
    assert(o.subrange(0, 2) =~= o);
    assert(value_at(o, op, 0) == v);
    assert(eval_one(o, r, op) == Ok::<Option<SpecLet>, SpecError>(Some(v)));
    assert(o.skip(2) =~= Seq::<SpecLet>::empty());
    assert(seq![v] + Seq::<SpecLet>::empty() =~= seq![v]);
    assert(r.drop_first() =~= Seq::<SpecOperator>::empty());
    assert(reduce(b, target, seq![v], Seq::empty()) == Ok::<(Seq<SpecLet>, Seq<SpecOperator>), SpecError>((seq![v], Seq::empty())));
    assert(reduce(b, target, o, r) == reduce(b, target, seq![v], Seq::empty()));
}

} // verus!
