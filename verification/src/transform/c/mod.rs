//! Translation of C source.

pub mod ops;
pub mod preprocessor;
pub mod ty;
pub mod types;

use vstd::prelude::*;

use self::ops::{collect, eval_back, eval_from, eval_one, expression, matching, ops_wf, reduce, spec_expression, spec_number_ty, number_class};
use self::ops::init::{builtin_ops, init};
use self::ops::types::{Op, SpecOp, SpecOperator, ops_view};
use self::preprocessor::{Macro, SystemPath, pp_halts, pp_result, pp_start, preprocess, macros_view};
use self::ty::{Code, Let, SmartIter, SpecLet, lets_view};
use self::types::{
    SpecType, SpecTypeType, Type, TypeID, find_c, find_rust, find_rust_from, lemma_find_c, lemma_find_rust_from,
    builtin_table, lemma_push_resolve, lemma_resolve, merge_type_words, resolve, rust_name_of, spec_convert, types_ok, types_view,
    TypeConvert, converts_view,
};
use crate::error::{Error, SpecError};
use crate::text::{push_chars, push_str, str_chars};
use crate::token::{SpecToken, Token, TokenStr, chars_eq, tokens_view};

verus! {

/// Every value has a type below `n`.
pub open spec fn lets_bounded(lets: Seq<SpecLet>, n: int) -> bool {
    forall|i: int| 0 <= i < lets.len() ==> (#[trigger] lets[i]).ty < n
}

/// Every operator gives a value of a type below `n`.
pub open spec fn ops_bounded(ops: Seq<SpecOp>, n: int) -> bool {
    forall|i: int| 0 <= i < ops.len() ==> (#[trigger] ops[i]).ret < n
}

proof fn lemma_matching_bounded(lets: Seq<SpecLet>, name: Seq<char>, n: int)
    requires
        lets_bounded(lets, n),
    ensures
        lets_bounded(matching(lets, name), n),
    decreases lets.len(),
{
    if lets.len() > 0 {
        assert(lets_bounded(lets.drop_last(), n)) by {
            assert forall|i: int| 0 <= i < lets.drop_last().len() implies (#[trigger] lets.drop_last()[i]).ty < n by {
                assert(lets.drop_last()[i] == lets[i]);
            }
        }
        lemma_matching_bounded(lets.drop_last(), name, n);
        assert(lets[lets.len() - 1] == lets.last());
    }
}

proof fn lemma_number_class(x: int)
    ensures
        number_class(x) < 16,
{
}

/// Reading an expression keeps the types of the operands bounded and moves
/// forward.
proof fn lemma_collect(
    ts: Seq<SpecToken>,
    p: int,
    lets: Seq<SpecLet>,
    operands: Seq<SpecLet>,
    operators: Seq<SpecOperator>,
    prev: bool,
    n: int,
)
    requires
        lets_bounded(lets, n),
        lets_bounded(operands, n),
        n >= 16,
        p >= 0,
    ensures
        collect(ts, p, lets, operands, operators, prev) matches Ok((o, r, q)) ==> lets_bounded(o, n) && q > p,
    decreases ts.len() - p,
{
    if 0 <= p < ts.len() {
        match ts[p] {
            SpecToken::Semicolon => {},
            SpecToken::Name(name) => {
                lemma_matching_bounded(lets, name, n);
                let o2 = operands + matching(lets, name);
                assert(lets_bounded(o2, n)) by {
                    assert forall|i: int| 0 <= i < o2.len() implies (#[trigger] o2[i]).ty < n by {
                        if i < operands.len() {
                            assert(o2[i] == operands[i]);
                        } else {
                            assert(o2[i] == matching(lets, name)[i - operands.len()]);
                        }
                    }
                }
                lemma_collect(ts, p + 1, lets, o2, operators, false, n);
            },
            SpecToken::Number(v) => {
                if let Some(t) = spec_number_ty(v) {
                    let x = ops::parse_i128(v).unwrap();
                    lemma_number_class(x);
                    let o2 = operands.push(SpecLet { name: v, ty: t });
                    assert(lets_bounded(o2, n)) by {
                        assert forall|i: int| 0 <= i < o2.len() implies (#[trigger] o2[i]).ty < n by {
                            if i < operands.len() {
                                assert(o2[i] == operands[i]);
                            }
                        }
                    }
                    lemma_collect(ts, p + 1, lets, o2, operators, false, n);
                }
            },
            t => {
                lemma_collect(
                    ts,
                    p + 1,
                    lets,
                    operands,
                    operators.push(SpecOperator { data: t.text(), fix: if prev { ops::types::Fix::Prefix } else { ops::types::Fix::Postfix } }),
                    prev,
                    n,
                );
            },
        }
    }
}

proof fn lemma_eval_from(operands: Seq<SpecLet>, operators: Seq<SpecOperator>, op: SpecOp, k: int)
    ensures
        eval_from(operands, operators, op, k) matches Ok(Some(l)) ==> l.ty == op.ret,
    decreases ops::scan_end(operands) - k,
{
    if 0 <= k < ops::scan_end(operands) {
        lemma_eval_from(operands, operators, op, k + 1);
    }
}

proof fn lemma_eval_back(operands: Seq<SpecLet>, operators: Seq<SpecOperator>, op: SpecOp, k: int)
    ensures
        eval_back(operands, operators, op, k) matches Ok(Some(l)) ==> l.ty == op.ret,
    decreases k + 1,
{
    if 0 <= k < operands.len() {
        lemma_eval_back(operands, operators, op, k - 1);
    }
}

/// The value an operator makes has its result type.
proof fn lemma_eval_one(operands: Seq<SpecLet>, operators: Seq<SpecOperator>, op: SpecOp)
    ensures
        eval_one(operands, operators, op) matches Ok(Some(l)) ==> l.ty == op.ret,
{
    lemma_eval_from(operands, operators, op, 0);
    lemma_eval_back(operands, operators, op, operands.len() - op.operands.len());
}

/// Applying operators keeps the types of the operands bounded.
proof fn lemma_reduce(ops: Seq<SpecOp>, idx: int, operands: Seq<SpecLet>, operators: Seq<SpecOperator>, n: int)
    requires
        ops_bounded(ops, n),
        lets_bounded(operands, n),
    ensures
        reduce(ops, idx, operands, operators) matches Ok((o, r)) ==> lets_bounded(o, n),
    decreases ops.len() - idx, operators.len(),
{
    if 0 <= idx < ops.len() && operators.len() != 0 {
        lemma_eval_one(operands, operators, ops[idx]);
        match eval_one(operands, operators, ops[idx]) {
            Err(e) => {},
            Ok(None) => {
                lemma_reduce(ops, idx + 1, operands, operators, n);
            },
            Ok(Some(r)) => {
                let m = ops[idx].operands.len();
                if ops[idx].order == ops::types::Order::Left {
                    let rest = if m <= operands.len() { operands.skip(m as int) } else { Seq::empty() };
                    let o2 = seq![r] + rest;
                    assert(lets_bounded(o2, n)) by {
                        assert forall|i: int| 0 <= i < o2.len() implies (#[trigger] o2[i]).ty < n by {
                            if i > 0 {
                                assert(o2[i] == operands[i - 1 + m]);
                            }
                        }
                    }
                    lemma_reduce(ops, idx, o2, operators.drop_first(), n);
                } else {
                    let kept = if m <= operands.len() { operands.take(operands.len() - m) } else { Seq::empty() };
                    let o2 = kept.push(r);
                    assert(lets_bounded(o2, n)) by {
                        assert forall|i: int| 0 <= i < o2.len() implies (#[trigger] o2[i]).ty < n by {
                            if i < kept.len() {
                                assert(o2[i] == operands[i]);
                            }
                        }
                    }
                    lemma_reduce(ops, idx, o2, operators.drop_last(), n);
                }
            },
        }
    }
}

/// The value of an expression has a type below `n`, and reading it moves
/// forward.
pub proof fn lemma_expression(ts: Seq<SpecToken>, p: int, lets: Seq<SpecLet>, ops: Seq<SpecOp>, n: int)
    requires
        lets_bounded(lets, n),
        ops_bounded(ops, n),
        n >= 16,
        p >= 0,
    ensures
        spec_expression(ts, p, lets, ops) matches Ok((l, q)) ==> l.ty < n && q > p,
{
    lemma_collect(ts, p, lets, Seq::empty(), Seq::empty(), true, n);
    if let Ok((o, r, q)) = collect(ts, p, lets, Seq::empty(), Seq::empty(), true) {
        lemma_reduce(ops, 0, o, r, n);
    }
}

pub proof fn lemma_collect_pos(
    ts: Seq<SpecToken>,
    p: int,
    lets: Seq<SpecLet>,
    operands: Seq<SpecLet>,
    operators: Seq<SpecOperator>,
    prev: bool,
)
    ensures
        collect(ts, p, lets, operands, operators, prev) matches Ok((o, r, q)) ==> p < q <= ts.len(),
    decreases ts.len() - p,
{
    if 0 <= p < ts.len() {
        match ts[p] {
            SpecToken::Semicolon => {},
            SpecToken::Name(name) => {
                lemma_collect_pos(ts, p + 1, lets, operands + matching(lets, name), operators, false);
            },
            SpecToken::Number(v) => {
                if let Some(t) = spec_number_ty(v) {
                    lemma_collect_pos(ts, p + 1, lets, operands.push(SpecLet { name: v, ty: t }), operators, false);
                }
            },
            t => {
                lemma_collect_pos(
                    ts,
                    p + 1,
                    lets,
                    operands,
                    operators.push(SpecOperator { data: t.text(), fix: if prev { ops::types::Fix::Prefix } else { ops::types::Fix::Postfix } }),
                    prev,
                );
            },
        }
    }
}

/// Reading an expression moves forward and stays within the tokens.
pub proof fn lemma_expression_pos(ts: Seq<SpecToken>, p: int, lets: Seq<SpecLet>, ops: Seq<SpecOp>)
    ensures
        spec_expression(ts, p, lets, ops) matches Ok((l, q)) ==> p < q <= ts.len(),
{
    lemma_collect_pos(ts, p, lets, Seq::empty(), Seq::empty(), true);
}

/// `s` without its last character, if it has one.
pub open spec fn pop_char(s: Seq<char>) -> Seq<char> {
    if s.len() > 0 { s.drop_last() } else { s }
}

/// Reading the parameters from `p` (a type name, a parameter name, then `,`
/// or `)`): each is written `name: T, ` and becomes a value of its type.
/// The position after the `)`, the output and the values.
pub open spec fn spec_params(ts: Seq<SpecToken>, p: int, types: Seq<SpecType>, out: Seq<char>, lets: Seq<SpecLet>)
    -> Result<(int, Seq<char>, Seq<SpecLet>), SpecError>
    decreases ts.len() - p,
{
    if p < 0 || p >= ts.len() {
        Err(SpecError::Eof)
    } else {
        match ts[p] {
            SpecToken::Name(tn) => match find_c(types, tn) {
                None => Err(SpecError::UnknownType(tn)),
                Some(i) => {
                    let t = resolve(types, i);
                    if p + 1 >= ts.len() {
                        Err(SpecError::Eof)
                    } else {
                        match ts[p + 1] {
                            SpecToken::Name(pn) => {
                                let out2 = out + pn + ": "@ + rust_name_of(types, t) + ", "@;
                                let lets2 = lets.push(SpecLet { name: pn, ty: t as TypeID });
                                if p + 2 >= ts.len() {
                                    Err(SpecError::Eof)
                                } else {
                                    match ts[p + 2] {
                                        SpecToken::Comma => spec_params(ts, p + 3, types, out2, lets2),
                                        SpecToken::RParent => Ok((p + 3, out2, lets2)),
                                        x => Err(SpecError::Unexpected(x)),
                                    }
                                }
                            },
                            x => Err(SpecError::Unexpected(x)),
                        }
                    }
                },
            },
            x => Err(SpecError::Unexpected(x)),
        }
    }
}

/// A `return` value `rop` as a value of the return type `ty`.
pub open spec fn spec_return_value(types: Seq<SpecType>, rop: SpecLet, ty: int) -> Result<Seq<char>, SpecError> {
    if rop.ty != ty {
        match spec_convert(types, Seq::empty(), rop.ty as int, ty, rop.name) {
            None => Err(SpecError::NotConvertible(rop.ty, ty as TypeID)),
            Some(n) => Ok(n),
        }
    } else {
        Ok(rop.name)
    }
}

/// Reading a function body from `p` up to its `}`: each statement is
/// `return <expression>;`, written on its own line as `\treturn <value>;`,
/// the value cast to the return type `ret` when their types differ; tabs and
/// newlines are skipped. The position after the `}` and the output.
pub open spec fn spec_body(
    ts: Seq<SpecToken>,
    p: int,
    types: Seq<SpecType>,
    lets: Seq<SpecLet>,
    ops: Seq<SpecOp>,
    ret: Seq<char>,
    out: Seq<char>,
) -> Result<(int, Seq<char>), SpecError>
    decreases ts.len() - p,
{
    if p < 0 || p >= ts.len() {
        Err(SpecError::Eof)
    } else {
        match ts[p] {
            SpecToken::Name(x) => {
                if x == "return"@ {
                    match spec_expression(ts, p + 1, lets, ops) {
                        Err(SpecError::Eof) => Err(SpecError::MissingSemicolon),
                        Err(e) => Err(e),
                        Ok((rop, q)) => match spec_return_value(types, rop, find_rust(types, ret).unwrap()) {
                            Err(e) => Err(e),
                            Ok(v) => {
                                proof { lemma_expression_pos(ts, p + 1, lets, ops); }
                                spec_body(ts, q, types, lets, ops, ret, out.push('\t') + "return "@ + v + seq![';'])
                            },
                        },
                    }
                } else {
                    Err(SpecError::Unexpected(SpecToken::Name(x)))
                }
            },
            SpecToken::Tab => spec_body(ts, p + 1, types, lets, ops, ret, out),
            SpecToken::Newline => spec_body(ts, p + 1, types, lets, ops, ret, out),
            SpecToken::RFigure => Ok((p + 1, out)),
            x => Err(SpecError::Unexpected(x)),
        }
    }
}

/// A function whose return type (Rust name `ret`) has been read; `p` is at
/// its name. It is written `fn name(params) -> ret {`, its body, `}`; the
/// two characters before `)` are dropped (the `, ` after the last
/// parameter). The position after it, the output, and the values known.
pub open spec fn spec_function(
    ts: Seq<SpecToken>,
    p: int,
    types: Seq<SpecType>,
    lets: Seq<SpecLet>,
    ops: Seq<SpecOp>,
    ret: Seq<char>,
    out: Seq<char>,
) -> Result<(int, Seq<char>, Seq<SpecLet>), SpecError> {
    if p < 0 || p >= ts.len() {
        Err(SpecError::Eof)
    } else {
        match ts[p] {
            SpecToken::Name(fname) => {
                let out1 = out + "fn "@ + fname;
                if p + 1 >= ts.len() {
                    Err(SpecError::Eof)
                } else {
                    match ts[p + 1] {
                        SpecToken::LParent => {
                            let out2 = out1.push('(');
                            if p + 2 >= ts.len() {
                                Err(SpecError::Eof)
                            } else {
                                let params = if ts[p + 2] is RParent {
                                    Ok((p + 2, out2, lets))
                                } else {
                                    spec_params(ts, p + 2, types, out2, lets)
                                };
                                match params {
                                    Err(e) => Err(e),
                                    Ok((q, out3, lets2)) => {
                                        let out4 = pop_char(pop_char(out3));
                                        if q < 0 || q >= ts.len() {
                                            Err(SpecError::Eof)
                                        } else if !(ts[q] is LFigure) {
                                            Err(SpecError::Unexpected(ts[q]))
                                        } else {
                                            match spec_body(ts, q + 1, types, lets2, ops, ret, out4 + ") -> "@ + ret + " {\n"@) {
                                                Err(e) => Err(e),
                                                Ok((r, out5)) => Ok((r, out5 + "\n}"@, lets2)),
                                            }
                                        }
                                    },
                                }
                            }
                        },
                        x => Err(SpecError::Unexpected(x)),
                    }
                }
            },
            x => Err(SpecError::Unexpected(x)),
        }
    }
}

/// `typedef T alias;` with `p` at `T`: `alias` becomes another name of the
/// type `T` stands for, written `type alias = R;` unless `alias` is already
/// its Rust name `R`. The output and the new table.
pub open spec fn spec_typedef(ts: Seq<SpecToken>, p: int, types: Seq<SpecType>, out: Seq<char>)
    -> Result<(Seq<char>, Seq<SpecType>), SpecError>
{
    if p < 0 || p >= ts.len() {
        Err(SpecError::Eof)
    } else {
        match ts[p] {
            SpecToken::Name(tn) => match find_c(types, tn) {
                None => Err(SpecError::UnknownType(tn)),
                Some(i) => {
                    let t = resolve(types, i);
                    if p + 1 >= ts.len() {
                        Err(SpecError::Eof)
                    } else {
                        match ts[p + 1] {
                            SpecToken::Name(alias) => {
                                if p + 2 >= ts.len() {
                                    Err(SpecError::Eof)
                                } else if !(ts[p + 2] is Semicolon) {
                                    Err(SpecError::Unexpected(ts[p + 2]))
                                } else if find_c(types, alias) is Some {
                                    Err(SpecError::DuplicateType(alias))
                                } else {
                                    let types2 = types.push(SpecType { c_name: alias, data: SpecTypeType::Alias { id: t as TypeID } });
                                    let r = rust_name_of(types, t);
                                    let out2 = if alias != r { out + "type "@ + alias + " = "@ + r + ";\n"@ } else { out };
                                    Ok((out2, types2))
                                }
                            },
                            x => Err(SpecError::Unexpected(x)),
                        }
                    }
                },
            },
            x => Err(SpecError::Unexpected(x)),
        }
    }
}

pub proof fn lemma_params_pos(ts: Seq<SpecToken>, p: int, types: Seq<SpecType>, out: Seq<char>, lets: Seq<SpecLet>)
    ensures
        spec_params(ts, p, types, out, lets) matches Ok((q, o, l)) ==> p < q <= ts.len(),
    decreases ts.len() - p,
{
    if 0 <= p < ts.len() && p + 2 < ts.len() {
        if let (SpecToken::Name(tn), SpecToken::Name(pn)) = (ts[p], ts[p + 1]) {
            if let Some(i) = find_c(types, tn) {
                let t = resolve(types, i);
                lemma_params_pos(ts, p + 3, types, out + pn + ": "@ + rust_name_of(types, t) + ", "@,
                    lets.push(SpecLet { name: pn, ty: t as TypeID }));
            }
        }
    }
}

pub proof fn lemma_body_pos(
    ts: Seq<SpecToken>,
    p: int,
    types: Seq<SpecType>,
    lets: Seq<SpecLet>,
    ops: Seq<SpecOp>,
    ret: Seq<char>,
    out: Seq<char>,
)
    ensures
        spec_body(ts, p, types, lets, ops, ret, out) matches Ok((r, o)) ==> p < r <= ts.len(),
    decreases ts.len() - p,
{
    if 0 <= p < ts.len() {
        match ts[p] {
            SpecToken::Name(x) => {
                if x == "return"@ {
                    lemma_expression_pos(ts, p + 1, lets, ops);
                    if let Ok((rop, q)) = spec_expression(ts, p + 1, lets, ops) {
                        if let Ok(v) = spec_return_value(types, rop, find_rust(types, ret).unwrap()) {
                            lemma_body_pos(ts, q, types, lets, ops, ret, out.push('\t') + "return "@ + v + seq![';']);
                        }
                    }
                }
            },
            SpecToken::Tab => lemma_body_pos(ts, p + 1, types, lets, ops, ret, out),
            SpecToken::Newline => lemma_body_pos(ts, p + 1, types, lets, ops, ret, out),
            _ => {},
        }
    }
}

pub proof fn lemma_function_pos(
    ts: Seq<SpecToken>,
    p: int,
    types: Seq<SpecType>,
    lets: Seq<SpecLet>,
    ops: Seq<SpecOp>,
    ret: Seq<char>,
    out: Seq<char>,
)
    ensures
        spec_function(ts, p, types, lets, ops, ret, out) matches Ok((r, o, l)) ==> p < r <= ts.len(),
{
    if 0 <= p && p + 2 < ts.len() {
        if let SpecToken::Name(fname) = ts[p] {
            let out2 = (out + "fn "@ + fname).push('(');
            lemma_params_pos(ts, p + 2, types, out2, lets);
            let params = if ts[p + 2] is RParent {
                Ok::<(int, Seq<char>, Seq<SpecLet>), SpecError>((p + 2, out2, lets))
            } else {
                spec_params(ts, p + 2, types, out2, lets)
            };
            if let Ok((q, out3, lets2)) = params {
                lemma_body_pos(ts, q + 1, types, lets2, ops, ret, pop_char(pop_char(out3)) + ") -> "@ + ret + " {\n"@);
            }
        }
    }
}

/// Translating the tokens from `p` on: functions (a type name first) and
/// `typedef`s are translated, other names skipped, newlines kept; anything
/// else is an error. The values of parameters stay known from one function
/// to the next.
pub open spec fn spec_translate(
    ts: Seq<SpecToken>,
    p: int,
    types: Seq<SpecType>,
    lets: Seq<SpecLet>,
    ops: Seq<SpecOp>,
    out: Seq<char>,
) -> Result<Seq<char>, SpecError>
    decreases ts.len() - p,
{
    if p < 0 || p >= ts.len() {
        Ok(out)
    } else {
        match ts[p] {
            SpecToken::Name(name) => match find_c(types, name) {
                Some(i) => match spec_function(ts, p + 1, types, lets, ops, rust_name_of(types, i), out) {
                    Err(e) => Err(e),
                    Ok((q, out2, lets2)) => {
                        proof { lemma_function_pos(ts, p + 1, types, lets, ops, rust_name_of(types, i), out); }
                        spec_translate(ts, q, types, lets2, ops, out2)
                    },
                },
                None => if name == "typedef"@ {
                    match spec_typedef(ts, p + 1, types, out) {
                        Err(e) => Err(e),
                        Ok((out2, types2)) => spec_translate(ts, p + 4, types2, lets, ops, out2),
                    }
                } else {
                    spec_translate(ts, p + 1, types, lets, ops, out)
                },
            },
            SpecToken::Newline => spec_translate(ts, p + 1, types, lets, ops, out.push('\n')),
            x => Err(SpecError::Unexpected(x)),
        }
    }
}

/// The state the translation keeps: a table with the built-ins, values of
/// types in the table, and operators that are well formed and give built-in
/// types.
pub open spec fn state_ok(types: Seq<SpecType>, lets: Seq<SpecLet>, ops: Seq<SpecOp>) -> bool {
    &&& types_ok(types)
    &&& lets_bounded(lets, types.len() as int)
    &&& ops_wf(ops)
    &&& ops_bounded(ops, 16)
}

/// Some type in the table has the Rust name `name`.
proof fn lemma_find_rust_some(ts: Seq<SpecType>, name: Seq<char>, j: int)
    requires
        0 <= j < ts.len(),
        rust_name_of(ts, j) == name,
    ensures
        find_rust(ts, name) is Some,
{
    lemma_find_rust_from(ts, name, 0);
}

/// The C name of the type `tn` stands for, and its position; `Err` if `tn`
/// is not a type.
fn true_type<'a>(types: &'a Vec<Type>, tn: &Vec<char>) -> (r: Result<(&'a Vec<char>, TypeID), Error>)
    requires
        types_ok(types_view(types@)),
    ensures
        ({
            let tv = types_view(types@);
            match find_c(tv, tn@) {
                None => r matches Err(x) && x@ == SpecError::UnknownType(tn@),
                Some(i) => r matches Ok((name, t)) && t == resolve(tv, i) && name@ == tv[t as int].c_name
                    && find_c(tv, name@) == Some(t as int) && t < tv.len(),
            }
        }),
{
    let ghost tv = types_view(types@);
    if Type::rustify(types, tn).is_none() {
        return Err(Error::UnknownType(tn.clone()));
    }
    let name = Type::trueify(types, tn);
    proof {
        lemma_find_c(tv, tn@);
        let i = find_c(tv, tn@).unwrap();
        lemma_resolve(tv, i);
        lemma_find_c(tv, name@);
    }
    let t = Type::c2id(types, name);
    Ok((name, t))
}

/// Reads the parameters of a function, the cursor at the first one.
fn parse_params(it: &mut SmartIter, code: &Code, types: &Vec<Type>, result: &mut Vec<char>, lets: &mut Vec<Let>) -> (r: Result<(), Error>)
    requires
        types_ok(types_view(types@)),
        lets_bounded(lets_view(old(lets)@), types@.len() as int),
    ensures
        match spec_params(code@, old(it).0 as int, types_view(types@), old(result)@, lets_view(old(lets)@)) {
            Ok((q, out, ls)) => r is Ok && final(it).0 == q && final(result)@ == out && lets_view(final(lets)@) == ls,
            Err(e) => r matches Err(x) && x@ == e,
        },
        r is Ok ==> lets_bounded(lets_view(final(lets)@), types@.len() as int),
{
    let ghost ts = code@;
    let ghost tv = types_view(types@);
    let ghost p0 = it.0 as int;
    loop
        invariant
            ts == code@,
            tv == types_view(types@),
            types_ok(tv),
            lets_bounded(lets_view(lets@), types@.len() as int),
            spec_params(ts, p0, tv, old(result)@, lets_view(old(lets)@))
                == spec_params(ts, it.0 as int, tv, result@, lets_view(lets@)),
            p0 == old(it).0,
        decreases ts.len() - it.0,
    {
        let ghost p = it.0 as int;
        let tn = match it.next(code) {
            None => return Err(Error::Eof),
            Some(t) => match t.expect_value(TokenStr::Name) {
                Err(e) => return Err(e),
                Ok(x) => x,
            },
        };
        let (ty, t) = match true_type(types, tn) {
            Err(e) => return Err(e),
            Ok(x) => x,
        };
        let pname = match it.next(code) {
            None => return Err(Error::Eof),
            Some(x) => match x.expect_value(TokenStr::Name) {
                Err(e) => return Err(e),
                Ok(x) => x,
            },
        };
        push_chars(result, pname);
        push_str(result, ": ");
        let rust = match Type::rustify(types, ty) {
            Some(n) => n,
            None => {
                proof { assert(false); }
                return Err(Error::Eof);
            },
        };
        push_chars(result, rust);
        push_str(result, ", ");
        let ghost lv = lets_view(lets@);
        lets.push(Let { name: pname.clone(), ty: t });
        proof {
            assert(lets_view(lets@) =~= lv.push(SpecLet { name: pname@, ty: t }));
            assert(lets_bounded(lets_view(lets@), types@.len() as int)) by {
                assert forall|k: int| 0 <= k < lets_view(lets@).len() implies (#[trigger] lets_view(lets@)[k]).ty < types@.len() by {
                    if k < lv.len() {
                        assert(lets_view(lets@)[k] == lv[k]);
                    }
                }
            }
        }
        match it.next(code) {
            None => return Err(Error::Eof),
            Some(Token::Comma) => {},
            Some(Token::RParent) => return Ok(()),
            Some(x) => return Err(x.panic()),
        }
    }
}

/// Translates a function body, the cursor just after its `{`.
fn translate_body(
    it: &mut SmartIter,
    code: &Code,
    types: &Vec<Type>,
    lets: &Vec<Let>,
    ops: &Vec<Op>,
    ret: &Vec<char>,
    result: &mut Vec<char>,
) -> (r: Result<(), Error>)
    requires
        state_ok(types_view(types@), lets_view(lets@), ops_view(ops@)),
        find_rust(types_view(types@), ret@) is Some,
    ensures
        match spec_body(code@, old(it).0 as int, types_view(types@), lets_view(lets@), ops_view(ops@), ret@, old(result)@) {
            Ok((q, out)) => r is Ok && final(it).0 == q && final(result)@ == out,
            Err(e) => r matches Err(x) && x@ == e,
        },
{
    let ghost ts = code@;
    let ghost tv = types_view(types@);
    let ghost p0 = it.0 as int;
    let ret_word = str_chars("return");
    loop
        invariant
            ts == code@,
            tv == types_view(types@),
            ret_word@ == "return"@,
            state_ok(tv, lets_view(lets@), ops_view(ops@)),
            find_rust(tv, ret@) is Some,
            spec_body(ts, p0, tv, lets_view(lets@), ops_view(ops@), ret@, old(result)@)
                == spec_body(ts, it.0 as int, tv, lets_view(lets@), ops_view(ops@), ret@, result@),
            p0 == old(it).0,
        decreases ts.len() - it.0,
    {
        let ghost p = it.0 as int;
        let ghost out0 = result@;
        match it.next(code) {
            None => return Err(Error::Eof),
            Some(Token::Name(x)) => {
                if !chars_eq(x, &ret_word) {
                    return Err(Error::Unexpected(Token::Name(x.clone())));
                }
                result.push('\t');
                proof {
                    lemma_expression(ts, p + 1, lets_view(lets@), ops_view(ops@), tv.len() as int);
                    lemma_expression_pos(ts, p + 1, lets_view(lets@), ops_view(ops@));
                }
                let rop = match expression(it, code, lets, ops, types) {
                    Err(Error::Eof) => return Err(Error::MissingSemicolon),
                    Err(e) => return Err(e),
                    Ok(l) => l,
                };
                let ty = Type::rust2id(types, ret);
                proof { lemma_find_rust_from(tv, ret@, 0); }
                let converts: Vec<TypeConvert> = Vec::new();
                assert(converts_view(converts@) =~= Seq::empty());
                let value = if rop.ty != ty {
                    match Type::convert(types, &converts, rop.ty, ty, &rop.name) {
                        None => return Err(Error::NotConvertible(rop.ty, ty)),
                        Some(n) => n,
                    }
                } else {
                    rop.name
                };
                push_str(result, "return ");
                push_chars(result, &value);
                result.push(';');
                proof {
                    let q = it.0 as int;
                    let ghost rv = spec_expression(ts, p + 1, lets_view(lets@), ops_view(ops@));
                    assert(rv matches Ok((l, qq)) && qq == q);
                    assert(spec_return_value(tv, rv->Ok_0.0, find_rust(tv, ret@).unwrap()) == Ok::<Seq<char>, SpecError>(value@));
                    assert(result@ =~= out0.push('\t') + "return "@ + value@ + seq![';']);
                    assert(spec_body(ts, p, tv, lets_view(lets@), ops_view(ops@), ret@, out0)
                        == spec_body(ts, q, tv, lets_view(lets@), ops_view(ops@), ret@, result@));
                }
            },
            Some(Token::Tab) => {},
            Some(Token::Newline) => {},
            Some(Token::RFigure) => return Ok(()),
            Some(x) => return Err(x.panic()),
        }
    }
}

/// Translates a function, the cursor at its name; `ret` is the Rust name of
/// its return type.
fn translate_function(
    it: &mut SmartIter,
    code: &Code,
    types: &Vec<Type>,
    lets: &mut Vec<Let>,
    ops: &Vec<Op>,
    ret: &Vec<char>,
    result: &mut Vec<char>,
) -> (r: Result<(), Error>)
    requires
        state_ok(types_view(types@), lets_view(old(lets)@), ops_view(ops@)),
        find_rust(types_view(types@), ret@) is Some,
    ensures
        match spec_function(code@, old(it).0 as int, types_view(types@), lets_view(old(lets)@), ops_view(ops@), ret@, old(result)@) {
            Ok((q, out, ls)) => r is Ok && final(it).0 == q && final(result)@ == out && lets_view(final(lets)@) == ls,
            Err(e) => r matches Err(x) && x@ == e,
        },
        r is Ok ==> state_ok(types_view(types@), lets_view(final(lets)@), ops_view(ops@)),
{
    let name = match it.next(code) {
        None => return Err(Error::Eof),
        Some(t) => match t.expect_value(TokenStr::Name) {
            Err(e) => return Err(e),
            Ok(x) => x,
        },
    };
    push_str(result, "fn ");
    push_chars(result, name);
    match it.next(code) {
        None => return Err(Error::Eof),
        Some(Token::LParent) => {},
        Some(x) => return Err(x.panic()),
    }
    result.push('(');
    let params_follow = match it.check(code) {
        None => return Err(Error::Eof),
        Some(t) => !matches!(t, Token::RParent),
    };
    if params_follow {
        match parse_params(it, code, types, result, lets) {
            Err(e) => return Err(e),
            Ok(()) => {},
        }
    }
    result.pop();
    result.pop();
    match it.next(code) {
        None => return Err(Error::Eof),
        Some(t) => match t.expect_punct(Token::LFigure) {
            Err(e) => return Err(e),
            Ok(()) => {},
        },
    }
    push_str(result, ") -> ");
    push_chars(result, ret);
    push_str(result, " {\n");
    match translate_body(it, code, types, lets, ops, ret, result) {
        Err(e) => return Err(e),
        Ok(()) => {},
    }
    push_str(result, "\n}");
    Ok(())
}

/// Translates `typedef T alias;`, the cursor at `T`.
fn translate_typedef(it: &mut SmartIter, code: &Code, types: &mut Vec<Type>, result: &mut Vec<char>) -> (r: Result<(), Error>)
    requires
        types_ok(types_view(old(types)@)),
    ensures
        match spec_typedef(code@, old(it).0 as int, types_view(old(types)@), old(result)@) {
            Ok((out, tv)) => r is Ok && final(it).0 == old(it).0 + 3 && final(result)@ == out && types_view(final(types)@) == tv,
            Err(e) => r matches Err(x) && x@ == e,
        },
        r is Ok ==> types_ok(types_view(final(types)@)),
        r is Ok ==> final(types)@.len() == old(types)@.len() + 1,
{
    let ghost tv0 = types_view(types@);
    let tn = match it.next(code) {
        None => return Err(Error::Eof),
        Some(t) => match t.expect_value(TokenStr::Name) {
            Err(e) => return Err(e),
            Ok(x) => x,
        },
    };
    let (ty, t) = match true_type(types, tn) {
        Err(e) => return Err(e),
        Ok((n, t)) => (n.clone(), t),
    };
    let alias = match it.next(code) {
        None => return Err(Error::Eof),
        Some(x) => match x.expect_value(TokenStr::Name) {
            Err(e) => return Err(e),
            Ok(x) => x,
        },
    };
    match it.next(code) {
        None => return Err(Error::Eof),
        Some(x) => match x.expect_punct(Token::Semicolon) {
            Err(e) => return Err(e),
            Ok(()) => {},
        },
    }
    if Type::rustify(types, alias).is_some() {
        return Err(Error::DuplicateType(alias.clone()));
    }
    Type::add_alias(types, alias.clone(), t);
    proof {
        let tv = types_view(types@);
        lemma_push_resolve(tv0, tv[tv.len() - 1], t as int);
        lemma_find_c(tv, ty@);
        assert(tv[t as int] == tv0[t as int]);
        lemma_resolve(tv0, t as int);
        assert(types_ok(tv)) by {
            assert forall|i: int| 0 <= i < 16 implies #[trigger] types::is_builtin(tv[i], i) by {
                assert(tv[i] == tv0[i]);
                assert(types::is_builtin(tv0[i], i));
            }
        }
    }
    let rust = match Type::rustify(types, &ty) {
        Some(n) => n.clone(),
        None => {
            proof { assert(false); }
            return Err(Error::Eof);
        },
    };
    if !chars_eq(alias, &rust) {
        push_str(result, "type ");
        push_chars(result, alias);
        push_str(result, " = ");
        push_chars(result, &rust);
        push_str(result, ";\n");
    }
    Ok(())
}

/// Translates one item: a function, a `typedef`, a skipped name or a newline.
/// `Ok(true)` at the end of the tokens.
fn translate_step(
    it: &mut SmartIter,
    code: &Code,
    types: &mut Vec<Type>,
    lets: &mut Vec<Let>,
    ops: &Vec<Op>,
    result: &mut Vec<char>,
) -> (r: Result<bool, Error>)
    requires
        state_ok(types_view(old(types)@), lets_view(old(lets)@), ops_view(ops@)),
        old(it).0 <= code@.len(),
    ensures
        ({
            let before = spec_translate(code@, old(it).0 as int, types_view(old(types)@), lets_view(old(lets)@), ops_view(ops@), old(result)@);
            match r {
                Ok(true) => before == Ok::<Seq<char>, SpecError>(final(result)@),
                Ok(false) => {
                    &&& before == spec_translate(code@, final(it).0 as int, types_view(final(types)@), lets_view(final(lets)@), ops_view(ops@), final(result)@)
                    &&& old(it).0 < final(it).0 <= code@.len()
                    &&& state_ok(types_view(final(types)@), lets_view(final(lets)@), ops_view(ops@))
                },
                Err(x) => before == Err::<Seq<char>, SpecError>(x@),
            }
        }),
{
    let ghost ts = code@;
    let ghost p = it.0 as int;
    let ghost tv = types_view(types@);
    match it.next(code) {
        None => Ok(true),
        Some(Token::Name(name)) => {
            match Type::rustify(types, name) {
                Some(rt) => {
                    let ret = rt.clone();
                    proof {
                        lemma_find_c(tv, name@);
                        lemma_find_rust_some(tv, ret@, find_c(tv, name@).unwrap());
                        lemma_function_pos(ts, p + 1, tv, lets_view(lets@), ops_view(ops@), ret@, result@);
                    }
                    match translate_function(it, code, types, lets, ops, &ret, result) {
                        Err(e) => Err(e),
                        Ok(()) => Ok(false),
                    }
                },
                None => {
                    if chars_eq(name, &str_chars("typedef")) {
                        let ghost lv = lets_view(lets@);
                        match translate_typedef(it, code, types, result) {
                            Err(e) => return Err(e),
                            Ok(()) => {},
                        }
                        proof {
                            assert(lets_bounded(lv, types@.len() as int)) by {
                                assert forall|k: int| 0 <= k < lv.len() implies (#[trigger] lv[k]).ty < types@.len() by {}
                            }
                        }
                        Ok(false)
                    } else {
                        Ok(false)
                    }
                },
            }
        },
        Some(Token::Newline) => {
            result.push('\n');
            Ok(false)
        },
        Some(x) => Err(x.panic()),
    }
}

/// Translates the tokens with the given table and operators.
fn translate(code: &Code, types: &mut Vec<Type>, ops: &Vec<Op>) -> (r: Result<Vec<char>, Error>)
    requires
        state_ok(types_view(old(types)@), Seq::empty(), ops_view(ops@)),
    ensures
        match spec_translate(code@, 0, types_view(old(types)@), Seq::empty(), ops_view(ops@), Seq::empty()) {
            Ok(out) => r matches Ok(v) && v@ == out,
            Err(e) => r matches Err(x) && x@ == e,
        },
{
    let ghost ts = code@;
    let ghost tv0 = types_view(types@);
    let mut it = SmartIter::new();
    let mut result: Vec<char> = Vec::new();
    let mut lets: Vec<Let> = Vec::new();
    assert(lets_view(lets@) =~= Seq::<SpecLet>::empty());
    assert(result@ =~= Seq::<char>::empty());
    loop
        invariant
            ts == code@,
            tv0 == types_view(old(types)@),
            it.0 <= ts.len(),
            state_ok(types_view(types@), lets_view(lets@), ops_view(ops@)),
            spec_translate(ts, 0, tv0, Seq::empty(), ops_view(ops@), Seq::empty())
                == spec_translate(ts, it.0 as int, types_view(types@), lets_view(lets@), ops_view(ops@), result@),
        decreases ts.len() - it.0,
    {
        match translate_step(&mut it, code, types, &mut lets, ops, &mut result) {
            Err(e) => return Err(e),
            Ok(true) => return Ok(result),
            Ok(false) => {},
        }
    }
}

/// The built-in operators are well formed and give built-in types.
proof fn lemma_builtin_ops()
    ensures
        ops_wf(builtin_ops()),
        ops_bounded(builtin_ops(), 16),
{
    let b = builtin_ops();
    assert forall|i: int| 0 <= i < b.len() implies ops::types::op_wf(#[trigger] b[i]) && b[i].ret < 16 by {
        if i < 8 {
        } else if i < 12 {
        } else if i < 20 {
        } else if i < 28 {
        } else if i < 36 {
        } else if i < 44 {
        } else {
        }
    }
}

/// Whether the preprocessor stops on the tokens of `code` (once type words are joined).
pub open spec fn start_halts(code: Seq<SpecToken>) -> bool {
    pp_halts(pp_start(merge_type_words(code), Seq::empty()))
}

/// Translating C tokens to Rust: join two-word type names and `&&`, run
/// the preprocessor (stopping early where the tokens end inside a
/// directive), then translate with the built-in types and operators.
pub open spec fn spec_start(code: Seq<SpecToken>) -> Result<Seq<char>, SpecError> {
    let (s, res) = pp_result(pp_start(merge_type_words(code), Seq::empty()));
    match res {
        Err(SpecError::Eof) => spec_translate(s.code, 0, builtin_table(), Seq::empty(), builtin_ops(), Seq::empty()),
        Err(e) => Err(e),
        Ok(()) => spec_translate(s.code, 0, builtin_table(), Seq::empty(), builtin_ops(), Seq::empty()),
    }
}

/// Translates the tokens of a C source to Rust source text.
pub fn start(code: Vec<Token>) -> (r: Result<Vec<char>, Error>)
    requires
        start_halts(tokens_view(code@)),
    ensures
        match spec_start(tokens_view(code@)) {
            Ok(out) => r matches Ok(v) && v@ == out,
            Err(e) => r matches Err(x) && x@ == e,
        },
{
    let mut c = Code::new();
    c.set(code);
    let mut types: Vec<Type> = Vec::new();
    assert(types_view(types@) =~= Seq::<SpecType>::empty());
    Type::init(&mut c, &mut types);
    let mut ops: Vec<Op> = Vec::new();
    init(&mut ops, &types);
    let mut macros: Vec<Macro> = Vec::new();
    assert(macros_view(macros@) =~= Seq::<preprocessor::SpecMacro>::empty());
    match preprocess(&mut c, &mut macros, SystemPath::default()) {
        Ok(()) => {},
        Err(Error::Eof) => {},
        Err(e) => return Err(e),
    }
    proof {
        lemma_builtin_ops();
        assert(lets_bounded(Seq::empty(), 16));
    }
    translate(&c, &mut types, &ops)
}

} // verus!
