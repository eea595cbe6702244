//! Expressions: operators and their evaluation.

pub mod init;
pub mod types;

use vstd::prelude::*;

use self::types::{
    Fix, Op, OpTemplate, Operand, Operator, Order, SpecOp, SpecOperator, SpecTemplate, apply_template, op_wf,
    operands_view, operators_view, ops_view,
};
use super::ty::{Code, Let, SmartIter, SpecLet, lets_view};
use super::types::{Type, types_view, TypeID, builtin_c_name, lemma_builtin_find, types_ok};
use crate::error::{Error, SpecError};
use crate::text::{push_chars, str_chars};
use crate::token::{SpecToken, Token, chars_eq};

verus! {

/// Every character is an ASCII decimal digit.
pub open spec fn all_digits(s: Seq<char>) -> bool {
    forall|k: int| 0 <= k < s.len() ==> '0' <= #[trigger] s[k] <= '9'
}

/// The value of a string of decimal digits.
pub open spec fn digits_value(s: Seq<char>) -> int
    decreases s.len(),
{
    if s.len() == 0 {
        0
    } else {
        digits_value(s.drop_last()) * 10 + (s.last() as int - '0' as int)
    }
}

/// What `i128`'s `from_str` gives for `s`: an optional sign, then at least one
/// decimal digit, the value within range.
pub open spec fn parse_i128(s: Seq<char>) -> Option<int> {
    if s.len() > 0 && (s[0] == '+' || s[0] == '-') {
        let d = s.drop_first();
        let v = if s[0] == '-' { -digits_value(d) } else { digits_value(d) };
        if d.len() > 0 && all_digits(d) && i128::MIN <= v <= i128::MAX {
            Some(v)
        } else {
            None
        }
    } else if s.len() > 0 && all_digits(s) && digits_value(s) <= i128::MAX {
        Some(digits_value(s))
    } else {
        None
    }
}

/// The type given to a number literal of value `n`: the built-in type of the
/// first range that holds it (`signed char` up to 128, `short`, `int`,
/// `long` for the negative rest, then the unsigned types).
pub open spec fn number_class(n: int) -> TypeID {
    if -128 <= n <= 128 {
        0
    } else if -32768 <= n <= 32767 {
        11
    } else if -2147483648 <= n <= 2147483647 {
        12
    } else if n < 0 {
        13
    } else if n <= 255 {
        1
    } else if n <= 65535 {
        3
    } else if n <= 4294967295 {
        5
    } else {
        7
    }
}

/// The type of the number literal `v`, if it is a 128-bit integer.
pub open spec fn spec_number_ty(v: Seq<char>) -> Option<TypeID> {
    match parse_i128(v) {
        Some(n) => Some(number_class(n)),
        None => None,
    }
}

proof fn lemma_digits_value_nonneg(s: Seq<char>)
    requires
        all_digits(s),
    ensures
        digits_value(s) >= 0,
    decreases s.len(),
{
    if s.len() > 0 {
        assert(all_digits(s.drop_last())) by {
            assert forall|k: int| 0 <= k < s.drop_last().len() implies '0' <= #[trigger] s.drop_last()[k] <= '9' by {
                assert(s.drop_last()[k] == s[k]);
            }
        }
        lemma_digits_value_nonneg(s.drop_last());
        assert('0' <= s[s.len() - 1] <= '9');
    }
}

proof fn lemma_digits_value_grows(s: Seq<char>, k: int)
    requires
        all_digits(s),
        0 <= k <= s.len(),
    ensures
        digits_value(s.take(k)) <= digits_value(s),
    decreases s.len() - k,
{
    if k < s.len() {
        let t = s.take(k + 1);
        assert(t.drop_last() =~= s.take(k));
        assert(all_digits(s.take(k))) by {
            assert forall|m: int| 0 <= m < s.take(k).len() implies '0' <= #[trigger] s.take(k)[m] <= '9' by {
                assert(s.take(k)[m] == s[m]);
            }
        }
        lemma_digits_value_nonneg(s.take(k));
        assert('0' <= s[k] <= '9');
        assert(t.last() == s[k]);
        lemma_digits_value_grows(s, k + 1);
    } else {
        assert(s.take(k) =~= s);
    }
}

/// The value of the decimal digits of `d`, if all are digits and the value is
/// at most `limit`.
fn digits_upto(d: &Vec<char>, start: usize, limit: u128) -> (r: Option<u128>)
    requires
        start <= d.len(),
    ensures
        ({
            let s = d@.skip(start as int);
            &&& r matches Some(v) ==> all_digits(s) && v == digits_value(s) && v <= limit
            &&& r is None ==> !all_digits(s) || digits_value(s) > limit
        }),
{
    let ghost s = d@.skip(start as int);
    let mut acc: u128 = 0;
    let mut i: usize = start;
    assert(s.take(0) =~= Seq::<char>::empty());
    while i < d.len()
        invariant
            start <= i <= d.len(),
            s == d@.skip(start as int),
            all_digits(s.take(i - start)),
            acc == digits_value(s.take(i - start)),
            acc <= limit,
        decreases d.len() - i,
    {
        let c = d[i];
        let ghost j = i - start;
        assert(s[j] == c);
        assert(s.take(j + 1).drop_last() =~= s.take(j));
        assert(s.take(j + 1).last() == c);
        if c < '0' || c > '9' {
            return None;
        }
        let digit = (c as u32 - '0' as u32) as u128;
        assert(all_digits(s.take(j + 1))) by {
            assert forall|m: int| 0 <= m < j + 1 implies '0' <= #[trigger] s.take(j + 1)[m] <= '9' by {
                if m < j {
                    assert(s.take(j + 1)[m] == s.take(j)[m]);
                }
            }
        }
        let next = match acc.checked_mul(10) {
            Some(x) => x.checked_add(digit),
            None => None,
        };
        match next {
            Some(v) if v <= limit => {
                acc = v;
            },
            _ => {
                proof {
                    if all_digits(s) {
                        lemma_digits_value_grows(s, j + 1);
                    }
                }
                return None;
            },
        }
        i += 1;
    }
    assert(s.take(d.len() - start) =~= s);
    Some(acc)
}

/// `v` as an `i128`, as `from_str` reads it.
fn parse_number(v: &Vec<char>) -> (r: Option<i128>)
    ensures
        r matches Some(n) ==> parse_i128(v@) == Some(n as int),
        r is None ==> parse_i128(v@) is None,
{
    if v.len() == 0 {
        return None;
    }
    let max: u128 = 0x7fff_ffff_ffff_ffff_ffff_ffff_ffff_ffff;
    if v[0] == '+' || v[0] == '-' {
        let neg = v[0] == '-';
        assert(v@.skip(1) =~= v@.drop_first());
        if v.len() == 1 {
            return None;
        }
        let limit: u128 = if neg { max + 1 } else { max };
        match digits_upto(v, 1, limit) {
            None => None,
            Some(a) => {
                if neg {
                    if a == max + 1 {
                        Some(i128::MIN)
                    } else {
                        Some(-(a as i128))
                    }
                } else {
                    Some(a as i128)
                }
            },
        }
    } else {
        assert(v@.skip(0) =~= v@);
        match digits_upto(v, 0, max) {
            None => None,
            Some(a) => Some(a as i128),
        }
    }
}

/// The type of the number literal `v`, or `None` if it is not a 128-bit
/// integer.
fn number_ty(types: &Vec<Type>, v: &Vec<char>) -> (r: Option<TypeID>)
    requires
        types_ok(types_view(types@)),
    ensures
        r == spec_number_ty(v@),
{
    let n = match parse_number(v) {
        None => return None,
        Some(n) => n,
    };
    let name = if n >= -128 && n <= 128 {
        str_chars("signed char")
    } else if n >= -32768 && n <= 32767 {
        str_chars("short")
    } else if n >= -2147483648 && n <= 2147483647 {
        str_chars("int")
    } else if n < 0 {
        str_chars("long")
    } else if n <= 255 {
        str_chars("unsigned char")
    } else if n <= 65535 {
        str_chars("unsigned short")
    } else if n <= 4294967295 {
        str_chars("unsigned int")
    } else {
        str_chars("unsigned long")
    };
    let ghost id = number_class(n as int);
    assert(name@ == builtin_c_name(id as int));
    proof { lemma_builtin_find(types_view(types@), id as int); }
    Some(Type::c2id(types, &name))
}

/// Whether operator `op` fits at position `k` for its operands from `kk` on:
/// each symbol of `op` matches the operator met there, each operand type the
/// operand there. `Err` where matching looks past the operators met.
pub open spec fn match_from(
    operands: Seq<SpecLet>,
    operators: Seq<SpecOperator>,
    op: SpecOp,
    k: int,
    kk: int,
) -> Result<bool, SpecError>
    decreases op.operands.len() - kk,
{
    if kk < 0 || kk >= op.operands.len() {
        Ok(true)
    } else {
        let part: Result<bool, SpecError> = if kk < op.parts.len() {
            if k + kk < operators.len() {
                Ok(operators[k + kk].data == op.parts[kk])
            } else {
                Err(SpecError::OperatorOutOfRange)
            }
        } else {
            Ok(true)
        };
        match part {
            Err(e) => Err(e),
            Ok(false) => Ok(false),
            Ok(true) => {
                if k + kk < operands.len() && operands[k + kk].ty == op.operands[kk] {
                    match_from(operands, operators, op, k, kk + 1)
                } else {
                    Ok(false)
                }
            },
        }
    }
}

/// Whether operator `op` fits at position `k`; a one-operand operator must
/// also have the fixity of the operator met there.
pub open spec fn match_at(operands: Seq<SpecLet>, operators: Seq<SpecOperator>, op: SpecOp, k: int) -> Result<bool, SpecError> {
    if op.operands.len() == 1 {
        if k >= operators.len() {
            Err(SpecError::OperatorOutOfRange)
        } else if op.fix != operators[k].fix {
            Ok(false)
        } else {
            match_from(operands, operators, op, k, 0)
        }
    } else {
        match_from(operands, operators, op, k, 0)
    }
}

/// The positions a left-grouping operator is tried at are `0..scan_end`:
/// all but the last operand (one if there is only one).
pub open spec fn scan_end(operands: Seq<SpecLet>) -> int {
    if operands.len() == 1 { 1 } else { operands.len() - 1 }
}

/// The value `op` makes from its operands at position `k`.
pub open spec fn value_at(operands: Seq<SpecLet>, op: SpecOp, k: int) -> SpecLet {
    SpecLet { name: apply_template(op.make, operands.subrange(k, k + op.operands.len())), ty: op.ret }
}

/// Trying a left-grouping `op` from position `k` on, left to right: the
/// value it makes at the first position it fits, if any.
pub open spec fn eval_from(operands: Seq<SpecLet>, operators: Seq<SpecOperator>, op: SpecOp, k: int) -> Result<Option<SpecLet>, SpecError>
    decreases scan_end(operands) - k,
{
    if k < 0 || k >= scan_end(operands) {
        Ok(None)
    } else {
        match match_at(operands, operators, op, k) {
            Err(e) => Err(e),
            Ok(true) => Ok(Some(value_at(operands, op, k))),
            Ok(false) => eval_from(operands, operators, op, k + 1),
        }
    }
}

/// Trying a right-grouping `op` from position `k` down to the first, right
/// to left: the value it makes at the last position it fits, if any.
pub open spec fn eval_back(operands: Seq<SpecLet>, operators: Seq<SpecOperator>, op: SpecOp, k: int) -> Result<Option<SpecLet>, SpecError>
    decreases k + 1,
{
    if k < 0 || k >= operands.len() {
        Ok(None)
    } else {
        match match_at(operands, operators, op, k) {
            Err(e) => Err(e),
            Ok(true) => Ok(Some(value_at(operands, op, k))),
            Ok(false) => eval_back(operands, operators, op, k - 1),
        }
    }
}

/// Applying `op` once: a left-grouping operator at the first position it
/// fits (`a op b op c` is `(a op b) op c`), a right-grouping one at the last
/// position where all its operands are there (`a op (b op c)`).
pub open spec fn eval_one(operands: Seq<SpecLet>, operators: Seq<SpecOperator>, op: SpecOp) -> Result<Option<SpecLet>, SpecError> {
    if op.order == Order::Left {
        eval_from(operands, operators, op, 0)
    } else {
        eval_back(operands, operators, op, operands.len() - op.operands.len())
    }
}

proof fn lemma_eval_from_at(operands: Seq<SpecLet>, operators: Seq<SpecOperator>, op: SpecOp, s: int, k: int)
    requires
        0 <= s <= k < scan_end(operands),
        match_at(operands, operators, op, k) == Ok::<bool, SpecError>(true),
        forall|j: int| s <= j < k ==> #[trigger] match_at(operands, operators, op, j) == Ok::<bool, SpecError>(false),
    ensures
        eval_from(operands, operators, op, s) == Ok::<Option<SpecLet>, SpecError>(Some(value_at(operands, op, k))),
    decreases k - s,
{
    if s < k {
        assert(match_at(operands, operators, op, s) == Ok::<bool, SpecError>(false));
        lemma_eval_from_at(operands, operators, op, s + 1, k);
    }
}

proof fn lemma_eval_back_at(operands: Seq<SpecLet>, operators: Seq<SpecOperator>, op: SpecOp, s: int, k: int)
    requires
        0 <= k <= s < operands.len(),
        match_at(operands, operators, op, k) == Ok::<bool, SpecError>(true),
        forall|j: int| k < j <= s ==> #[trigger] match_at(operands, operators, op, j) == Ok::<bool, SpecError>(false),
    ensures
        eval_back(operands, operators, op, s) == Ok::<Option<SpecLet>, SpecError>(Some(value_at(operands, op, k))),
    decreases s - k,
{
    if k < s {
        assert(match_at(operands, operators, op, s) == Ok::<bool, SpecError>(false));
        lemma_eval_back_at(operands, operators, op, s - 1, k);
    }
}

/// How an operator groups: a left-grouping operator applies at the first
/// position where it fits, so `a op b op c` is `(a op b) op c`; a
/// right-grouping operator applies at the last position where it fits,
/// its operands all there, so `a op b op c` is `a op (b op c)`.
pub proof fn law_operator_grouping(operands: Seq<SpecLet>, operators: Seq<SpecOperator>, op: SpecOp, k: int)
    requires
        op.operands.len() >= 1,
        match_at(operands, operators, op, k) == Ok::<bool, SpecError>(true),
    ensures
        op.order == Order::Left && 0 <= k < scan_end(operands)
            && (forall|j: int| 0 <= j < k ==> #[trigger] match_at(operands, operators, op, j) == Ok::<bool, SpecError>(false))
            ==> eval_one(operands, operators, op) == Ok::<Option<SpecLet>, SpecError>(Some(value_at(operands, op, k))),
        op.order == Order::Right && 0 <= k <= operands.len() - op.operands.len()
            && (forall|j: int| k < j <= operands.len() - op.operands.len()
                ==> #[trigger] match_at(operands, operators, op, j) == Ok::<bool, SpecError>(false))
            ==> eval_one(operands, operators, op) == Ok::<Option<SpecLet>, SpecError>(Some(value_at(operands, op, k))),
{
    if op.order == Order::Left && 0 <= k < scan_end(operands)
        && (forall|j: int| 0 <= j < k ==> #[trigger] match_at(operands, operators, op, j) == Ok::<bool, SpecError>(false)) {
        lemma_eval_from_at(operands, operators, op, 0, k);
    }
    if op.order == Order::Right && 0 <= k <= operands.len() - op.operands.len()
        && (forall|j: int| k < j <= operands.len() - op.operands.len()
            ==> #[trigger] match_at(operands, operators, op, j) == Ok::<bool, SpecError>(false)) {
        lemma_eval_back_at(operands, operators, op, operands.len() - op.operands.len(), k);
    }
}

/// Applying the operators from `idx` on, each as long as it fits; an
/// application takes off the first operands and the first operator (the last
/// ones for right grouping) and puts the value made in their place.
pub open spec fn reduce(ops: Seq<SpecOp>, idx: int, operands: Seq<SpecLet>, operators: Seq<SpecOperator>)
    -> Result<(Seq<SpecLet>, Seq<SpecOperator>), SpecError>
    decreases ops.len() - idx, operators.len(),
{
    if idx < 0 || idx >= ops.len() || operators.len() == 0 {
        Ok((operands, operators))
    } else {
        match eval_one(operands, operators, ops[idx]) {
            Err(e) => Err(e),
            Ok(None) => reduce(ops, idx + 1, operands, operators),
            Ok(Some(r)) => {
                let n = ops[idx].operands.len();
                if ops[idx].order == Order::Left {
                    let rest = if n <= operands.len() { operands.skip(n as int) } else { Seq::empty() };
                    reduce(ops, idx, seq![r] + rest, operators.drop_first())
                } else {
                    let kept = if n <= operands.len() { operands.take(operands.len() - n) } else { Seq::empty() };
                    reduce(ops, idx, kept.push(r), operators.drop_last())
                }
            },
        }
    }
}

/// The values among `lets` called `name`, in order.
pub open spec fn matching(lets: Seq<SpecLet>, name: Seq<char>) -> Seq<SpecLet>
    decreases lets.len(),
{
    if lets.len() == 0 {
        Seq::empty()
    } else {
        matching(lets.drop_last(), name) + if lets.last().name == name { seq![lets.last()] } else { Seq::empty() }
    }
}

/// Reading an expression from position `p` up to its `;`: names give the
/// values of that name, numbers a value of their type, any other token an
/// operator (prefix until the first operand, postfix after). The operands,
/// the operators and the position after the `;`.
pub open spec fn collect(
    ts: Seq<SpecToken>,
    p: int,
    lets: Seq<SpecLet>,
    operands: Seq<SpecLet>,
    operators: Seq<SpecOperator>,
    prev_was_operator: bool,
) -> Result<(Seq<SpecLet>, Seq<SpecOperator>, int), SpecError>
    decreases ts.len() - p,
{
    if p < 0 || p >= ts.len() {
        Err(SpecError::Eof)
    } else {
        match ts[p] {
            SpecToken::Semicolon => Ok((operands, operators, p + 1)),
            SpecToken::Name(name) => collect(ts, p + 1, lets, operands + matching(lets, name), operators, false),
            SpecToken::Number(v) => match spec_number_ty(v) {
                None => Err(SpecError::BadNumber(v)),
                Some(t) => collect(ts, p + 1, lets, operands.push(SpecLet { name: v, ty: t }), operators, false),
            },
            t => collect(
                ts,
                p + 1,
                lets,
                operands,
                operators.push(SpecOperator { data: t.text(), fix: if prev_was_operator { Fix::Prefix } else { Fix::Postfix } }),
                prev_was_operator,
            ),
        }
    }
}

/// The expression from position `p` up to its `;`: its value and the
/// position after the `;`.
pub open spec fn spec_expression(ts: Seq<SpecToken>, p: int, lets: Seq<SpecLet>, ops: Seq<SpecOp>) -> Result<(SpecLet, int), SpecError> {
    match collect(ts, p, lets, Seq::empty(), Seq::empty(), true) {
        Err(e) => Err(e),
        Ok((operands, operators, q)) => match reduce(ops, 0, operands, operators) {
            Err(e) => Err(e),
            Ok((o, r)) => if r.len() != 0 || o.len() != 1 {
                Err(SpecError::NoOverload)
            } else {
                Ok((o[0], q))
            },
        },
    }
}

/// Every operator of the table uses no more operands than it has.
pub open spec fn ops_wf(ops: Seq<SpecOp>) -> bool {
    forall|i: int| 0 <= i < ops.len() ==> op_wf(#[trigger] ops[i])
}

/// Whether `i` fits at position `k`.
fn match_at_exec(operands: &Vec<Operand>, operators: &Vec<Operator>, i: &Op, k: usize) -> (r: Result<bool, Error>)
    ensures
        match match_at(operands_view(operands@), operators_view(operators@), i@, k as int) {
            Ok(b) => r == Ok::<bool, Error>(b),
            Err(e) => r matches Err(x) && x@ == e,
        },
{
    let ghost os = operands_view(operands@);
    let ghost rs = operators_view(operators@);
    let n = i.operands.len();
    if n == 1 {
        if k >= operators.len() {
            return Err(Error::OperatorOutOfRange);
        }
        assert(rs[k as int] == operators@[k as int]@);
        if i.fix != operators[k].fix {
            return Ok(false);
        }
    }
    let mut kk: usize = 0;
    while kk < n
        invariant
            n == i@.operands.len(),
            kk <= n,
            os == operands_view(operands@),
            rs == operators_view(operators@),
            match_at(os, rs, i@, k as int) == match_from(os, rs, i@, k as int, 0),
            match_from(os, rs, i@, k as int, 0) == match_from(os, rs, i@, k as int, kk as int),
        decreases n - kk,
    {
        if kk < i.parts.len() {
            if k >= operators.len() || kk >= operators.len() - k {
                return Err(Error::OperatorOutOfRange);
            }
            assert(rs[k + kk] == operators@[k + kk]@);
            assert(i@.parts[kk as int] == i.parts@[kk as int]@);
            if !chars_eq(&operators[k + kk].data, &i.parts[kk]) {
                return Ok(false);
            }
        }
        if k >= operands.len() || kk >= operands.len() - k {
            return Ok(false);
        }
        assert(os[k + kk] == operands@[k + kk]@);
        if i.operands[kk] != operands[k + kk].ty() {
            return Ok(false);
        }
        kk += 1;
    }
    Ok(true)
}

/// The value `i` makes from its operands at position `k`.
fn value_at_exec(operands: &Vec<Operand>, i: &Op, k: usize) -> (r: Let)
    requires
        op_wf(i@),
        k + i@.operands.len() <= operands@.len(),
    ensures
        r@ == value_at(operands_view(operands@), i@, k as int),
{
    let ghost os = operands_view(operands@);
    let n = i.operands.len();
    let ghost args = os.subrange(k as int, k + n);
    let name = match &i.make {
        OpTemplate::Prefix(p) => {
            let mut out = p.clone();
            assert(os[k as int] == operands@[k as int]@);
            push_chars(&mut out, &operands[k].as_let().name);
            assert(args[0] == os[k as int]);
            out
        },
        OpTemplate::Infix(sym) => {
            assert(n >= 2);
            assert(n == i@.operands.len());
            assert(k + 1 < operands.len());
            let mut out: Vec<char> = Vec::new();
            assert(os[k as int] == operands@[k as int]@);
            assert(os[k + 1] == operands@[k + 1]@);
            push_chars(&mut out, &operands[k].as_let().name);
            out.push(' ');
            push_chars(&mut out, sym);
            out.push(' ');
            push_chars(&mut out, &operands[k + 1].as_let().name);
            assert(args[0] == os[k as int] && args[1] == os[k + 1]);
            assert(out@ =~= apply_template(i@.make, args));
            out
        },
    };
    Let { name, ty: i.ret }
}

/// Applies `i` once, at the first position it fits from the left for left
/// grouping, from the right for right grouping: the value it makes.
fn eval_one_expr(operands: &Vec<Operand>, operators: &Vec<Operator>, i: &Op) -> (r: Result<Option<Let>, Error>)
    requires
        op_wf(i@),
    ensures
        match eval_one(operands_view(operands@), operators_view(operators@), i@) {
            Ok(None) => r matches Ok(None),
            Ok(Some(l)) => r matches Ok(Some(x)) && x@ == l,
            Err(e) => r matches Err(x) && x@ == e,
        },
{
    let ghost os = operands_view(operands@);
    let ghost rs = operators_view(operators@);
    if i.order == Order::Left {
        let end: usize = if operands.len() == 1 {
            1
        } else if operands.len() == 0 {
            0
        } else {
            operands.len() - 1
        };
        assert(end as int == scan_end(os) || (end == 0 && scan_end(os) < 0));
        let mut k: usize = 0;
        while k < end
            invariant
                end as int == scan_end(os) || (end == 0 && scan_end(os) < 0),
                k <= end,
                os == operands_view(operands@),
                rs == operators_view(operators@),
                op_wf(i@),
                i@.order == Order::Left,
                eval_one(os, rs, i@) == eval_from(os, rs, i@, k as int),
            decreases end - k,
        {
            let fits = match match_at_exec(operands, operators, i, k) {
                Ok(b) => b,
                Err(e) => return Err(e),
            };
            if fits {
                proof { lemma_match_bounds(os, rs, i@, k as int); }
                return Ok(Some(value_at_exec(operands, i, k)));
            }
            k += 1;
        }
        Ok(None)
    } else {
        let n = i.operands.len();
        if n > operands.len() {
            return Ok(None);
        }
        let mut k: usize = operands.len() - n;
        loop
            invariant
                k < operands@.len(),
                os == operands_view(operands@),
                rs == operators_view(operators@),
                op_wf(i@),
                i@.order != Order::Left,
                eval_one(os, rs, i@) == eval_back(os, rs, i@, k as int),
            decreases k,
        {
            let fits = match match_at_exec(operands, operators, i, k) {
                Ok(b) => b,
                Err(e) => return Err(e),
            };
            if fits {
                proof { lemma_match_bounds(os, rs, i@, k as int); }
                return Ok(Some(value_at_exec(operands, i, k)));
            }
            if k == 0 {
                assert(eval_back(os, rs, i@, -1) == Ok::<Option<SpecLet>, SpecError>(None));
                return Ok(None);
            }
            k -= 1;
        }
    }
}

/// A fit at `k` means every operand the operator uses is there.
proof fn lemma_match_bounds(operands: Seq<SpecLet>, operators: Seq<SpecOperator>, op: SpecOp, k: int)
    requires
        0 <= k <= operands.len(),
        match_at(operands, operators, op, k) == Ok::<bool, SpecError>(true),
    ensures
        k + op.operands.len() <= operands.len(),
{
    lemma_match_from_bounds(operands, operators, op, k, 0);
}

proof fn lemma_match_from_bounds(operands: Seq<SpecLet>, operators: Seq<SpecOperator>, op: SpecOp, k: int, kk: int)
    requires
        0 <= k <= operands.len(),
        0 <= kk <= op.operands.len(),
        match_from(operands, operators, op, k, kk) == Ok::<bool, SpecError>(true),
    ensures
        kk == op.operands.len() || k + op.operands.len() <= operands.len(),
    decreases op.operands.len() - kk,
{
    if kk < op.operands.len() {
        lemma_match_from_bounds(operands, operators, op, k, kk + 1);
    }
}

/// Reads an expression up to its `;` and reduces it with the operators in
/// `ops`, taken in order: its value, the cursor left after the `;`.
pub fn expression<'a>(it: &mut SmartIter, code: &Code, lets: &'a Vec<Let>, ops: &Vec<Op>, types: &Vec<Type>) -> (r: Result<Let, Error>)
    requires
        types_ok(types_view(types@)),
        ops_wf(ops_view(ops@)),
    ensures
        match spec_expression(code@, old(it).0 as int, lets_view(lets@), ops_view(ops@)) {
            Ok((l, q)) => r matches Ok(x) && x@ == l && final(it).0 == q,
            Err(e) => r matches Err(x) && x@ == e,
        },
{
    let ghost ts = code@;
    let ghost ls = lets_view(lets@);
    let ghost p0 = it.0 as int;
    let mut operands: Vec<Operand<'a>> = Vec::new();
    let mut operators: Vec<Operator> = Vec::new();
    let mut prev_was_operator = true;
    assert(operands_view(operands@) =~= Seq::<SpecLet>::empty());
    assert(operators_view(operators@) =~= Seq::<SpecOperator>::empty());
    loop
        invariant_except_break
            collect(ts, p0, ls, Seq::empty(), Seq::empty(), true)
                == collect(ts, it.0 as int, ls, operands_view(operands@), operators_view(operators@), prev_was_operator),
        invariant
            ts == code@,
            ls == lets_view(lets@),
            types_ok(types_view(types@)),
            p0 == old(it).0 as int,
        ensures
            collect(ts, p0, ls, Seq::empty(), Seq::empty(), true)
                == Ok::<(Seq<SpecLet>, Seq<SpecOperator>, int), SpecError>((operands_view(operands@), operators_view(operators@), it.0 as int)),
        decreases ts.len() - it.0,
    {
        let ghost p = it.0 as int;
        let t = match it.next(code) {
            None => return Err(Error::Eof),
            Some(t) => t,
        };
        let ghost before = operands_view(operands@);
        let ghost before_ops = operators_view(operators@);
        match t {
            Token::Semicolon => break,
            Token::Name(name) => {
                let mut m: usize = 0;
                assert(ls.take(0) =~= Seq::<SpecLet>::empty());
                while m < lets.len()
                    invariant
                        ls == lets_view(lets@),
                        m <= lets.len(),
                        operands_view(operands@) == before + matching(ls.take(m as int), name@),
                    decreases lets.len() - m,
                {
                    assert(ls.take(m + 1).drop_last() =~= ls.take(m as int));
                    assert(ls[m as int] == lets@[m as int]@);
                    if chars_eq(&lets[m].name, name) {
                        operands.push(Operand::Let(&lets[m]));
                        assert(operands_view(operands@) =~= before + matching(ls.take(m as int), name@) + seq![ls[m as int]]);
                    }
                    m += 1;
                    assert(operands_view(operands@) =~= before + matching(ls.take(m as int), name@));
                }
                assert(ls.take(lets.len() as int) =~= ls);
                prev_was_operator = false;
            },
            Token::Number(value) => {
                match number_ty(types, value) {
                    None => return Err(Error::BadNumber(value.clone())),
                    Some(ty) => {
                        operands.push(Operand::Expr(Let { name: value.clone(), ty }));
                        assert(operands_view(operands@) =~= before.push(SpecLet { name: value@, ty }));
                    },
                }
                prev_was_operator = false;
            },
            x => {
                let data = x.text();
                let fix = if prev_was_operator { Fix::Prefix } else { Fix::Postfix };
                operators.push(Operator { data, fix });
                assert(operators_view(operators@) =~= before_ops.push(SpecOperator { data: x@.text(), fix }));
            },
        }
    }
    let ghost q = it.0 as int;
    let ghost o0 = operands_view(operands@);
    let ghost r0 = operators_view(operators@);
    let mut idx: usize = 0;
    loop
        invariant
            ops_wf(ops_view(ops@)),
            idx <= ops.len(),
            ts == code@,
            ls == lets_view(lets@),
            p0 == old(it).0 as int,
            it.0 as int == q,
            collect(ts, p0, ls, Seq::empty(), Seq::empty(), true)
                == Ok::<(Seq<SpecLet>, Seq<SpecOperator>, int), SpecError>((o0, r0, q)),
            reduce(ops_view(ops@), 0, o0, r0) == reduce(ops_view(ops@), idx as int, operands_view(operands@), operators_view(operators@)),
        ensures
            reduce(ops_view(ops@), 0, o0, r0)
                == Ok::<(Seq<SpecLet>, Seq<SpecOperator>), SpecError>((operands_view(operands@), operators_view(operators@))),
            ts == code@,
            ls == lets_view(lets@),
            p0 == old(it).0 as int,
            it.0 as int == q,
            collect(ts, p0, ls, Seq::empty(), Seq::empty(), true)
                == Ok::<(Seq<SpecLet>, Seq<SpecOperator>, int), SpecError>((o0, r0, q)),
        decreases ops.len() - idx, operators.len(),
    {
        if idx >= ops.len() || operators.len() == 0 {
            assert(operators_view(operators@).len() == operators.len());
            break;
        }
        let ghost os = operands_view(operands@);
        let ghost rs = operators_view(operators@);
        let op = &ops[idx];
        assert(ops_view(ops@)[idx as int] == op@);
        match eval_one_expr(&operands, &operators, op) {
            Err(e) => return Err(e),
            Ok(None) => {
                idx += 1;
            },
            Ok(Some(res)) => {
                let n = op.operands.len();
                let ghost rv = res@;
                if op.order == Order::Left {
                    if n <= operands.len() {
                        let rest = operands.split_off(n);
                        operands = rest;
                        assert(operands_view(operands@) =~= os.skip(n as int));
                    } else {
                        operands = Vec::new();
                        assert(operands_view(operands@) =~= Seq::<SpecLet>::empty());
                    }
                    let ghost rest_v = operands_view(operands@);
                    operands.insert(0, Operand::Expr(res));
                    operators.remove(0);
                    assert(operands_view(operands@) =~= seq![rv] + rest_v);
                    assert(operators_view(operators@) =~= rs.drop_first());
                } else {
                    if n <= operands.len() {
                        let keep = operands.len() - n;
                        operands.truncate(keep);
                        assert(operands_view(operands@) =~= os.take(keep as int));
                    } else {
                        operands = Vec::new();
                        assert(operands_view(operands@) =~= Seq::<SpecLet>::empty());
                    }
                    let ghost kept_v = operands_view(operands@);
                    operators.pop();
                    operands.push(Operand::Expr(res));
                    assert(operands_view(operands@) =~= kept_v.push(rv));
                    assert(operators_view(operators@) =~= rs.drop_last());
                }
            },
        }
    }
    if operators.len() != 0 || operands.len() != 1 {
        return Err(Error::NoOverload);
    }
    assert(operands_view(operands@)[0] == operands@[0]@);
    Ok(operands[0].as_let().clone())
}

} // verus!
