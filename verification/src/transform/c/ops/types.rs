//! Operators and their operands.

use vstd::prelude::*;

use super::super::ty::{Let, SpecLet};
use super::super::types::TypeID;

verus! {

/// For single operators
#[derive(Debug, Copy, Clone, PartialEq, Eq, Structural)]
pub enum Fix {
    /// <op> a (e.g. -a)
    Prefix,
    /// a <op> (e.g. a-)
    Postfix,
}

/// How a chain of one operator groups.
#[derive(Debug, Copy, Clone, PartialEq, Eq, Structural)]
pub enum Order {
    /// a <op> b <op> c == (a <op> b) <op> c
    Left,
    /// a <op> b <op> c == a <op> (b <op> c)
    Right,
}

/// How an operator writes its result from the texts of its operands.
#[derive(Debug)]
pub enum OpTemplate {
    /// The text, then the first operand.
    Prefix(Vec<char>),
    /// The first operand, a space, the text, a space, the second operand.
    Infix(Vec<char>),
}

/// The mathematical value of an [`OpTemplate`].
pub enum SpecTemplate {
    Prefix(Seq<char>),
    Infix(Seq<char>),
}

impl View for OpTemplate {
    type V = SpecTemplate;

    open spec fn view(&self) -> SpecTemplate {
        match self {
            OpTemplate::Prefix(p) => SpecTemplate::Prefix(p@),
            OpTemplate::Infix(s) => SpecTemplate::Infix(s@),
        }
    }
}

/// The text an operator of template `t` writes for the operands `args`.
pub open spec fn apply_template(t: SpecTemplate, args: Seq<SpecLet>) -> Seq<char> {
    match t {
        SpecTemplate::Prefix(p) => p + args[0].name,
        SpecTemplate::Infix(s) => args[0].name + seq![' '] + s + seq![' '] + args[1].name,
    }
}

/// An operator: the types of its operands, its result type, the texts of its
/// symbols, its fixity, grouping, priority and how it writes its result.
#[derive(Debug)]
pub struct Op {
    pub operands: Vec<TypeID>,
    pub ret: TypeID,
    pub parts: Vec<Vec<char>>,
    pub fix: Fix,
    pub order: Order,
    pub priority: u8,
    pub make: OpTemplate,
}

/// The mathematical value of an [`Op`].
pub struct SpecOp {
    pub operands: Seq<TypeID>,
    pub ret: TypeID,
    pub parts: Seq<Seq<char>>,
    pub fix: Fix,
    pub order: Order,
    pub priority: u8,
    pub make: SpecTemplate,
}

impl View for Op {
    type V = SpecOp;

    open spec fn view(&self) -> SpecOp {
        SpecOp {
            operands: self.operands@,
            ret: self.ret,
            parts: self.parts@.map_values(|p: Vec<char>| p@),
            fix: self.fix,
            order: self.order,
            priority: self.priority,
            make: self.make@,
        }
    }
}

/// The views of a sequence of operators.
pub open spec fn ops_view(ops: Seq<Op>) -> Seq<SpecOp> {
    ops.map_values(|o: Op| o@)
}

/// An operator's template has as many operands as it uses.
pub open spec fn op_wf(o: SpecOp) -> bool {
    match o.make {
        SpecTemplate::Prefix(_) => o.operands.len() >= 1,
        SpecTemplate::Infix(_) => o.operands.len() >= 2,
    }
}

/// Operators are kept from the highest priority to the lowest.
pub open spec fn ops_sorted(ops: Seq<SpecOp>) -> bool {
    forall|i: int, j: int| 0 <= i <= j < ops.len() ==> ops[i].priority >= ops[j].priority
}

/// Where an operator of priority `p` goes: before the first one of lower priority.
pub open spec fn insert_pos(ops: Seq<SpecOp>, p: u8) -> int
    decreases ops.len(),
{
    if ops.len() == 0 {
        0
    } else if ops[0].priority < p {
        0
    } else {
        1 + insert_pos(ops.drop_first(), p)
    }
}

pub proof fn lemma_insert_pos(ops: Seq<SpecOp>, p: u8)
    ensures
        0 <= insert_pos(ops, p) <= ops.len(),
        forall|i: int| 0 <= i < insert_pos(ops, p) ==> ops[i].priority >= p,
        insert_pos(ops, p) < ops.len() ==> ops[insert_pos(ops, p)].priority < p,
    decreases ops.len(),
{
    if ops.len() > 0 && ops[0].priority >= p {
        lemma_insert_pos(ops.drop_first(), p);
        assert forall|i: int| 0 <= i < insert_pos(ops, p) implies ops[i].priority >= p by {
            if i > 0 {
                assert(ops[i] == ops.drop_first()[i - 1]);
            }
        }
    }
}

/// Adding an operator keeps the table ordered from the highest priority to
/// the lowest, and puts it after every operator of its priority or higher,
/// so operators of equal priority stay in the order they were added.
pub proof fn law_add_keeps_order(ops: Seq<SpecOp>, op: SpecOp)
    requires
        ops_sorted(ops),
    ensures
        ops_sorted(ops.insert(insert_pos(ops, op.priority), op)),
        forall|i: int| 0 <= i < insert_pos(ops, op.priority) ==> ops[i].priority >= op.priority,
        forall|i: int| insert_pos(ops, op.priority) <= i < ops.len() ==> ops[i].priority < op.priority,
{
    lemma_insert_pos(ops, op.priority);
    let p = insert_pos(ops, op.priority);
    let r = ops.insert(p, op);
    assert forall|i: int| p <= i < ops.len() implies ops[i].priority < op.priority by {
        assert(ops[p].priority >= ops[i].priority);
    }
    assert forall|i: int, j: int| 0 <= i <= j < r.len() implies r[i].priority >= r[j].priority by {
        if i < p {
            assert(r[i] == ops[i]);
            if j < p {
                assert(r[j] == ops[j]);
            } else if j > p {
                assert(r[j] == ops[j - 1]);
            }
        } else if i == p {
            if j > p {
                assert(r[j] == ops[j - 1]);
            }
        } else {
            assert(r[i] == ops[i - 1]);
            assert(r[j] == ops[j - 1]);
        }
    }
}

impl Op {
    /// Adds `op` after every operator of its priority or higher, before the
    /// first of lower priority.
    pub fn add(ops: &mut Vec<Op>, op: Op)
        ensures
            ops_view(final(ops)@) == ops_view(old(ops)@).insert(insert_pos(ops_view(old(ops)@), op@.priority), op@),
    {
        let ghost v = ops_view(ops@);
        let ghost opv = op@;
        proof { lemma_insert_pos(v, op@.priority); }
        let mut i: usize = 0;
        while i < ops.len()
            invariant
                v == ops_view(ops@),
                v == ops_view(old(ops)@),
                i <= ops.len(),
                forall|j: int| 0 <= j < i ==> ops@[j]@.priority >= op@.priority,
                op@ == opv,
            decreases ops.len() - i,
        {
            if ops[i].priority < op.priority {
                proof {
                    lemma_insert_pos(v, opv.priority);
                    let pos = insert_pos(v, opv.priority);
                    assert(v[i as int] == ops@[i as int]@);
                    if pos < i {
                        assert(v[pos] == ops@[pos]@);
                    }
                }
                ops.insert(i, op);
                assert(ops_view(ops@) =~= v.insert(i as int, opv));
                return;
            }
            i += 1;
        }
        proof {
            lemma_insert_pos(v, opv.priority);
            let pos = insert_pos(v, opv.priority);
            if pos < ops@.len() {
                assert(v[pos] == ops@[pos]@);
            }
        }
        ops.push(op);
        assert(ops_view(ops@) =~= v.insert(v.len() as int, opv));
    }
}

/// An operand of an expression: a parameter, or the text of a part already
/// translated.
#[derive(Debug)]
pub enum Operand<'a> {
    Let(&'a Let),
    Expr(Let),
}

impl<'a> View for Operand<'a> {
    type V = SpecLet;

    open spec fn view(&self) -> SpecLet {
        match self {
            Operand::Let(x) => x@,
            Operand::Expr(x) => x@,
        }
    }
}

impl<'a> Operand<'a> {
    /// The type of the operand.
    pub fn ty(&self) -> (r: TypeID)
        ensures
            r == self@.ty,
    {
        match self {
            Operand::Let(x) => x.ty,
            Operand::Expr(x) => x.ty,
        }
    }

    /// The operand as a value.
    pub fn as_let(&self) -> (r: &Let)
        ensures
            r@ == self@,
    {
        match self {
            Operand::Let(x) => x,
            Operand::Expr(x) => x,
        }
    }
}

/// The views of a sequence of operands.
pub open spec fn operands_view<'a>(s: Seq<Operand<'a>>) -> Seq<SpecLet> {
    s.map_values(|o: Operand<'a>| o@)
}

/// An operator symbol met in an expression, and its fixity there.
#[derive(Debug)]
pub struct Operator {
    pub data: Vec<char>,
    pub fix: Fix,
}

/// The mathematical value of an [`Operator`].
pub struct SpecOperator {
    pub data: Seq<char>,
    pub fix: Fix,
}

impl View for Operator {
    type V = SpecOperator;

    open spec fn view(&self) -> SpecOperator {
        SpecOperator { data: self.data@, fix: self.fix }
    }
}

/// The views of a sequence of operators met.
pub open spec fn operators_view(s: Seq<Operator>) -> Seq<SpecOperator> {
    s.map_values(|o: Operator| o@)
}

} // verus!
