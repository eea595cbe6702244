//! The table of C types and their Rust names.

use vstd::prelude::*;

use super::ops::types::{SpecTemplate, apply_template};
use super::ty::{Code, SpecLet};
use crate::text::{push_chars, push_str, str_chars};
use crate::token::{SpecToken, Token, tokens_view};

verus! {

/// The position of a type in the table.
pub type TypeID = usize;

/// What a type is: a type of its own with a Rust name, or another name for
/// the type at `id`.
#[derive(Debug)]
pub enum TypeType {
    Full { rust_name: Vec<char> },
    Alias { id: TypeID },
}

/// A C type name and what it stands for.
#[derive(Debug)]
pub struct Type {
    pub c_name: Vec<char>,
    pub data: TypeType,
}

/// How a registered conversion writes its result from the value's text.
#[derive(Debug)]
pub enum ConvertTemplate {
    /// `data as T`, `T` the Rust name of the target type.
    Cast,
    /// The named function applied to the value: `f(data)`.
    Call(Vec<char>),
}

/// A conversion from the type at `from` to the type at `to`, for types that
/// are not fundamental.
#[derive(Debug)]
pub struct TypeConvert {
    pub from: TypeID,
    pub to: TypeID,
    pub convertor: ConvertTemplate,
}

/// The mathematical value of a [`ConvertTemplate`].
pub enum SpecConvertTemplate {
    Cast,
    Call(Seq<char>),
}

/// The mathematical value of a [`TypeConvert`].
pub struct SpecTypeConvert {
    pub from: TypeID,
    pub to: TypeID,
    pub convertor: SpecConvertTemplate,
}

impl View for ConvertTemplate {
    type V = SpecConvertTemplate;

    open spec fn view(&self) -> SpecConvertTemplate {
        match self {
            ConvertTemplate::Cast => SpecConvertTemplate::Cast,
            ConvertTemplate::Call(f) => SpecConvertTemplate::Call(f@),
        }
    }
}

impl View for TypeConvert {
    type V = SpecTypeConvert;

    open spec fn view(&self) -> SpecTypeConvert {
        SpecTypeConvert { from: self.from, to: self.to, convertor: self.convertor@ }
    }
}

/// The views of a list of conversions.
pub open spec fn converts_view(cs: Seq<TypeConvert>) -> Seq<SpecTypeConvert> {
    cs.map_values(|c: TypeConvert| c@)
}

/// The mathematical value of a [`TypeType`].
pub enum SpecTypeType {
    Full { rust_name: Seq<char> },
    Alias { id: TypeID },
}

/// The mathematical value of a [`Type`].
pub struct SpecType {
    pub c_name: Seq<char>,
    pub data: SpecTypeType,
}

impl View for TypeType {
    type V = SpecTypeType;

    open spec fn view(&self) -> SpecTypeType {
        match self {
            TypeType::Full { rust_name } => SpecTypeType::Full { rust_name: rust_name@ },
            TypeType::Alias { id } => SpecTypeType::Alias { id: *id },
        }
    }
}

impl View for Type {
    type V = SpecType;

    open spec fn view(&self) -> SpecType {
        SpecType { c_name: self.c_name@, data: self.data@ }
    }
}

/// The views of a table of types.
pub open spec fn types_view(ts: Seq<Type>) -> Seq<SpecType> {
    ts.map_values(|t: Type| t@)
}

/// A table is well formed when an alias names an earlier type and no two
/// types share a C name.
pub open spec fn table_wf(ts: Seq<SpecType>) -> bool {
    &&& forall|i: int| 0 <= i < ts.len() ==> ((#[trigger] ts[i]).data matches SpecTypeType::Alias { id } ==> id < i)
    &&& forall|i: int, j: int| 0 <= i < ts.len() && 0 <= j < ts.len() && i != j
        ==> (#[trigger] ts[i]).c_name != (#[trigger] ts[j]).c_name
}

/// The type that `id` stands for once aliases are followed.
pub open spec fn resolve(ts: Seq<SpecType>, id: int) -> int
    decreases id,
{
    if 0 <= id < ts.len() {
        match ts[id].data {
            SpecTypeType::Alias { id: a } => if a < id { resolve(ts, a as int) } else { id },
            SpecTypeType::Full { .. } => id,
        }
    } else {
        id
    }
}

/// The Rust name of the type that `id` stands for.
pub open spec fn rust_name_of(ts: Seq<SpecType>, id: int) -> Seq<char> {
    match ts[resolve(ts, id)].data {
        SpecTypeType::Full { rust_name } => rust_name,
        SpecTypeType::Alias { .. } => Seq::empty(),
    }
}

/// The Rust name of the type `t` stands for, its aliases looked up in `ts`.
pub open spec fn type_rust_name(ts: Seq<SpecType>, t: SpecType) -> Seq<char> {
    match t.data {
        SpecTypeType::Full { rust_name } => rust_name,
        SpecTypeType::Alias { id } => rust_name_of(ts, id as int),
    }
}

/// The C name of the type `t` stands for, its aliases looked up in `ts`.
pub open spec fn type_true_c_name(ts: Seq<SpecType>, t: SpecType) -> Seq<char> {
    match t.data {
        SpecTypeType::Full { .. } => t.c_name,
        SpecTypeType::Alias { id } => ts[resolve(ts, id as int)].c_name,
    }
}

/// The first type at or after `k` whose C name is `name`.
pub open spec fn find_c_from(ts: Seq<SpecType>, name: Seq<char>, k: int) -> Option<int>
    decreases ts.len() - k,
{
    if k < 0 || k >= ts.len() {
        None
    } else if ts[k].c_name == name {
        Some(k)
    } else {
        find_c_from(ts, name, k + 1)
    }
}

/// The first type whose C name is `name`.
pub open spec fn find_c(ts: Seq<SpecType>, name: Seq<char>) -> Option<int> {
    find_c_from(ts, name, 0)
}

/// The first type at or after `k` whose Rust name is `name`.
pub open spec fn find_rust_from(ts: Seq<SpecType>, name: Seq<char>, k: int) -> Option<int>
    decreases ts.len() - k,
{
    if k < 0 || k >= ts.len() {
        None
    } else if rust_name_of(ts, k) == name {
        Some(k)
    } else {
        find_rust_from(ts, name, k + 1)
    }
}

/// The first type whose Rust name is `name`.
pub open spec fn find_rust(ts: Seq<SpecType>, name: Seq<char>) -> Option<int> {
    find_rust_from(ts, name, 0)
}

pub proof fn lemma_find_c_from(ts: Seq<SpecType>, name: Seq<char>, k: int)
    requires
        0 <= k,
    ensures
        find_c_from(ts, name, k) matches Some(i) ==> k <= i < ts.len() && ts[i].c_name == name
            && forall|j: int| k <= j < i ==> ts[j].c_name != name,
        find_c_from(ts, name, k) is None ==> forall|j: int| k <= j < ts.len() ==> ts[j].c_name != name,
    decreases ts.len() - k,
{
    if k < ts.len() && ts[k].c_name != name {
        lemma_find_c_from(ts, name, k + 1);
    }
}

/// In a well-formed table a C name is found exactly where it stands.
pub proof fn lemma_find_c(ts: Seq<SpecType>, name: Seq<char>)
    ensures
        find_c(ts, name) matches Some(i) ==> 0 <= i < ts.len() && ts[i].c_name == name,
        find_c(ts, name) is None ==> forall|j: int| 0 <= j < ts.len() ==> ts[j].c_name != name,
        table_wf(ts) ==> forall|j: int| 0 <= j < ts.len() && ts[j].c_name == name ==> find_c(ts, name) == Some(j),
{
    lemma_find_c_from(ts, name, 0);
    if table_wf(ts) {
        assert forall|j: int| 0 <= j < ts.len() && ts[j].c_name == name implies find_c(ts, name) == Some(j) by {
            let i = find_c(ts, name).unwrap();
            if i != j {
                assert(ts[i].c_name != ts[j].c_name);
            }
        }
    }
}

pub proof fn lemma_find_rust_from(ts: Seq<SpecType>, name: Seq<char>, k: int)
    requires
        0 <= k,
    ensures
        find_rust_from(ts, name, k) matches Some(i) ==> k <= i < ts.len() && rust_name_of(ts, i) == name,
        find_rust_from(ts, name, k) is None ==> forall|j: int| k <= j < ts.len() ==> rust_name_of(ts, j) != name,
    decreases ts.len() - k,
{
    if k < ts.len() && rust_name_of(ts, k) != name {
        lemma_find_rust_from(ts, name, k + 1);
    }
}

/// Following aliases ends at a type of its own, at or before the start.
pub proof fn lemma_resolve(ts: Seq<SpecType>, id: int)
    requires
        table_wf(ts),
        0 <= id < ts.len(),
    ensures
        0 <= resolve(ts, id) <= id,
        ts[resolve(ts, id)].data is Full,
        resolve(ts, resolve(ts, id)) == resolve(ts, id),
    decreases id,
{
    assert(ts[id] == ts[id]);
    if let SpecTypeType::Alias { id: a } = ts[id].data {
        lemma_resolve(ts, a as int);
    }
}

/// The Rust names of the built-in types, in the order they are added.
pub open spec fn builtin_full() -> Seq<(Seq<char>, Seq<char>)> {
    seq![
        ("signed char"@, "i8"@),
        ("unsigned char"@, "u8"@),
        ("signed short"@, "i16"@),
        ("unsigned short"@, "u16"@),
        ("signed int"@, "i32"@),
        ("unsigned int"@, "u32"@),
        ("signed long"@, "i64"@),
        ("unsigned long"@, "u64"@),
        ("_Bool"@, "bool"@),
        ("void"@, "()"@),
    ]
}

/// The built-in aliases and the types they name, in the order they are added.
pub open spec fn builtin_alias() -> Seq<(Seq<char>, TypeID)> {
    seq![
        ("char"@, 1usize),
        ("short"@, 2usize),
        ("int"@, 4usize),
        ("long"@, 6usize),
        ("signed"@, 4usize),
        ("unsigned"@, 5usize),
    ]
}

/// How many types are built in; these are the fundamental ones.
pub open spec fn builtin_count() -> int {
    16
}

/// The position of `void` in the table.
pub open spec fn void_id() -> int {
    9
}

/// The C name of built-in type `i`.
pub open spec fn builtin_c_name(i: int) -> Seq<char> {
    if i < 10 { builtin_full()[i].0 } else { builtin_alias()[i - 10].0 }
}

/// Type `t` is built-in type `i`.
pub open spec fn is_builtin(t: SpecType, i: int) -> bool {
    &&& t.c_name == builtin_c_name(i)
    &&& if i < 10 {
        t.data matches SpecTypeType::Full { rust_name } && rust_name == builtin_full()[i].1
    } else {
        t.data matches SpecTypeType::Alias { id } && id == builtin_alias()[i - 10].1
    }
}

/// The table starts with the built-in types.
pub open spec fn has_builtins(ts: Seq<SpecType>) -> bool {
    ts.len() >= builtin_count() && forall|i: int| 0 <= i < builtin_count() ==> #[trigger] is_builtin(ts[i], i)
}

/// The tables the translation works with: well formed, built-ins first.
pub open spec fn types_ok(ts: Seq<SpecType>) -> bool {
    table_wf(ts) && has_builtins(ts)
}

/// The table of built-in types.
pub open spec fn builtin_table() -> Seq<SpecType> {
    Seq::new(16, |i: int| SpecType {
        c_name: builtin_c_name(i),
        data: if i < 10 {
            SpecTypeType::Full { rust_name: builtin_full()[i].1 }
        } else {
            SpecTypeType::Alias { id: builtin_alias()[i - 10].1 }
        },
    })
}

/// Adding a type changes nothing about the types already there.
pub proof fn lemma_push_resolve(ts: Seq<SpecType>, x: SpecType, i: int)
    requires
        0 <= i < ts.len(),
    ensures
        resolve(ts.push(x), i) == resolve(ts, i),
        rust_name_of(ts.push(x), i) == rust_name_of(ts, i),
    decreases i,
{
    assert(ts.push(x)[i] == ts[i]);
    if let SpecTypeType::Alias { id: a } = ts[i].data {
        if a < i {
            lemma_push_resolve(ts, x, a as int);
        }
    }
    assert(ts.push(x)[resolve(ts, i)] == ts[resolve(ts, i)]) by {
        lemma_resolve_bound(ts, i);
    }
}

/// Following aliases stays within the table.
pub proof fn lemma_resolve_bound(ts: Seq<SpecType>, i: int)
    requires
        0 <= i < ts.len(),
    ensures
        0 <= resolve(ts, i) <= i,
    decreases i,
{
    if let SpecTypeType::Alias { id: a } = ts[i].data {
        if a < i {
            lemma_resolve_bound(ts, a as int);
        }
    }
}

/// A new name for a type behaves as that type: after an alias for `id` is
/// added under a C name not yet in the table, the name is found at the new
/// entry, which stands for the same type as `id` and has its Rust name; the
/// types already in the table are found and resolved as before.
pub proof fn law_alias_stands_for_target(ts: Seq<SpecType>, name: Seq<char>, id: TypeID)
    requires
        table_wf(ts),
        find_c(ts, name) is None,
        0 <= id < ts.len(),
    ensures
        ({
            let ts2 = ts.push(SpecType { c_name: name, data: SpecTypeType::Alias { id } });
            &&& find_c(ts2, name) == Some(ts.len() as int)
            &&& resolve(ts2, ts.len() as int) == resolve(ts, id as int)
            &&& rust_name_of(ts2, ts.len() as int) == rust_name_of(ts, id as int)
            &&& type_true_c_name(ts2, ts2[ts.len() as int]) == ts[resolve(ts, id as int)].c_name
            &&& forall|j: int| 0 <= j < ts.len() ==> #[trigger] resolve(ts2, j) == resolve(ts, j)
                && rust_name_of(ts2, j) == rust_name_of(ts, j)
            &&& forall|other: Seq<char>| other != name ==> #[trigger] find_c(ts2, other) == find_c(ts, other)
        }),
{
    let x = SpecType { c_name: name, data: SpecTypeType::Alias { id } };
    let ts2 = ts.push(x);
    let n = ts.len() as int;
    lemma_find_c(ts, name);
    assert(ts2[n] == x);
    lemma_push_resolve(ts, x, id as int);
    lemma_resolve_bound(ts, id as int);
    assert(resolve(ts2, n) == resolve(ts2, id as int));
    assert(ts2[resolve(ts, id as int)] == ts[resolve(ts, id as int)]);
    assert forall|j: int| 0 <= j < ts.len() implies #[trigger] resolve(ts2, j) == resolve(ts, j)
        && rust_name_of(ts2, j) == rust_name_of(ts, j) by {
        lemma_push_resolve(ts, x, j);
    }
    lemma_find_c_push(ts, x, name, 0);
    assert forall|other: Seq<char>| other != name implies #[trigger] find_c(ts2, other) == find_c(ts, other) by {
        lemma_find_c_push(ts, x, other, 0);
    }
}

/// Searching a table with one more entry finds what the table had, or else
/// the new entry.
proof fn lemma_find_c_push(ts: Seq<SpecType>, x: SpecType, name: Seq<char>, k: int)
    requires
        0 <= k <= ts.len(),
    ensures
        find_c_from(ts.push(x), name, k) == (match find_c_from(ts, name, k) {
            Some(i) => Some(i),
            None => if x.c_name == name { Some(ts.len() as int) } else { None },
        }),
    decreases ts.len() - k,
{
    let ts2 = ts.push(x);
    if k < ts.len() {
        assert(ts2[k] == ts[k]);
        lemma_find_c_push(ts, x, name, k + 1);
    } else {
        assert(ts2[k] == x);
        assert(find_c_from(ts2, name, k + 1) is None);
    }
}

/// The built-in C names are pairwise different.
pub proof fn lemma_builtin_names()
    ensures
        forall|i: int, j: int| 0 <= i < builtin_count() && 0 <= j < builtin_count() && i != j
            ==> builtin_c_name(i) != builtin_c_name(j),
{
    reveal_strlit("signed char");
    reveal_strlit("unsigned char");
    reveal_strlit("signed short");
    reveal_strlit("unsigned short");
    reveal_strlit("signed int");
    reveal_strlit("unsigned int");
    reveal_strlit("signed long");
    reveal_strlit("unsigned long");
    reveal_strlit("_Bool");
    reveal_strlit("void");
    reveal_strlit("char");
    reveal_strlit("short");
    reveal_strlit("int");
    reveal_strlit("long");
    reveal_strlit("signed");
    reveal_strlit("unsigned");
    assert forall|i: int, j: int| 0 <= i < builtin_count() && 0 <= j < builtin_count() && i != j
        implies builtin_c_name(i) != builtin_c_name(j) by {
        if builtin_c_name(i).len() == builtin_c_name(j).len() {
            assert(builtin_c_name(i)[0] != builtin_c_name(j)[0] || builtin_c_name(i)[1] != builtin_c_name(j)[1]
                || builtin_c_name(i)[7] != builtin_c_name(j)[7] || builtin_c_name(i)[9] != builtin_c_name(j)[9]);
        }
    }
}

/// Whether `s` holds a space.
pub open spec fn has_space(s: Seq<char>) -> bool {
    exists|k: int| 0 <= k < s.len() && s[k] == ' '
}

/// `data` taken as a value of type `to`: `data as T`, with `data` in
/// parentheses if it holds a space.
pub open spec fn simple_convert(ts: Seq<SpecType>, to: int, data: Seq<char>) -> Seq<char> {
    (if has_space(data) { seq!['('] + data + seq![')'] } else { data }) + " as "@ + rust_name_of(ts, to)
}

/// A cast wraps its value in parentheses exactly when the value's text
/// holds a space, so that `as` applies to the whole of it: a single word
/// `v` becomes `v as R`, and the text `x op y` that a two-operand operator
/// writes becomes `(x op y) as R`, `R` the Rust name of the target type.
pub proof fn law_cast_keeps_expressions_whole(ts: Seq<SpecType>, to: int, data: Seq<char>, sym: Seq<char>, args: Seq<SpecLet>)
    ensures
        (forall|k: int| 0 <= k < data.len() ==> data[k] != ' ')
            ==> simple_convert(ts, to, data) == data + " as "@ + rust_name_of(ts, to),
        (exists|k: int| 0 <= k < data.len() && data[k] == ' ')
            ==> simple_convert(ts, to, data) == seq!['('] + data + seq![')'] + " as "@ + rust_name_of(ts, to),
        args.len() >= 2 ==> {
            let e = args[0].name + seq![' '] + sym + seq![' '] + args[1].name;
            &&& apply_template(SpecTemplate::Infix(sym), args) == e
            &&& simple_convert(ts, to, e) == seq!['('] + e + seq![')'] + " as "@ + rust_name_of(ts, to)
        },
{
    if args.len() >= 2 {
        let e = args[0].name + seq![' '] + sym + seq![' '] + args[1].name;
        let k = args[0].name.len() as int;
        assert(e[k] == ' ');
        assert(has_space(e));
    }
}

/// What a registered conversion writes for `data` converted to type `to`.
pub open spec fn apply_convertor(ts: Seq<SpecType>, c: SpecConvertTemplate, to: int, data: Seq<char>) -> Seq<char> {
    match c {
        SpecConvertTemplate::Cast => simple_convert(ts, to, data),
        SpecConvertTemplate::Call(f) => f + seq!['('] + data + seq![')'],
    }
}

/// The first conversion at or after `k` from type `f` to type `t`.
pub open spec fn find_convert(cs: Seq<SpecTypeConvert>, f: int, t: int, k: int) -> Option<int>
    decreases cs.len() - k,
{
    if k < 0 || k >= cs.len() {
        None
    } else if cs[k].from == f && cs[k].to == t {
        Some(k)
    } else {
        find_convert(cs, f, t, k + 1)
    }
}

/// Turning `data` of type `from` into type `to`: a cast, between two
/// fundamental types other than `void`; else the first of the registered
/// conversions `cs` between the two types (aliases followed); else nothing.
pub open spec fn spec_convert(ts: Seq<SpecType>, cs: Seq<SpecTypeConvert>, from: int, to: int, data: Seq<char>) -> Option<Seq<char>> {
    let f = resolve(ts, from);
    let t = resolve(ts, to);
    if f < builtin_count() && t < builtin_count() && f != void_id() && t != void_id() {
        Some(simple_convert(ts, t, data))
    } else {
        match find_convert(cs, f, t, 0) {
            Some(i) => Some(apply_convertor(ts, cs[i].convertor, t, data)),
            None => None,
        }
    }
}

/// In a table with the built-ins, each built-in name is found where it stands.
pub proof fn lemma_builtin_find(ts: Seq<SpecType>, i: int)
    requires
        types_ok(ts),
        0 <= i < builtin_count(),
    ensures
        find_c(ts, builtin_c_name(i)) == Some(i),
{
    assert(is_builtin(ts[i], i));
    lemma_find_c(ts, builtin_c_name(i));
}

impl Type {
    /// The type `id` stands for once aliases are followed.
    fn resolve_id(types: &Vec<Type>, id: TypeID) -> (r: TypeID)
        requires
            table_wf(types_view(types@)),
            id < types_view(types@).len(),
        ensures
            r == resolve(types_view(types@), id as int),
    {
        let mut cur = id;
        loop
            invariant
                table_wf(types_view(types@)),
                cur < types_view(types@).len(),
                resolve(types_view(types@), cur as int) == resolve(types_view(types@), id as int),
            decreases cur,
        {
            assert(types_view(types@)[cur as int] == types_view(types@)[cur as int]);
            match &types[cur].data {
                TypeType::Alias { id: a } => {
                    cur = *a;
                },
                TypeType::Full { .. } => {
                    return cur;
                },
            }
        }
    }

    /// The Rust name of this type, aliases followed.
    pub fn rust_name<'a>(&'a self, types: &'a Vec<Type>) -> (r: &'a Vec<char>)
        requires
            table_wf(types_view(types@)),
            self@.data matches SpecTypeType::Alias { id } ==> id < types_view(types@).len(),
        ensures
            r@ == type_rust_name(types_view(types@), self@),
    {
        match &self.data {
            TypeType::Full { rust_name } => rust_name,
            TypeType::Alias { id } => {
                let k = Self::resolve_id(types, *id);
                proof { lemma_resolve(types_view(types@), *id as int); }
                match &types[k].data {
                    TypeType::Full { rust_name } => rust_name,
                    TypeType::Alias { .. } => {
                        proof { assert(false); }
                        &types[k].c_name
                    },
                }
            },
        }
    }

    /// The C name of the type this one stands for, aliases followed.
    pub fn true_c_name<'a>(&'a self, types: &'a Vec<Type>) -> (r: &'a Vec<char>)
        requires
            table_wf(types_view(types@)),
            self@.data matches SpecTypeType::Alias { id } ==> id < types_view(types@).len(),
        ensures
            r@ == type_true_c_name(types_view(types@), self@),
    {
        match &self.data {
            TypeType::Full { .. } => &self.c_name,
            TypeType::Alias { id } => {
                let k = Self::resolve_id(types, *id);
                proof { lemma_resolve(types_view(types@), *id as int); }
                &types[k].c_name
            },
        }
    }

    /// Adds a type under a new C name.
    fn add(types: &mut Vec<Type>, c_name: Vec<char>, data: TypeType)
        requires
            table_wf(types_view(old(types)@)),
            find_c(types_view(old(types)@), c_name@) is None,
            data@ matches SpecTypeType::Alias { id } ==> id < types_view(old(types)@).len(),
        ensures
            types_view(final(types)@) == types_view(old(types)@).push(SpecType { c_name: c_name@, data: data@ }),
            table_wf(types_view(final(types)@)),
    {
        proof { lemma_find_c(types_view(old(types)@), c_name@); }
        let ghost t = Type { c_name, data };
        types.push(Type { c_name, data });
        proof {
            let ts = types_view(types@);
            assert forall|i: int| 0 <= i < ts.len() implies ((#[trigger] ts[i]).data matches SpecTypeType::Alias { id } ==> id < i) by {
                if i < ts.len() - 1 {
                    assert(ts[i] == types_view(old(types)@)[i]);
                }
            }
            assert forall|i: int, j: int| 0 <= i < ts.len() && 0 <= j < ts.len() && i != j
                implies (#[trigger] ts[i]).c_name != (#[trigger] ts[j]).c_name by {
                if i < ts.len() - 1 && j < ts.len() - 1 {
                    assert(ts[i] == types_view(old(types)@)[i] && ts[j] == types_view(old(types)@)[j]);
                } else if i < ts.len() - 1 {
                    assert(ts[i] == types_view(old(types)@)[i]);
                } else {
                    assert(ts[j] == types_view(old(types)@)[j]);
                }
            }
        }
    }

    /// Adds a type of its own under a new C name.
    pub fn add_full(types: &mut Vec<Type>, c_name: Vec<char>, rust_name: Vec<char>)
        requires
            table_wf(types_view(old(types)@)),
            find_c(types_view(old(types)@), c_name@) is None,
        ensures
            types_view(final(types)@) == types_view(old(types)@).push(SpecType { c_name: c_name@, data: SpecTypeType::Full { rust_name: rust_name@ } }),
            table_wf(types_view(final(types)@)),
    {
        Self::add(types, c_name, TypeType::Full { rust_name })
    }

    /// Adds a new C name for the type at `id`.
    pub fn add_alias(types: &mut Vec<Type>, c_name: Vec<char>, id: TypeID)
        requires
            table_wf(types_view(old(types)@)),
            find_c(types_view(old(types)@), c_name@) is None,
            id < types_view(old(types)@).len(),
        ensures
            types_view(final(types)@) == types_view(old(types)@).push(SpecType { c_name: c_name@, data: SpecTypeType::Alias { id } }),
            table_wf(types_view(final(types)@)),
    {
        Self::add(types, c_name, TypeType::Alias { id })
    }

    /// The first type whose C name is `s`.
    fn find(types: &Vec<Type>, s: &Vec<char>) -> (r: Option<TypeID>)
        ensures
            r matches Some(i) ==> find_c(types_view(types@), s@) == Some(i as int),
            r is None ==> find_c(types_view(types@), s@) is None,
    {
        let mut i: usize = 0;
        while i < types.len()
            invariant
                i <= types_view(types@).len(),
                find_c(types_view(types@), s@) == find_c_from(types_view(types@), s@, i as int),
            decreases types_view(types@).len() - i,
        {
            if crate::token::chars_eq(&types[i].c_name, s) {
                return Some(i);
            }
            i += 1;
        }
        None
    }

    /// The Rust name of the type called `s`, if `s` is a type.
    pub fn rustify<'a>(types: &'a Vec<Type>, s: &Vec<char>) -> (r: Option<&'a Vec<char>>)
        requires
            table_wf(types_view(types@)),
        ensures
            r is None <==> find_c(types_view(types@), s@) is None,
            r matches Some(n) ==> n@ == rust_name_of(types_view(types@), find_c(types_view(types@), s@).unwrap()),
    {
        match Self::find(types, s) {
            None => None,
            Some(i) => {
                proof { lemma_find_c(types_view(types@), s@); }
                let t = &types[i];
                assert(t@.data matches SpecTypeType::Alias { id } ==> id < types_view(types@).len());
                Some(t.rust_name(types))
            },
        }
    }

    /// The C name of the type the name `s` stands for.
    pub fn trueify<'a>(types: &'a Vec<Type>, s: &Vec<char>) -> (r: &'a Vec<char>)
        requires
            table_wf(types_view(types@)),
            find_c(types_view(types@), s@) is Some,
        ensures
            r@ == types_view(types@)[resolve(types_view(types@), find_c(types_view(types@), s@).unwrap())].c_name,
    {
        let i = Self::c2id(types, s);
        proof { lemma_find_c(types_view(types@), s@); lemma_resolve(types_view(types@), i as int); }
        let k = Self::resolve_id(types, i);
        &types[k].c_name
    }

    /// The position of the type called `c_name`.
    pub fn c2id(types: &Vec<Type>, c_name: &Vec<char>) -> (r: TypeID)
        requires
            find_c(types_view(types@), c_name@) is Some,
        ensures
            find_c(types_view(types@), c_name@) == Some(r as int),
    {
        match Self::find(types, c_name) {
            Some(i) => i,
            None => {
                proof { assert(false); }
                0
            },
        }
    }

    /// The Rust name of the type at `id`.
    pub fn id2rust<'a>(types: &'a Vec<Type>, id: TypeID) -> (r: &'a Vec<char>)
        requires
            table_wf(types_view(types@)),
            id < types_view(types@).len(),
        ensures
            r@ == rust_name_of(types_view(types@), id as int),
    {
        proof { lemma_find_c(types_view(types@), types_view(types@)[id as int].c_name); }
        match Self::rustify(types, &types[id].c_name) {
            Some(n) => n,
            None => {
                proof { assert(false); }
                &types[id].c_name
            },
        }
    }

    /// The C name of the type at `id`.
    pub fn id2c<'a>(types: &'a Vec<Type>, id: TypeID) -> (r: &'a Vec<char>)
        requires
            id < types_view(types@).len(),
        ensures
            r@ == types_view(types@)[id as int].c_name,
    {
        &types[id].c_name
    }

    /// The position of the first type whose Rust name is `rust_name`.
    pub fn rust2id(types: &Vec<Type>, rust_name: &Vec<char>) -> (r: TypeID)
        requires
            table_wf(types_view(types@)),
            find_rust(types_view(types@), rust_name@) is Some,
        ensures
            find_rust(types_view(types@), rust_name@) == Some(r as int),
    {
        let mut i: usize = 0;
        while i < types.len()
            invariant
                table_wf(types_view(types@)),
                i <= types_view(types@).len(),
                find_rust(types_view(types@), rust_name@) == find_rust_from(types_view(types@), rust_name@, i as int),
                find_rust(types_view(types@), rust_name@) is Some,
            decreases types_view(types@).len() - i,
        {
            let t = &types[i];
            assert(t@.data matches SpecTypeType::Alias { id } ==> id < types_view(types@).len());
            if crate::token::chars_eq(t.rust_name(types), rust_name) {
                return i;
            }
            i += 1;
        }
        proof { assert(false); }
        0
    }

    /// The position of the type that `id` stands for.
    pub fn true_id(types: &Vec<Type>, id: TypeID) -> (r: TypeID)
        requires
            table_wf(types_view(types@)),
            id < types_view(types@).len(),
        ensures
            r as int == resolve(types_view(types@), id as int),
    {
        let t = &types[id];
        assert(t@.data matches SpecTypeType::Alias { id: aid } ==> aid < types_view(types@).len());
        let name = t.true_c_name(types);
        proof {
            lemma_resolve(types_view(types@), id as int);
            lemma_find_c(types_view(types@), name@);
            assert(types_view(types@)[resolve(types_view(types@), id as int)].c_name == name@);
        }
        Self::c2id(types, name)
    }

    /// Whether the type at `ty` is one of the built-in ones.
    pub fn is_fundamental(ty: TypeID) -> (r: bool)
        ensures
            r == (ty < builtin_count()),
    {
        ty < 16
    }

    /// `data`, a value of type `from`, as a value of type `to`: a cast
    /// between fundamental types, else the first of the conversions
    /// `converts` registered between the two types.
    pub fn convert(types: &Vec<Type>, converts: &Vec<TypeConvert>, from: TypeID, to: TypeID, data: &Vec<char>)
        -> (r: Option<Vec<char>>)
        requires
            types_ok(types_view(types@)),
            from < types_view(types@).len(),
            to < types_view(types@).len(),
        ensures
            r is None <==> spec_convert(types_view(types@), converts_view(converts@), from as int, to as int, data@) is None,
            r matches Some(v) ==> spec_convert(types_view(types@), converts_view(converts@), from as int, to as int, data@) == Some(v@),
    {
        let ghost cs = converts_view(converts@);
        let ghost tv = types_view(types@);
        let f = Self::true_id(types, from);
        let t = Self::true_id(types, to);
        let void_name = str_chars("void");
        proof {
            lemma_builtin_find(tv, void_id());
            lemma_resolve(tv, to as int);
        }
        let void = Self::c2id(types, &void_name);
        if Self::is_fundamental(f) && Self::is_fundamental(t) && f != void && t != void {
            return Some(simple_convertor(types, t, data));
        }
        let mut i: usize = 0;
        while i < converts.len()
            invariant
                cs == converts_view(converts@),
                tv == types_view(types@),
                types_ok(tv),
                t < tv.len(),
                f as int == resolve(tv, from as int),
                t as int == resolve(tv, to as int),
                !(f < builtin_count() && t < builtin_count() && f != void_id() && t != void_id()),
                i <= converts@.len(),
                find_convert(cs, f as int, t as int, 0) == find_convert(cs, f as int, t as int, i as int),
            decreases converts@.len() - i,
        {
            let c = &converts[i];
            assert(cs[i as int] == c@);
            if c.from == f && c.to == t {
                return Some(match &c.convertor {
                    ConvertTemplate::Cast => simple_convertor(types, t, data),
                    ConvertTemplate::Call(g) => {
                        let mut r = g.clone();
                        r.push('(');
                        push_chars(&mut r, data);
                        r.push(')');
                        assert(r@ =~= g@ + seq!['('] + data@ + seq![')']);
                        r
                    },
                });
            }
            i += 1;
        }
        None
    }
}

/// Whether `s` holds a space.
fn find_space(s: &Vec<char>) -> (r: bool)
    ensures
        r == has_space(s@),
{
    let mut i: usize = 0;
    while i < s.len()
        invariant
            i <= s.len(),
            forall|k: int| 0 <= k < i ==> s@[k] != ' ',
        decreases s.len() - i,
    {
        if s[i] == ' ' {
            return true;
        }
        i += 1;
    }
    false
}

/// `data as T` for the Rust name `T` of type `to`.
fn simple_convertor(types: &Vec<Type>, to: TypeID, data: &Vec<char>) -> (r: Vec<char>)
    requires
        table_wf(types_view(types@)),
        to < types_view(types@).len(),
    ensures
        r@ == simple_convert(types_view(types@), to as int, data@),
{
    let mut r: Vec<char> = Vec::new();
    if !find_space(data) {
        push_chars(&mut r, data);
    } else {
        r.push('(');
        push_chars(&mut r, data);
        r.push(')');
    }
    push_str(&mut r, " as ");
    push_chars(&mut r, Type::id2rust(types, to));
    r
}

/// Replacing each `a b` pair of tokens, scanning from the front, with `m`.
pub open spec fn merge_pair(ts: Seq<SpecToken>, a: SpecToken, b: SpecToken, m: SpecToken) -> Seq<SpecToken>
    decreases ts.len(),
{
    if ts.len() < 2 {
        ts
    } else if ts[0] == a && ts[1] == b {
        seq![m] + merge_pair(ts.skip(2), a, b, m)
    } else {
        seq![ts[0]] + merge_pair(ts.drop_first(), a, b, m)
    }
}

/// The two-word C type names, in the order they are joined.
pub open spec fn word_pairs() -> Seq<(Seq<char>, Seq<char>)> {
    seq![
        ("signed"@, "char"@),
        ("unsigned"@, "char"@),
        ("signed"@, "short"@),
        ("unsigned"@, "short"@),
        ("signed"@, "int"@),
        ("unsigned"@, "int"@),
        ("signed"@, "long"@),
        ("unsigned"@, "long"@),
    ]
}

/// Two words joined by a space.
pub open spec fn joined(p: (Seq<char>, Seq<char>)) -> Seq<char> {
    p.0 + seq![' '] + p.1
}

/// Joining the two-word type names from pair `k` on.
pub open spec fn merge_words_from(ts: Seq<SpecToken>, k: int) -> Seq<SpecToken>
    decreases word_pairs().len() - k,
{
    if k < 0 || k >= word_pairs().len() {
        ts
    } else {
        let p = word_pairs()[k];
        merge_words_from(
            merge_pair(ts, SpecToken::Name(p.0), SpecToken::Name(p.1), SpecToken::Name(joined(p))),
            k + 1,
        )
    }
}

/// The tokens once two-word type names are joined into one name and `& &`
/// into `&&`.
pub open spec fn merge_type_words(ts: Seq<SpecToken>) -> Seq<SpecToken> {
    merge_pair(merge_words_from(ts, 0), SpecToken::Ampersand, SpecToken::Ampersand, SpecToken::DoubleAmpersand)
}

/// No `a` is directly followed by `b` in `ts`.
pub open spec fn no_pair(ts: Seq<SpecToken>, a: SpecToken, b: SpecToken) -> bool {
    forall|k: int| 0 <= k < ts.len() - 1 ==> !(#[trigger] ts[k] == a && ts[k + 1] == b)
}

/// The first token after replacing pairs: the joined token where the text
/// starts with a pair, else the first token.
proof fn lemma_merge_pair_first(ts: Seq<SpecToken>, a: SpecToken, b: SpecToken, m: SpecToken)
    ensures
        merge_pair(ts, a, b, m).len() <= ts.len(),
        ts.len() > 0 ==> merge_pair(ts, a, b, m).len() > 0,
        ts.len() > 0 ==> merge_pair(ts, a, b, m)[0] == (if ts.len() >= 2 && ts[0] == a && ts[1] == b { m } else { ts[0] }),
    decreases ts.len(),
{
    if ts.len() >= 2 {
        if ts[0] == a && ts[1] == b {
            lemma_merge_pair_first(ts.skip(2), a, b, m);
        } else {
            lemma_merge_pair_first(ts.drop_first(), a, b, m);
        }
    }
}

/// Without a pair to replace, nothing changes.
proof fn lemma_merge_pair_none(ts: Seq<SpecToken>, a: SpecToken, b: SpecToken, m: SpecToken)
    requires
        no_pair(ts, a, b),
    ensures
        merge_pair(ts, a, b, m) == ts,
    decreases ts.len(),
{
    if ts.len() >= 2 {
        assert(!(ts[0] == a && ts[1] == b));
        let rest = ts.drop_first();
        assert forall|k: int| 0 <= k < rest.len() - 1 implies !(#[trigger] rest[k] == a && rest[k + 1] == b) by {
            assert(rest[k] == ts[k + 1] && rest[k + 1] == ts[k + 2]);
            assert(!(ts[k + 1] == a && ts[k + 2] == b));
        }
        lemma_merge_pair_none(rest, a, b, m);
        assert(seq![ts[0]] + rest =~= ts);
    }
}

/// Replacing the pairs `a b` by `m` keeps out a pair `c d` that was not
/// there, when `m` is neither `c` nor `d`; and leaves no `a b` when `m` is
/// neither `a` nor `b`.
proof fn lemma_merge_pair_clears(ts: Seq<SpecToken>, a: SpecToken, b: SpecToken, m: SpecToken, c: SpecToken, d: SpecToken)
    requires
        m != c,
        m != d,
        no_pair(ts, c, d) || (c == a && d == b),
    ensures
        no_pair(merge_pair(ts, a, b, m), c, d),
    decreases ts.len(),
{
    let r = merge_pair(ts, a, b, m);
    if ts.len() >= 2 {
        if ts[0] == a && ts[1] == b {
            let rest = ts.skip(2);
            if no_pair(ts, c, d) {
                assert forall|k: int| 0 <= k < rest.len() - 1 implies !(#[trigger] rest[k] == c && rest[k + 1] == d) by {
                    assert(rest[k] == ts[k + 2] && rest[k + 1] == ts[k + 3]);
                    assert(!(ts[k + 2] == c && ts[k + 3] == d));
                }
            }
            lemma_merge_pair_clears(rest, a, b, m, c, d);
            let t = merge_pair(rest, a, b, m);
            assert(r == seq![m] + t);
            assert forall|k: int| 0 <= k < r.len() - 1 implies !(#[trigger] r[k] == c && r[k + 1] == d) by {
                if k > 0 {
                    assert(r[k] == t[k - 1] && r[k + 1] == t[k]);
                }
            }
        } else {
            let rest = ts.drop_first();
            if no_pair(ts, c, d) {
                assert forall|k: int| 0 <= k < rest.len() - 1 implies !(#[trigger] rest[k] == c && rest[k + 1] == d) by {
                    assert(rest[k] == ts[k + 1] && rest[k + 1] == ts[k + 2]);
                    assert(!(ts[k + 1] == c && ts[k + 2] == d));
                }
            }
            lemma_merge_pair_clears(rest, a, b, m, c, d);
            lemma_merge_pair_first(rest, a, b, m);
            let t = merge_pair(rest, a, b, m);
            assert(r == seq![ts[0]] + t);
            assert forall|k: int| 0 <= k < r.len() - 1 implies !(#[trigger] r[k] == c && r[k + 1] == d) by {
                if k > 0 {
                    assert(r[k] == t[k - 1] && r[k + 1] == t[k]);
                } else {
                    assert(r[0] == ts[0] && r[1] == t[0]);
                    if no_pair(ts, c, d) {
                        assert(!(ts[0] == c && ts[1] == d));
                    }
                }
            }
        }
    }
}

/// The first word of two-word type name `j`, its second word, and the name
/// they are joined into.
spec fn word_a(j: int) -> SpecToken {
    SpecToken::Name(word_pairs()[j].0)
}

spec fn word_b(j: int) -> SpecToken {
    SpecToken::Name(word_pairs()[j].1)
}

spec fn word_joined(j: int) -> SpecToken {
    SpecToken::Name(joined(word_pairs()[j]))
}

/// No two-word type name before pair `k` is left unjoined.
spec fn words_clear(ts: Seq<SpecToken>, k: int) -> bool {
    forall|j: int| 0 <= j < k ==> #[trigger] no_pair(ts, word_a(j), word_b(j))
}

/// A joined name is none of the single words.
proof fn lemma_joined_differs()
    ensures
        forall|j: int, k: int| #![trigger word_joined(k), word_a(j)] 0 <= j < 8 && 0 <= k < 8 ==> word_joined(k) != word_a(j) && word_joined(k) != word_b(j),
{
    reveal_strlit("signed");
    reveal_strlit("unsigned");
    reveal_strlit("char");
    reveal_strlit("short");
    reveal_strlit("int");
    reveal_strlit("long");
    assert forall|j: int, k: int| #![trigger word_joined(k), word_a(j)] 0 <= j < 8 && 0 <= k < 8 implies word_joined(k) != word_a(j) && word_joined(k) != word_b(j) by {
        assert(joined(word_pairs()[k]).len() >= 10);
        assert(word_pairs()[j].0.len() <= 8 && word_pairs()[j].1.len() <= 8);
    }
}

proof fn lemma_merge_words_clear(ts: Seq<SpecToken>, k: int)
    requires
        0 <= k <= 8,
        words_clear(ts, k),
    ensures
        words_clear(merge_words_from(ts, k), 8),
    decreases 8 - k,
{
    if k < 8 {
        lemma_joined_differs();
        let ts2 = merge_pair(ts, word_a(k), word_b(k), word_joined(k));
        assert forall|j: int| 0 <= j < k + 1 implies #[trigger] no_pair(ts2, word_a(j), word_b(j)) by {
            lemma_merge_pair_clears(ts, word_a(k), word_b(k), word_joined(k), word_a(j), word_b(j));
        }
        lemma_merge_words_clear(ts2, k + 1);
    }
}

proof fn lemma_merge_words_none(ts: Seq<SpecToken>, k: int)
    requires
        0 <= k <= 8,
        words_clear(ts, 8),
    ensures
        merge_words_from(ts, k) == ts,
    decreases 8 - k,
{
    if k < 8 {
        assert(no_pair(ts, word_a(k), word_b(k)));
        lemma_merge_pair_none(ts, word_a(k), word_b(k), word_joined(k));
        lemma_merge_words_none(ts, k + 1);
    }
}

/// Joining type words a second time changes nothing: once joined, no
/// two-word type name and no `& &` is left.
pub proof fn law_merge_type_words_idempotent(ts: Seq<SpecToken>)
    ensures
        merge_type_words(merge_type_words(ts)) == merge_type_words(ts),
{
    let w = merge_words_from(ts, 0);
    lemma_merge_words_clear(ts, 0);
    let r = merge_type_words(ts);
    assert forall|j: int| 0 <= j < 8 implies #[trigger] no_pair(r, word_a(j), word_b(j)) by {
        assert(no_pair(w, word_a(j), word_b(j)));
        lemma_merge_pair_clears(w, SpecToken::Ampersand, SpecToken::Ampersand, SpecToken::DoubleAmpersand, word_a(j), word_b(j));
    }
    lemma_merge_pair_clears(w, SpecToken::Ampersand, SpecToken::Ampersand, SpecToken::DoubleAmpersand, SpecToken::Ampersand, SpecToken::Ampersand);
    lemma_merge_words_none(r, 0);
    lemma_merge_pair_none(r, SpecToken::Ampersand, SpecToken::Ampersand, SpecToken::DoubleAmpersand);
}

/// After joining, no two-word built-in type name is left split: whatever
/// the tokens, none of `signed`/`unsigned` followed by `char`, `short`,
/// `int` or `long` remains, and no `&` directly follows a `&`.
pub proof fn law_type_words_joined(ts: Seq<SpecToken>)
    ensures
        no_pair(merge_type_words(ts), SpecToken::Name("signed"@), SpecToken::Name("char"@)),
        no_pair(merge_type_words(ts), SpecToken::Name("unsigned"@), SpecToken::Name("char"@)),
        no_pair(merge_type_words(ts), SpecToken::Name("signed"@), SpecToken::Name("short"@)),
        no_pair(merge_type_words(ts), SpecToken::Name("unsigned"@), SpecToken::Name("short"@)),
        no_pair(merge_type_words(ts), SpecToken::Name("signed"@), SpecToken::Name("int"@)),
        no_pair(merge_type_words(ts), SpecToken::Name("unsigned"@), SpecToken::Name("int"@)),
        no_pair(merge_type_words(ts), SpecToken::Name("signed"@), SpecToken::Name("long"@)),
        no_pair(merge_type_words(ts), SpecToken::Name("unsigned"@), SpecToken::Name("long"@)),
        no_pair(merge_type_words(ts), SpecToken::Ampersand, SpecToken::Ampersand),
{
    let w = merge_words_from(ts, 0);
    lemma_merge_words_clear(ts, 0);
    let r = merge_type_words(ts);
    assert forall|j: int| 0 <= j < 8 implies #[trigger] no_pair(r, word_a(j), word_b(j)) by {
        assert(no_pair(w, word_a(j), word_b(j)));
        lemma_merge_pair_clears(w, SpecToken::Ampersand, SpecToken::Ampersand, SpecToken::DoubleAmpersand, word_a(j), word_b(j));
    }
    lemma_merge_pair_clears(w, SpecToken::Ampersand, SpecToken::Ampersand, SpecToken::DoubleAmpersand, SpecToken::Ampersand, SpecToken::Ampersand);
    assert(no_pair(r, word_a(0), word_b(0)));
    assert(no_pair(r, word_a(1), word_b(1)));
    assert(no_pair(r, word_a(2), word_b(2)));
    assert(no_pair(r, word_a(3), word_b(3)));
    assert(no_pair(r, word_a(4), word_b(4)));
    assert(no_pair(r, word_a(5), word_b(5)));
    assert(no_pair(r, word_a(6), word_b(6)));
    assert(no_pair(r, word_a(7), word_b(7)));
}

/// `ts` with each `a b` pair replaced by `m`.
fn merge_pair_tokens(tokens: &Vec<Token>, a: &Token, b: &Token, m: &Token) -> (r: Vec<Token>)
    ensures
        tokens_view(r@) == merge_pair(tokens_view(tokens@), a@, b@, m@),
{
    let ghost ts = tokens_view(tokens@);
    let n = tokens.len();
    let mut out: Vec<Token> = Vec::new();
    let mut i: usize = 0;
    assert(ts.skip(0) =~= ts);
    while n - i > 1
        invariant
            n == tokens.len(),
            ts == tokens_view(tokens@),
            i <= n,
            merge_pair(ts, a@, b@, m@) == tokens_view(out@) + merge_pair(ts.skip(i as int), a@, b@, m@),
        decreases n - i,
    {
        let ghost rest = ts.skip(i as int);
        let ghost before = tokens_view(out@);
        assert(rest[0] == tokens@[i as int]@ && rest[1] == tokens@[i + 1]@);
        if tokens[i].same(a) && tokens[i + 1].same(b) {
            out.push(m.copy());
            assert(rest.skip(2) =~= ts.skip(i + 2));
            assert(tokens_view(out@) =~= before + seq![m@]);
            i += 2;
        } else {
            out.push(tokens[i].copy());
            assert(rest.drop_first() =~= ts.skip(i + 1));
            assert(tokens_view(out@) =~= before + seq![rest[0]]);
            i += 1;
        }
    }
    let ghost before = tokens_view(out@);
    if i < n {
        out.push(tokens[i].copy());
        assert(ts.skip(i as int) =~= seq![tokens@[i as int]@]);
    } else {
        assert(ts.skip(i as int) =~= Seq::<SpecToken>::empty());
    }
    assert(tokens_view(out@) =~= merge_pair(ts, a@, b@, m@));
    out
}

/// The name token `a b`.
fn joined_name(a: &str, b: &str) -> (r: Token)
    ensures
        r@ == SpecToken::Name(joined((a@, b@))),
{
    let mut x = str_chars(a);
    x.push(' ');
    push_str(&mut x, b);
    assert(x@ =~= joined((a@, b@)));
    Token::Name(x)
}

impl Type {
    /// Prepares the tokens and the table: joins two-word type names and `&&`,
    /// then adds the built-in types to the (empty) table.
    pub fn init(code: &mut Code, types: &mut Vec<Type>)
        requires
            types_view(old(types)@).len() == 0,
        ensures
            final(code)@ == merge_type_words(old(code)@),
            types_ok(types_view(final(types)@)),
            types_view(final(types)@) == builtin_table(),
    {
        let pairs: [(&str, &str); 8] = [
            ("signed", "char"),
            ("unsigned", "char"),
            ("signed", "short"),
            ("unsigned", "short"),
            ("signed", "int"),
            ("unsigned", "int"),
            ("signed", "long"),
            ("unsigned", "long"),
        ];
        assert(pairs@.len() == word_pairs().len());
        assert(forall|k: int| 0 <= k < 8 ==> pairs@[k].0@ == #[trigger] word_pairs()[k].0 && pairs@[k].1@ == word_pairs()[k].1);
        let ghost orig = code@;
        let mut k: usize = 0;
        while k < 8
            invariant
                k <= 8,
                pairs@.len() == 8,
                forall|q: int| 0 <= q < 8 ==> pairs@[q].0@ == #[trigger] word_pairs()[q].0 && pairs@[q].1@ == word_pairs()[q].1,
                merge_words_from(orig, 0) == merge_words_from(code@, k as int),
            decreases 8 - k,
        {
            let (a, b) = pairs[k];
            let ta = Token::Name(str_chars(a));
            let tb = Token::Name(str_chars(b));
            let m = joined_name(a, b);
            let merged = merge_pair_tokens(&code.tokens, &ta, &tb, &m);
            code.set(merged);
            k += 1;
        }
        let merged = merge_pair_tokens(&code.tokens, &Token::Ampersand, &Token::Ampersand, &Token::DoubleAmpersand);
        code.set(merged);
        Self::all_types(types);
        proof {
            let tv = types_view(types@);
            assert forall|i: int| 0 <= i < 16 implies tv[i] == builtin_table()[i] by {
                assert(is_builtin(tv[i], i));
            }
            assert(tv =~= builtin_table());
        }
    }

    /// Adds built-in type `i`, a type of its own.
    fn add_builtin_full(types: &mut Vec<Type>, c_name: &str, rust_name: &str, i: Ghost<int>)
        requires
            0 <= i@ < 10,
            types_view(old(types)@).len() == i@,
            table_wf(types_view(old(types)@)),
            forall|j: int| 0 <= j < i@ ==> #[trigger] is_builtin(types_view(old(types)@)[j], j),
            c_name@ == builtin_full()[i@].0,
            rust_name@ == builtin_full()[i@].1,
        ensures
            types_view(final(types)@).len() == i@ + 1,
            table_wf(types_view(final(types)@)),
            forall|j: int| 0 <= j <= i@ ==> #[trigger] is_builtin(types_view(final(types)@)[j], j),
    {
        proof {
            lemma_builtin_names();
            lemma_find_c(types_view(old(types)@), c_name@);
            assert forall|j: int| 0 <= j < i@ implies types_view(old(types)@)[j].c_name != c_name@ by {
                assert(is_builtin(types_view(old(types)@)[j], j));
                assert(builtin_c_name(j) != builtin_c_name(i@));
            }
        }
        Self::add_full(types, str_chars(c_name), str_chars(rust_name));
        assert forall|j: int| 0 <= j <= i@ implies #[trigger] is_builtin(types_view(types@)[j], j) by {
            if j < i@ {
                assert(types_view(types@)[j] == types_view(old(types)@)[j]);
            }
        }
    }

    /// Adds built-in type `i`, an alias of the type called `to`.
    fn add_builtin_alias(types: &mut Vec<Type>, c_name: &str, to: &str, i: Ghost<int>)
        requires
            10 <= i@ < 16,
            types_view(old(types)@).len() == i@,
            table_wf(types_view(old(types)@)),
            forall|j: int| 0 <= j < i@ ==> #[trigger] is_builtin(types_view(old(types)@)[j], j),
            c_name@ == builtin_alias()[i@ - 10].0,
            to@ == builtin_c_name(builtin_alias()[i@ - 10].1 as int),
        ensures
            types_view(final(types)@).len() == i@ + 1,
            table_wf(types_view(final(types)@)),
            forall|j: int| 0 <= j <= i@ ==> #[trigger] is_builtin(types_view(final(types)@)[j], j),
    {
        let target = str_chars(to);
        proof {
            lemma_builtin_names();
            lemma_find_c(types_view(old(types)@), c_name@);
            lemma_find_c(types_view(old(types)@), target@);
            let t = builtin_alias()[i@ - 10].1 as int;
            assert(is_builtin(types_view(old(types)@)[t], t));
            assert forall|j: int| 0 <= j < i@ implies types_view(old(types)@)[j].c_name != c_name@ by {
                assert(is_builtin(types_view(old(types)@)[j], j));
                assert(builtin_c_name(j) != builtin_c_name(i@));
            }
        }
        let id = Self::c2id(types, &target);
        Self::add_alias(types, str_chars(c_name), id);
        assert forall|j: int| 0 <= j <= i@ implies #[trigger] is_builtin(types_view(types@)[j], j) by {
            if j < i@ {
                assert(types_view(types@)[j] == types_view(old(types)@)[j]);
            }
        }
    }

    /// Adds the built-in types to an empty table.
    fn all_types(types: &mut Vec<Type>)
        requires
            types_view(old(types)@).len() == 0,
        ensures
            types_ok(types_view(final(types)@)),
            types_view(final(types)@).len() == builtin_count(),
    {
        Self::add_builtin_full(types, "signed char", "i8", Ghost(0));
        Self::add_builtin_full(types, "unsigned char", "u8", Ghost(1));
        Self::add_builtin_full(types, "signed short", "i16", Ghost(2));
        Self::add_builtin_full(types, "unsigned short", "u16", Ghost(3));
        Self::add_builtin_full(types, "signed int", "i32", Ghost(4));
        Self::add_builtin_full(types, "unsigned int", "u32", Ghost(5));
        Self::add_builtin_full(types, "signed long", "i64", Ghost(6));
        Self::add_builtin_full(types, "unsigned long", "u64", Ghost(7));
        Self::add_builtin_full(types, "_Bool", "bool", Ghost(8));
        Self::add_builtin_full(types, "void", "()", Ghost(9));
        Self::add_builtin_alias(types, "char", "unsigned char", Ghost(10));
        Self::add_builtin_alias(types, "short", "signed short", Ghost(11));
        Self::add_builtin_alias(types, "int", "signed int", Ghost(12));
        Self::add_builtin_alias(types, "long", "signed long", Ghost(13));
        Self::add_builtin_alias(types, "signed", "signed int", Ghost(14));
        Self::add_builtin_alias(types, "unsigned", "unsigned int", Ghost(15));
    }
}

} // verus!
