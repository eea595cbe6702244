//! The C preprocessor: `#define`, `#ifdef`, `#ifndef` and `#include`.

use vstd::prelude::*;

use super::ty::{Code, SmartIter};
use crate::error::{Error, SpecError};
use crate::text::{chars_start_at, starts_at, str_chars};
use crate::token::{SpecToken, Token, TokenStr, chars_eq, tokens_view};

verus! {

/// A macro: a name and the tokens it stands for.
#[derive(Debug)]
pub struct Macro {
    pub name: Vec<char>,
    pub data: Vec<Token>,
}

/// The mathematical value of a [`Macro`].
pub struct SpecMacro {
    pub name: Seq<char>,
    pub data: Seq<SpecToken>,
}

impl View for Macro {
    type V = SpecMacro;

    open spec fn view(&self) -> SpecMacro {
        SpecMacro { name: self.name@, data: tokens_view(self.data@) }
    }
}

/// The views of a sequence of macros.
pub open spec fn macros_view(ms: Seq<Macro>) -> Seq<SpecMacro> {
    ms.map_values(|m: Macro| m@)
}

/// A directory searched for system headers, ending in `/`.
#[derive(Debug)]
pub struct SystemPath(pub Vec<char>);

impl SystemPath {
    /// The directory `path`, which must be absolute, with a `/` added at the
    /// end if it has none.
    pub fn new(path: &str) -> (r: Self)
        requires
            path@.len() > 0,
            path@[0] == '/',
        ensures
            r.0@ == if path@.last() == '/' { path@ } else { path@.push('/') },
    {
        let mut p = str_chars(path);
        if p[p.len() - 1] != '/' {
            p.push('/');
        }
        SystemPath(p)
    }

    /// The directories searched by default: `/usr/include`.
    pub fn default() -> (r: Vec<Self>)
        ensures
            r@.len() == 1,
            r@[0].0@ == "/usr/include"@.push('/'),
    {
        proof { reveal_strlit("/usr/include"); }
        vec![Self::new("/usr/include")]
    }
}

/// The first macro at or after `k` called `name`.
pub open spec fn find_macro_from(ms: Seq<SpecMacro>, name: Seq<char>, k: int) -> Option<int>
    decreases ms.len() - k,
{
    if k < 0 || k >= ms.len() {
        None
    } else if ms[k].name == name {
        Some(k)
    } else {
        find_macro_from(ms, name, k + 1)
    }
}

/// The first macro called `name`.
pub open spec fn find_macro(ms: Seq<SpecMacro>, name: Seq<char>) -> Option<int> {
    find_macro_from(ms, name, 0)
}

/// `s` with `s[from..to]` replaced by `ins`.
pub open spec fn splice(s: Seq<SpecToken>, from: int, to: int, ins: Seq<SpecToken>) -> Seq<SpecToken> {
    s.take(from) + ins + s.skip(to)
}

/// The position of the first newline at or after `k`.
pub open spec fn find_newline(ts: Seq<SpecToken>, k: int) -> Option<int>
    decreases ts.len() - k,
{
    if k < 0 || k >= ts.len() {
        None
    } else if ts[k] is Newline {
        Some(k)
    } else {
        find_newline(ts, k + 1)
    }
}

/// Scanning from `q` for the `endif` that closes the open conditionals
/// (`need` of them): the position of that `endif` name.
pub open spec fn endif_scan(ts: Seq<SpecToken>, q: int, need: int) -> Result<int, SpecError>
    decreases ts.len() - q,
{
    if q < 0 || q >= ts.len() {
        Err(SpecError::Eof)
    } else if ts[q] is Hashtag {
        if q + 1 >= ts.len() {
            Err(SpecError::Eof)
        } else {
            match ts[q + 1] {
                SpecToken::Name(d) => {
                    let need2 = if starts_at(d, 0, "if"@) {
                        need + 1
                    } else if d == "endif"@ {
                        need - 1
                    } else {
                        need
                    };
                    if need2 == 0 {
                        Ok(q + 1)
                    } else {
                        endif_scan(ts, q + 2, need2)
                    }
                },
                t => Err(SpecError::Unexpected(t)),
            }
        }
    } else {
        endif_scan(ts, q + 1, need)
    }
}

/// Whether the condition tokens of `#ifdef` name a macro: there must be one
/// token, a name.
pub open spec fn spec_ifdef(tokens: Seq<SpecToken>, ms: Seq<SpecMacro>) -> Result<bool, SpecError> {
    if tokens.len() != 1 {
        Err(SpecError::TooManyOperands)
    } else {
        match tokens[0] {
            SpecToken::Name(n) => Ok(find_macro(ms, n) is Some),
            t => Err(SpecError::Unexpected(t)),
        }
    }
}

/// The state of the preprocessor between two tokens.
pub struct PpState {
    pub code: Seq<SpecToken>,
    pub pos: int,
    pub macros: Seq<SpecMacro>,
    pub was_hashtag: bool,
}

/// What one step of the preprocessor leads to.
pub enum PpStep {
    Next(PpState),
    Stop(Result<(), SpecError>),
}

/// `#ifdef` (or, with `negate`, `#ifndef`) whose `#` is at `hp`: the state after.
pub open spec fn pp_conditional(s: PpState, hp: int, negate: bool) -> PpStep {
    let p1 = hp + 1;
    match endif_scan(s.code, p1 + 1, 1) {
        Err(e) => PpStep::Stop(Err(e)),
        Ok(e) => match find_newline(s.code, p1) {
            None => PpStep::Stop(Err(SpecError::NoNewline)),
            Some(nl) => match spec_ifdef(s.code.subrange(p1 + 1, nl), s.macros) {
                Err(err) => PpStep::Stop(Err(err)),
                Ok(b) => {
                    if b != negate {
                        let c1 = splice(s.code, e - 1, e + 1, Seq::empty());
                        PpStep::Next(PpState { code: splice(c1, hp, p1, Seq::empty()), pos: hp, macros: s.macros, was_hashtag: true })
                    } else {
                        PpStep::Next(PpState { code: splice(s.code, hp, e, Seq::empty()), pos: hp, macros: s.macros, was_hashtag: true })
                    }
                },
            },
        },
    }
}

/// One step of the preprocessor: the token at `pos`, and what it starts.
pub open spec fn pp_step(s: PpState) -> PpStep {
    let ts = s.code;
    let p = s.pos;
    if p < 0 || p >= ts.len() {
        PpStep::Stop(Ok(()))
    } else {
        match ts[p] {
            SpecToken::Name(name) => match find_macro(s.macros, name) {
                Some(m) => if !s.was_hashtag {
                    PpStep::Next(PpState { code: splice(ts, p, p + 1, s.macros[m].data), pos: p + 1, ..s })
                } else {
                    PpStep::Next(PpState { pos: p + 1, ..s })
                },
                None => PpStep::Next(PpState { pos: p + 1, ..s }),
            },
            SpecToken::Hashtag => {
                let p1 = p + 1;
                if p1 >= ts.len() {
                    PpStep::Stop(Err(SpecError::Eof))
                } else {
                    match ts[p1] {
                        SpecToken::Name(d) => {
                            if d == "define"@ {
                                let p2 = p1 + 1;
                                if p2 >= ts.len() {
                                    PpStep::Stop(Err(SpecError::Eof))
                                } else {
                                    match ts[p2] {
                                        SpecToken::Name(mname) => match find_newline(ts, p2 + 1) {
                                            None => PpStep::Stop(Err(SpecError::Eof)),
                                            Some(nl) => PpStep::Next(PpState {
                                                code: splice(ts, p, nl, Seq::empty()),
                                                pos: p,
                                                macros: s.macros.push(SpecMacro { name: mname, data: ts.subrange(p2 + 1, nl) }),
                                                was_hashtag: true,
                                            }),
                                        },
                                        t => PpStep::Stop(Err(SpecError::Unexpected(t))),
                                    }
                                }
                            } else if d == "ifdef"@ {
                                pp_conditional(s, p, false)
                            } else if d == "ifndef"@ {
                                pp_conditional(s, p, true)
                            } else if d == "include"@ {
                                PpStep::Next(PpState { code: splice(ts, p, p1, Seq::empty()), pos: p, macros: s.macros, was_hashtag: true })
                            } else {
                                PpStep::Stop(Err(SpecError::UnknownDirective(d)))
                            }
                        },
                        SpecToken::Newline => PpStep::Next(PpState { pos: p1 + 1, was_hashtag: true, ..s }),
                        t => PpStep::Stop(Err(SpecError::Unexpected(t))),
                    }
                }
            },
            SpecToken::Newline => PpStep::Next(PpState { pos: p + 1, was_hashtag: false, ..s }),
            _ => PpStep::Next(PpState { pos: p + 1, ..s }),
        }
    }
}

/// Running the preprocessor for at most `fuel` steps: where it stops, and how.
pub open spec fn pp_run(s: PpState, fuel: nat) -> Option<(PpState, Result<(), SpecError>)>
    decreases fuel,
{
    if fuel == 0 {
        None
    } else {
        match pp_step(s) {
            PpStep::Stop(r) => Some((s, r)),
            PpStep::Next(s2) => pp_run(s2, (fuel - 1) as nat),
        }
    }
}

/// The preprocessor stops on `s` (a macro may expand without end).
pub open spec fn pp_halts(s: PpState) -> bool {
    exists|fuel: nat| #[trigger] pp_run(s, fuel) is Some
}

/// Where the preprocessor stops on `s`, and how.
pub open spec fn pp_result(s: PpState) -> (PpState, Result<(), SpecError>) {
    pp_run(s, choose|fuel: nat| #[trigger] pp_run(s, fuel) is Some).unwrap()
}

/// The state at the start, on `code` with the macros `ms`.
pub open spec fn pp_start(code: Seq<SpecToken>, ms: Seq<SpecMacro>) -> PpState {
    PpState { code, pos: 0, macros: ms, was_hashtag: false }
}

/// More fuel changes nothing once the run stops.
pub proof fn lemma_pp_run_fuel(s: PpState, f1: nat, f2: nat)
    requires
        pp_run(s, f1) is Some,
        f1 <= f2,
    ensures
        pp_run(s, f2) == pp_run(s, f1),
    decreases f1,
{
    if let PpStep::Next(s2) = pp_step(s) {
        lemma_pp_run_fuel(s2, (f1 - 1) as nat, (f2 - 1) as nat);
    }
}

/// Any fuel that suffices gives the result.
pub proof fn lemma_pp_result(s: PpState, f: nat)
    requires
        pp_run(s, f) is Some,
    ensures
        pp_run(s, f) == Some(pp_result(s)),
{
    let g = choose|fuel: nat| #[trigger] pp_run(s, fuel) is Some;
    if f <= g {
        lemma_pp_run_fuel(s, f, g);
    } else {
        lemma_pp_run_fuel(s, g, f);
    }
}

/// The state in which a run over `code` with no macros and no directive ends.
pub open spec fn pp_plain_end(code: Seq<SpecToken>) -> PpState {
    PpState { code, pos: code.len() as int, macros: Seq::empty(), was_hashtag: false }
}

proof fn lemma_pp_plain_run(code: Seq<SpecToken>, p: int)
    requires
        0 <= p <= code.len(),
        forall|k: int| 0 <= k < code.len() ==> !(#[trigger] code[k] is Hashtag),
    ensures
        pp_run(PpState { code, pos: p, macros: Seq::empty(), was_hashtag: false }, (code.len() - p + 1) as nat)
            == Some((pp_plain_end(code), Ok::<(), SpecError>(()))),
    decreases code.len() - p,
{
    let s = PpState { code, pos: p, macros: Seq::<SpecMacro>::empty(), was_hashtag: false };
    if p < code.len() {
        assert(!(code[p] is Hashtag));
        if let SpecToken::Name(name) = code[p] {
            assert(find_macro(Seq::<SpecMacro>::empty(), name) is None);
        }
        assert(pp_step(s) == PpStep::Next(PpState { pos: p + 1, ..s }));
        lemma_pp_plain_run(code, p + 1);
    }
}

/// Tokens without a `#`, run through the preprocessor with no macros
/// defined, come out as they went in: the run ends, without error, with
/// the tokens unchanged and still no macro.
pub proof fn law_preprocess_keeps_plain_code(code: Seq<SpecToken>)
    requires
        forall|k: int| 0 <= k < code.len() ==> !(#[trigger] code[k] is Hashtag),
    ensures
        pp_halts(pp_start(code, Seq::empty())),
        pp_result(pp_start(code, Seq::empty())) == (pp_plain_end(code), Ok::<(), SpecError>(())),
{
    let s0 = pp_start(code, Seq::empty());
    lemma_pp_plain_run(code, 0);
    assert(pp_run(s0, (code.len() + 1) as nat) is Some);
    lemma_pp_result(s0, (code.len() + 1) as nat);
}

/// `ms2` starts with the macros `ms`.
pub open spec fn extends(ms2: Seq<SpecMacro>, ms: Seq<SpecMacro>) -> bool {
    ms.len() <= ms2.len() && ms2.subrange(0, ms.len() as int) == ms
}

proof fn lemma_find_macro_extends(ms: Seq<SpecMacro>, ms2: Seq<SpecMacro>, name: Seq<char>, k: int)
    requires
        extends(ms2, ms),
        0 <= k,
        find_macro_from(ms, name, k) is Some,
    ensures
        find_macro_from(ms2, name, k) == find_macro_from(ms, name, k),
    decreases ms.len() - k,
{
    if k < ms.len() {
        assert(ms2[k] == ms2.subrange(0, ms.len() as int)[k]);
        if ms[k].name != name {
            lemma_find_macro_extends(ms, ms2, name, k + 1);
        }
    }
}

/// One step of the preprocessor forgets no macro: the macros after it
/// start with the macros before it, so every name defined before is still
/// found, as the same macro. A `#define` step adds exactly one macro, at the
/// end, named by the word after `define`; any other step adds none.
pub proof fn law_pp_step_keeps_macros(s: PpState)
    ensures
        pp_step(s) matches PpStep::Next(s2) ==> {
            &&& extends(s2.macros, s.macros)
            &&& forall|n: Seq<char>| #[trigger] find_macro(s.macros, n) is Some
                ==> find_macro(s2.macros, n) == find_macro(s.macros, n)
            &&& s2.macros.len() <= s.macros.len() + 1
            &&& s2.macros.len() == s.macros.len() + 1 ==> {
                &&& 0 <= s.pos && s.pos + 2 < s.code.len()
                &&& s.code[s.pos] is Hashtag
                &&& s.code[s.pos + 1] == SpecToken::Name("define"@)
                &&& s.code[s.pos + 2] == SpecToken::Name(s2.macros.last().name)
            }
        },
        0 <= s.pos && s.pos + 2 < s.code.len() && s.code[s.pos] is Hashtag
            && s.code[s.pos + 1] == SpecToken::Name("define"@) && s.code[s.pos + 2] is Name
            && find_newline(s.code, s.pos + 3) is Some
            ==> (pp_step(s) matches PpStep::Next(s2) && s2.macros.len() == s.macros.len() + 1),
{
    if let PpStep::Next(s2) = pp_step(s) {
        if s2.macros.len() == s.macros.len() + 1 {
            assert(s2.macros.subrange(0, s.macros.len() as int) =~= s.macros);
        } else {
            assert(s2.macros == s.macros);
            assert(s2.macros.subrange(0, s.macros.len() as int) =~= s.macros);
        }
        assert forall|n: Seq<char>| #[trigger] find_macro(s.macros, n) is Some
            implies find_macro(s2.macros, n) == find_macro(s.macros, n) by {
            lemma_find_macro_extends(s.macros, s2.macros, n, 0);
        }
    }
}

proof fn lemma_pp_run_keeps_macros(s: PpState, fuel: nat)
    ensures
        pp_run(s, fuel) matches Some((e, r)) ==> extends(e.macros, s.macros),
    decreases fuel,
{
    law_pp_step_keeps_macros(s);
    if fuel > 0 {
        if let PpStep::Next(s2) = pp_step(s) {
            lemma_pp_run_keeps_macros(s2, (fuel - 1) as nat);
            if let Some((e, r)) = pp_run(s2, (fuel - 1) as nat) {
                assert(e.macros.subrange(0, s.macros.len() as int) =~= e.macros.subrange(0, s2.macros.len() as int).subrange(0, s.macros.len() as int));
            }
        } else {
            assert(s.macros.subrange(0, s.macros.len() as int) =~= s.macros);
        }
    }
}

/// A whole run of the preprocessor forgets no macro: where it ends, the
/// macros start with those it began with, so every macro defined before
/// the run, or by an earlier `#define` in it, is still found.
pub proof fn law_pp_run_keeps_macros(s: PpState)
    requires
        pp_halts(s),
    ensures
        extends(pp_result(s).0.macros, s.macros),
        forall|n: Seq<char>| #[trigger] find_macro(s.macros, n) is Some
            ==> find_macro(pp_result(s).0.macros, n) == find_macro(s.macros, n),
{
    let f = choose|fuel: nat| #[trigger] pp_run(s, fuel) is Some;
    lemma_pp_result(s, f);
    lemma_pp_run_keeps_macros(s, f);
    assert forall|n: Seq<char>| #[trigger] find_macro(s.macros, n) is Some
        implies find_macro(pp_result(s).0.macros, n) == find_macro(s.macros, n) by {
        lemma_find_macro_extends(s.macros, pp_result(s).0.macros, n, 0);
    }
}

/// The position of the first macro called `name`.
fn find_macro_exec(macros: &Vec<Macro>, name: &Vec<char>) -> (r: Option<usize>)
    ensures
        r matches Some(i) ==> find_macro(macros_view(macros@), name@) == Some(i as int) && i < macros@.len(),
        r is None ==> find_macro(macros_view(macros@), name@) is None,
{
    let ghost ms = macros_view(macros@);
    let mut i: usize = 0;
    while i < macros.len()
        invariant
            ms == macros_view(macros@),
            i <= macros@.len(),
            find_macro(ms, name@) == find_macro_from(ms, name@, i as int),
        decreases macros@.len() - i,
    {
        assert(ms[i as int] == macros@[i as int]@);
        if chars_eq(&macros[i].name, name) {
            return Some(i);
        }
        i += 1;
    }
    None
}

/// `s[from..to]` as a new vector.
fn slice_tokens(s: &Vec<Token>, from: usize, to: usize) -> (r: Vec<Token>)
    requires
        from <= to <= s@.len(),
    ensures
        tokens_view(r@) == tokens_view(s@).subrange(from as int, to as int),
{
    let mut r: Vec<Token> = Vec::new();
    let mut i = from;
    while i < to
        invariant
            from <= i <= to <= s@.len(),
            tokens_view(r@) == tokens_view(s@).subrange(from as int, i as int),
        decreases to - i,
    {
        let ghost before = tokens_view(r@);
        r.push(s[i].copy());
        assert(tokens_view(s@)[i as int] == s@[i as int]@);
        assert(tokens_view(r@) =~= before.push(s@[i as int]@));
        assert(tokens_view(r@) =~= tokens_view(s@).subrange(from as int, i + 1));
        i += 1;
    }
    r
}

/// `s` with `s[from..to]` replaced by `ins`.
fn splice_tokens(s: &Vec<Token>, from: usize, to: usize, ins: &Vec<Token>) -> (r: Vec<Token>)
    requires
        from <= to <= s@.len(),
    ensures
        tokens_view(r@) == splice(tokens_view(s@), from as int, to as int, tokens_view(ins@)),
{
    let mut r = slice_tokens(s, 0, from);
    let mid = slice_tokens(ins, 0, ins.len());
    let tail = slice_tokens(s, to, s.len());
    let ghost a = tokens_view(r@);
    let mut m = mid;
    r.append(&mut m);
    let mut t = tail;
    r.append(&mut t);
    proof {
        let v = tokens_view(s@);
        assert(tokens_view(ins@).subrange(0, ins@.len() as int) =~= tokens_view(ins@));
        assert(v.subrange(0, from as int) =~= v.take(from as int));
        assert(v.subrange(to as int, v.len() as int) =~= v.skip(to as int));
        assert(tokens_view(r@) =~= splice(v, from as int, to as int, tokens_view(ins@)));
    }
    r
}

/// The position of the first newline at or after `k`.
fn find_newline_exec(code: &Code, k: usize) -> (r: Option<usize>)
    ensures
        r matches Some(i) ==> find_newline(code@, k as int) == Some(i as int) && k <= i < code@.len(),
        r is None ==> find_newline(code@, k as int) is None,
{
    let mut i = k;
    while i < code.tokens.len()
        invariant
            k <= i,
            find_newline(code@, k as int) == find_newline(code@, i as int),
        decreases code@.len() - i,
    {
        assert(code@[i as int] == code.tokens@[i as int]@);
        if matches!(code.tokens[i], Token::Newline) {
            return Some(i);
        }
        i += 1;
    }
    None
}

/// The position of the `endif` that closes the conditional whose body
/// starts at the cursor.
fn endif(it: SmartIter, code: &Code) -> (r: Result<usize, Error>)
    ensures
        match endif_scan(code@, it.0 as int, 1) {
            Ok(e) => r matches Ok(x) && x as int == e,
            Err(e) => r matches Err(x) && x@ == e,
        },
{
    let mut cur = it;
    let ghost q0 = it.0 as int;
    let mut need: usize = 1;
    let iff = str_chars("if");
    let endif_name = str_chars("endif");
    loop
        invariant
            iff@ == "if"@,
            endif_name@ == "endif"@,
            need >= 1,
            q0 == it.0 as int,
            endif_scan(code@, q0, 1) == endif_scan(code@, cur.0 as int, need as int),
            need <= cur.0 + 1,
        decreases code@.len() - cur.0,
    {
        let t = match cur.next(code) {
            None => return Err(Error::Eof),
            Some(t) => t,
        };
        if matches!(t, Token::Hashtag) {
            let d = match cur.next(code) {
                None => return Err(Error::Eof),
                Some(d) => d,
            };
            let directive = match d.expect_value(TokenStr::Name) {
                Ok(x) => x,
                Err(e) => return Err(e),
            };
            if chars_start_at(directive, 0, &iff) {
                need = need + 1;
            } else if chars_eq(directive, &endif_name) {
                need = need - 1;
            }
            if need == 0 {
                return Ok(cur.pos());
            }
        }
    }
}

/// Whether the condition tokens of `#ifdef` name a macro.
fn ifdef(tokens: &Vec<Token>, macros: &Vec<Macro>) -> (r: Result<bool, Error>)
    ensures
        match spec_ifdef(tokens_view(tokens@), macros_view(macros@)) {
            Ok(b) => r == Ok::<bool, Error>(b),
            Err(e) => r matches Err(x) && x@ == e,
        },
{
    if tokens.len() != 1 {
        return Err(Error::TooManyOperands);
    }
    assert(tokens_view(tokens@)[0] == tokens@[0]@);
    match &tokens[0] {
        Token::Name(name) => Ok(find_macro_exec(macros, name).is_some()),
        t => Err(t.panic()),
    }
}

/// `#ifdef` or (with `negate`) `#ifndef`, the cursor just after its name:
/// keeps the body (dropping the `# endif`) if the condition holds, else moves
/// the cursor past the `endif`.
fn if_directive(it: &mut SmartIter, code: &mut Code, macros: &Vec<Macro>, negate: bool) -> (r: Result<(), Error>)
    requires
        2 <= old(it).0 <= old(code)@.len(),
        !(old(code)@[old(it).0 - 1] is Newline),
    ensures
        r is Err ==> final(code)@ == old(code)@,
        final(it).0 >= 1,
        ({
            let p1 = old(it).0 - 1;
            match endif_scan(old(code)@, old(it).0 as int, 1) {
                Err(e) => r matches Err(x) && x@ == e,
                Ok(e) => match find_newline(old(code)@, p1) {
                    None => r matches Err(x) && x@ == SpecError::NoNewline,
                    Some(nl) => match spec_ifdef(old(code)@.subrange(p1 + 1, nl), macros_view(macros@)) {
                        Err(err) => r matches Err(x) && x@ == err,
                        Ok(b) => r is Ok && if b != negate {
                            final(code)@ == splice(old(code)@, e - 1, e + 1, Seq::empty()) && final(it).0 == old(it).0
                        } else {
                            final(code)@ == old(code)@ && final(it).0 == e + 1
                        },
                    },
                },
            }
        }),
{
    let e = match endif(*it, code) {
        Ok(e) => e,
        Err(x) => return Err(x),
    };
    let p1 = it.pos();
    proof {
        lemma_endif_scan(code@, it.0 as int, 1);
    }
    assert(e < code.tokens.len());
    let nl = match find_newline_exec(code, p1) {
        None => return Err(Error::NoNewline),
        Some(nl) => nl,
    };
    proof { lemma_find_newline(code@, p1 as int); }
    let cond = slice_tokens(&code.tokens, p1 + 1, nl);
    let b = match ifdef(&cond, macros) {
        Ok(b) => b,
        Err(x) => return Err(x),
    };
    if b != negate {
        let none: Vec<Token> = Vec::new();
        assert(tokens_view(none@) =~= Seq::<SpecToken>::empty());
        let rest = splice_tokens(&code.tokens, e - 1, e + 1, &none);
        code.set(rest);
    } else {
        it.setpos(e + 1);
    }
    Ok(())
}

pub proof fn lemma_find_newline(ts: Seq<SpecToken>, k: int)
    requires
        0 <= k,
    ensures
        find_newline(ts, k) matches Some(i) ==> k <= i < ts.len() && ts[i] is Newline,
    decreases ts.len() - k,
{
    if k < ts.len() && !(ts[k] is Newline) {
        lemma_find_newline(ts, k + 1);
    }
}

pub proof fn lemma_endif_scan(ts: Seq<SpecToken>, q: int, need: int)
    requires
        1 <= q,
    ensures
        endif_scan(ts, q, need) matches Ok(e) ==> q + 1 <= e < ts.len() && ts[e - 1] is Hashtag,
    decreases ts.len() - q,
{
    if 0 <= q < ts.len() {
        if ts[q] is Hashtag {
            if q + 1 < ts.len() {
                lemma_endif_scan(ts, q + 2, if starts_at(ts[q + 1]->Name_0, 0, "if"@) { need + 1 } else if ts[q + 1]->Name_0 == "endif"@ { need - 1 } else { need });
            }
        } else {
            lemma_endif_scan(ts, q + 1, need);
        }
    }
}

/// A conditional directive starts at `x`: a `#` followed by a name that
/// begins with `if`.
pub open spec fn opens_at(ts: Seq<SpecToken>, x: int) -> bool {
    &&& 0 <= x && x + 1 < ts.len()
    &&& ts[x] is Hashtag
    &&& ts[x + 1] matches SpecToken::Name(d) && d.len() >= 2 && d[0] == 'i' && d[1] == 'f'
}

/// An `#endif` starts at `x`.
pub open spec fn closes_at(ts: Seq<SpecToken>, x: int) -> bool {
    &&& 0 <= x && x + 1 < ts.len()
    &&& ts[x] is Hashtag
    &&& ts[x + 1] == SpecToken::Name("endif"@)
}

/// The number of conditionals opened in `ts[q..m]`, less the number closed.
pub open spec fn depth(ts: Seq<SpecToken>, q: int, m: int) -> int
    decreases m - q,
{
    if q >= m {
        0
    } else {
        (if opens_at(ts, q) { 1int } else { 0 }) - (if closes_at(ts, q) { 1int } else { 0 }) + depth(ts, q + 1, m)
    }
}

proof fn lemma_endif_balanced(ts: Seq<SpecToken>, q: int, need: int)
    requires
        1 <= q,
        need >= 1,
    ensures
        endif_scan(ts, q, need) matches Ok(e) ==> {
            &&& q + 1 <= e < ts.len()
            &&& closes_at(ts, e - 1)
            &&& need + depth(ts, q, e - 1) == 1
            &&& forall|m: int| q <= m <= e - 1 ==> need + #[trigger] depth(ts, q, m) >= 1
        },
    decreases ts.len() - q,
{
    reveal_strlit("if");
    reveal_strlit("endif");
    if let Ok(e) = endif_scan(ts, q, need) {
        assert(0 <= q < ts.len());
        if ts[q] is Hashtag {
            let d = ts[q + 1]->Name_0;
            assert(ts[q + 1] == SpecToken::Name(d));
            let is_if = starts_at(d, 0, "if"@);
            assert(is_if <==> opens_at(ts, q)) by {
                if d.len() >= 2 {
                    assert(d.subrange(0, 2) == seq![d[0], d[1]]);
                    assert("if"@ == seq!['i', 'f']);
                }
            }
            assert(closes_at(ts, q) <==> d == "endif"@);
            assert(!(opens_at(ts, q) && closes_at(ts, q))) by {
                if closes_at(ts, q) {
                    assert(d[0] == 'e');
                }
            }
            assert(!opens_at(ts, q + 1) && !closes_at(ts, q + 1));
            let need2 = if is_if { need + 1 } else if d == "endif"@ { need - 1 } else { need };
            if need2 == 0 {
                assert(e == q + 1);
                assert(d == "endif"@);
                assert(depth(ts, q, q) == 0);
            } else {
                lemma_endif_balanced(ts, q + 2, need2);
                lemma_endif_scan(ts, q + 2, need2);
                assert(depth(ts, q + 1, e - 1) == depth(ts, q + 2, e - 1));
                assert(depth(ts, q, e - 1) == depth(ts, q + 2, e - 1) + need2 - need);
                assert forall|m: int| q <= m <= e - 1 implies need + #[trigger] depth(ts, q, m) >= 1 by {
                    if m == q {
                    } else if m == q + 1 {
                        assert(depth(ts, q + 1, m) == 0);
                    } else {
                        assert(depth(ts, q + 1, m) == depth(ts, q + 2, m));
                        assert(need2 + depth(ts, q + 2, m) >= 1);
                    }
                }
            }
        } else {
            assert(!opens_at(ts, q) && !closes_at(ts, q));
            lemma_endif_balanced(ts, q + 1, need);
            assert forall|m: int| q <= m <= e - 1 implies need + #[trigger] depth(ts, q, m) >= 1 by {
                if m > q {
                    assert(need + depth(ts, q + 1, m) >= 1);
                }
            }
        }
    }
}

/// The `#endif` that closes a conditional balances the conditionals nested
/// in it: between the start and that `#endif` as many conditionals
/// (directives whose name begins with `if`) are opened as are closed, and
/// no earlier `#endif` closes more than were opened, so it is the first
/// `#endif` at which the count comes back to level.
pub proof fn law_endif_balances_nesting(ts: Seq<SpecToken>, q: int)
    requires
        1 <= q,
    ensures
        endif_scan(ts, q, 1) matches Ok(e) ==> {
            &&& q + 1 <= e < ts.len()
            &&& closes_at(ts, e - 1)
            &&& depth(ts, q, e - 1) == 0
            &&& forall|m: int| q <= m <= e - 1 ==> #[trigger] depth(ts, q, m) >= 0
        },
{
    lemma_endif_balanced(ts, q, 1);
}

/// Whether `name` is the word `w`.
fn is_word(name: &Vec<char>, w: &str) -> (r: bool)
    ensures
        r == (name@ == w@),
{
    chars_eq(name, &str_chars(w))
}

/// Runs the preprocessor over the tokens: expands macros, records
/// `#define`s, resolves `#ifdef` / `#ifndef`, and drops the `#` of
/// `#include` (headers are not read). The directories are not searched.
/// `Err(Eof)` where the tokens end inside a directive; the tokens are then
/// left as they were before that directive.
pub fn preprocess(code: &mut Code, macros: &mut Vec<Macro>, paths: Vec<SystemPath>) -> (r: Result<(), Error>)
    requires
        pp_halts(pp_start(old(code)@, macros_view(old(macros)@))),
    ensures
        ({
            let (s, res) = pp_result(pp_start(old(code)@, macros_view(old(macros)@)));
            &&& match res {
                Ok(()) => r is Ok,
                Err(e) => r matches Err(x) && x@ == e,
            }
            &&& (res is Ok || res == Err::<(), SpecError>(SpecError::Eof))
                ==> final(code)@ == s.code && macros_view(final(macros)@) == s.macros
        }),
{
    let ghost s0 = pp_start(code@, macros_view(macros@));
    let ghost mut fuel: nat = choose|fuel: nat| #[trigger] pp_run(s0, fuel) is Some;
    proof { lemma_pp_result(s0, fuel); }
    let mut it = SmartIter::new();
    let mut was_hashtag = false;
    let define = str_chars("define");
    loop
        invariant
            s0 == pp_start(old(code)@, macros_view(old(macros)@)),
            define@ == "define"@,
            pp_run(PpState { code: code@, pos: it.0 as int, macros: macros_view(macros@), was_hashtag }, fuel)
                == Some(pp_result(s0)),
        decreases fuel,
    {
        let ghost s = PpState { code: code@, pos: it.0 as int, macros: macros_view(macros@), was_hashtag };
        assert(fuel > 0);
        let p = it.0;
        if p >= code.tokens.len() {
            return Ok(());
        }
        let tok = code.tokens[p].copy();
        assert(tok@ == code@[p as int]);
        it.setpos(p + 1);
        match tok {
            Token::Name(name) => {
                match find_macro_exec(macros, &name) {
                    Some(m) => {
                        if !was_hashtag {
                            assert(macros_view(macros@)[m as int] == macros@[m as int]@);
                            let expanded = splice_tokens(&code.tokens, p, p + 1, &macros[m].data);
                            code.set(expanded);
                        }
                    },
                    None => {},
                }
            },
            Token::Hashtag => {
                let hp = p;
                was_hashtag = true;
                if p + 1 >= code.tokens.len() {
                    return Err(Error::Eof);
                }
                let d = code.tokens[p + 1].copy();
                assert(d@ == code@[p + 1]);
                it.setpos(p + 2);
                match d {
                    Token::Name(dname) => {
                        if chars_eq(&dname, &define) {
                            if p + 2 >= code.tokens.len() {
                                return Err(Error::Eof);
                            }
                            let mt = code.tokens[p + 2].copy();
                            assert(mt@ == code@[p + 2]);
                            match mt {
                                Token::Name(mname) => {
                                    let nl = match find_newline_exec(code, p + 3) {
                                        None => return Err(Error::Eof),
                                        Some(nl) => nl,
                                    };
                                    let data = slice_tokens(&code.tokens, p + 3, nl);
                                    let ghost mv = macros_view(macros@);
                                    macros.push(Macro { name: mname, data });
                                    assert(macros_view(macros@) =~= mv.push(SpecMacro { name: mname@, data: code@.subrange(p + 3, nl as int) }));
                                    let none: Vec<Token> = Vec::new();
                                    assert(tokens_view(none@) =~= Seq::<SpecToken>::empty());
                                    let rest = splice_tokens(&code.tokens, hp, nl, &none);
                                    code.set(rest);
                                    it.setpos(hp);
                                },
                                t => return Err(t.panic()),
                            }
                        } else if is_word(&dname, "ifdef") || is_word(&dname, "ifndef") {
                            let negate = is_word(&dname, "ifndef");
                            proof {
                                reveal_strlit("ifdef");
                                reveal_strlit("ifndef");
                                reveal_strlit("define");
                            }
                            match if_directive(&mut it, code, macros, negate) {
                                Ok(()) => {},
                                Err(x) => return Err(x),
                            }
                            let pos = it.pos();
                            proof {
                                lemma_endif_scan(s.code, (p + 2) as int, 1);
                                reveal_strlit("ifdef");
                                reveal_strlit("ifndef");
                                reveal_strlit("define");
                                assert(s.code[p as int] is Hashtag);
                                assert(s.code[p + 1] == SpecToken::Name(dname@));
                                assert(dname@ != "define"@);
                                assert(0 <= p + 1 < s.code.len());
                                assert(s.pos == p);
                                assert(negate <==> dname@ == "ifndef"@);
                                assert(dname@ == "ifdef"@ || dname@ == "ifndef"@);
                                assert("ifdef"@.len() == 5);
                                assert("ifndef"@.len() == 6);
                                assert("ifdef"@ != "ifndef"@);
                                if dname@ == "ifdef"@ {
                                    assert(!negate);
                                    assert(pp_step(s) == pp_conditional(s, p as int, false));
                                } else {
                                    assert(pp_step(s) == pp_conditional(s, p as int, true));
                                }
                                assert(pp_step(s) == pp_conditional(s, p as int, negate));
                            }
                            let none: Vec<Token> = Vec::new();
                            assert(tokens_view(none@) =~= Seq::<SpecToken>::empty());
                            let rest = splice_tokens(&code.tokens, hp, pos, &none);
                            code.set(rest);
                            it.setpos(hp);
                            assert(pp_conditional(s, p as int, negate) == PpStep::Next(PpState { code: code@, pos: it.0 as int, macros: macros_view(macros@), was_hashtag }));
                        } else if is_word(&dname, "include") {
                            proof {
                                reveal_strlit("include");
                                reveal_strlit("ifdef");
                                reveal_strlit("ifndef");
                                reveal_strlit("define");
                            }
                            let none: Vec<Token> = Vec::new();
                            assert(tokens_view(none@) =~= Seq::<SpecToken>::empty());
                            let rest = splice_tokens(&code.tokens, hp, p + 1, &none);
                            code.set(rest);
                            it.setpos(hp);
                        } else {
                            return Err(Error::UnknownDirective(dname));
                        }
                    },
                    Token::Newline => {},
                    t => return Err(t.panic()),
                }
            },
            Token::Newline => {
                was_hashtag = false;
            },
            _ => {},
        }
        assert(pp_step(s) == PpStep::Next(PpState { code: code@, pos: it.0 as int, macros: macros_view(macros@), was_hashtag }));
        proof {
            fuel = (fuel - 1) as nat;
        }
    }
}

} // verus!
