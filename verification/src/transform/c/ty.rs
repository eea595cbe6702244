//! Values, the token cursor and the token store of the C translation.

use vstd::prelude::*;

use super::types::TypeID;
use crate::token::{Token, SpecToken, tokens_view};

verus! {

/// A named value of a type: a parameter, or the text of an expression.
#[derive(Debug)]
pub struct Let {
    pub name: Vec<char>,
    pub ty: TypeID,
}

/// The mathematical value of a [`Let`].
pub struct SpecLet {
    pub name: Seq<char>,
    pub ty: TypeID,
}

impl View for Let {
    type V = SpecLet;

    open spec fn view(&self) -> SpecLet {
        SpecLet { name: self.name@, ty: self.ty }
    }
}

impl Clone for Let {
    fn clone(&self) -> (r: Self)
        ensures
            r@ == self@,
    {
        Let { name: self.name.clone(), ty: self.ty }
    }
}

/// The views of a sequence of values.
pub open spec fn lets_view(ls: Seq<Let>) -> Seq<SpecLet> {
    ls.map_values(|l: Let| l@)
}

/// A cursor into the tokens of a [`Code`]: the position of the next token.
#[derive(Debug, Copy, Clone)]
pub struct SmartIter(pub usize);

/// The tokens being translated.
#[derive(Debug)]
pub struct Code {
    pub tokens: Vec<Token>,
}

impl Code {
    /// A store holding no tokens.
    pub fn new() -> (r: Code)
        ensures
            r@ == Seq::<SpecToken>::empty(),
    {
        let r = Code { tokens: Vec::new() };
        assert(r@ =~= Seq::<SpecToken>::empty());
        r
    }

    /// Replaces the stored tokens with `code`.
    pub fn set(&mut self, code: Vec<Token>)
        ensures
            final(self)@ == tokens_view(code@),
    {
        self.tokens = code;
    }
}

impl View for Code {
    type V = Seq<SpecToken>;

    open spec fn view(&self) -> Seq<SpecToken> {
        tokens_view(self.tokens@)
    }
}

impl SmartIter {
    /// A cursor at the first token.
    pub fn new() -> (r: Self)
        ensures
            r.0 == 0,
    {
        SmartIter(0)
    }

    /// The position of the token last returned by `next`.
    pub fn pos(&self) -> (r: usize)
        requires
            self.0 >= 1,
        ensures
            r == self.0 - 1,
    {
        self.0 - 1
    }

    /// Moves the cursor to `pos`.
    pub fn setpos(&mut self, pos: usize)
        ensures
            final(self).0 == pos,
    {
        self.0 = pos
    }

    /// The next token, without moving.
    pub fn check<'a>(&self, code: &'a Code) -> (r: Option<&'a Token>)
        ensures
            self.0 < code@.len() ==> (r matches Some(t) && t@ == code@[self.0 as int]),
            self.0 >= code@.len() ==> r is None,
    {
        if self.0 < code.tokens.len() {
            Some(&code.tokens[self.0])
        } else {
            None
        }
    }

    /// The next token, moving past it.
    pub fn next<'a>(&mut self, code: &'a Code) -> (r: Option<&'a Token>)
        ensures
            old(self).0 < code@.len() ==> (r matches Some(t) && t@ == code@[old(self).0 as int]
                && final(self).0 == old(self).0 + 1),
            old(self).0 >= code@.len() ==> r is None && final(self).0 == old(self).0,
    {
        if self.0 < code.tokens.len() {
            let t = &code.tokens[self.0];
            self.0 = self.0 + 1;
            Some(t)
        } else {
            None
        }
    }
}

} // verus!
