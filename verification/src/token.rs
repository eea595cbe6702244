//! The tokenizer: source characters to a sequence of tokens.

use vstd::prelude::*;

use crate::error::{Error, SpecError};
use crate::text::push_chars;
use crate::chars::{is_alphabetic, is_numeric, is_whitespace, is_ascii_hexdigit, is_hex_digit, unicode_alphabetic, unicode_numeric, unicode_whitespace};

verus! {

/// A token of the source text.
#[derive(Debug, Clone)]
pub enum Token {
    LParent,
    RParent,
    Eq,
    Add,
    Sub,
    Div,
    Mul,
    Comma,
    TwoDots,
    Semicolon,
    LFigure,
    RFigure,
    LBracket,
    RBracket,
    Tab,
    Newline,
    Hashtag,
    Ampersand,
    DoubleQuote,
    Name(Vec<char>),
    Number(Vec<char>),
    DoubleAmpersand,
    Unknown(char),
    String(Vec<char>),
}

/// The mathematical value of a [`Token`]: its payload taken as a sequence.
pub enum SpecToken {
    LParent,
    RParent,
    Eq,
    Add,
    Sub,
    Div,
    Mul,
    Comma,
    TwoDots,
    Semicolon,
    LFigure,
    RFigure,
    LBracket,
    RBracket,
    Tab,
    Newline,
    Hashtag,
    Ampersand,
    DoubleQuote,
    Name(Seq<char>),
    Number(Seq<char>),
    DoubleAmpersand,
    Unknown(char),
    String(Seq<char>),
}

impl View for Token {
    type V = SpecToken;

    open spec fn view(&self) -> SpecToken {
        match self {
            Token::LParent => SpecToken::LParent,
            Token::RParent => SpecToken::RParent,
            Token::Eq => SpecToken::Eq,
            Token::Add => SpecToken::Add,
            Token::Sub => SpecToken::Sub,
            Token::Div => SpecToken::Div,
            Token::Mul => SpecToken::Mul,
            Token::Comma => SpecToken::Comma,
            Token::TwoDots => SpecToken::TwoDots,
            Token::Semicolon => SpecToken::Semicolon,
            Token::LFigure => SpecToken::LFigure,
            Token::RFigure => SpecToken::RFigure,
            Token::LBracket => SpecToken::LBracket,
            Token::RBracket => SpecToken::RBracket,
            Token::Tab => SpecToken::Tab,
            Token::Newline => SpecToken::Newline,
            Token::Hashtag => SpecToken::Hashtag,
            Token::Ampersand => SpecToken::Ampersand,
            Token::DoubleQuote => SpecToken::DoubleQuote,
            Token::Name(s) => SpecToken::Name(s@),
            Token::Number(s) => SpecToken::Number(s@),
            Token::DoubleAmpersand => SpecToken::DoubleAmpersand,
            Token::Unknown(c) => SpecToken::Unknown(*c),
            Token::String(s) => SpecToken::String(s@),
        }
    }
}

/// The views of a sequence of tokens.
pub open spec fn tokens_view(ts: Seq<Token>) -> Seq<SpecToken> {
    ts.map_values(|t: Token| t@)
}

/// The character that stands for a one-character token, if `t` is one.
pub open spec fn punct_char(t: SpecToken) -> Option<char> {
    match t {
        SpecToken::LParent => Some('('),
        SpecToken::RParent => Some(')'),
        SpecToken::Eq => Some('='),
        SpecToken::Add => Some('+'),
        SpecToken::Sub => Some('-'),
        SpecToken::Div => Some('/'),
        SpecToken::Mul => Some('*'),
        SpecToken::Comma => Some(','),
        SpecToken::TwoDots => Some(':'),
        SpecToken::Semicolon => Some(';'),
        SpecToken::LFigure => Some('{'),
        SpecToken::RFigure => Some('}'),
        SpecToken::LBracket => Some('['),
        SpecToken::RBracket => Some(']'),
        SpecToken::Tab => Some('\t'),
        SpecToken::Newline => Some('\n'),
        SpecToken::Hashtag => Some('#'),
        SpecToken::Ampersand => Some('&'),
        SpecToken::DoubleQuote => Some('"'),
        _ => None,
    }
}

/// The one-character token that `c` stands for, if any.
pub open spec fn punct_of(c: char) -> Option<SpecToken> {
    if c == '(' { Some(SpecToken::LParent) }
    else if c == ')' { Some(SpecToken::RParent) }
    else if c == '=' { Some(SpecToken::Eq) }
    else if c == '+' { Some(SpecToken::Add) }
    else if c == '-' { Some(SpecToken::Sub) }
    else if c == '/' { Some(SpecToken::Div) }
    else if c == '*' { Some(SpecToken::Mul) }
    else if c == ',' { Some(SpecToken::Comma) }
    else if c == ':' { Some(SpecToken::TwoDots) }
    else if c == ';' { Some(SpecToken::Semicolon) }
    else if c == '{' { Some(SpecToken::LFigure) }
    else if c == '}' { Some(SpecToken::RFigure) }
    else if c == '[' { Some(SpecToken::LBracket) }
    else if c == ']' { Some(SpecToken::RBracket) }
    else if c == '\t' { Some(SpecToken::Tab) }
    else if c == '\n' { Some(SpecToken::Newline) }
    else if c == '#' { Some(SpecToken::Hashtag) }
    else if c == '&' { Some(SpecToken::Ampersand) }
    else if c == '"' { Some(SpecToken::DoubleQuote) }
    else { None }
}

impl SpecToken {
    /// How the token is written back as text.
    pub open spec fn text(self) -> Seq<char> {
        match self {
            SpecToken::Name(s) => s,
            SpecToken::Number(s) => s,
            SpecToken::DoubleAmpersand => seq!['&', '&'],
            SpecToken::Unknown(c) => seq![c],
            SpecToken::String(s) => seq!['"'] + s + seq!['"'],
            t => seq![punct_char(t).unwrap()],
        }
    }
}

/// Element-wise comparison of two character vectors.
pub fn chars_eq(a: &Vec<char>, b: &Vec<char>) -> (r: bool)
    ensures
        r == (a@ == b@),
{
    if a.len() != b.len() {
        return false;
    }
    let mut i: usize = 0;
    while i < a.len()
        invariant
            a.len() == b.len(),
            i <= a.len(),
            forall|j: int| 0 <= j < i ==> a@[j] == b@[j],
        decreases a.len() - i,
    {
        if a[i] != b[i] {
            return false;
        }
        i += 1;
    }
    assert(a@ =~= b@);
    true
}

impl Token {
    /// Whether two tokens are the same token.
    pub fn same(&self, other: &Token) -> (r: bool)
        ensures
            r == (self@ == other@),
    {
        match (self, other) {
            (Token::Name(a), Token::Name(b)) => chars_eq(a, b),
            (Token::Number(a), Token::Number(b)) => chars_eq(a, b),
            (Token::String(a), Token::String(b)) => chars_eq(a, b),
            (Token::Unknown(a), Token::Unknown(b)) => *a == *b,
            (Token::LParent, Token::LParent) => true,
            (Token::RParent, Token::RParent) => true,
            (Token::Eq, Token::Eq) => true,
            (Token::Add, Token::Add) => true,
            (Token::Sub, Token::Sub) => true,
            (Token::Div, Token::Div) => true,
            (Token::Mul, Token::Mul) => true,
            (Token::Comma, Token::Comma) => true,
            (Token::TwoDots, Token::TwoDots) => true,
            (Token::Semicolon, Token::Semicolon) => true,
            (Token::LFigure, Token::LFigure) => true,
            (Token::RFigure, Token::RFigure) => true,
            (Token::LBracket, Token::LBracket) => true,
            (Token::RBracket, Token::RBracket) => true,
            (Token::Tab, Token::Tab) => true,
            (Token::Newline, Token::Newline) => true,
            (Token::Hashtag, Token::Hashtag) => true,
            (Token::Ampersand, Token::Ampersand) => true,
            (Token::DoubleQuote, Token::DoubleQuote) => true,
            (Token::DoubleAmpersand, Token::DoubleAmpersand) => true,
            _ => false,
        }
    }

    /// A copy of the token.
    pub fn copy(&self) -> (r: Token)
        ensures
            r@ == self@,
    {
        match self {
            Token::Name(s) => Token::Name(s.clone()),
            Token::Number(s) => Token::Number(s.clone()),
            Token::String(s) => Token::String(s.clone()),
            Token::Unknown(c) => Token::Unknown(*c),
            Token::LParent => Token::LParent,
            Token::RParent => Token::RParent,
            Token::Eq => Token::Eq,
            Token::Add => Token::Add,
            Token::Sub => Token::Sub,
            Token::Div => Token::Div,
            Token::Mul => Token::Mul,
            Token::Comma => Token::Comma,
            Token::TwoDots => Token::TwoDots,
            Token::Semicolon => Token::Semicolon,
            Token::LFigure => Token::LFigure,
            Token::RFigure => Token::RFigure,
            Token::LBracket => Token::LBracket,
            Token::RBracket => Token::RBracket,
            Token::Tab => Token::Tab,
            Token::Newline => Token::Newline,
            Token::Hashtag => Token::Hashtag,
            Token::Ampersand => Token::Ampersand,
            Token::DoubleQuote => Token::DoubleQuote,
            Token::DoubleAmpersand => Token::DoubleAmpersand,
        }
    }

    /// `Ok` if this is `token`, else the error of an unexpected token.
    pub fn expect_punct(&self, token: Token) -> (r: Result<(), Error>)
        ensures
            r is Ok <==> self@ == token@,
            r matches Err(e) ==> e@ == SpecError::Unexpected(self@),
    {
        if self.same(&token) {
            Ok(())
        } else {
            Err(self.panic())
        }
    }

    /// The payload of a word token of kind `token`, else the error of an
    /// unexpected token.
    pub fn expect_value(&self, token: TokenStr) -> (r: Result<&Vec<char>, Error>)
        requires
            token != TokenStr::No,
        ensures
            r is Ok <==> kind_of(self@) == token,
            r matches Ok(v) ==> self@ == word_token(token, v@),
            r matches Err(e) ==> e@ == SpecError::Unexpected(self@),
    {
        if TokenStr::from_token(self) != token {
            return Err(self.panic());
        }
        match self {
            Token::Name(x) => Ok(x),
            Token::Number(x) => Ok(x),
            _ => Err(self.panic()),
        }
    }

    /// The error of this token standing where it does not fit.
    pub fn panic(&self) -> (e: Error)
        ensures
            e@ == SpecError::Unexpected(self@),
    {
        Error::Unexpected(self.copy())
    }

    /// The token written back as text.
    pub fn text(&self) -> (r: Vec<char>)
        ensures
            r@ == self@.text(),
    {
        match self {
            Token::Name(s) => s.clone(),
            Token::Number(s) => s.clone(),
            Token::DoubleAmpersand => vec!['&', '&'],
            Token::Unknown(c) => vec![*c],
            Token::String(s) => {
                let mut r = vec!['"'];
                let mut i: usize = 0;
                while i < s.len()
                    invariant
                        i <= s.len(),
                        r@ == seq!['"'] + s@.subrange(0, i as int),
                    decreases s.len() - i,
                {
                    r.push(s[i]);
                    i += 1;
                    assert(s@.subrange(0, i as int) == s@.subrange(0, i - 1) + seq![s@[i - 1]]);
                }
                r.push('"');
                assert(s@.subrange(0, s.len() as int) == s@);
                r
            },
            Token::LParent => vec!['('],
            Token::RParent => vec![')'],
            Token::Eq => vec!['='],
            Token::Add => vec!['+'],
            Token::Sub => vec!['-'],
            Token::Div => vec!['/'],
            Token::Mul => vec!['*'],
            Token::Comma => vec![','],
            Token::TwoDots => vec![':'],
            Token::Semicolon => vec![';'],
            Token::LFigure => vec!['{'],
            Token::RFigure => vec!['}'],
            Token::LBracket => vec!['['],
            Token::RBracket => vec![']'],
            Token::Tab => vec!['\t'],
            Token::Newline => vec!['\n'],
            Token::Hashtag => vec!['#'],
            Token::Ampersand => vec!['&'],
            Token::DoubleQuote => vec!['"'],
        }
    }
}

/// The kind of the word being collected by the tokenizer.
#[derive(Debug, Copy, Clone, PartialEq, Eq, Structural)]
pub enum TokenStr {
    No,
    Name,
    Number,
}

/// The token that a collected word of kind `ty` becomes.
pub open spec fn word_token(ty: TokenStr, data: Seq<char>) -> SpecToken {
    match ty {
        TokenStr::Number => SpecToken::Number(data),
        _ => SpecToken::Name(data),
    }
}

impl TokenStr {
    /// The token of this kind holding `data`; there is none of kind `No`.
    pub fn to_token(&self, data: &Vec<char>) -> (t: Token)
        requires
            *self != TokenStr::No,
        ensures
            t@ == word_token(*self, data@),
    {
        match self {
            TokenStr::Number => Token::Number(data.clone()),
            _ => Token::Name(data.clone()),
        }
    }

    /// The kind of a word token, or `No` for any other token.
    pub fn from_token(token: &Token) -> (r: TokenStr)
        ensures
            r == kind_of(token@),
    {
        match token {
            Token::Name(_) => TokenStr::Name,
            Token::Number(_) => TokenStr::Number,
            _ => TokenStr::No,
        }
    }
}

/// The kind of a token: `Name`, `Number`, or `No` for the others.
pub open spec fn kind_of(t: SpecToken) -> TokenStr {
    match t {
        SpecToken::Name(_) => TokenStr::Name,
        SpecToken::Number(_) => TokenStr::Number,
        _ => TokenStr::No,
    }
}

/// The state of the tokenizer between two characters.
pub struct LexState {
    /// The tokens emitted so far.
    pub tokens: Seq<SpecToken>,
    /// The word being collected.
    pub buf: Seq<char>,
    /// The kind of that word.
    pub ty: TokenStr,
    /// How many white-space characters came in a row just before.
    pub ignored: u8,
}

/// A state is coherent when a collected word always has a kind.
pub open spec fn lex_coherent(st: LexState) -> bool {
    st.buf.len() > 0 ==> st.ty != TokenStr::No
}

/// The state at the start.
pub open spec fn lex_start() -> LexState {
    LexState { tokens: Seq::empty(), buf: Seq::empty(), ty: TokenStr::No, ignored: 0 }
}

/// Emits the collected word, if there is one.
pub open spec fn lex_flush(st: LexState) -> LexState {
    if st.buf.len() == 0 {
        st
    } else {
        LexState { tokens: st.tokens.push(word_token(st.ty, st.buf)), buf: Seq::empty(), ..st }
    }
}

/// Adds `c` to the word of kind `ty2`, first emitting a word of another kind.
pub open spec fn lex_add(st: LexState, c: char, ty2: TokenStr) -> LexState {
    if st.buf.len() == 0 {
        LexState { buf: seq![c], ty: ty2, ..st }
    } else if st.ty != ty2 {
        LexState {
            tokens: st.tokens.push(word_token(st.ty, st.buf)),
            buf: seq![c],
            ty: ty2,
            ..st
        }
    } else {
        LexState { buf: st.buf.push(c), ..st }
    }
}

/// `_` and the alphabetic characters start a name.
pub open spec fn name_start(c: char) -> bool {
    unicode_alphabetic(c) || c == '_'
}

/// One step of the tokenizer on the character `c`, given its classes: whether
/// it starts a name (`_` or alphabetic), whether it is numeric, whether it is
/// white space. A one-character token ends the word; a name character (a
/// numeric one only inside a name) or a digit extends or starts a word; a
/// space after four white-space characters is a tab; other white space ends
/// the word; anything else is an unknown token.
pub open spec fn lex_step_with(st: LexState, c: char, starts_name: bool, numeric: bool, whitespace: bool) -> LexState {
    if punct_of(c) is Some {
        let f = lex_flush(st);
        LexState { tokens: f.tokens.push(punct_of(c).unwrap()), ignored: 0, ..f }
    } else if starts_name || (st.ty == TokenStr::Name && numeric) {
        LexState { ignored: 0, ..lex_add(st, c, TokenStr::Name) }
    } else if is_hex_digit(c) {
        LexState { ignored: 0, ..lex_add(st, c, TokenStr::Number) }
    } else if c == ' ' && st.ignored == 4 {
        LexState { tokens: st.tokens.push(SpecToken::Tab), ignored: 0, ..st }
    } else if whitespace {
        LexState { ignored: if st.ignored == 255 { 0 } else { (st.ignored + 1) as u8 }, ..lex_flush(st) }
    } else {
        let f = lex_flush(st);
        LexState { tokens: f.tokens.push(SpecToken::Unknown(c)), ignored: 0, ..f }
    }
}

/// One step of the tokenizer on the character `c`, its classes as `char`
/// gives them.
pub open spec fn lex_step(st: LexState, c: char) -> LexState {
    lex_step_with(st, c, name_start(c), unicode_numeric(c), unicode_whitespace(c))
}

/// The state after reading all of `code`.
pub open spec fn lex(code: Seq<char>) -> LexState
    decreases code.len(),
{
    if code.len() == 0 {
        lex_start()
    } else {
        lex_step(lex(code.drop_last()), code.last())
    }
}

/// The tokens of `code`, before string literals are merged.
pub open spec fn lex_tokens(code: Seq<char>) -> Seq<SpecToken> {
    lex_flush(lex(code)).tokens
}

pub proof fn lemma_lex_coherent(code: Seq<char>)
    ensures
        lex_coherent(lex(code)),
    decreases code.len(),
{
    if code.len() > 0 {
        lemma_lex_coherent(code.drop_last());
    }
}

/// The one-character token for `c`, if `c` stands for one.
fn punct_token(c: char) -> (r: Option<Token>)
    ensures
        r is None <==> punct_of(c) is None,
        r matches Some(t) ==> punct_of(c) == Some(t@),
{
    if c == '(' { Some(Token::LParent) }
    else if c == ')' { Some(Token::RParent) }
    else if c == '=' { Some(Token::Eq) }
    else if c == '+' { Some(Token::Add) }
    else if c == '-' { Some(Token::Sub) }
    else if c == '/' { Some(Token::Div) }
    else if c == '*' { Some(Token::Mul) }
    else if c == ',' { Some(Token::Comma) }
    else if c == ':' { Some(Token::TwoDots) }
    else if c == ';' { Some(Token::Semicolon) }
    else if c == '{' { Some(Token::LFigure) }
    else if c == '}' { Some(Token::RFigure) }
    else if c == '[' { Some(Token::LBracket) }
    else if c == ']' { Some(Token::RBracket) }
    else if c == '\t' { Some(Token::Tab) }
    else if c == '\n' { Some(Token::Newline) }
    else if c == '#' { Some(Token::Hashtag) }
    else if c == '&' { Some(Token::Ampersand) }
    else if c == '"' { Some(Token::DoubleQuote) }
    else { None }
}

/// Emits the collected word, then `item`.
fn push(vec: &mut Vec<Token>, buf: &mut Vec<char>, item: Token, ty: &mut TokenStr)
    requires
        lex_coherent(LexState { tokens: tokens_view(old(vec)@), buf: old(buf)@, ty: *old(ty), ignored: 0 }),
    ensures
        ({
            let f = lex_flush(LexState { tokens: tokens_view(old(vec)@), buf: old(buf)@, ty: *old(ty), ignored: 0 });
            &&& tokens_view(final(vec)@) == f.tokens.push(item@)
            &&& final(buf)@ == f.buf
            &&& *final(ty) == f.ty
        }),
{
    flush(vec, buf, ty);
    vec.push(item);
    proof {
        assert(tokens_view(vec@) =~= tokens_view(old(vec)@).push(item@)
            || tokens_view(vec@) =~= tokens_view(old(vec)@).push(word_token(*old(ty), old(buf)@)).push(item@));
    }
}

/// Adds `c` to the word of kind `ty2`.
fn add(vec: &mut Vec<Token>, buf: &mut Vec<char>, ty: &mut TokenStr, c: char, ty2: TokenStr)
    requires
        ty2 != TokenStr::No,
        lex_coherent(LexState { tokens: tokens_view(old(vec)@), buf: old(buf)@, ty: *old(ty), ignored: 0 }),
    ensures
        ({
            let a = lex_add(LexState { tokens: tokens_view(old(vec)@), buf: old(buf)@, ty: *old(ty), ignored: 0 }, c, ty2);
            &&& tokens_view(final(vec)@) == a.tokens
            &&& final(buf)@ == a.buf
            &&& *final(ty) == a.ty
        }),
{
    if buf.len() == 0 {
        *ty = ty2;
        buf.push(c);
        assert(buf@ =~= seq![c]);
    } else {
        if *ty != ty2 {
            let t = ty.to_token(buf);
            vec.push(t);
            *buf = Vec::new();
            assert(tokens_view(vec@) =~= tokens_view(old(vec)@).push(t@));
        }
        *ty = ty2;
        buf.push(c);
        assert(buf@ =~= seq![c] || buf@ =~= old(buf)@.push(c));
    }
}

/// Emits the collected word, if there is one.
fn flush(vec: &mut Vec<Token>, buf: &mut Vec<char>, ty: &mut TokenStr)
    requires
        lex_coherent(LexState { tokens: tokens_view(old(vec)@), buf: old(buf)@, ty: *old(ty), ignored: 0 }),
    ensures
        ({
            let f = lex_flush(LexState { tokens: tokens_view(old(vec)@), buf: old(buf)@, ty: *old(ty), ignored: 0 });
            &&& tokens_view(final(vec)@) == f.tokens
            &&& final(buf)@ == f.buf
            &&& *final(ty) == f.ty
        }),
{
    if buf.len() != 0 {
        let t = ty.to_token(buf);
        vec.push(t);
        *buf = Vec::new();
        assert(tokens_view(vec@) =~= tokens_view(old(vec)@).push(t@));
        assert(buf@ =~= Seq::<char>::empty());
    }
}

/// `_` and the alphabetic characters.
fn alphabetic(c: char) -> (r: bool)
    ensures
        r == name_start(c),
{
    is_alphabetic(c) || c == '_'
}

/// Why string literals could not be merged.
#[derive(Debug, Copy, Clone, PartialEq, Eq, Structural)]
pub enum MergeError {
    /// A `"` has no closing `"`; the tokens from it on are dropped.
    Unterminated,
    /// A literal is closed by the very last token: nothing follows it to hold
    /// the merged string.
    NoTokenAfter,
}

/// The position of the first `"` at or after `k`.
pub open spec fn find_quote(ts: Seq<SpecToken>, k: int) -> Option<int>
    decreases ts.len() - k,
{
    if k < 0 || k >= ts.len() {
        None
    } else if ts[k] is DoubleQuote {
        Some(k)
    } else {
        find_quote(ts, k + 1)
    }
}

pub proof fn lemma_find_quote(ts: Seq<SpecToken>, k: int)
    ensures
        find_quote(ts, k) matches Some(j) ==> {
            &&& k <= j < ts.len()
            &&& ts[j] is DoubleQuote
            &&& forall|m: int| k <= m < j ==> !(ts[m] is DoubleQuote)
        },
        find_quote(ts, k) is None ==> forall|m: int| 0 <= k <= m < ts.len() ==> !(ts[m] is DoubleQuote),
    decreases ts.len() - k,
{
    if 0 <= k < ts.len() && !(ts[k] is DoubleQuote) {
        lemma_find_quote(ts, k + 1);
    }
}

/// The texts of the tokens, one after another.
pub open spec fn texts(ts: Seq<SpecToken>) -> Seq<char>
    decreases ts.len(),
{
    if ts.len() == 0 {
        Seq::empty()
    } else {
        texts(ts.drop_last()) + ts.last().text()
    }
}

/// Merging string literals in `ts` from position `i` on: the tokens that
/// result, and how it ended. A `"`, the tokens up to the next `"` and that
/// `"` become one `String` token holding their texts, which takes the place of
/// the token that follows the closing `"`.
pub open spec fn merge_at(ts: Seq<SpecToken>, i: int) -> (Seq<SpecToken>, Result<(), MergeError>)
    decreases ts.len() - i,
{
    if i < 0 || i >= ts.len() {
        (Seq::empty(), Ok(()))
    } else if !(ts[i] is DoubleQuote) {
        let r = merge_at(ts, i + 1);
        (seq![ts[i]] + r.0, r.1)
    } else {
        match find_quote(ts, i + 1) {
            None => (Seq::empty(), Err(MergeError::Unterminated)),
            Some(j) => {
                if j + 1 >= ts.len() {
                    (Seq::empty(), Err(MergeError::NoTokenAfter))
                } else {
                    proof { lemma_find_quote(ts, i + 1); }
                    let r = merge_at(ts, j + 2);
                    (seq![SpecToken::String(texts(ts.subrange(i + 1, j)))] + r.0, r.1)
                }
            },
        }
    }
}

/// Merging string literals in all of `ts`.
pub open spec fn merge(ts: Seq<SpecToken>) -> (Seq<SpecToken>, Result<(), MergeError>) {
    merge_at(ts, 0)
}

/// Merges each string literal, from `"` to `"`, into one `String` token.
pub fn merge_strings(tokens: &mut Vec<Token>) -> (r: Result<(), MergeError>)
    ensures
        r == merge(tokens_view(old(tokens)@)).1,
        r matches Ok(()) ==> tokens_view(final(tokens)@) == merge(tokens_view(old(tokens)@)).0,
        r == Err::<(), MergeError>(MergeError::Unterminated)
            ==> tokens_view(final(tokens)@) == merge(tokens_view(old(tokens)@)).0,
{
    let ghost ts = tokens_view(tokens@);
    let n = tokens.len();
    let mut out: Vec<Token> = Vec::new();
    let mut i: usize = 0;
    while i < n
        invariant
            n == tokens.len(),
            ts == tokens_view(tokens@),
            ts == tokens_view(old(tokens)@),
            i <= n,
            merge(ts).0 == tokens_view(out@) + merge_at(ts, i as int).0,
            merge(ts).1 == merge_at(ts, i as int).1,
        decreases n - i,
    {
        let ghost before = tokens_view(out@);
        assert(ts[i as int] == tokens@[i as int]@);
        if matches!(tokens[i], Token::DoubleQuote) {
            let mut s: Vec<char> = Vec::new();
            let mut j: usize = i + 1;
            while j < n && !matches!(tokens[j], Token::DoubleQuote)
                invariant
                    n == tokens.len(),
                    ts == tokens_view(tokens@),
                    i < j <= n,
                    ts[i as int] is DoubleQuote,
                    before == tokens_view(out@),
                    merge(ts).0 == tokens_view(out@) + merge_at(ts, i as int).0,
                    merge(ts).1 == merge_at(ts, i as int).1,
                    find_quote(ts, i + 1) == find_quote(ts, j as int),
                    s@ == texts(ts.subrange(i + 1, j as int)),
                decreases n - j,
            {
                assert(ts[j as int] == tokens@[j as int]@);
                let t = tokens[j].text();
                push_chars(&mut s, &t);
                assert(ts.subrange(i + 1, j + 1).drop_last() == ts.subrange(i + 1, j as int));
                j += 1;
            }
            if j < n {
                assert(ts[j as int] == tokens@[j as int]@);
            }
            if j >= n {
                assert(find_quote(ts, j as int) is None);
                assert(find_quote(ts, i + 1) is None);
                assert(merge_at(ts, i as int).1 == Err::<(), MergeError>(MergeError::Unterminated));
                assert(merge(ts).1 == Err::<(), MergeError>(MergeError::Unterminated));
                *tokens = out;
                assert(merge_at(ts, i as int).0 =~= Seq::<SpecToken>::empty());
                assert(tokens_view(tokens@) =~= before);
                return Err(MergeError::Unterminated);
            }
            if j + 1 >= n {
                return Err(MergeError::NoTokenAfter);
            }
            out.push(Token::String(s));
            proof {
                assert(tokens_view(out@) =~= before.push(SpecToken::String(s@)));
                assert(merge(ts).0 =~= tokens_view(out@) + merge_at(ts, j + 2).0);
            }
            i = j + 2;
        } else {
            let t = tokens[i].copy();
            out.push(t);
            proof {
                assert(tokens_view(out@) =~= before.push(ts[i as int]));
                assert(merge(ts).0 =~= tokens_view(out@) + merge_at(ts, i + 1).0);
            }
            i += 1;
        }
    }
    *tokens = out;
    assert(tokens_view(tokens@) =~= merge(ts).0);
    Ok(())
}

/// The tokenizer between two characters: the tokens emitted, the word being
/// collected and its kind, and how many white-space characters came in a row.
#[derive(Debug)]
pub struct Lexer {
    pub tokens: Vec<Token>,
    pub buf: Vec<char>,
    pub ty: TokenStr,
    pub ignored: u8,
}

impl View for Lexer {
    type V = LexState;

    open spec fn view(&self) -> LexState {
        LexState { tokens: tokens_view(self.tokens@), buf: self.buf@, ty: self.ty, ignored: self.ignored }
    }
}

impl Lexer {
    /// The tokenizer before the first character.
    pub fn new() -> (r: Lexer)
        ensures
            r@ == lex_start(),
    {
        let r = Lexer { tokens: Vec::new(), buf: Vec::new(), ty: TokenStr::No, ignored: 0 };
        assert(r@.tokens =~= Seq::<SpecToken>::empty());
        assert(r@.buf =~= Seq::<char>::empty());
        r
    }

    /// Reads the character `c`, given whether it starts a name (`_` or
    /// alphabetic), whether it is numeric and whether it is white space.
    pub fn step(&mut self, c: char, starts_name: bool, numeric: bool, whitespace: bool)
        requires
            lex_coherent(old(self)@),
        ensures
            final(self)@ == lex_step_with(old(self)@, c, starts_name, numeric, whitespace),
            lex_coherent(final(self)@),
    {
        let ghost st = self@;
        let mut ignore_flush = true;
        match punct_token(c) {
            Some(t) => push(&mut self.tokens, &mut self.buf, t, &mut self.ty),
            None => {
                if starts_name || (self.ty == TokenStr::Name && numeric) {
                    self::add(&mut self.tokens, &mut self.buf, &mut self.ty, c, TokenStr::Name);
                } else if is_ascii_hexdigit(c) {
                    self::add(&mut self.tokens, &mut self.buf, &mut self.ty, c, TokenStr::Number);
                } else if c == ' ' && self.ignored == 4 {
                    self.tokens.push(Token::Tab);
                    assert(tokens_view(self.tokens@) =~= st.tokens.push(SpecToken::Tab));
                } else if whitespace {
                    ignore_flush = false;
                    self.ignored = if self.ignored == 255 { 0 } else { self.ignored + 1 };
                    flush(&mut self.tokens, &mut self.buf, &mut self.ty);
                } else {
                    push(&mut self.tokens, &mut self.buf, Token::Unknown(c), &mut self.ty);
                }
            },
        }
        if ignore_flush {
            self.ignored = 0;
        }
    }

    /// The tokens once the text has ended: the word being collected is
    /// emitted last.
    pub fn finish(self) -> (r: Vec<Token>)
        requires
            lex_coherent(self@),
        ensures
            tokens_view(r@) == lex_flush(self@).tokens,
    {
        let mut me = self;
        flush(&mut me.tokens, &mut me.buf, &mut me.ty);
        me.tokens
    }
}

/// The tokens of `code`: words, one-character tokens and string literals,
/// with white space dropped. `None` where a string literal is closed by the
/// very last token.
pub fn parse(code: &Vec<char>) -> (r: Option<Vec<Token>>)
    ensures
        r is None <==> merge(lex_tokens(code@)).1 == Err::<(), MergeError>(MergeError::NoTokenAfter),
        r matches Some(v) ==> tokens_view(v@) == merge(lex_tokens(code@)).0,
{
    let mut lexer = Lexer::new();
    let n = code.len();
    let mut i: usize = 0;
    assert(code@.take(0) =~= Seq::<char>::empty());
    while i < n
        invariant
            n == code.len(),
            i <= n,
            lex(code@.take(i as int)) == lexer@,
        decreases n - i,
    {
        let c = code[i];
        proof {
            lemma_lex_coherent(code@.take(i as int));
            assert(code@.take(i + 1).drop_last() =~= code@.take(i as int));
        }
        let starts_name = alphabetic(c);
        let numeric = is_numeric(c);
        let whitespace = is_whitespace(c);
        lexer.step(c, starts_name, numeric, whitespace);
        i += 1;
    }
    proof {
        lemma_lex_coherent(code@);
        assert(code@.take(n as int) =~= code@);
    }
    let mut vec = lexer.finish();
    match merge_strings(&mut vec) {
        Err(MergeError::NoTokenAfter) => None,
        _ => Some(vec),
    }
}

/// `ts` holds no `"` token.
pub open spec fn quote_free(ts: Seq<SpecToken>) -> bool {
    forall|k: int| 0 <= k < ts.len() ==> !(#[trigger] ts[k] is DoubleQuote)
}

proof fn lemma_merge_at_quote_free(ts: Seq<SpecToken>, i: int)
    ensures
        quote_free(merge_at(ts, i).0),
    decreases ts.len() - i,
{
    if 0 <= i < ts.len() {
        if !(ts[i] is DoubleQuote) {
            lemma_merge_at_quote_free(ts, i + 1);
            let r = merge_at(ts, i + 1).0;
            assert forall|k: int| 0 <= k < (seq![ts[i]] + r).len() implies !(#[trigger] (seq![ts[i]] + r)[k] is DoubleQuote) by {
                if k > 0 {
                    assert((seq![ts[i]] + r)[k] == r[k - 1]);
                }
            }
        } else {
            lemma_find_quote(ts, i + 1);
            if let Some(j) = find_quote(ts, i + 1) {
                if j + 1 < ts.len() {
                    lemma_merge_at_quote_free(ts, j + 2);
                    let r = merge_at(ts, j + 2).0;
                    let h = seq![SpecToken::String(texts(ts.subrange(i + 1, j)))];
                    assert forall|k: int| 0 <= k < (h + r).len() implies !(#[trigger] (h + r)[k] is DoubleQuote) by {
                        if k > 0 {
                            assert((h + r)[k] == r[k - 1]);
                        }
                    }
                }
            }
        }
    }
}

proof fn lemma_merge_at_identity(ts: Seq<SpecToken>, i: int)
    requires
        quote_free(ts),
        0 <= i <= ts.len(),
    ensures
        merge_at(ts, i) == (ts.skip(i), Ok::<(), MergeError>(())),
    decreases ts.len() - i,
{
    if i < ts.len() {
        assert(!(ts[i] is DoubleQuote));
        lemma_merge_at_identity(ts, i + 1);
        assert(seq![ts[i]] + ts.skip(i + 1) =~= ts.skip(i));
    } else {
        assert(ts.skip(i) =~= Seq::<SpecToken>::empty());
    }
}

/// Merging leaves no `"` token: each literal became one `String` token and an
/// unterminated one was dropped. So the tokens that `parse` gives hold no `"`.
pub proof fn law_merge_leaves_no_quotes(ts: Seq<SpecToken>)
    ensures
        quote_free(merge(ts).0),
{
    lemma_merge_at_quote_free(ts, 0);
}

/// Tokens without `"` are left as they are by merging.
pub proof fn law_merge_without_quotes(ts: Seq<SpecToken>)
    requires
        quote_free(ts),
    ensures
        merge(ts) == (ts, Ok::<(), MergeError>(())),
{
    lemma_merge_at_identity(ts, 0);
    assert(ts.skip(0) =~= ts);
}

/// Merging twice is merging once.
pub proof fn law_merge_idempotent(ts: Seq<SpecToken>)
    ensures
        merge(merge(ts).0) == (merge(ts).0, Ok::<(), MergeError>(())),
{
    law_merge_leaves_no_quotes(ts);
    law_merge_without_quotes(merge(ts).0);
}

/// A one-character token other than `"` is read back from its own text.
pub proof fn law_punct_roundtrip(c: char)
    requires
        punct_of(c) is Some,
        c != '"',
    ensures
        punct_of(c).unwrap().text() == seq![c],
        merge(lex_tokens(seq![c])) == (seq![punct_of(c).unwrap()], Ok::<(), MergeError>(())),
{
    let s = seq![c];
    assert(s.drop_last() =~= Seq::<char>::empty());
    assert(lex(s.drop_last()) == lex_start());
    assert(s.last() == c);
    assert(lex(s) == lex_step(lex_start(), c));
    let t = punct_of(c).unwrap();
    assert(lex_tokens(s) =~= seq![t]);
    assert(quote_free(seq![t]));
    law_merge_without_quotes(seq![t]);
}

/// A one-character token other than `"`.
pub open spec fn is_plain_punct(t: SpecToken) -> bool {
    punct_char(t) is Some && !(t is DoubleQuote)
}

/// The character of a one-character token stands for that token.
proof fn lemma_punct_char_of(t: SpecToken)
    requires
        punct_char(t) is Some,
    ensures
        punct_of(punct_char(t).unwrap()) == Some(t),
        t.text() == seq![punct_char(t).unwrap()],
{
}

proof fn lemma_lex_plain_punct(ts: Seq<SpecToken>)
    requires
        forall|k: int| 0 <= k < ts.len() ==> is_plain_punct(#[trigger] ts[k]),
    ensures
        lex(texts(ts)) == (LexState { tokens: ts, buf: Seq::empty(), ty: TokenStr::No, ignored: 0 }),
    decreases ts.len(),
{
    if ts.len() == 0 {
        assert(texts(ts) =~= Seq::<char>::empty());
        assert(lex_start().tokens =~= ts);
    } else {
        let init = ts.drop_last();
        let t = ts.last();
        assert(is_plain_punct(ts[ts.len() - 1]));
        assert forall|k: int| 0 <= k < init.len() implies is_plain_punct(#[trigger] init[k]) by {
            assert(init[k] == ts[k]);
        }
        lemma_lex_plain_punct(init);
        lemma_punct_char_of(t);
        let c = punct_char(t).unwrap();
        assert(texts(ts) == texts(init) + seq![c]);
        assert((texts(init) + seq![c]).drop_last() =~= texts(init));
        assert(lex(texts(ts)) == lex_step(lex(texts(init)), c));
        assert(init.push(t) =~= ts);
    }
}

/// Writing one-character tokens (other than `"`) back as text and reading
/// that text again gives the same tokens.
pub proof fn law_punct_texts_roundtrip(ts: Seq<SpecToken>)
    requires
        forall|k: int| 0 <= k < ts.len() ==> is_plain_punct(#[trigger] ts[k]),
    ensures
        merge(lex_tokens(texts(ts))) == (ts, Ok::<(), MergeError>(())),
{
    lemma_lex_plain_punct(ts);
    assert(lex_tokens(texts(ts)) == ts);
    assert(quote_free(ts));
    law_merge_without_quotes(ts);
}

} // verus!
