//! Removal of comments from source text.

use vstd::prelude::*;

use crate::text::{chars_start_at, slice_chars, starts_at, str_chars};

verus! {

/// A kind of comment: from `begin` up to `end`. With `save_end` the `end`
/// text is kept (a line comment keeps its newline).
pub struct Comment {
    pub begin: &'static str,
    pub end: &'static str,
    pub save_end: bool,
}

/// Why comments could not be removed.
#[derive(Debug, Copy, Clone, PartialEq, Eq, Structural)]
pub enum CommentError {
    /// A comment has no end.
    Unterminated,
    /// The scan reached a character that is not ASCII outside a comment
    /// (positions are counted in bytes, so only ASCII text can be scanned).
    NotAscii,
}

/// The first position `k >= from`, up to the length of `s`, at which `pat` occurs.
pub open spec fn find_from(s: Seq<char>, from: int, pat: Seq<char>) -> Option<int>
    decreases s.len() + 1 - from,
{
    if from < 0 || from > s.len() {
        None
    } else if starts_at(s, from, pat) {
        Some(from)
    } else {
        find_from(s, from + 1, pat)
    }
}

pub proof fn lemma_find_from(s: Seq<char>, from: int, pat: Seq<char>)
    ensures
        find_from(s, from, pat) matches Some(k) ==> from <= k <= s.len() && starts_at(s, k, pat)
            && forall|m: int| from <= m < k ==> !starts_at(s, m, pat),
        find_from(s, from, pat) is None ==> forall|m: int| 0 <= from <= m <= s.len() ==> !starts_at(s, m, pat),
    decreases s.len() + 1 - from,
{
    if 0 <= from <= s.len() && !starts_at(s, from, pat) {
        lemma_find_from(s, from + 1, pat);
    }
}

/// `s` without its characters from `i` up to `k`.
pub open spec fn cut(s: Seq<char>, i: int, k: int) -> Seq<char> {
    s.take(i) + s.skip(k)
}

/// Removing the comment of kind `c` that begins at `i`, if one does:
/// its `begin`, then every character up to its `end`, then (unless
/// `save_end`) its `end`. `None` if the comment has no end.
pub open spec fn apply_comment(s: Seq<char>, i: int, c: Comment) -> Option<Seq<char>> {
    if !starts_at(s, i, c.begin@) {
        Some(s)
    } else {
        let s1 = cut(s, i, i + c.begin@.len());
        match find_from(s1, i, c.end@) {
            None => None,
            Some(k) => {
                let s2 = cut(s1, i, k);
                Some(if c.save_end { s2 } else { cut(s2, i, i + c.end@.len()) })
            },
        }
    }
}

/// Trying each kind of comment in turn at position `i`.
pub open spec fn apply_comments(s: Seq<char>, i: int, cs: Seq<Comment>) -> Option<Seq<char>>
    decreases cs.len(),
{
    if cs.len() == 0 {
        Some(s)
    } else {
        match apply_comment(s, i, cs[0]) {
            None => None,
            Some(s1) => apply_comments(s1, i, cs.drop_first()),
        }
    }
}

pub proof fn lemma_apply_comments_len(s: Seq<char>, i: int, cs: Seq<Comment>)
    requires
        0 <= i <= s.len(),
    ensures
        apply_comments(s, i, cs) matches Some(r) ==> i <= r.len() <= s.len(),
    decreases cs.len(),
{
    if cs.len() > 0 {
        let c = cs[0];
        if starts_at(s, i, c.begin@) {
            let s1 = cut(s, i, i + c.begin@.len());
            lemma_find_from(s1, i, c.end@);
        }
        if let Some(s1) = apply_comment(s, i, c) {
            lemma_apply_comments_len(s1, i, cs.drop_first());
        }
    }
}

/// Removing comments from position `i` on. `Err` where removal fails.
pub open spec fn uncomment_from(s: Seq<char>, cs: Seq<Comment>, i: int) -> Result<Seq<char>, CommentError>
    decreases s.len() + 1 - i,
{
    if i < 0 || i >= s.len() {
        Ok(s)
    } else {
        proof { lemma_apply_comments_len(s, i, cs); }
        match apply_comments(s, i, cs) {
            None => Err(CommentError::Unterminated),
            Some(s1) => {
                if cs.len() > 0 && i < s1.len() && (s1[i] as u32) >= 128 {
                    Err(CommentError::NotAscii)
                } else {
                    uncomment_from(s1, cs, i + 1)
                }
            },
        }
    }
}

/// The text without its comments, or why that fails.
pub open spec fn uncommented(s: Seq<char>, cs: Seq<Comment>) -> Result<Seq<char>, CommentError> {
    uncomment_from(s, cs, 0)
}

/// No comment of the kinds `cs` begins anywhere in `s`.
pub open spec fn holds_no_comment(s: Seq<char>, cs: Seq<Comment>) -> bool {
    forall|k: int, q: int| 0 <= k < s.len() && 0 <= q < cs.len() ==> !#[trigger] starts_at(s, k, cs[q].begin@)
}

/// Every character of `s` is ASCII.
pub open spec fn all_ascii(s: Seq<char>) -> bool {
    forall|k: int| 0 <= k < s.len() ==> (#[trigger] s[k] as u32) < 128
}

/// Where no comment begins at `i`, trying the kinds at `i` changes nothing.
proof fn lemma_apply_comments_none(s: Seq<char>, i: int, cs: Seq<Comment>)
    requires
        forall|q: int| 0 <= q < cs.len() ==> !starts_at(s, i, #[trigger] cs[q].begin@),
    ensures
        apply_comments(s, i, cs) == Some(s),
    decreases cs.len(),
{
    if cs.len() > 0 {
        assert(!starts_at(s, i, cs[0].begin@));
        let rest = cs.drop_first();
        assert forall|q: int| 0 <= q < rest.len() implies !starts_at(s, i, #[trigger] rest[q].begin@) by {
            assert(rest[q] == cs[q + 1]);
        }
        lemma_apply_comments_none(s, i, rest);
    }
}

proof fn lemma_uncomment_from_none(s: Seq<char>, cs: Seq<Comment>, i: int)
    requires
        holds_no_comment(s, cs),
        all_ascii(s),
        0 <= i,
    ensures
        uncomment_from(s, cs, i) == Ok::<Seq<char>, CommentError>(s),
    decreases s.len() + 1 - i,
{
    if i < s.len() {
        assert forall|q: int| 0 <= q < cs.len() implies !starts_at(s, i, #[trigger] cs[q].begin@) by {
            assert(!starts_at(s, i, cs[q].begin@));
        }
        lemma_apply_comments_none(s, i, cs);
        assert((s[i] as u32) < 128);
        lemma_uncomment_from_none(s, cs, i + 1);
    }
}

/// Text in which no comment begins, all of it ASCII, comes out of comment
/// removal unchanged.
pub proof fn law_uncomment_keeps_text_without_comments(s: Seq<char>, cs: Seq<Comment>)
    requires
        holds_no_comment(s, cs),
        all_ascii(s),
    ensures
        uncommented(s, cs) == Ok::<Seq<char>, CommentError>(s),
{
    lemma_uncomment_from_none(s, cs, 0);
}

/// `s` without `s[i..k]`.
fn cut_chars(s: &Vec<char>, i: usize, k: usize) -> (r: Vec<char>)
    requires
        i <= k <= s.len(),
    ensures
        r@ == cut(s@, i as int, k as int),
{
    let mut r = slice_chars(s, 0, i);
    let mut j: usize = k;
    while j < s.len()
        invariant
            i <= k <= j <= s.len(),
            r@ == s@.take(i as int) + s@.subrange(k as int, j as int),
        decreases s.len() - j,
    {
        r.push(s[j]);
        j += 1;
        assert(s@.subrange(k as int, j as int) == s@.subrange(k as int, j - 1) + seq![s@[j - 1]]);
    }
    assert(s@.subrange(0, i as int) == s@.take(i as int));
    assert(s@.subrange(k as int, s.len() as int) == s@.skip(k as int));
    r
}

/// The first position at or after `from` where `pat` occurs.
fn find_chars(s: &Vec<char>, from: usize, pat: &Vec<char>) -> (r: Option<usize>)
    requires
        from <= s.len(),
    ensures
        r matches Some(k) ==> find_from(s@, from as int, pat@) == Some(k as int),
        r is None ==> find_from(s@, from as int, pat@) is None,
{
    let mut k = from;
    loop
        invariant
            from <= k <= s.len(),
            find_from(s@, from as int, pat@) == find_from(s@, k as int, pat@),
        decreases s.len() - k,
    {
        if chars_start_at(s, k, pat) {
            return Some(k);
        }
        if k == s.len() {
            assert(find_from(s@, k + 1, pat@) is None);
            return None;
        }
        k += 1;
    }
}

/// One kind of comment at position `i`.
fn remove_comment(s: Vec<char>, i: usize, begin: &Vec<char>, end: &Vec<char>, save_end: bool, c: Ghost<Comment>)
    -> (r: Option<Vec<char>>)
    requires
        i <= s.len(),
        begin@ == c@.begin@,
        end@ == c@.end@,
        save_end == c@.save_end,
    ensures
        r matches Some(v) ==> apply_comment(s@, i as int, c@) == Some(v@),
        r is None ==> apply_comment(s@, i as int, c@) is None,
{
    if !chars_start_at(&s, i, begin) {
        return Some(s);
    }
    let s1 = cut_chars(&s, i, i + begin.len());
    match find_chars(&s1, i, end) {
        None => None,
        Some(k) => {
            proof { lemma_find_from(s1@, i as int, end@); }
            let s2 = cut_chars(&s1, i, k);
            if save_end {
                Some(s2)
            } else {
                proof {
                    assert(s1@.subrange(k as int, k + end@.len()) == end@);
                    assert(s2@.subrange(i as int, i + end@.len()) =~= s1@.subrange(k as int, k + end@.len()));
                }
                Some(cut_chars(&s2, i, i + end.len()))
            }
        },
    }
}

/// Removes the comments of the given kinds from `code`, scanning it from the
/// front; at each position each kind is tried in turn.
pub fn uncomment(code: &mut Vec<char>, comments: &[Comment]) -> (r: Result<(), CommentError>)
    ensures
        r is Ok <==> uncommented(old(code)@, comments@) is Ok,
        r matches Ok(()) ==> uncommented(old(code)@, comments@) == Ok::<Seq<char>, CommentError>(final(code)@),
        r matches Err(e) ==> uncommented(old(code)@, comments@) == Err::<Seq<char>, CommentError>(e),
{
    let mut begins: Vec<Vec<char>> = Vec::new();
    let mut ends: Vec<Vec<char>> = Vec::new();
    let mut m: usize = 0;
    while m < comments.len()
        invariant
            m <= comments.len(),
            begins.len() == m,
            ends.len() == m,
            forall|q: int| 0 <= q < m ==> begins@[q]@ == comments@[q].begin@ && ends@[q]@ == comments@[q].end@,
        decreases comments.len() - m,
    {
        begins.push(str_chars(comments[m].begin));
        ends.push(str_chars(comments[m].end));
        m += 1;
    }
    let ghost cs = comments@;
    let ghost orig = code@;
    let mut s: Vec<char> = code.clone();
    let mut i: usize = 0;
    while i < s.len()
        invariant
            cs == comments@,
            orig == old(code)@,
            begins.len() == cs.len(),
            ends.len() == cs.len(),
            forall|q: int| 0 <= q < cs.len() ==> begins@[q]@ == cs[q].begin@ && ends@[q]@ == cs[q].end@,
            i <= s.len() + 1,
            uncommented(orig, cs) == uncomment_from(s@, cs, i as int),
        decreases s.len() + 1 - i,
    {
        let ghost start = s@;
        assert(cs.skip(0) =~= cs);
        let mut j: usize = 0;
        while j < comments.len()
            invariant
                cs == comments@,
                begins.len() == cs.len(),
                ends.len() == cs.len(),
                forall|q: int| 0 <= q < cs.len() ==> begins@[q]@ == cs[q].begin@ && ends@[q]@ == cs[q].end@,
                j <= cs.len(),
                i <= s.len(),
                i < start.len(),
                orig == old(code)@,
                uncommented(orig, cs) == uncomment_from(start, cs, i as int),
                apply_comments(start, i as int, cs) == apply_comments(s@, i as int, cs.skip(j as int)),
            decreases cs.len() - j,
        {
            let ghost before = s@;
            assert(cs.skip(j as int).drop_first() =~= cs.skip(j + 1));
            assert(cs.skip(j as int)[0] == cs[j as int]);
            match remove_comment(s, i, &begins[j], &ends[j], comments[j].save_end, Ghost(cs[j as int])) {
                None => {
                    assert(apply_comments(start, i as int, cs) is None);
                    return Err(CommentError::Unterminated);
                },
                Some(v) => {
                    s = v;
                },
            }
            proof {
                lemma_apply_comments_len(before, i as int, cs.skip(j as int));
                let c = cs[j as int];
                if starts_at(before, i as int, c.begin@) {
                    lemma_find_from(cut(before, i as int, i + c.begin@.len()), i as int, c.end@);
                }
            }
            j += 1;
        }
        assert(cs.skip(cs.len() as int) =~= Seq::<Comment>::empty());
        proof { lemma_apply_comments_len(start, i as int, cs); }
        if comments.len() > 0 && i < s.len() && (s[i] as u32) >= 128 {
            return Err(CommentError::NotAscii);
        }
        i += 1;
    }
    *code = s;
    Ok(())
}

} // verus!
