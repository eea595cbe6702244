//! Small helpers on character vectors.

use vstd::prelude::*;

verus! {

/// The characters of `s`.
pub fn str_chars(s: &str) -> (r: Vec<char>)
    ensures
        r@ == s@,
{
    let n = s.unicode_len();
    let mut r: Vec<char> = Vec::new();
    let mut i: usize = 0;
    while i < n
        invariant
            n == s@.len(),
            i <= n,
            r@ == s@.subrange(0, i as int),
        decreases n - i,
    {
        r.push(s.get_char(i));
        i += 1;
        assert(s@.subrange(0, i as int) == s@.subrange(0, i - 1) + seq![s@[i - 1]]);
    }
    assert(s@.subrange(0, n as int) == s@);
    r
}

/// Appends the characters of `s` to `out`.
pub fn push_chars(out: &mut Vec<char>, s: &Vec<char>)
    ensures
        final(out)@ == old(out)@ + s@,
{
    let mut i: usize = 0;
    while i < s.len()
        invariant
            i <= s.len(),
            out@ == old(out)@ + s@.subrange(0, i as int),
        decreases s.len() - i,
    {
        out.push(s[i]);
        i += 1;
        assert(s@.subrange(0, i as int) == s@.subrange(0, i - 1) + seq![s@[i - 1]]);
    }
    assert(s@.subrange(0, s.len() as int) == s@);
}

/// Appends the characters of `s` to `out`.
pub fn push_str(out: &mut Vec<char>, s: &str)
    ensures
        final(out)@ == old(out)@ + s@,
{
    let v = str_chars(s);
    push_chars(out, &v);
}

/// `s[from..to]` as a new vector.
pub fn slice_chars(s: &Vec<char>, from: usize, to: usize) -> (r: Vec<char>)
    requires
        from <= to <= s.len(),
    ensures
        r@ == s@.subrange(from as int, to as int),
{
    let mut r: Vec<char> = Vec::new();
    let mut i: usize = from;
    while i < to
        invariant
            from <= i <= to <= s.len(),
            r@ == s@.subrange(from as int, i as int),
        decreases to - i,
    {
        r.push(s[i]);
        i += 1;
        assert(s@.subrange(from as int, i as int) == s@.subrange(from as int, i - 1) + seq![s@[i - 1]]);
    }
    r
}

/// Whether `pat` occurs in `s` at position `k`.
pub open spec fn starts_at(s: Seq<char>, k: int, pat: Seq<char>) -> bool {
    0 <= k && k + pat.len() <= s.len() && s.subrange(k, k + pat.len()) == pat
}

/// Whether `pat` occurs in `s` at position `k`.
pub fn chars_start_at(s: &Vec<char>, k: usize, pat: &Vec<char>) -> (r: bool)
    ensures
        r == starts_at(s@, k as int, pat@),
{
    if k > s.len() || pat.len() > s.len() - k {
        return false;
    }
    let mut j: usize = 0;
    while j < pat.len()
        invariant
            k + pat.len() <= s.len(),
            j <= pat.len(),
            forall|m: int| 0 <= m < j ==> s@[k + m] == pat@[m],
        decreases pat.len() - j,
    {
        if s[k + j] != pat[j] {
            assert(s@.subrange(k as int, k + pat.len())[j as int] != pat@[j as int]);
            return false;
        }
        j += 1;
    }
    assert(s@.subrange(k as int, k + pat.len()) =~= pat@);
    true
}

} // verus!
