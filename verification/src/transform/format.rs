//! Source formats, recognized by the file extension.

use vstd::prelude::*;

use crate::text::{slice_chars, str_chars};

verus! {

/// A source format.
#[derive(Debug, Copy, Clone, PartialEq, Eq, Structural)]
pub enum Format {
    C,
}

/// Why no format was recognized.
#[derive(Debug, Clone)]
pub enum FormatError {
    /// The path has no `.` or nothing after its last `.`.
    NoExtension,
    /// The extension is not one of a known format.
    UnknownExtension(Vec<char>),
}

/// The position of the last `.` in `p`.
pub open spec fn last_dot(p: Seq<char>) -> Option<int>
    decreases p.len(),
{
    if p.len() == 0 {
        None
    } else if p.last() == '.' {
        Some(p.len() - 1)
    } else {
        last_dot(p.drop_last())
    }
}

/// The text after the last `.` of `p`, if there is a `.`.
pub open spec fn extension(p: Seq<char>) -> Option<Seq<char>> {
    match last_dot(p) {
        Some(k) => Some(p.skip(k + 1)),
        None => None,
    }
}

/// The format of an extension, if it is a known one: `c` and `h` are C.
pub open spec fn format_of(ext: Seq<char>) -> Option<Format> {
    if ext == seq!['c'] || ext == seq!['h'] {
        Some(Format::C)
    } else {
        None
    }
}

impl Format {
    /// The format of the file at `path`, by its extension.
    pub fn detect(path: &str) -> (r: Result<Format, FormatError>)
        ensures
            r matches Ok(f) ==> extension(path@) matches Some(e) && format_of(e) == Some(f),
            (r matches Err(FormatError::NoExtension)) <==> (extension(path@) is None
                || extension(path@) == Some(Seq::<char>::empty())),
            r matches Err(FormatError::UnknownExtension(e)) ==> extension(path@) == Some(e@)
                && e@.len() > 0 && format_of(e@) is None,
            extension(path@) matches Some(e) && e.len() > 0 && format_of(e) is Some ==> r is Ok,
    {
        let p = str_chars(path);
        let mut k = p.len();
        assert(p@.take(p.len() as int) =~= p@);
        while k > 0 && p[k - 1] != '.'
            invariant
                k <= p.len(),
                p@ == path@,
                last_dot(p@) == last_dot(p@.take(k as int)),
            decreases k,
        {
            assert(p@.take(k as int).drop_last() =~= p@.take(k - 1));
            k -= 1;
        }
        if k == 0 {
            assert(p@.take(0) =~= Seq::<char>::empty());
            assert(last_dot(p@.take(0)) is None);
            assert(extension(path@) is None);
            return Err(FormatError::NoExtension);
        }
        assert(last_dot(p@.take(k as int)) == Some(k - 1));
        let ext = slice_chars(&p, k, p.len());
        assert(ext@ =~= p@.skip(k as int));
        if ext.len() == 0 {
            assert(ext@ =~= Seq::<char>::empty());
            return Err(FormatError::NoExtension);
        }
        Self::only_detect_chars(ext)
    }

    /// The format of the extension `ext`.
    pub fn only_detect(ext: &str) -> (r: Result<Format, FormatError>)
        ensures
            r matches Ok(f) ==> format_of(ext@) == Some(f),
            r matches Err(FormatError::UnknownExtension(e)) ==> e@ == ext@ && format_of(ext@) is None,
            r matches Err(FormatError::NoExtension) ==> false,
            format_of(ext@) is Some ==> r is Ok,
    {
        Self::only_detect_chars(str_chars(ext))
    }

    fn only_detect_chars(ext: Vec<char>) -> (r: Result<Format, FormatError>)
        ensures
            r matches Ok(f) ==> format_of(ext@) == Some(f),
            r matches Err(FormatError::UnknownExtension(e)) ==> e@ == ext@ && format_of(ext@) is None,
            r matches Err(FormatError::NoExtension) ==> false,
            format_of(ext@) is Some ==> r is Ok,
    {
        if ext.len() == 1 && (ext[0] == 'c' || ext[0] == 'h') {
            assert(ext@ =~= seq!['c'] || ext@ =~= seq!['h']);
            Ok(Format::C)
        } else {
            proof {
                if ext@ == seq!['c'] || ext@ == seq!['h'] {
                    assert(ext@.len() == 1 && ext@[0] == ext@[0]);
                }
            }
            Err(FormatError::UnknownExtension(ext))
        }
    }
}

} // verus!
