//! Translation of a source file, chosen by its format.

pub mod c;
pub mod comment;
pub mod format;

use vstd::prelude::*;

use self::c::{spec_start, start_halts};
use self::comment::{Comment, CommentError, uncommented};
use self::format::{Format, FormatError, extension, format_of};
use crate::error::Error;
use crate::token::{MergeError, lex_tokens, merge, parse};

verus! {

/// Why a source file could not be translated.
#[derive(Debug, Clone)]
pub enum TransformError {
    /// Its format was not recognized.
    Format(FormatError),
    /// Its comments could not be removed.
    Comment(CommentError),
    /// A string literal is closed by its very last token.
    StringAtEnd,
    /// Its tokens could not be translated.
    Translate(Error),
}

/// The comments of C: `//` up to the end of the line (kept), and `/*` up to `*/`.
pub open spec fn c_comments() -> Seq<Comment> {
    seq![
        Comment { begin: "//", end: "\n", save_end: true },
        Comment { begin: "/*", end: "*/", save_end: false },
    ]
}

/// The comments of a format.
pub open spec fn comments_of(format: Format) -> Seq<Comment> {
    match format {
        Format::C => c_comments(),
    }
}

/// Removes the comments of `format` from `code`.
pub fn uncomment(code: &mut Vec<char>, format: Format) -> (r: Result<(), CommentError>)
    ensures
        r is Ok <==> uncommented(old(code)@, comments_of(format)) is Ok,
        r matches Ok(()) ==> uncommented(old(code)@, comments_of(format)) == Ok::<Seq<char>, CommentError>(final(code)@),
        r matches Err(e) ==> uncommented(old(code)@, comments_of(format)) == Err::<Seq<char>, CommentError>(e),
{
    match format {
        Format::C => {
            let comments = [
                Comment { begin: "//", end: "\n", save_end: true },
                Comment { begin: "/*", end: "*/", save_end: false },
            ];
            assert(comments@ =~= c_comments());
            comment::uncomment(code, &comments)
        },
    }
}

/// The tokens of a source once its comments are removed, if that and
/// merging its string literals succeed.
pub open spec fn source_tokens(code: Seq<char>, format: Format) -> Option<Seq<crate::token::SpecToken>> {
    match uncommented(code, comments_of(format)) {
        Ok(clean) => {
            let m = merge(lex_tokens(clean));
            if m.1 == Err::<(), MergeError>(MergeError::NoTokenAfter) {
                None
            } else {
                Some(m.0)
            }
        },
        Err(_) => None,
    }
}

/// The preprocessor stops on the tokens of the source (where there are any).
pub open spec fn source_halts(path: Seq<char>, code: Seq<char>) -> bool {
    match extension(path) {
        Some(e) => match format_of(e) {
            Some(f) => match source_tokens(code, f) {
                Some(ts) => start_halts(ts),
                None => true,
            },
            None => true,
        },
        None => true,
    }
}

/// Translates the source `code` of the file at `path`: its format comes from
/// the extension, then comments are removed, the text is split into tokens
/// and the tokens are translated.
pub fn start(path: &str, code: Vec<char>) -> (r: Result<Vec<char>, TransformError>)
    requires
        source_halts(path@, code@),
    ensures
        match extension(path@) {
            None => r matches Err(TransformError::Format(FormatError::NoExtension)),
            Some(e) => if e.len() == 0 {
                r matches Err(TransformError::Format(FormatError::NoExtension))
            } else {
                match format_of(e) {
                    None => r matches Err(TransformError::Format(FormatError::UnknownExtension(x))) && x@ == e,
                    Some(f) => match uncommented(code@, comments_of(f)) {
                        Err(ce) => r matches Err(TransformError::Comment(x)) && x == ce,
                        Ok(clean) => match source_tokens(code@, f) {
                            None => r matches Err(TransformError::StringAtEnd),
                            Some(ts) => match spec_start(ts) {
                                Ok(out) => r matches Ok(v) && v@ == out,
                                Err(er) => r matches Err(TransformError::Translate(x)) && x@ == er,
                            },
                        },
                    },
                }
            },
        },
{
    let format = match Format::detect(path) {
        Ok(f) => f,
        Err(e) => return Err(TransformError::Format(e)),
    };
    let mut code = code;
    match uncomment(&mut code, format) {
        Ok(()) => {},
        Err(e) => return Err(TransformError::Comment(e)),
    }
    let tokens = match parse(&code) {
        None => return Err(TransformError::StringAtEnd),
        Some(t) => t,
    };
    match format {
        Format::C => match c::start(tokens) {
            Ok(out) => Ok(out),
            Err(e) => Err(TransformError::Translate(e)),
        },
    }
}

} // verus!
