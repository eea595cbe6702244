use qas::transform::comment::{uncomment, Comment, CommentError};
use qas::transform::format::{Format, FormatError};

fn text_chars(s: &str) -> Vec<char> {
    s.chars().collect()
}

fn uncomment_c(s: &str) -> Result<String, CommentError> {
    let mut code = text_chars(s);
    qas::transform::uncomment(&mut code, Format::C).map(|()| code.iter().collect())
}

#[test]
fn line_comment_keeps_its_newline() {
    assert_eq!(uncomment_c("a // c\nb"), Ok("a \nb".to_string()));
}

#[test]
fn block_comment_is_removed_whole() {
    assert_eq!(uncomment_c("a /* c */ b"), Ok("a  b".to_string()));
}

#[test]
fn comments_of_both_kinds() {
    assert_eq!(uncomment_c("//a\n/*b*/c"), Ok("\nc".to_string()));
}

#[test]
fn block_comments_do_not_nest() {
    assert_eq!(uncomment_c("/* a /* b */ c */"), Ok(" c */".to_string()));
}

#[test]
fn line_comment_first_at_the_same_place() {
    // `//` is tried before `/*`, and this line comment has no newline
    assert_eq!(uncomment_c("///* x */y"), Err(CommentError::Unterminated));
}

#[test]
fn unterminated_block_comment() {
    assert_eq!(uncomment_c("int x; /* open"), Err(CommentError::Unterminated));
}

#[test]
fn unterminated_line_comment() {
    assert_eq!(uncomment_c("x // no newline"), Err(CommentError::Unterminated));
}

#[test]
fn text_without_comments_is_unchanged() {
    let s = "int main(int a) {\n    return a * 2 / 3;\n}\n";
    assert_eq!(uncomment_c(s), Ok(s.to_string()));
}

#[test]
fn non_ascii_outside_a_comment_is_refused() {
    assert_eq!(uncomment_c("a\u{e9}b"), Err(CommentError::NotAscii));
}

#[test]
fn non_ascii_inside_a_comment_goes_with_it() {
    assert_eq!(uncomment_c("a/*\u{e9}*/b"), Ok("ab".to_string()));
}

#[test]
fn uncomment_with_other_kinds() {
    let kinds = [Comment { begin: "#", end: "\n", save_end: false }];
    let mut code = text_chars("x # note\ny");
    assert_eq!(uncomment(&mut code, &kinds), Ok(()));
    assert_eq!(code.iter().collect::<String>(), "x y");
}

#[test]
fn uncomment_with_no_kinds_keeps_anything() {
    let mut code = text_chars("\u{e9} // x");
    assert_eq!(uncomment(&mut code, &[]), Ok(()));
    assert_eq!(code, text_chars("\u{e9} // x"));
}

#[test]
fn detect_by_extension() {
    assert_eq!(Format::detect("main.c").unwrap(), Format::C);
    assert_eq!(Format::detect("include/stdio.h").unwrap(), Format::C);
    assert_eq!(Format::detect("a.b.c").unwrap(), Format::C);
}

#[test]
fn detect_without_extension() {
    assert!(matches!(Format::detect("Makefile"), Err(FormatError::NoExtension)));
    assert!(matches!(Format::detect("main."), Err(FormatError::NoExtension)));
}

#[test]
fn detect_unknown_extension() {
    match Format::detect("lib.rs") {
        Err(FormatError::UnknownExtension(e)) => assert_eq!(e, text_chars("rs")),
        other => panic!("unexpected {:?}", other),
    }
    match Format::detect("dir.d/file") {
        Err(FormatError::UnknownExtension(e)) => assert_eq!(e, text_chars("d/file")),
        other => panic!("unexpected {:?}", other),
    }
}

#[test]
fn only_detect_extensions() {
    assert_eq!(Format::only_detect("c").unwrap(), Format::C);
    assert_eq!(Format::only_detect("h").unwrap(), Format::C);
    match Format::only_detect("cpp") {
        Err(FormatError::UnknownExtension(e)) => assert_eq!(e, text_chars("cpp")),
        other => panic!("unexpected {:?}", other),
    }
    assert!(matches!(Format::only_detect(""), Err(FormatError::UnknownExtension(_))));
}
