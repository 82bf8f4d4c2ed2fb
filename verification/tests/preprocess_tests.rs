use minic::preprocess::preprocess;
use minic::token::Position;

fn chars(s: &str) -> Vec<char> {
    s.chars().collect()
}

fn pp(s: &str) -> Result<String, Position> {
    preprocess(&chars(s)).map(|v| v.into_iter().collect())
}

#[test]
fn plain_text_is_unchanged() {
    assert_eq!(pp("int a;\nint b;\n").unwrap(), "int a;\nint b;\n");
}

#[test]
fn line_comment_is_dropped_but_newline_kept() {
    assert_eq!(pp("a//xyz\nb").unwrap(), "a\nb");
}

#[test]
fn trailing_line_comment_without_newline() {
    assert_eq!(pp("a//xyz").unwrap(), "a");
}

#[test]
fn block_comment_becomes_spaces() {
    assert_eq!(pp("a/*x*/b").unwrap(), "a     b");
}

#[test]
fn block_comment_keeps_embedded_newlines() {
    assert_eq!(pp("a/*x\ny*/b").unwrap(), "a   \n   b");
}

#[test]
fn lone_slash_passes_through() {
    assert_eq!(pp("a/b").unwrap(), "a/b");
    assert_eq!(pp("a/").unwrap(), "a/");
    assert_eq!(pp("/").unwrap(), "/");
}

#[test]
fn slash_before_newline_keeps_line_count() {
    assert_eq!(pp("a/\nb//c\nd").unwrap(), "a/\nb\nd");
}

#[test]
fn block_comments_do_not_nest() {
    // The first */ closes the comment; the second survives as plain text.
    assert_eq!(pp("/*/**/*/").unwrap(), "      */");
}

#[test]
fn line_comment_hides_block_opening() {
    assert_eq!(pp("//a/*\nb").unwrap(), "\nb");
}

#[test]
fn unterminated_block_comment_fails_at_opening() {
    assert_eq!(pp("/*x").unwrap_err(), Position { line: 1, col: 1 });
}

#[test]
fn unterminated_comment_on_line_four() {
    // The error points at the comment's opening line, not at end-of-file.
    assert_eq!(pp("ab\ncd\nef\n/* never closed\n\n").unwrap_err(), Position { line: 4, col: 1 });
}

#[test]
fn unterminated_comment_mid_line() {
    assert_eq!(pp("int a; /* oops").unwrap_err(), Position { line: 1, col: 8 });
}

#[test]
fn star_inside_comment_then_close() {
    assert_eq!(pp("a/***/b").unwrap(), "a     b");
}

#[test]
fn positions_survive_block_comments() {
    // Same length, newlines in the same places: every character after the
    // comment keeps its line and column.
    let src = "int/*q\nq*/x;";
    let out = pp(src).unwrap();
    assert_eq!(out.chars().count(), src.chars().count());
    for (a, b) in src.chars().zip(out.chars()) {
        assert_eq!(a == '\n', b == '\n');
        assert!(b == a || b == ' ');
    }
}
