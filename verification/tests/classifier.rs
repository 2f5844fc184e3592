use sloc::counter::{Counter, Sloc};
use sloc::lang::Lang;

fn count(lang: Lang, content: &[u8]) -> Sloc {
    let counter = Counter::new(lang, lang.comment_info());
    counter.count(content)
}

#[test]
fn three_line_scenario() {
    let s = count(Lang::Rust, b"// hello\n\nlet x = 1;\n");
    assert_eq!(s.stats.files, 1);
    assert_eq!(s.stats.lines, 3);
    assert_eq!(s.stats.comments, 1);
    assert_eq!(s.stats.blanks, 1);
    assert_eq!(s.stats.code, 1);
}

#[test]
fn single_line_comments_only() {
    let s = count(Lang::Rust, b"// a\n// b\n// c\n");
    assert_eq!(s.stats.lines, 3);
    assert_eq!(s.stats.comments, 3);
    assert_eq!(s.stats.blanks, 0);
    assert_eq!(s.stats.code, 0);
}

#[test]
fn one_line_block_comment() {
    let s = count(Lang::Rust, b"/* comment */\nlet x = 1;\n");
    assert_eq!(s.stats.lines, 2);
    assert_eq!(s.stats.comments, 1);
    assert_eq!(s.stats.code, 1);
    assert_eq!(s.stats.blanks, 0);
}

#[test]
fn blank_line_keeps_block_state() {
    let s = count(Lang::Rust, b"/*\n   \n*/\nx\n");
    assert_eq!(s.stats.lines, 4);
    assert_eq!(s.stats.comments, 2);
    assert_eq!(s.stats.blanks, 1);
    assert_eq!(s.stats.code, 1);
}

#[test]
fn block_comment_spanning_lines() {
    let s = count(Lang::C, b"/*\nmiddle\n*/\nint x;\n");
    assert_eq!(s.stats.lines, 4);
    assert_eq!(s.stats.comments, 3);
    assert_eq!(s.stats.code, 1);
}

#[test]
fn block_end_must_end_the_line() {
    let s = count(Lang::C, b"/*\n*/ trailing\nx\n");
    assert_eq!(s.stats.lines, 3);
    assert_eq!(s.stats.comments, 3);
    assert_eq!(s.stats.code, 0);
}

#[test]
fn crlf_line_endings() {
    let s = count(Lang::Rust, b"// a\r\n\r\nx;\r\n");
    assert_eq!(s.stats.lines, 3);
    assert_eq!(s.stats.comments, 1);
    assert_eq!(s.stats.blanks, 1);
    assert_eq!(s.stats.code, 1);
}

#[test]
fn unterminated_last_segment_is_not_a_line() {
    let s = count(Lang::Rust, b"a\nb");
    assert_eq!(s.stats.lines, 1);
    assert_eq!(s.stats.code, 1);
}

#[test]
fn empty_content() {
    let s = count(Lang::Rust, b"");
    assert_eq!(s.stats.files, 1);
    assert_eq!(s.stats.lines, 0);
    assert_eq!(s.stats.code, 0);
    assert_eq!(s.stats.comments, 0);
    assert_eq!(s.stats.blanks, 0);
}

#[test]
fn plain_text_is_all_code() {
    let s = count(Lang::PlainText, b"hello\n// not a comment here\n");
    assert_eq!(s.stats.lines, 2);
    assert_eq!(s.stats.code, 2);
    assert_eq!(s.stats.comments, 0);
}

#[test]
fn python_docstring_block() {
    let s = count(Lang::Python, b"\"\"\" doc\nsecond line\n\"\"\"\nx = 1\n# note\n");
    assert_eq!(s.stats.lines, 5);
    assert_eq!(s.stats.comments, 4);
    assert_eq!(s.stats.code, 1);
}

#[test]
fn lone_triple_quote_both_opens_and_closes() {
    // a line that is exactly `"""` starts with the block delimiter and
    // ends with it too, so it counts as a one-line block comment and the
    // middle of the would-be docstring is code
    let s = count(Lang::Python, b"\"\"\"\ndoc\n\"\"\"\n");
    assert_eq!(s.stats.lines, 3);
    assert_eq!(s.stats.comments, 2);
    assert_eq!(s.stats.code, 1);
}

#[test]
fn lua_block_has_priority_over_single() {
    let s = count(Lang::Lua, b"--[[\ny\n--]]\nprint(1)\n-- note\n");
    assert_eq!(s.stats.lines, 5);
    assert_eq!(s.stats.comments, 4);
    assert_eq!(s.stats.code, 1);
}

#[test]
fn asm_multiple_single_line_prefixes() {
    let s = count(Lang::Asm, b"; a\n# b\n@ c\n// d\nmov r0, r1\n");
    assert_eq!(s.stats.lines, 5);
    assert_eq!(s.stats.comments, 4);
    assert_eq!(s.stats.code, 1);
}

#[test]
fn leading_whitespace_is_trimmed() {
    let s = count(Lang::Rust, b"    // indented comment\n\t/* indented block */\n");
    assert_eq!(s.stats.lines, 2);
    assert_eq!(s.stats.comments, 2);
    assert_eq!(s.stats.code, 0);
}

#[test]
fn html_has_no_single_line_comments() {
    let s = count(Lang::Html, b"<!-- note -->\n<p>hi</p>\n");
    assert_eq!(s.stats.lines, 2);
    assert_eq!(s.stats.comments, 1);
    assert_eq!(s.stats.code, 1);
}

#[test]
fn record_invariant_holds() {
    let inputs: Vec<&[u8]> = vec![
        b"",
        b"x\n",
        b"/*\n*/\n",
        b"// a\n\n\nb\n",
        b"\xff\xfe\n// ok\n",
    ];
    for content in inputs {
        let s = count(Lang::Rust, content);
        assert_eq!(s.stats.lines, s.stats.code + s.stats.comments + s.stats.blanks);
    }
}
