use simd_detective::sanitize::remove_comments;

#[test]
fn line_comment_removed_newline_preserved() {
    assert_eq!(remove_comments("foo(); // bar(baz)"), "foo(); \n");
}

#[test]
fn block_comment_removed_with_name_inside() {
    assert_eq!(
        remove_comments("/* _mm512_add_epi32 */ other_code();"),
        " other_code();\n"
    );
}

#[test]
fn empty_text_becomes_single_newline() {
    assert_eq!(remove_comments(""), "\n");
}

#[test]
fn code_without_comments_gains_only_trailing_newline() {
    assert_eq!(remove_comments("int x = 1;\nint y = 2;"), "int x = 1;\nint y = 2;\n");
}

#[test]
fn fully_commented_line_leaves_blank_line() {
    assert_eq!(remove_comments("// all comment\ncode();"), "\ncode();\n");
}

#[test]
fn second_pass_appends_exactly_one_newline() {
    let inputs = [
        "a",
        "a\n",
        "x(); // c\n/* b */ y();",
        "/* unterminated",
        "",
        "a /* b */ c // d",
    ];
    for t in inputs {
        let once = remove_comments(t);
        let twice = remove_comments(&once);
        let mut expected = once.clone();
        expected.push('\n');
        assert_eq!(twice, expected);
    }
}

#[test]
fn unterminated_block_comment_left_untouched() {
    assert_eq!(remove_comments("a /* b"), "a /* b\n");
}

#[test]
fn terminated_then_unterminated_block() {
    assert_eq!(remove_comments("a /* b */ c /* d"), "a  c /* d\n");
}

#[test]
fn adjacent_block_comments_form_line_comment_at_seam() {
    // The seam of `*//*` spells `//`, and the line pass runs first: the line
    // is truncated there, leaving an unterminated `/*` that the block pass
    // keeps.
    assert_eq!(remove_comments("/*a*//*b*/x"), "/*a*\n");
}

#[test]
fn empty_block_comment_removed() {
    assert_eq!(remove_comments("x/**/y"), "xy\n");
}

#[test]
fn line_comment_strips_block_terminator_on_interior_line() {
    // The line pass runs first, so a `//` on an interior line of a multi-line
    // block comment eats that line, including a `*/` standing after it.
    assert_eq!(remove_comments("/*\n// x */\ny();"), "/*\n\ny();\n");
}

#[test]
fn block_comment_spanning_lines_removed() {
    assert_eq!(remove_comments("a/* one\ntwo */b"), "ab\n");
}
