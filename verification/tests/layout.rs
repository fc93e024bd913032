use corroder::layout::{commify, desugar, open_anchors, CommifyError, LayoutError};
use corroder::strip::{pass_result, strip_comments, StripError};

fn count(text: &str, c: char) -> usize {
    text.chars().filter(|x| *x == c).count()
}

#[test]
fn desugar_opens_block_after_keyword() {
    assert_eq!(desugar("f = do\n  a\n  b\n").unwrap(), "f = do\n  {a\n  ;b\n}");
}

#[test]
fn desugar_of_nothing_is_nothing() {
    assert_eq!(desugar("").unwrap(), "");
}

#[test]
fn desugar_copies_text_without_keywords() {
    assert_eq!(desugar("a b\n  c\n").unwrap(), "a b\n  c\n");
}

#[test]
fn dedent_closes_block_without_separator() {
    // `b` stands at column 1, left of the anchor 2 of `a`.
    assert_eq!(desugar("f = do\n  a\n b\n").unwrap(), "f = do\n  {a\n }b\n");
}

#[test]
fn dedent_to_an_outer_anchor_closes_and_separates() {
    let text = "do\n a do\n   b\n c";
    assert_eq!(desugar(text).unwrap(), "do\n {a do\n   {b\n  };c}");
}

#[test]
fn block_is_anchored_at_the_word_after_the_keyword() {
    assert_eq!(desugar("f = where a = 1").unwrap(), "f = where {a = 1}");
    // an item at the column of `a` is separated
    assert_eq!(
        desugar("f = where a = 1\n          b = 2").unwrap(),
        "f = where {a = 1\n          ;b = 2}"
    );
    // an item at the column of `where` closes the block
    assert_eq!(desugar("f = where a = 1\n    b").unwrap(), "f = where {a = 1\n    }b");
}

#[test]
fn anchor_is_the_column_of_the_word_after_the_keyword() {
    assert_eq!(open_anchors("f = where a = 1"), Ok(vec![10]));
    assert_eq!(open_anchors("f = where"), Ok(vec![]));
    assert_eq!(open_anchors("do\n\t a"), Ok(vec![2]));
    assert_eq!(open_anchors("a\rb"), Err(LayoutError::UnclassifiableToken { offset: 1 }));
}

#[test]
fn anchors_increase_from_the_outermost_to_the_innermost() {
    assert_eq!(open_anchors("a do\n b do\n  c\n  d\n"), Ok(vec![1, 2]));
    assert_eq!(open_anchors("do a of b\n        c where d"), Ok(vec![3, 8, 16]));
    assert_eq!(open_anchors("do a of b\n   c where d"), Ok(vec![3, 11]));
    assert_eq!(open_anchors("do a of b\nc where d"), Ok(vec![8]));
}

#[test]
fn block_opened_at_the_anchor_around_it_repeats_the_anchor() {
    assert_eq!(open_anchors("do\n a\n let\n x"), Ok(vec![1, 1]));
    assert_eq!(open_anchors("do\n a do\n    b of\n c"), Ok(vec![1, 1]));
}

#[test]
fn line_break_is_followed_by_alignment() {
    assert_eq!(
        desugar("a do\n b do\n  c\n  d\n").unwrap(),
        "a do\n {b do\n  {c\n   ;d\n }}"
    );
}

#[test]
fn block_at_the_column_of_its_keyword_has_no_separator() {
    assert_eq!(
        desugar("f = do\n  a\n  where\n  b = 1\n").unwrap(),
        "f = do\n  {a\n  ;where\n  {b = 1\n }}"
    );
    assert_eq!(desugar("do\n let\n x").unwrap(), "do\n {let\n {x}}");
    assert_eq!(desugar("do\n a\n let\n x").unwrap(), "do\n {a\n ;let\n {x}}");
    assert_eq!(desugar("x of\n  a do\n  b").unwrap(), "x of\n  {a do\n  {b}}");
    assert_eq!(desugar("x of\n  a do\n\n \t\n  b").unwrap(), "x of\n  {a do\n\n \t\n  {b}}");
}

#[test]
fn dedent_onto_an_anchor_after_a_keyword_closes_separates_and_opens() {
    assert_eq!(desugar("do\n a do\n    b of\n c").unwrap(), "do\n {a do\n    {b of\n  };{c}}");
}

fn without_written(text: &str) -> String {
    text.chars().filter(|c| !"{}; ".contains(*c)).collect()
}

#[test]
fn nothing_is_dropped_and_only_markers_and_alignment_are_added() {
    let texts = [
        "x of\n  a do\n  b",
        "f = do\n  a\n  where\n  b = 1\n",
        "a do\n b do\n  c\n  d\n",
        "do\r\n\ta\r\n\tb of\n\n\n c\n",
        "where\n\n\nlet\n\ndo\nof\n",
        "r = { x ; y } do\n a",
        "",
    ];
    for text in texts {
        let out = desugar(text).unwrap();
        assert_eq!(count(&out, '\n'), count(text, '\n'), "{:?}", out);
        assert_eq!(count(&out, '\t'), count(text, '\t'), "{:?}", out);
        assert_eq!(without_written(&out), without_written(text), "{:?}", out);
        let words: Vec<String> =
            out.split_whitespace().map(|w| w.replace(['{', '}', ';'], "")).filter(|w| !w.is_empty()).collect();
        let source: Vec<String> =
            text.split_whitespace().map(|w| w.replace(['{', '}', ';'], "")).filter(|w| !w.is_empty()).collect();
        assert_eq!(words, source, "{:?}", out);
    }
}

#[test]
fn every_keyword_opens_a_block() {
    assert_eq!(desugar("case x of\n  A\n  B").unwrap(), "case x of\n  {A\n  ;B}");
    assert_eq!(desugar("let a\n    b").unwrap(), "let {a\n    ;b}");
    assert_eq!(desugar("where a").unwrap(), "where {a}");
    assert_eq!(desugar("do a").unwrap(), "do {a}");
}

#[test]
fn a_word_that_only_holds_a_keyword_opens_nothing() {
    assert_eq!(desugar("undo\n x").unwrap(), "undo\n x");
    assert_eq!(desugar("dot x").unwrap(), "dot x");
    assert_eq!(desugar("letter\nof1 x").unwrap(), "letter\nof1 x");
}

#[test]
fn tab_counts_as_one_column() {
    assert_eq!(desugar("do\n\ta\n\tb").unwrap(), "do\n\t{a\n\t;b}");
    assert_eq!(desugar("do\n\ta\n b").unwrap(), "do\n\t{a\n ;b}");
}

#[test]
fn carriage_return_before_line_feed_belongs_to_the_break() {
    assert_eq!(desugar("do\r\n a\r\n").unwrap(), "do\r\n {a\r\n}");
}

#[test]
fn lone_carriage_return_is_unclassifiable() {
    assert_eq!(desugar("a\rb"), Err(LayoutError::UnclassifiableToken { offset: 1 }));
    assert_eq!(desugar("ab \r"), Err(LayoutError::UnclassifiableToken { offset: 3 }));
    assert_eq!(desugar("\r"), Err(LayoutError::UnclassifiableToken { offset: 0 }));
}

#[test]
fn columns_count_characters() {
    // the word before `do` has two characters of more than one byte each
    assert_eq!(desugar("éé do a\n      b").unwrap(), "éé do {a\n      ;b}");
}

#[test]
fn markers_are_balanced() {
    let texts = [
        "f = do\n  a\n  b\n",
        "a do\n b do\n  c\n  d\n",
        "where let do of",
        "f = do\n  a\n  where\n  b = 1\n",
        "do\n      a where\n  b of\n c\nd",
    ];
    for text in texts {
        let out = desugar(text).unwrap();
        assert_eq!(count(&out, '{'), count(&out, '}'), "{:?}", out);
    }
}

#[test]
fn braces_of_the_source_are_no_markers() {
    let out = desugar("r = { x do\n a").unwrap();
    assert_eq!(out, "r = { x do\n {a}");
    assert_eq!(count(&out, '{') - 1, count(&out, '}'));
}

#[test]
fn strip_removes_line_comment() {
    assert_eq!(strip_comments("a -- note\nb").unwrap(), "a \nb");
}

#[test]
fn strip_removes_block_comment_across_lines() {
    assert_eq!(strip_comments("a {- x\ny -} b").unwrap(), "a  b");
    // the first closing marker ends the comment
    assert_eq!(strip_comments("{- a -} b -}").unwrap(), " b -}");
    // an unclosed comment is left as it is
    assert_eq!(strip_comments("a {- b").unwrap(), "a {- b");
}

#[test]
fn strip_removes_trailing_terminators() {
    assert_eq!(strip_comments("a;;  \nb;").unwrap(), "a\nb");
    assert_eq!(strip_comments("a; b").unwrap(), "a; b");
}

#[test]
fn strip_removes_directive_lines() {
    assert_eq!(strip_comments("#ifdef X\ncode\n#endif\n").unwrap(), "\ncode\n\n");
    assert_eq!(strip_comments("#ifndef X\n#if Y\n#else\nz").unwrap(), "\n\n\nz");
    assert_eq!(strip_comments(" #if X\n#define Y").unwrap(), " #if X\n#define Y");
}

#[test]
fn strip_masks_character_literals() {
    assert_eq!(strip_comments("c = 'x'").unwrap(), "c = '0'");
    assert_eq!(strip_comments("c = '\\n' d = '\\''").unwrap(), "c = '0' d = '0'");
    assert_eq!(strip_comments("c = '\\ESC'").unwrap(), "c = '0'");
    assert_eq!(strip_comments("f' x").unwrap(), "f' x");
}

#[test]
fn strip_masks_string_literals() {
    assert_eq!(strip_comments("s = \"hi there\"").unwrap(), "s = \"1\"");
    assert_eq!(strip_comments("s = \"a \\\" b\" t = \"\"").unwrap(), "s = \"1\" t = \"1\"");
    assert_eq!(strip_comments("s = \"open").unwrap(), "s = \"open");
}

#[test]
fn strip_keeps_the_lines_of_code_in_place() {
    let text = "a -- one\nb 'c' \"d\"\n#else\ne;\nf";
    assert_eq!(strip_comments(text).unwrap(), "a \nb '0' \"1\"\n\ne\nf");
}

#[test]
fn strip_takes_the_whitespace_at_the_end_with_a_terminator() {
    // the whitespace after the terminators goes as far as a line ends
    assert_eq!(strip_comments("e;\n").unwrap(), "e");
    assert_eq!(strip_comments("e;\n\n  \nf").unwrap(), "e\nf");
}

#[test]
fn stripping_what_is_stripped_changes_nothing() {
    let texts = [
        "a -- note\nb",
        "s = \"hi\" c = 'x' {- gone -} d;\n#if X\ne",
        "plain text\n  with lines\n",
        "",
    ];
    for text in texts {
        let once = strip_comments(text).unwrap();
        let twice = strip_comments(&once).unwrap();
        assert_eq!(once, twice);
    }
}

#[test]
fn removing_a_block_comment_can_leave_a_line_comment() {
    let once = strip_comments("a -{- -}- b").unwrap();
    assert_eq!(once, "a -- b");
    assert_eq!(strip_comments(&once).unwrap(), "a ");
}

#[test]
fn rejected_pattern_names_its_pass() {
    let error = regex::Regex::new("(").unwrap_err();
    assert_eq!(pass_result(3, Err(error)), Err(StripError::PatternRejected { pass: 3 }));
    assert_eq!(pass_result(5, Ok(String::from("text"))), Ok(String::from("text")));
}

#[test]
fn commify_strips_before_it_desugars() {
    assert_eq!(
        commify("f = do -- c\n  a {- b -}\n  b;\n").unwrap(),
        "f = do \n  {a \n  ;b}"
    );
    // the keyword inside a string literal opens nothing
    assert_eq!(commify("a \"do\"\n b").unwrap(), "a \"1\"\n b");
}

#[test]
fn commify_reports_lone_carriage_return() {
    assert_eq!(
        commify("a\rb"),
        Err(CommifyError::Layout(LayoutError::UnclassifiableToken { offset: 1 }))
    );
    // the offset is one into the stripped text
    assert_eq!(
        commify("{- gone -}a\rb"),
        Err(CommifyError::Layout(LayoutError::UnclassifiableToken { offset: 1 }))
    );
}
