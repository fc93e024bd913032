use corroder::report::{code_error, codelist, parse_results, ParseFailure};

#[test]
fn codelist_numbers_lines_from_one() {
    assert_eq!(codelist("a\nb\n"), vec!["  1 | a", "  2 | b"]);
    assert_eq!(codelist("a\n\nb"), vec!["  1 | a", "  2 | ", "  3 | b"]);
}

#[test]
fn codelist_of_nothing_is_empty() {
    assert!(codelist("").is_empty());
    assert_eq!(codelist("\n"), vec!["  1 | "]);
}

#[test]
fn codelist_drops_carriage_return_before_line_feed() {
    assert_eq!(codelist("ab\r\ncd\r"), vec!["  1 | ab", "  2 | cd\r"]);
    assert_eq!(codelist("\r\n"), vec!["  1 | "]);
}

#[test]
fn codelist_number_column_grows_with_the_number() {
    let text = "x\n".repeat(1000);
    let list = codelist(&text);
    assert_eq!(list.len(), 1000);
    assert_eq!(list[8], "  9 | x");
    assert_eq!(list[9], " 10 | x");
    assert_eq!(list[98], " 99 | x");
    assert_eq!(list[99], "100 | x");
    assert_eq!(list[999], "1000 | x");
}

#[test]
fn codelist_agrees_with_the_lines_of_the_standard_library() {
    let text = "one\r\ntwo\n\nthree\r\r\nfour\r";
    let expected: Vec<String> =
        text.lines().enumerate().map(|(i, l)| format!("{:>3} | {}", i + 1, l)).collect();
    assert_eq!(codelist(text), expected);
}

#[test]
fn code_error_in_the_first_line() {
    assert_eq!(code_error("abc\ndef\nghi", 2), vec!["  1 | abc", "~~~~~~~~^"]);
    assert_eq!(code_error("abc\ndef\nghi", 0), vec!["  1 | abc", "~~~~~~^"]);
    assert_eq!(code_error("abc\ndef\nghi", 3), vec!["  1 | abc", "~~~~~~~~~^"]);
}

#[test]
fn code_error_in_the_second_line() {
    assert_eq!(code_error("abc\ndef\nghi", 5), vec!["  1 | abc", "  2 | def", "~~~~~~~^"]);
    assert_eq!(code_error("abc\ndef\nghi", 4), vec!["  1 | abc", "  2 | def", "~~~~~~^"]);
}

#[test]
fn code_error_shows_three_lines_at_most() {
    assert_eq!(
        code_error("abc\ndef\nghi\njkl", 9),
        vec!["  1 | abc", "  2 | def", "  3 | ghi", "~~~~~~~^"]
    );
    assert_eq!(
        code_error("abc\ndef\nghi\njkl", 14),
        vec!["  2 | def", "  3 | ghi", "  4 | jkl", "~~~~~~~~^"]
    );
}

#[test]
fn code_error_behind_the_text_is_empty() {
    assert!(code_error("abc\ndef", 8).is_empty());
    assert!(code_error("abc\ndef", usize::MAX).is_empty());
    assert!(code_error("", 0).is_empty());
    assert_eq!(code_error("abc\ndef", 7), vec!["  1 | abc", "  2 | def", "~~~~~~~~~^"]);
}

#[test]
fn code_error_counts_characters() {
    assert_eq!(code_error("éé\nab", 4), vec!["  1 | éé", "  2 | ab", "~~~~~~~^"]);
}

#[test]
fn parse_results_hands_the_value_on() {
    assert_eq!(parse_results("abc", Ok::<u32, ParseFailure>(7)), Ok(7));
}

#[test]
fn parse_results_reports_an_invalid_token() {
    assert_eq!(
        parse_results::<u32>("abc\ndef", Err(ParseFailure::InvalidToken { location: 5 })),
        Err(vec![
            String::from("Error: Invalid token:"),
            String::from("  1 | abc"),
            String::from("  2 | def"),
            String::from("~~~~~~~^"),
        ])
    );
}

#[test]
fn parse_results_reports_an_unrecognized_token() {
    assert_eq!(
        parse_results::<u32>("abc", Err(ParseFailure::UnrecognizedToken { location: 1 })),
        Err(vec![
            String::from("Error: Unrecognized token:"),
            String::from("  1 | abc"),
            String::from("~~~~~~~^"),
        ])
    );
    assert_eq!(
        parse_results::<u32>("abc", Err(ParseFailure::UnrecognizedToken { location: 9 })),
        Err(vec![String::from("Error: Unrecognized token:")])
    );
}

#[test]
fn parse_results_has_nothing_to_show_for_another_failure() {
    assert_eq!(parse_results::<u32>("abc", Err(ParseFailure::Other)), Err(Vec::new()));
}
