use corroder::text::{chars_of, number_text, push_decimal, push_range, push_repeated, string_of};

#[test]
fn characters_and_back() {
    let text = "aé\u{10348}\n z";
    assert_eq!(chars_of(text), vec!['a', 'é', '\u{10348}', '\n', ' ', 'z']);
    assert_eq!(string_of(&chars_of(text)), text);
    assert_eq!(string_of(&Vec::new()), "");
    assert!(chars_of("").is_empty());
}

#[test]
fn number_text_is_decimal() {
    assert_eq!(number_text(0), "0");
    assert_eq!(number_text(9), "9");
    assert_eq!(number_text(10), "10");
    assert_eq!(number_text(-1), "-1");
    assert_eq!(number_text(-120), "-120");
    for n in [0i64, 5, 17, 99, 100, 101, -45, 65536, i64::MAX, i64::MIN, i64::MIN + 1] {
        assert_eq!(number_text(n), format!("{}", n));
    }
}

#[test]
fn push_decimal_appends_the_numeral() {
    let mut out = vec!['n', '='];
    push_decimal(&mut out, 2048);
    assert_eq!(out, vec!['n', '=', '2', '0', '4', '8']);
    let mut out = Vec::new();
    push_decimal(&mut out, u64::MAX);
    assert_eq!(string_of(&out), "18446744073709551615");
}

#[test]
fn push_range_and_push_repeated_append() {
    let source = chars_of("abcdef");
    let mut out = vec!['x'];
    push_range(&mut out, &source, 2, 5);
    push_range(&mut out, &source, 3, 3);
    push_repeated(&mut out, '-', 3);
    push_repeated(&mut out, '+', 0);
    assert_eq!(string_of(&out), "xcde---");
}
