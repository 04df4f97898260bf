use hi::text::{chars_of, decimal_string, find_char, lines_of, split_chars, trimmed, words_of, Sep};

fn strs(parts: &[Vec<char>]) -> Vec<String> {
    parts.iter().map(|p| p.iter().collect()).collect()
}

#[test]
fn decimal_string_values() {
    assert_eq!(decimal_string(0), "0");
    assert_eq!(decimal_string(1234), "1234");
    assert_eq!(decimal_string(u64::MAX), "18446744073709551615");
}

#[test]
fn split_chars_keeps_empty_pieces() {
    let v = chars_of("a,,b,");
    assert_eq!(strs(&split_chars(&v, Sep::Char(','))), vec!["a", "", "b", ""]);
}

#[test]
fn words_of_drops_empty_pieces() {
    let v = chars_of("  a \t b\n");
    assert_eq!(strs(&words_of(&v, Sep::WhiteSpace)), vec!["a", "b"]);
}

#[test]
fn trimmed_removes_white_space() {
    let v = chars_of("\u{a0} x y \n");
    assert_eq!(trimmed(&v).iter().collect::<String>(), "x y");
}

#[test]
fn lines_of_like_str_lines() {
    let v = chars_of("a\r\nb\n\nc");
    assert_eq!(strs(&lines_of(&v)), vec!["a", "b", "", "c"]);
    assert_eq!(lines_of(&chars_of("x\n")).len(), 1);
    assert_eq!(lines_of(&chars_of("")).len(), 0);
}

#[test]
fn find_char_first_position() {
    assert_eq!(find_char(&chars_of("a-b-c"), '-'), Some(1));
    assert_eq!(find_char(&chars_of("abc"), '-'), None);
}
