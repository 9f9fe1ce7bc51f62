use file_search::text::{file_name, parse_depth, same_text};

#[test]
fn file_name_is_what_stands_behind_the_last_slash() {
    assert_eq!(file_name("/tmp/x/a.txt"), "a.txt");
    assert_eq!(file_name("sub/c.txt"), "c.txt");
    assert_eq!(file_name("./a"), "a");
}

#[test]
fn file_name_of_a_bare_name_is_the_name() {
    assert_eq!(file_name("a.txt"), "a.txt");
    assert_eq!(file_name(""), "");
}

#[test]
fn file_name_behind_a_closing_slash_is_empty() {
    assert_eq!(file_name("sub/"), "");
    assert_eq!(file_name("/"), "");
}

#[test]
fn file_name_counts_characters_and_not_bytes() {
    assert_eq!(file_name("répertoire/naïve.txt"), "naïve.txt");
    assert_eq!(file_name("目录/文件"), "文件");
}

#[test]
fn parse_depth_reads_digits() {
    assert_eq!(parse_depth("0"), Some(0));
    assert_eq!(parse_depth("12"), Some(12));
    assert_eq!(parse_depth("007"), Some(7));
    assert_eq!(parse_depth("4294967295"), Some(4294967295));
    assert_eq!(parse_depth("00000000000000000000000042"), Some(42));
}

#[test]
fn parse_depth_takes_one_plus_in_front() {
    assert_eq!(parse_depth("+3"), Some(3));
    assert_eq!(parse_depth("++3"), None);
    assert_eq!(parse_depth("+"), None);
    assert_eq!(parse_depth("3+"), None);
}

#[test]
fn parse_depth_refuses_what_is_no_unsigned_number() {
    assert_eq!(parse_depth(""), None);
    assert_eq!(parse_depth("-1"), None);
    assert_eq!(parse_depth("1.5"), None);
    assert_eq!(parse_depth("a"), None);
    assert_eq!(parse_depth("1a"), None);
    assert_eq!(parse_depth(" 1"), None);
    assert_eq!(parse_depth("1_000"), None);
    assert_eq!(parse_depth("٣"), None);
}

#[test]
fn parse_depth_refuses_what_does_not_fit() {
    assert_eq!(parse_depth("4294967296"), None);
    assert_eq!(parse_depth("99999999999999999999999999"), None);
}

#[test]
fn parse_depth_agrees_with_the_standard_parser() {
    for text in ["", "+", "0", "+0", "-0", "42", "+42", "4294967295", "4294967296", "12a", "０"] {
        assert_eq!(parse_depth(text), text.parse::<u32>().ok());
    }
}

#[test]
fn same_text_compares_characters() {
    assert!(same_text("type", "type"));
    assert!(same_text("", ""));
    assert!(!same_text("type", "typ"));
    assert!(!same_text("t", "T"));
}
