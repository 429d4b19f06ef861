use swift_project_model::scan::{bytes_eq, find_from, read_quoted, skip_ws, starts_with_at};

#[test]
fn starts_with_at_compares_at_the_position() {
    assert!(starts_with_at(b"abcdef", 2, b"cd"));
    assert!(!starts_with_at(b"abcdef", 2, b"ce"));
    assert!(starts_with_at(b"abc", 3, b""));
    assert!(!starts_with_at(b"abc", 4, b""));
    assert!(!starts_with_at(b"abc", 2, b"cd"));
}

#[test]
fn find_from_finds_the_first_occurrence() {
    assert_eq!(find_from(b"abcabc", 0, b"bc"), Some(1));
    assert_eq!(find_from(b"abcabc", 1, b"bc"), Some(1));
    assert_eq!(find_from(b"abcabc", 2, b"bc"), Some(4));
    assert_eq!(find_from(b"abcabc", 5, b"bc"), None);
    assert_eq!(find_from(b"aaaa", 0, b"aaaa"), Some(0));
}

#[test]
fn find_from_never_finds_an_empty_needle() {
    assert_eq!(find_from(b"abc", 0, b""), None);
    assert_eq!(find_from(b"", 0, b""), None);
}

#[test]
fn find_from_takes_any_start() {
    assert_eq!(find_from(b"abc", 3, b"a"), None);
    assert_eq!(find_from(b"abc", usize::MAX, b"a"), None);
    assert_eq!(find_from(b"ab", 0, b"abc"), None);
}

#[test]
fn skip_ws_stops_at_the_first_other_byte() {
    assert_eq!(skip_ws(b" \t\r\nx ", 0), 4);
    assert_eq!(skip_ws(b"x", 0), 0);
    assert_eq!(skip_ws(b"   ", 1), 3);
    assert_eq!(skip_ws(b"abc", 7), 7);
    assert_eq!(skip_ws(b"\x0b", 0), 0);
}

#[test]
fn read_quoted_reads_up_to_the_next_quote() {
    assert_eq!(read_quoted(b"\"abc\" \"d\"", 0), b"abc");
    assert_eq!(read_quoted(b"\"abc\" \"d\"", 6), b"d");
    assert_eq!(read_quoted(b"\"abc", 0), b"abc");
    assert!(read_quoted(b"\"\"", 0).is_empty());
    assert!(read_quoted(b"abc", 0).is_empty());
    assert!(read_quoted(b"\"", 0).is_empty());
    assert!(read_quoted(b"abc", 3).is_empty());
}

#[test]
fn read_quoted_knows_no_escapes() {
    assert_eq!(read_quoted(b"\"a\\\"b\"", 0), b"a\\");
}

#[test]
fn bytes_eq_compares_all_bytes() {
    assert!(bytes_eq(b"", b""));
    assert!(bytes_eq(b"abc", b"abc"));
    assert!(!bytes_eq(b"abc", b"abd"));
    assert!(!bytes_eq(b"abc", b"ab"));
}
