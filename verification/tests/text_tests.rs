use yagrep::matcher::Matcher;
use yagrep::scan::scan_content;
use yagrep::text::{str_eq, usize_to_string};

#[test]
fn decimal_rendering_is_exact() {
    assert_eq!(usize_to_string(0), "0");
    assert_eq!(usize_to_string(7), "7");
    assert_eq!(usize_to_string(10), "10");
    assert_eq!(usize_to_string(12345), "12345");
    assert_eq!(usize_to_string(1000), "1000");
}

#[test]
fn string_equality_compares_characters() {
    assert!(str_eq("abc", "abc"));
    assert!(!str_eq("abc", "abd"));
    assert!(!str_eq("abc", "ab"));
    assert!(str_eq("", ""));
}

#[test]
fn lone_trailing_carriage_return_stays_on_its_line() {
    // only a carriage return just before a newline is stripped
    let m = Matcher::compile("^foo\r$", false).unwrap();
    let records = scan_content("foo\r", &m);
    assert_eq!(records.len(), 1);
    assert_eq!(records[0].text, "foo\r");

    let m2 = Matcher::compile("^foo$", false).unwrap();
    let records2 = scan_content("foo\r\n", &m2);
    assert_eq!(records2.len(), 1);
    assert_eq!(records2[0].text, "foo");
}

#[test]
fn an_empty_crlf_line_is_an_empty_line() {
    let m = Matcher::compile("^$", false).unwrap();
    let records = scan_content("\r\n", &m);
    assert_eq!(records.len(), 1);
    assert_eq!(records[0].line_number, 1);
    assert_eq!(records[0].text, "");
}
