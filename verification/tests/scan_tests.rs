use yagrep::matcher::Matcher;
use yagrep::scan::{scan_content, scan_file_text};

fn compile(pattern: &str, ci: bool) -> Matcher {
    match Matcher::compile(pattern, ci) {
        Ok(m) => m,
        Err(e) => panic!("pattern failed to compile: {}", e),
    }
}

#[test]
fn scenario_matching_lines_with_numbers() {
    // a.txt holds the lines foo, bar, foobar; the pattern foo matches
    // lines 1 and 3.
    let m = compile("foo", false);
    let out = scan_file_text("/dir/a.txt", "foo\nbar\nfoobar\n", &m);
    assert_eq!(out, vec![
        "/dir/a.txt".to_string(),
        "1: foo".to_string(),
        "3: foobar".to_string(),
    ]);
}

#[test]
fn scenario_case_sensitivity() {
    // FOO without the case-insensitive flag matches nothing; with it,
    // the output is the same as for foo.
    let m = compile("FOO", false);
    let out = scan_file_text("/dir/a.txt", "foo\nbar\nfoobar\n", &m);
    assert!(out.is_empty());

    let m_ci = compile("FOO", true);
    let out_ci = scan_file_text("/dir/a.txt", "foo\nbar\nfoobar\n", &m_ci);
    assert_eq!(out_ci, vec![
        "/dir/a.txt".to_string(),
        "1: foo".to_string(),
        "3: foobar".to_string(),
    ]);
}

#[test]
fn no_match_means_no_output_at_all() {
    let m = compile("absent", false);
    let out = scan_file_text("/dir/a.txt", "foo\nbar\nfoobar\n", &m);
    assert_eq!(out.len(), 0);
}

#[test]
fn empty_content_means_no_output() {
    let m = compile("foo", false);
    assert!(scan_file_text("/dir/a.txt", "", &m).is_empty());
    assert!(scan_content("", &m).is_empty());
}

#[test]
fn records_carry_one_based_numbers_and_text() {
    let m = compile("b", false);
    let records = scan_content("abc\nxyz\nbbb", &m);
    assert_eq!(records.len(), 2);
    assert_eq!(records[0].line_number, 1);
    assert_eq!(records[0].text, "abc");
    assert_eq!(records[1].line_number, 3);
    assert_eq!(records[1].text, "bbb");
}

#[test]
fn final_line_needs_no_terminator() {
    let m = compile("bar", false);
    let out = scan_file_text("f", "foo\nbar", &m);
    assert_eq!(out, vec!["f".to_string(), "2: bar".to_string()]);
}

#[test]
fn carriage_returns_are_stripped_before_newlines() {
    let m = compile("^foo$", false);
    let out = scan_file_text("f", "foo\r\nbar\r\n", &m);
    assert_eq!(out, vec!["f".to_string(), "1: foo".to_string()]);
}

#[test]
fn trailing_newline_adds_no_empty_line() {
    // ^$ matches only an empty line; none of these content forms has one.
    let m = compile("^$", false);
    assert!(scan_content("foo\nbar\n", &m).is_empty());
    assert!(scan_content("foo\nbar", &m).is_empty());
    // an explicit empty line is still seen
    let records = scan_content("foo\n\nbar\n", &m);
    assert_eq!(records.len(), 1);
    assert_eq!(records[0].line_number, 2);
    assert_eq!(records[0].text, "");
}

#[test]
fn two_digit_line_numbers_render_exactly() {
    let m = compile("hit", false);
    let mut content = String::new();
    for _ in 0..11 {
        content.push_str("miss\n");
    }
    content.push_str("hit\n");
    let out = scan_file_text("f", &content, &m);
    assert_eq!(out, vec!["f".to_string(), "12: hit".to_string()]);
}

#[test]
fn anchored_pattern_reaches_the_engine() {
    // would fail if the matcher ignored the pattern and accepted
    // everything, or tested plain substring containment
    let m = compile("^foo$", false);
    let records = scan_content("foo\nfoofoo\nxfoo\n", &m);
    assert_eq!(records.len(), 1);
    assert_eq!(records[0].line_number, 1);
}

#[test]
fn invalid_pattern_is_a_compile_error() {
    assert!(Matcher::compile("(", false).is_err());
}

#[test]
fn same_search_twice_gives_identical_output() {
    let m = compile("o", true);
    let first = scan_file_text("/p/q.txt", "one\ntwo\nthree\n", &m);
    let second = scan_file_text("/p/q.txt", "one\ntwo\nthree\n", &m);
    assert_eq!(first, second);
}
