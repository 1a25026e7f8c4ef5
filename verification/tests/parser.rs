use vellum::scanner::parser::{
    collect_multiline, detect_sensitive, detect_variable_expansion, parse_content,
    starts_with_unclosed_quote, strip_quotes, EnvEntry,
};

fn parse(text: &str) -> Vec<EnvEntry> {
    match parse_content(text) {
        Ok(v) => v,
        Err(e) => panic!("parse failed: {}", e),
    }
}

#[test]
fn parses_plain_assignments() {
    let v = parse("DB_HOST=localhost\nPORT = 5432\n");
    assert_eq!(v.len(), 2);
    assert_eq!(v[0].key, "DB_HOST");
    assert_eq!(v[0].value, "localhost");
    assert_eq!(v[0].line_number, 1);
    assert!(!v[0].is_comment && !v[0].is_empty && !v[0].is_duplicate);
    assert!(!v[0].has_format_error && !v[0].is_sensitive && !v[0].expands_variables);
    assert_eq!(v[1].key, "PORT");
    assert_eq!(v[1].value, "5432");
    assert_eq!(v[1].line_number, 2);
}

#[test]
fn empty_text_has_no_entries() {
    assert_eq!(parse("").len(), 0);
}

#[test]
fn blank_and_comment_lines_are_kept() {
    let v = parse("# settings\n\n   \nA=1");
    assert_eq!(v.len(), 4);
    assert!(v[0].is_comment);
    assert_eq!(v[0].key, "# settings");
    assert_eq!(v[0].value, "");
    assert!(v[1].is_empty && v[2].is_empty);
    assert_eq!(v[1].key, "");
    assert_eq!(v[2].line_number, 3);
    assert_eq!(v[3].key, "A");
    assert_eq!(v[3].line_number, 4);
}

#[test]
fn indented_comment_is_trimmed() {
    let v = parse("   # note  ");
    assert!(v[0].is_comment);
    assert_eq!(v[0].key, "# note");
}

#[test]
fn duplicates_are_marked_after_the_first() {
    let v = parse("A=1\nB=2\nA=3\nA=4");
    assert!(!v[0].is_duplicate);
    assert!(!v[1].is_duplicate);
    assert!(v[2].is_duplicate);
    assert!(v[3].is_duplicate);
    assert_eq!(v[2].value, "3");
}

#[test]
fn duplicate_detection_uses_trimmed_keys() {
    let v = parse("KEY1=a\n  KEY1  = b");
    assert!(v[1].is_duplicate);
    assert_eq!(v[1].key, "KEY1");
}

#[test]
fn line_without_equals_is_a_format_error() {
    let v = parse("JUST_A_WORD\nA=1\nJUST_A_WORD");
    assert!(v[0].has_format_error);
    assert_eq!(v[0].key, "JUST_A_WORD");
    assert_eq!(v[0].value, "");
    assert!(!v[0].is_duplicate);
    assert!(!v[2].is_duplicate);
}

#[test]
fn key_with_space_or_empty_key_is_a_format_error() {
    let v = parse("MY KEY=1\n=value\nOK=2");
    assert!(v[0].has_format_error);
    assert_eq!(v[0].key, "MY KEY");
    assert!(v[1].has_format_error);
    assert_eq!(v[1].key, "");
    assert_eq!(v[1].value, "value");
    assert!(!v[2].has_format_error);
}

#[test]
fn value_keeps_later_equals_signs() {
    let v = parse("URL=postgres://u:p@h/db?x=1");
    assert_eq!(v[0].key, "URL");
    assert_eq!(v[0].value, "postgres://u:p@h/db?x=1");
}

#[test]
fn quotes_are_stripped() {
    let v = parse("A=\"hello world\"\nB='single'\nD=\"\"\nE= 'x' ");
    assert_eq!(v[0].value, "hello world");
    assert_eq!(v[1].value, "single");
    assert_eq!(v[2].value, "");
    assert_eq!(v[3].value, "x");
}

#[test]
fn mismatched_quote_opens_a_multiline_value() {
    let v = parse("C=\"mismatch'\nD=\"\"");
    assert_eq!(v.len(), 1);
    assert_eq!(v[0].value, "mismatch'\nD=\"");
}

#[test]
fn multiline_value_spans_lines() {
    let v = parse("CERT=\"line one\nline two\nend\"\nNEXT=1");
    assert_eq!(v.len(), 2);
    assert_eq!(v[0].key, "CERT");
    assert_eq!(v[0].value, "line one\nline two\nend");
    assert_eq!(v[0].line_number, 1);
    assert_eq!(v[1].key, "NEXT");
    assert_eq!(v[1].line_number, 4);
}

#[test]
fn multiline_value_keeps_inner_lines_raw() {
    let v = parse("K='a\n  b  \n  c'  \nZ=0");
    assert_eq!(v[0].value, "a\n  b  \n  c");
    assert_eq!(v[1].line_number, 4);
}

#[test]
fn unterminated_multiline_value_takes_the_rest() {
    let v = parse("K=\"open\nA=1\nB=2");
    assert_eq!(v.len(), 1);
    assert_eq!(v[0].value, "open\nA=1\nB=2");
}

#[test]
fn lone_quote_opens_a_multiline_value() {
    let v = parse("K=\"\nbody\n\"");
    assert_eq!(v.len(), 1);
    assert_eq!(v[0].value, "\nbody\n");
}

#[test]
fn crlf_line_endings() {
    let v = parse("A=1\r\nB=2\r\n");
    assert_eq!(v.len(), 2);
    assert_eq!(v[0].value, "1");
    assert_eq!(v[1].value, "2");
}

#[test]
fn crlf_inside_multiline_value_is_dropped_by_lines() {
    let v = parse("K=\"a\r\nb\r\nc\"\r\n");
    assert_eq!(v.len(), 1);
    assert_eq!(v[0].value, "a\nb\nc");
}

#[test]
fn sensitivity_and_expansion_flags() {
    let v = parse("db_password=x\nPUBLIC_URL=${HOST}/api\nAPIKEY=1\nNAME=plain");
    assert!(v[0].is_sensitive);
    assert!(!v[0].expands_variables);
    assert!(!v[1].is_sensitive);
    assert!(v[1].expands_variables);
    assert!(v[2].is_sensitive);
    assert!(!v[3].is_sensitive);
}

#[test]
fn comment_is_never_sensitive() {
    let v = parse("# SECRET stuff");
    assert!(v[0].is_comment);
    assert!(!v[0].is_sensitive);
}

#[test]
fn line_numbers_increase_and_stay_in_range() {
    let text = "A=1\nB=\"x\ny\"\n\n# c\nC";
    let v = parse(text);
    let n = text.lines().count();
    for i in 0..v.len() {
        assert!(v[i].line_number >= 1 && v[i].line_number <= n);
        if i > 0 {
            assert!(v[i - 1].line_number < v[i].line_number);
        }
    }
    assert_eq!(v.len(), 5);
}

#[test]
fn detect_sensitive_patterns() {
    assert!(detect_sensitive("AWS_SECRET_ACCESS_KEY"));
    assert!(detect_sensitive("github_token"));
    assert!(detect_sensitive("Passwd"));
    assert!(detect_sensitive("PRIVATE_PEM"));
    assert!(detect_sensitive("oauth_client"));
    assert!(detect_sensitive("MY_CREDENTIALS"));
    assert!(!detect_sensitive("DATABASE_URL"));
    assert!(!detect_sensitive(""));
    // `ſ` (long s) upper-cases to `S`, as `str::to_uppercase` does.
    assert!(detect_sensitive("ſecret"));
}

#[test]
fn detect_variable_expansion_cases() {
    assert!(detect_variable_expansion("${HOME}/bin"));
    assert!(detect_variable_expansion("a${"));
    assert!(!detect_variable_expansion("$HOME"));
    assert!(!detect_variable_expansion("{x}$"));
}

#[test]
fn unclosed_quote_cases() {
    assert!(starts_with_unclosed_quote("\"abc"));
    assert!(starts_with_unclosed_quote("'abc"));
    assert!(starts_with_unclosed_quote("\""));
    assert!(!starts_with_unclosed_quote("\"abc\""));
    assert!(!starts_with_unclosed_quote("''"));
    assert!(starts_with_unclosed_quote("\"abc'"));
    assert!(!starts_with_unclosed_quote("abc\""));
    assert!(!starts_with_unclosed_quote(""));
}

#[test]
fn strip_quotes_cases() {
    assert_eq!(strip_quotes("\"a b\""), "a b");
    assert_eq!(strip_quotes("'x'"), "x");
    assert_eq!(strip_quotes("\"x'"), "\"x'");
    assert_eq!(strip_quotes("\""), "\"");
    assert_eq!(strip_quotes("plain"), "plain");
    assert_eq!(strip_quotes("\"é\""), "é");
}

#[test]
fn collect_multiline_direct() {
    let lines = ["K=\"start", "middle  ", "  end\"   ", "after"];
    let (value, consumed) = collect_multiline(&lines, 0, "\"start");
    assert_eq!(value, "start\nmiddle  \n  end");
    assert_eq!(consumed, 3);
    let (value, consumed) = collect_multiline(&lines, 2, "'x");
    assert_eq!(value, "x\nafter");
    assert_eq!(consumed, 2);
}
