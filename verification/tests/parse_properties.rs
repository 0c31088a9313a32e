//! Behaviour of the getfattr parser beyond the fixtures.

use provenance_mcp::backend::{parse_getfattr_output, provenance_from_getfattr, unquote};
use provenance_mcp::text::{is_whitespace, trim_str};

#[test]
fn raw_and_path_are_kept() {
    let raw = "# file: /a\nuser.other=\"x\"\n\n";
    let prov = parse_getfattr_output("/a", raw);
    assert_eq!(prov.path, "/a");
    assert_eq!(prov.raw, raw);
    assert!(prov.session.is_none());
    assert!(prov.ts.is_none());
}

#[test]
fn last_occurrence_wins() {
    let raw = "user.prov.session=\"first\"\nuser.prov.ts=\"1\"\nuser.prov.session=\"second\"\n";
    let prov = parse_getfattr_output("/p", raw);
    assert_eq!(prov.session.as_deref(), Some("second"));
    assert_eq!(prov.ts.as_deref(), Some("1"));
}

#[test]
fn surrounding_whitespace_and_crlf_are_trimmed() {
    let raw = "  user.prov.session=\"s\"  \r\n\tuser.prov.ts=\"42\"\r\n";
    let prov = parse_getfattr_output("/p", raw);
    assert_eq!(prov.session.as_deref(), Some("s"));
    assert_eq!(prov.ts.as_deref(), Some("42"));
}

#[test]
fn unquoted_values_are_kept_as_they_are() {
    let raw = "user.prov.session=bare-value\nuser.prov.ts=\"unterminated\n";
    let prov = parse_getfattr_output("/p", raw);
    assert_eq!(prov.session.as_deref(), Some("bare-value"));
    assert_eq!(prov.ts.as_deref(), Some("\"unterminated"));
}

#[test]
fn last_line_without_newline_is_read() {
    let prov = parse_getfattr_output("/p", "user.prov.ts=\"9\"");
    assert_eq!(prov.ts.as_deref(), Some("9"));
    assert!(prov.session.is_none());
}

#[test]
fn prefix_must_start_the_line() {
    let raw = "x user.prov.session=\"no\"\nuser.prov.sessionX=\"no\"\n";
    let prov = parse_getfattr_output("/p", raw);
    assert!(prov.session.is_none());
    let prov = parse_getfattr_output("/p", "user.prov.session=\n");
    assert_eq!(prov.session.as_deref(), Some(""));
}

#[test]
fn value_with_inner_quotes_and_unicode() {
    let raw = "user.prov.session=\"a \"b\" é\"\n";
    let prov = parse_getfattr_output("/p", raw);
    assert_eq!(prov.session.as_deref(), Some("a \"b\" é"));
}

#[test]
fn unquote_needs_both_quotes() {
    assert_eq!(unquote("\""), "\"");
    assert_eq!(unquote("\"abc"), "\"abc");
    assert_eq!(unquote("abc\""), "abc\"");
    assert_eq!(unquote("\"\"\""), "\"");
    assert_eq!(unquote("\"é\""), "é");
}

#[test]
fn invalid_utf8_is_read_lossily() {
    let mut out = b"user.prov.session=\"a".to_vec();
    out.push(0xff);
    out.extend_from_slice(b"b\"\nuser.prov.ts=\"7\"\n");
    let prov = provenance_from_getfattr("/p", &out);
    assert_eq!(prov.session.as_deref(), Some("a\u{fffd}b"));
    assert_eq!(prov.ts.as_deref(), Some("7"));
    assert_eq!(prov.raw, String::from_utf8_lossy(&out));
}

#[test]
fn valid_utf8_output_is_parsed_as_text() {
    let out = "# file: /p\nuser.prov.session=\"sé\"\n\n".as_bytes();
    let prov = provenance_from_getfattr("/p", out);
    assert_eq!(prov.session.as_deref(), Some("sé"));
    assert_eq!(prov.raw, "# file: /p\nuser.prov.session=\"sé\"\n\n");
}

#[test]
fn whitespace_matches_std_for_every_char() {
    for u in 0u32..=0x10ffff {
        if let Some(c) = char::from_u32(u) {
            assert_eq!(is_whitespace(c), c.is_whitespace(), "char {u:#x}");
        }
    }
}

#[test]
fn trim_matches_std() {
    let samples = [
        "", " ", "abc", "  abc  ", "\t\r\n x y \n", "\u{3000}é\u{a0}", "\u{85}a\u{2028}", "a b",
    ];
    for s in samples {
        assert_eq!(trim_str(s), s.trim());
    }
}
