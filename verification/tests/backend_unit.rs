use provenance_mcp::backend::{parse_getfattr_output, unquote};

#[test]
fn parse_both_xattrs() {
    let raw = r#"# file: /home/jsy/foo.txt
user.prov.session="sess-abc123"
user.prov.ts="1717200000"
"#;
    let prov = parse_getfattr_output("/home/jsy/foo.txt", raw);
    assert_eq!(prov.session.as_deref(), Some("sess-abc123"));
    assert_eq!(prov.ts.as_deref(), Some("1717200000"));
}

#[test]
fn parse_no_xattrs_yields_nulls() {
    let raw = "";
    let prov = parse_getfattr_output("/tmp/noattr.txt", raw);
    assert!(prov.session.is_none());
    assert!(prov.ts.is_none());
}

#[test]
fn parse_only_session_xattr() {
    let raw = "user.prov.session=\"only-session\"\n";
    let prov = parse_getfattr_output("/some/path", raw);
    assert_eq!(prov.session.as_deref(), Some("only-session"));
    assert!(prov.ts.is_none());
}

#[test]
fn unquote_strips_double_quotes() {
    assert_eq!(unquote("\"hello\""), "hello");
    assert_eq!(unquote("bare"), "bare");
    assert_eq!(unquote("\"\""), "");
}
