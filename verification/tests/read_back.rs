//! Reading back the stamps that provfs writes, as getfattr shows them.

use provenance_mcp::backend::parse_getfattr_output;

fn attribute_line(key: &str, value: &str) -> String {
    format!("{key}\"{value}\"")
}

#[test]
fn stamps_are_read_back_from_joined_lines() {
    let lines = vec![
        "# file: /home/jsy/notes.md".to_string(),
        attribute_line("user.prov.ts=", "1717200000"),
        "user.other=\"x\"".to_string(),
        attribute_line("user.prov.session=", "sess with \"quotes\" and spaces "),
        String::new(),
    ];
    let raw = lines.join("\n");
    let prov = parse_getfattr_output("/home/jsy/notes.md", &raw);
    assert_eq!(prov.session.as_deref(), Some("sess with \"quotes\" and spaces "));
    assert_eq!(prov.ts.as_deref(), Some("1717200000"));
}

#[test]
fn unstamped_output_has_no_provenance() {
    let raw = "# file: /tmp/x\nsecurity.selinux=\"unconfined\"\nuser.provx=\"1\"\n\n";
    let prov = parse_getfattr_output("/tmp/x", raw);
    assert!(prov.session.is_none());
    assert!(prov.ts.is_none());
}
