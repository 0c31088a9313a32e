//! The command lines that the tools run, and how their outcome is read.

use provenance_mcp::backend::memlog_show_result;
use provenance_mcp::command::{decimal_string, getfattr_command, memlog_show_command};
use provenance_mcp::tools::{FileProvenanceTool, MemlogRecentTool};

#[test]
fn getfattr_command_only_reads() {
    let c = getfattr_command("/some/file");
    assert_eq!(c.program, "getfattr");
    assert_eq!(c.args, vec!["-d", "--absolute-names", "/some/file"]);
}

#[test]
fn memlog_show_with_since_and_limit() {
    let c = memlog_show_command("/bin/memlog", Some("1h"), Some(5));
    assert_eq!(c.program, "/bin/memlog");
    assert_eq!(c.args, vec!["show", "--since", "1h", "--limit", "5", "--format", "json"]);
}

#[test]
fn memlog_show_without_filters() {
    let c = memlog_show_command("memlog", None, None);
    assert_eq!(c.program, "memlog");
    assert_eq!(c.args, vec!["show", "--format", "json"]);
    let c = memlog_show_command("memlog", None, Some(1000));
    assert_eq!(c.args, vec!["show", "--limit", "1000", "--format", "json"]);
    let c = memlog_show_command("memlog", Some("write"), None);
    assert_eq!(c.args[0], "show");
}

#[test]
fn decimal_matches_to_string() {
    let mut n: u32 = 0;
    loop {
        assert_eq!(decimal_string(n), n.to_string());
        match n.checked_add(n / 3 + 1) {
            Some(m) => n = m,
            None => break,
        }
    }
    for n in [0u32, 9, 10, 99, 100, 101, 1_000_000, u32::MAX] {
        assert_eq!(decimal_string(n), n.to_string());
    }
}

#[test]
fn successful_memlog_show_gives_its_output() {
    let r = memlog_show_result(true, "exit status: 0", b"[{\"ts\":1}]", b"warning");
    assert_eq!(r, Ok("[{\"ts\":1}]".to_string()));
}

#[test]
fn failed_memlog_show_gives_status_and_trimmed_stderr() {
    let r = memlog_show_result(false, "exit status: 2", b"[]", b"  no such module\n");
    assert_eq!(r, Err("memlog show exited exit status: 2: no such module".to_string()));
}

#[test]
fn file_provenance_missing_path_returns_error() {
    // A call with arguments `{}` carries no `path`.
    let result = FileProvenanceTool.path_argument(None);
    assert!(result.is_err());
    let err = result.err().expect("missing path must fail");
    assert!(err.message.contains("path"), "error should mention 'path': {}", err.message);
    assert_eq!(err.message, "missing required parameter: path");
    assert_eq!(FileProvenanceTool.path_argument(Some("/x")).ok(), Some("/x"));
}

#[test]
fn tool_names_and_failures() {
    let f = FileProvenanceTool;
    assert_eq!(f.name(), "file_provenance");
    assert!(f.description().contains("user.prov.session"));
    assert_eq!(f.failure("boom").message, "getfattr unavailable or failed: boom");
    let m = MemlogRecentTool { memlog_bin: "memlog".to_string() };
    assert_eq!(m.name(), "memlog_recent");
    assert!(m.description().contains("memlog show"));
    assert_eq!(m.failure("gone").message, "memlog unavailable or failed: gone");
}

#[test]
fn limit_saturates_at_u32_max() {
    let m = MemlogRecentTool { memlog_bin: "memlog".to_string() };
    assert_eq!(m.limit_argument(None), None);
    assert_eq!(m.limit_argument(Some(5)), Some(5));
    assert_eq!(m.limit_argument(Some(u32::MAX as u64)), Some(u32::MAX));
    assert_eq!(m.limit_argument(Some(u32::MAX as u64 + 1)), Some(u32::MAX));
    assert_eq!(m.limit_argument(Some(u64::MAX)), Some(u32::MAX));
}
