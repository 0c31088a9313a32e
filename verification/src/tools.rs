//! The two read-only tools: what each is called, how it describes itself,
//! how it reads its arguments and how it reports a failure.

use vstd::prelude::*;

verus! {

/// A tool call that failed, with the message reported to the client.
pub struct ToolFailure {
    pub message: String,
}

/// Tool: query provfs xattrs for a file path.
pub struct FileProvenanceTool;

/// Tool: retrieve recent memlog context snapshots.
pub struct MemlogRecentTool {
    /// Path to the memlog binary (default: "memlog" resolved on PATH).
    pub memlog_bin: String,
}

/// The message of a call of `file_provenance` without its `path` argument.
pub open spec fn missing_path_message() -> Seq<char> {
    "missing required parameter: path"@
}

/// The `limit` that a call asks for, bounded to what `u32` holds.
pub open spec fn bounded_limit(limit: Option<u64>) -> Option<u32> {
    match limit {
        Some(n) => Some(
            if n <= u32::MAX {
                n as u32
            } else {
                u32::MAX
            },
        ),
        None => None,
    }
}

impl FileProvenanceTool {
    pub fn name(&self) -> (r: &'static str)
        ensures
            r@ == "file_provenance"@,
    {
        "file_provenance"
    }

    pub fn description(&self) -> (r: &'static str)
        ensures
            r@ == "Query kernel-stamped provenance xattrs (user.prov.session, user.prov.ts) for a file. Returns {path, session, ts, raw}. session and ts are null when the file has no provenance xattrs (not an error). Requires getfattr on PATH and provfs kernel module; returns a ToolError if getfattr is absent."@,
    {
        "Query kernel-stamped provenance xattrs (user.prov.session, user.prov.ts) for a file. Returns {path, session, ts, raw}. session and ts are null when the file has no provenance xattrs (not an error). Requires getfattr on PATH and provfs kernel module; returns a ToolError if getfattr is absent."
    }

    /// The `path` argument of a call: a call without one fails, before any
    /// command is run.
    pub fn path_argument<'a>(&self, path: Option<&'a str>) -> (r: Result<&'a str, ToolFailure>)
        ensures
            path is Some <==> r is Ok,
            r matches Ok(p) ==> p@ == path.unwrap()@,
            r matches Err(e) ==> e.message@ == missing_path_message(),
    {
        match path {
            Some(p) => Ok(p),
            None => Err(ToolFailure { message: "missing required parameter: path".to_owned() }),
        }
    }

    /// The failure reported when `getfattr` could not be run, for `cause`.
    pub fn failure(&self, cause: &str) -> (e: ToolFailure)
        ensures
            e.message@ == "getfattr unavailable or failed: "@ + cause@,
    {
        let mut message = "getfattr unavailable or failed: ".to_owned();
        message.append(cause);
        ToolFailure { message }
    }
}

impl MemlogRecentTool {
    pub fn name(&self) -> (r: &'static str)
        ensures
            r@ == "memlog_recent"@,
    {
        "memlog_recent"
    }

    pub fn description(&self) -> (r: &'static str)
        ensures
            r@ == "Retrieve recent pre-compaction context snapshots from memlog. Calls `memlog show --since <DUR> --limit <N> --format json`. Requires the memlog binary and the memlog kernel module; returns a ToolError if the binary is absent."@,
    {
        "Retrieve recent pre-compaction context snapshots from memlog. Calls `memlog show --since <DUR> --limit <N> --format json`. Requires the memlog binary and the memlog kernel module; returns a ToolError if the binary is absent."
    }

    /// The `limit` argument of a call, saturated at `u32::MAX`.
    pub fn limit_argument(&self, limit: Option<u64>) -> (r: Option<u32>)
        ensures
            r == bounded_limit(limit),
    {
        match limit {
            Some(n) => Some(
                if n <= 0xffff_ffffu64 {
                    n as u32
                } else {
                    u32::MAX
                },
            ),
            None => None,
        }
    }

    /// The failure reported when `memlog` could not be run, for `cause`.
    pub fn failure(&self, cause: &str) -> (e: ToolFailure)
        ensures
            e.message@ == "memlog unavailable or failed: "@ + cause@,
    {
        let mut message = "memlog unavailable or failed: ".to_owned();
        message.append(cause);
        ToolFailure { message }
    }
}

/// The `limit` of a call is passed on unchanged whenever `u32` holds it, and
/// only a larger one is cut to `u32::MAX`; no limit stays no limit.
pub proof fn lemma_limit_kept_when_it_fits(n: u64)
    ensures
        n <= u32::MAX ==> (bounded_limit(Some(n)) is Some && bounded_limit(Some(n))->0 as int
            == n as int),
        n > u32::MAX ==> bounded_limit(Some(n)) == Some(u32::MAX),
        bounded_limit(None) is None,
{
}

} // verus!
