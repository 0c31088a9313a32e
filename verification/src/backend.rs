//! Reading the provenance attributes out of `getfattr` output, and the
//! command lines that the server runs.

use vstd::prelude::*;

use vstd::utf8::{decode_utf8, valid_utf8};

use crate::text::{
    chars_of, has_prefix_at, is_single_line, is_white_space, join_lines,
    lemma_newline_pieces_nonempty, lemma_split_joined_lines, newline_pieces, trim, trim_end,
    trim_start, trim_str, trimmed_bounds,
};

verus! {

/// The attribute line prefix that carries the session that wrote a file.
pub open spec fn session_key() -> Seq<char> {
    "user.prov.session="@
}

/// The attribute line prefix that carries the time a file was written.
pub open spec fn ts_key() -> Seq<char> {
    "user.prov.ts="@
}

/// `s` without one pair of surrounding double quotes, where it has them.
pub open spec fn unquoted(s: Seq<char>) -> Seq<char> {
    if s.len() >= 2 && s[0] == '"' && s.last() == '"' {
        s.subrange(1, s.len() - 1)
    } else {
        s
    }
}

/// The value that one line of `getfattr` output gives for `key`: the line,
/// trimmed, must start with `key`; the rest of it, unquoted, is the value.
pub open spec fn line_field(line: Seq<char>, key: Seq<char>) -> Option<Seq<char>> {
    let t = trim(line);
    if key.len() <= t.len() && t.take(key.len() as int) == key {
        Some(unquoted(t.skip(key.len() as int)))
    } else {
        None
    }
}

/// The value that the last of `lines` to give one gives for `key`.
pub open spec fn last_field(lines: Seq<Seq<char>>, key: Seq<char>) -> Option<Seq<char>>
    decreases lines.len(),
{
    if lines.len() == 0 {
        None
    } else {
        match line_field(lines.last(), key) {
            Some(v) => Some(v),
            None => last_field(lines.drop_last(), key),
        }
    }
}

/// The value that `getfattr` output `raw` gives for `key`: that of the last
/// line that carries it.
pub open spec fn getfattr_field(raw: Seq<char>, key: Seq<char>) -> Option<Seq<char>> {
    last_field(newline_pieces(raw), key)
}

/// The abstract content of a `FileProvenance`.
pub struct ProvenanceRecord {
    pub path: Seq<char>,
    pub session: Option<Seq<char>>,
    pub ts: Option<Seq<char>>,
    pub raw: Seq<char>,
}

/// What `getfattr -d` output `raw` for `path` says of the file's provenance.
pub open spec fn spec_parse_getfattr_output(path: Seq<char>, raw: Seq<char>) -> ProvenanceRecord {
    ProvenanceRecord {
        path,
        session: getfattr_field(raw, session_key()),
        ts: getfattr_field(raw, ts_key()),
        raw,
    }
}

/// Result of querying file provenance from provfs xattrs.
#[derive(Debug)]
pub struct FileProvenance {
    /// The queried path.
    pub path: String,
    /// `user.prov.session` xattr value, or `None` if absent.
    pub session: Option<String>,
    /// `user.prov.ts` xattr value, or `None` if absent.
    pub ts: Option<String>,
    /// Raw `getfattr` output for diagnostics.
    pub raw: String,
}

impl View for FileProvenance {
    type V = ProvenanceRecord;

    open spec fn view(&self) -> ProvenanceRecord {
        ProvenanceRecord {
            path: self.path@,
            session: self.session.deep_view(),
            ts: self.ts.deep_view(),
            raw: self.raw@,
        }
    }
}

/// Strip surrounding `"` from a getfattr value if present.
pub fn unquote(s: &str) -> (r: &str)
    ensures
        r@ == unquoted(s@),
{
    let n = s.unicode_len();
    if n >= 2 && s.get_char(0) == '"' && s.get_char(n - 1) == '"' {
        s.substring_char(1, n - 1)
    } else {
        s
    }
}

/// A line that starts with the session prefix never starts with the
/// time prefix.
proof fn lemma_keys_exclusive(line: Seq<char>)
    ensures
        line_field(line, session_key()) is Some ==> line_field(line, ts_key()) is None,
{
    reveal_strlit("user.prov.session=");
    reveal_strlit("user.prov.ts=");
    let t = trim(line);
    if line_field(line, session_key()) is Some && line_field(line, ts_key()) is Some {
        assert(t.take(session_key().len() as int)[10] == 's');
        assert(t.take(ts_key().len() as int)[10] == 't');
    }
}

/// The value that `chars[start..end]`, one line of `raw`, gives for `key`.
fn line_value(raw: &str, chars: &Vec<char>, start: usize, end: usize, key: &Vec<char>) -> (r:
    Option<String>)
    requires
        chars@ == raw@,
        start <= end <= chars.len(),
    ensures
        r.deep_view() == line_field(chars@.subrange(start as int, end as int), key@),
{
    let (a, b) = trimmed_bounds(chars, start, end);
    let ghost t = trim(chars@.subrange(start as int, end as int));
    if has_prefix_at(chars, a, b, key) {
        let k = key.len();
        assert(t.skip(k as int) =~= raw@.subrange(a + k, b as int));
        let rest = raw.substring_char(a + k, b);
        Some(unquote(rest).to_owned())
    } else {
        None
    }
}

/// Parse `getfattr -d --absolute-names` output into `FileProvenance`.
///
/// A path that has no prov xattrs returns `session: None, ts: None`: not an error.
pub fn parse_getfattr_output(path: &str, raw: &str) -> (prov: FileProvenance)
    ensures
        prov@ == spec_parse_getfattr_output(path@, raw@),
{
    let chars = chars_of(raw);
    let session_chars = chars_of("user.prov.session=");
    let ts_chars = chars_of("user.prov.ts=");
    let mut session: Option<String> = None;
    let mut ts: Option<String> = None;
    let n = chars.len();
    let mut start: usize = 0;
    let mut i: usize = 0;
    proof {
        lemma_newline_pieces_nonempty(raw@.take(0));
        assert(raw@.take(0) =~= Seq::<char>::empty());
        assert(raw@.subrange(0, 0) =~= Seq::<char>::empty());
    }
    while i < n
        invariant
            n == chars.len(),
            chars@ == raw@,
            session_chars@ == session_key(),
            ts_chars@ == ts_key(),
            start <= i <= n,
            newline_pieces(raw@.take(i as int)).len() >= 1,
            newline_pieces(raw@.take(i as int)).last() == raw@.subrange(start as int, i as int),
            session.deep_view() == last_field(
                newline_pieces(raw@.take(i as int)).drop_last(),
                session_key(),
            ),
            ts.deep_view() == last_field(newline_pieces(raw@.take(i as int)).drop_last(), ts_key()),
        decreases n - i,
    {
        let ghost p = newline_pieces(raw@.take(i as int));
        assert(raw@.take(i + 1).drop_last() =~= raw@.take(i as int));
        if chars[i] == '\n' {
            let s = line_value(raw, &chars, start, i, &session_chars);
            proof {
                lemma_keys_exclusive(p.last());
            }
            if s.is_some() {
                session = s;
            } else {
                let t = line_value(raw, &chars, start, i, &ts_chars);
                if t.is_some() {
                    ts = t;
                }
            }
            start = i + 1;
            proof {
                let q = newline_pieces(raw@.take(i + 1));
                assert(q == p.push(Seq::empty()));
                assert(q.drop_last() =~= p);
                assert(raw@.subrange(i + 1, i + 1) =~= Seq::<char>::empty());
            }
        } else {
            proof {
                let q = newline_pieces(raw@.take(i + 1));
                assert(q == p.update(p.len() - 1, p.last().push(raw@[i as int])));
                assert(q.drop_last() =~= p.drop_last());
                assert(raw@.subrange(start as int, i + 1) =~= raw@.subrange(
                    start as int,
                    i as int,
                ).push(raw@[i as int]));
            }
        }
        i = i + 1;
    }
    assert(raw@.take(n as int) =~= raw@);
    let ghost p = newline_pieces(raw@);
    let s = line_value(raw, &chars, start, n, &session_chars);
    proof {
        lemma_keys_exclusive(p.last());
    }
    if s.is_some() {
        session = s;
    } else {
        let t = line_value(raw, &chars, start, n, &ts_chars);
        if t.is_some() {
            ts = t;
        }
    }
    FileProvenance { path: path.to_owned(), session, ts, raw: raw.to_owned() }
}

/// A name for the text that `String::from_utf8_lossy` makes of `bytes`.
pub uninterp spec fn utf8_lossy(bytes: Seq<u8>) -> Seq<char>;

/// Calls `String::from_utf8_lossy`. Trusted: its result is the named text of
/// `bytes`, and, as std documents, valid UTF-8 is decoded unchanged. What it
/// puts in place of invalid sequences (U+FFFD for each maximal invalid part)
/// is left to the name.
#[verifier::external_body]
fn from_utf8_lossy(bytes: &[u8]) -> (s: String)
    ensures
        s@ == utf8_lossy(bytes@),
        valid_utf8(bytes@) ==> s@ == decode_utf8(bytes@),
{
    String::from_utf8_lossy(bytes).into_owned()
}

/// What `getfattr -d --absolute-names <path>`, having printed `stdout`, says
/// of the provenance of `path`. The output is read as UTF-8, lossily.
pub fn provenance_from_getfattr(path: &str, stdout: &[u8]) -> (prov: FileProvenance)
    ensures
        prov@ == spec_parse_getfattr_output(path@, utf8_lossy(stdout@)),
        valid_utf8(stdout@) ==> prov@ == spec_parse_getfattr_output(path@, decode_utf8(stdout@)),
{
    let raw = from_utf8_lossy(stdout);
    parse_getfattr_output(path, raw.as_str())
}

/// The message with which a failed `memlog show` is reported.
pub open spec fn memlog_exit_message(status: Seq<char>, stderr: Seq<char>) -> Seq<char> {
    "memlog show exited "@ + status + ": "@ + trim(stderr)
}

/// What became of a `memlog show` run that exited with `status`
/// (successfully where `success`) after writing `stdout` and `stderr`:
/// the text of its output to read as JSON, or the message of its failure.
pub fn memlog_show_result(success: bool, status: &str, stdout: &[u8], stderr: &[u8]) -> (r: Result<
    String,
    String,
>)
    ensures
        success ==> (r matches Ok(out) && out@ == utf8_lossy(stdout@)),
        !success ==> (r matches Err(msg) && msg@ == memlog_exit_message(
            status@,
            utf8_lossy(stderr@),
        )),
{
    if !success {
        let err = from_utf8_lossy(stderr);
        let mut msg = "memlog show exited ".to_owned();
        msg.append(status);
        msg.append(": ");
        msg.append(trim_str(err.as_str()));
        return Err(msg);
    }
    Ok(from_utf8_lossy(stdout))
}

/// The line in which `getfattr -d` shows attribute `key` with value `v`:
/// the key, then the value in double quotes.
pub open spec fn attribute_line(key: Seq<char>, v: Seq<char>) -> Seq<char> {
    key + seq!['"'] + v + seq!['"']
}

/// The prefix shared by every provenance attribute.
pub open spec fn provenance_prefix() -> Seq<char> {
    "user.prov."@
}

/// A line `key="v"` gives `v` for `key`, whatever `v` holds, where `key`
/// starts with a character that is not white space.
pub proof fn lemma_attribute_line_reads_back(key: Seq<char>, v: Seq<char>)
    requires
        key.len() > 0,
        !is_white_space(key[0]),
    ensures
        line_field(attribute_line(key, v), key) == Some(v),
{
    let l = attribute_line(key, v);
    assert(l[0] == key[0]);
    assert(trim_start(l) == l);
    assert(l.last() == '"');
    assert(trim_end(l) == l);
    assert(l.take(key.len() as int) =~= key);
    assert(l.skip(key.len() as int) =~= seq!['"'] + v + seq!['"']);
    assert((seq!['"'] + v + seq!['"']).subrange(1, (v.len() + 1) as int) =~= v);
}

/// The last of `lines` to carry `key` decides its value.
proof fn lemma_last_field_at(lines: Seq<Seq<char>>, i: int, key: Seq<char>, v: Seq<char>)
    requires
        0 <= i < lines.len(),
        line_field(lines[i], key) == Some(v),
        forall|j: int| i < j < lines.len() ==> line_field(#[trigger] lines[j], key) is None,
    ensures
        last_field(lines, key) == Some(v),
    decreases lines.len(),
{
    if i < lines.len() - 1 {
        assert(line_field(lines[lines.len() - 1], key) is None);
        let init = lines.drop_last();
        assert forall|j: int| i < j < init.len() implies line_field(#[trigger] init[j], key) is None by {
            assert(init[j] == lines[j]);
        }
        lemma_last_field_at(init, i, key, v);
    }
}

/// Where no line carries `key`, there is no value for it.
proof fn lemma_last_field_none(lines: Seq<Seq<char>>, key: Seq<char>)
    requires
        forall|j: int| 0 <= j < lines.len() ==> line_field(#[trigger] lines[j], key) is None,
    ensures
        last_field(lines, key) is None,
    decreases lines.len(),
{
    if lines.len() > 0 {
        let init = lines.drop_last();
        assert forall|j: int| 0 <= j < init.len() implies line_field(#[trigger] init[j], key) is None by {
            assert(init[j] == lines[j]);
        }
        assert(line_field(lines[lines.len() - 1], key) is None);
        lemma_last_field_none(init, key);
    }
}

/// A line that carries a provenance attribute starts, once trimmed, with
/// the provenance prefix.
proof fn lemma_field_needs_prefix(line: Seq<char>)
    ensures
        line_field(line, session_key()) is Some || line_field(line, ts_key()) is Some
            ==> provenance_prefix().len() <= trim(line).len() && trim(line).take(
            provenance_prefix().len() as int,
        ) == provenance_prefix(),
{
    reveal_strlit("user.prov.session=");
    reveal_strlit("user.prov.ts=");
    reveal_strlit("user.prov.");
    let t = trim(line);
    if line_field(line, session_key()) is Some {
        assert(t.take(10) =~= t.take(session_key().len() as int).take(10));
        assert(session_key().take(10) =~= provenance_prefix());
    }
    if line_field(line, ts_key()) is Some {
        assert(t.take(10) =~= t.take(ts_key().len() as int).take(10));
        assert(ts_key().take(10) =~= provenance_prefix());
    }
}

/// Reading back what provfs stamped: in `getfattr` output made of `lines`
/// (none holding a newline), where `lines[i]` shows the session attribute
/// with value `session`, `lines[j]` the time attribute with value `ts`, and
/// no later line shows either again, the parse gives `session` and `ts`.
pub proof fn lemma_parse_reads_back_stamp(
    path: Seq<char>,
    lines: Seq<Seq<char>>,
    i: int,
    session: Seq<char>,
    j: int,
    ts: Seq<char>,
)
    requires
        forall|k: int| 0 <= k < lines.len() ==> is_single_line(#[trigger] lines[k]),
        0 <= i < lines.len(),
        0 <= j < lines.len(),
        lines[i] == attribute_line(session_key(), session),
        lines[j] == attribute_line(ts_key(), ts),
        forall|k: int| i < k < lines.len() ==> line_field(#[trigger] lines[k], session_key()) is None,
        forall|k: int| j < k < lines.len() ==> line_field(#[trigger] lines[k], ts_key()) is None,
    ensures
        spec_parse_getfattr_output(path, join_lines(lines)).session == Some(session),
        spec_parse_getfattr_output(path, join_lines(lines)).ts == Some(ts),
        spec_parse_getfattr_output(path, join_lines(lines)).path == path,
{
    reveal_strlit("user.prov.session=");
    reveal_strlit("user.prov.ts=");
    lemma_split_joined_lines(lines);
    lemma_attribute_line_reads_back(session_key(), session);
    lemma_attribute_line_reads_back(ts_key(), ts);
    lemma_last_field_at(lines, i, session_key(), session);
    lemma_last_field_at(lines, j, ts_key(), ts);
}

/// A file with no provenance is an answer, not an error: where no line of
/// the `getfattr` output, trimmed, starts with `user.prov.`, both the session
/// and the time are absent.
pub proof fn lemma_unstamped_output_has_no_provenance(path: Seq<char>, raw: Seq<char>)
    requires
        forall|k: int|
            0 <= k < newline_pieces(raw).len() ==> !(provenance_prefix().len() <= trim(
                #[trigger] newline_pieces(raw)[k],
            ).len() && trim(newline_pieces(raw)[k]).take(provenance_prefix().len() as int)
                == provenance_prefix()),
    ensures
        spec_parse_getfattr_output(path, raw).session is None,
        spec_parse_getfattr_output(path, raw).ts is None,
{
    let p = newline_pieces(raw);
    assert forall|k: int| 0 <= k < p.len() implies line_field(#[trigger] p[k], session_key()) is None
        && line_field(p[k], ts_key()) is None by {
        lemma_field_needs_prefix(p[k]);
    }
    lemma_last_field_none(p, session_key());
    lemma_last_field_none(p, ts_key());
}

} // verus!
