//! The command lines that the server runs: `getfattr` to read a file's
//! attributes and `memlog show` to list snapshots. Both only read.

use vstd::prelude::*;

verus! {

/// A program and the arguments to run it with.
pub struct CommandLine {
    pub program: String,
    pub args: Vec<String>,
}

/// The arguments of a command line, as character sequences.
pub open spec fn argv(args: Seq<String>) -> Seq<Seq<char>> {
    args.map_values(|a: String| a@)
}

/// The decimal digit `d` as a character.
pub open spec fn digit_char(d: nat) -> char {
    (d + 48) as char
}

/// The decimal notation of `n`, without sign or leading zeros.
pub open spec fn decimal(n: nat) -> Seq<char>
    decreases n,
{
    if n < 10 {
        seq![digit_char(n)]
    } else {
        decimal(n / 10).push(digit_char(n % 10))
    }
}

/// The one-character string of the digit `d`.
fn digit_str(d: u32) -> (r: &'static str)
    requires
        d < 10,
    ensures
        r@ == seq![digit_char(d as nat)],
{
    proof {
        reveal_strlit("0");
        reveal_strlit("1");
        reveal_strlit("2");
        reveal_strlit("3");
        reveal_strlit("4");
        reveal_strlit("5");
        reveal_strlit("6");
        reveal_strlit("7");
        reveal_strlit("8");
        reveal_strlit("9");
    }
    match d {
        0 => "0",
        1 => "1",
        2 => "2",
        3 => "3",
        4 => "4",
        5 => "5",
        6 => "6",
        7 => "7",
        8 => "8",
        _ => "9",
    }
}

/// The decimal notation of `n`, as `n.to_string()` writes it.
pub fn decimal_string(n: u32) -> (s: String)
    ensures
        s@ == decimal(n as nat),
    decreases n,
{
    if n < 10 {
        digit_str(n).to_owned()
    } else {
        let mut s = decimal_string(n / 10);
        s.append(digit_str(n % 10));
        s
    }
}

/// The program that reads extended attributes.
pub open spec fn getfattr_program() -> Seq<char> {
    "getfattr"@
}

/// The arguments with which `getfattr` dumps every attribute of `path`.
pub open spec fn getfattr_argv(path: Seq<char>) -> Seq<Seq<char>> {
    seq!["-d"@, "--absolute-names"@, path]
}

/// The arguments of `memlog show`: the optional `--since` and `--limit`
/// filters, then JSON output.
pub open spec fn memlog_show_argv(since: Option<Seq<char>>, limit: Option<u32>) -> Seq<Seq<char>> {
    seq!["show"@] + match since {
        Some(s) => seq!["--since"@, s],
        None => Seq::empty(),
    } + match limit {
        Some(n) => seq!["--limit"@, decimal(n as nat)],
        None => Seq::empty(),
    } + seq!["--format"@, "json"@]
}

/// The `getfattr -d --absolute-names <path>` command line.
pub fn getfattr_command(path: &str) -> (c: CommandLine)
    ensures
        c.program@ == getfattr_program(),
        argv(c.args@) == getfattr_argv(path@),
{
    let args = vec!["-d".to_owned(), "--absolute-names".to_owned(), path.to_owned()];
    assert(argv(args@) =~= getfattr_argv(path@));
    CommandLine { program: "getfattr".to_owned(), args }
}

/// The `memlog show --since <since> --limit <limit> --format json` command
/// line, run with the program `memlog_bin`; each filter only where given.
pub fn memlog_show_command(memlog_bin: &str, since: Option<&str>, limit: Option<u32>) -> (c:
    CommandLine)
    ensures
        c.program@ == memlog_bin@,
        argv(c.args@) == memlog_show_argv(since.deep_view(), limit),
{
    let mut args: Vec<String> = Vec::new();
    args.push("show".to_owned());
    let ghost a1 = args@;
    match since {
        Some(s) => {
            args.push("--since".to_owned());
            args.push(s.to_owned());
        },
        None => {},
    }
    let ghost a2 = args@;
    match limit {
        Some(n) => {
            args.push("--limit".to_owned());
            args.push(decimal_string(n));
        },
        None => {},
    }
    let ghost a3 = args@;
    args.push("--format".to_owned());
    args.push("json".to_owned());
    proof {
        let s1: Seq<Seq<char>> = seq!["show"@];
        let s2: Seq<Seq<char>> = match since.deep_view() {
            Some(s) => seq!["--since"@, s],
            None => Seq::empty(),
        };
        let s3: Seq<Seq<char>> = match limit {
            Some(n) => seq!["--limit"@, decimal(n as nat)],
            None => Seq::empty(),
        };
        assert(argv(a1) =~= s1);
        assert(argv(a2) =~= s1 + s2);
        assert(argv(a3) =~= s1 + s2 + s3);
        assert(argv(args@) =~= s1 + s2 + s3 + seq!["--format"@, "json"@]);
    }
    CommandLine { program: memlog_bin.to_owned(), args }
}

/// Read-only by construction: the file tool only ever runs `getfattr`, and
/// the snapshot tool only ever runs the `show` subcommand of `memlog`, never
/// `write` or `clear`, whatever the filters; and it always asks for JSON.
pub proof fn lemma_commands_only_read(since: Option<Seq<char>>, limit: Option<u32>)
    ensures
        getfattr_program() == "getfattr"@,
        memlog_show_argv(since, limit).len() >= 3,
        memlog_show_argv(since, limit)[0] == "show"@,
        memlog_show_argv(since, limit)[0] != "write"@,
        memlog_show_argv(since, limit)[0] != "clear"@,
        memlog_show_argv(since, limit).last() == "json"@,
{
    reveal_strlit("show");
    reveal_strlit("write");
    reveal_strlit("clear");
    let a = memlog_show_argv(since, limit);
    assert("show"@[0] != "write"@[0]);
    assert("show"@[0] != "clear"@[0]);
}

/// The number that the decimal digits `s` denote.
pub open spec fn digits_value(s: Seq<char>) -> int
    decreases s.len(),
{
    if s.len() == 0 {
        0
    } else {
        digits_value(s.drop_last()) * 10 + (s.last() as int - 48)
    }
}

/// `decimal(n)` is the base-10 notation of `n`: it is made of the digits
/// `0`-`9` only, it does not start with `0` unless `n` is zero, and read back
/// as digits it gives `n`.
pub proof fn lemma_decimal_reads_back(n: nat)
    ensures
        decimal(n).len() >= 1,
        forall|i: int| 0 <= i < decimal(n).len() ==> '0' <= #[trigger] decimal(n)[i] <= '9',
        n > 0 ==> decimal(n)[0] != '0',
        digits_value(decimal(n)) == n,
    decreases n,
{
    if n < 10 {
        let d = decimal(n);
        assert(d.drop_last() =~= Seq::<char>::empty());
        assert(d.last() as int == n + 48);
        assert(digits_value(d) == digits_value(d.drop_last()) * 10 + (d.last() as int - 48));
    } else {
        lemma_decimal_reads_back(n / 10);
        let d = decimal(n);
        let h = decimal(n / 10);
        assert(d.drop_last() =~= h);
        assert(d.last() as int == n % 10 + 48);
        assert(d[0] == h[0]);
        assert forall|i: int| 0 <= i < d.len() implies '0' <= #[trigger] d[i] <= '9' by {
            if i < h.len() {
                assert(d[i] == h[i]);
            }
        }
        assert(digits_value(d) == digits_value(h) * 10 + (n % 10));
        assert(n == (n / 10) * 10 + n % 10);
    }
}

/// The file tool hands `getfattr` exactly `-d` (dump the values, not only
/// the names), `--absolute-names`, and the queried path, for every path,
/// absolute or relative.
pub proof fn lemma_getfattr_argv_dumps_values(path: Seq<char>)
    ensures
        getfattr_argv(path) =~= seq!["-d"@, "--absolute-names"@, path],
        getfattr_argv(path).len() == 3,
        getfattr_argv(path)[0] == "-d"@,
        getfattr_argv(path).last() == path,
{
}

/// Each filter of `memlog show` is passed exactly when it is given, whatever
/// the other one is: `--since s` right after `show`, then `--limit` with the
/// decimal notation of the limit, then `--format json`; nothing else.
pub proof fn lemma_memlog_argv_filters(since: Option<Seq<char>>, limit: Option<u32>)
    ensures
        ({
            let a = memlog_show_argv(since, limit);
            let k: int = if since is Some { 3 } else { 1 };
            &&& a.len() == k + (if limit is Some { 2int } else { 0int }) + 2
            &&& a[0] == "show"@
            &&& (since matches Some(s) ==> a[1] == "--since"@ && a[2] == s)
            &&& (limit matches Some(n) ==> a[k] == "--limit"@ && digits_value(a[k + 1]) == n
                && a[k + 1] == decimal(n as nat))
            &&& a[a.len() - 2] == "--format"@
            &&& a[a.len() - 1] == "json"@
        }),
{
    if let Some(n) = limit {
        lemma_decimal_reads_back(n as nat);
    }
}

} // verus!
