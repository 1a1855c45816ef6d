//! Raw listener records, and the per-line parsing of the OS enumerators'
//! output.  Malformed lines never fail a scan: every parser here returns
//! `None` for a line it cannot read, and the caller skips the line.

use vstd::prelude::*;

verus! {

use crate::text::{
    contains_seq,
    match_at,
    contains_chars,
    str_to_chars,
    chars_to_string,
    eq_chars,
    starts_with_chars,
    scan_to,
    lemma_scan_to_is,
    parse_dec,
    parse_dec_value,
};
use crate::split::{views_of, split_ws, split_fields, lines_of, split_lines, copy_range};

/// Mathematical model of one raw listening-socket record.
pub struct ListenerView {
    pub port: u16,
    pub name: Seq<char>,
    pub pid: u32,
}

/// One raw listening-socket record: local port, owning process name and
/// owning process id.  Produced per enumerator line; not persisted.
#[derive(Debug, Clone)]
pub struct RawListener {
    pub port: u16,
    pub process_name: String,
    pub pid: u32,
}

impl View for RawListener {
    type V = ListenerView;

    open spec fn view(&self) -> ListenerView {
        ListenerView { port: self.port, name: self.process_name@, pid: self.pid }
    }
}

/// A nonempty digit string whose value fits a port number.
pub open spec fn parse_port(s: Seq<char>) -> Option<u16> {
    match parse_dec(s, 0xFFFF) {
        Some(v) => Some(v as u16),
        None => None,
    }
}

/// Parse a port number.
pub fn parse_port_value(s: &Vec<char>) -> (r: Option<u16>)
    ensures
        r == parse_port(s@),
{
    match parse_dec_value(s, 0xFFFF) {
        Some(v) => Some(v as u16),
        None => None,
    }
}

/// A nonempty digit string whose value fits a process id.
pub open spec fn parse_u32(s: Seq<char>) -> Option<u32> {
    match parse_dec(s, 0xFFFF_FFFF) {
        Some(v) => Some(v as u32),
        None => None,
    }
}

/// Parse a process id.
pub fn parse_u32_value(s: &Vec<char>) -> (r: Option<u32>)
    ensures
        r == parse_u32(s@),
{
    match parse_dec_value(s, 0xFFFF_FFFF) {
        Some(v) => Some(v as u32),
        None => None,
    }
}

/// The text after the last colon of `a`; all of `a` when it has no colon.
pub open spec fn after_last_colon(a: Seq<char>) -> Seq<char>
    decreases a.len(),
{
    if a.len() == 0 {
        Seq::empty()
    } else if a.last() == ':' {
        Seq::empty()
    } else {
        after_last_colon(a.drop_last()).push(a.last())
    }
}

proof fn lemma_after_last_colon(a: Seq<char>, k: int)
    requires
        0 <= k <= a.len(),
        k > 0 ==> a[k - 1] == ':',
        forall|j: int| k <= j < a.len() ==> a[j] != ':',
    ensures
        after_last_colon(a) == a.subrange(k, a.len() as int),
    decreases a.len(),
{
    if a.len() == 0 {
        assert(after_last_colon(a) =~= a.subrange(0, 0));
    } else if k == a.len() {
        assert(a.last() == ':');
        assert(after_last_colon(a) =~= a.subrange(k, a.len() as int));
    } else {
        assert(a.last() != ':');
        assert forall|j: int| k <= j < a.drop_last().len() implies a.drop_last()[j] != ':' by {
            assert(a.drop_last()[j] == a[j]);
        }
        if k > 0 {
            assert(a.drop_last()[k - 1] == a[k - 1]);
        }
        lemma_after_last_colon(a.drop_last(), k);
        assert(after_last_colon(a) =~= a.subrange(k, a.len() as int));
    }
}

/// The characters after the last colon.
pub fn after_last_colon_chars(a: &Vec<char>) -> (r: Vec<char>)
    ensures
        r@ == after_last_colon(a@),
{
    let mut k: usize = a.len();
    while k > 0 && a[k - 1] != ':'
        invariant
            k <= a.len(),
            forall|j: int| k <= j < a@.len() ==> a@[j] != ':',
        decreases k,
    {
        k = k - 1;
    }
    proof {
        lemma_after_last_colon(a@, k as int);
    }
    copy_range(a, k, a.len())
}

/// Whether a field looks like a local or wildcard listening address.
pub open spec fn has_addr_marker(f: Seq<char>) -> bool {
    ||| contains_seq(f, "*:"@)
    ||| contains_seq(f, "localhost:"@)
    ||| contains_seq(f, "[::1]:"@)
    ||| contains_seq(f, "127.0.0.1:"@)
}

pub open spec fn marker_pred() -> spec_fn(Seq<char>) -> bool {
    |f: Seq<char>| has_addr_marker(f)
}

fn has_marker_field(f: &Vec<char>) -> (r: bool)
    ensures
        r == has_addr_marker(f@),
{
    let star = str_to_chars("*:");
    let localhost = str_to_chars("localhost:");
    let bracket = str_to_chars("[::1]:");
    let loopback = str_to_chars("127.0.0.1:");
    contains_chars(f, &star) || contains_chars(f, &localhost) || contains_chars(f, &bracket)
        || contains_chars(f, &loopback)
}

/// The token of an address field that should parse as the port: what
/// follows the IPv6 loopback prefix when the field mentions it, otherwise
/// what follows the last colon.
pub open spec fn port_text(a: Seq<char>) -> Seq<char> {
    if contains_seq(a, "[::1]:"@) {
        if match_at(a, "[::1]:"@, 0) {
            a.skip("[::1]:"@.len() as int)
        } else {
            Seq::empty()
        }
    } else {
        after_last_colon(a)
    }
}

fn port_text_chars(a: &Vec<char>) -> (r: Vec<char>)
    ensures
        r@ == port_text(a@),
{
    let bracket = str_to_chars("[::1]:");
    if contains_chars(a, &bracket) {
        if starts_with_chars(a, &bracket) {
            let r = copy_range(a, bracket.len(), a.len());
            proof {
                assert(r@ =~= a@.skip("[::1]:"@.len() as int));
            }
            r
        } else {
            Vec::new()
        }
    } else {
        after_last_colon_chars(a)
    }
}

/// The record held by one line of the Unix socket enumerator's output:
/// process name in the first field, process id in the second, the port in
/// the first field that looks like a local listening address.  Lines with
/// fewer than ten fields, an unreadable pid, no address field or an
/// unreadable port carry no record.
pub open spec fn lsof_line_record(line: Seq<char>) -> Option<ListenerView> {
    let fs = split_ws(line);
    if fs.len() < 10 {
        None
    } else {
        match parse_u32(fs[1]) {
            None => None,
            Some(pid) => {
                let mi = scan_to(fs, 0, marker_pred());
                if mi >= fs.len() {
                    None
                } else {
                    match parse_port(port_text(fs[mi])) {
                        None => None,
                        Some(port) => Some(ListenerView { port, name: fs[0], pid }),
                    }
                }
            },
        }
    }
}

fn find_marker(fs: &Vec<Vec<char>>) -> (j: usize)
    ensures
        j <= fs@.len(),
        j as int == scan_to(views_of(fs@), 0, marker_pred()),
{
    let mut j: usize = 0;
    while j < fs.len()
        invariant
            j <= fs@.len(),
            forall|t: int| 0 <= t < j ==> !has_addr_marker(views_of(fs@)[t]),
        decreases fs.len() - j,
    {
        if has_marker_field(&fs[j]) {
            proof {
                lemma_scan_to_is(views_of(fs@), 0, marker_pred(), j as int);
            }
            return j;
        }
        j = j + 1;
    }
    proof {
        lemma_scan_to_is(views_of(fs@), 0, marker_pred(), fs@.len() as int);
    }
    j
}

/// Parse one line of Unix enumerator output into a raw listener record.
pub fn parse_lsof_line(line: &Vec<char>) -> (r: Option<RawListener>)
    ensures
        (r is Some) <==> (lsof_line_record(line@) is Some),
        r matches Some(l) ==> lsof_line_record(line@) == Some(l@),
{
    let fs = split_fields(line);
    if fs.len() < 10 {
        return None;
    }
    let pid = match parse_u32_value(&fs[1]) {
        Some(p) => p,
        None => {
            return None;
        },
    };
    let j = find_marker(&fs);
    if j >= fs.len() {
        return None;
    }
    let pt = port_text_chars(&fs[j]);
    let port = match parse_port_value(&pt) {
        Some(p) => p,
        None => {
            return None;
        },
    };
    let name = chars_to_string(&fs[0]);
    Some(RawListener { port, process_name: name, pid })
}

/// The `(port, pid)` pair held by one line of the Windows-style connection
/// table: a TCP row in LISTENING state, the port after the last colon of
/// the local address field, the pid in the fifth field.
pub open spec fn netstat_line_record(line: Seq<char>) -> Option<(u16, u32)> {
    let fs = split_ws(line);
    if fs.len() < 5 || fs[0] != "TCP"@ || fs[3] != "LISTENING"@ {
        None
    } else {
        match parse_port(after_last_colon(fs[1])) {
            None => None,
            Some(port) => match parse_u32(fs[4]) {
                None => None,
                Some(pid) => Some((port, pid)),
            },
        }
    }
}

/// Parse one line of Windows-style connection-table output.
pub fn parse_netstat_line(line: &Vec<char>) -> (r: Option<(u16, u32)>)
    ensures
        r == netstat_line_record(line@),
{
    let fs = split_fields(line);
    if fs.len() < 5 {
        return None;
    }
    let tcp = str_to_chars("TCP");
    let listening = str_to_chars("LISTENING");
    if !eq_chars(&fs[0], &tcp) || !eq_chars(&fs[3], &listening) {
        return None;
    }
    let pt = after_last_colon_chars(&fs[1]);
    let port = match parse_port_value(&pt) {
        Some(p) => p,
        None => {
            return None;
        },
    };
    let pid = match parse_u32_value(&fs[4]) {
        Some(p) => p,
        None => {
            return None;
        },
    };
    Some((port, pid))
}

pub open spec fn comma_pred() -> spec_fn(char) -> bool {
    |c: char| c == ','
}

pub open spec fn non_quote_pred() -> spec_fn(char) -> bool {
    |c: char| c != '"'
}

/// One past the last character of `s` that is not a double quote; zero when
/// every character is one.
pub open spec fn last_non_quote_end(s: Seq<char>) -> int
    decreases s.len(),
{
    if s.len() == 0 {
        0
    } else if s.last() != '"' {
        s.len() as int
    } else {
        last_non_quote_end(s.drop_last())
    }
}

/// Leading and trailing double quotes removed.
pub open spec fn trim_quotes(s: Seq<char>) -> Seq<char> {
    let a = scan_to(s, 0, non_quote_pred());
    let b = last_non_quote_end(s);
    if a >= b {
        Seq::empty()
    } else {
        s.subrange(a, b)
    }
}

proof fn lemma_last_non_quote_end(s: Seq<char>, b: int)
    requires
        0 <= b <= s.len(),
        b > 0 ==> s[b - 1] != '"',
        forall|j: int| b <= j < s.len() ==> s[j] == '"',
    ensures
        last_non_quote_end(s) == b,
    decreases s.len(),
{
    if s.len() > 0 && b < s.len() {
        assert(s.last() == '"');
        assert forall|j: int| b <= j < s.drop_last().len() implies s.drop_last()[j] == '"' by {
            assert(s.drop_last()[j] == s[j]);
        }
        if b > 0 {
            assert(s.drop_last()[b - 1] == s[b - 1]);
        }
        lemma_last_non_quote_end(s.drop_last(), b);
    }
}

/// The process name reported by the first line of the process-table
/// lookup's CSV output: the first comma-separated cell, with its quotes
/// removed.  Empty output carries no name.
pub open spec fn tasklist_name(out: Seq<char>) -> Option<Seq<char>> {
    let ls = lines_of(out);
    if ls.len() == 0 {
        None
    } else {
        Some(trim_quotes(ls[0].take(scan_to(ls[0], 0, comma_pred()))))
    }
}

/// Parse the process-table lookup's output into the process name.
pub fn parse_tasklist_name(out: &str) -> (r: Option<String>)
    ensures
        (r is Some) <==> (tasklist_name(out@) is Some),
        r matches Some(n) ==> tasklist_name(out@) == Some(n@),
{
    let chars = str_to_chars(out);
    let ls = split_lines(&chars);
    if ls.len() == 0 {
        return None;
    }
    let line = &ls[0];
    let mut ci: usize = 0;
    while ci < line.len() && line[ci] != ','
        invariant
            ci <= line@.len(),
            forall|k: int| 0 <= k < ci ==> line@[k] != ',',
        decreases line.len() - ci,
    {
        ci = ci + 1;
    }
    proof {
        lemma_scan_to_is(line@, 0, comma_pred(), ci as int);
    }
    let tok = copy_range(line, 0, ci);
    proof {
        assert(tok@ =~= views_of(ls@)[0].take(scan_to(views_of(ls@)[0], 0, comma_pred())));
    }
    let mut a: usize = 0;
    while a < tok.len() && tok[a] == '"'
        invariant
            a <= tok@.len(),
            forall|k: int| 0 <= k < a ==> tok@[k] == '"',
        decreases tok.len() - a,
    {
        a = a + 1;
    }
    let mut b: usize = tok.len();
    while b > 0 && tok[b - 1] == '"'
        invariant
            b <= tok@.len(),
            forall|j: int| b <= j < tok@.len() ==> tok@[j] == '"',
        decreases b,
    {
        b = b - 1;
    }
    proof {
        lemma_scan_to_is(tok@, 0, non_quote_pred(), a as int);
        lemma_last_non_quote_end(tok@, b as int);
    }
    if a >= b {
        let empty: Vec<char> = Vec::new();
        proof {
            assert(empty@ =~= trim_quotes(tok@));
        }
        Some(chars_to_string(&empty))
    } else {
        let trimmed = copy_range(&tok, a, b);
        Some(chars_to_string(&trimmed))
    }
}

} // verus!
