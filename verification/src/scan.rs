//! The scan pipeline: enumerator output text in, deduplicated and
//! port-sorted dev-server entries out.  The Unix path parses the socket
//! enumerator's listing directly; the Windows-style path parses the
//! connection table into `(port, pid)` pairs, lets the caller resolve each
//! pid to a process name, and both paths share the classify/label/aggregate
//! tail.

use vstd::prelude::*;

verus! {

use crate::text::str_to_chars;
use crate::split::{views_of, lines_of, split_lines};
use crate::listener::{ListenerView, RawListener, lsof_line_record, parse_lsof_line,
    netstat_line_record, parse_netstat_line};
use crate::classify::{is_dev_name, is_dev_process};
use crate::service::{service_label, detect_service, lemma_service_label_nonempty};
use crate::aggregate::{LabeledView, LabeledListener, DevServerView, DevServer, labeled_views,
    server_views, add_pid, insert_rec, agg, aggregate, ports_sorted, entries_wf,
    lemma_agg_invariants, RESERVED_PORT};

/// The views of a sequence of raw listeners.
pub open spec fn listener_views(v: Seq<RawListener>) -> Seq<ListenerView> {
    v.map_values(|r: RawListener| r@)
}

/// The records held by a sequence of enumerator lines, in line order;
/// lines that carry no record contribute nothing.
pub open spec fn lsof_records_of(lines: Seq<Seq<char>>) -> Seq<ListenerView>
    decreases lines.len(),
{
    if lines.len() == 0 {
        Seq::empty()
    } else {
        let prev = lsof_records_of(lines.drop_last());
        match lsof_line_record(lines.last()) {
            Some(r) => prev.push(r),
            None => prev,
        }
    }
}

/// The records held by the Unix enumerator's output, whose first line is a
/// header.
pub open spec fn lsof_records(text: Seq<char>) -> Seq<ListenerView> {
    let ls = lines_of(text);
    if ls.len() == 0 {
        Seq::empty()
    } else {
        lsof_records_of(ls.skip(1))
    }
}

/// The records whose process counts as development tooling, in order.
pub open spec fn dev_filter(rs: Seq<ListenerView>) -> Seq<ListenerView>
    decreases rs.len(),
{
    if rs.len() == 0 {
        Seq::empty()
    } else {
        let prev = dev_filter(rs.drop_last());
        if is_dev_name(rs.last().name) {
            prev.push(rs.last())
        } else {
            prev
        }
    }
}

/// A record together with its service label.
pub open spec fn label_view(r: ListenerView) -> LabeledView {
    LabeledView { port: r.port, service: service_label(r.port, r.name), name: r.name, pid: r.pid }
}

pub open spec fn label_all(rs: Seq<ListenerView>) -> Seq<LabeledView> {
    rs.map_values(|r: ListenerView| label_view(r))
}

/// The downstream pipeline shared by every platform: classify, label,
/// aggregate.
pub open spec fn collect_spec(rs: Seq<ListenerView>) -> Seq<DevServerView> {
    agg(label_all(dev_filter(rs)))
}

/// What a scan of the Unix enumerator's output returns.
pub open spec fn scan_lsof_spec(text: Seq<char>) -> Seq<DevServerView> {
    collect_spec(lsof_records(text))
}

/// Parse the Unix enumerator's output into raw listener records, skipping
/// the header line and every line that does not parse.
pub fn parse_lsof_listing(output: &str) -> (v: Vec<RawListener>)
    ensures
        listener_views(v@) == lsof_records(output@),
{
    let chars = str_to_chars(output);
    let ls = split_lines(&chars);
    let mut v: Vec<RawListener> = Vec::new();
    if ls.len() == 0 {
        proof {
            assert(listener_views(v@) =~= lsof_records(output@));
        }
        return v;
    }
    let ghost lv = views_of(ls@).skip(1);
    let mut i: usize = 1;
    proof {
        assert(lv.take(0) =~= Seq::<Seq<char>>::empty());
    }
    while i < ls.len()
        invariant
            1 <= i <= ls@.len(),
            views_of(ls@) == lines_of(output@),
            lv == views_of(ls@).skip(1),
            listener_views(v@) == lsof_records_of(lv.take(i - 1)),
        decreases ls.len() - i,
    {
        proof {
            assert(lv.take(i as int).drop_last() =~= lv.take(i - 1));
            assert(lv.take(i as int).last() == views_of(ls@)[i as int]);
            assert(views_of(ls@)[i as int] == ls@[i as int]@);
        }
        let ghost prev = v@;
        match parse_lsof_line(&ls[i]) {
            Some(r) => {
                v.push(r);
                proof {
                    assert(listener_views(v@) =~= listener_views(prev).push(r@));
                }
            },
            None => {},
        }
        i = i + 1;
    }
    proof {
        assert(lv.take(ls@.len() - 1) =~= lv);
    }
    v
}

/// Filter raw records to development tooling and label each with its
/// service.
fn label_dev_records(records: &Vec<RawListener>) -> (labeled: Vec<LabeledListener>)
    ensures
        labeled_views(labeled@) == label_all(dev_filter(listener_views(records@))),
{
    let ghost rv = listener_views(records@);
    let mut labeled: Vec<LabeledListener> = Vec::new();
    let mut i: usize = 0;
    proof {
        assert(rv.take(0) =~= Seq::<ListenerView>::empty());
        assert(labeled_views(labeled@) =~= label_all(dev_filter(rv.take(0))));
    }
    while i < records.len()
        invariant
            i <= records@.len(),
            rv == listener_views(records@),
            labeled_views(labeled@) == label_all(dev_filter(rv.take(i as int))),
        decreases records.len() - i,
    {
        proof {
            assert(rv.take(i + 1).drop_last() =~= rv.take(i as int));
            assert(rv.take(i + 1).last() == records@[i as int]@);
        }
        let r = &records[i];
        if is_dev_process(r.process_name.as_str()) {
            let service = detect_service(r.port, r.process_name.as_str());
            let ghost prev = labeled@;
            labeled.push(
                LabeledListener {
                    port: r.port,
                    service,
                    process_name: r.process_name.clone(),
                    pid: r.pid,
                },
            );
            proof {
                assert(labeled_views(labeled@) =~= labeled_views(prev).push(
                    label_view(records@[i as int]@),
                ));
                assert(label_all(dev_filter(rv.take(i + 1))) =~= label_all(
                    dev_filter(rv.take(i as int)),
                ).push(label_view(records@[i as int]@)));
            }
        }
        i = i + 1;
    }
    proof {
        assert(rv.take(records@.len() as int) =~= rv);
    }
    labeled
}

/// The pipeline tail shared by every platform: keep the records whose
/// process looks like development tooling, label each, and aggregate by
/// port.
pub fn collect_dev_servers(records: &Vec<RawListener>) -> (out: Vec<DevServer>)
    ensures
        server_views(out@) == collect_spec(listener_views(records@)),
{
    let labeled = label_dev_records(records);
    aggregate(&labeled)
}

/// Scan from the Unix enumerator's captured output.
pub fn scan_lsof_listing(output: &str) -> (out: Vec<DevServer>)
    ensures
        server_views(out@) == scan_lsof_spec(output@),
{
    let raw = parse_lsof_listing(output);
    collect_dev_servers(&raw)
}

/// The `(port, pid)` pairs held by a sequence of connection-table lines.
pub open spec fn netstat_pairs_of(lines: Seq<Seq<char>>) -> Seq<(u16, u32)>
    decreases lines.len(),
{
    if lines.len() == 0 {
        Seq::empty()
    } else {
        let prev = netstat_pairs_of(lines.drop_last());
        match netstat_line_record(lines.last()) {
            Some(p) => prev.push(p),
            None => prev,
        }
    }
}

/// The `(port, pid)` pairs of the Windows-style connection table, whose
/// first four lines are a header.
pub open spec fn netstat_pairs(text: Seq<char>) -> Seq<(u16, u32)> {
    let ls = lines_of(text);
    if ls.len() < 4 {
        Seq::empty()
    } else {
        netstat_pairs_of(ls.skip(4))
    }
}

/// Parse the Windows-style connection table into listening `(port, pid)`
/// pairs.  The caller resolves each pid to a process name and hands the
/// resulting records to `collect_dev_servers`.
pub fn parse_netstat_listing(output: &str) -> (v: Vec<(u16, u32)>)
    ensures
        v@ == netstat_pairs(output@),
{
    let chars = str_to_chars(output);
    let ls = split_lines(&chars);
    let mut v: Vec<(u16, u32)> = Vec::new();
    if ls.len() < 4 {
        proof {
            assert(v@ =~= netstat_pairs(output@));
        }
        return v;
    }
    let ghost lv = views_of(ls@).skip(4);
    let mut i: usize = 4;
    proof {
        assert(lv.take(0) =~= Seq::<Seq<char>>::empty());
    }
    while i < ls.len()
        invariant
            4 <= i <= ls@.len(),
            views_of(ls@) == lines_of(output@),
            ls@.len() >= 4,
            lv == views_of(ls@).skip(4),
            v@ == netstat_pairs_of(lv.take(i - 4)),
        decreases ls.len() - i,
    {
        proof {
            assert(lv.take(i - 3).drop_last() =~= lv.take(i - 4));
            assert(lv.take(i - 3).last() == views_of(ls@)[i as int]);
            assert(views_of(ls@)[i as int] == ls@[i as int]@);
        }
        match parse_netstat_line(&ls[i]) {
            Some(p) => {
                v.push(p);
            },
            None => {},
        }
        i = i + 1;
    }
    proof {
        assert(lv.take(ls@.len() - 4) =~= lv);
    }
    v
}

/// Entry services all nonempty.
pub open spec fn services_nonempty(s: Seq<DevServerView>) -> bool {
    forall|i: int| 0 <= i < s.len() ==> (#[trigger] s[i]).service.len() > 0
}

proof fn lemma_insert_rec_services(acc: Seq<DevServerView>, r: LabeledView)
    requires
        services_nonempty(acc),
        r.service.len() > 0,
    ensures
        services_nonempty(insert_rec(acc, r)),
    decreases acc.len(),
{
    let res = insert_rec(acc, r);
    if acc.len() == 0 {
    } else if acc[0].port == r.port {
        assert forall|i: int| 0 <= i < res.len() implies (#[trigger] res[i]).service.len()
            > 0 by {
            if i > 0 {
                assert(res[i] == acc[i]);
            } else {
                assert(res[0] == add_pid(acc[0], r.pid));
            }
        }
    } else if r.port < acc[0].port {
        assert forall|i: int| 0 <= i < res.len() implies (#[trigger] res[i]).service.len()
            > 0 by {
            if i > 0 {
                assert(res[i] == acc[i - 1]);
            }
        }
    } else {
        let tail = acc.drop_first();
        assert forall|i: int| 0 <= i < tail.len() implies (#[trigger] tail[i]).service.len()
            > 0 by {
            assert(tail[i] == acc[i + 1]);
        }
        lemma_insert_rec_services(tail, r);
        let sub = insert_rec(tail, r);
        assert forall|i: int| 0 <= i < res.len() implies (#[trigger] res[i]).service.len()
            > 0 by {
            if i > 0 {
                assert(res[i] == sub[i - 1]);
            } else {
                assert(res[0] == acc[0]);
            }
        }
    }
}

proof fn lemma_agg_services(rs: Seq<LabeledView>)
    requires
        forall|i: int| 0 <= i < rs.len() ==> (#[trigger] rs[i]).service.len() > 0,
    ensures
        services_nonempty(agg(rs)),
    decreases rs.len(),
{
    if rs.len() > 0 {
        let prefix = rs.drop_last();
        assert forall|i: int| 0 <= i < prefix.len() implies (#[trigger] prefix[i]).service.len()
            > 0 by {
            assert(prefix[i] == rs[i]);
        }
        lemma_agg_services(rs.drop_last());
        if rs.last().port != RESERVED_PORT {
            lemma_insert_rec_services(agg(rs.drop_last()), rs.last());
        }
    }
}

/// A scan result never two entries with one port, never the reserved
/// control port, never an empty pid list or service label, and `pid` is
/// the first pid seen for the port.
pub proof fn lemma_scan_result_invariants(rs: Seq<ListenerView>)
    ensures
        ports_sorted(collect_spec(rs)),
        forall|i: int, j: int|
            0 <= i < j < collect_spec(rs).len() ==> collect_spec(rs)[i].port != collect_spec(
                rs,
            )[j].port,
        forall|i: int|
            0 <= i < collect_spec(rs).len() ==> (#[trigger] collect_spec(rs)[i]).port
                != RESERVED_PORT,
        entries_wf(collect_spec(rs)),
        services_nonempty(collect_spec(rs)),
{
    let labeled = label_all(dev_filter(rs));
    lemma_agg_invariants(labeled);
    assert forall|i: int| 0 <= i < labeled.len() implies (#[trigger] labeled[i]).service.len()
        > 0 by {
        let r = dev_filter(rs)[i];
        lemma_service_label_nonempty(r.port, r.name);
    }
    lemma_agg_services(labeled);
}

/// A line that parses to no record leaves the scan unchanged: malformed or
/// short lines are skipped per line, never fatal to the scan.
pub proof fn lemma_malformed_line_skipped(lines: Seq<Seq<char>>, bad: Seq<char>)
    requires
        lsof_line_record(bad) is None,
    ensures
        lsof_records_of(lines.push(bad)) == lsof_records_of(lines),
{
    assert(lines.push(bad).drop_last() =~= lines);
    assert(lines.push(bad).last() == bad);
}

/// Scanning is deterministic in the enumerator's output: two scans over the
/// same text yield the same entries, ports and pid lists.
pub proof fn lemma_scan_repeatable(a: Seq<char>, b: Seq<char>)
    requires
        a == b,
    ensures
        scan_lsof_spec(a) == scan_lsof_spec(b),
{
}

} // verus!
