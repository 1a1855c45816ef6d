//! The aggregator: merges raw listener records that share a port into one
//! logical dev-server entry, excludes the host application's own control
//! port, and keeps the output sorted ascending by port.

use vstd::prelude::*;

verus! {

/// The control port the host application itself listens on; its own dev
/// server is never reported as a discovery.
pub const RESERVED_PORT: u16 = 1420;

/// Mathematical model of a labeled listener record.
pub struct LabeledView {
    pub port: u16,
    pub service: Seq<char>,
    pub name: Seq<char>,
    pub pid: u32,
}

/// A raw listener record together with its service label.
#[derive(Debug, Clone, PartialEq)]
pub struct LabeledListener {
    pub port: u16,
    pub service: String,
    pub process_name: String,
    pub pid: u32,
}

impl View for LabeledListener {
    type V = LabeledView;

    open spec fn view(&self) -> LabeledView {
        LabeledView {
            port: self.port,
            service: self.service@,
            name: self.process_name@,
            pid: self.pid,
        }
    }
}

/// Mathematical model of one discovered dev server.
pub struct DevServerView {
    pub port: u16,
    pub service: Seq<char>,
    pub process_name: Seq<char>,
    pub pid: u32,
    pub pids: Seq<u32>,
}

/// One discovered development server.  `port` is unique across a scan
/// result; `pids` holds every owning process id seen for the port in
/// encounter order, and `pid` is the first of them.
#[derive(Debug, Clone, PartialEq)]
pub struct DevServer {
    pub port: u16,
    pub service: String,
    pub process_name: String,
    pub pid: u32,
    pub pids: Vec<u32>,
}

impl View for DevServer {
    type V = DevServerView;

    open spec fn view(&self) -> DevServerView {
        DevServerView {
            port: self.port,
            service: self.service@,
            process_name: self.process_name@,
            pid: self.pid,
            pids: self.pids@,
        }
    }
}

/// The views of a sequence of labeled records.
pub open spec fn labeled_views(v: Seq<LabeledListener>) -> Seq<LabeledView> {
    v.map_values(|r: LabeledListener| r@)
}

/// The views of a sequence of dev servers.
pub open spec fn server_views(v: Seq<DevServer>) -> Seq<DevServerView> {
    v.map_values(|d: DevServer| d@)
}

/// The entry a record opens when its port was not seen before.
pub open spec fn entry_of(r: LabeledView) -> DevServerView {
    DevServerView {
        port: r.port,
        service: r.service,
        process_name: r.name,
        pid: r.pid,
        pids: seq![r.pid],
    }
}

/// An existing entry with one more owning pid appended.
pub open spec fn add_pid(e: DevServerView, pid: u32) -> DevServerView {
    DevServerView {
        port: e.port,
        service: e.service,
        process_name: e.process_name,
        pid: e.pid,
        pids: e.pids.push(pid),
    }
}

/// Insert one record into a port-sorted entry list: append the pid to the
/// entry that already holds the port, or open a new entry at the sorted
/// position.
pub open spec fn insert_rec(acc: Seq<DevServerView>, r: LabeledView) -> Seq<DevServerView>
    decreases acc.len(),
{
    if acc.len() == 0 {
        seq![entry_of(r)]
    } else if acc[0].port == r.port {
        seq![add_pid(acc[0], r.pid)] + acc.drop_first()
    } else if r.port < acc[0].port {
        seq![entry_of(r)] + acc
    } else {
        seq![acc[0]] + insert_rec(acc.drop_first(), r)
    }
}

/// Aggregate labeled records in encounter order, skipping the reserved
/// control port.
pub open spec fn agg(rs: Seq<LabeledView>) -> Seq<DevServerView>
    decreases rs.len(),
{
    if rs.len() == 0 {
        Seq::empty()
    } else {
        let prev = agg(rs.drop_last());
        let r = rs.last();
        if r.port == RESERVED_PORT {
            prev
        } else {
            insert_rec(prev, r)
        }
    }
}

proof fn lemma_insert_skip(acc: Seq<DevServerView>, r: LabeledView, j: int)
    requires
        0 <= j <= acc.len(),
        forall|k: int| 0 <= k < j ==> acc[k].port < r.port,
    ensures
        insert_rec(acc, r) == acc.take(j) + insert_rec(acc.skip(j), r),
    decreases j,
{
    if j == 0 {
        assert(acc.skip(0) =~= acc);
        assert(acc.take(0) + insert_rec(acc, r) =~= insert_rec(acc, r));
    } else {
        let tail = acc.drop_first();
        assert(acc[0].port < r.port);
        assert forall|k: int| 0 <= k < j - 1 implies tail[k].port < r.port by {
            assert(tail[k] == acc[k + 1]);
        }
        lemma_insert_skip(tail, r, j - 1);
        assert(tail.skip(j - 1) =~= acc.skip(j));
        assert(seq![acc[0]] + (tail.take(j - 1) + insert_rec(acc.skip(j), r)) =~= acc.take(j)
            + insert_rec(acc.skip(j), r));
    }
}

fn new_server(r: &LabeledListener) -> (d: DevServer)
    ensures
        d@ == entry_of(r@),
{
    let mut pids: Vec<u32> = Vec::new();
    pids.push(r.pid);
    proof {
        assert(pids@ =~= seq![r@.pid]);
    }
    DevServer {
        port: r.port,
        service: r.service.clone(),
        process_name: r.process_name.clone(),
        pid: r.pid,
        pids,
    }
}

fn insert_server(out: &mut Vec<DevServer>, r: &LabeledListener)
    ensures
        server_views(final(out)@) == insert_rec(server_views(old(out)@), r@),
{
    let ghost sv = server_views(out@);
    let mut j: usize = 0;
    while j < out.len() && out[j].port < r.port
        invariant
            j <= out@.len(),
            server_views(out@) == sv,
            forall|k: int| 0 <= k < j ==> sv[k].port < r@.port,
        decreases out.len() - j,
    {
        j = j + 1;
    }
    proof {
        lemma_insert_skip(sv, r@, j as int);
    }
    if j == out.len() {
        let ghost prev = out@;
        out.push(new_server(r));
        proof {
            assert(sv.skip(j as int) =~= Seq::<DevServerView>::empty());
            assert(server_views(out@) =~= sv.take(j as int) + insert_rec(
                sv.skip(j as int),
                r@,
            ));
        }
    } else if out[j].port == r.port {
        let ghost prev = out@;
        let e = out.remove(j);
        let DevServer { port, service, process_name, pid, mut pids } = e;
        pids.push(r.pid);
        out.insert(j, DevServer { port, service, process_name, pid, pids });
        proof {
            assert(sv.skip(j as int)[0] == sv[j as int]);
            assert(insert_rec(sv.skip(j as int), r@) =~= seq![add_pid(sv[j as int], r@.pid)]
                + sv.skip(j as int).drop_first());
            assert(sv.skip(j as int).drop_first() =~= sv.skip(j + 1));
            assert(server_views(out@) =~= sv.take(j as int) + insert_rec(
                sv.skip(j as int),
                r@,
            ));
        }
    } else {
        out.insert(j, new_server(r));
        proof {
            assert(sv.skip(j as int)[0] == sv[j as int]);
            assert(r@.port < sv[j as int].port);
            assert(insert_rec(sv.skip(j as int), r@) =~= seq![entry_of(r@)] + sv.skip(j as int));
            assert(server_views(out@) =~= sv.take(j as int) + insert_rec(
                sv.skip(j as int),
                r@,
            ));
        }
    }
}

/// Merge labeled listener records into one entry per port: the first record
/// seen for a port supplies the entry's service, process name and `pid`;
/// every record's pid is appended to `pids` in encounter order; the
/// reserved control port is excluded; the result ascends by port.
pub fn aggregate(records: &Vec<LabeledListener>) -> (out: Vec<DevServer>)
    ensures
        server_views(out@) == agg(labeled_views(records@)),
{
    let mut out: Vec<DevServer> = Vec::new();
    let mut i: usize = 0;
    proof {
        assert(server_views(out@) =~= agg(labeled_views(records@).take(0)));
    }
    while i < records.len()
        invariant
            i <= records@.len(),
            server_views(out@) == agg(labeled_views(records@).take(i as int)),
        decreases records.len() - i,
    {
        proof {
            assert(labeled_views(records@).take(i + 1).drop_last() =~= labeled_views(
                records@,
            ).take(i as int));
            assert(labeled_views(records@).take(i + 1).last() == records@[i as int]@);
        }
        let r = &records[i];
        if r.port != RESERVED_PORT {
            insert_server(&mut out, r);
        }
        i = i + 1;
    }
    proof {
        assert(labeled_views(records@).take(records@.len() as int) =~= labeled_views(records@));
    }
    out
}

/// Entry ports strictly ascend.
pub open spec fn ports_sorted(s: Seq<DevServerView>) -> bool {
    forall|i: int, j: int| 0 <= i < j < s.len() ==> s[i].port < s[j].port
}

/// Every entry owns at least one pid, and `pid` is the first of them.
pub open spec fn entries_wf(s: Seq<DevServerView>) -> bool {
    forall|i: int|
        0 <= i < s.len() ==> (#[trigger] s[i]).pids.len() >= 1 && s[i].pid == s[i].pids[0]
}

/// Some entry of `s` holds port `p`.
pub open spec fn port_present(s: Seq<DevServerView>, p: u16) -> bool {
    exists|i: int| 0 <= i < s.len() && s[i].port == p
}

proof fn lemma_insert_rec_props(acc: Seq<DevServerView>, r: LabeledView)
    requires
        ports_sorted(acc),
        entries_wf(acc),
    ensures
        ports_sorted(insert_rec(acc, r)),
        entries_wf(insert_rec(acc, r)),
        forall|i: int|
            0 <= i < insert_rec(acc, r).len() ==> (#[trigger] insert_rec(acc, r)[i]).port
                == r.port || port_present(acc, insert_rec(acc, r)[i].port),
    decreases acc.len(),
{
    let res = insert_rec(acc, r);
    if acc.len() == 0 {
    } else if acc[0].port == r.port {
        assert forall|i: int| 0 <= i < res.len() implies res[i].port == r.port || port_present(
            acc,
            res[i].port,
        ) by {
            if i > 0 {
                assert(res[i] == acc[i]);
                assert(acc[i].port == res[i].port);
            }
        }
    } else if r.port < acc[0].port {
        assert forall|i: int| 0 <= i < res.len() implies res[i].port == r.port || port_present(
            acc,
            res[i].port,
        ) by {
            if i > 0 {
                assert(res[i] == acc[i - 1]);
            }
        }
    } else {
        let tail = acc.drop_first();
        assert forall|i: int, j: int| 0 <= i < j < tail.len() implies tail[i].port
            < tail[j].port by {
            assert(tail[i] == acc[i + 1]);
            assert(tail[j] == acc[j + 1]);
        }
        assert forall|i: int| 0 <= i < tail.len() implies (#[trigger] tail[i]).pids.len() >= 1
            && tail[i].pid == tail[i].pids[0] by {
            assert(tail[i] == acc[i + 1]);
        }
        lemma_insert_rec_props(tail, r);
        let sub = insert_rec(tail, r);
        assert(res == seq![acc[0]] + sub);
        // the head stays below everything inserted behind it
        assert forall|i: int, j: int| 0 <= i < j < res.len() implies res[i].port
            < res[j].port by {
            if i > 0 {
                assert(res[i] == sub[i - 1]);
                assert(res[j] == sub[j - 1]);
            } else {
                assert(res[j] == sub[j - 1]);
                if sub[j - 1].port == r.port {
                } else {
                    assert(port_present(tail, sub[j - 1].port));
                    let w = choose|w: int|
                        0 <= w < tail.len() && tail[w].port == sub[j - 1].port;
                    assert(tail[w] == acc[w + 1]);
                }
            }
        }
        assert forall|i: int| 0 <= i < res.len() implies (#[trigger] res[i]).pids.len() >= 1
            && res[i].pid == res[i].pids[0] by {
            if i > 0 {
                assert(res[i] == sub[i - 1]);
            }
        }
        assert forall|i: int| 0 <= i < res.len() implies res[i].port == r.port || port_present(
            acc,
            res[i].port,
        ) by {
            if i > 0 {
                assert(res[i] == sub[i - 1]);
                if sub[i - 1].port != r.port {
                    assert(port_present(tail, sub[i - 1].port));
                    let w = choose|w: int|
                        0 <= w < tail.len() && tail[w].port == sub[i - 1].port;
                    assert(tail[w] == acc[w + 1]);
                }
            } else {
                assert(res[0] == acc[0]);
            }
        }
    }
}

/// Aggregation invariants: ports strictly ascend (so no two entries share a
/// port), every entry's `pid` heads its nonempty `pids`, and the reserved
/// control port never appears.
pub proof fn lemma_agg_invariants(rs: Seq<LabeledView>)
    ensures
        ports_sorted(agg(rs)),
        entries_wf(agg(rs)),
        forall|i: int| 0 <= i < agg(rs).len() ==> (#[trigger] agg(rs)[i]).port != RESERVED_PORT,
    decreases rs.len(),
{
    if rs.len() > 0 {
        lemma_agg_invariants(rs.drop_last());
        let prev = agg(rs.drop_last());
        let r = rs.last();
        if r.port != RESERVED_PORT {
            lemma_insert_rec_props(prev, r);
            assert forall|i: int| 0 <= i < agg(rs).len() implies (#[trigger] agg(
                rs,
            )[i]).port != RESERVED_PORT by {
                if agg(rs)[i].port != r.port {
                    assert(port_present(prev, agg(rs)[i].port));
                    let w = choose|w: int|
                        0 <= w < prev.len() && prev[w].port == agg(rs)[i].port;
                }
            }
        }
    }
}

/// Port uniqueness: no two entries of an aggregated result share a port.
pub proof fn lemma_aggregate_ports_unique(rs: Seq<LabeledView>)
    ensures
        forall|i: int, j: int|
            0 <= i < j < agg(rs).len() ==> agg(rs)[i].port != agg(rs)[j].port,
{
    lemma_agg_invariants(rs);
}

/// The entry of `s` holding port `p`, if any.
pub open spec fn entry_for(s: Seq<DevServerView>, p: u16) -> Option<DevServerView>
    decreases s.len(),
{
    if s.len() == 0 {
        None
    } else if s[0].port == p {
        Some(s[0])
    } else {
        entry_for(s.drop_first(), p)
    }
}

/// The pids of the records bound to port `p`, in encounter order.
pub open spec fn pids_for_port(rs: Seq<LabeledView>, p: u16) -> Seq<u32>
    decreases rs.len(),
{
    if rs.len() == 0 {
        Seq::empty()
    } else {
        let prev = pids_for_port(rs.drop_last(), p);
        if rs.last().port == p {
            prev.push(rs.last().pid)
        } else {
            prev
        }
    }
}

/// The first record bound to port `p`, in encounter order.
pub open spec fn first_for_port(rs: Seq<LabeledView>, p: u16) -> Option<LabeledView>
    decreases rs.len(),
{
    if rs.len() == 0 {
        None
    } else {
        match first_for_port(rs.drop_last(), p) {
            Some(r) => Some(r),
            None => if rs.last().port == p {
                Some(rs.last())
            } else {
                None
            },
        }
    }
}

proof fn lemma_first_iff_pids(rs: Seq<LabeledView>, p: u16)
    ensures
        (first_for_port(rs, p) is Some) <==> pids_for_port(rs, p).len() > 0,
    decreases rs.len(),
{
    if rs.len() > 0 {
        lemma_first_iff_pids(rs.drop_last(), p);
    }
}

proof fn lemma_entry_for_none(s: Seq<DevServerView>, p: u16)
    requires
        forall|i: int| 0 <= i < s.len() ==> (#[trigger] s[i]).port != p,
    ensures
        entry_for(s, p) is None,
    decreases s.len(),
{
    if s.len() > 0 {
        assert forall|i: int| 0 <= i < s.drop_first().len() implies (#[trigger] s.drop_first()[
            i]).port != p by {
            assert(s.drop_first()[i] == s[i + 1]);
        }
        lemma_entry_for_none(s.drop_first(), p);
    }
}

proof fn lemma_insert_rec_entry_for(acc: Seq<DevServerView>, r: LabeledView, p: u16)
    requires
        ports_sorted(acc),
    ensures
        entry_for(insert_rec(acc, r), p) == if p == r.port {
            match entry_for(acc, p) {
                Some(e) => Some(add_pid(e, r.pid)),
                None => Some(entry_of(r)),
            }
        } else {
            entry_for(acc, p)
        },
    decreases acc.len(),
{
    let res = insert_rec(acc, r);
    if acc.len() == 0 {
        assert(res == seq![entry_of(r)]);
        assert(res.drop_first() =~= Seq::<DevServerView>::empty());
        if p == r.port {
            assert(res[0].port == p);
            assert(entry_for(res, p) == Some(entry_of(r)));
        } else {
            assert(entry_for(Seq::<DevServerView>::empty(), p) is None);
            assert(entry_for(res, p) is None);
        }
    } else if acc[0].port == r.port {
        assert(res == seq![add_pid(acc[0], r.pid)] + acc.drop_first());
        assert(res[0] == add_pid(acc[0], r.pid));
        assert(res.drop_first() =~= acc.drop_first());
        if p == r.port {
            assert(res[0].port == p);
            assert(entry_for(res, p) == Some(add_pid(acc[0], r.pid)));
            assert(entry_for(acc, p) == Some(acc[0]));
        } else {
            assert(entry_for(res, p) == entry_for(acc.drop_first(), p));
            assert(entry_for(acc, p) == entry_for(acc.drop_first(), p));
        }
    } else if r.port < acc[0].port {
        assert(res == seq![entry_of(r)] + acc);
        assert(res[0] == entry_of(r));
        assert(res.drop_first() =~= acc);
        if p == r.port {
            assert forall|i: int| 0 <= i < acc.len() implies (#[trigger] acc[i]).port != p by {
                if i > 0 {
                    assert(acc[0].port < acc[i].port);
                }
            }
            lemma_entry_for_none(acc, p);
            assert(entry_for(res, p) == Some(entry_of(r)));
            assert(entry_for(acc, p) is None);
        } else {
            assert(entry_for(res, p) == entry_for(acc, p));
        }
    } else {
        let tail = acc.drop_first();
        assert forall|i: int, j: int| 0 <= i < j < tail.len() implies tail[i].port
            < tail[j].port by {
            assert(tail[i] == acc[i + 1]);
            assert(tail[j] == acc[j + 1]);
        }
        lemma_insert_rec_entry_for(tail, r, p);
        assert(res == seq![acc[0]] + insert_rec(tail, r));
        assert(res[0] == acc[0]);
        assert(res.drop_first() =~= insert_rec(tail, r));
        if p == acc[0].port {
            assert(p != r.port);
            assert(entry_for(res, p) == Some(acc[0]));
            assert(entry_for(acc, p) == Some(acc[0]));
        } else {
            assert(entry_for(res, p) == entry_for(insert_rec(tail, r), p));
            assert(entry_for(acc, p) == entry_for(tail, p));
        }
    }
}

/// Aggregation, characterized per port.  For every port other than the
/// reserved one: the result holds an entry for the port exactly when some
/// record is bound to it; that entry's `pids` are exactly the pids of the
/// records bound to the port, in encounter order and with repeats kept;
/// and its service, process name and `pid` come from the first record
/// bound to the port.
pub proof fn lemma_aggregate_characterization(rs: Seq<LabeledView>, p: u16)
    requires
        p != RESERVED_PORT,
    ensures
        (entry_for(agg(rs), p) is Some) <==> pids_for_port(rs, p).len() > 0,
        entry_for(agg(rs), p) matches Some(e) ==> {
            &&& e.port == p
            &&& e.pids == pids_for_port(rs, p)
            &&& first_for_port(rs, p) matches Some(r0) && e.service == r0.service
                && e.process_name == r0.name && e.pid == r0.pid
        },
    decreases rs.len(),
{
    if rs.len() > 0 {
        lemma_aggregate_characterization(rs.drop_last(), p);
        lemma_first_iff_pids(rs.drop_last(), p);
        lemma_agg_invariants(rs.drop_last());
        let prev = agg(rs.drop_last());
        let r = rs.last();
        if r.port == RESERVED_PORT {
            assert(agg(rs) == prev);
            assert(r.port != p);
        } else {
            lemma_insert_rec_entry_for(prev, r, p);
            if p == r.port {
                match entry_for(prev, p) {
                    Some(e) => {
                        assert(entry_for(agg(rs), p) == Some(add_pid(e, r.pid)));
                    },
                    None => {
                        assert(pids_for_port(rs.drop_last(), p).len() == 0);
                        assert(pids_for_port(rs.drop_last(), p) =~= Seq::<u32>::empty());
                        assert(entry_for(agg(rs), p) == Some(entry_of(r)));
                        assert(pids_for_port(rs, p) =~= seq![r.pid]);
                    },
                }
            }
        }
    }
}

} // verus!
