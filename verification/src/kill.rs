//! The terminator: a force-kill request over a list of process ids is
//! sequential and stops at the first failure.  The session here makes the
//! decisions — which pid to kill next, when to stop — while the caller
//! issues the actual kill signals and reports each outcome back.

use vstd::prelude::*;

verus! {

use vstd::string::StringExecFns;
use crate::text::{dec_of, u32_to_dec_chars, chars_to_string};

/// Mathematical model of a termination session.
pub struct KillSessionView {
    pub pids: Seq<u32>,
    pub next: int,
    pub failed: Option<u32>,
}

/// The pid the session asks to have killed next: none once every pid was
/// killed, and none once any attempt failed.
pub open spec fn spec_pending(v: KillSessionView) -> Option<u32> {
    if v.failed is Some || v.next >= v.pids.len() {
        None
    } else {
        Some(v.pids[v.next])
    }
}

/// A sequential force-termination request over a list of process ids.
pub struct KillSession {
    pub pids: Vec<u32>,
    pub next: usize,
    pub failed: Option<u32>,
}

impl KillSession {
    pub open spec fn view(&self) -> KillSessionView {
        KillSessionView { pids: self.pids@, next: self.next as int, failed: self.failed }
    }

    pub open spec fn wf(&self) -> bool {
        self.next <= self.pids@.len()
    }

    /// Start a session over the given pids, in the order supplied.
    pub fn new(pids: Vec<u32>) -> (s: Self)
        ensures
            s.wf(),
            s@.pids == pids@,
            s@.next == 0,
            s@.failed is None,
    {
        KillSession { pids, next: 0, failed: None }
    }

    /// The pid to force-kill next, if the session is still running.
    pub fn pending(&self) -> (r: Option<u32>)
        requires
            self.wf(),
        ensures
            r == spec_pending(self@),
    {
        if self.failed.is_some() {
            return None;
        }
        if self.next < self.pids.len() {
            Some(self.pids[self.next])
        } else {
            None
        }
    }

    /// Record that the pending pid was killed; the session moves on to the
    /// next one.
    pub fn note_killed(&mut self)
        requires
            old(self).wf(),
            spec_pending(old(self)@) is Some,
        ensures
            final(self).wf(),
            final(self)@.pids == old(self)@.pids,
            final(self)@.failed == old(self)@.failed,
            final(self)@.next == old(self)@.next + 1,
    {
        let n = self.pids.len();
        assert(self.next < n);
        self.next = self.next + 1;
    }

    /// Record that killing the pending pid failed; the session stops, and
    /// no further pid is ever offered.
    pub fn note_failed(&mut self)
        requires
            old(self).wf(),
            spec_pending(old(self)@) is Some,
        ensures
            final(self).wf(),
            final(self)@.pids == old(self)@.pids,
            final(self)@.next == old(self)@.next,
            final(self)@.failed == Some(old(self)@.pids[old(self)@.next]),
            spec_pending(final(self)@) is None,
    {
        self.failed = Some(self.pids[self.next]);
    }

    /// The pid whose kill attempt failed, if any.
    pub fn failure(&self) -> (r: Option<u32>)
        ensures
            r == self@.failed,
    {
        self.failed
    }
}

/// Stop-on-first-failure: once any kill attempt has failed, the session
/// never offers another pid to kill, whatever else its state holds.
pub proof fn lemma_stop_on_first_failure(v: KillSessionView)
    requires
        v.failed is Some,
    ensures
        spec_pending(v) is None,
{
}

/// The error text reported when a kill command ran but did not succeed.
pub open spec fn kill_fail_msg(pid: u32, detail: Seq<char>) -> Seq<char> {
    "Failed to kill PID "@ + dec_of(pid) + ": "@ + detail
}

/// The error text reported when the kill command itself could not be run.
pub open spec fn kill_spawn_fail_msg(pid: u32, detail: Seq<char>) -> Seq<char> {
    "Failed to kill process "@ + dec_of(pid) + ": "@ + detail
}

/// Build the failure report for a kill command that ran and failed.
pub fn kill_failure_message(pid: u32, detail: &str) -> (m: String)
    ensures
        m@ == kill_fail_msg(pid, detail@),
{
    let mut m = String::from_str("Failed to kill PID ");
    let digits = u32_to_dec_chars(pid);
    let ds = chars_to_string(&digits);
    m.append(ds.as_str());
    m.append(": ");
    m.append(detail);
    m
}

/// Build the failure report for a kill command that could not be run.
pub fn kill_spawn_failure_message(pid: u32, detail: &str) -> (m: String)
    ensures
        m@ == kill_spawn_fail_msg(pid, detail@),
{
    let mut m = String::from_str("Failed to kill process ");
    let digits = u32_to_dec_chars(pid);
    let ds = chars_to_string(&digits);
    m.append(ds.as_str());
    m.append(": ");
    m.append(detail);
    m
}

} // verus!
