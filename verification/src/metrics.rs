//! Counters of the traffic, and what a periodic report makes of them.
use vstd::prelude::*;

verus! {

/// The traffic since the server started: the lines that it took in, as far as
/// they held a message and were let through, and the lines that it wrote to
/// clients.
#[derive(Debug, Clone, Copy, PartialEq, Eq)]
pub struct MetricsSnapshot {
    pub recv: u64,
    pub sent: u64,
}

/// Counts the traffic. A counter wraps around at the end of `u64`.
#[derive(Debug)]
pub struct Metrics {
    recv_count: u64,
    sent_count: u64,
}

impl View for Metrics {
    type V = MetricsSnapshot;

    closed spec fn view(&self) -> MetricsSnapshot {
        MetricsSnapshot { recv: self.recv_count, sent: self.sent_count }
    }
}

impl MetricsSnapshot {
    pub open spec fn one_received(self) -> MetricsSnapshot {
        MetricsSnapshot { recv: self.recv.wrapping_add(1), ..self }
    }

    pub open spec fn one_sent(self) -> MetricsSnapshot {
        MetricsSnapshot { sent: self.sent.wrapping_add(1), ..self }
    }

    /// After a line was written, or that failed.
    pub open spec fn after_write(self, written: bool) -> MetricsSnapshot {
        if written {
            self.one_sent()
        } else {
            self
        }
    }
}

impl Metrics {
    pub fn new() -> (m: Self)
        ensures
            m@ == (MetricsSnapshot { recv: 0, sent: 0 }),
    {
        Metrics { recv_count: 0, sent_count: 0 }
    }

    pub fn record_recv(&mut self)
        ensures
            final(self)@ == old(self)@.one_received(),
    {
        self.recv_count = self.recv_count.wrapping_add(1);
    }

    pub fn record_sent(&mut self)
        ensures
            final(self)@ == old(self)@.one_sent(),
    {
        self.sent_count = self.sent_count.wrapping_add(1);
    }

    pub fn snapshot(&self) -> (s: MetricsSnapshot)
        ensures
            s == self@,
    {
        MetricsSnapshot { recv: self.recv_count, sent: self.sent_count }
    }
}

/// One periodic report: the counters, how far they moved since the report
/// before, and the memory in use.
#[derive(Debug, Clone, Copy, PartialEq, Eq)]
pub struct Report {
    pub recv: u64,
    pub sent: u64,
    pub recv_delta: u64,
    pub sent_delta: u64,
    pub mem_mb: u64,
}

/// `now - before`, and zero where a counter went back.
pub open spec fn moved(now: u64, before: u64) -> u64 {
    if now >= before {
        (now - before) as u64
    } else {
        0
    }
}

/// Makes the periodic reports. It remembers the counters of the last one.
#[derive(Debug)]
pub struct Reporter {
    pub prev: MetricsSnapshot,
}

impl Reporter {
    pub fn new() -> (r: Self)
        ensures
            r.prev == (MetricsSnapshot { recv: 0, sent: 0 }),
    {
        Reporter { prev: MetricsSnapshot { recv: 0, sent: 0 } }
    }

    /// The report on `snap`, with `used_memory` bytes in use.
    pub fn tick(&mut self, snap: MetricsSnapshot, used_memory: u64) -> (r: Report)
        ensures
            final(self).prev == snap,
            r.recv == snap.recv,
            r.sent == snap.sent,
            r.recv_delta == moved(snap.recv, old(self).prev.recv),
            r.sent_delta == moved(snap.sent, old(self).prev.sent),
            r.mem_mb == used_memory / 1048576,
    {
        let report = Report {
            recv: snap.recv,
            sent: snap.sent,
            recv_delta: snap.recv.saturating_sub(self.prev.recv),
            sent_delta: snap.sent.saturating_sub(self.prev.sent),
            mem_mb: used_memory / 1024 / 1024,
        };
        self.prev = snap;
        report
    }
}

/// A counter that moved by less than it can hold: the deltas of successive
/// reports add up to how far it moved over both.
pub proof fn law_deltas_add_up(first: u64, second: u64, third: u64)
    requires
        first <= second <= third,
    ensures
        moved(second, first) + moved(third, second) == moved(third, first),
{
}

/// A delta is how far the counter moved, and zero where it went back.
pub proof fn law_deltas_are_differences(now: u64, before: u64)
    ensures
        now >= before ==> before + moved(now, before) == now,
        now < before ==> moved(now, before) == 0,
{
}

/// What comes in is counted in `recv`, what is written in `sent`, each by one and
/// without touching the other; a write that failed counts for nothing.
pub proof fn law_counters_go_up_by_one(m: MetricsSnapshot)
    requires
        m.recv < u64::MAX,
        m.sent < u64::MAX,
    ensures
        m.one_received().recv == m.recv + 1,
        m.one_received().sent == m.sent,
        m.after_write(true).sent == m.sent + 1,
        m.after_write(true).recv == m.recv,
        m.after_write(false) == m,
{
}

} // verus!
