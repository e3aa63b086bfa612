//! The sampler's state: its configuration, the network baselines, and the
//! metrics of the latest sample.

use vstd::prelude::*;
use vstd::string::StringExecFns;
use crate::encode::{gauge, gauge_line, lemma_lines_after_gauge_line, push_gauge};
use crate::text::{lines, LINE_FEED};

verus! {

/// What one look at the operating system's sources gives: the two cumulative
/// network counters as they stand, and the four gauges already rounded.
#[derive(Clone, Copy, Debug, PartialEq, Eq, Structural)]
pub struct Readings {
    /// Bytes received on the interface since it came up.
    pub net_rx: u64,
    /// Bytes transmitted on the interface since it came up.
    pub net_tx: u64,
    /// Seconds since boot.
    pub uptime: u64,
    /// Available memory, as a percentage of all memory.
    pub avail_mem: u64,
    /// Load average times one hundred, per core.
    pub load: u64,
    /// Free blocks of the filesystem, as a percentage of all its blocks.
    pub disk_free: u64,
}

/// One datagram for the collector: what to send, and where.
#[derive(Clone, Debug)]
pub struct Datagram {
    pub payload: String,
    pub address: String,
}

/// The sampler's state.
#[derive(Clone, Debug)]
pub struct SysInfo {
    pub namespace: String,
    pub destination: String,
    pub interface: String,
    pub filesystem: String,
    pub hostname: String,
    pub last_seen_net_rx: u64,
    pub last_seen_net_tx: u64,
    pub net_rx: u64,
    pub net_tx: u64,
    pub uptime: u64,
    pub avail_mem: u64,
    pub load: u64,
    pub disk_free: u64,
}

/// How far a cumulative counter has moved from its baseline. A counter that
/// stands below its baseline has been reset, and counts as not having moved.
pub open spec fn counter_delta(current: u64, baseline: u64) -> u64 {
    if current >= baseline {
        (current - baseline) as u64
    } else {
        0
    }
}

impl SysInfo {
    /// The state after one sample: the deltas are taken against the old
    /// baselines, the baselines move to the new counters, the gauges are
    /// replaced, and the configuration stays.
    pub open spec fn refreshed(self, now: Readings) -> SysInfo {
        SysInfo {
            last_seen_net_rx: now.net_rx,
            last_seen_net_tx: now.net_tx,
            net_rx: counter_delta(now.net_rx, self.last_seen_net_rx),
            net_tx: counter_delta(now.net_tx, self.last_seen_net_tx),
            uptime: now.uptime,
            avail_mem: now.avail_mem,
            load: now.load,
            disk_free: now.disk_free,
            ..self
        }
    }

    /// What every metric's name starts with: the namespace, a point, and the
    /// host's name.
    pub open spec fn prefix(self) -> Seq<char> {
        self.namespace@ + "."@ + self.hostname@
    }

    /// The current metrics in wire format: six gauge lines, in this order.
    pub open spec fn encoded(self) -> Seq<char> {
        gauge_line(self.prefix(), "net-rx"@, self.net_rx as nat)
            + gauge_line(self.prefix(), "net-tx"@, self.net_tx as nat)
            + gauge_line(self.prefix(), "uptime"@, self.uptime as nat)
            + gauge_line(self.prefix(), "availmem"@, self.avail_mem as nat)
            + gauge_line(self.prefix(), "diskfree"@, self.disk_free as nat)
            + gauge_line(self.prefix(), "load"@, self.load as nat)
    }

    /// Where the datagrams go: the destination host and the statsd port.
    pub open spec fn address(self) -> Seq<char> {
        self.destination@ + ":8125"@
    }

    /// Builds the state from the configuration, the host's name and a first
    /// look at the sources. The counters read become the baselines and both
    /// deltas start at zero.
    pub fn new(
        destination: String,
        namespace: String,
        filesystem: String,
        interface: String,
        hostname: String,
        first: &Readings,
    ) -> (info: SysInfo)
        ensures
            info.destination == destination,
            info.namespace == namespace,
            info.filesystem == filesystem,
            info.interface == interface,
            info.hostname == hostname,
            info.last_seen_net_rx == first.net_rx,
            info.last_seen_net_tx == first.net_tx,
            info.net_rx == 0,
            info.net_tx == 0,
            info.uptime == first.uptime,
            info.avail_mem == first.avail_mem,
            info.load == first.load,
            info.disk_free == first.disk_free,
    {
        SysInfo {
            namespace,
            destination,
            hostname,
            last_seen_net_rx: first.net_rx,
            last_seen_net_tx: first.net_tx,
            net_rx: 0,
            net_tx: 0,
            interface,
            uptime: first.uptime,
            avail_mem: first.avail_mem,
            load: first.load,
            disk_free: first.disk_free,
            filesystem,
        }
    }

    /// Takes one sample into the state.
    pub fn refresh(&mut self, now: &Readings)
        ensures
            *final(self) == old(self).refreshed(*now),
    {
        self.net_rx = now.net_rx.saturating_sub(self.last_seen_net_rx);
        self.net_tx = now.net_tx.saturating_sub(self.last_seen_net_tx);
        self.last_seen_net_rx = now.net_rx;
        self.last_seen_net_tx = now.net_tx;
        self.uptime = now.uptime;
        self.avail_mem = now.avail_mem;
        self.load = now.load;
        self.disk_free = now.disk_free;
    }

    /// Encodes the current metrics as statsd gauges.
    pub fn serialize(&self) -> (payload: String)
        ensures
            payload@ == self.encoded(),
    {
        let mut prefix: String = self.namespace.clone();
        prefix.append(".");
        prefix.append(self.hostname.as_str());
        let mut payload: String = String::new();
        push_gauge(&mut payload, prefix.as_str(), "net-rx", self.net_rx);
        push_gauge(&mut payload, prefix.as_str(), "net-tx", self.net_tx);
        push_gauge(&mut payload, prefix.as_str(), "uptime", self.uptime);
        push_gauge(&mut payload, prefix.as_str(), "availmem", self.avail_mem);
        push_gauge(&mut payload, prefix.as_str(), "diskfree", self.disk_free);
        push_gauge(&mut payload, prefix.as_str(), "load", self.load);
        assert(payload@ =~= self.encoded());
        payload
    }

    /// One sampling cycle up to the socket: takes the sample into the state
    /// and hands back the datagram that reports it.
    pub fn send(&mut self, now: &Readings) -> (datagram: Datagram)
        ensures
            *final(self) == old(self).refreshed(*now),
            datagram.payload@ == final(self).encoded(),
            datagram.address@ == old(self).address(),
    {
        self.refresh(now);
        let mut address: String = self.destination.clone();
        address.append(":8125");
        Datagram { payload: self.serialize(), address }
    }
}

/// After a sample the baselines are the counters just read, and the delta of
/// a counter that has not gone down is its distance from the old baseline.
pub proof fn lemma_delta_against_baseline(info: SysInfo, now: Readings)
    ensures
        info.refreshed(now).last_seen_net_rx == now.net_rx,
        info.refreshed(now).last_seen_net_tx == now.net_tx,
        now.net_rx >= info.last_seen_net_rx ==> info.refreshed(now).net_rx == now.net_rx
            - info.last_seen_net_rx,
        now.net_tx >= info.last_seen_net_tx ==> info.refreshed(now).net_tx == now.net_tx
            - info.last_seen_net_tx,
{
}

/// Two samples in a row that find the counters unchanged report no traffic
/// for the second.
pub proof fn lemma_unchanged_counters(info: SysInfo, first: Readings, second: Readings)
    requires
        second.net_rx == first.net_rx,
        second.net_tx == first.net_tx,
    ensures
        info.refreshed(first).refreshed(second).net_rx == 0,
        info.refreshed(first).refreshed(second).net_tx == 0,
{
}

/// The deltas of two samples in a row cover windows that neither overlap nor
/// leave a gap: while the counters do not go down, the two deltas add up to
/// the counter's whole way from the first baseline.
pub proof fn lemma_deltas_add_up(info: SysInfo, first: Readings, second: Readings)
    requires
        info.last_seen_net_rx <= first.net_rx <= second.net_rx,
        info.last_seen_net_tx <= first.net_tx <= second.net_tx,
    ensures
        info.refreshed(first).net_rx + info.refreshed(first).refreshed(second).net_rx
            == second.net_rx - info.last_seen_net_rx,
        info.refreshed(first).net_tx + info.refreshed(first).refreshed(second).net_tx
            == second.net_tx - info.last_seen_net_tx,
{
}

/// A sample replaces the gauges and leaves the configuration alone.
pub proof fn lemma_refreshed_keeps_configuration(info: SysInfo, now: Readings)
    ensures
        info.refreshed(now).namespace == info.namespace,
        info.refreshed(now).destination == info.destination,
        info.refreshed(now).interface == info.interface,
        info.refreshed(now).filesystem == info.filesystem,
        info.refreshed(now).hostname == info.hostname,
        info.refreshed(now).prefix() == info.prefix(),
        info.refreshed(now).address() == info.address(),
{
}

/// The payload depends on the namespace, the host's name and the six metrics
/// alone: two states that agree in these encode to the same text, line for
/// line.
pub proof fn lemma_encoded_by_values(a: SysInfo, b: SysInfo)
    requires
        a.namespace@ == b.namespace@,
        a.hostname@ == b.hostname@,
        a.net_rx == b.net_rx,
        a.net_tx == b.net_tx,
        a.uptime == b.uptime,
        a.avail_mem == b.avail_mem,
        a.disk_free == b.disk_free,
        a.load == b.load,
    ensures
        a.encoded() == b.encoded(),
{
}

/// Where neither the namespace nor the host's name holds a line feed, the
/// payload is exactly six lines, each ended by a line feed: the six gauges in
/// their fixed order, and nothing behind the last.
pub proof fn lemma_encoded_lines(info: SysInfo)
    requires
        !info.namespace@.contains(LINE_FEED),
        !info.hostname@.contains(LINE_FEED),
    ensures
        lines(info.encoded()) == seq![
            gauge(info.prefix(), "net-rx"@, info.net_rx as nat),
            gauge(info.prefix(), "net-tx"@, info.net_tx as nat),
            gauge(info.prefix(), "uptime"@, info.uptime as nat),
            gauge(info.prefix(), "availmem"@, info.avail_mem as nat),
            gauge(info.prefix(), "diskfree"@, info.disk_free as nat),
            gauge(info.prefix(), "load"@, info.load as nat),
            Seq::<char>::empty(),
        ],
{
    let prefix = info.prefix();
    assert(!prefix.contains(LINE_FEED)) by {
        reveal_strlit(".");
        assert forall|i: int| 0 <= i < prefix.len() implies prefix[i] != LINE_FEED by {
            let n = info.namespace@.len();
            if i < n {
                assert(info.namespace@.contains(info.namespace@[i]));
            } else if i > n {
                assert(info.hostname@.contains(info.hostname@[i - n - 1]));
            }
        }
    }
    assert(!"net-rx"@.contains(LINE_FEED)) by {
        reveal_strlit("net-rx");
    }
    assert(!"net-tx"@.contains(LINE_FEED)) by {
        reveal_strlit("net-tx");
    }
    assert(!"uptime"@.contains(LINE_FEED)) by {
        reveal_strlit("uptime");
    }
    assert(!"availmem"@.contains(LINE_FEED)) by {
        reveal_strlit("availmem");
    }
    assert(!"diskfree"@.contains(LINE_FEED)) by {
        reveal_strlit("diskfree");
    }
    assert(!"load"@.contains(LINE_FEED)) by {
        reveal_strlit("load");
    }
    let l1 = gauge_line(prefix, "net-rx"@, info.net_rx as nat);
    let l2 = gauge_line(prefix, "net-tx"@, info.net_tx as nat);
    let l3 = gauge_line(prefix, "uptime"@, info.uptime as nat);
    let l4 = gauge_line(prefix, "availmem"@, info.avail_mem as nat);
    let l5 = gauge_line(prefix, "diskfree"@, info.disk_free as nat);
    let l6 = gauge_line(prefix, "load"@, info.load as nat);
    let r6 = Seq::<char>::empty();
    let r5 = l6 + r6;
    let r4 = l5 + r5;
    let r3 = l4 + r4;
    let r2 = l3 + r3;
    let r1 = l2 + r2;
    let r0 = l1 + r1;
    lemma_lines_after_gauge_line(prefix, "load"@, info.load as nat, r6);
    lemma_lines_after_gauge_line(prefix, "diskfree"@, info.disk_free as nat, r5);
    lemma_lines_after_gauge_line(prefix, "availmem"@, info.avail_mem as nat, r4);
    lemma_lines_after_gauge_line(prefix, "uptime"@, info.uptime as nat, r3);
    lemma_lines_after_gauge_line(prefix, "net-tx"@, info.net_tx as nat, r2);
    lemma_lines_after_gauge_line(prefix, "net-rx"@, info.net_rx as nat, r1);
    assert(info.encoded() == r0) by {
        assert(r5 =~= l6);
        assert(r4 =~= l5 + l6);
        assert(r3 =~= l4 + l5 + l6);
        assert(r2 =~= l3 + l4 + l5 + l6);
        assert(r1 =~= l2 + l3 + l4 + l5 + l6);
        assert(r0 =~= l1 + l2 + l3 + l4 + l5 + l6);
    }
    assert(lines(r6) == seq![r6]);
}

} // verus!
