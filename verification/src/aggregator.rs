//! Counts packets into connections and, once per second, turns the counts into a snapshot.

use vstd::prelude::*;

use crate::address::{
    address_text, among, is_among, lemma_text_tells_addresses_apart, IpAddress,
};
use crate::aggregate::{all_totals, compute_aggregate, is_aggregate};
use crate::alert::{check_alert, is_alert};
use crate::clock::unix_now;
use crate::data::{
    rows_of, AggregatePayload, AlertEvent, AutoKillEvent, ConnectionKey, ConnectionSnapshot,
    ConnectionStats, KeyView, SnapshotView,
};
use crate::filter::{
    apply_filters, lemma_filter_contains, lemma_selected_rows, opt_str, selected_rows, selects,
};
use crate::history::{extended, SessionHistory};
use crate::parser::{protocol_name, Protocol, RawPacket};
use crate::proc_attr::{owner_view, ProcessInfo, ProcessView};
use crate::process_control::{enforced, ProcessLimits};
use crate::table::{
    distinct_keys, lemma_pairs_at, lemma_pairs_key, lemma_pairs_push, lemma_pairs_set, pairs_map,
};
use crate::text::{
    after_prefix, fields, is_blank, is_field, is_space, is_word, lemma_fields_join,
    lemma_prefix_is_cut, lemma_single_field, lemma_trim_end_append, lemma_trim_start_blank,
    lemma_words_after_word, lemma_words_of_word, lines, split, split_lines, split_whitespace,
    strip_prefix, texts, trim, trim_end, trimmed, words,
};

verus! {

/// How long a snapshot covers, in nanoseconds.
pub const FLUSH_INTERVAL_NANOS: u64 = 1_000_000_000;

/// The ICMP bytes since the last snapshot; they are not split into flows.
#[derive(Clone, Copy, Debug)]
pub struct IcmpTotals {
    pub v4_in: u64,
    pub v4_out: u64,
    pub v6_in: u64,
    pub v6_out: u64,
}

/// No ICMP traffic.
pub open spec fn no_icmp() -> IcmpTotals {
    IcmpTotals { v4_in: 0, v4_out: 0, v6_in: 0, v6_out: 0 }
}

impl Default for IcmpTotals {
    fn default() -> (t: Self)
        ensures
            t == no_icmp(),
    {
        IcmpTotals { v4_in: 0, v4_out: 0, v6_in: 0, v6_out: 0 }
    }
}

impl IcmpTotals {
    /// Whether there was any ICMP traffic.
    pub fn any(&self) -> (any: bool)
        ensures
            any == (*self != no_icmp()),
    {
        self.v4_in > 0 || self.v4_out > 0 || self.v6_in > 0 || self.v6_out > 0
    }
}

/// A row that stands for all ICMP traffic of one version of IP.
pub open spec fn icmp_row(
    address: Seq<char>,
    protocol: Seq<char>,
    bytes_in: u64,
    bytes_out: u64,
    timestamp: i64,
) -> SnapshotView {
    SnapshotView {
        pid: None,
        process_name: None,
        username: None,
        src_ip: address,
        src_port: 0,
        dst_ip: address,
        dst_port: 0,
        protocol,
        bytes_in_per_sec: bytes_in,
        bytes_out_per_sec: bytes_out,
        timestamp_unix: timestamp,
    }
}

/// One row for each version of IP that had ICMP traffic.
pub open spec fn icmp_rows(t: IcmpTotals, timestamp: i64) -> Seq<SnapshotView> {
    let v4 = if t.v4_in > 0 || t.v4_out > 0 {
        seq![icmp_row("0.0.0.0"@, "ICMPv4"@, t.v4_in, t.v4_out, timestamp)]
    } else {
        Seq::empty()
    };
    let v6 = if t.v6_in > 0 || t.v6_out > 0 {
        seq![icmp_row("::"@, "ICMPv6"@, t.v6_in, t.v6_out, timestamp)]
    } else {
        Seq::empty()
    };
    v4 + v6
}

fn icmp_snapshot(
    address: &str,
    protocol: &str,
    bytes_in: u64,
    bytes_out: u64,
    timestamp: i64,
) -> (row: ConnectionSnapshot)
    ensures
        row@ == icmp_row(address@, protocol@, bytes_in, bytes_out, timestamp),
{
    ConnectionSnapshot {
        pid: None,
        process_name: None,
        username: None,
        src_ip: address.to_owned(),
        src_port: 0,
        dst_ip: address.to_owned(),
        dst_port: 0,
        protocol: protocol.to_owned(),
        bytes_in_per_sec: bytes_in,
        bytes_out_per_sec: bytes_out,
        timestamp_unix: timestamp,
    }
}

/// Appends the rows for the ICMP traffic.
pub fn append_icmp_synthetic(snapshots: &mut Vec<ConnectionSnapshot>, t: &IcmpTotals, ts: i64)
    ensures
        rows_of(final(snapshots)@) == rows_of(old(snapshots)@) + icmp_rows(*t, ts),
{
    if t.v4_in > 0 || t.v4_out > 0 {
        snapshots.push(icmp_snapshot("0.0.0.0", "ICMPv4", t.v4_in, t.v4_out, ts));
    }
    if t.v6_in > 0 || t.v6_out > 0 {
        snapshots.push(icmp_snapshot("::", "ICMPv6", t.v6_in, t.v6_out, ts));
    }
    assert(rows_of(snapshots@) =~= rows_of(old(snapshots)@) + icmp_rows(*t, ts));
}

/// A connection and the bytes it carried.
#[derive(Debug)]
pub struct Flow {
    pub key: ConnectionKey,
    pub stats: ConnectionStats,
}

/// The connections with their bytes.
pub open spec fn flow_pairs(flows: Seq<Flow>) -> Seq<(KeyView, ConnectionStats)> {
    flows.map_values(|f: Flow| (f.key@, f.stats))
}

/// What the flows come to, by connection.
pub open spec fn flow_map(flows: Seq<Flow>) -> Map<KeyView, ConnectionStats> {
    pairs_map(flow_pairs(flows))
}

/// The transport protocol that a flow's protocol name stands for.
pub open spec fn transport_named(name: Seq<char>) -> Option<Protocol> {
    if name == "TCP"@ {
        Some(Protocol::Tcp)
    } else if name == "UDP"@ {
        Some(Protocol::Udp)
    } else if name == "SCTP"@ {
        Some(Protocol::Sctp)
    } else {
        None
    }
}

/// The transport protocol that a flow's protocol name stands for.
pub fn transport_of(name: &str) -> (protocol: Option<Protocol>)
    ensures
        protocol == transport_named(name@),
{
    if crate::text::same_text(name, "TCP") {
        Some(Protocol::Tcp)
    } else if crate::text::same_text(name, "UDP") {
        Some(Protocol::Udp)
    } else if crate::text::same_text(name, "SCTP") {
        Some(Protocol::Sctp)
    } else {
        None
    }
}

/// The sum, or the largest value that the counter can hold.
pub open spec fn topped_up(count: u64, more: u64) -> u64 {
    if count + more <= u64::MAX {
        (count + more) as u64
    } else {
        u64::MAX
    }
}

/// The counts of a connection after one more packet.
pub open spec fn counted(stats: ConnectionStats, incoming: bool, length: u64) -> ConnectionStats {
    if incoming {
        ConnectionStats { bytes_in: topped_up(stats.bytes_in, length), ..stats }
    } else {
        ConnectionStats { bytes_out: topped_up(stats.bytes_out, length), ..stats }
    }
}

/// The counts of a connection, or zeros.
pub open spec fn stats_of(flows: Map<KeyView, ConnectionStats>, key: KeyView) -> ConnectionStats {
    if flows.contains_key(key) {
        flows[key]
    } else {
        ConnectionStats { bytes_in: 0, bytes_out: 0 }
    }
}

/// The connection that a packet belongs to.
pub open spec fn key_of(packet: RawPacket) -> KeyView {
    KeyView {
        src_ip: address_text(packet.src_ip),
        dst_ip: address_text(packet.dst_ip),
        src_port: packet.src_port,
        dst_port: packet.dst_port,
        protocol: protocol_name(packet.protocol),
    }
}

/// What was counted since the last snapshot.
pub struct Tally {
    pub flows: Map<KeyView, ConnectionStats>,
    pub icmp: IcmpTotals,
}

/// Nothing was counted.
pub open spec fn nothing_counted() -> Tally {
    Tally { flows: Map::empty(), icmp: no_icmp() }
}

/// The tally after one more packet. A packet to one of the `local` addresses comes in;
/// any other goes out.
pub open spec fn tallied(t: Tally, local: Seq<IpAddress>, packet: RawPacket) -> Tally {
    let incoming = is_among(local, packet.dst_ip);
    match packet.protocol {
        Protocol::Icmpv4 => if incoming {
            Tally {
                icmp: IcmpTotals { v4_in: topped_up(t.icmp.v4_in, packet.length), ..t.icmp },
                ..t
            }
        } else {
            Tally {
                icmp: IcmpTotals { v4_out: topped_up(t.icmp.v4_out, packet.length), ..t.icmp },
                ..t
            }
        },
        Protocol::Icmpv6 => if incoming {
            Tally {
                icmp: IcmpTotals { v6_in: topped_up(t.icmp.v6_in, packet.length), ..t.icmp },
                ..t
            }
        } else {
            Tally {
                icmp: IcmpTotals { v6_out: topped_up(t.icmp.v6_out, packet.length), ..t.icmp },
                ..t
            }
        },
        _ => {
            let key = key_of(packet);
            Tally {
                flows: t.flows.insert(
                    key,
                    counted(stats_of(t.flows, key), incoming, packet.length),
                ),
                ..t
            }
        },
    }
}

/// How long it takes until a snapshot is due.
pub open spec fn time_left(due: u64, now: u64) -> u64 {
    if due >= now {
        (due - now) as u64
    } else {
        0
    }
}

/// The counts since the last snapshot, and the addresses of this machine.
pub struct Aggregator {
    pub local_ips: Vec<IpAddress>,
    pub flows: Vec<Flow>,
    pub icmp: IcmpTotals,
    /// When the next snapshot is due, in nanoseconds of the caller's clock.
    pub next_flush: u64,
}

impl View for Aggregator {
    type V = Tally;

    open spec fn view(&self) -> Tally {
        Tally { flows: flow_map(self.flows@), icmp: self.icmp }
    }
}

impl Aggregator {
    /// No connection is listed twice, and each has a transport protocol.
    pub open spec fn wf(self) -> bool {
        &&& distinct_keys(flow_pairs(self.flows@))
        &&& forall|i: int|
            0 <= i < self.flows@.len() ==> transport_named(
                (#[trigger] self.flows@[i]).key.protocol@,
            ) is Some
    }

    /// Starts to count at time `now`.
    pub fn new(local_ips: Vec<IpAddress>, now: u64) -> (a: Self)
        ensures
            a.wf(),
            a@ == nothing_counted(),
            a.local_ips@ == local_ips@,
            a.next_flush == topped_up(now, FLUSH_INTERVAL_NANOS),
    {
        Aggregator {
            local_ips,
            flows: Vec::new(),
            icmp: IcmpTotals::default(),
            next_flush: now.saturating_add(FLUSH_INTERVAL_NANOS),
        }
    }

    /// How long to wait for a packet before the next snapshot.
    pub fn wait(&self, now: u64) -> (nanos: u64)
        ensures
            nanos == time_left(self.next_flush, now),
            self.next_flush >= now ==> nanos == self.next_flush - now,
            self.next_flush < now ==> nanos == 0,
    {
        self.next_flush.saturating_sub(now)
    }

    /// Where the connection is listed.
    fn position(&self, key: &ConnectionKey) -> (at: Option<usize>)
        ensures
            match at {
                Some(i) => i < self.flows@.len() && self.flows@[i as int].key@ == key@,
                None => forall|i: int|
                    0 <= i < self.flows@.len() ==> (#[trigger] self.flows@[i]).key@ != key@,
            },
    {
        let mut i: usize = 0;
        while i < self.flows.len()
            invariant
                i <= self.flows.len(),
                forall|k: int| 0 <= k < i ==> (#[trigger] self.flows@[k]).key@ != key@,
            decreases self.flows.len() - i,
        {
            if self.flows[i].key.same(key) {
                return Some(i);
            }
            i = i + 1;
        }
        None
    }

    /// Counts bytes of a connection.
    fn count(&mut self, key: ConnectionKey, incoming: bool, length: u64)
        requires
            old(self).wf(),
            transport_named(key.protocol@) is Some,
        ensures
            final(self).wf(),
            final(self).local_ips == old(self).local_ips,
            final(self).next_flush == old(self).next_flush,
            final(self)@ == (Tally {
                flows: old(self)@.flows.insert(
                    key@,
                    counted(stats_of(old(self)@.flows, key@), incoming, length),
                ),
                ..old(self)@
            }),
    {
        let ghost before = self.flows@;
        let ghost pairs = flow_pairs(before);
        match self.position(&key) {
            Some(i) => {
                let stats = add_bytes(self.flows[i].stats, incoming, length);
                proof {
                    lemma_pairs_at(pairs, i as int);
                    lemma_pairs_set(pairs, i as int, stats);
                }
                self.flows.set(i, Flow { key, stats });
                assert(flow_pairs(self.flows@) =~= pairs.update(i as int, (key@, stats)));
                assert forall|k: int| 0 <= k < self.flows@.len() implies transport_named(
                    (#[trigger] self.flows@[k]).key.protocol@,
                ) is Some by {
                    assert(transport_named(before[k].key.protocol@) is Some);
                }
            },
            None => {
                let none = ConnectionStats { bytes_in: 0, bytes_out: 0 };
                let stats = add_bytes(none, incoming, length);
                proof {
                    assert forall|i: int| 0 <= i < pairs.len() implies (#[trigger] pairs[i]).0
                        != key@ by {
                        assert(before[i].key@ != key@);
                    }
                    lemma_pairs_push(pairs, key@, stats);
                }
                self.flows.push(Flow { key, stats });
                assert(flow_pairs(self.flows@) =~= pairs.push((key@, stats)));
                assert forall|k: int| 0 <= k < self.flows@.len() implies transport_named(
                    (#[trigger] self.flows@[k]).key.protocol@,
                ) is Some by {
                    if k < before.len() {
                        assert(before[k] == self.flows@[k]);
                    }
                }
            },
        }
    }

    /// Counts a packet.
    pub fn record(&mut self, packet: &RawPacket)
        requires
            old(self).wf(),
        ensures
            final(self).wf(),
            final(self).local_ips == old(self).local_ips,
            final(self).next_flush == old(self).next_flush,
            final(self)@ == tallied(old(self)@, old(self).local_ips@, *packet),
    {
        let incoming = among(&self.local_ips, &packet.dst_ip);
        match packet.protocol {
            Protocol::Icmpv4 => {
                if incoming {
                    self.icmp.v4_in = self.icmp.v4_in.saturating_add(packet.length);
                } else {
                    self.icmp.v4_out = self.icmp.v4_out.saturating_add(packet.length);
                }
            },
            Protocol::Icmpv6 => {
                if incoming {
                    self.icmp.v6_in = self.icmp.v6_in.saturating_add(packet.length);
                } else {
                    self.icmp.v6_out = self.icmp.v6_out.saturating_add(packet.length);
                }
            },
            Protocol::Tcp | Protocol::Udp | Protocol::Sctp => {
                let key = ConnectionKey {
                    src_ip: packet.src_ip.text(),
                    dst_ip: packet.dst_ip.text(),
                    src_port: packet.src_port,
                    dst_port: packet.dst_port,
                    protocol: packet.protocol.as_str().to_owned(),
                };
                self.count(key, incoming, packet.length);
            },
        }
    }
}

/// What the aggregator was waiting for.
pub enum Event {
    Packet(RawPacket),
    Timeout,
    Disconnected,
}

/// What is to be done next.
#[derive(Clone, Copy, Debug, PartialEq, Eq, Structural)]
pub enum Step {
    Continue,
    Flush,
    Stop,
}

/// What an event at time `now` leads to while the next snapshot is due at `due`.
pub open spec fn event_step(event: Event, now: u64, due: u64) -> Step {
    match event {
        Event::Packet(_) => if now >= due {
            Step::Flush
        } else {
            Step::Continue
        },
        Event::Timeout => Step::Flush,
        Event::Disconnected => Step::Stop,
    }
}

/// What was counted up to a snapshot.
pub struct Pending {
    pub timestamp: i64,
    pub flows: Vec<Flow>,
    pub icmp: IcmpTotals,
}

impl Aggregator {
    /// Counts a packet, asks for a snapshot when the second is over, and stops when no
    /// packet can come any more. The second ends at its time, however many packets wait.
    pub fn on_event(&mut self, event: &Event, now: u64) -> (step: Step)
        requires
            old(self).wf(),
        ensures
            final(self).wf(),
            match *event {
                Event::Packet(packet) => {
                    &&& step == if now >= old(self).next_flush {
                        Step::Flush
                    } else {
                        Step::Continue
                    }
                    &&& final(self)@ == tallied(old(self)@, old(self).local_ips@, packet)
                    &&& final(self).local_ips == old(self).local_ips
                    &&& final(self).next_flush == old(self).next_flush
                },
                Event::Timeout => step == Step::Flush && *final(self) == *old(self),
                Event::Disconnected => step == Step::Stop && *final(self) == *old(self),
            },
            step == event_step(*event, now, old(self).next_flush),
            step == Step::Continue ==> now < final(self).next_flush,
    {
        match event {
            Event::Packet(packet) => {
                self.record(packet);
                if now >= self.next_flush {
                    Step::Flush
                } else {
                    Step::Continue
                }
            },
            Event::Timeout => Step::Flush,
            Event::Disconnected => Step::Stop,
        }
    }

    /// Whether anything was counted since the last snapshot, so that there is a last one
    /// to take before the end.
    pub fn has_traffic(&self) -> (any: bool)
        ensures
            any == (self@ != nothing_counted()),
    {
        proof {
            let pairs = flow_pairs(self.flows@);
            if pairs.len() > 0 {
                assert(pairs_map(pairs).contains_key(pairs.last().0));
            }
        }
        self.flows.len() > 0 || self.icmp.any()
    }

    /// Hands over what was counted, under the given time, and starts from zero.
    pub fn drain_at(&mut self, timestamp: i64) -> (pending: Pending)
        requires
            old(self).wf(),
        ensures
            final(self).wf(),
            final(self)@ == nothing_counted(),
            final(self).local_ips == old(self).local_ips,
            final(self).next_flush == old(self).next_flush,
            pending.timestamp == timestamp,
            pending.flows == old(self).flows,
            pending.icmp == old(self).icmp,
    {
        let mut flows: Vec<Flow> = Vec::new();
        std::mem::swap(&mut flows, &mut self.flows);
        let icmp = self.icmp;
        self.icmp = IcmpTotals::default();
        Pending { timestamp, flows, icmp }
    }

    /// Hands over what was counted, under the time of the system's clock, and starts from
    /// zero.
    pub fn drain(&mut self) -> (pending: Pending)
        requires
            old(self).wf(),
        ensures
            final(self).wf(),
            final(self)@ == nothing_counted(),
            final(self).local_ips == old(self).local_ips,
            final(self).next_flush == old(self).next_flush,
            pending.timestamp >= 0,
            pending.flows == old(self).flows,
            pending.icmp == old(self).icmp,
    {
        self.drain_at(unix_now())
    }

    /// Makes the next snapshot due one interval after `now`.
    pub fn reschedule(&mut self, now: u64)
        ensures
            final(self).next_flush == topped_up(now, FLUSH_INTERVAL_NANOS),
            final(self).flows == old(self).flows,
            final(self).icmp == old(self).icmp,
            final(self).local_ips == old(self).local_ips,
    {
        self.next_flush = now.saturating_add(FLUSH_INTERVAL_NANOS);
    }
}

/// A flow and the process that it belongs to, as far as one was found.
pub struct OwnedFlow {
    pub flow: Flow,
    pub owner: Option<ProcessInfo>,
}

/// The row for a flow.
pub open spec fn flow_row(
    key: KeyView,
    stats: ConnectionStats,
    owner: Option<ProcessView>,
    timestamp: i64,
) -> SnapshotView {
    SnapshotView {
        pid: match owner {
            Some(p) => Some(p.pid),
            None => None,
        },
        process_name: match owner {
            Some(p) => Some(p.name),
            None => None,
        },
        username: match owner {
            Some(p) => Some(p.username),
            None => None,
        },
        src_ip: key.src_ip,
        src_port: key.src_port,
        dst_ip: key.dst_ip,
        dst_port: key.dst_port,
        protocol: key.protocol,
        bytes_in_per_sec: stats.bytes_in,
        bytes_out_per_sec: stats.bytes_out,
        timestamp_unix: timestamp,
    }
}

/// The rows for the flows, in their order.
pub open spec fn flow_rows(flows: Seq<OwnedFlow>, timestamp: i64) -> Seq<SnapshotView> {
    flows.map_values(
        |f: OwnedFlow| flow_row(f.flow.key@, f.flow.stats, owner_view(f.owner), timestamp),
    )
}

/// All rows of a snapshot: one for each flow, then those for the ICMP traffic.
pub open spec fn snapshot_rows(
    flows: Seq<OwnedFlow>,
    icmp: IcmpTotals,
    timestamp: i64,
) -> Seq<SnapshotView> {
    flow_rows(flows, timestamp) + icmp_rows(icmp, timestamp)
}

fn flow_snapshot(owned: OwnedFlow, timestamp: i64) -> (row: ConnectionSnapshot)
    ensures
        row@ == flow_row(owned.flow.key@, owned.flow.stats, owner_view(owned.owner), timestamp),
{
    let key = owned.flow.key;
    let stats = owned.flow.stats;
    let (pid, process_name, username): (Option<u32>, Option<String>, Option<String>) =
        match owned.owner {
        Some(p) => (Some(p.pid), Some(p.name), Some(p.username)),
        None => (None, None, None),
    };
    ConnectionSnapshot {
        pid,
        process_name,
        username,
        src_ip: key.src_ip,
        src_port: key.src_port,
        dst_ip: key.dst_ip,
        dst_port: key.dst_port,
        protocol: key.protocol,
        bytes_in_per_sec: stats.bytes_in,
        bytes_out_per_sec: stats.bytes_out,
        timestamp_unix: timestamp,
    }
}

/// The rows of a snapshot, before any filter.
pub fn snapshot_of(
    flows: Vec<OwnedFlow>,
    icmp: &IcmpTotals,
    timestamp: i64,
) -> (rows: Vec<ConnectionSnapshot>)
    ensures
        rows_of(rows@) == snapshot_rows(flows@, *icmp, timestamp),
{
    let ghost all = flows@;
    let mut rows: Vec<ConnectionSnapshot> = Vec::new();
    assert(rows_of(rows@) =~= flow_rows(all.take(0), timestamp));
    for owned in it: flows
        invariant
            it.seq() == all,
            rows_of(rows@) == flow_rows(all.take(it.index()), timestamp),
            it.index() == all.len() ==> rows_of(rows@) == flow_rows(all, timestamp),
    {
        let row = flow_snapshot(owned, timestamp);
        let ghost before = rows@;
        rows.push(row);
        proof {
            let i = it.index();
            assert(rows_of(rows@) =~= rows_of(before).push(row@));
            assert(all[i] == owned);
            assert(flow_rows(all.take(i + 1), timestamp) =~= flow_rows(
                all.take(i),
                timestamp,
            ).push(row@));
            if i + 1 == all.len() {
                assert(all.take(i + 1) =~= all);
            }
        }
    }
    append_icmp_synthetic(&mut rows, icmp, timestamp);
    rows
}

/// What a snapshot leads to.
pub struct Flush {
    pub rows: Vec<ConnectionSnapshot>,
    pub aggregate: AggregatePayload,
    pub alert: Option<AlertEvent>,
    pub victims: Vec<AutoKillEvent>,
}

/// What a snapshot with these rows leads to: the rows that the filters select, their rollup,
/// and an alert if there is a threshold and they are over it.
pub open spec fn is_flush(
    flush: Flush,
    all: Seq<SnapshotView>,
    timestamp: i64,
    filter: (Option<Seq<char>>, Option<u16>),
    alert_threshold: Option<u64>,
) -> bool {
    let rows = rows_of(flush.rows@);
    &&& rows == selected_rows(all, filter.0, filter.1)
    &&& is_aggregate(flush.aggregate, rows, timestamp)
    &&& match alert_threshold {
        Some(threshold) => is_alert(flush.alert, rows, threshold),
        None => flush.alert is None,
    }
}

/// Takes a snapshot: builds the rows, keeps those that the filters select, adds them to
/// the history, rolls them up, raises an alert if they are over the threshold, and counts
/// them against the limits of the processes.
pub fn flush_snapshot(
    flows: Vec<OwnedFlow>,
    icmp: &IcmpTotals,
    timestamp: i64,
    filter_ip: Option<&str>,
    filter_port: Option<u16>,
    alert_threshold: Option<u64>,
    history: &mut SessionHistory,
    limits: &mut ProcessLimits,
) -> (flush: Flush)
    ensures
        is_flush(
            flush,
            snapshot_rows(flows@, *icmp, timestamp),
            timestamp,
            (opt_str(filter_ip), filter_port),
            alert_threshold,
        ),
        final(history).records@ == extended(old(history).records@, flush.rows@),
        enforced(old(limits)@, final(limits)@, rows_of(flush.rows@), timestamp, flush.victims@),
{
    let rows = snapshot_of(flows, icmp, timestamp);
    proof {
        lemma_selected_rows(rows@, opt_str(filter_ip), filter_port);
    }
    let rows = apply_filters(rows, filter_ip, filter_port);
    history.push(rows.as_slice());
    let aggregate = compute_aggregate(rows.as_slice(), timestamp);
    let alert = match alert_threshold {
        Some(threshold) => check_alert(rows.as_slice(), threshold),
        None => None,
    };
    let victims = limits.over_limits(rows.as_slice(), timestamp);
    Flush { rows, aggregate, alert, victims }
}

fn add_bytes(stats: ConnectionStats, incoming: bool, length: u64) -> (sum: ConnectionStats)
    ensures
        sum == counted(stats, incoming, length),
{
    if incoming {
        ConnectionStats { bytes_in: stats.bytes_in.saturating_add(length), ..stats }
    } else {
        ConnectionStats { bytes_out: stats.bytes_out.saturating_add(length), ..stats }
    }
}

/// The address text that follows `prefix` in a line of `ip addr`: the first word, up to
/// the slash before the prefix length.
pub open spec fn address_after(line: Seq<char>, prefix: Seq<char>) -> Option<Seq<char>> {
    match after_prefix(line, prefix) {
        Some(rest) => if words(rest).len() > 0 {
            Some(fields(words(rest)[0], '/')[0])
        } else {
            None
        },
        None => None,
    }
}

/// The address text in a line of the output of `ip addr show`.
pub open spec fn line_address(line: Seq<char>) -> Option<Seq<char>> {
    match after_prefix(trimmed(line), "inet "@) {
        Some(_) => address_after(trimmed(line), "inet "@),
        None => address_after(trimmed(line), "inet6 "@),
    }
}

/// The address texts in the lines, in their order.
pub open spec fn line_addresses(all: Seq<Seq<char>>) -> Seq<Seq<char>>
    decreases all.len(),
{
    if all.len() == 0 {
        Seq::empty()
    } else {
        let before = line_addresses(all.drop_last());
        match line_address(all.last()) {
            Some(text) => before.push(text),
            None => before,
        }
    }
}

/// The first word of a text, up to the first slash.
fn first_address(rest: &str) -> (text: Option<String>)
    ensures
        match text {
            Some(t) => words(rest@).len() > 0 && t@ == fields(words(rest@)[0], '/')[0],
            None => words(rest@).len() == 0,
        },
{
    let parts = split_whitespace(rest);
    if parts.len() == 0 {
        assert(texts(parts@).len() == 0);
        return None;
    }
    assert(texts(parts@)[0] == parts@[0]@);
    let pieces = split(parts[0].as_str(), '/');
    assert(texts(pieces@)[0] == pieces@[0]@);
    Some(pieces[0].clone())
}

/// The address texts in the output of `ip addr show`.
pub fn local_address_texts(output: &str) -> (found: Vec<String>)
    ensures
        texts(found@) == line_addresses(lines(output@)),
{
    let all = split_lines(output);
    let ghost seen = lines(output@);
    let mut found: Vec<String> = Vec::new();
    let mut i: usize = 0;
    assert(texts(found@) =~= line_addresses(seen.take(0)));
    while i < all.len()
        invariant
            i <= all.len(),
            seen == texts(all@),
            texts(found@) == line_addresses(seen.take(i as int)),
        decreases all.len() - i,
    {
        let trimmed_line = trim(all[i].as_str());
        assert(seen[i as int] == all@[i as int]@);
        assert(seen.take(i + 1).drop_last() =~= seen.take(i as int));
        assert(seen.take(i + 1).last() == seen[i as int]);
        let text = match strip_prefix(trimmed_line.as_str(), "inet ") {
            Some(rest) => first_address(rest.as_str()),
            None => match strip_prefix(trimmed_line.as_str(), "inet6 ") {
                Some(rest) => first_address(rest.as_str()),
                None => None,
            },
        };
        assert(crate::text::opt_text(text) == line_address(seen[i as int]));
        let ghost before = texts(found@);
        if let Some(t) = text {
            found.push(t);
            assert(texts(found@) =~= before.push(t@));
        }
        i = i + 1;
    }
    assert(seen.take(i as int) =~= seen);
    found
}

/// The tally of a sequence of packets.
pub open spec fn tally_of(packets: Seq<RawPacket>, local: Seq<IpAddress>) -> Tally
    decreases packets.len(),
{
    if packets.len() == 0 {
        nothing_counted()
    } else {
        tallied(tally_of(packets.drop_last(), local), local, packets.last())
    }
}

/// Whether packets of the protocol are counted by connection.
pub open spec fn is_transport(protocol: Protocol) -> bool {
    protocol is Tcp || protocol is Udp || protocol is Sctp
}

/// Whether the packet is of the connection.
pub open spec fn is_of(packet: RawPacket, key: KeyView) -> bool {
    is_transport(packet.protocol) && key_of(packet) == key
}

/// Whether some packet is of the connection.
pub open spec fn has_packet(packets: Seq<RawPacket>, key: KeyView) -> bool {
    exists|i: int| 0 <= i < packets.len() && is_of(#[trigger] packets[i], key)
}

/// The length of all packets that `of` picks in one direction.
pub open spec fn bytes_where(
    packets: Seq<RawPacket>,
    local: Seq<IpAddress>,
    incoming: bool,
    of: spec_fn(RawPacket) -> bool,
) -> nat
    decreases packets.len(),
{
    if packets.len() == 0 {
        0
    } else {
        let p = packets.last();
        let before = bytes_where(packets.drop_last(), local, incoming, of);
        if of(p) && is_among(local, p.dst_ip) == incoming {
            before + p.length as nat
        } else {
            before
        }
    }
}

/// The number, or the largest value that a counter can hold.
pub open spec fn counter_value(n: nat) -> u64 {
    if n <= u64::MAX {
        n as u64
    } else {
        u64::MAX
    }
}

/// Every connection of the tally had a packet, every packet is in the tally, and each
/// counter holds the bytes of its packets in its direction, whatever their order.
pub proof fn lemma_tally_sums_packets(packets: Seq<RawPacket>, local: Seq<IpAddress>, key: KeyView)
    ensures
        tally_of(packets, local).flows.contains_key(key) == has_packet(packets, key),
        stats_of(tally_of(packets, local).flows, key) == (ConnectionStats {
            bytes_in: counter_value(
                bytes_where(packets, local, true, |p: RawPacket| is_of(p, key)),
            ),
            bytes_out: counter_value(
                bytes_where(packets, local, false, |p: RawPacket| is_of(p, key)),
            ),
        }),
    decreases packets.len(),
{
    if packets.len() > 0 {
        let front = packets.drop_last();
        let p = packets.last();
        lemma_tally_sums_packets(front, local, key);
        if has_packet(front, key) {
            let i = choose|i: int| 0 <= i < front.len() && is_of(#[trigger] front[i], key);
            assert(packets[i] == front[i]);
        }
        if is_of(p, key) {
            assert(packets[packets.len() - 1] == p);
        }
        if has_packet(packets, key) && !is_of(p, key) {
            let i = choose|i: int| 0 <= i < packets.len() && is_of(#[trigger] packets[i], key);
            assert(front[i] == packets[i]);
        }
    }
}

/// Each ICMP counter holds the bytes of the packets of its version and direction.
pub proof fn lemma_tally_sums_icmp(packets: Seq<RawPacket>, local: Seq<IpAddress>)
    ensures
        tally_of(packets, local).icmp == (IcmpTotals {
            v4_in: counter_value(
                bytes_where(packets, local, true, |p: RawPacket| p.protocol is Icmpv4),
            ),
            v4_out: counter_value(
                bytes_where(packets, local, false, |p: RawPacket| p.protocol is Icmpv4),
            ),
            v6_in: counter_value(
                bytes_where(packets, local, true, |p: RawPacket| p.protocol is Icmpv6),
            ),
            v6_out: counter_value(
                bytes_where(packets, local, false, |p: RawPacket| p.protocol is Icmpv6),
            ),
        }),
    decreases packets.len(),
{
    if packets.len() > 0 {
        lemma_tally_sums_icmp(packets.drop_last(), local);
    }
}

/// Packets are counted together only if they have the same addresses, ports and protocol.
pub proof fn lemma_key_tells_packets_apart(p: RawPacket, q: RawPacket)
    requires
        is_transport(p.protocol),
        is_transport(q.protocol),
        key_of(p) == key_of(q),
    ensures
        p.src_ip@ == q.src_ip@,
        p.dst_ip@ == q.dst_ip@,
        p.src_port == q.src_port,
        p.dst_port == q.dst_port,
        p.protocol == q.protocol,
{
    lemma_text_tells_addresses_apart(p.src_ip, q.src_ip);
    lemma_text_tells_addresses_apart(p.dst_ip, q.dst_ip);
    lemma_transport_reads_back(p.protocol);
    lemma_transport_reads_back(q.protocol);
}

/// The protocol of a flow is recovered from its name.
pub proof fn lemma_transport_reads_back(protocol: Protocol)
    requires
        is_transport(protocol),
    ensures
        transport_named(protocol_name(protocol)) == Some(protocol),
{
    reveal_strlit("TCP");
    reveal_strlit("UDP");
    reveal_strlit("SCTP");
    assert("TCP"@[0] != "UDP"@[0]);
    assert("TCP"@.len() != "SCTP"@.len());
    assert("UDP"@.len() != "SCTP"@.len());
}

/// The bytes that the flows carried in one direction.
pub open spec fn carried(flows: Seq<OwnedFlow>, incoming: bool) -> int
    decreases flows.len(),
{
    if flows.len() == 0 {
        0
    } else {
        let stats = flows.last().flow.stats;
        carried(flows.drop_last(), incoming) + if incoming {
            stats.bytes_in
        } else {
            stats.bytes_out
        }
    }
}

proof fn lemma_flow_rows_conserve(flows: Seq<OwnedFlow>, timestamp: i64)
    ensures
        all_totals(flow_rows(flows, timestamp)).bytes_in == carried(flows, true),
        all_totals(flow_rows(flows, timestamp)).bytes_out == carried(flows, false),
        all_totals(flow_rows(flows, timestamp)).flows == flows.len(),
    decreases flows.len(),
{
    if flows.len() > 0 {
        lemma_flow_rows_conserve(flows.drop_last(), timestamp);
        assert(flow_rows(flows, timestamp).drop_last() =~= flow_rows(flows.drop_last(), timestamp));
    }
}

/// No byte that was counted is lost or doubled in the snapshot: the rows together carry
/// what the flows and the ICMP totals hold, and there is one row for each flow.
pub proof fn lemma_snapshot_conserves_bytes(
    flows: Seq<OwnedFlow>,
    icmp: IcmpTotals,
    timestamp: i64,
)
    ensures
        all_totals(snapshot_rows(flows, icmp, timestamp)).bytes_in == carried(flows, true)
            + icmp.v4_in + icmp.v6_in,
        all_totals(snapshot_rows(flows, icmp, timestamp)).bytes_out == carried(flows, false)
            + icmp.v4_out + icmp.v6_out,
        all_totals(snapshot_rows(flows, icmp, timestamp)).flows == flows.len() + icmp_rows(
            icmp,
            timestamp,
        ).len(),
{
    let rows = flow_rows(flows, timestamp);
    let extra = icmp_rows(icmp, timestamp);
    lemma_flow_rows_conserve(flows, timestamp);
    let all = snapshot_rows(flows, icmp, timestamp);
    if extra.len() == 0 {
        assert(all =~= rows);
    } else if extra.len() == 1 {
        assert(all.drop_last() =~= rows);
        assert(all.last() == extra[0]);
    } else {
        reveal_with_fuel(all_totals, 3);
        assert(all.last() == extra[1]);
        assert(all.drop_last().last() == extra[0]);
        assert(all.drop_last().drop_last() =~= rows);
    }
}

/// A counter adds up as numbers do until it is full, and then stays full.
pub proof fn lemma_counters_add_up(count: u64, more: u64)
    ensures
        count + more <= u64::MAX ==> topped_up(count, more) == count + more,
        count + more > u64::MAX ==> topped_up(count, more) == u64::MAX,
{
}

/// A packet of a connection is counted for that connection: for the addresses, ports and
/// protocol of the packet, each in its own place, and in the direction that its receiver
/// decides. Nothing else changes.
pub proof fn lemma_packet_is_counted(
    t: Tally,
    local: Seq<IpAddress>,
    packet: RawPacket,
    key: KeyView,
    other: KeyView,
)
    requires
        packet.protocol == Protocol::Tcp || packet.protocol == Protocol::Udp || packet.protocol
            == Protocol::Sctp,
        key.src_ip == address_text(packet.src_ip),
        key.dst_ip == address_text(packet.dst_ip),
        key.src_port == packet.src_port,
        key.dst_port == packet.dst_port,
        key.protocol == protocol_name(packet.protocol),
        other != key,
    ensures
        ({
            let after = tallied(t, local, packet);
            let known = t.flows.contains_key(key);
            let bytes_in = if known { 0 + t.flows[key].bytes_in } else { 0 };
            let bytes_out = if known { 0 + t.flows[key].bytes_out } else { 0 };
            let incoming = exists|i: int|
                0 <= i < local.len() && (#[trigger] local[i])@ == packet.dst_ip@;
            &&& after.flows.contains_key(key)
            &&& incoming && bytes_in + packet.length <= u64::MAX ==> after.flows[key].bytes_in
                == bytes_in + packet.length
            &&& incoming && bytes_in + packet.length > u64::MAX ==> after.flows[key].bytes_in
                == u64::MAX
            &&& incoming ==> after.flows[key].bytes_out == bytes_out
            &&& !incoming && bytes_out + packet.length <= u64::MAX ==> after.flows[key].bytes_out
                == bytes_out + packet.length
            &&& !incoming && bytes_out + packet.length > u64::MAX ==> after.flows[key].bytes_out
                == u64::MAX
            &&& !incoming ==> after.flows[key].bytes_in == bytes_in
            &&& after.flows.contains_key(other) == t.flows.contains_key(other)
            &&& t.flows.contains_key(other) ==> after.flows[other] == t.flows[other]
            &&& after.icmp == t.icmp
        }),
{
    assert(key == key_of(packet));
}

/// An ICMP message is counted by its version and by the direction that its receiver decides,
/// and for no connection.
pub proof fn lemma_icmp_is_counted(t: Tally, local: Seq<IpAddress>, packet: RawPacket)
    requires
        packet.protocol == Protocol::Icmpv4 || packet.protocol == Protocol::Icmpv6,
    ensures
        ({
            let after = tallied(t, local, packet);
            let incoming = exists|i: int|
                0 <= i < local.len() && (#[trigger] local[i])@ == packet.dst_ip@;
            let old_version = packet.protocol == Protocol::Icmpv4;
            let n = packet.length;
            &&& after.flows == t.flows
            &&& after.icmp.v4_in == t.icmp.v4_in || (old_version && incoming)
            &&& after.icmp.v4_out == t.icmp.v4_out || (old_version && !incoming)
            &&& after.icmp.v6_in == t.icmp.v6_in || (!old_version && incoming)
            &&& after.icmp.v6_out == t.icmp.v6_out || (!old_version && !incoming)
            &&& old_version && incoming && t.icmp.v4_in + n <= u64::MAX ==> after.icmp.v4_in
                == t.icmp.v4_in + n
            &&& old_version && !incoming && t.icmp.v4_out + n <= u64::MAX ==> after.icmp.v4_out
                == t.icmp.v4_out + n
            &&& !old_version && incoming && t.icmp.v6_in + n <= u64::MAX ==> after.icmp.v6_in
                == t.icmp.v6_in + n
            &&& !old_version && !incoming && t.icmp.v6_out + n <= u64::MAX ==> after.icmp.v6_out
                == t.icmp.v6_out + n
        }),
{
}

/// The row of a flow belongs to the connection of that flow, with its bytes and its owner:
/// the source and the destination, the bytes in and out, each in its own place.
pub proof fn lemma_row_is_of_its_flow(
    flows: Seq<OwnedFlow>,
    icmp: IcmpTotals,
    timestamp: i64,
    i: int,
)
    requires
        0 <= i < flows.len(),
    ensures
        snapshot_rows(flows, icmp, timestamp).len() >= flows.len(),
        ({
            let row = snapshot_rows(flows, icmp, timestamp)[i];
            let flow = flows[i].flow;
            &&& row.src_ip == flow.key.src_ip@
            &&& row.src_port == flow.key.src_port
            &&& row.dst_ip == flow.key.dst_ip@
            &&& row.dst_port == flow.key.dst_port
            &&& row.protocol == flow.key.protocol@
            &&& row.bytes_in_per_sec == flow.stats.bytes_in
            &&& row.bytes_out_per_sec == flow.stats.bytes_out
            &&& row.timestamp_unix == timestamp
            &&& match flows[i].owner {
                Some(p) => {
                    &&& row.pid == Some(p.pid)
                    &&& row.process_name == Some(p.name@)
                    &&& row.username == Some(p.username@)
                },
                None => row.pid is None && row.process_name is None && row.username is None,
            }
        }),
{
}

/// A packet on an idle machine gives one row, with the ends of the packet and its length in
/// the column of its direction.
pub proof fn lemma_packet_to_row(
    packet: RawPacket,
    local: Seq<IpAddress>,
    owned: OwnedFlow,
    timestamp: i64,
)
    requires
        packet.protocol == Protocol::Tcp || packet.protocol == Protocol::Udp || packet.protocol
            == Protocol::Sctp,
        pairs_map(seq![(owned.flow.key@, owned.flow.stats)]) == tallied(
            nothing_counted(),
            local,
            packet,
        ).flows,
    ensures
        ({
            let rows = snapshot_rows(
                seq![owned],
                tallied(nothing_counted(), local, packet).icmp,
                timestamp,
            );
            let incoming = exists|i: int|
                0 <= i < local.len() && (#[trigger] local[i])@ == packet.dst_ip@;
            &&& rows.len() == 1
            &&& rows[0].src_ip == address_text(packet.src_ip)
            &&& rows[0].dst_ip == address_text(packet.dst_ip)
            &&& rows[0].src_port == packet.src_port
            &&& rows[0].dst_port == packet.dst_port
            &&& rows[0].protocol == protocol_name(packet.protocol)
            &&& rows[0].bytes_in_per_sec == if incoming { packet.length } else { 0 }
            &&& rows[0].bytes_out_per_sec == if incoming { 0 } else { packet.length }
        }),
{
    let pairs = seq![(owned.flow.key@, owned.flow.stats)];
    let key = key_of(packet);
    assert(pairs.drop_last() =~= Seq::empty());
    reveal_with_fuel(pairs_map, 2);
    assert(pairs.last() == (owned.flow.key@, owned.flow.stats));
    assert(pairs_map(pairs) == Map::empty().insert(owned.flow.key@, owned.flow.stats));
    assert(pairs_map(pairs).contains_key(key));
    assert(owned.flow.key@ == key);
    assert(owned.flow.stats == pairs_map(pairs)[key]);
    lemma_row_is_of_its_flow(seq![owned], no_icmp(), timestamp, 0);
    assert(icmp_rows(no_icmp(), timestamp) =~= Seq::empty());
}

/// There is a row for the ICMP traffic of a version exactly if there was any, behind all
/// flows and without an owner, with the bytes of that version and direction.
pub proof fn lemma_icmp_has_its_rows(flows: Seq<OwnedFlow>, icmp: IcmpTotals, timestamp: i64)
    ensures
        ({
            let rows = snapshot_rows(flows, icmp, timestamp);
            let v4 = icmp.v4_in > 0 || icmp.v4_out > 0;
            let v6 = icmp.v6_in > 0 || icmp.v6_out > 0;
            let n = flows.len();
            &&& rows.len() == n + (if v4 { 1int } else { 0 }) + (if v6 { 1int } else { 0 })
            &&& v4 ==> {
                let row = rows[n + 0int];
                &&& row.protocol == "ICMPv4"@
                &&& row.src_ip == "0.0.0.0"@ && row.dst_ip == "0.0.0.0"@
                &&& row.bytes_in_per_sec == icmp.v4_in
                &&& row.bytes_out_per_sec == icmp.v4_out
            }
            &&& v6 ==> {
                let row = rows[rows.len() - 1];
                &&& row.protocol == "ICMPv6"@
                &&& row.src_ip == "::"@ && row.dst_ip == "::"@
                &&& row.bytes_in_per_sec == icmp.v6_in
                &&& row.bytes_out_per_sec == icmp.v6_out
            }
            &&& forall|i: int|
                n <= i < rows.len() ==> {
                    let row = #[trigger] rows[i];
                    &&& row.pid is None && row.process_name is None && row.username is None
                    &&& row.src_port == 0 && row.dst_port == 0
                    &&& row.timestamp_unix == timestamp
                }
        }),
{
}

/// However many packets come, a snapshot is taken as soon as its second is over, and not
/// before; without packets it is taken when the wait is over. The end comes only when no
/// packet can come any more.
pub proof fn lemma_second_ends_on_time(packet: RawPacket, other: RawPacket, now: u64, due: u64)
    ensures
        event_step(Event::Packet(packet), now, due) == Step::Flush <==> now >= due,
        event_step(Event::Packet(packet), now, due) == Step::Continue <==> now < due,
        event_step(Event::Packet(packet), now, due) == event_step(Event::Packet(other), now, due),
        event_step(Event::Timeout, now, due) == Step::Flush,
        event_step(Event::Disconnected, now, due) == Step::Stop,
        now + 1_000_000_000 <= u64::MAX ==> topped_up(now, FLUSH_INTERVAL_NANOS) == now
            + 1_000_000_000,
{
}

/// An address of this machine is found in its line of `ip addr show`: the text between the
/// keyword and the slash or, without one, the next white space, whatever stands around it.
pub proof fn lemma_local_address_is_found(
    lead: Seq<char>,
    six: bool,
    address: Seq<char>,
    net: Option<Seq<char>>,
    tail: Seq<char>,
)
    requires
        is_blank(lead),
        is_word(address),
        is_field(address, '/'),
        net matches Some(n) ==> is_word(n),
    ensures
        ({
            let keyword = if six { "inet6 "@ } else { "inet "@ };
            let word = match net {
                Some(n) => address + seq!['/'] + n,
                None => address,
            };
            line_address(lead + keyword + word + seq![' '] + tail) == Some(address)
        }),
{
    reveal_strlit("inet ");
    reveal_strlit("inet6 ");
    let keyword = if six { "inet6 "@ } else { "inet "@ };
    let word = match net {
        Some(n) => address + seq!['/'] + n,
        None => address,
    };
    let start = keyword + word;
    let more = seq![' '] + tail;
    let line = lead + keyword + word + seq![' '] + tail;
    assert(line =~= lead + (start + more));
    assert(is_word(word));
    assert(start.last() == word.last());
    assert(word[word.len() - 1] == word.last());
    lemma_trim_start_blank(lead, start + more);
    lemma_trim_end_append(start, more);
    let kept = trim_end(more);
    let rest = word + kept;
    let t = trimmed(line);
    assert(t =~= keyword + rest);
    lemma_prefix_is_cut(keyword, rest, t);
    if six {
        if "inet "@.is_prefix_of(t) {
            assert(t[4] == "inet "@[4]);
            assert(t[4] == keyword[4]);
        }
    }
    lemma_trim_end_is_prefix(more);
    if kept.len() == 0 {
        assert(rest =~= word);
        lemma_words_of_word(word);
    } else {
        assert(kept[0] == ' ');
        assert(rest =~= word + seq![' '] + kept.skip(1));
        assert(is_space(' '));
        lemma_words_after_word(word, ' ', kept.skip(1));
    }
    assert(words(rest)[0] == word);
    lemma_single_field(address, '/');
    if let Some(n) = net {
        lemma_fields_join(address, n, '/');
    }
    assert(fields(word, '/')[0] == address);
}

/// Only the lines of addresses give one.
pub proof fn lemma_other_lines_give_no_address(line: Seq<char>)
    requires
        !"inet "@.is_prefix_of(trimmed(line)),
        !"inet6 "@.is_prefix_of(trimmed(line)),
    ensures
        line_address(line) is None,
{
}

/// How long to wait is how long it takes until the snapshot is due, and no time once it is.
pub proof fn lemma_wait_ends_when_due(due: u64, now: u64)
    ensures
        due >= now ==> time_left(due, now) == due - now,
        due < now ==> time_left(due, now) == 0,
{
}

proof fn lemma_trim_end_is_prefix(s: Seq<char>)
    ensures
        trim_end(s).len() <= s.len(),
        trim_end(s) == s.take(trim_end(s).len() as int),
    decreases s.len(),
{
    if s.len() > 0 && is_space(s.last()) {
        lemma_trim_end_is_prefix(s.drop_last());
        let n = trim_end(s.drop_last()).len() as int;
        assert(s.drop_last().take(n) =~= s.take(n));
    } else {
        assert(s.take(s.len() as int) =~= s);
    }
}

/// The addresses in an output are those in its lines, in their order: each line gives its
/// own, if it has one, and none depends on the others.
pub proof fn lemma_every_line_gives_its_address(
    a: Seq<Seq<char>>,
    b: Seq<Seq<char>>,
    line: Seq<char>,
)
    ensures
        line_addresses(a + b) == line_addresses(a) + line_addresses(b),
        line_address(line) matches Some(text) ==> line_addresses(seq![line]) == seq![text],
        line_address(line) is None ==> line_addresses(seq![line]) == Seq::<Seq<char>>::empty(),
    decreases b.len(),
{
    reveal_with_fuel(line_addresses, 2);
    assert(seq![line].drop_last() =~= Seq::empty());
    assert(seq![line].last() == line);
    assert(line_addresses(Seq::<Seq<char>>::empty()) =~= Seq::empty());
    if line_address(line) is Some {
        assert(line_addresses(seq![line]) =~= seq![line_address(line)->0]);
    }
    if b.len() == 0 {
        assert(a + b =~= a);
        assert(line_addresses(a) + line_addresses(b) =~= line_addresses(a));
    } else {
        lemma_every_line_gives_its_address(a, b.drop_last(), line);
        assert((a + b).drop_last() =~= a + b.drop_last());
        assert((a + b).last() == b.last());
        assert(line_addresses(a + b) =~= line_addresses(a) + line_addresses(b));
    }
}

/// The tally of an aggregator holds its flows, each under its own connection, and its ICMP
/// counters, and nothing else.
pub proof fn lemma_tally_is_seen(a: Aggregator, i: int, key: KeyView)
    requires
        a.wf(),
    ensures
        a@.icmp == a.icmp,
        0 <= i < a.flows@.len() ==> a@.flows.contains_key(a.flows@[i].key@) && a@.flows[
            a.flows@[i].key@
        ] == a.flows@[i].stats,
        a@.flows.contains_key(key) ==> exists|k: int|
            0 <= k < a.flows@.len() && (#[trigger] a.flows@[k]).key@ == key,
{
    let pairs = flow_pairs(a.flows@);
    if 0 <= i < a.flows@.len() {
        lemma_pairs_at(pairs, i);
        assert(pairs[i] == (a.flows@[i].key@, a.flows@[i].stats));
    }
    if a@.flows.contains_key(key) {
        lemma_pairs_key(pairs, key);
        let k = choose|k: int| 0 <= k < pairs.len() && (#[trigger] pairs[k]).0 == key;
        assert(a.flows@[k].key@ == key);
    }
}

/// Only the name of a protocol stands for it.
pub proof fn lemma_only_names_stand_for_protocols(name: Seq<char>, protocol: Protocol)
    ensures
        transport_named(name) == Some(protocol) ==> name == protocol_name(protocol)
            && is_transport(protocol),
        is_transport(protocol) && name == protocol_name(protocol) ==> transport_named(name)
            == Some(protocol),
{
    if is_transport(protocol) {
        lemma_transport_reads_back(protocol);
    }
}

/// A snapshot publishes exactly the rows that the filters select, all of them without
/// filters. An alert is raised exactly if a threshold is set and the published rows carry
/// more than that, and the rollup has the time of the snapshot.
pub proof fn lemma_snapshot_is_published(
    flush: Flush,
    all: Seq<SnapshotView>,
    timestamp: i64,
    filter: (Option<Seq<char>>, Option<u16>),
    alert_threshold: Option<u64>,
    row: SnapshotView,
)
    requires
        is_flush(flush, all, timestamp, filter, alert_threshold),
        all_totals(rows_of(flush.rows@)).bytes_in + all_totals(rows_of(flush.rows@)).bytes_out
            <= u64::MAX,
    ensures
        rows_of(flush.rows@).contains(row) <==> all.contains(row) && (filter.0 matches Some(ip)
            ==> row.src_ip == ip || row.dst_ip == ip) && (filter.1 matches Some(port)
            ==> row.src_port == port || row.dst_port == port),
        filter.0 is None && filter.1 is None ==> rows_of(flush.rows@) == all,
        flush.alert is Some <==> (alert_threshold matches Some(threshold) && all_totals(
            rows_of(flush.rows@),
        ).bytes_in + all_totals(rows_of(flush.rows@)).bytes_out > threshold),
        flush.aggregate.timestamp_unix == timestamp,
{
    lemma_filter_contains(all, |r: SnapshotView| selects(filter.0, filter.1, r), row);
    if filter.0 is None && filter.1 is None {
        lemma_all_rows_are_kept(all);
    }
}

proof fn lemma_all_rows_are_kept(rows: Seq<SnapshotView>)
    ensures
        selected_rows(rows, None, None) == rows,
    decreases rows.len(),
{
    reveal(Seq::filter);
    if rows.len() > 0 {
        lemma_all_rows_are_kept(rows.drop_last());
        assert(rows =~= rows.drop_last().push(rows.last()));
    }
}

} // verus!
