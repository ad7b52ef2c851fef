use net_monitor::address::IpAddress;
use net_monitor::aggregate::compute_aggregate;
use net_monitor::aggregator::{
    append_icmp_synthetic, flush_snapshot, local_address_texts, snapshot_of, transport_of,
    Aggregator, Event, IcmpTotals, OwnedFlow, Step,
};
use net_monitor::alert::check_alert;
use net_monitor::data::{AutoKillEvent, ConnectionSnapshot, SOCKET_PATH};
use net_monitor::filter::apply_filters;
use net_monitor::history::{csv_escape, SessionHistory, MAX_HISTORY_RECORDS};
use net_monitor::output::{report, report_at};
use net_monitor::parser::{Protocol, RawPacket};
use net_monitor::proc_attr::ProcessInfo;
use net_monitor::process_control::{
    after_signal, new_process_limits, stop_log, term_target, PidLimitEntry, ProcessLimits,
};

const HERE: [u8; 4] = [10, 0, 0, 1];
const THERE: [u8; 4] = [8, 8, 8, 8];

fn packet(from: [u8; 4], to: [u8; 4], ports: (u16, u16), protocol: Protocol, length: u64) -> RawPacket {
    RawPacket {
        src_ip: IpAddress::V4(from),
        dst_ip: IpAddress::V4(to),
        src_port: ports.0,
        dst_port: ports.1,
        protocol,
        length,
    }
}

fn row(name: Option<&str>, pid: Option<u32>, user: Option<&str>, bytes: (u64, u64)) -> ConnectionSnapshot {
    ConnectionSnapshot {
        pid,
        process_name: name.map(|s| s.to_string()),
        username: user.map(|s| s.to_string()),
        src_ip: "10.0.0.1".to_string(),
        src_port: 40000,
        dst_ip: "8.8.8.8".to_string(),
        dst_port: 443,
        protocol: "TCP".to_string(),
        bytes_in_per_sec: bytes.0,
        bytes_out_per_sec: bytes.1,
        timestamp_unix: 1_700_000_000,
    }
}

fn unowned(a: &mut Aggregator, timestamp: i64) -> (Vec<OwnedFlow>, IcmpTotals) {
    let pending = a.drain_at(timestamp);
    let flows = pending.flows.into_iter().map(|flow| OwnedFlow { flow, owner: None }).collect();
    (flows, pending.icmp)
}

#[test]
fn packets_of_one_connection_are_counted_together() {
    let mut a = Aggregator::new(vec![IpAddress::V4(HERE)], 0);
    for length in [100, 20] {
        a.record(&packet(THERE, HERE, (443, 40000), Protocol::Tcp, length));
    }
    a.record(&packet(HERE, THERE, (40000, 443), Protocol::Tcp, 7));
    a.record(&packet(HERE, THERE, (40000, 443), Protocol::Udp, 9));
    let pending = a.drain_at(5);
    assert_eq!(pending.timestamp, 5);
    let mut seen: Vec<(String, u16, String, u64, u64)> = pending
        .flows
        .iter()
        .map(|f| {
            (f.key.src_ip.clone(), f.key.src_port, f.key.protocol.clone(), f.stats.bytes_in, f.stats.bytes_out)
        })
        .collect();
    seen.sort();
    assert_eq!(
        seen,
        vec![
            ("10.0.0.1".to_string(), 40000, "TCP".to_string(), 0, 7),
            ("10.0.0.1".to_string(), 40000, "UDP".to_string(), 0, 9),
            ("8.8.8.8".to_string(), 443, "TCP".to_string(), 120, 0),
        ]
    );
    assert!(!a.has_traffic());
}

#[test]
fn counters_stop_at_their_largest_value() {
    let mut a = Aggregator::new(vec![IpAddress::V4(HERE)], 0);
    a.record(&packet(THERE, HERE, (1, 2), Protocol::Sctp, u64::MAX - 1));
    a.record(&packet(THERE, HERE, (1, 2), Protocol::Sctp, 5));
    assert_eq!(a.flows[0].stats.bytes_in, u64::MAX);
}

#[test]
fn icmp_is_counted_by_version_and_direction() {
    let mut a = Aggregator::new(vec![IpAddress::V4(HERE)], 0);
    a.record(&packet(THERE, HERE, (8, 0), Protocol::Icmpv4, 64));
    a.record(&packet(HERE, THERE, (8, 0), Protocol::Icmpv4, 60));
    a.record(&packet(HERE, THERE, (8, 0), Protocol::Icmpv6, 50));
    assert_eq!((a.icmp.v4_in, a.icmp.v4_out, a.icmp.v6_in, a.icmp.v6_out), (64, 60, 0, 50));
    assert!(a.has_traffic());
    let (flows, icmp) = unowned(&mut a, 9);
    let rows = snapshot_of(flows, &icmp, 9);
    assert_eq!(rows.len(), 2);
    assert_eq!((rows[0].src_ip.as_str(), rows[0].dst_ip.as_str()), ("0.0.0.0", "0.0.0.0"));
    assert_eq!((rows[0].protocol.as_str(), rows[0].bytes_in_per_sec), ("ICMPv4", 64));
    assert_eq!((rows[1].src_ip.as_str(), rows[1].protocol.as_str()), ("::", "ICMPv6"));
    assert_eq!((rows[1].bytes_in_per_sec, rows[1].bytes_out_per_sec), (0, 50));
    assert_eq!((rows[1].src_port, rows[1].timestamp_unix, rows[1].pid), (0, 9, None));
    assert!(!a.has_traffic());
}

#[test]
fn no_icmp_gives_no_rows() {
    let mut rows = vec![row(None, None, None, (1, 1))];
    append_icmp_synthetic(&mut rows, &IcmpTotals::default(), 3);
    assert_eq!(rows.len(), 1);
    assert!(!IcmpTotals::default().any());
}

#[test]
fn events_lead_to_steps() {
    let mut a = Aggregator::new(vec![], 10);
    assert_eq!(a.wait(10), 1_000_000_000);
    assert_eq!(a.wait(2_000_000_000), 0);
    let p = packet(HERE, THERE, (1, 2), Protocol::Tcp, 3);
    assert_eq!(a.on_event(&Event::Packet(p), 11), Step::Continue);
    assert_eq!(a.on_event(&Event::Timeout, 1_000_000_010), Step::Flush);
    assert_eq!(a.on_event(&Event::Disconnected, 12), Step::Stop);
    assert_eq!(a.flows.len(), 1);
    a.reschedule(u64::MAX);
    assert_eq!(a.next_flush, u64::MAX);
}

#[test]
fn steady_traffic_does_not_hold_back_a_snapshot() {
    let mut a = Aggregator::new(vec![], 0);
    let mut flushes = Vec::new();
    for i in 1..=3000u64 {
        let now = i * 1_000_000;
        let p = packet(HERE, THERE, (1, 2), Protocol::Tcp, 1);
        match a.on_event(&Event::Packet(p), now) {
            Step::Flush => {
                let stats = &a.drain_at(0).flows[0].stats;
                flushes.push((i, stats.bytes_in + stats.bytes_out));
                a.reschedule(now);
            }
            step => assert_eq!(step, Step::Continue),
        }
    }
    assert_eq!(flushes, vec![(1000, 1000), (2000, 1000), (3000, 1000)]);
}

#[test]
fn draining_takes_the_time_of_the_clock() {
    let mut a = Aggregator::new(vec![], 0);
    let before = std::time::SystemTime::now()
        .duration_since(std::time::UNIX_EPOCH)
        .unwrap()
        .as_secs() as i64;
    let pending = a.drain();
    assert!(pending.timestamp >= before && pending.timestamp < before + 60);
}

#[test]
fn a_flush_does_everything_at_once() {
    let mut a = Aggregator::new(vec![IpAddress::V4(HERE)], 0);
    a.record(&packet(THERE, HERE, (443, 40000), Protocol::Tcp, 900));
    a.record(&packet(HERE, [1, 1, 1, 1], (40001, 53), Protocol::Udp, 80));
    let pending = a.drain_at(77);
    let flows: Vec<OwnedFlow> = pending
        .flows
        .into_iter()
        .map(|flow| {
            let owner = ProcessInfo { pid: 42, name: "curl".to_string(), username: "ann".to_string() };
            OwnedFlow { flow, owner: Some(owner) }
        })
        .collect();
    let mut history = SessionHistory::new();
    let mut limits = new_process_limits();
    limits.set_rate(42, 100);
    let flush = flush_snapshot(
        flows,
        &pending.icmp,
        77,
        Some("8.8.8.8"),
        None,
        Some(899),
        &mut history,
        &mut limits,
    );
    assert_eq!(flush.rows.len(), 1);
    assert_eq!(flush.rows[0].pid, Some(42));
    assert_eq!(flush.rows[0].username.as_deref(), Some("ann"));
    assert_eq!(history.len(), 1);
    assert_eq!(flush.aggregate.by_process[0].bytes_in_per_sec, 900);
    assert_eq!(flush.alert.unwrap().total_bytes_per_sec, 900);
    assert_eq!(flush.victims.len(), 1);
    assert_eq!((flush.victims[0].pid, flush.victims[0].reason.as_str()), (42, "rate"));
    assert_eq!(flush.victims[0].process_name.as_deref(), Some("curl"));
    assert_eq!((flush.victims[0].threshold_bps, flush.victims[0].observed_bps), (Some(100), Some(900)));
    assert_eq!(flush.victims[0].timestamp_unix, 77);
}

#[test]
fn without_a_threshold_there_is_no_alert() {
    let mut history = SessionHistory::new();
    let mut limits = new_process_limits();
    let flush = flush_snapshot(
        Vec::new(),
        &IcmpTotals { v4_in: 5, v4_out: 0, v6_in: 0, v6_out: 0 },
        1,
        None,
        None,
        None,
        &mut history,
        &mut limits,
    );
    assert!(flush.alert.is_none() && flush.victims.is_empty());
    assert_eq!(flush.rows.len(), 1);
}

#[test]
fn flow_protocols_are_recovered() {
    assert_eq!(transport_of("TCP"), Some(Protocol::Tcp));
    assert_eq!(transport_of("UDP"), Some(Protocol::Udp));
    assert_eq!(transport_of("SCTP"), Some(Protocol::Sctp));
    assert_eq!(transport_of("ICMPv4"), None);
    assert_eq!(transport_of("tcp"), None);
}

#[test]
fn local_addresses_are_found_in_ip_output() {
    let output = "2: eth0: <UP> mtu 1500\n    link/ether 02:00\n    inet 10.0.0.1/24 brd 10.0.0.255 scope global eth0\n    inet6 fe80::1/64 scope link\n    inet \n    inet 127.0.0.1\r\n";
    assert_eq!(
        local_address_texts(output),
        vec!["10.0.0.1".to_string(), "fe80::1".to_string(), "127.0.0.1".to_string()]
    );
    assert!(local_address_texts("").is_empty());
}

#[test]
fn rollups_group_by_process_and_protocol() {
    let mut rows = vec![
        row(Some("curl"), Some(1), Some("ann"), (10, 5)),
        row(Some("ssh"), Some(2), Some("bob"), (100, 0)),
        row(Some("curl"), Some(3), Some("ann"), (1, 1)),
        row(Some(""), None, None, (0, 3)),
    ];
    rows[1].protocol = "UDP".to_string();
    rows[3].protocol = String::new();
    let payload = compute_aggregate(&rows, 12);
    assert_eq!(payload.timestamp_unix, 12);
    let by: Vec<(&str, &str, u64, u64, u32)> = payload
        .by_process
        .iter()
        .map(|p| (p.process_label.as_str(), p.username.as_str(), p.bytes_in_per_sec, p.bytes_out_per_sec, p.flow_count))
        .collect();
    assert_eq!(
        by,
        vec![("ssh", "bob", 100, 0, 1), ("curl", "ann", 11, 6, 2), ("<unattributed>", "\u{2014}", 0, 3, 1)]
    );
    let protocols: Vec<(&str, u32)> =
        payload.by_protocol.iter().map(|p| (p.protocol.as_str(), p.flow_count)).collect();
    assert_eq!(protocols, vec![("UDP", 1), ("TCP", 2), ("?", 1)]);
}

#[test]
fn rollups_conserve_traffic() {
    let rows = vec![
        row(Some("a"), None, None, (1, 2)),
        row(Some("b"), None, None, (3, 4)),
        row(None, None, None, (5, 6)),
    ];
    let payload = compute_aggregate(&rows, 0);
    let total: u64 = payload.by_process.iter().map(|p| p.bytes_in_per_sec + p.bytes_out_per_sec).sum();
    assert_eq!(total, 21);
}

#[test]
fn alerts_are_raised_over_the_threshold_only() {
    let rows = vec![row(None, None, None, (600, 300)), row(None, None, None, (50, 50))];
    assert!(check_alert(&rows, 1000).is_none());
    let alert = check_alert(&rows, 999).unwrap();
    assert_eq!(alert.message, "ALERT: traffic 1000B/s exceeds threshold 999B/s");
    assert_eq!((alert.total_bytes_per_sec, alert.threshold), (1000, 999));
    assert_eq!(alert.timestamp_unix, 1_700_000_000);
    assert!(check_alert(&[], 0).is_none());
}

#[test]
fn filters_keep_either_end() {
    let mut other = row(None, None, None, (1, 1));
    other.src_ip = "1.2.3.4".to_string();
    other.dst_ip = "10.0.0.1".to_string();
    other.src_port = 443;
    other.dst_port = 9;
    let rows = vec![row(None, None, None, (2, 2)), other];
    assert_eq!(apply_filters(rows.clone(), None, None).len(), 2);
    assert_eq!(apply_filters(rows.clone(), Some("10.0.0.1"), None).len(), 2);
    assert_eq!(apply_filters(rows.clone(), Some("8.8.8.8"), None).len(), 1);
    assert_eq!(apply_filters(rows.clone(), None, Some(443)).len(), 2);
    let kept = apply_filters(rows.clone(), Some("1.2.3.4"), Some(9));
    assert_eq!(kept.len(), 1);
    assert_eq!(kept[0].bytes_in_per_sec, 1);
    assert_eq!(apply_filters(rows, Some("1.2.3.4"), Some(40000)).len(), 0);
}

#[test]
fn filtering_again_changes_nothing() {
    let rows = vec![row(None, None, None, (1, 0)), row(None, None, None, (2, 0))];
    let once = apply_filters(rows, Some("8.8.8.8"), Some(443));
    assert_eq!(once.len(), 2);
    assert_eq!(apply_filters(once, Some("8.8.8.8"), Some(443)).len(), 2);
}

#[test]
fn history_keeps_the_newest_records() {
    let mut history = SessionHistory::new();
    let batch: Vec<ConnectionSnapshot> =
        (0..MAX_HISTORY_RECORDS as u64 - 1).map(|i| row(None, None, None, (i, 0))).collect();
    history.push(&batch);
    assert_eq!(history.len(), MAX_HISTORY_RECORDS - 1);
    history.push(&[row(None, None, None, (1, 7)), row(None, None, None, (2, 7)), row(None, None, None, (3, 7))]);
    assert_eq!(history.len(), 18000);
    assert_eq!(history.records[0].bytes_in_per_sec, 2);
    assert_eq!(history.records[17999].bytes_in_per_sec, 3);
    history.push(&[]);
    assert_eq!(history.len(), 18000);
}

#[test]
fn history_in_two_batches_is_history_at_once() {
    let all: Vec<ConnectionSnapshot> = (0..5).map(|i| row(None, None, None, (i, 0))).collect();
    let mut one = SessionHistory::new();
    one.push(&all);
    let mut two = SessionHistory::new();
    two.push(&all[..2]);
    two.push(&all[2..]);
    assert_eq!(one.to_csv(), two.to_csv());
}

#[test]
fn csv_has_a_header_and_a_line_per_record() {
    let mut history = SessionHistory::new();
    let header = "timestamp_unix,pid,process_name,username,src_ip,src_port,dst_ip,dst_port,protocol,bytes_in_per_sec,bytes_out_per_sec\n";
    assert_eq!(history.to_csv(), header);
    let mut r = row(Some("a,\"b\""), Some(7), None, (1, 2));
    r.timestamp_unix = -3;
    history.push(&[r]);
    assert_eq!(
        history.to_csv(),
        format!("{header}-3,7,\"a,\"\"b\"\"\",,10.0.0.1,40000,8.8.8.8,443,TCP,1,2\n")
    );
}

#[test]
fn csv_fields_are_quoted_where_needed() {
    assert_eq!(csv_escape("plain"), "plain");
    assert_eq!(csv_escape("a,b"), "\"a,b\"");
    assert_eq!(csv_escape("say \"hi\""), "\"say \"\"hi\"\"\"");
    assert_eq!(csv_escape("two\nlines"), "\"two\nlines\"");
    assert_eq!(csv_escape(""), "");
}

#[test]
fn report_has_a_heading_and_a_line_per_row() {
    let rows = vec![row(Some("curl"), Some(42), Some("ann"), (10, 20)), row(Some("x"), Some(1), None, (0, 0))];
    assert_eq!(
        report_at("2024-01-31 18:05:09", &rows),
        vec![
            "[2024-01-31 18:05:09] 2 active connections".to_string(),
            "  curl (PID 42, user ann)  10.0.0.1:40000 -> 8.8.8.8:443  TCP  in=10 B/s out=20 B/s".to_string(),
            "  unknown (unattributed)  10.0.0.1:40000 -> 8.8.8.8:443  TCP  in=0 B/s out=0 B/s".to_string(),
        ]
    );
}

#[test]
fn report_shows_the_local_time() {
    let lines = report(&[]);
    assert_eq!(lines.len(), 1);
    let line = lines[0].as_str();
    assert!(line.ends_with("] 0 active connections"));
    let time = &line[1..20];
    let digits = time.chars().filter(|c| c.is_ascii_digit()).count();
    assert_eq!(digits, 14);
    assert_eq!((&time[4..5], &time[10..11], &time[13..14]), ("-", " ", ":"));
}

fn entry(limits: &ProcessLimits, pid: u32) -> PidLimitEntry {
    *limits.entries.get(&pid).unwrap()
}

#[test]
fn limits_are_kept_per_process() {
    let mut limits = new_process_limits();
    assert!(limits.entries.is_empty());
    limits.set_rate(10, 500);
    limits.set_total(10, 1000);
    limits.set_total(20, 30);
    assert_eq!(entry(&limits, 10).max_rate_bps, Some(500));
    assert_eq!(entry(&limits, 10).max_total_bytes, Some(1000));
    assert_eq!(entry(&limits, 20).max_rate_bps, None);
    limits.clear(10);
    assert!(!limits.entries.contains_key(&10));
    assert!(limits.entries.contains_key(&20));
    limits.clear(10);
    assert_eq!(limits.entries.len(), 1);
}

#[test]
fn setting_a_total_starts_to_count_anew() {
    let mut limits = new_process_limits();
    limits.set_total(5, 1000);
    let events = limits.over_limits(&[row(None, Some(5), None, (100, 50))], 1);
    assert!(events.is_empty());
    assert_eq!(entry(&limits, 5).accumulated_total_bytes, 150);
    limits.set_rate(5, 9);
    assert_eq!(entry(&limits, 5).accumulated_total_bytes, 150);
    limits.set_total(5, 2000);
    assert_eq!(entry(&limits, 5).accumulated_total_bytes, 0);
    assert_eq!(entry(&limits, 5).max_rate_bps, Some(9));
}

#[test]
fn a_total_must_exceed_its_cap() {
    let mut limits = new_process_limits();
    limits.set_total(5, 100);
    assert!(limits.over_limits(&[row(Some("dd"), Some(5), None, (60, 0))], 1).is_empty());
    assert!(limits.over_limits(&[row(Some("dd"), Some(5), None, (0, 40))], 2).is_empty());
    assert_eq!(entry(&limits, 5).accumulated_total_bytes, 100);
    let events = limits.over_limits(&[row(Some("dd"), Some(5), None, (1, 0))], 3);
    assert_eq!(events.len(), 1);
    assert_eq!(events[0].reason, "total");
    assert_eq!(events[0].threshold_total_bytes, Some(100));
    assert_eq!(events[0].observed_total_bytes, Some(101));
    assert_eq!((events[0].threshold_bps, events[0].observed_bps), (None, None));
}

#[test]
fn a_rate_must_be_exceeded_and_goes_first() {
    let mut limits = new_process_limits();
    limits.set_rate(5, 100);
    assert!(limits.over_limits(&[row(None, Some(5), None, (60, 40))], 1).is_empty());
    assert_eq!(entry(&limits, 5).accumulated_total_bytes, 0);
    limits.set_total(5, 1);
    let events = limits.over_limits(
        &[row(None, Some(5), None, (60, 41)), row(Some("late"), Some(5), None, (1, 0))],
        1,
    );
    assert_eq!(events.len(), 1);
    assert_eq!(events[0].reason, "rate");
    assert_eq!(events[0].observed_bps, Some(102));
    assert_eq!(events[0].process_name, None);
}

#[test]
fn rates_saturate_and_strangers_do_not_count() {
    let mut limits = new_process_limits();
    limits.set_total(5, u64::MAX - 1);
    let rows = vec![
        row(None, Some(6), None, (u64::MAX, 0)),
        row(None, None, None, (u64::MAX, 0)),
    ];
    assert!(limits.over_limits(&rows, 1).is_empty());
    let rows = vec![row(None, Some(5), None, (u64::MAX, 1)), row(None, Some(5), None, (1, 1))];
    let events = limits.over_limits(&rows, 1);
    assert_eq!(events[0].observed_total_bytes, Some(u64::MAX));
}

#[test]
fn every_process_over_a_limit_gets_one_event() {
    let mut limits = new_process_limits();
    for pid in 10..15 {
        limits.set_rate(pid, 1);
    }
    let rows: Vec<ConnectionSnapshot> = (10..14).map(|pid| row(None, Some(pid), None, (2, 0))).collect();
    let mut pids: Vec<u32> = limits.over_limits(&rows, 1).iter().map(|e| e.pid).collect();
    pids.sort();
    assert_eq!(pids, vec![10, 11, 12, 13]);
}

#[test]
fn protected_processes_are_not_signalled() {
    let privileged = "refusing to signal privileged or invalid PID".to_string();
    assert_eq!(term_target(0, 99), Err(privileged.clone()));
    assert_eq!(term_target(1, 99), Err(privileged.clone()));
    assert_eq!(term_target(99, 99), Err("refusing to terminate the net-monitor backend".to_string()));
    assert_eq!(term_target(2, 99), Ok(2));
    assert_eq!(term_target(i32::MAX as u32, 99), Ok(i32::MAX));
    for pid in [i32::MAX as u32 + 1, u32::MAX - 41, u32::MAX] {
        assert_eq!(term_target(pid, 99), Err(privileged.clone()));
    }
}

#[test]
fn socket_path() {
    assert_eq!(SOCKET_PATH, "/tmp/net-monitor.sock");
}

#[test]
fn no_byte_is_lost_in_a_snapshot() {
    let mut a = Aggregator::new(vec![IpAddress::V4(HERE)], 0);
    let mut sent = 0;
    for (i, protocol) in
        [Protocol::Tcp, Protocol::Icmpv4, Protocol::Udp, Protocol::Icmpv6, Protocol::Tcp].into_iter().enumerate()
    {
        let length = 10 * (i as u64 + 1);
        sent += length;
        let (from, to) = if i % 2 == 0 { (HERE, THERE) } else { (THERE, HERE) };
        a.record(&packet(from, to, (1, 2), protocol, length));
    }
    let (flows, icmp) = unowned(&mut a, 0);
    let rows = snapshot_of(flows, &icmp, 0);
    let counted: u64 = rows.iter().map(|r| r.bytes_in_per_sec + r.bytes_out_per_sec).sum();
    assert_eq!(counted, sent);
    assert_eq!(rows.len(), 4);
}

#[test]
fn the_order_of_packets_does_not_matter() {
    let packets = [
        packet(HERE, THERE, (1, 2), Protocol::Tcp, 5),
        packet(THERE, HERE, (2, 1), Protocol::Tcp, 7),
        packet(HERE, THERE, (1, 2), Protocol::Tcp, 11),
    ];
    let counts = |order: [usize; 3]| {
        let mut a = Aggregator::new(vec![IpAddress::V4(HERE)], 0);
        for i in order {
            a.record(&packets[i]);
        }
        let mut seen: Vec<(u16, u64, u64)> =
            a.flows.iter().map(|f| (f.key.src_port, f.stats.bytes_in, f.stats.bytes_out)).collect();
        seen.sort();
        seen
    };
    assert_eq!(counts([0, 1, 2]), vec![(1, 0, 16), (2, 7, 0)]);
    assert_eq!(counts([2, 1, 0]), counts([0, 1, 2]));
    assert_eq!(counts([1, 2, 0]), counts([0, 1, 2]));
}

#[test]
fn filters_can_be_applied_one_after_the_other() {
    let mut other = row(None, None, None, (1, 1));
    other.src_port = 9;
    other.dst_port = 10;
    let rows = vec![row(None, None, None, (2, 2)), other];
    let both = apply_filters(rows.clone(), Some("8.8.8.8"), Some(9));
    let first = apply_filters(rows, Some("8.8.8.8"), None);
    let second = apply_filters(first, None, Some(9));
    assert_eq!((both.len(), second.len()), (1, 1));
    assert_eq!(both[0].src_port, second[0].src_port);
}

#[test]
fn rate_and_total_can_be_set_in_any_order() {
    let mut one = new_process_limits();
    one.set_rate(5, 6);
    one.set_total(5, 7);
    let mut two = new_process_limits();
    two.set_total(5, 7);
    two.set_rate(5, 6);
    for limits in [&one, &two] {
        let e = entry(limits, 5);
        assert_eq!((e.max_rate_bps, e.max_total_bytes, e.accumulated_total_bytes), (Some(6), Some(7), 0));
    }
}

#[test]
fn a_stopped_process_is_not_stopped_again() {
    let mut limits = new_process_limits();
    limits.set_rate(5, 1);
    limits.set_rate(6, 1);
    let rows = vec![row(None, Some(5), None, (9, 0)), row(None, Some(6), None, (9, 0))];
    assert_eq!(limits.over_limits(&rows, 1).len(), 2);
    limits.clear(5);
    let again = limits.over_limits(&rows, 2);
    assert_eq!(again.len(), 1);
    assert_eq!(again[0].pid, 6);
}

#[test]
fn limits_are_lifted_only_once_the_signal_is_sent() {
    let mut limits = new_process_limits();
    limits.set_rate(5, 1);
    limits.set_total(6, 7);
    assert!(!after_signal(&mut limits, 5, false));
    assert_eq!(entry(&limits, 5).max_rate_bps, Some(1));
    assert!(after_signal(&mut limits, 5, true));
    assert!(!limits.entries.contains_key(&5));
    assert_eq!(entry(&limits, 6).max_total_bytes, Some(7));
    assert!(after_signal(&mut limits, 5, true));
}

#[test]
fn the_log_says_why_a_process_was_stopped() {
    let mut limits = new_process_limits();
    limits.set_rate(5, 100);
    limits.set_total(6, 100);
    let mut events = limits.over_limits(
        &[row(Some("dd"), Some(5), None, (60, 41)), row(None, Some(6), None, (102, 0))],
        1,
    );
    events.sort_by_key(|e| e.pid);
    let lines: Vec<String> = events.iter().map(stop_log).collect();
    assert_eq!(
        lines,
        vec![
            "net-monitor: auto-killed pid=5 (rate 101 B/s > limit Some(100) B/s)".to_string(),
            "net-monitor: auto-killed pid=6 (total 102 bytes >= cap Some(100) bytes)".to_string(),
        ]
    );
    let mut event = AutoKillEvent {
        pid: 7,
        process_name: None,
        reason: "rate".to_string(),
        threshold_bps: None,
        observed_bps: None,
        threshold_total_bytes: None,
        observed_total_bytes: None,
        timestamp_unix: 0,
    };
    assert_eq!(stop_log(&event), "net-monitor: auto-killed pid=7 (rate 0 B/s > limit None B/s)");
    event.reason = "total".to_string();
    assert_eq!(stop_log(&event), "net-monitor: auto-killed pid=7 (total 0 bytes >= cap None bytes)");
    event.reason = "Rate".to_string();
    assert_eq!(stop_log(&event), "net-monitor: auto-killed pid=7 (Rate)");
}

#[test]
fn rollups_do_not_depend_on_the_order_of_rows() {
    let rows = [
        row(Some("a"), None, None, (1, 2)),
        row(Some("b"), None, None, (30, 4)),
        row(Some("a"), None, None, (5, 6)),
        row(Some("c"), None, None, (7, 7)),
    ];
    let rollup = |order: [usize; 4]| {
        let permuted: Vec<ConnectionSnapshot> = order.iter().map(|i| rows[*i].clone()).collect();
        let groups: Vec<(String, u64, u64, u32)> = compute_aggregate(&permuted, 0)
            .by_process
            .into_iter()
            .map(|p| (p.process_label, p.bytes_in_per_sec, p.bytes_out_per_sec, p.flow_count))
            .collect();
        let sizes: Vec<u64> = groups.iter().map(|g| g.1 + g.2).collect();
        let mut sorted = groups;
        sorted.sort();
        (sizes, sorted)
    };
    assert_eq!(rollup([0, 1, 2, 3]).0, vec![34, 14, 14]);
    assert_eq!(rollup([3, 2, 1, 0]), rollup([0, 1, 2, 3]));
    assert_eq!(rollup([2, 3, 0, 1]), rollup([0, 1, 2, 3]));
}

fn read_csv(text: &str) -> Vec<Vec<String>> {
    let mut records = Vec::new();
    let mut record = Vec::new();
    let mut field = String::new();
    let mut quoted = false;
    let mut chars = text.chars().peekable();
    while let Some(c) = chars.next() {
        match c {
            '"' if quoted && chars.peek() == Some(&'"') => field.push(chars.next().unwrap()),
            '"' => quoted = !quoted,
            ',' if !quoted => record.push(std::mem::take(&mut field)),
            '\n' if !quoted => {
                record.push(std::mem::take(&mut field));
                records.push(std::mem::take(&mut record));
            }
            _ => field.push(c),
        }
    }
    records
}

#[test]
fn exported_records_read_back() {
    let names = ["plain", "a,b", "say \"hi\"", "two\nlines", "\"", ""];
    let mut history = SessionHistory::new();
    for name in names {
        history.push(&[row(Some(name), Some(3), Some(name), (1, 2))]);
    }
    let records = read_csv(&history.to_csv());
    assert_eq!(records.len(), names.len() + 1);
    for (record, name) in records[1..].iter().zip(names) {
        assert_eq!(
            record.iter().map(|s| s.as_str()).collect::<Vec<_>>(),
            vec!["1700000000", "3", name, name, "10.0.0.1", "40000", "8.8.8.8", "443", "TCP", "1", "2"]
        );
    }
}
