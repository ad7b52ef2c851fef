use net_monitor::chart::Samples;
use net_monitor::data::{
    AggregatePayload, AlertEvent, AutoKillEvent, ConnectionSnapshot, KnownPidLimit, MainTab, Message,
    ProcessRollup, SortMode, HISTORY_LEN,
};
use net_monitor::export::export_file_name;
use net_monitor::monitor::{find_in, Action, NetMonitor, Notice};
use net_monitor::view::{
    byte_scale, confirm_text, describe_limit, fmt_bytes, fmt_bytes_total, header_totals, is_busy,
    menu_of, protocol_class, row_cells, stop_offer, Amounts, ByteScale, ProtocolClass, Readiness,
};

const SEC: u64 = 1_000_000_000;

fn row(name: Option<&str>, pid: Option<u32>, src_port: u16, bytes: (u64, u64)) -> ConnectionSnapshot {
    ConnectionSnapshot {
        pid,
        process_name: name.map(|s| s.to_string()),
        username: Some("Ann".to_string()),
        src_ip: "10.0.0.1".to_string(),
        src_port,
        dst_ip: "FE80::1".to_string(),
        dst_port: 443,
        protocol: "TCP".to_string(),
        bytes_in_per_sec: bytes.0,
        bytes_out_per_sec: bytes.1,
        timestamp_unix: 0,
    }
}

fn rollup(label: &str, bytes: (u64, u64)) -> ProcessRollup {
    ProcessRollup {
        process_label: label.to_string(),
        username: "ann".to_string(),
        bytes_in_per_sec: bytes.0,
        bytes_out_per_sec: bytes.1,
        flow_count: 1,
    }
}

fn payload(by_process: Vec<ProcessRollup>) -> AggregatePayload {
    AggregatePayload { timestamp_unix: 1, by_process, by_protocol: Vec::new() }
}

fn killed(reason: &str) -> AutoKillEvent {
    AutoKillEvent {
        pid: 42,
        process_name: None,
        reason: reason.to_string(),
        threshold_bps: Some(1),
        observed_bps: Some(2),
        threshold_total_bytes: None,
        observed_total_bytes: Some(4),
        timestamp_unix: -5,
    }
}

fn ports(m: &NetMonitor) -> Vec<u16> {
    m.sorted_rows().iter().map(|r| r.src_port).collect()
}

fn notice(m: &NetMonitor) -> String {
    m.export_status.as_ref().unwrap().notice.text("X", "Y")
}

#[test]
fn a_new_monitor_has_heard_nothing() {
    let m = NetMonitor::new(7);
    assert!(m.table.is_empty() && m.is_monitoring && !m.connected(7));
    assert_eq!(m.iface_name, "\u{2026}");
    assert_eq!((m.sort_mode, m.active_tab), (SortMode::OutDesc, MainTab::Connections));
    assert_eq!(m.session_start, Some(7));
    assert_eq!(m.readiness(), Readiness::WaitingForBackend);
}

#[test]
fn rows_are_sorted_as_chosen() {
    let mut m = NetMonitor::new(0);
    let rows = vec![
        row(Some("zsh"), Some(30), 1, (5, 1)),
        row(None, None, 2, (9, 2)),
        row(Some("Abc"), Some(20), 3, (1, 3)),
        row(Some("abc"), Some(10), 4, (1, 3)),
    ];
    m.apply_snapshots(rows, 0);
    assert_eq!(ports(&m), vec![3, 4, 2, 1]);
    m.update(Message::SetSort(SortMode::InDesc), 0);
    assert_eq!(ports(&m), vec![2, 1, 3, 4]);
    m.update(Message::SetSort(SortMode::PidAsc), 0);
    assert_eq!(ports(&m), vec![2, 4, 3, 1]);
    m.update(Message::SetSort(SortMode::ProcessAsc), 0);
    assert_eq!(ports(&m), vec![2, 3, 4, 1]);
}

#[test]
fn the_filter_ignores_case_and_looks_everywhere() {
    let mut m = NetMonitor::new(0);
    m.apply_snapshots(
        vec![row(Some("Caf\u{c9}"), Some(1), 8080, (0, 0)), row(Some("sshd"), None, 22, (0, 0))],
        0,
    );
    let mut shown = |text: &str| {
        m.update(Message::SetFilter(text.to_string()), 0);
        ports(&m)
    };
    assert_eq!(shown("caf\u{e9}"), vec![8080]);
    assert_eq!(shown("SSH"), vec![22]);
    assert_eq!(shown("808"), vec![8080]);
    assert_eq!(shown("fe80"), vec![8080, 22]);
    assert_eq!(shown("ANN"), vec![8080, 22]);
    assert_eq!(shown("10.0."), vec![8080, 22]);
    assert_eq!(shown("43"), vec![8080, 22]);
    assert_eq!(shown("nobody"), Vec::<u16>::new());
    assert_eq!(shown(""), vec![8080, 22]);
}

#[test]
fn the_filter_is_searched_in_each_text() {
    assert!(find_in("b", "abc", "", "", "", 0, 0));
    assert!(find_in("b", "", "abc", "", "", 0, 0));
    assert!(find_in("b", "", "", "abc", "", 0, 0));
    assert!(find_in("b", "", "", "", "abc", 0, 0));
    assert!(find_in("23", "", "", "", "", 1234, 0));
    assert!(find_in("23", "", "", "", "", 0, 1234));
    assert!(!find_in("x", "abc", "abc", "abc", "abc", 1, 2));
    assert!(find_in("", "", "", "", "", 1, 2));
}

#[test]
fn a_connection_is_in_the_table_once() {
    let mut m = NetMonitor::new(0);
    m.apply_snapshots(vec![row(None, None, 1, (1, 0)), row(None, None, 1, (2, 0))], 0);
    assert_eq!(m.table.len(), 1);
    assert_eq!(m.table[0].snapshot.bytes_in_per_sec, 2);
    m.apply_snapshots(vec![row(None, None, 1, (3, 0)), row(None, None, 2, (4, 0))], SEC);
    assert_eq!(m.table.len(), 2);
    assert_eq!((m.table[0].snapshot.bytes_in_per_sec, m.table[0].last_seen), (3, SEC));
}

#[test]
fn silent_connections_leave_after_three_seconds() {
    let mut m = NetMonitor::new(0);
    m.apply_snapshots(vec![row(None, None, 1, (1, 0))], 0);
    m.apply_snapshots(vec![row(None, None, 2, (1, 0))], 3 * SEC - 1);
    assert_eq!(m.table.len(), 2);
    m.apply_snapshots(vec![row(None, None, 2, (1, 0))], 3 * SEC);
    assert_eq!(m.table.len(), 1);
    assert_eq!(m.table[0].snapshot.src_port, 2);
    assert!(m.connected(6 * SEC - 1));
    assert!(!m.connected(6 * SEC));
}

#[test]
fn the_scroll_position_stays_on_a_row() {
    let mut m = NetMonitor::new(0);
    m.scroll = 5;
    m.apply_snapshots(vec![row(None, None, 1, (1, 0)), row(None, None, 2, (1, 0))], 0);
    assert_eq!(m.scroll, 1);
    m.filter_text = "nothing like it".to_string();
    m.apply_snapshots(Vec::new(), 1);
    assert_eq!(m.scroll, 0);
}

#[test]
fn ticks_expire_alerts_and_notices() {
    let mut m = NetMonitor::new(0);
    let alert = AlertEvent {
        timestamp_unix: 0,
        total_bytes_per_sec: 2,
        threshold: 1,
        message: "much".to_string(),
    };
    assert_eq!(m.update(Message::AlertReceived(alert), SEC), Action::Nothing);
    m.update(Message::KillRequestDone(Ok(())), SEC);
    assert_eq!(m.update(Message::Tick, 5 * SEC), Action::Poll);
    assert!(m.active_alert.is_some() && m.export_status.is_some());
    m.update(Message::Tick, 5 * SEC + 1);
    assert!(m.active_alert.is_some() && m.export_status.is_none());
    m.update(Message::Tick, 6 * SEC + 1);
    assert!(m.active_alert.is_none() && m.alert_arrived_at.is_none());
}

#[test]
fn alerts_can_be_dismissed() {
    let mut m = NetMonitor::new(0);
    let alert = AlertEvent { timestamp_unix: 0, total_bytes_per_sec: 2, threshold: 1, message: String::new() };
    m.update(Message::AlertReceived(alert), 0);
    m.update(Message::DismissAlert, 0);
    assert!(m.active_alert.is_none());
}

#[test]
fn session_totals_add_up_and_reset() {
    let mut m = NetMonitor::new(0);
    m.update(Message::AggregateData(payload(vec![rollup("a", (1, 2)), rollup("b", (10, 0))])), 0);
    m.update(Message::AggregateData(payload(vec![rollup("a", (u64::MAX, 5))])), 0);
    assert_eq!(m.session_totals.len(), 2);
    assert_eq!((m.session_totals[0].bytes_in, m.session_totals[0].bytes_out), (u64::MAX, 7));
    assert_eq!(m.totals_order(), vec![0, 1]);
    assert!(m.latest_aggregate.is_some());
    m.update(Message::ResetSessionTotals, 0);
    assert!(m.session_totals.is_empty());
    m.update(Message::AggregateData(payload(vec![rollup("a", (1, 2)), rollup("b", (10, 0))])), 0);
    assert_eq!(m.totals_order(), vec![1, 0]);
}

#[test]
fn tabs_and_menus() {
    let mut m = NetMonitor::new(0);
    m.update(Message::ShowContextMenu(row(None, None, 1, (0, 0))), 0);
    assert!(m.context_menu.is_some());
    m.update(Message::SetTab(MainTab::Limits), 0);
    assert!(m.context_menu.is_none());
    assert_eq!(m.active_tab, MainTab::Limits);
    m.update(Message::IfaceMeta("wlan0".to_string()), 0);
    assert_eq!(m.iface_name, "wlan0");
}

#[test]
fn monitoring_can_be_stopped() {
    let mut m = NetMonitor::new(0);
    assert_eq!(m.tick_millis(), Some(250));
    m.update(Message::ToggleMonitor, 0);
    assert_eq!(m.tick_millis(), None);
}

#[test]
fn stopping_a_process_must_be_confirmed() {
    let mut m = NetMonitor::new(0);
    assert_eq!(m.update(Message::ConfirmKillProcess, 0), Action::Nothing);
    m.update(Message::OpenKillConfirm { pid: 1, label: "init".to_string() }, 0);
    assert!(m.kill_pending.is_none());
    m.update(Message::OpenKillConfirm { pid: 42, label: "x".to_string() }, 0);
    m.update(Message::CancelKillConfirm, 0);
    assert_eq!(m.update(Message::ConfirmKillProcess, 0), Action::Nothing);
    m.update(Message::OpenKillConfirm { pid: 42, label: "x".to_string() }, 0);
    assert_eq!(m.update(Message::ConfirmKillProcess, 0), Action::Kill { pid: 42 });
    assert!(m.kill_pending.is_none());
}

#[test]
fn limits_are_entered_read_and_set() {
    let mut m = NetMonitor::new(0);
    m.update(Message::LimitPidInput(" 1 ".to_string()), 0);
    assert_eq!(m.update(Message::SubmitLimit, 0), Action::Nothing);
    assert_eq!(notice(&m), "\u{2717} Invalid PID (need integer > 1)");
    m.update(Message::LimitPidInput(" 42 ".to_string()), 0);
    assert_eq!(m.update(Message::SubmitLimit, 0), Action::ReadRate { pid: 42 });
    assert_eq!(m.rate_read(42, None, 0), Action::Nothing);
    assert_eq!(notice(&m), "\u{2717} Invalid MB/s (need positive number)");
    assert_eq!(m.rate_read(42, Some(5), 0), Action::SetRate { pid: 42, bps: 5 });
    assert_eq!(m.update(Message::SubmitTotalLimit, 0), Action::ReadTotal { pid: 42 });
    assert_eq!(m.total_read(42, None, 0), Action::Nothing);
    assert_eq!(notice(&m), "\u{2717} Invalid total MB (need positive number)");
    assert_eq!(m.total_read(42, Some(6), 0), Action::SetTotal { pid: 42, max_bytes: 6 });
    m.update(Message::LimitMbpsInput("10".to_string()), 0);
    m.update(Message::LimitSetDone(Ok((42, 5))), 0);
    assert_eq!(notice(&m), "\u{2713} Rate limit set: PID 42 at X MB/s");
    assert!(m.limit_pid_input.is_empty() && m.limit_mbps_input.is_empty());
    m.update(Message::LimitTotalMbInput("10".to_string()), 0);
    m.update(Message::LimitTotalSetDone(Ok((42, 6))), 0);
    assert_eq!(notice(&m), "\u{2713} Total cap set: PID 42 at X MB cumulative");
    assert!(m.limit_total_mb_input.is_empty());
    assert_eq!(m.known_limits[&42].rate_bps, Some(5));
    assert_eq!(m.known_limits[&42].total_max_bytes, Some(6));
    assert_eq!(m.update(Message::RemoveLimitPid(42), 0), Action::ClearLimits { pid: 42 });
    m.update(Message::LimitClearDone(Ok(42)), 0);
    assert!(m.known_limits.is_empty());
    assert_eq!(notice(&m), "\u{2713} Cleared limit for PID 42");
}

#[test]
fn an_automatic_stop_lifts_the_known_limits() {
    let mut m = NetMonitor::new(0);
    m.update(Message::LimitSetDone(Ok((42, 5))), 0);
    m.update(Message::LimitSetDone(Ok((43, 5))), 0);
    m.update(Message::AutoKillReceived(killed("rate")), 0);
    assert!(!m.known_limits.contains_key(&42) && m.known_limits.contains_key(&43));
    assert_eq!(
        notice(&m),
        "\u{26a0} [-5] Auto-stopped PID 42 ((unknown)) \u{2014} X MB/s exceeded rate cap Y MB/s"
    );
    let status = m.export_status.as_ref().unwrap();
    assert_eq!(status.notice.amounts(), Amounts::FixedPair(2, 1));
    assert!(!status.notice.success());
    let total = Notice::AutoStopped(killed("total"));
    assert_eq!(total.amounts(), Amounts::FixedPair(4, 0));
    assert_eq!(
        total.text("X", "Y"),
        "\u{26a0} [-5] Auto-stopped PID 42 ((unknown)) \u{2014} cumulative X MB reached cap Y MB"
    );
}

#[test]
fn notices_tell_success_from_failure() {
    let e = || "why".to_string();
    for (n, text, amounts) in [
        (Notice::Exported("f.csv".to_string()), "\u{2713} Exported to f.csv", Amounts::Zero),
        (Notice::ExportFailed(e()), "\u{2717} Export failed: why", Amounts::Zero),
        (Notice::StopRequested, "\u{2713} Process sent SIGTERM (stop requested)", Amounts::Zero),
        (Notice::StopFailed(e()), "\u{2717} Stop failed: why", Amounts::Zero),
        (Notice::RateSet { pid: 2, bps: 9 }, "\u{2713} Rate limit set: PID 2 at 1 MB/s", Amounts::Plain(9)),
        (Notice::RateFailed(e()), "\u{2717} Limit set failed: why", Amounts::Zero),
        (
            Notice::TotalSet { pid: 2, max_bytes: 8 },
            "\u{2713} Total cap set: PID 2 at 1 MB cumulative",
            Amounts::Fixed(8),
        ),
        (Notice::TotalFailed(e()), "\u{2717} Total cap set failed: why", Amounts::Zero),
        (Notice::ClearFailed(e()), "\u{2717} Clear limit failed: why", Amounts::Zero),
    ] {
        assert_eq!(n.text("1", "2"), text);
        assert_eq!(n.amounts(), amounts);
        assert_eq!(n.success(), text.starts_with('\u{2713}'));
    }
}

#[test]
fn failures_are_reported() {
    let mut m = NetMonitor::new(0);
    assert_eq!(m.update(Message::ExportCsv, 0), Action::Export);
    m.update(Message::ExportResult(Ok("a.csv".to_string())), 0);
    assert_eq!(notice(&m), "\u{2713} Exported to a.csv");
    m.update(Message::ExportResult(Err("disk".to_string())), 0);
    assert_eq!(notice(&m), "\u{2717} Export failed: disk");
    m.update(Message::KillRequestDone(Err("no".to_string())), 0);
    assert_eq!(notice(&m), "\u{2717} Stop failed: no");
    m.update(Message::LimitSetDone(Err("a".to_string())), 0);
    assert_eq!(notice(&m), "\u{2717} Limit set failed: a");
    m.update(Message::LimitTotalSetDone(Err("b".to_string())), 0);
    assert_eq!(notice(&m), "\u{2717} Total cap set failed: b");
    m.update(Message::LimitClearDone(Err("c".to_string())), 0);
    assert_eq!(notice(&m), "\u{2717} Clear limit failed: c");
}

#[test]
fn known_limits_are_listed_by_process() {
    let mut m = NetMonitor::new(0);
    m.update(Message::LimitSetDone(Ok((300, 5))), 0);
    m.update(Message::LimitTotalSetDone(Ok((20, 6))), 0);
    m.known_limits.insert(100, KnownPidLimit::default());
    let rows: Vec<u32> = m.limit_rows().iter().map(|r| r.0).collect();
    assert_eq!(rows, vec![20, 300]);
    let both = KnownPidLimit { rate_bps: Some(1), total_max_bytes: Some(2) };
    assert_eq!(describe_limit(&both, "1.000", "2.000"), "rate \u{2264} 1.000 MB/s  |  total \u{2264} 2.000 MB");
    let rate = KnownPidLimit { rate_bps: Some(1), total_max_bytes: None };
    assert_eq!(describe_limit(&rate, "1.000", ""), "rate \u{2264} 1.000 MB/s");
    let total = KnownPidLimit { rate_bps: None, total_max_bytes: Some(1) };
    assert_eq!(describe_limit(&total, "", "2.000"), "total \u{2264} 2.000 MB");
    assert_eq!(describe_limit(&KnownPidLimit::default(), "", ""), "");
}

#[test]
fn bytes_are_shown_in_a_fitting_unit() {
    assert_eq!(byte_scale(999), ByteScale::One);
    assert_eq!(byte_scale(1_000), ByteScale::Kilo);
    assert_eq!(byte_scale(999_999), ByteScale::Kilo);
    assert_eq!(byte_scale(1_000_000), ByteScale::Mega);
    assert_eq!(fmt_bytes(12, "ignored"), "12 B/s");
    assert_eq!(fmt_bytes(1_500, "1.5"), "1.5 KB/s");
    assert_eq!(fmt_bytes(2_500_000, "2.5"), "2.5 MB/s");
    assert_eq!(fmt_bytes_total(12, ""), "12 B");
    assert_eq!(fmt_bytes_total(2_500_000, "2.5"), "2.5 MB");
}

#[test]
fn cells_and_offers() {
    let r = row(None, None, 9, (0, 0));
    let cells = row_cells(&r);
    assert_eq!((cells.pid.as_str(), cells.process.as_str(), cells.user.as_str()), ("\u{2014}", "\u{2014}", "Ann"));
    assert_eq!((cells.source.as_str(), cells.destination.as_str()), ("10.0.0.1:9", "FE80::1:443"));
    assert_eq!(stop_offer(&r), None);
    assert_eq!(stop_offer(&row(Some("init"), Some(1), 9, (0, 0))), None);
    assert_eq!(stop_offer(&row(None, Some(2), 9, (0, 0))), Some((2, "(unknown)".to_string())));
    let cells = row_cells(&row(Some("vim"), Some(77), 9, (0, 0)));
    assert_eq!((cells.pid.as_str(), cells.process.as_str()), ("77", "vim"));
}

#[test]
fn the_menu_offers_filters() {
    let menu = menu_of(&row(None, Some(2), 9, (0, 0)));
    assert_eq!((menu.user_label.as_str(), menu.user_filter.as_str()), ("Filter by user: Ann", "Ann"));
    assert_eq!(
        (menu.process_label.as_str(), menu.process_filter.as_str()),
        ("Filter by process: \u{2014}", "")
    );
    assert_eq!(menu.stop, Some((2, "(unknown)".to_string())));
    assert_eq!(confirm_text(2, "vim"), "Stop process \"vim\" (PID 2)?");
}

#[test]
fn header_totals_are_exact_or_missing() {
    let rows = vec![row(None, None, 1, (1, 2)), row(None, None, 2, (10, 20))];
    assert_eq!(header_totals(&rows), Some((11, 22)));
    assert_eq!(header_totals(&[]), Some((0, 0)));
    let rows = vec![row(None, None, 1, (u64::MAX, 0)), row(None, None, 2, (1, 0))];
    assert_eq!(header_totals(&rows), None);
}

#[test]
fn colours_follow_protocol_and_rate() {
    assert_eq!(protocol_class("TCP"), ProtocolClass::Tcp);
    assert_eq!(protocol_class("UDP"), ProtocolClass::Udp);
    assert_eq!(protocol_class("SCTP"), ProtocolClass::Sctp);
    assert_eq!(protocol_class("ICMPv4"), ProtocolClass::Icmpv4);
    assert_eq!(protocol_class("ICMPv6"), ProtocolClass::Icmpv6);
    assert_eq!(protocol_class("icmp"), ProtocolClass::Other);
    assert!(!is_busy(100_000));
    assert!(is_busy(100_001));
}

#[test]
fn session_time_is_in_hours_minutes_and_seconds() {
    let mut m = NetMonitor::new(SEC);
    assert_eq!(m.session_time(SEC), "Session: 00:00:00");
    assert_eq!(m.session_time((3600 + 61 + 1) * SEC + SEC - 1), "Session: 01:01:01");
    assert_eq!(m.session_time((360_000 + 1) * SEC), "Session: 100:00:00");
    m.session_start = None;
    assert_eq!(m.session_time(0), "Session: N/A");
}

#[test]
fn readiness_follows_the_data() {
    let mut m = NetMonitor::new(0);
    m.update(Message::SocketData(Vec::new()), 0);
    assert_eq!(m.readiness(), Readiness::WaitingForRollups);
    m.update(Message::AggregateData(payload(Vec::new())), 0);
    assert_eq!(m.readiness(), Readiness::Ready);
}

#[test]
fn the_chart_keeps_the_newest_samples() {
    let mut samples: Samples<f32> = Samples::new();
    for i in 0..65 {
        samples.push(i as f32);
    }
    assert_eq!(samples.values.len(), HISTORY_LEN);
    assert_eq!(samples.values[0], 5.0);
    assert_eq!(samples.values[59], 64.0);
}

#[test]
fn export_files_carry_the_time() {
    assert_eq!(export_file_name(1_700_000_000), "net-monitor-export-1700000000.csv");
}
