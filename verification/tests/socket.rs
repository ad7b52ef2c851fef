use net_monitor::ipc::{
    answer_client, answer_without_limits, apply_change, iface_line, parse_command, reply_line, topic_line, Answer, Command, LimitChange, Refusal,
    Topic,
};
use net_monitor::ipc_cmd::{
    classify_line, kill_process, limit_clear, limit_set, limit_total_set, parse_ok_err_line,
    poll_step, request_line, unexpected_response, PollStep, ReadOutcome, StreamLine,
};
use net_monitor::process_control::new_process_limits;

#[test]
fn commands_are_recognised_in_any_case() {
    assert_eq!(parse_command("export json\n"), Command::ExportJson);
    assert_eq!(parse_command("  EXPORT Csv \r\n"), Command::ExportCsv);
    assert_eq!(parse_command("kill 1234\n"), Command::Kill { pid: 1234 });
    assert_eq!(parse_command("Kill\t7"), Command::Kill { pid: 7 });
    assert_eq!(
        parse_command("limit set 1234 1000000"),
        Command::Limit(LimitChange::SetRate { pid: 1234, bps: 1_000_000 })
    );
    assert_eq!(
        parse_command("LIMIT TOTAL SET 1234 500000000"),
        Command::Limit(LimitChange::SetTotal { pid: 1234, max_bytes: 500_000_000 })
    );
    assert_eq!(parse_command("limit clear 1234"), Command::Limit(LimitChange::Clear { pid: 1234 }));
}

#[test]
fn anything_else_is_a_stream_client() {
    for line in ["stream\n", "", "export  json", "kill", "kill 1 2", "limit", "limit set 1", "limit total 1 2 3"] {
        assert_eq!(parse_command(line), Command::Stream);
    }
}

#[test]
fn broken_commands_are_refused() {
    assert_eq!(parse_command("kill x"), Command::Refuse(Refusal::InvalidPid));
    assert_eq!(parse_command("kill 4294967296"), Command::Refuse(Refusal::InvalidPid));
    assert_eq!(parse_command("limit set x y"), Command::Refuse(Refusal::InvalidPid));
    assert_eq!(parse_command("limit set 1 y"), Command::Refuse(Refusal::InvalidRate));
    assert_eq!(parse_command("limit set 1 0"), Command::Refuse(Refusal::ZeroRate));
    assert_eq!(parse_command("limit total set -1 5"), Command::Refuse(Refusal::InvalidPid));
    assert_eq!(parse_command("limit total set 1 5.5"), Command::Refuse(Refusal::InvalidTotal));
    assert_eq!(parse_command("limit total set 1 0"), Command::Refuse(Refusal::ZeroTotal));
    assert_eq!(parse_command("limit clear x"), Command::Refuse(Refusal::InvalidPid));
}

#[test]
fn refusals_say_why() {
    assert_eq!(Refusal::InvalidPid.reason(), "invalid pid");
    assert_eq!(Refusal::InvalidRate.reason(), "invalid bytes_per_sec");
    assert_eq!(Refusal::ZeroRate.reason(), "limit must be > 0");
    assert_eq!(Refusal::InvalidTotal.reason(), "invalid max_bytes");
    assert_eq!(Refusal::ZeroTotal.reason(), "max_bytes must be > 0");
}

#[test]
fn answers() {
    assert_eq!(reply_line(&Ok(())), "OK\n");
    assert_eq!(reply_line(&Err("invalid pid".to_string())), "ERR invalid pid\n");
}

#[test]
fn changes_are_applied() {
    let mut limits = new_process_limits();
    apply_change(&mut limits, LimitChange::SetRate { pid: 5, bps: 7 });
    apply_change(&mut limits, LimitChange::SetTotal { pid: 5, max_bytes: 8 });
    apply_change(&mut limits, LimitChange::SetTotal { pid: 6, max_bytes: 9 });
    assert_eq!(limits.entries[&5].max_rate_bps, Some(7));
    assert_eq!(limits.entries[&5].max_total_bytes, Some(8));
    apply_change(&mut limits, LimitChange::Clear { pid: 5 });
    assert!(!limits.entries.contains_key(&5));
    assert_eq!(limits.entries[&6].max_total_bytes, Some(9));
}

#[test]
fn clients_are_served() {
    let mut limits = new_process_limits();
    assert!(matches!(answer_client("export json\n", 9, &mut limits), Answer::ExportJson));
    assert!(matches!(answer_client("export csv\n", 9, &mut limits), Answer::ExportCsv));
    assert!(matches!(answer_client("stream\n", 9, &mut limits), Answer::Stream));
    assert!(matches!(answer_client("kill 77\n", 9, &mut limits), Answer::Signal { raw_pid: 77 }));
    let mut reply = |line: &str| match answer_client(line, 9, &mut limits) {
        Answer::Reply(text) => text,
        other => panic!("{other:?}"),
    };
    assert_eq!(reply("kill 9"), "ERR refusing to terminate the net-monitor backend\n");
    assert_eq!(reply("kill 1"), "ERR refusing to signal privileged or invalid PID\n");
    assert_eq!(reply("kill me"), "ERR invalid pid\n");
    assert_eq!(reply("limit set 5 0"), "ERR limit must be > 0\n");
    assert_eq!(reply("limit set 5 6"), "OK\n");
    assert_eq!(reply("limit total set 5 7"), "OK\n");
    assert_eq!(limits.entries[&5].max_rate_bps, Some(6));
    assert_eq!(limits.entries[&5].max_total_bytes, Some(7));
}

#[test]
fn requests_are_understood() {
    assert_eq!(kill_process(1234), "kill 1234\n");
    assert_eq!(limit_set(1, 2), "limit set 1 2\n");
    assert_eq!(limit_clear(9), "limit clear 9\n");
    assert_eq!(limit_total_set(3, 4), "limit total set 3 4\n");
    assert_eq!(parse_command(&kill_process(u32::MAX)), Command::Kill { pid: u32::MAX });
    assert_eq!(
        parse_command(&limit_set(5, u64::MAX)),
        Command::Limit(LimitChange::SetRate { pid: 5, bps: u64::MAX })
    );
    assert_eq!(parse_command(&limit_set(5, 0)), Command::Refuse(Refusal::ZeroRate));
    assert_eq!(
        parse_command(&limit_total_set(6, 1)),
        Command::Limit(LimitChange::SetTotal { pid: 6, max_bytes: 1 })
    );
    assert_eq!(parse_command(&limit_total_set(6, 0)), Command::Refuse(Refusal::ZeroTotal));
    assert_eq!(parse_command(&limit_clear(0)), Command::Limit(LimitChange::Clear { pid: 0 }));
}

#[test]
fn requests_end_in_one_line_feed() {
    assert_eq!(request_line("stream"), "stream\n");
    assert_eq!(request_line("stream\n"), "stream\n");
    assert_eq!(request_line(""), "\n");
}

#[test]
fn without_the_limits_only_their_changes_are_refused() {
    for line in ["limit set 5 6\n", "limit total set 5 6\n", "limit clear 5\n"] {
        match answer_without_limits(line, 9) {
            Answer::Reply(text) => assert_eq!(text, "ERR limits lock poisoned\n"),
            _ => panic!(),
        }
    }
    assert!(matches!(answer_without_limits("export json\n", 9), Answer::ExportJson));
    assert!(matches!(answer_without_limits("export csv\n", 9), Answer::ExportCsv));
    assert!(matches!(answer_without_limits("stream\n", 9), Answer::Stream));
    assert!(matches!(answer_without_limits("kill 77\n", 9), Answer::Signal { raw_pid: 77 }));
    match answer_without_limits("kill 4294967295\n", 9) {
        Answer::Reply(text) => assert_eq!(text, "ERR refusing to signal privileged or invalid PID\n"),
        _ => panic!(),
    }
}

#[test]
fn answers_are_read() {
    assert_eq!(parse_ok_err_line("OK\n"), Ok(()));
    assert_eq!(parse_ok_err_line("ERR invalid pid\n"), Err("invalid pid".to_string()));
    assert_eq!(parse_ok_err_line("ERR"), Err("ERR".to_string()));
    assert_eq!(parse_ok_err_line("ERROR 5\n"), Err("ERROR 5".to_string()));
}

#[test]
fn an_unexpected_answer_is_quoted() {
    assert_eq!(
        parse_ok_err_line(" say \"hi\"\t\u{1}x\n"),
        Err("unexpected response: \"say \\\"hi\\\"\\t\\u{1}x\"".to_string())
    );
    assert_eq!(parse_ok_err_line(""), Err("unexpected response: \"\"".to_string()));
    assert_eq!(unexpected_response("\"x\""), "unexpected response: \"x\"");
}

#[test]
fn answers_read_back() {
    for refusal in [
        Refusal::InvalidPid,
        Refusal::InvalidRate,
        Refusal::ZeroRate,
        Refusal::InvalidTotal,
        Refusal::ZeroTotal,
    ] {
        let line = reply_line(&Err(refusal.reason()));
        assert_eq!(parse_ok_err_line(&line), Err(refusal.reason()));
    }
    assert_eq!(parse_ok_err_line(&reply_line(&Ok(()))), Ok(()));
}

#[test]
fn topics_are_recognised() {
    for (topic, json, line) in [
        (Topic::Rows, "[]", "[]\n"),
        (Topic::Aggregate, "{\"a\":1}", "AGGREGATE {\"a\":1}\n"),
        (Topic::Alert, "{}", "ALERT {}\n"),
        (Topic::AutoKill, "{}", "AUTO_KILL {}\n"),
    ] {
        assert_eq!(topic_line(topic, json), line);
        assert!(matches!(classify_line(line), StreamLine::Data(t, j) if t == topic && j == json));
    }
}

#[test]
fn the_interface_is_recognised() {
    assert_eq!(iface_line("eth0"), "IFACE eth0\n");
    assert!(matches!(classify_line("IFACE eth0\n"), StreamLine::Iface(name) if name == "eth0"));
    assert!(matches!(classify_line(" \r\n"), StreamLine::Empty));
}

#[test]
fn polling_reads_on_waits_or_reconnects() {
    assert!(matches!(
        poll_step(&ReadOutcome::Line("[]\n".to_string())),
        PollStep::Take(StreamLine::Data(Topic::Rows, _))
    ));
    assert!(matches!(poll_step(&ReadOutcome::NothingYet), PollStep::Wait));
    assert!(matches!(poll_step(&ReadOutcome::Closed), PollStep::Reconnect));
    assert!(matches!(poll_step(&ReadOutcome::Failed), PollStep::Reconnect));
}

#[test]
fn a_protected_process_is_refused_with_a_reason() {
    let mut limits = new_process_limits();
    match answer_client(&kill_process(1), 500, &mut limits) {
        Answer::Reply(line) => assert_eq!(
            parse_ok_err_line(&line),
            Err("refusing to signal privileged or invalid PID".to_string())
        ),
        other => panic!("{other:?}"),
    }
    match answer_client(&kill_process(500), 500, &mut limits) {
        Answer::Reply(line) => assert_eq!(
            parse_ok_err_line(&line),
            Err("refusing to terminate the net-monitor backend".to_string())
        ),
        other => panic!("{other:?}"),
    }
}
