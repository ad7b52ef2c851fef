//! The client's side of the socket: what it asks of the backend, and what it makes of the
//! answers and of the stream.

use vstd::prelude::*;

use crate::ipc::{
    answer_to, command_in_words, command_of, error_of, iface_text, refusal_text, reply_text,
    topic_prefix,
    topic_text, AnswerView, Command, LimitChange, Refusal, Topic,
};
use crate::number::{decimal, lemma_decimal_is_word, lemma_decimal_reads_back, push_decimal};
use crate::process_control::protected;
use crate::text::{
    after_prefix, ascii_lower, chars, is_space, is_word, joined, lemma_prefix_is_cut,
    lemma_trim_line,
    lemma_words_of_joined, same_ignoring_case, same_text, strip_prefix, trim, trimmed,
};

verus! {

/// A command as it goes over the socket: with a line feed at its end.
pub open spec fn sent(command: Seq<char>) -> Seq<char> {
    if command.len() > 0 && command.last() == '\n' {
        command
    } else {
        command.push('\n')
    }
}

/// A command as it goes over the socket: with a line feed at its end.
pub fn request_line(command: &str) -> (line: String)
    ensures
        line@ == sent(command@),
{
    let v = chars(command);
    let mut line: String = command.to_owned();
    if v.len() == 0 || v[v.len() - 1] != '\n' {
        line.push('\n');
    }
    line
}

/// The request to stop a process.
pub open spec fn kill_request(pid: u32) -> Seq<char> {
    sent("kill "@ + decimal(pid as nat))
}

/// The request to limit the rate of a process.
pub open spec fn rate_request(pid: u32, bytes_per_sec: u64) -> Seq<char> {
    sent("limit set "@ + decimal(pid as nat) + " "@ + decimal(bytes_per_sec as nat))
}

/// The request to lift the limits of a process.
pub open spec fn clear_request(pid: u32) -> Seq<char> {
    sent("limit clear "@ + decimal(pid as nat))
}

/// The request to cap the total of a process.
pub open spec fn total_request(pid: u32, max_total_bytes: u64) -> Seq<char> {
    sent("limit total set "@ + decimal(pid as nat) + " "@ + decimal(max_total_bytes as nat))
}

/// The request to stop a process.
pub fn kill_process(pid: u32) -> (line: String)
    ensures
        line@ == kill_request(pid),
{
    let mut command: String = "kill ".to_owned();
    push_decimal(&mut command, pid as u64);
    request_line(command.as_str())
}

/// The request to limit the rate of a process.
pub fn limit_set(pid: u32, bytes_per_sec: u64) -> (line: String)
    ensures
        line@ == rate_request(pid, bytes_per_sec),
{
    let mut command: String = "limit set ".to_owned();
    push_decimal(&mut command, pid as u64);
    command.append(" ");
    push_decimal(&mut command, bytes_per_sec);
    request_line(command.as_str())
}

/// The request to lift the limits of a process.
pub fn limit_clear(pid: u32) -> (line: String)
    ensures
        line@ == clear_request(pid),
{
    let mut command: String = "limit clear ".to_owned();
    push_decimal(&mut command, pid as u64);
    request_line(command.as_str())
}

/// The request to cap the total of a process.
pub fn limit_total_set(pid: u32, max_total_bytes: u64) -> (line: String)
    ensures
        line@ == total_request(pid, max_total_bytes),
{
    let mut command: String = "limit total set ".to_owned();
    push_decimal(&mut command, pid as u64);
    command.append(" ");
    push_decimal(&mut command, max_total_bytes);
    request_line(command.as_str())
}

/// What the `Debug` format makes of a text: quoted, with special characters escaped.
pub uninterp spec fn debug_text(text: Seq<char>) -> Seq<char>;

/// `format!` with `{:?}` on a `str`. The result is named, not described.
#[verifier::external_body]
fn quoted(text: &str) -> (out: String)
    ensures
        out@ == debug_text(text@),
{
    format!("{text:?}")
}

/// What is reported of an answer that is none, given the answer in quotes.
pub fn unexpected_response(answer: &str) -> (report: String)
    ensures
        report@ == "unexpected response: "@ + answer@,
{
    let mut report: String = "unexpected response: ".to_owned();
    report.append(answer);
    report
}

/// The error in an answer: none if it is `OK`, else what follows `ERR`.
pub open spec fn answer_error(line: Seq<char>) -> Option<Seq<char>> {
    let t = trimmed(line);
    if t == "OK"@ {
        None
    } else {
        match after_prefix(t, "ERR "@) {
            Some(reason) => Some(reason),
            None => if after_prefix(t, "ERR"@) is Some {
                Some(t)
            } else {
                Some("unexpected response: "@ + debug_text(t))
            },
        }
    }
}

/// Reads the answer to a command.
pub fn parse_ok_err_line(line: &str) -> (result: Result<(), String>)
    ensures
        error_of(result) == answer_error(line@),
{
    let t = trim(line);
    if same_text(t.as_str(), "OK") {
        return Ok(());
    }
    if let Some(reason) = strip_prefix(t.as_str(), "ERR ") {
        return Err(reason);
    }
    if strip_prefix(t.as_str(), "ERR").is_some() {
        return Err(t);
    }
    Err(unexpected_response(quoted(t.as_str()).as_str()))
}

/// A line of the stream.
#[derive(Debug)]
pub enum StreamLine {
    Empty,
    Iface(String),
    /// The JSON of a topic.
    Data(Topic, String),
}

/// A [`StreamLine`] with its text as a character sequence.
pub enum StreamView {
    Empty,
    Iface(Seq<char>),
    Data(Topic, Seq<char>),
}

impl View for StreamLine {
    type V = StreamView;

    open spec fn view(&self) -> StreamView {
        match self {
            StreamLine::Empty => StreamView::Empty,
            StreamLine::Iface(name) => StreamView::Iface(name@),
            StreamLine::Data(topic, json) => StreamView::Data(*topic, json@),
        }
    }
}

/// What a line of the stream is.
pub open spec fn stream_line(line: Seq<char>) -> StreamView {
    let t = trimmed(line);
    if t.len() == 0 {
        StreamView::Empty
    } else if let Some(name) = after_prefix(t, "IFACE "@) {
        StreamView::Iface(name)
    } else if let Some(json) = after_prefix(t, "ALERT "@) {
        StreamView::Data(Topic::Alert, json)
    } else if let Some(json) = after_prefix(t, "AUTO_KILL "@) {
        StreamView::Data(Topic::AutoKill, json)
    } else if let Some(json) = after_prefix(t, "AGGREGATE "@) {
        StreamView::Data(Topic::Aggregate, json)
    } else {
        StreamView::Data(Topic::Rows, t)
    }
}

/// Tells what a line of the stream is.
pub fn classify_line(line: &str) -> (kind: StreamLine)
    ensures
        kind@ == stream_line(line@),
{
    let t = trim(line);
    if chars(t.as_str()).len() == 0 {
        return StreamLine::Empty;
    }
    if let Some(name) = strip_prefix(t.as_str(), "IFACE ") {
        return StreamLine::Iface(name);
    }
    if let Some(json) = strip_prefix(t.as_str(), "ALERT ") {
        return StreamLine::Data(Topic::Alert, json);
    }
    if let Some(json) = strip_prefix(t.as_str(), "AUTO_KILL ") {
        return StreamLine::Data(Topic::AutoKill, json);
    }
    if let Some(json) = strip_prefix(t.as_str(), "AGGREGATE ") {
        return StreamLine::Data(Topic::Aggregate, json);
    }
    StreamLine::Data(Topic::Rows, t)
}

/// What came of reading a line of the stream.
pub enum ReadOutcome {
    Line(String),
    /// The backend has closed the connection.
    Closed,
    /// No more lines for now.
    NothingYet,
    Failed,
}

/// What to do about it.
#[derive(Debug)]
pub enum PollStep {
    /// Take the line in and read on.
    Take(StreamLine),
    /// Come back at the next tick.
    Wait,
    /// Drop the connection; a new one is made at the next tick.
    Reconnect,
}

/// What to do about what came of reading a line of the stream.
pub open spec fn is_step_for(outcome: ReadOutcome, step: PollStep) -> bool {
    match outcome {
        ReadOutcome::Line(line) => step matches PollStep::Take(kind) && kind@ == stream_line(line@),
        ReadOutcome::Closed => step is Reconnect,
        ReadOutcome::NothingYet => step is Wait,
        ReadOutcome::Failed => step is Reconnect,
    }
}

/// What to do about what came of reading a line of the stream.
pub fn poll_step(outcome: &ReadOutcome) -> (step: PollStep)
    ensures
        is_step_for(*outcome, step),
{
    match outcome {
        ReadOutcome::Line(line) => PollStep::Take(classify_line(line.as_str())),
        ReadOutcome::Closed => PollStep::Reconnect,
        ReadOutcome::NothingYet => PollStep::Wait,
        ReadOutcome::Failed => PollStep::Reconnect,
    }
}

/// A command of the words reaches the backend as those words, unless it begins like
/// `export`.
proof fn lemma_sent_words(w: Seq<Seq<char>>)
    requires
        w.len() > 0,
        forall|i: int| 0 <= i < w.len() ==> is_word(#[trigger] w[i]),
        ascii_lower(w[0][0]) != 'e',
    ensures
        command_of(sent(joined(w))) == command_in_words(w),
{
    lemma_words_of_joined(w);
    let t = joined(w);
    assert(is_word(w.last()));
    assert(t.last() != '\n') by {
        assert(is_space('\n'));
    }
    reveal_strlit("export json");
    reveal_strlit("export csv");
    assert(!same_ignoring_case(t, "export json"@)) by {
        assert(ascii_lower(t[0]) != ascii_lower("export json"@[0]));
    }
    assert(!same_ignoring_case(t, "export csv"@)) by {
        assert(ascii_lower(t[0]) != ascii_lower("export csv"@[0]));
    }
}

proof fn lemma_append_parts(a: Seq<char>, b: Seq<char>, c: Seq<char>, tail: Seq<char>)
    ensures
        a + (b + (c + tail)) == a + b + c + tail,
{
    assert(a + (b + (c + tail)) =~= a + b + c + tail);
}

proof fn lemma_keywords()
    ensures
        is_word("limit"@),
        "limit"@[0] == 'l',
        is_word("set"@),
        is_word("total"@),
        is_word("clear"@),
{
    reveal_strlit("limit");
    reveal_strlit("set");
    reveal_strlit("total");
    reveal_strlit("clear");
}

#[verifier::spinoff_prover]
proof fn lemma_kill_text(d: Seq<char>)
    ensures
        "kill "@ + d == joined(seq!["kill"@, d]),
{
    let w = seq!["kill"@, d];
    assert(joined(w) == "kill"@ + seq![' '] + d) by {
        reveal_with_fuel(joined, 2);
        assert(w.skip(1) =~= seq![d]);
    }
    assert("kill "@ == "kill"@ + seq![' ']) by {
        reveal_strlit("kill ");
        reveal_strlit("kill");
        assert("kill "@ =~= "kill"@ + seq![' ']);
    }
}

/// The backend understands the request to stop a process.
#[verifier::spinoff_prover]
pub proof fn lemma_kill_is_understood(pid: u32)
    ensures
        command_of(sent("kill "@ + decimal(pid as nat))) == (Command::Kill { pid }),
{
    let d = decimal(pid as nat);
    lemma_decimal_is_word(pid as nat);
    lemma_decimal_reads_back(pid as nat, u32::MAX as nat);
    let w = seq!["kill"@, d];
    assert(is_word("kill"@) && "kill"@[0] == 'k') by {
        reveal_strlit("kill");
    }
    lemma_kill_text(d);
    lemma_sent_words(w);
    assert(same_ignoring_case(w[0], "kill"@));
}

#[verifier::spinoff_prover]
proof fn lemma_limit_set_text(d: Seq<char>, e: Seq<char>)
    ensures
        "limit set "@ + d + " "@ + e == joined(seq!["limit"@, "set"@, d, e]),
{
    let w = seq!["limit"@, "set"@, d, e];
    let tail = d + seq![' '] + e;
    assert(joined(w) == "limit"@ + seq![' '] + ("set"@ + seq![' '] + tail)) by {
        reveal_with_fuel(joined, 4);
        assert(w.skip(1) =~= seq!["set"@, d, e]);
        assert(w.skip(1).skip(1) =~= seq![d, e]);
        assert(w.skip(1).skip(1).skip(1) =~= seq![e]);
    }
    lemma_append_parts(Seq::empty(), "limit"@ + seq![' '], "set"@ + seq![' '], tail);
    assert("limit set "@ == Seq::<char>::empty() + ("limit"@ + seq![' ']) + ("set"@ + seq![' ']))
        by {
        reveal_strlit("limit set ");
        reveal_strlit("limit");
        reveal_strlit("set");
        assert("limit set "@ =~= Seq::<char>::empty() + ("limit"@ + seq![' ']) + ("set"@ + seq![
            ' ',
        ]));
    }
    assert(" "@ == seq![' ']) by {
        reveal_strlit(" ");
        assert(" "@ =~= seq![' ']);
    }
    assert(Seq::<char>::empty() + joined(w) =~= joined(w));
    assert("limit set "@ + tail =~= "limit set "@ + d + " "@ + e);
}

#[verifier::spinoff_prover]
proof fn lemma_limit_total_set_text(d: Seq<char>, e: Seq<char>)
    ensures
        "limit total set "@ + d + " "@ + e == joined(seq!["limit"@, "total"@, "set"@, d, e]),
{
    let w = seq!["limit"@, "total"@, "set"@, d, e];
    let tail = d + seq![' '] + e;
    assert(joined(w) == "limit"@ + seq![' '] + ("total"@ + seq![' '] + ("set"@ + seq![' '] + tail)))
        by {
        reveal_with_fuel(joined, 5);
        assert(w.skip(1) =~= seq!["total"@, "set"@, d, e]);
        assert(w.skip(1).skip(1) =~= seq!["set"@, d, e]);
        assert(w.skip(1).skip(1).skip(1) =~= seq![d, e]);
        assert(w.skip(1).skip(1).skip(1).skip(1) =~= seq![e]);
    }
    lemma_append_parts("limit"@ + seq![' '], "total"@ + seq![' '], "set"@ + seq![' '], tail);
    assert("limit total set "@ == "limit"@ + seq![' '] + ("total"@ + seq![' ']) + ("set"@ + seq![
        ' ',
    ])) by {
        reveal_strlit("limit total set ");
        reveal_strlit("limit");
        reveal_strlit("total");
        reveal_strlit("set");
        assert("limit total set "@ =~= "limit"@ + seq![' '] + ("total"@ + seq![' ']) + ("set"@
            + seq![' ']));
    }
    assert(" "@ == seq![' ']) by {
        reveal_strlit(" ");
        assert(" "@ =~= seq![' ']);
    }
    assert("limit total set "@ + tail =~= "limit total set "@ + d + " "@ + e);
}

/// The backend understands the request to limit a rate, and refuses a rate of zero.
#[verifier::spinoff_prover]
pub proof fn lemma_limit_set_is_understood(pid: u32, bps: u64)
    ensures
        command_of(sent("limit set "@ + decimal(pid as nat) + " "@ + decimal(bps as nat))) == if bps
            > 0 {
            Command::Limit(LimitChange::SetRate { pid, bps })
        } else {
            Command::Refuse(Refusal::ZeroRate)
        },
{
    let d = decimal(pid as nat);
    let e = decimal(bps as nat);
    lemma_decimal_is_word(pid as nat);
    lemma_decimal_is_word(bps as nat);
    lemma_decimal_reads_back(pid as nat, u32::MAX as nat);
    lemma_decimal_reads_back(bps as nat, u64::MAX as nat);
    let w = seq!["limit"@, "set"@, d, e];
    lemma_keywords();
    lemma_limit_set_text(d, e);
    lemma_sent_words(w);
    assert(same_ignoring_case(w[0], "limit"@) && same_ignoring_case(w[1], "set"@));
}

/// The backend understands the request to cap a total, and refuses a cap of zero.
#[verifier::spinoff_prover]
pub proof fn lemma_limit_total_set_is_understood(pid: u32, max_bytes: u64)
    ensures
        command_of(
            sent("limit total set "@ + decimal(pid as nat) + " "@ + decimal(max_bytes as nat)),
        ) == if max_bytes > 0 {
            Command::Limit(LimitChange::SetTotal { pid, max_bytes })
        } else {
            Command::Refuse(Refusal::ZeroTotal)
        },
{
    let d = decimal(pid as nat);
    let e = decimal(max_bytes as nat);
    lemma_decimal_is_word(pid as nat);
    lemma_decimal_is_word(max_bytes as nat);
    lemma_decimal_reads_back(pid as nat, u32::MAX as nat);
    lemma_decimal_reads_back(max_bytes as nat, u64::MAX as nat);
    let w = seq!["limit"@, "total"@, "set"@, d, e];
    lemma_keywords();
    lemma_limit_total_set_text(d, e);
    lemma_sent_words(w);
    assert(same_ignoring_case(w[0], "limit"@) && same_ignoring_case(w[1], "total"@)
        && same_ignoring_case(w[2], "set"@));
}

/// The backend understands the request to lift the limits of a process.
#[verifier::spinoff_prover]
pub proof fn lemma_limit_clear_is_understood(pid: u32)
    ensures
        command_of(sent("limit clear "@ + decimal(pid as nat))) == Command::Limit(
            LimitChange::Clear { pid },
        ),
{
    let d = decimal(pid as nat);
    lemma_decimal_is_word(pid as nat);
    lemma_decimal_reads_back(pid as nat, u32::MAX as nat);
    let w = seq!["limit"@, "clear"@, d];
    lemma_keywords();
    assert("limit clear "@ + d == joined(w)) by {
        reveal_strlit("limit clear ");
        reveal_strlit("limit");
        reveal_strlit("clear");
        reveal_with_fuel(joined, 3);
        assert(w.skip(1) =~= seq!["clear"@, d]);
        assert(w.skip(1).skip(1) =~= seq![d]);
        assert("limit clear "@ + d =~= joined(w));
    }
    lemma_sent_words(w);
    assert(same_ignoring_case(w[0], "limit"@) && same_ignoring_case(w[1], "clear"@));
}

/// The client reads from the answer what the backend put into it: success, or the reason
/// for a refusal, as long as that is not empty and does not end in white space.
pub proof fn lemma_answer_reads_back(error: Option<Seq<char>>)
    requires
        match error {
            Some(reason) => reason.len() > 0 && !is_space(reason.last()),
            None => true,
        },
    ensures
        answer_error(reply_text(error)) == error,
{
    reveal_strlit("\n");
    reveal_strlit("OK");
    reveal_strlit("OK\n");
    reveal_strlit("ERR ");
    match error {
        None => {
            assert("OK\n"@ =~= "OK"@.push('\n'));
            lemma_trim_line("OK"@);
        },
        Some(reason) => {
            let t = "ERR "@ + reason;
            assert(t + "\n"@ =~= t.push('\n'));
            assert(t.last() == reason.last());
            lemma_trim_line(t);
            assert(t[0] != "OK"@[0]);
            assert("ERR "@.is_prefix_of(t));
            assert(t.skip("ERR "@.len() as int) =~= reason);
        },
    }
}

/// Whatever the backend refuses, the client learns the reason.
pub proof fn lemma_refusal_reads_back(refusal: Refusal)
    ensures
        answer_error(reply_text(Some(refusal_text(refusal)))) == Some(refusal_text(refusal)),
{
    reveal_strlit("invalid pid");
    reveal_strlit("invalid bytes_per_sec");
    reveal_strlit("limit must be > 0");
    reveal_strlit("invalid max_bytes");
    reveal_strlit("max_bytes must be > 0");
    lemma_answer_reads_back(Some(refusal_text(refusal)));
}

/// A client that asks to stop a protected process learns why it was refused.
pub proof fn lemma_protection_reads_back(pid: u32, own_pid: u32)
    requires
        protected(pid, own_pid) is Some,
    ensures
        answer_to(command_of(sent("kill "@ + decimal(pid as nat))), own_pid) == AnswerView::Reply(
            reply_text(protected(pid, own_pid)),
        ),
        answer_error(reply_text(protected(pid, own_pid))) == protected(pid, own_pid),
{
    reveal_strlit("refusing to signal privileged or invalid PID");
    reveal_strlit("refusing to terminate the net-monitor backend");
    lemma_kill_is_understood(pid);
    lemma_answer_reads_back(protected(pid, own_pid));
}

/// The client recognises each topic of the stream and gets its JSON back. JSON does not
/// begin or end with white space, and that of the rows is an array.
pub proof fn lemma_topic_is_recognised(topic: Topic, json: Seq<char>)
    requires
        json.len() > 0,
        !is_space(json.last()),
        topic == Topic::Rows ==> json[0] == '[',
    ensures
        stream_line(topic_text(topic, json)) == StreamView::Data(topic, json),
{
    reveal_strlit("");
    reveal_strlit("\n");
    reveal_strlit("IFACE ");
    reveal_strlit("ALERT ");
    reveal_strlit("AUTO_KILL ");
    reveal_strlit("AGGREGATE ");
    let prefix = topic_prefix(topic);
    let t = prefix + json;
    assert(t + "\n"@ =~= t.push('\n'));
    assert(t.last() == json.last());
    assert(t[0] == 'A' || t[0] == '[');
    lemma_trim_line(t);
    assert(prefix.is_prefix_of(t));
    assert(t.skip(prefix.len() as int) =~= json);
    if topic == Topic::Rows {
        assert(t =~= json);
    }
    if "IFACE "@.is_prefix_of(t) {
        assert(t[0] == "IFACE "@[0]);
    }
    if "ALERT "@.is_prefix_of(t) {
        assert(t[0] == "ALERT "@[0] && t[1] == "ALERT "@[1]);
    }
    if "AUTO_KILL "@.is_prefix_of(t) {
        assert(t[0] == "AUTO_KILL "@[0] && t[1] == "AUTO_KILL "@[1]);
    }
    if "AGGREGATE "@.is_prefix_of(t) {
        assert(t[0] == "AGGREGATE "@[0] && t[1] == "AGGREGATE "@[1]);
    }
    match topic {
        Topic::Rows => {},
        Topic::Aggregate => assert(t[1] == 'G'),
        Topic::Alert => assert(t[1] == 'L'),
        Topic::AutoKill => assert(t[1] == 'U'),
    }
}

/// The client learns the name of the captured interface.
pub proof fn lemma_iface_is_recognised(iface: Seq<char>)
    requires
        iface.len() > 0,
        !is_space(iface.last()),
    ensures
        stream_line(iface_text(iface)) == StreamView::Iface(iface),
{
    reveal_strlit("\n");
    reveal_strlit("IFACE ");
    let t = "IFACE "@ + iface;
    assert(t + "\n"@ =~= t.push('\n'));
    assert(t.last() == iface.last());
    lemma_trim_line(t);
    assert("IFACE "@.is_prefix_of(t));
    assert(t.skip("IFACE "@.len() as int) =~= iface);
}

/// Each request of the client is for the backend what the client means: for that process
/// and that amount.
pub proof fn lemma_requests_mean_what_they_say(pid: u32, amount: u64)
    requires
        amount > 0,
    ensures
        command_of(kill_request(pid)) == (Command::Kill { pid }),
        command_of(rate_request(pid, amount)) == Command::Limit(
            LimitChange::SetRate { pid, bps: amount },
        ),
        command_of(total_request(pid, amount)) == Command::Limit(
            LimitChange::SetTotal { pid, max_bytes: amount },
        ),
        command_of(clear_request(pid)) == Command::Limit(LimitChange::Clear { pid }),
{
    lemma_kill_is_understood(pid);
    lemma_limit_set_is_understood(pid, amount);
    lemma_limit_total_set_is_understood(pid, amount);
    lemma_limit_clear_is_understood(pid);
}

/// A command goes out unchanged and ends with a line feed, which is added only if there is
/// none.
pub proof fn lemma_request_ends_with_line_feed(command: Seq<char>)
    ensures
        sent(command).len() > 0 && sent(command).last() == '\n',
        command.is_prefix_of(sent(command)),
        sent(command).len() <= command.len() + 1,
        sent(sent(command)) == sent(command),
{
}

/// Only `OK`, with any white space around it, is a success; an error is the text behind
/// `ERR`, and any other answer is an error that quotes it.
pub proof fn lemma_only_ok_is_success(line: Seq<char>, reason: Seq<char>)
    ensures
        answer_error(line) is None <==> trimmed(line) == "OK"@,
        trimmed(line) == "ERR "@ + reason ==> answer_error(line) == Some(reason),
        trimmed(line) == "ERR"@ ==> answer_error(line) == Some("ERR"@),
        trimmed(line) != "OK"@ && !"ERR"@.is_prefix_of(trimmed(line)) ==> answer_error(line)
            == Some("unexpected response: "@ + debug_text(trimmed(line))),
{
    let t = trimmed(line);
    reveal_strlit("OK");
    reveal_strlit("ERR");
    reveal_strlit("ERR ");
    if t == "ERR "@ + reason {
        assert(t[0] != "OK"@[0]);
        assert("ERR "@ =~= t.subrange(0, 4));
        assert(t.skip(4) =~= reason);
    }
    if t == "ERR"@ {
        assert(t[0] != "OK"@[0]);
        assert("ERR"@ =~= t.subrange(0, 3));
    }
    if "ERR "@.is_prefix_of(t) {
        assert("ERR "@ =~= t.subrange(0, 4));
        assert(t[0] == "ERR "@[0] && t[1] == "ERR "@[1] && t[2] == "ERR "@[2]);
        assert("ERR"@ =~= t.subrange(0, 3));
    }
}

/// A line without anything but white space carries nothing.
pub proof fn lemma_blank_line_is_empty(line: Seq<char>)
    ensures
        stream_line(line) is Empty <==> trimmed(line).len() == 0,
{
}

/// Every line that comes in is taken, whatever it is; the connection is dropped exactly if
/// it was closed or has failed.
pub proof fn lemma_every_line_is_taken(outcome: ReadOutcome, step: PollStep)
    requires
        is_step_for(outcome, step),
    ensures
        outcome is Line <==> step is Take,
        outcome matches ReadOutcome::Line(line) ==> (step matches PollStep::Take(kind) && kind@
            == stream_line(line@)),
        step is Reconnect <==> outcome is Closed || outcome is Failed,
        step is Wait <==> outcome is NothingYet,
{
}

/// A line of the stream is seen as it is.
pub proof fn lemma_stream_line_is_seen(name: String, topic: Topic, json: String)
    ensures
        StreamLine::Empty@ == StreamView::Empty,
        StreamLine::Iface(name)@ == StreamView::Iface(name@),
        StreamLine::Data(topic, json)@ == StreamView::Data(topic, json@),
{
}

/// A line that has none of the keywords at its front carries the rows, all of it; a keyword
/// decides by itself, whatever follows it.
pub proof fn lemma_keyword_decides(line: Seq<char>, rest: Seq<char>)
    ensures
        trimmed(line).len() > 0 && !"IFACE "@.is_prefix_of(trimmed(line)) && !"ALERT "@.is_prefix_of(
            trimmed(line),
        ) && !"AUTO_KILL "@.is_prefix_of(trimmed(line)) && !"AGGREGATE "@.is_prefix_of(
            trimmed(line),
        ) ==> stream_line(line) == StreamView::Data(Topic::Rows, trimmed(line)),
        trimmed(line) == "IFACE "@ + rest ==> stream_line(line) == StreamView::Iface(rest),
        trimmed(line) == "ALERT "@ + rest ==> stream_line(line) == StreamView::Data(
            Topic::Alert,
            rest,
        ),
        trimmed(line) == "AUTO_KILL "@ + rest ==> stream_line(line) == StreamView::Data(
            Topic::AutoKill,
            rest,
        ),
        trimmed(line) == "AGGREGATE "@ + rest ==> stream_line(line) == StreamView::Data(
            Topic::Aggregate,
            rest,
        ),
{
    reveal_strlit("IFACE ");
    reveal_strlit("ALERT ");
    reveal_strlit("AUTO_KILL ");
    reveal_strlit("AGGREGATE ");
    let t = trimmed(line);
    lemma_prefix_is_cut("IFACE "@, rest, t);
    lemma_prefix_is_cut("ALERT "@, rest, t);
    lemma_prefix_is_cut("AUTO_KILL "@, rest, t);
    lemma_prefix_is_cut("AGGREGATE "@, rest, t);
    if "IFACE "@.is_prefix_of(t) {
        assert(t[0] == "IFACE "@[0]);
    }
    if "ALERT "@.is_prefix_of(t) {
        assert(t[0] == "ALERT "@[0] && t[1] == "ALERT "@[1]);
    }
    if "AUTO_KILL "@.is_prefix_of(t) {
        assert(t[0] == "AUTO_KILL "@[0] && t[1] == "AUTO_KILL "@[1]);
    }
    if "AGGREGATE "@.is_prefix_of(t) {
        assert(t[0] == "AGGREGATE "@[0] && t[1] == "AGGREGATE "@[1]);
    }
}

} // verus!
