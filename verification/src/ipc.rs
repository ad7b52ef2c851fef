//! What clients of the backend can ask for on the socket, and what they are answered.

use vstd::prelude::*;

use crate::number::{lemma_number_ignores_case, number_of, parse_u32, parse_u64};
use crate::process_control::{
    protected, term_target, with_rate, with_total, PidLimitEntry, ProcessLimits,
};
use crate::text::{
    eq_ignore_ascii_case, is_word, lemma_lowered, lemma_same_ignoring_case, lemma_trimmed_lowered,
    lemma_words_after_word, lemma_words_lowered, lemma_words_of_trimmed, lemma_words_of_word,
    lowered, same_ignoring_case, split_whitespace, texts, trim, trimmed, words,
};

verus! {

/// A change of the limits of one process.
#[derive(Clone, Copy, Debug, PartialEq, Eq, Structural)]
pub enum LimitChange {
    SetRate { pid: u32, bps: u64 },
    SetTotal { pid: u32, max_bytes: u64 },
    Clear { pid: u32 },
}

/// Why a command is refused.
#[derive(Clone, Copy, Debug, PartialEq, Eq, Structural)]
pub enum Refusal {
    InvalidPid,
    InvalidRate,
    ZeroRate,
    InvalidTotal,
    ZeroTotal,
}

/// What a client asks for.
#[derive(Clone, Copy, Debug, PartialEq, Eq, Structural)]
pub enum Command {
    ExportJson,
    ExportCsv,
    Kill { pid: u32 },
    Limit(LimitChange),
    Refuse(Refusal),
    /// Anything else: the client wants to follow the snapshots.
    Stream,
}

/// The process id in a text.
pub open spec fn pid_in(text: Seq<char>) -> Option<u32> {
    match number_of(text, 10, u32::MAX as nat) {
        Some(n) => Some(n as u32),
        None => None,
    }
}

/// The amount in a text.
pub open spec fn amount_in(text: Seq<char>) -> Option<u64> {
    match number_of(text, 10, u64::MAX as nat) {
        Some(n) => Some(n as u64),
        None => None,
    }
}

/// The command that `kill` with an argument is.
pub open spec fn kill_command(pid: Seq<char>) -> Command {
    match pid_in(pid) {
        Some(pid) => Command::Kill { pid },
        None => Command::Refuse(Refusal::InvalidPid),
    }
}

/// The command that `limit set` with its arguments is.
pub open spec fn rate_command(pid: Seq<char>, bps: Seq<char>) -> Command {
    match (pid_in(pid), amount_in(bps)) {
        (None, _) => Command::Refuse(Refusal::InvalidPid),
        (Some(_), None) => Command::Refuse(Refusal::InvalidRate),
        (Some(pid), Some(bps)) => if bps == 0 {
            Command::Refuse(Refusal::ZeroRate)
        } else {
            Command::Limit(LimitChange::SetRate { pid, bps })
        },
    }
}

/// The command that `limit total set` with its arguments is.
pub open spec fn total_command(pid: Seq<char>, max_bytes: Seq<char>) -> Command {
    match (pid_in(pid), amount_in(max_bytes)) {
        (None, _) => Command::Refuse(Refusal::InvalidPid),
        (Some(_), None) => Command::Refuse(Refusal::InvalidTotal),
        (Some(pid), Some(max_bytes)) => if max_bytes == 0 {
            Command::Refuse(Refusal::ZeroTotal)
        } else {
            Command::Limit(LimitChange::SetTotal { pid, max_bytes })
        },
    }
}

/// The command that `limit clear` with an argument is.
pub open spec fn clear_command(pid: Seq<char>) -> Command {
    match pid_in(pid) {
        Some(pid) => Command::Limit(LimitChange::Clear { pid }),
        None => Command::Refuse(Refusal::InvalidPid),
    }
}

/// The command that the words of a line are.
pub open spec fn command_in_words(w: Seq<Seq<char>>) -> Command {
    if w.len() == 2 && same_ignoring_case(w[0], "kill"@) {
        kill_command(w[1])
    } else if w.len() == 4 && same_ignoring_case(w[0], "limit"@) && same_ignoring_case(
        w[1],
        "set"@,
    ) {
        rate_command(w[2], w[3])
    } else if w.len() == 5 && same_ignoring_case(w[0], "limit"@) && same_ignoring_case(
        w[1],
        "total"@,
    ) && same_ignoring_case(w[2], "set"@) {
        total_command(w[3], w[4])
    } else if w.len() == 3 && same_ignoring_case(w[0], "limit"@) && same_ignoring_case(
        w[1],
        "clear"@,
    ) {
        clear_command(w[2])
    } else {
        Command::Stream
    }
}

/// The command that a line is; the case of its keywords does not matter.
pub open spec fn command_of(line: Seq<char>) -> Command {
    let t = trimmed(line);
    if same_ignoring_case(t, "export json"@) {
        Command::ExportJson
    } else if same_ignoring_case(t, "export csv"@) {
        Command::ExportCsv
    } else {
        command_in_words(words(t))
    }
}

fn read_kill(pid: &str) -> (command: Command)
    ensures
        command == kill_command(pid@),
{
    match parse_u32(pid) {
        Some(pid) => Command::Kill { pid },
        None => Command::Refuse(Refusal::InvalidPid),
    }
}

fn read_rate(pid: &str, bps: &str) -> (command: Command)
    ensures
        command == rate_command(pid@, bps@),
{
    let pid: u32 = match parse_u32(pid) {
        Some(pid) => pid,
        None => {
            return Command::Refuse(Refusal::InvalidPid);
        },
    };
    match parse_u64(bps) {
        Some(bps) => if bps == 0 {
            Command::Refuse(Refusal::ZeroRate)
        } else {
            Command::Limit(LimitChange::SetRate { pid, bps })
        },
        None => Command::Refuse(Refusal::InvalidRate),
    }
}

fn read_total(pid: &str, max_bytes: &str) -> (command: Command)
    ensures
        command == total_command(pid@, max_bytes@),
{
    let pid: u32 = match parse_u32(pid) {
        Some(pid) => pid,
        None => {
            return Command::Refuse(Refusal::InvalidPid);
        },
    };
    match parse_u64(max_bytes) {
        Some(max_bytes) => if max_bytes == 0 {
            Command::Refuse(Refusal::ZeroTotal)
        } else {
            Command::Limit(LimitChange::SetTotal { pid, max_bytes })
        },
        None => Command::Refuse(Refusal::InvalidTotal),
    }
}

fn read_clear(pid: &str) -> (command: Command)
    ensures
        command == clear_command(pid@),
{
    match parse_u32(pid) {
        Some(pid) => Command::Limit(LimitChange::Clear { pid }),
        None => Command::Refuse(Refusal::InvalidPid),
    }
}

/// Reads the line that a client sent.
pub fn parse_command(line: &str) -> (command: Command)
    ensures
        command == command_of(line@),
{
    let t = trim(line);
    if eq_ignore_ascii_case(t.as_str(), "export json") {
        return Command::ExportJson;
    }
    if eq_ignore_ascii_case(t.as_str(), "export csv") {
        return Command::ExportCsv;
    }
    let w = split_whitespace(t.as_str());
    let ghost seen = words(t@);
    assert(seen == texts(w@));
    assert(seen.len() == w@.len());
    assert(forall|i: int| 0 <= i < w@.len() ==> #[trigger] seen[i] == w@[i]@);
    if w.len() == 2 && eq_ignore_ascii_case(w[0].as_str(), "kill") {
        return read_kill(w[1].as_str());
    }
    if w.len() == 4 && eq_ignore_ascii_case(w[0].as_str(), "limit") && eq_ignore_ascii_case(
        w[1].as_str(),
        "set",
    ) {
        return read_rate(w[2].as_str(), w[3].as_str());
    }
    if w.len() == 5 && eq_ignore_ascii_case(w[0].as_str(), "limit") && eq_ignore_ascii_case(
        w[1].as_str(),
        "total",
    ) && eq_ignore_ascii_case(w[2].as_str(), "set") {
        return read_total(w[3].as_str(), w[4].as_str());
    }
    if w.len() == 3 && eq_ignore_ascii_case(w[0].as_str(), "limit") && eq_ignore_ascii_case(
        w[1].as_str(),
        "clear",
    ) {
        return read_clear(w[2].as_str());
    }
    Command::Stream
}

/// What a refused client is told.
pub open spec fn refusal_text(refusal: Refusal) -> Seq<char> {
    match refusal {
        Refusal::InvalidPid => "invalid pid"@,
        Refusal::InvalidRate => "invalid bytes_per_sec"@,
        Refusal::ZeroRate => "limit must be > 0"@,
        Refusal::InvalidTotal => "invalid max_bytes"@,
        Refusal::ZeroTotal => "max_bytes must be > 0"@,
    }
}

impl Refusal {
    /// What a refused client is told.
    pub fn reason(self) -> (reason: String)
        ensures
            reason@ == refusal_text(self),
    {
        match self {
            Refusal::InvalidPid => "invalid pid".to_owned(),
            Refusal::InvalidRate => "invalid bytes_per_sec".to_owned(),
            Refusal::ZeroRate => "limit must be > 0".to_owned(),
            Refusal::InvalidTotal => "invalid max_bytes".to_owned(),
            Refusal::ZeroTotal => "max_bytes must be > 0".to_owned(),
        }
    }
}

/// The line that answers a command: done, or why not.
pub open spec fn reply_text(error: Option<Seq<char>>) -> Seq<char> {
    match error {
        None => "OK\n"@,
        Some(reason) => "ERR "@ + reason + "\n"@,
    }
}

/// The error of a result, as text.
pub open spec fn error_of<T>(result: Result<T, String>) -> Option<Seq<char>> {
    match result {
        Ok(_) => None,
        Err(reason) => Some(reason@),
    }
}

/// The line that answers a command.
pub fn reply_line(result: &Result<(), String>) -> (line: String)
    ensures
        line@ == reply_text(error_of(*result)),
{
    match result {
        Ok(()) => "OK\n".to_owned(),
        Err(reason) => {
            let mut line: String = "ERR ".to_owned();
            line.append(reason.as_str());
            line.append("\n");
            line
        },
    }
}

/// The limits after a change.
pub open spec fn changed(
    limits: Map<u32, PidLimitEntry>,
    change: LimitChange,
) -> Map<u32, PidLimitEntry> {
    match change {
        LimitChange::SetRate { pid, bps } => with_rate(limits, pid, bps),
        LimitChange::SetTotal { pid, max_bytes } => with_total(limits, pid, max_bytes),
        LimitChange::Clear { pid } => limits.remove(pid),
    }
}

/// Applies a change to the limits.
pub fn apply_change(limits: &mut ProcessLimits, change: LimitChange)
    ensures
        final(limits)@ == changed(old(limits)@, change),
{
    match change {
        LimitChange::SetRate { pid, bps } => limits.set_rate(pid, bps),
        LimitChange::SetTotal { pid, max_bytes } => limits.set_total(pid, max_bytes),
        LimitChange::Clear { pid } => limits.clear(pid),
    }
}

/// How a client is served.
#[derive(Debug)]
pub enum Answer {
    /// With the history as JSON.
    ExportJson,
    /// With the history as CSV.
    ExportCsv,
    /// The process with this id is sent the signal to end; the client is told whether that
    /// worked.
    Signal { raw_pid: i32 },
    /// With this line.
    Reply(String),
    /// The client follows the snapshots from now on.
    Stream,
}

/// An [`Answer`] with its text as a character sequence.
pub enum AnswerView {
    ExportJson,
    ExportCsv,
    Signal { raw_pid: int },
    Reply(Seq<char>),
    Stream,
}

impl View for Answer {
    type V = AnswerView;

    open spec fn view(&self) -> AnswerView {
        match self {
            Answer::ExportJson => AnswerView::ExportJson,
            Answer::ExportCsv => AnswerView::ExportCsv,
            Answer::Signal { raw_pid } => AnswerView::Signal { raw_pid: *raw_pid as int },
            Answer::Reply(line) => AnswerView::Reply(line@),
            Answer::Stream => AnswerView::Stream,
        }
    }
}

/// How a command is answered.
pub open spec fn answer_to(command: Command, own_pid: u32) -> AnswerView {
    match command {
        Command::ExportJson => AnswerView::ExportJson,
        Command::ExportCsv => AnswerView::ExportCsv,
        Command::Kill { pid } => match protected(pid, own_pid) {
            Some(reason) => AnswerView::Reply(reply_text(Some(reason))),
            None => AnswerView::Signal { raw_pid: pid as int },
        },
        Command::Limit(_) => AnswerView::Reply(reply_text(None)),
        Command::Refuse(refusal) => AnswerView::Reply(reply_text(Some(refusal_text(refusal)))),
        Command::Stream => AnswerView::Stream,
    }
}

/// The limits once a command was served: only a change of the limits has an effect on them.
pub open spec fn limits_after(
    limits: Map<u32, PidLimitEntry>,
    command: Command,
) -> Map<u32, PidLimitEntry> {
    match command {
        Command::Limit(change) => changed(limits, change),
        _ => limits,
    }
}

/// How a command is answered while the limits cannot be had: a change of them is refused,
/// all else is answered as usual.
pub open spec fn answer_without(command: Command, own_pid: u32) -> AnswerView {
    match command {
        Command::Limit(_) => AnswerView::Reply(reply_text(Some("limits lock poisoned"@))),
        _ => answer_to(command, own_pid),
    }
}

/// Answers a command that has nothing to do with the limits.
fn answer_other(command: Command, own_pid: u32) -> (answer: Answer)
    requires
        !(command is Limit),
    ensures
        answer@ == answer_to(command, own_pid),
{
    match command {
        Command::ExportJson => Answer::ExportJson,
        Command::ExportCsv => Answer::ExportCsv,
        Command::Kill { pid } => match term_target(pid, own_pid) {
            Ok(raw_pid) => Answer::Signal { raw_pid },
            Err(reason) => Answer::Reply(reply_line(&Err(reason))),
        },
        Command::Refuse(refusal) => Answer::Reply(reply_line(&Err(refusal.reason()))),
        _ => Answer::Stream,
    }
}

/// Serves the line that a client sent while the limits cannot be had.
pub fn answer_without_limits(line: &str, own_pid: u32) -> (answer: Answer)
    ensures
        answer@ == answer_without(command_of(line@), own_pid),
{
    match parse_command(line) {
        Command::Limit(_) => Answer::Reply(reply_line(&Err("limits lock poisoned".to_owned()))),
        command => answer_other(command, own_pid),
    }
}

/// Serves the line that a client sent; `own_pid` is the backend itself.
pub fn answer_client(line: &str, own_pid: u32, limits: &mut ProcessLimits) -> (answer: Answer)
    ensures
        answer@ == answer_to(command_of(line@), own_pid),
        final(limits)@ == limits_after(old(limits)@, command_of(line@)),
{
    match parse_command(line) {
        Command::Limit(change) => {
            apply_change(limits, change);
            Answer::Reply(reply_line(&Ok(())))
        },
        command => answer_other(command, own_pid),
    }
}

/// The line that tells a client which interface is captured.
pub open spec fn iface_text(iface: Seq<char>) -> Seq<char> {
    "IFACE "@ + iface + "\n"@
}

/// The line that tells a client which interface is captured.
pub fn iface_line(iface: &str) -> (line: String)
    ensures
        line@ == iface_text(iface@),
{
    let mut line: String = "IFACE ".to_owned();
    line.append(iface);
    line.append("\n");
    line
}

/// What is sent to the clients that follow the snapshots.
#[derive(Clone, Copy, Debug, PartialEq, Eq, Structural)]
pub enum Topic {
    Rows,
    Aggregate,
    Alert,
    AutoKill,
}

/// What stands before the JSON of a topic.
pub open spec fn topic_prefix(topic: Topic) -> Seq<char> {
    match topic {
        Topic::Rows => ""@,
        Topic::Aggregate => "AGGREGATE "@,
        Topic::Alert => "ALERT "@,
        Topic::AutoKill => "AUTO_KILL "@,
    }
}

/// The line that carries the JSON of a topic.
pub open spec fn topic_text(topic: Topic, json: Seq<char>) -> Seq<char> {
    topic_prefix(topic) + json + "\n"@
}

/// The line that carries the JSON of a topic.
pub fn topic_line(topic: Topic, json: &str) -> (line: String)
    ensures
        line@ == topic_text(topic, json@),
{
    let mut line: String = match topic {
        Topic::Rows => "".to_owned(),
        Topic::Aggregate => "AGGREGATE ".to_owned(),
        Topic::Alert => "ALERT ".to_owned(),
        Topic::AutoKill => "AUTO_KILL ".to_owned(),
    };
    line.append(json);
    line.append("\n");
    line
}

/// The limits that a client sets hold for that process alone: whatever a command does, the
/// entries of all other processes stay.
pub proof fn lemma_change_is_local(
    limits: Map<u32, PidLimitEntry>,
    change: LimitChange,
    other: u32,
)
    requires
        match change {
            LimitChange::SetRate { pid, .. } => pid != other,
            LimitChange::SetTotal { pid, .. } => pid != other,
            LimitChange::Clear { pid } => pid != other,
        },
    ensures
        changed(limits, change).contains_key(other) == limits.contains_key(other),
        limits.contains_key(other) ==> changed(limits, change)[other] == limits[other],
{
}

proof fn lemma_keyword_ignores_case(word: Seq<char>, keyword: Seq<char>)
    ensures
        same_ignoring_case(lowered(word), keyword) == same_ignoring_case(word, keyword),
{
    lemma_lowered(word);
    lemma_same_ignoring_case(word, keyword);
    lemma_same_ignoring_case(lowered(word), keyword);
}

/// Whatever a client asks for, it may write in capitals or not.
pub proof fn lemma_case_of_command_does_not_matter(line: Seq<char>)
    ensures
        command_of(lowered(line)) == command_of(line),
{
    let t = trimmed(line);
    let w = words(t);
    let v = words(lowered(t));
    lemma_trimmed_lowered(line);
    lemma_words_lowered(t);
    lemma_keyword_ignores_case(t, "export json"@);
    lemma_keyword_ignores_case(t, "export csv"@);
    assert(v.len() == w.len());
    assert forall|i: int| 0 <= i < w.len() implies #[trigger] v[i] == lowered(w[i]) by {}
    if w.len() >= 2 {
        lemma_keyword_ignores_case(w[0], "kill"@);
        lemma_keyword_ignores_case(w[0], "limit"@);
        lemma_keyword_ignores_case(w[1], "set"@);
        lemma_keyword_ignores_case(w[1], "total"@);
        lemma_keyword_ignores_case(w[1], "clear"@);
        lemma_number_ignores_case(w[1], 10, u32::MAX as nat);
    }
    if w.len() >= 3 {
        lemma_keyword_ignores_case(w[2], "set"@);
        lemma_number_ignores_case(w[2], 10, u32::MAX as nat);
    }
    if w.len() >= 4 {
        lemma_number_ignores_case(w[3], 10, u32::MAX as nat);
        lemma_number_ignores_case(w[3], 10, u64::MAX as nat);
    }
    if w.len() >= 5 {
        lemma_number_ignores_case(w[4], 10, u64::MAX as nat);
    }
}

proof fn lemma_export_words(line: Seq<char>, format: Seq<char>)
    requires
        format == "json"@ || format == "csv"@,
        same_ignoring_case(trimmed(line), "export "@ + format),
    ensures
        words(line).len() == 2,
        lowered(words(line)[0]) == "export"@,
{
    let t = trimmed(line);
    let whole = "export "@ + format;
    reveal_strlit("export ");
    reveal_strlit("export");
    reveal_strlit("json");
    reveal_strlit("csv");
    assert(whole =~= "export"@ + seq![' '] + format);
    assert(lowered(whole) =~= whole);
    assert(is_word("export"@) && is_word(format));
    lemma_words_after_word("export"@, ' ', format);
    lemma_words_of_word(format);
    lemma_same_ignoring_case(t, whole);
    lemma_words_lowered(t);
    lemma_words_of_trimmed(line);
    assert(words(lowered(t)) =~= seq!["export"@, format]);
    assert(words(lowered(t))[0] == lowered(words(t)[0]));
}

proof fn lemma_no_export(line: Seq<char>)
    requires
        words(line).len() == 0 || lowered(words(line)[0]) != "export"@,
    ensures
        command_of(line) == command_in_words(words(line)),
{
    reveal_strlit("export json");
    reveal_strlit("export csv");
    reveal_strlit("export ");
    reveal_strlit("json");
    reveal_strlit("csv");
    assert("export json"@ =~= "export "@ + "json"@);
    assert("export csv"@ =~= "export "@ + "csv"@);
    lemma_words_of_trimmed(line);
    if same_ignoring_case(trimmed(line), "export json"@) {
        lemma_export_words(line, "json"@);
    }
    if same_ignoring_case(trimmed(line), "export csv"@) {
        lemma_export_words(line, "csv"@);
    }
}

/// The words of a line decide what it asks for, however much white space there is between
/// and around them; only an export has to be written with a single space.
pub proof fn lemma_white_space_does_not_matter(a: Seq<char>, b: Seq<char>)
    requires
        words(a) == words(b),
        words(a).len() == 0 || lowered(words(a)[0]) != "export"@,
    ensures
        command_of(a) == command_of(b),
{
    lemma_no_export(a);
    lemma_no_export(b);
}

proof fn lemma_keyword(word: Seq<char>, keyword: Seq<char>)
    requires
        lowered(keyword) == keyword,
    ensures
        same_ignoring_case(word, keyword) <==> lowered(word) == keyword,
{
    lemma_same_ignoring_case(word, keyword);
}

proof fn lemma_keywords_are_low()
    ensures
        lowered("kill"@) == "kill"@,
        lowered("limit"@) == "limit"@,
        lowered("set"@) == "set"@,
        lowered("total"@) == "total"@,
        lowered("clear"@) == "clear"@,
        "kill"@ != "export"@,
        "limit"@ != "export"@,
        "kill"@ != "limit"@,
        "set"@ != "total"@,
        "set"@ != "clear"@,
        "total"@ != "clear"@,
{
    reveal_strlit("kill");
    reveal_strlit("limit");
    reveal_strlit("set");
    reveal_strlit("total");
    reveal_strlit("clear");
    reveal_strlit("export");
    assert(lowered("kill"@) =~= "kill"@);
    assert(lowered("limit"@) =~= "limit"@);
    assert(lowered("set"@) =~= "set"@);
    assert(lowered("total"@) =~= "total"@);
    assert(lowered("clear"@) =~= "clear"@);
    assert("kill"@[0] != "export"@[0]);
    assert("limit"@[0] != "export"@[0]);
    assert("kill"@[0] != "limit"@[0]);
    assert("set"@[0] != "total"@[0]);
    assert("set"@[0] != "clear"@[0]);
    assert("total"@[0] != "clear"@[0]);
}

/// A line asks to stop a process exactly if its words are `kill` and a number that a
/// process can have; a `kill` with one other word is refused.
#[verifier::spinoff_prover]
pub proof fn lemma_kill_command(line: Seq<char>, pid: u32)
    ensures
        command_of(line) == (Command::Kill { pid }) <==> words(line).len() == 2 && lowered(
            words(line)[0],
        ) == "kill"@ && number_of(words(line)[1], 10, u32::MAX as nat) == Some(pid as nat),
        words(line).len() == 2 && lowered(words(line)[0]) == "kill"@ && number_of(
            words(line)[1],
            10,
            u32::MAX as nat,
        ) is None ==> command_of(line) == Command::Refuse(Refusal::InvalidPid),
{
    let w = words(line);
    lemma_keywords_are_low();
    if w.len() == 0 || lowered(w[0]) != "export"@ {
        lemma_no_export(line);
    }
    lemma_words_of_trimmed(line);
    if w.len() > 0 {
        lemma_keyword(w[0], "kill"@);
    }
}

/// A line asks to limit a rate exactly if its words are `limit set`, a process id and a
/// number of bytes over zero; whatever else stands in place of the two numbers is refused,
/// with the reason.
#[verifier::spinoff_prover]
pub proof fn lemma_rate_command(line: Seq<char>, pid: u32, bps: u64)
    ensures
        ({
            let w = words(line);
            let form = w.len() == 4 && lowered(w[0]) == "limit"@ && lowered(w[1]) == "set"@;
            let who = number_of(w[2], 10, u32::MAX as nat);
            let much = number_of(w[3], 10, u64::MAX as nat);
            &&& command_of(line) == Command::Limit(LimitChange::SetRate { pid, bps }) <==> form
                && who == Some(pid as nat) && much == Some(bps as nat) && bps > 0
            &&& form && who is None ==> command_of(line) == Command::Refuse(Refusal::InvalidPid)
            &&& form && who is Some && much is None ==> command_of(line) == Command::Refuse(
                Refusal::InvalidRate,
            )
            &&& form && who is Some && much == Some(0nat) ==> command_of(line) == Command::Refuse(
                Refusal::ZeroRate,
            )
        }),
{
    let w = words(line);
    lemma_keywords_are_low();
    if w.len() == 0 || lowered(w[0]) != "export"@ {
        lemma_no_export(line);
    }
    lemma_words_of_trimmed(line);
    if w.len() >= 2 {
        lemma_keyword(w[0], "kill"@);
        lemma_keyword(w[0], "limit"@);
        lemma_keyword(w[1], "set"@);
        lemma_keyword(w[1], "total"@);
        lemma_keyword(w[1], "clear"@);
    }
}

/// A line asks to cap a total exactly if its words are `limit total set`, a process id and
/// a number of bytes over zero; whatever else stands in place of the two numbers is
/// refused, with the reason.
#[verifier::spinoff_prover]
pub proof fn lemma_total_command(line: Seq<char>, pid: u32, max_bytes: u64)
    ensures
        ({
            let w = words(line);
            let form = w.len() == 5 && lowered(w[0]) == "limit"@ && lowered(w[1]) == "total"@
                && lowered(w[2]) == "set"@;
            let who = number_of(w[3], 10, u32::MAX as nat);
            let much = number_of(w[4], 10, u64::MAX as nat);
            &&& command_of(line) == Command::Limit(LimitChange::SetTotal { pid, max_bytes }) <==> form
                && who == Some(pid as nat) && much == Some(max_bytes as nat) && max_bytes > 0
            &&& form && who is None ==> command_of(line) == Command::Refuse(Refusal::InvalidPid)
            &&& form && who is Some && much is None ==> command_of(line) == Command::Refuse(
                Refusal::InvalidTotal,
            )
            &&& form && who is Some && much == Some(0nat) ==> command_of(line) == Command::Refuse(
                Refusal::ZeroTotal,
            )
        }),
{
    let w = words(line);
    lemma_keywords_are_low();
    if w.len() == 0 || lowered(w[0]) != "export"@ {
        lemma_no_export(line);
    }
    lemma_words_of_trimmed(line);
    if w.len() >= 2 {
        lemma_keyword(w[0], "kill"@);
        lemma_keyword(w[0], "limit"@);
        lemma_keyword(w[1], "set"@);
        lemma_keyword(w[1], "total"@);
        lemma_keyword(w[1], "clear"@);
    }
    if w.len() >= 3 {
        lemma_keyword(w[2], "set"@);
    }
}

/// A line asks to lift the limits of a process exactly if its words are `limit clear` and a
/// process id; another word in place of the id is refused.
#[verifier::spinoff_prover]
pub proof fn lemma_clear_command(line: Seq<char>, pid: u32)
    ensures
        ({
            let w = words(line);
            let form = w.len() == 3 && lowered(w[0]) == "limit"@ && lowered(w[1]) == "clear"@;
            let who = number_of(w[2], 10, u32::MAX as nat);
            &&& command_of(line) == Command::Limit(LimitChange::Clear { pid }) <==> form && who
                == Some(pid as nat)
            &&& form && who is None ==> command_of(line) == Command::Refuse(Refusal::InvalidPid)
        }),
{
    let w = words(line);
    lemma_keywords_are_low();
    if w.len() == 0 || lowered(w[0]) != "export"@ {
        lemma_no_export(line);
    }
    lemma_words_of_trimmed(line);
    if w.len() >= 2 {
        lemma_keyword(w[0], "kill"@);
        lemma_keyword(w[0], "limit"@);
        lemma_keyword(w[1], "set"@);
        lemma_keyword(w[1], "total"@);
        lemma_keyword(w[1], "clear"@);
    }
}

/// The history is exported exactly for the two lines that ask for it, in any case of
/// letters and with any white space around them; a line that begins with none of the
/// keywords asks for the stream.
pub proof fn lemma_export_or_stream(line: Seq<char>)
    ensures
        command_of(line) is ExportJson <==> lowered(trimmed(line)) == "export json"@,
        command_of(line) is ExportCsv <==> lowered(trimmed(line)) == "export csv"@,
        words(line).len() == 0 ==> command_of(line) is Stream,
        words(line).len() > 0 && lowered(words(line)[0]) != "export"@ && lowered(words(line)[0])
            != "kill"@ && lowered(words(line)[0]) != "limit"@ ==> command_of(line) is Stream,
{
    let w = words(line);
    let t = trimmed(line);
    lemma_keywords_are_low();
    assert(lowered("export json"@) == "export json"@ && lowered("export csv"@) == "export csv"@
        && "export json"@ != "export csv"@) by {
        reveal_strlit("export json");
        reveal_strlit("export csv");
        assert(lowered("export json"@) =~= "export json"@);
        assert(lowered("export csv"@) =~= "export csv"@);
        assert("export json"@.len() != "export csv"@.len());
    }
    lemma_keyword(t, "export json"@);
    lemma_keyword(t, "export csv"@);
    if w.len() == 0 || lowered(w[0]) != "export"@ {
        lemma_no_export(line);
    }
    if w.len() > 0 {
        lemma_keyword(w[0], "kill"@);
        lemma_keyword(w[0], "limit"@);
    }
}

/// A client that asks to stop a process has it signalled, by its own id, unless the process
/// is 0 or 1, the backend, or none at all; a limit is confirmed, and what is refused is
/// answered with an error.
pub proof fn lemma_client_is_answered(pid: u32, own_pid: u32, change: LimitChange, refusal: Refusal)
    ensures
        1 < pid <= i32::MAX && pid != own_pid ==> answer_to(Command::Kill { pid }, own_pid) == (
        AnswerView::Signal { raw_pid: pid as int }),
        !(1 < pid <= i32::MAX && pid != own_pid) ==> (answer_to(
            Command::Kill { pid },
            own_pid,
        ) matches AnswerView::Reply(line) && "ERR "@.is_prefix_of(line)),
        answer_to(Command::Limit(change), own_pid) == AnswerView::Reply("OK\n"@),
        answer_to(Command::Refuse(refusal), own_pid) matches AnswerView::Reply(line)
            && "ERR "@.is_prefix_of(line),
        answer_to(Command::ExportJson, own_pid) is ExportJson,
        answer_to(Command::ExportCsv, own_pid) is ExportCsv,
        answer_to(Command::Stream, own_pid) is Stream,
        answer_without(Command::Limit(change), own_pid) matches AnswerView::Reply(line)
            && "ERR "@.is_prefix_of(line),
        answer_without(Command::Kill { pid }, own_pid) == answer_to(Command::Kill { pid }, own_pid),
        answer_without(Command::ExportCsv, own_pid) is ExportCsv,
        answer_without(Command::ExportJson, own_pid) is ExportJson,
        answer_without(Command::Stream, own_pid) is Stream,
{
    let err = "ERR "@;
    assert forall|reason: Seq<char>| err.is_prefix_of(#[trigger] reply_text(Some(reason))) by {
        let line = reply_text(Some(reason));
        assert(line.take(err.len() as int) =~= err);
        assert(err =~= line.subrange(0, err.len() as int));
    }
}

/// The reasons for a refusal can be told apart.
pub proof fn lemma_refusals_differ(a: Refusal, b: Refusal)
    ensures
        refusal_text(a) == refusal_text(b) <==> a == b,
{
    reveal_strlit("invalid pid");
    reveal_strlit("invalid bytes_per_sec");
    reveal_strlit("limit must be > 0");
    reveal_strlit("invalid max_bytes");
    reveal_strlit("max_bytes must be > 0");
    assert("invalid pid"@.len() == 11);
    assert("invalid bytes_per_sec"@.len() == 21 && "max_bytes must be > 0"@.len() == 21);
    assert("limit must be > 0"@.len() == 17 && "invalid max_bytes"@.len() == 17);
    assert("invalid max_bytes"@[0] != "limit must be > 0"@[0]);
    assert("invalid bytes_per_sec"@[0] != "max_bytes must be > 0"@[0]);
}

/// A limit that a client sets is in force afterwards: that limit for that process, with the
/// other limit of the process as it was; one that it lifts is gone. No other command
/// touches the limits.
pub proof fn lemma_limits_after_command(
    limits: Map<u32, PidLimitEntry>,
    pid: u32,
    amount: u64,
    command: Command,
)
    ensures
        ({
            let after = limits_after(
                limits,
                Command::Limit(LimitChange::SetRate { pid, bps: amount }),
            );
            &&& after.contains_key(pid) && after[pid].max_rate_bps == Some(amount)
            &&& limits.contains_key(pid) ==> {
                &&& after[pid].max_total_bytes == limits[pid].max_total_bytes
                &&& after[pid].accumulated_total_bytes == limits[pid].accumulated_total_bytes
            }
            &&& !limits.contains_key(pid) ==> after[pid].max_total_bytes is None
        }),
        ({
            let after = limits_after(
                limits,
                Command::Limit(LimitChange::SetTotal { pid, max_bytes: amount }),
            );
            &&& after.contains_key(pid) && after[pid].max_total_bytes == Some(amount)
            &&& after[pid].accumulated_total_bytes == 0
            &&& limits.contains_key(pid) ==> after[pid].max_rate_bps == limits[pid].max_rate_bps
            &&& !limits.contains_key(pid) ==> after[pid].max_rate_bps is None
        }),
        !limits_after(limits, Command::Limit(LimitChange::Clear { pid })).contains_key(pid),
        !(command is Limit) ==> limits_after(limits, command) == limits,
{
}

/// An answer is seen as it is, and so is the error of a result.
pub proof fn lemma_answer_is_seen(raw_pid: i32, line: String, reason: String)
    ensures
        (Answer::Signal { raw_pid })@ == (AnswerView::Signal { raw_pid: raw_pid as int }),
        Answer::Reply(line)@ == AnswerView::Reply(line@),
        Answer::ExportJson@ == AnswerView::ExportJson,
        Answer::ExportCsv@ == AnswerView::ExportCsv,
        Answer::Stream@ == AnswerView::Stream,
        error_of::<()>(Ok(())) is None,
        error_of::<()>(Err(reason)) == Some(reason@),
{
}

} // verus!
