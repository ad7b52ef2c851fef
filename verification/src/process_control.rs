//! Limits on the traffic of single processes, and which processes may be stopped.

use std::collections::HashMap;

use vstd::prelude::*;

use crate::aggregate::capped;
use crate::data::{rows_of, AutoKillEvent, AutoKillView, ConnectionSnapshot, SnapshotView};
use crate::number::{decimal, push_decimal};
use crate::text::{opt_text, same_text};

verus! {

broadcast use vstd::std_specs::hash::group_hash_axioms;

/// The limits of one process: an optional rate (bytes in one second) and an optional cap
/// on the bytes since that cap was set.
#[derive(Clone, Copy, Debug)]
pub struct PidLimitEntry {
    pub max_rate_bps: Option<u64>,
    pub max_total_bytes: Option<u64>,
    pub accumulated_total_bytes: u64,
}

/// No limits, and nothing counted yet.
pub open spec fn no_limits() -> PidLimitEntry {
    PidLimitEntry { max_rate_bps: None, max_total_bytes: None, accumulated_total_bytes: 0 }
}

impl Default for PidLimitEntry {
    fn default() -> (entry: Self)
        ensures
            entry == no_limits(),
    {
        PidLimitEntry { max_rate_bps: None, max_total_bytes: None, accumulated_total_bytes: 0 }
    }
}

/// The limits in force, by process.
pub struct ProcessLimits {
    pub entries: HashMap<u32, PidLimitEntry>,
}

impl View for ProcessLimits {
    type V = Map<u32, PidLimitEntry>;

    open spec fn view(&self) -> Map<u32, PidLimitEntry> {
        self.entries@
    }
}

/// No process has a limit.
pub fn new_process_limits() -> (limits: ProcessLimits)
    ensures
        limits@ == Map::<u32, PidLimitEntry>::empty(),
{
    ProcessLimits { entries: HashMap::new() }
}

/// The entry of a process, or one without limits.
pub open spec fn entry_or_default(limits: Map<u32, PidLimitEntry>, pid: u32) -> PidLimitEntry {
    if limits.contains_key(pid) {
        limits[pid]
    } else {
        no_limits()
    }
}

/// The limits once the rate of a process is limited; a cap on its total stays as it is.
pub open spec fn with_rate(
    limits: Map<u32, PidLimitEntry>,
    pid: u32,
    bps: u64,
) -> Map<u32, PidLimitEntry> {
    limits.insert(
        pid,
        PidLimitEntry { max_rate_bps: Some(bps), ..entry_or_default(limits, pid) },
    )
}

/// The limits once the total of a process is capped: counting starts anew, and a limit on
/// its rate stays as it is.
pub open spec fn with_total(
    limits: Map<u32, PidLimitEntry>,
    pid: u32,
    max_bytes: u64,
) -> Map<u32, PidLimitEntry> {
    limits.insert(
        pid,
        PidLimitEntry {
            max_total_bytes: Some(max_bytes),
            accumulated_total_bytes: 0,
            ..entry_or_default(limits, pid)
        },
    )
}

/// The bytes in and out that the rows of a process come to.
pub open spec fn pid_traffic(rows: Seq<SnapshotView>, pid: u32) -> nat
    decreases rows.len(),
{
    if rows.len() == 0 {
        0
    } else {
        let row = rows.last();
        let before = pid_traffic(rows.drop_last(), pid);
        if row.pid == Some(pid) {
            before + row.bytes_in_per_sec as nat + row.bytes_out_per_sec as nat
        } else {
            before
        }
    }
}

/// The rate of a process: its traffic, as far as the counter reaches.
pub open spec fn pid_rate(rows: Seq<SnapshotView>, pid: u32) -> u64 {
    capped(pid_traffic(rows, pid), u64::MAX as nat) as u64
}

/// The process name in the first row of a process.
pub open spec fn pid_name(rows: Seq<SnapshotView>, pid: u32) -> Option<Seq<char>>
    decreases rows.len(),
{
    if rows.len() == 0 {
        None
    } else if rows[0].pid == Some(pid) {
        rows[0].process_name
    } else {
        pid_name(rows.skip(1), pid)
    }
}

/// The entry after a second in which the process had the rate: traffic counts towards
/// the total only while there is a cap on it.
pub open spec fn charged(entry: PidLimitEntry, rate: u64) -> PidLimitEntry {
    if entry.max_total_bytes is Some {
        PidLimitEntry {
            accumulated_total_bytes: capped(
                entry.accumulated_total_bytes as nat + rate as nat,
                u64::MAX as nat,
            ) as u64,
            ..entry
        }
    } else {
        entry
    }
}

/// Whether the rate is over its limit.
pub open spec fn over_rate(entry: PidLimitEntry, rate: u64) -> bool {
    match entry.max_rate_bps {
        Some(limit) => rate > limit,
        None => false,
    }
}

/// Whether the total is over its cap.
pub open spec fn over_cap(entry: PidLimitEntry) -> bool {
    match entry.max_total_bytes {
        Some(cap) => entry.accumulated_total_bytes > cap,
        None => false,
    }
}

/// The event for a process that is over a limit, the rate first; `entry` is its entry
/// after the second was counted.
pub open spec fn kill_event(
    pid: u32,
    name: Option<Seq<char>>,
    entry: PidLimitEntry,
    rate: u64,
    timestamp: i64,
) -> Option<AutoKillView> {
    if over_rate(entry, rate) {
        Some(
            AutoKillView {
                pid,
                process_name: name,
                reason: "rate"@,
                threshold_bps: entry.max_rate_bps,
                observed_bps: Some(rate),
                threshold_total_bytes: None,
                observed_total_bytes: None,
                timestamp_unix: timestamp,
            },
        )
    } else if over_cap(entry) {
        Some(
            AutoKillView {
                pid,
                process_name: name,
                reason: "total"@,
                threshold_bps: None,
                observed_bps: None,
                threshold_total_bytes: entry.max_total_bytes,
                observed_total_bytes: Some(entry.accumulated_total_bytes),
                timestamp_unix: timestamp,
            },
        )
    } else {
        None
    }
}

/// The event that the rows of a second give for a process with an entry.
pub open spec fn event_due(
    limits: Map<u32, PidLimitEntry>,
    rows: Seq<SnapshotView>,
    timestamp: i64,
    pid: u32,
) -> Option<AutoKillView> {
    if limits.contains_key(pid) {
        let rate = pid_rate(rows, pid);
        kill_event(pid, pid_name(rows, pid), charged(limits[pid], rate), rate, timestamp)
    } else {
        None
    }
}

/// Whether some event is about the process.
pub open spec fn has_event(events: Seq<AutoKillEvent>, pid: u32) -> bool {
    exists|i: int| 0 <= i < events.len() && (#[trigger] events[i]).pid == pid
}

/// What a second does to the limits: every entry counts the rows of its process, and
/// there is exactly one event for each process that is over a limit.
pub open spec fn enforced(
    before: Map<u32, PidLimitEntry>,
    after: Map<u32, PidLimitEntry>,
    rows: Seq<SnapshotView>,
    timestamp: i64,
    events: Seq<AutoKillEvent>,
) -> bool {
    &&& after.dom() == before.dom()
    &&& forall|pid: u32| #[trigger]
        after.contains_key(pid) ==> after[pid] == charged(before[pid], pid_rate(rows, pid))
    &&& forall|i: int|
        0 <= i < events.len() ==> event_due(before, rows, timestamp, (#[trigger] events[i]).pid)
            == Some(events[i]@)
    &&& forall|i: int, j: int|
        0 <= i < j < events.len() ==> (#[trigger] events[i]).pid != (#[trigger] events[j]).pid
    &&& forall|pid: u32|
        #![trigger has_event(events, pid)]
        event_due(before, rows, timestamp, pid) is Some ==> has_event(events, pid)
}

/// The rate of a process in the rows.
fn rate_of(rows: &[ConnectionSnapshot], pid: u32) -> (rate: u64)
    ensures
        rate == pid_rate(rows_of(rows@), pid),
{
    let ghost all = rows_of(rows@);
    let mut rate: u64 = 0;
    let mut i: usize = 0;
    while i < rows.len()
        invariant
            i <= rows.len(),
            all == rows_of(rows@),
            rate == capped(pid_traffic(all.take(i as int), pid), u64::MAX as nat),
        decreases rows.len() - i,
    {
        assert(all.take(i + 1).drop_last() =~= all.take(i as int));
        assert(all.take(i + 1).last() == rows@[i as int]@);
        if rows[i].pid == Some(pid) {
            let more: u64 = rows[i].bytes_in_per_sec.saturating_add(rows[i].bytes_out_per_sec);
            rate = rate.saturating_add(more);
        }
        i = i + 1;
    }
    assert(all.take(i as int) =~= all);
    rate
}

/// The process name in the first row of a process.
fn name_of(rows: &[ConnectionSnapshot], pid: u32) -> (name: Option<String>)
    ensures
        opt_text(name) == pid_name(rows_of(rows@), pid),
{
    let ghost all = rows_of(rows@);
    let mut i: usize = 0;
    assert(all.skip(0) =~= all);
    while i < rows.len()
        invariant
            i <= rows.len(),
            all == rows_of(rows@),
            pid_name(all.skip(i as int), pid) == pid_name(all, pid),
        decreases rows.len() - i,
    {
        assert(all.skip(i as int)[0] == rows@[i as int]@);
        if rows[i].pid == Some(pid) {
            return rows[i].process_name.clone();
        }
        assert(all.skip(i as int).skip(1) =~= all.skip(i + 1));
        i = i + 1;
    }
    None
}

impl PidLimitEntry {
    /// Counts a second in which the process had the rate.
    fn charge(self, rate: u64) -> (entry: PidLimitEntry)
        ensures
            entry == charged(self, rate),
    {
        if self.max_total_bytes.is_some() {
            PidLimitEntry {
                accumulated_total_bytes: self.accumulated_total_bytes.saturating_add(rate),
                ..self
            }
        } else {
            self
        }
    }

    /// The event for the process, if it is over a limit.
    fn verdict(
        self,
        pid: u32,
        name: Option<String>,
        rate: u64,
        timestamp: i64,
    ) -> (event: Option<AutoKillEvent>)
        ensures
            match event {
                Some(e) => kill_event(pid, opt_text(name), self, rate, timestamp) == Some(e@),
                None => kill_event(pid, opt_text(name), self, rate, timestamp) is None,
            },
    {
        if let Some(limit) = self.max_rate_bps {
            if rate > limit {
                return Some(
                    AutoKillEvent {
                        pid,
                        process_name: name,
                        reason: "rate".to_owned(),
                        threshold_bps: Some(limit),
                        observed_bps: Some(rate),
                        threshold_total_bytes: None,
                        observed_total_bytes: None,
                        timestamp_unix: timestamp,
                    },
                );
            }
        }
        if let Some(cap) = self.max_total_bytes {
            if self.accumulated_total_bytes > cap {
                return Some(
                    AutoKillEvent {
                        pid,
                        process_name: name,
                        reason: "total".to_owned(),
                        threshold_bps: None,
                        observed_bps: None,
                        threshold_total_bytes: Some(cap),
                        observed_total_bytes: Some(self.accumulated_total_bytes),
                        timestamp_unix: timestamp,
                    },
                );
            }
        }
        None
    }
}

impl ProcessLimits {
    /// The entry of a process, or one without limits.
    fn entry_of(&self, pid: u32) -> (entry: PidLimitEntry)
        ensures
            entry == entry_or_default(self@, pid),
    {
        match self.entries.get(&pid) {
            Some(entry) => *entry,
            None => PidLimitEntry::default(),
        }
    }

    /// Limits the rate of a process; a cap on its total stays as it is.
    pub fn set_rate(&mut self, pid: u32, bps: u64)
        ensures
            final(self)@ == with_rate(old(self)@, pid, bps),
    {
        let entry = self.entry_of(pid);
        self.entries.insert(pid, PidLimitEntry { max_rate_bps: Some(bps), ..entry });
    }

    /// Caps the total of a process and starts to count anew; a limit on its rate stays as
    /// it is.
    pub fn set_total(&mut self, pid: u32, max_bytes: u64)
        ensures
            final(self)@ == with_total(old(self)@, pid, max_bytes),
    {
        let entry = self.entry_of(pid);
        self.entries.insert(
            pid,
            PidLimitEntry {
                max_total_bytes: Some(max_bytes),
                accumulated_total_bytes: 0,
                ..entry
            },
        );
    }

    /// Lifts all limits of a process.
    pub fn clear(&mut self, pid: u32)
        ensures
            final(self)@ == old(self)@.remove(pid),
    {
        self.entries.remove(&pid);
        assert(self@ =~= old(self)@.remove(pid));
    }

    /// The processes that have an entry.
    fn limited(&self) -> (pids: Vec<u32>)
        ensures
            pids@.no_duplicates(),
            forall|pid: u32| #[trigger] pids@.contains(pid) <==> self@.contains_key(pid),
    {
        let mut pids: Vec<u32> = Vec::new();
        for pid in it: self.entries.keys()
            invariant
                pids@ == it.seq().unref().take(it.index() as int),
                it.index() == it.seq().len() ==> pids@ == it.seq().unref(),
                it.seq().unref().to_set() == self@.dom(),
                it.seq().no_duplicates(),
        {
            pids.push(*pid);
            assert(pids@ =~= it.seq().unref().take(it.index() + 1));
            assert(it.index() + 1 == it.seq().len() ==> pids@ =~= it.seq().unref());
        }
        assert(pids@.to_set() == self@.dom());
        pids
    }

    /// Counts the rows of a second against the limits, and returns an event for each
    /// process that is over one.
    pub fn over_limits(
        &mut self,
        rows: &[ConnectionSnapshot],
        timestamp: i64,
    ) -> (events: Vec<AutoKillEvent>)
        ensures
            enforced(old(self)@, final(self)@, rows_of(rows@), timestamp, events@),
    {
        let ghost before = self@;
        let ghost all = rows_of(rows@);
        let pids = self.limited();
        let mut events: Vec<AutoKillEvent> = Vec::new();
        let mut k: usize = 0;
        while k < pids.len()
            invariant
                k <= pids.len(),
                all == rows_of(rows@),
                pids@.no_duplicates(),
                forall|pid: u32| #[trigger] pids@.contains(pid) <==> before.contains_key(pid),
                self@.dom() == before.dom(),
                forall|m: int|
                    0 <= m < k ==> self@[#[trigger] pids@[m]] == charged(
                        before[pids@[m]],
                        pid_rate(all, pids@[m]),
                    ),
                forall|m: int| k <= m < pids.len() ==> self@[#[trigger] pids@[m]] == before[pids@[m]],
                forall|i: int|
                    0 <= i < events@.len() ==> event_due(
                        before,
                        all,
                        timestamp,
                        (#[trigger] events@[i]).pid,
                    ) == Some(events@[i]@),
                forall|i: int|
                    0 <= i < events@.len() ==> pids@.take(k as int).contains(
                        (#[trigger] events@[i]).pid,
                    ),
                forall|i: int, j: int|
                    0 <= i < j < events@.len() ==> (#[trigger] events@[i]).pid != (
                    #[trigger] events@[j]).pid,
                forall|m: int|
                    0 <= m < k && event_due(before, all, timestamp, pids@[m]) is Some ==> has_event(
                        events@,
                        #[trigger] pids@[m],
                    ),
            decreases pids.len() - k,
        {
            let pid: u32 = pids[k];
            assert(pids@.contains(pid));
            let rate: u64 = rate_of(rows, pid);
            let name = name_of(rows, pid);
            let entry = self.entry_of(pid).charge(rate);
            self.entries.insert(pid, entry);
            assert(self@.dom() =~= before.dom());
            let ghost so_far = events@;
            assert(!pids@.take(k as int).contains(pid)) by {
                if pids@.take(k as int).contains(pid) {
                    let m = choose|m: int| 0 <= m < k && pids@.take(k as int)[m] == pid;
                    assert(pids@[m] == pids@[k as int]);
                }
            }
            assert forall|p: u32| pids@.take(k as int).contains(p) implies pids@.take(
                k + 1,
            ).contains(p) by {
                let m = choose|m: int| 0 <= m < k && pids@.take(k as int)[m] == p;
                assert(pids@.take(k + 1)[m] == p);
            }
            assert(pids@.take(k + 1)[k as int] == pid);
            if let Some(event) = entry.verdict(pid, name, rate, timestamp) {
                events.push(event);
                assert(events@[events@.len() - 1].pid == pid);
                assert(has_event(events@, pid));
            }
            assert forall|p: u32| has_event(so_far, p) implies has_event(events@, p) by {
                let i = choose|i: int| 0 <= i < so_far.len() && (#[trigger] so_far[i]).pid == p;
                assert(events@[i].pid == p);
            }
            k = k + 1;
        }
        assert forall|pid: u32| event_due(before, all, timestamp, pid) is Some implies has_event(
            events@,
            pid,
        ) by {
            assert(pids@.contains(pid));
            let m = choose|m: int| 0 <= m < pids@.len() && pids@[m] == pid;
            assert(pids@[m] == pid);
        }
        assert forall|pid: u32| #[trigger] self@.contains_key(pid) implies self@[pid] == charged(
            before[pid],
            pid_rate(all, pid),
        ) by {
            assert(pids@.contains(pid));
            let m = choose|m: int| 0 <= m < pids@.len() && pids@[m] == pid;
            assert(pids@[m] == pid);
        }
        events
    }
}

/// The reason for which a process may not be stopped.
pub open spec fn protected(pid: u32, own_pid: u32) -> Option<Seq<char>> {
    if pid <= 1 || pid > i32::MAX {
        Some("refusing to signal privileged or invalid PID"@)
    } else if pid == own_pid {
        Some("refusing to terminate the net-monitor backend"@)
    } else {
        None
    }
}

/// Decides whether `pid` may be sent the signal to end: it may not be 0, 1 or the backend
/// itself, nor a number that no process can have. Gives the same id as the system takes
/// it, where a negative one would mean more than one process.
pub fn term_target(pid: u32, own_pid: u32) -> (target: Result<i32, String>)
    ensures
        match target {
            Ok(raw) => protected(pid, own_pid) is None && raw == pid,
            Err(reason) => protected(pid, own_pid) == Some(reason@),
        },
{
    if pid <= 1 || pid > i32::MAX as u32 {
        return Err("refusing to signal privileged or invalid PID".to_owned());
    }
    if pid == own_pid {
        return Err("refusing to terminate the net-monitor backend".to_owned());
    }
    Ok(pid as i32)
}

/// The limits once a process that is over one was to be sent the signal to end.
pub open spec fn limits_after_signal(
    limits: Map<u32, PidLimitEntry>,
    pid: u32,
    sent: bool,
) -> Map<u32, PidLimitEntry> {
    if sent {
        limits.remove(pid)
    } else {
        limits
    }
}

/// Goes on once a process that is over a limit was to be sent the signal to end: if it was
/// `sent`, all limits of the process are lifted and the event is to be published; else the
/// limits stay as they are.
pub fn after_signal(limits: &mut ProcessLimits, pid: u32, sent: bool) -> (publish: bool)
    ensures
        publish == sent,
        final(limits)@ == limits_after_signal(old(limits)@, pid, sent),
{
    if sent {
        limits.clear(pid);
    }
    sent
}

/// An amount that may be missing, as it stands in the log.
pub open spec fn amount_text(amount: Option<u64>) -> Seq<char> {
    match amount {
        Some(n) => "Some("@ + decimal(n as nat) + ")"@,
        None => "None"@,
    }
}

/// An amount that counts as zero if it is missing.
pub open spec fn amount_or_zero(amount: Option<u64>) -> u64 {
    match amount {
        Some(n) => n,
        None => 0,
    }
}

/// The line in the log for a process that was stopped over a limit.
pub open spec fn stop_text(event: AutoKillView) -> Seq<char> {
    let start = "net-monitor: auto-killed pid="@ + decimal(event.pid as nat) + " ("@;
    if event.reason == "rate"@ {
        start + "rate "@ + decimal(amount_or_zero(event.observed_bps) as nat) + " B/s > limit "@
            + amount_text(event.threshold_bps) + " B/s)"@
    } else if event.reason == "total"@ {
        start + "total "@ + decimal(amount_or_zero(event.observed_total_bytes) as nat)
            + " bytes >= cap "@ + amount_text(event.threshold_total_bytes) + " bytes)"@
    } else {
        start + event.reason + ")"@
    }
}

fn push_amount(out: &mut String, amount: Option<u64>)
    ensures
        final(out)@ == old(out)@ + amount_text(amount),
{
    match amount {
        Some(n) => {
            out.append("Some(");
            push_decimal(out, n);
            out.append(")");
        },
        None => {
            out.append("None");
        },
    }
}

fn or_zero(amount: Option<u64>) -> (n: u64)
    ensures
        n == amount_or_zero(amount),
{
    match amount {
        Some(n) => n,
        None => 0,
    }
}

/// Writes the line in the log for a process that was stopped over a limit: what was
/// observed and what was allowed or, for a reason other than the two known ones, the
/// reason.
pub fn stop_log(event: &AutoKillEvent) -> (line: String)
    ensures
        line@ == stop_text(event@),
{
    let mut line: String = "net-monitor: auto-killed pid=".to_owned();
    push_decimal(&mut line, event.pid as u64);
    line.append(" (");
    if same_text(event.reason.as_str(), "rate") {
        line.append("rate ");
        push_decimal(&mut line, or_zero(event.observed_bps));
        line.append(" B/s > limit ");
        push_amount(&mut line, event.threshold_bps);
        line.append(" B/s)");
    } else if same_text(event.reason.as_str(), "total") {
        line.append("total ");
        push_decimal(&mut line, or_zero(event.observed_total_bytes));
        line.append(" bytes >= cap ");
        push_amount(&mut line, event.threshold_total_bytes);
        line.append(" bytes)");
    } else {
        line.append(event.reason.as_str());
        line.append(")");
    }
    line
}

/// Setting or lifting a limit of one process leaves every other process as it was.
pub proof fn lemma_limits_are_separate(
    limits: Map<u32, PidLimitEntry>,
    pid: u32,
    amount: u64,
    other: u32,
)
    requires
        other != pid,
    ensures
        with_rate(limits, pid, amount).contains_key(other) == limits.contains_key(other),
        with_rate(limits, pid, amount)[other] == limits[other],
        with_total(limits, pid, amount).contains_key(other) == limits.contains_key(other),
        with_total(limits, pid, amount)[other] == limits[other],
        limits.remove(pid).contains_key(other) == limits.contains_key(other),
        limits.contains_key(other) ==> limits.remove(pid)[other] == limits[other],
{
}

/// A limit on the rate and a cap on the total of one process do not disturb each other,
/// in whichever order they are set.
pub proof fn lemma_rate_and_total_commute(
    limits: Map<u32, PidLimitEntry>,
    pid: u32,
    bps: u64,
    max_bytes: u64,
)
    ensures
        with_total(with_rate(limits, pid, bps), pid, max_bytes) == with_rate(
            with_total(limits, pid, max_bytes),
            pid,
            bps,
        ),
{
    assert(with_total(with_rate(limits, pid, bps), pid, max_bytes) =~= with_rate(
        with_total(limits, pid, max_bytes),
        pid,
        bps,
    ));
}

/// Lifting the limits of a process undoes whatever was set for it.
pub proof fn lemma_clear_undoes_set(limits: Map<u32, PidLimitEntry>, pid: u32, amount: u64)
    ensures
        with_rate(limits, pid, amount).remove(pid) == limits.remove(pid),
        with_total(limits, pid, amount).remove(pid) == limits.remove(pid),
        !limits.remove(pid).contains_key(pid),
{
    assert(with_rate(limits, pid, amount).remove(pid) =~= limits.remove(pid));
    assert(with_total(limits, pid, amount).remove(pid) =~= limits.remove(pid));
}

/// What is counted towards a cap never decreases, and never changes without a cap.
pub proof fn lemma_total_only_grows(entry: PidLimitEntry, rate: u64)
    ensures
        charged(entry, rate).accumulated_total_bytes >= entry.accumulated_total_bytes,
        entry.max_total_bytes is None ==> charged(entry, rate) == entry,
        over_cap(entry) ==> over_cap(charged(entry, rate)),
{
}

/// A process without an entry, or whose entry holds no limit, is never stopped; one with
/// an entry is stopped exactly if its rate exceeds the limit or its total exceeds the cap.
pub proof fn lemma_stopped_only_over_limit(
    limits: Map<u32, PidLimitEntry>,
    rows: Seq<SnapshotView>,
    timestamp: i64,
    pid: u32,
)
    ensures
        event_due(limits, rows, timestamp, pid) is Some <==> limits.contains_key(pid) && {
            let rate = pid_rate(rows, pid);
            ||| over_rate(limits[pid], rate)
            ||| over_cap(charged(limits[pid], rate))
        },
{
}

/// The id that is signalled is that of the process that was asked for, never that of a
/// group of processes.
pub proof fn lemma_only_one_process_is_signalled(pid: u32, own_pid: u32)
    requires
        protected(pid, own_pid) is None,
    ensures
        1 < pid <= i32::MAX,
        pid != own_pid,
{
}

/// Once its limits are lifted, a process is not stopped again, and all others are treated
/// as before.
pub proof fn lemma_stopped_once(
    limits: Map<u32, PidLimitEntry>,
    rows: Seq<SnapshotView>,
    timestamp: i64,
    stopped: u32,
    pid: u32,
)
    ensures
        event_due(limits.remove(stopped), rows, timestamp, pid) == if pid == stopped {
            None
        } else {
            event_due(limits, rows, timestamp, pid)
        },
{
}

/// The traffic of a process is the sum over the rows that name it, each with its bytes in
/// and out, in whatever stretches the rows are taken.
pub proof fn lemma_traffic_adds_up(
    a: Seq<SnapshotView>,
    b: Seq<SnapshotView>,
    row: SnapshotView,
    pid: u32,
)
    ensures
        pid_traffic(Seq::empty(), pid) == 0,
        row.pid == Some(pid) ==> pid_traffic(seq![row], pid) == row.bytes_in_per_sec
            + row.bytes_out_per_sec,
        row.pid != Some(pid) ==> pid_traffic(seq![row], pid) == 0,
        pid_traffic(a + b, pid) == pid_traffic(a, pid) + pid_traffic(b, pid),
    decreases b.len(),
{
    reveal_with_fuel(pid_traffic, 2);
    assert(seq![row].drop_last() =~= Seq::empty());
    if b.len() == 0 {
        assert(a + b =~= a);
    } else {
        lemma_traffic_adds_up(a, b.drop_last(), row, pid);
        assert((a + b).drop_last() =~= a + b.drop_last());
        assert((a + b).last() == b.last());
    }
}

/// While a total is capped, a second adds the traffic of the process to its counter,
/// whatever its rate limit, its cap and the traffic are, up to the largest value; without
/// a cap nothing is counted. Counting changes no limit.
pub proof fn lemma_capped_process_is_charged(entry: PidLimitEntry, rate: u64)
    ensures
        entry.max_total_bytes is Some && entry.accumulated_total_bytes + rate <= u64::MAX
            ==> charged(entry, rate).accumulated_total_bytes == entry.accumulated_total_bytes
            + rate,
        entry.max_total_bytes is Some && entry.accumulated_total_bytes + rate > u64::MAX
            ==> charged(entry, rate).accumulated_total_bytes == u64::MAX,
        entry.max_total_bytes is None ==> charged(entry, rate).accumulated_total_bytes
            == entry.accumulated_total_bytes,
        charged(entry, rate).max_rate_bps == entry.max_rate_bps,
        charged(entry, rate).max_total_bytes == entry.max_total_bytes,
{
}

/// An entry after some seconds with the given rates.
pub open spec fn charged_for(entry: PidLimitEntry, rates: Seq<u64>) -> PidLimitEntry
    decreases rates.len(),
{
    if rates.len() == 0 {
        entry
    } else {
        charged(charged_for(entry, rates.drop_last()), rates.last())
    }
}

/// The sum of some rates.
pub open spec fn sum_of_rates(rates: Seq<u64>) -> int
    decreases rates.len(),
{
    if rates.len() == 0 {
        0
    } else {
        sum_of_rates(rates.drop_last()) + rates.last()
    }
}

/// Once the total of a process is capped, its counter holds the traffic of all seconds
/// since then, and so the process is over its cap exactly if that sum is.
pub proof fn lemma_total_since_cap_was_set(
    limits: Map<u32, PidLimitEntry>,
    pid: u32,
    max_bytes: u64,
    rates: Seq<u64>,
)
    requires
        sum_of_rates(rates) <= u64::MAX,
    ensures
        ({
            let entry = charged_for(with_total(limits, pid, max_bytes)[pid], rates);
            &&& entry.accumulated_total_bytes == sum_of_rates(rates)
            &&& entry.max_total_bytes == Some(max_bytes)
            &&& over_cap(entry) <==> sum_of_rates(rates) > max_bytes
        }),
        sum_of_rates(rates) >= 0,
    decreases rates.len(),
{
    if rates.len() > 0 {
        lemma_rates_are_not_negative(rates.drop_last());
        lemma_total_since_cap_was_set(limits, pid, max_bytes, rates.drop_last());
    }
}

proof fn lemma_rates_are_not_negative(rates: Seq<u64>)
    ensures
        sum_of_rates(rates) >= 0,
    decreases rates.len(),
{
    if rates.len() > 0 {
        lemma_rates_are_not_negative(rates.drop_last());
    }
}

/// A process with a rate limit is stopped in every second in which its traffic exceeds the
/// limit, and one with a cap as soon as its total exceeds the cap, whether or not it has
/// the other limit too; there is no other reason to stop a process. The event names the
/// limit that was exceeded, the rate before the total, and what was observed.
pub proof fn lemma_limits_are_enforced(
    limits: Map<u32, PidLimitEntry>,
    rows: Seq<SnapshotView>,
    timestamp: i64,
    pid: u32,
)
    requires
        limits.contains_key(pid),
        limits[pid].accumulated_total_bytes + pid_traffic(rows, pid) <= u64::MAX,
    ensures
        ({
            let traffic = pid_traffic(rows, pid);
            let total = limits[pid].accumulated_total_bytes + traffic;
            let fast = limits[pid].max_rate_bps matches Some(limit) && traffic > limit;
            let much = limits[pid].max_total_bytes matches Some(cap) && total > cap;
            &&& event_due(limits, rows, timestamp, pid) is Some <==> fast || much
            &&& event_due(limits, rows, timestamp, pid) matches Some(e) ==> {
                &&& e.pid == pid
                &&& e.timestamp_unix == timestamp
                &&& fast ==> {
                    &&& e.reason == "rate"@
                    &&& e.threshold_bps == limits[pid].max_rate_bps
                    &&& e.observed_bps matches Some(n) && n == traffic
                    &&& e.threshold_total_bytes is None
                    &&& e.observed_total_bytes is None
                }
                &&& !fast ==> {
                    &&& e.reason == "total"@
                    &&& e.threshold_total_bytes == limits[pid].max_total_bytes
                    &&& e.observed_total_bytes matches Some(n) && n == total
                    &&& e.threshold_bps is None
                    &&& e.observed_bps is None
                }
            }
        }),
{
}

/// A process is called by the name in the first row that names it; the rows of other
/// processes do not matter.
pub proof fn lemma_event_is_named_by_first_row(
    limits: Map<u32, PidLimitEntry>,
    rows: Seq<SnapshotView>,
    timestamp: i64,
    pid: u32,
    i: int,
)
    requires
        0 <= i < rows.len(),
        rows[i].pid == Some(pid),
        forall|k: int| 0 <= k < i ==> (#[trigger] rows[k]).pid != Some(pid),
    ensures
        event_due(limits, rows, timestamp, pid) matches Some(e) ==> e.process_name
            == rows[i].process_name,
{
    lemma_first_name(rows, pid, i);
}

proof fn lemma_first_name(rows: Seq<SnapshotView>, pid: u32, i: int)
    requires
        0 <= i < rows.len(),
        rows[i].pid == Some(pid),
        forall|k: int| 0 <= k < i ==> (#[trigger] rows[k]).pid != Some(pid),
    ensures
        pid_name(rows, pid) == rows[i].process_name,
    decreases rows.len(),
{
    if i > 0 {
        let more = rows.skip(1);
        assert(rows[0].pid != Some(pid));
        assert forall|k: int| 0 <= k < i - 1 implies (#[trigger] more[k]).pid != Some(pid) by {
            assert(more[k] == rows[k + 1]);
        }
        assert(more[i - 1] == rows[i]);
        lemma_first_name(more, pid, i - 1);
    }
}

/// Rows that do not name a process change nothing for it.
pub proof fn lemma_strangers_do_not_count(
    limits: Map<u32, PidLimitEntry>,
    rows: Seq<SnapshotView>,
    row: SnapshotView,
    timestamp: i64,
    pid: u32,
)
    requires
        row.pid != Some(pid),
    ensures
        pid_rate(rows.push(row), pid) == pid_rate(rows, pid),
        event_due(limits, rows.push(row), timestamp, pid) is Some == event_due(
            limits,
            rows,
            timestamp,
            pid,
        ) is Some,
{
    assert(rows.push(row).drop_last() =~= rows);
}

/// More traffic of a process never keeps it from being stopped.
pub proof fn lemma_more_traffic_is_no_excuse(
    limits: Map<u32, PidLimitEntry>,
    rows: Seq<SnapshotView>,
    row: SnapshotView,
    timestamp: i64,
    pid: u32,
)
    requires
        event_due(limits, rows, timestamp, pid) is Some,
    ensures
        event_due(limits, rows.push(row), timestamp, pid) is Some,
{
    assert(rows.push(row).drop_last() =~= rows);
}

/// After a second every limited process is still limited, with what it had counted and the
/// traffic of the second if its total is capped, and the events are those that are due,
/// one for each process.
pub proof fn lemma_second_is_enforced(
    before: Map<u32, PidLimitEntry>,
    after: Map<u32, PidLimitEntry>,
    rows: Seq<SnapshotView>,
    timestamp: i64,
    events: Seq<AutoKillEvent>,
    pid: u32,
)
    requires
        enforced(before, after, rows, timestamp, events),
        before.contains_key(pid),
        before[pid].accumulated_total_bytes + pid_traffic(rows, pid) <= u64::MAX,
    ensures
        after.contains_key(pid),
        after[pid].max_rate_bps == before[pid].max_rate_bps,
        after[pid].max_total_bytes == before[pid].max_total_bytes,
        before[pid].max_total_bytes is Some ==> after[pid].accumulated_total_bytes
            == before[pid].accumulated_total_bytes + pid_traffic(rows, pid),
        before[pid].max_total_bytes is None ==> after[pid].accumulated_total_bytes
            == before[pid].accumulated_total_bytes,
        has_event(events, pid) <==> {
            ||| before[pid].max_rate_bps matches Some(limit) && pid_traffic(rows, pid) > limit
            ||| before[pid].max_total_bytes matches Some(cap)
                && before[pid].accumulated_total_bytes + pid_traffic(rows, pid) > cap
        },
        forall|i: int, j: int|
            0 <= i < events.len() && 0 <= j < events.len() && i != j ==> (#[trigger] events[i]).pid
                != (#[trigger] events[j]).pid,
{
    lemma_limits_are_enforced(before, rows, timestamp, pid);
    assert(after.dom().contains(pid));
    if has_event(events, pid) {
        let i = choose|i: int| 0 <= i < events.len() && (#[trigger] events[i]).pid == pid;
        assert(event_due(before, rows, timestamp, events[i].pid) == Some(events[i]@));
    }
    assert forall|i: int, j: int| 0 <= i < events.len() && 0 <= j < events.len() && i != j implies (
    #[trigger] events[i]).pid != (#[trigger] events[j]).pid by {
        if i < j {
            assert(events[i].pid != events[j].pid);
        } else {
            assert(events[j].pid != events[i].pid);
        }
    }
}

/// Setting a rate limit sets that limit and no other, and a counter that runs goes on;
/// setting a cap sets that cap and no other limit, and counting starts at zero.
pub proof fn lemma_limits_are_set_as_asked(
    limits: Map<u32, PidLimitEntry>,
    pid: u32,
    amount: u64,
)
    ensures
        with_rate(limits, pid, amount).contains_key(pid),
        with_rate(limits, pid, amount)[pid].max_rate_bps == Some(amount),
        with_total(limits, pid, amount).contains_key(pid),
        with_total(limits, pid, amount)[pid].max_total_bytes == Some(amount),
        with_total(limits, pid, amount)[pid].accumulated_total_bytes == 0,
        limits.contains_key(pid) ==> {
            &&& with_rate(limits, pid, amount)[pid].max_total_bytes == limits[pid].max_total_bytes
            &&& with_rate(limits, pid, amount)[pid].accumulated_total_bytes
                == limits[pid].accumulated_total_bytes
            &&& with_total(limits, pid, amount)[pid].max_rate_bps == limits[pid].max_rate_bps
        },
        !limits.contains_key(pid) ==> {
            &&& with_rate(limits, pid, amount)[pid].max_total_bytes is None
            &&& with_rate(limits, pid, amount)[pid].accumulated_total_bytes == 0
            &&& with_total(limits, pid, amount)[pid].max_rate_bps is None
        },
{
}

/// Every process can be stopped but process 0 and 1, the backend itself, and what is no
/// process; the backend is refused for another reason than those.
pub proof fn lemma_any_other_process_may_be_stopped(pid: u32, own_pid: u32, other: u32)
    requires
        1 < own_pid <= i32::MAX,
    ensures
        protected(pid, own_pid) is None <==> 1 < pid <= i32::MAX && pid != own_pid,
        protected(0, own_pid) == protected(1, own_pid),
        pid > i32::MAX ==> protected(pid, own_pid) == protected(0, own_pid),
        protected(own_pid, own_pid) != protected(0, own_pid),
        other != own_pid && other > 1 && pid != own_pid ==> protected(pid, other) == protected(
            pid,
            own_pid,
        ) || pid == other,
{
    reveal_strlit("refusing to signal privileged or invalid PID");
    reveal_strlit("refusing to terminate the net-monitor backend");
    assert("refusing to signal privileged or invalid PID"@[12]
        != "refusing to terminate the net-monitor backend"@[12]);
}

/// The limits of a process are lifted exactly if it was sent the signal; those of others
/// stay, and a process that could not be signalled is due again with the same traffic.
pub proof fn lemma_limits_go_with_the_signal(
    limits: Map<u32, PidLimitEntry>,
    pid: u32,
    other: u32,
    rows: Seq<SnapshotView>,
    timestamp: i64,
)
    ensures
        !limits_after_signal(limits, pid, true).contains_key(pid),
        event_due(limits_after_signal(limits, pid, true), rows, timestamp, pid) is None,
        event_due(limits_after_signal(limits, pid, false), rows, timestamp, pid) == event_due(
            limits,
            rows,
            timestamp,
            pid,
        ),
        other != pid ==> limits_after_signal(limits, pid, true).contains_key(other)
            == limits.contains_key(other),
        other != pid && limits.contains_key(other) ==> limits_after_signal(
            limits,
            pid,
            true,
        )[other] == limits[other],
{
}

/// The log of a process over its rate limit names the process, says what was observed and,
/// behind it, the limit.
pub proof fn lemma_log_of_rate(event: AutoKillView, limit: u64, observed: u64)
    requires
        event.reason == "rate"@,
        event.threshold_bps == Some(limit),
        event.observed_bps == Some(observed),
    ensures
        (decimal(event.pid as nat) + " ("@ + "rate "@ + decimal(observed as nat) + " B/s > limit "@
            + ("Some("@ + decimal(limit as nat) + ")"@) + " B/s)"@).is_suffix_of(stop_text(event)),
{
    let start = "net-monitor: auto-killed pid="@;
    let end = decimal(event.pid as nat) + " ("@ + "rate "@ + decimal(observed as nat)
        + " B/s > limit "@ + ("Some("@ + decimal(limit as nat) + ")"@) + " B/s)"@;
    let text = stop_text(event);
    assert(text =~= start + end);
    assert(end =~= text.subrange(text.len() - end.len(), text.len() as int));
}

/// A reason other than the two known ones stands in the log as it is, behind the process.
pub proof fn lemma_log_of_other_reason(event: AutoKillView)
    requires
        event.reason != "rate"@,
        event.reason != "total"@,
    ensures
        (decimal(event.pid as nat) + " ("@ + event.reason + ")"@).is_suffix_of(stop_text(event)),
{
    let start = "net-monitor: auto-killed pid="@;
    let end = decimal(event.pid as nat) + " ("@ + event.reason + ")"@;
    let text = stop_text(event);
    assert(text =~= start + end);
    assert(end =~= text.subrange(text.len() - end.len(), text.len() as int));
}

/// The log of a process over its cap says what was counted and, behind it, the cap.
pub proof fn lemma_log_of_total(event: AutoKillView, cap: u64, observed: u64)
    requires
        event.reason == "total"@,
        event.threshold_total_bytes == Some(cap),
        event.observed_total_bytes == Some(observed),
    ensures
        (decimal(event.pid as nat) + " ("@ + "total "@ + decimal(observed as nat)
            + " bytes >= cap "@ + ("Some("@ + decimal(cap as nat) + ")"@)
            + " bytes)"@).is_suffix_of(stop_text(event)),
{
    reveal_strlit("rate");
    reveal_strlit("total");
    assert("rate"@[0] != "total"@[0]);
    let start = "net-monitor: auto-killed pid="@;
    let end = decimal(event.pid as nat) + " ("@ + "total "@ + decimal(observed as nat)
        + " bytes >= cap "@ + ("Some("@ + decimal(cap as nat) + ")"@) + " bytes)"@;
    let text = stop_text(event);
    assert(text =~= start + end);
    assert(end =~= text.subrange(text.len() - end.len(), text.len() as int));
}

/// The limits are seen as they are.
pub proof fn lemma_limits_are_seen(limits: ProcessLimits, pid: u32)
    ensures
        limits@.contains_key(pid) == limits.entries@.contains_key(pid),
        limits.entries@.contains_key(pid) ==> limits@[pid] == limits.entries@[pid],
{
}

} // verus!
