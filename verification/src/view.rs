//! What the window shows: its texts, rows and choices.
//!
//! Numbers that are shown in units of thousands or millions are rendered by the caller,
//! which is told what to render and is given the finished text.

use vstd::prelude::*;

use crate::aggregate::all_totals;
use crate::aggregator::topped_up;
use crate::data::{rows_of, ConnectionSnapshot, KnownPidLimit, SnapshotView};
use crate::history::or_empty;
use crate::monitor::{elapsed, NetMonitor, Notice, SessionTotal};
use crate::number::{
    decimal, decimal_text, digit_worth, lemma_decimal_reads_back, lemma_numeral_is_read,
    lemma_numeral_value, number_of, numeral, push_decimal, push_signed, signed_decimal,
};
use crate::order::{
    comes_before, is_stable_order, listed, stable_order, AscendingNumber, Descending, Ranked,
};
use crate::parser::{protocol_name, Protocol};
use crate::text::{
    fields, is_field, lemma_fields_join, lemma_occurs_between, lemma_single_field, occurs,
    opt_text, same_text,
};

verus! {

broadcast use vstd::std_specs::btree::group_btree_axioms;

/// In what unit a number of bytes is shown.
#[derive(Clone, Copy, Debug, PartialEq, Eq, Structural)]
pub enum ByteScale {
    Mega,
    Kilo,
    One,
}

/// In what unit a number of bytes is shown.
pub open spec fn scale_of(b: u64) -> ByteScale {
    if b >= 1_000_000 {
        ByteScale::Mega
    } else if b >= 1_000 {
        ByteScale::Kilo
    } else {
        ByteScale::One
    }
}

/// In what unit a number of bytes is shown.
pub fn byte_scale(b: u64) -> (scale: ByteScale)
    ensures
        scale == scale_of(b),
{
    if b >= 1_000_000 {
        ByteScale::Mega
    } else if b >= 1_000 {
        ByteScale::Kilo
    } else {
        ByteScale::One
    }
}

/// A number of bytes with its unit; `scaled` is the number in that unit.
pub open spec fn bytes_text(b: u64, scaled: Seq<char>, suffix: Seq<char>) -> Seq<char> {
    match scale_of(b) {
        ByteScale::Mega => scaled + " MB"@ + suffix,
        ByteScale::Kilo => scaled + " KB"@ + suffix,
        ByteScale::One => decimal(b as nat) + " B"@ + suffix,
    }
}

fn format_bytes(b: u64, scaled: &str, suffix: &str) -> (text: String)
    ensures
        text@ == bytes_text(b, scaled@, suffix@),
{
    let mut text: String = String::new();
    match byte_scale(b) {
        ByteScale::Mega => {
            text.append(scaled);
            assert(text@ =~= scaled@);
            text.append(" MB");
        },
        ByteScale::Kilo => {
            text.append(scaled);
            assert(text@ =~= scaled@);
            text.append(" KB");
        },
        ByteScale::One => {
            push_decimal(&mut text, b);
            assert(text@ =~= decimal(b as nat));
            text.append(" B");
        },
    }
    text.append(suffix);
    text
}

/// A rate; `scaled` is its number in the unit of [`byte_scale`], with one decimal.
pub fn fmt_bytes(b: u64, scaled: &str) -> (text: String)
    ensures
        text@ == bytes_text(b, scaled@, "/s"@),
{
    format_bytes(b, scaled, "/s")
}

/// A total; `scaled` is its number in the unit of [`byte_scale`], with one decimal.
pub fn fmt_bytes_total(b: u64, scaled: &str) -> (text: String)
    ensures
        text@ == bytes_text(b, scaled@, Seq::empty()),
{
    format_bytes(b, scaled, String::new().as_str())
}

/// The amounts that a notice shows in megabytes.
#[derive(Clone, Copy, Debug, PartialEq, Eq, Structural)]
pub enum Amounts {
    Zero,
    /// With as many decimals as it takes.
    Plain(u64),
    /// With three decimals.
    Fixed(u64),
    /// Both with three decimals.
    FixedPair(u64, u64),
}

/// The amount, or zero.
pub open spec fn or_zero(n: Option<u64>) -> u64 {
    match n {
        Some(n) => n,
        None => 0,
    }
}

/// The amounts that a notice shows in megabytes.
pub open spec fn notice_amounts(notice: Notice) -> Amounts {
    match notice {
        Notice::RateSet { bps, .. } => Amounts::Plain(bps),
        Notice::TotalSet { max_bytes, .. } => Amounts::Fixed(max_bytes),
        Notice::AutoStopped(event) => if event.reason@ == "total"@ {
            Amounts::FixedPair(
                or_zero(event.observed_total_bytes),
                or_zero(event.threshold_total_bytes),
            )
        } else {
            Amounts::FixedPair(or_zero(event.observed_bps), or_zero(event.threshold_bps))
        },
        _ => Amounts::Zero,
    }
}

/// The text of a notice; `first` and `second` are its amounts in megabytes.
pub open spec fn notice_text(notice: Notice, first: Seq<char>, second: Seq<char>) -> Seq<char> {
    match notice {
        Notice::Exported(name) => "\u{2713} Exported to "@ + name@,
        Notice::ExportFailed(e) => "\u{2717} Export failed: "@ + e@,
        Notice::StopRequested => "\u{2713} Process sent SIGTERM (stop requested)"@,
        Notice::StopFailed(e) => "\u{2717} Stop failed: "@ + e@,
        Notice::InvalidPid => "\u{2717} Invalid PID (need integer > 1)"@,
        Notice::InvalidRate => "\u{2717} Invalid MB/s (need positive number)"@,
        Notice::InvalidTotal => "\u{2717} Invalid total MB (need positive number)"@,
        Notice::RateSet { pid, .. } => "\u{2713} Rate limit set: PID "@ + decimal(pid as nat)
            + " at "@ + first + " MB/s"@,
        Notice::RateFailed(e) => "\u{2717} Limit set failed: "@ + e@,
        Notice::TotalSet { pid, .. } => "\u{2713} Total cap set: PID "@ + decimal(pid as nat)
            + " at "@ + first + " MB cumulative"@,
        Notice::TotalFailed(e) => "\u{2717} Total cap set failed: "@ + e@,
        Notice::Cleared { pid } => "\u{2713} Cleared limit for PID "@ + decimal(pid as nat),
        Notice::ClearFailed(e) => "\u{2717} Clear limit failed: "@ + e@,
        Notice::AutoStopped(event) => {
            let name = match event.process_name {
                Some(name) => name@,
                None => "(unknown)"@,
            };
            let start = "\u{26A0} ["@ + signed_decimal(event.timestamp_unix as int)
                + "] Auto-stopped PID "@ + decimal(event.pid as nat) + " ("@ + name;
            if event.reason@ == "total"@ {
                start + ") \u{2014} cumulative "@ + first + " MB reached cap "@ + second + " MB"@
            } else {
                start + ") \u{2014} "@ + first + " MB/s exceeded rate cap "@ + second + " MB/s"@
            }
        },
    }
}

/// Whether a notice is of something that was done as asked.
pub open spec fn is_success(notice: Notice) -> bool {
    match notice {
        Notice::Exported(_) => true,
        Notice::StopRequested => true,
        Notice::RateSet { .. } => true,
        Notice::TotalSet { .. } => true,
        Notice::Cleared { .. } => true,
        _ => false,
    }
}

fn joined_texts(start: &str, rest: &str) -> (text: String)
    ensures
        text@ == start@ + rest@,
{
    let mut text: String = start.to_owned();
    text.append(rest);
    text
}

impl Notice {
    /// The amounts that the notice shows in megabytes.
    pub fn amounts(&self) -> (amounts: Amounts)
        ensures
            amounts == notice_amounts(*self),
    {
        match self {
            Notice::RateSet { bps, .. } => Amounts::Plain(*bps),
            Notice::TotalSet { max_bytes, .. } => Amounts::Fixed(*max_bytes),
            Notice::AutoStopped(event) => if same_text(event.reason.as_str(), "total") {
                Amounts::FixedPair(
                    amount_or_zero(event.observed_total_bytes),
                    amount_or_zero(event.threshold_total_bytes),
                )
            } else {
                Amounts::FixedPair(
                    amount_or_zero(event.observed_bps),
                    amount_or_zero(event.threshold_bps),
                )
            },
            _ => Amounts::Zero,
        }
    }

    /// The text of the notice; `first` and `second` are its amounts in megabytes.
    pub fn text(&self, first: &str, second: &str) -> (text: String)
        ensures
            text@ == notice_text(*self, first@, second@),
    {
        match self {
            Notice::Exported(name) => joined_texts("\u{2713} Exported to ", name.as_str()),
            Notice::ExportFailed(e) => joined_texts("\u{2717} Export failed: ", e.as_str()),
            Notice::StopRequested => "\u{2713} Process sent SIGTERM (stop requested)".to_owned(),
            Notice::StopFailed(e) => joined_texts("\u{2717} Stop failed: ", e.as_str()),
            Notice::InvalidPid => "\u{2717} Invalid PID (need integer > 1)".to_owned(),
            Notice::InvalidRate => "\u{2717} Invalid MB/s (need positive number)".to_owned(),
            Notice::InvalidTotal => "\u{2717} Invalid total MB (need positive number)".to_owned(),
            Notice::RateSet { pid, .. } => {
                let mut text: String = "\u{2713} Rate limit set: PID ".to_owned();
                push_decimal(&mut text, *pid as u64);
                text.append(" at ");
                text.append(first);
                text.append(" MB/s");
                text
            },
            Notice::RateFailed(e) => joined_texts("\u{2717} Limit set failed: ", e.as_str()),
            Notice::TotalSet { pid, .. } => {
                let mut text: String = "\u{2713} Total cap set: PID ".to_owned();
                push_decimal(&mut text, *pid as u64);
                text.append(" at ");
                text.append(first);
                text.append(" MB cumulative");
                text
            },
            Notice::TotalFailed(e) => joined_texts("\u{2717} Total cap set failed: ", e.as_str()),
            Notice::Cleared { pid } => {
                let mut text: String = "\u{2713} Cleared limit for PID ".to_owned();
                push_decimal(&mut text, *pid as u64);
                text
            },
            Notice::ClearFailed(e) => joined_texts("\u{2717} Clear limit failed: ", e.as_str()),
            Notice::AutoStopped(event) => {
                let mut text: String = "\u{26A0} [".to_owned();
                push_signed(&mut text, event.timestamp_unix);
                text.append("] Auto-stopped PID ");
                push_decimal(&mut text, event.pid as u64);
                text.append(" (");
                match &event.process_name {
                    Some(name) => text.append(name.as_str()),
                    None => text.append("(unknown)"),
                }
                if same_text(event.reason.as_str(), "total") {
                    text.append(") \u{2014} cumulative ");
                    text.append(first);
                    text.append(" MB reached cap ");
                    text.append(second);
                    text.append(" MB");
                } else {
                    text.append(") \u{2014} ");
                    text.append(first);
                    text.append(" MB/s exceeded rate cap ");
                    text.append(second);
                    text.append(" MB/s");
                }
                text
            },
        }
    }

    /// Whether the notice is of something that was done as asked.
    pub fn success(&self) -> (success: bool)
        ensures
            success == is_success(*self),
    {
        match self {
            Notice::Exported(_) => true,
            Notice::StopRequested => true,
            Notice::RateSet { .. } => true,
            Notice::TotalSet { .. } => true,
            Notice::Cleared { .. } => true,
            _ => false,
        }
    }
}

fn amount_or_zero(n: Option<u64>) -> (amount: u64)
    ensures
        amount == or_zero(n),
{
    match n {
        Some(n) => n,
        None => 0,
    }
}

/// The protocols that have a colour of their own.
#[derive(Clone, Copy, Debug, PartialEq, Eq, Structural)]
pub enum ProtocolClass {
    Tcp,
    Udp,
    Sctp,
    Icmpv4,
    Icmpv6,
    Other,
}

/// What protocol a name stands for.
pub open spec fn class_of(name: Seq<char>) -> ProtocolClass {
    if name == "TCP"@ {
        ProtocolClass::Tcp
    } else if name == "UDP"@ {
        ProtocolClass::Udp
    } else if name == "SCTP"@ {
        ProtocolClass::Sctp
    } else if name == "ICMPv4"@ {
        ProtocolClass::Icmpv4
    } else if name == "ICMPv6"@ {
        ProtocolClass::Icmpv6
    } else {
        ProtocolClass::Other
    }
}

/// What protocol a name stands for.
pub fn protocol_class(name: &str) -> (class: ProtocolClass)
    ensures
        class == class_of(name@),
{
    if same_text(name, "TCP") {
        ProtocolClass::Tcp
    } else if same_text(name, "UDP") {
        ProtocolClass::Udp
    } else if same_text(name, "SCTP") {
        ProtocolClass::Sctp
    } else if same_text(name, "ICMPv4") {
        ProtocolClass::Icmpv4
    } else if same_text(name, "ICMPv6") {
        ProtocolClass::Icmpv6
    } else {
        ProtocolClass::Other
    }
}

/// Whether a rate is shown in colour.
pub fn is_busy(rate: u64) -> (busy: bool)
    ensures
        busy == (rate > 100_000),
{
    rate > 100_000
}

/// The text, or `otherwise`.
pub open spec fn text_or(text: Option<Seq<char>>, otherwise: Seq<char>) -> Seq<char> {
    match text {
        Some(t) => t,
        None => otherwise,
    }
}

fn string_or(text: &Option<String>, otherwise: &str) -> (out: String)
    ensures
        out@ == text_or(opt_text(*text), otherwise@),
{
    match text {
        Some(t) => t.clone(),
        None => otherwise.to_owned(),
    }
}

/// The process that a row offers to stop, and how it is called: none for process 0 or 1.
pub open spec fn stop_of(row: SnapshotView) -> Option<(u32, Seq<char>)> {
    match row.pid {
        Some(pid) => if pid > 1 {
            Some((pid, text_or(row.process_name, "(unknown)"@)))
        } else {
            None
        },
        None => None,
    }
}

/// The texts of an offer to stop a process.
pub open spec fn stop_view(stop: Option<(u32, String)>) -> Option<(u32, Seq<char>)> {
    match stop {
        Some((pid, label)) => Some((pid, label@)),
        None => None,
    }
}

/// The process that a row offers to stop, and how it is called.
pub fn stop_offer(row: &ConnectionSnapshot) -> (stop: Option<(u32, String)>)
    ensures
        stop_view(stop) == stop_of(row@),
{
    match row.pid {
        Some(pid) => if pid > 1 {
            Some((pid, string_or(&row.process_name, "(unknown)")))
        } else {
            None
        },
        None => None,
    }
}

/// The cells of a row of the connection table.
pub struct RowCells {
    pub pid: String,
    pub process: String,
    pub user: String,
    pub source: String,
    pub destination: String,
}

/// The texts of [`RowCells`].
pub struct CellsView {
    pub pid: Seq<char>,
    pub process: Seq<char>,
    pub user: Seq<char>,
    pub source: Seq<char>,
    pub destination: Seq<char>,
}

impl View for RowCells {
    type V = CellsView;

    open spec fn view(&self) -> CellsView {
        CellsView {
            pid: self.pid@,
            process: self.process@,
            user: self.user@,
            source: self.source@,
            destination: self.destination@,
        }
    }
}

/// An address and a port.
pub open spec fn endpoint_text(ip: Seq<char>, port: u16) -> Seq<char> {
    ip + ":"@ + decimal(port as nat)
}

fn endpoint(ip: &str, port: u16) -> (text: String)
    ensures
        text@ == endpoint_text(ip@, port),
{
    let mut text: String = ip.to_owned();
    text.append(":");
    push_decimal(&mut text, port as u64);
    text
}

/// The cells of a row of the connection table; a dash stands for what is not known.
pub open spec fn cells_of(row: SnapshotView) -> CellsView {
    CellsView {
        pid: match row.pid {
            Some(pid) => decimal(pid as nat),
            None => "\u{2014}"@,
        },
        process: text_or(row.process_name, "\u{2014}"@),
        user: text_or(row.username, "\u{2014}"@),
        source: endpoint_text(row.src_ip, row.src_port),
        destination: endpoint_text(row.dst_ip, row.dst_port),
    }
}

/// The cells of a row of the connection table; a dash stands for what is not known.
pub fn row_cells(row: &ConnectionSnapshot) -> (cells: RowCells)
    ensures
        cells@ == cells_of(row@),
{
    RowCells {
        pid: match row.pid {
            Some(pid) => decimal_text(pid as u64),
            None => "\u{2014}".to_owned(),
        },
        process: string_or(&row.process_name, "\u{2014}"),
        user: string_or(&row.username, "\u{2014}"),
        source: endpoint(row.src_ip.as_str(), row.src_port),
        destination: endpoint(row.dst_ip.as_str(), row.dst_port),
    }
}

/// The bytes in and out of all rows, unless one of the sums is too large to show.
pub fn header_totals(rows: &[ConnectionSnapshot]) -> (totals: Option<(u64, u64)>)
    ensures
        match totals {
            Some((bytes_in, bytes_out)) => {
                &&& bytes_in == all_totals(rows_of(rows@)).bytes_in
                &&& bytes_out == all_totals(rows_of(rows@)).bytes_out
            },
            None => all_totals(rows_of(rows@)).bytes_in > u64::MAX || all_totals(
                rows_of(rows@),
            ).bytes_out > u64::MAX,
        },
{
    let ghost all = rows_of(rows@);
    let mut bytes_in: u64 = 0;
    let mut bytes_out: u64 = 0;
    let mut i: usize = 0;
    while i < rows.len()
        invariant
            i <= rows.len(),
            all == rows_of(rows@),
            bytes_in == all_totals(all.take(i as int)).bytes_in,
            bytes_out == all_totals(all.take(i as int)).bytes_out,
        decreases rows.len() - i,
    {
        assert(all.take(i + 1).drop_last() =~= all.take(i as int));
        assert(all.take(i + 1).last() == rows@[i as int]@);
        match (
            bytes_in.checked_add(rows[i].bytes_in_per_sec),
            bytes_out.checked_add(rows[i].bytes_out_per_sec),
        ) {
            (Some(more_in), Some(more_out)) => {
                bytes_in = more_in;
                bytes_out = more_out;
            },
            _ => {
                proof {
                    lemma_totals_grow(all, i + 1);
                }
                return None;
            },
        }
        i = i + 1;
    }
    assert(all.take(i as int) =~= all);
    Some((bytes_in, bytes_out))
}

proof fn lemma_totals_grow(rows: Seq<SnapshotView>, n: int)
    requires
        0 <= n <= rows.len(),
    ensures
        all_totals(rows.take(n)).bytes_in <= all_totals(rows).bytes_in,
        all_totals(rows.take(n)).bytes_out <= all_totals(rows).bytes_out,
    decreases rows.len() - n,
{
    if n < rows.len() {
        assert(rows.take(n + 1).drop_last() =~= rows.take(n));
        lemma_totals_grow(rows, n + 1);
    } else {
        assert(rows.take(n) =~= rows);
    }
}

/// How far the monitor has come with its data.
#[derive(Clone, Copy, Debug, PartialEq, Eq, Structural)]
pub enum Readiness {
    /// Nothing was heard from the backend.
    WaitingForBackend,
    /// There are rows, but no rollups yet.
    WaitingForRollups,
    Ready,
}

/// How far the monitor has come, by whether it has rows and whether it has rollups.
pub open spec fn readiness_of(rows: bool, rollups: bool) -> Readiness {
    if !rows {
        Readiness::WaitingForBackend
    } else if !rollups {
        Readiness::WaitingForRollups
    } else {
        Readiness::Ready
    }
}

/// A text for each two digits of a time.
pub open spec fn two_digits(n: nat) -> Seq<char> {
    if n < 10 {
        "0"@ + decimal(n)
    } else {
        decimal(n)
    }
}

fn push_two_digits(out: &mut String, n: u64)
    ensures
        final(out)@ == old(out)@ + two_digits(n as nat),
{
    if n < 10 {
        out.append("0");
        push_decimal(out, n);
        assert(out@ =~= old(out)@ + two_digits(n as nat));
    } else {
        push_decimal(out, n);
    }
}

/// How long a session has lasted, in hours, minutes and seconds.
pub open spec fn session_text(start: Option<u64>, now: u64) -> Seq<char> {
    match start {
        Some(start) => {
            let secs = elapsed(start, now) as nat / 1_000_000_000;
            "Session: "@ + two_digits(secs / 3600) + ":"@ + two_digits((secs % 3600) / 60) + ":"@
                + two_digits(secs % 60)
        },
        None => "Session: N/A"@,
    }
}

/// What the context menu of a row offers.
pub struct Menu {
    pub user_label: String,
    pub user_filter: String,
    pub process_label: String,
    pub process_filter: String,
    pub stop: Option<(u32, String)>,
}

/// The texts of a [`Menu`].
pub struct MenuView {
    pub user_label: Seq<char>,
    pub user_filter: Seq<char>,
    pub process_label: Seq<char>,
    pub process_filter: Seq<char>,
    pub stop: Option<(u32, Seq<char>)>,
}

impl View for Menu {
    type V = MenuView;

    open spec fn view(&self) -> MenuView {
        MenuView {
            user_label: self.user_label@,
            user_filter: self.user_filter@,
            process_label: self.process_label@,
            process_filter: self.process_filter@,
            stop: stop_view(self.stop),
        }
    }
}

/// What the context menu of a row offers.
pub open spec fn menu_for(row: SnapshotView) -> MenuView {
    MenuView {
        user_label: "Filter by user: "@ + text_or(row.username, "\u{2014}"@),
        user_filter: or_empty(row.username),
        process_label: "Filter by process: "@ + text_or(row.process_name, "\u{2014}"@),
        process_filter: or_empty(row.process_name),
        stop: stop_of(row),
    }
}

/// What the context menu of a row offers: to filter by its user or its process, and to
/// stop the process.
pub fn menu_of(row: &ConnectionSnapshot) -> (menu: Menu)
    ensures
        menu@ == menu_for(row@),
{
    Menu {
        user_label: joined_texts(
            "Filter by user: ",
            string_or(&row.username, "\u{2014}").as_str(),
        ),
        user_filter: or_nothing(&row.username),
        process_label: joined_texts(
            "Filter by process: ",
            string_or(&row.process_name, "\u{2014}").as_str(),
        ),
        process_filter: or_nothing(&row.process_name),
        stop: stop_offer(row),
    }
}

fn or_nothing(text: &Option<String>) -> (out: String)
    ensures
        out@ == or_empty(opt_text(*text)),
{
    match text {
        Some(t) => t.clone(),
        None => String::new(),
    }
}

/// What the user is asked before a process is stopped.
pub open spec fn question(pid: u32, label: Seq<char>) -> Seq<char> {
    "Stop process \""@ + label + "\" (PID "@ + decimal(pid as nat) + ")?"@
}

/// What the user is asked before a process is stopped.
pub fn confirm_text(pid: u32, label: &str) -> (text: String)
    ensures
        text@ == question(pid, label@),
{
    let mut text: String = "Stop process \"".to_owned();
    text.append(label);
    text.append("\" (PID ");
    push_decimal(&mut text, pid as u64);
    text.append(")?");
    text
}

/// Whether anything is limited.
pub open spec fn limits_something(limit: KnownPidLimit) -> bool {
    limit.rate_bps is Some || limit.total_max_bytes is Some
}

/// The limits in words; `rate` and `total` are their amounts in megabytes.
pub open spec fn limit_text(limit: KnownPidLimit, rate: Seq<char>, total: Seq<char>) -> Seq<char> {
    let rate_part = "rate \u{2264} "@ + rate + " MB/s"@;
    let total_part = "total \u{2264} "@ + total + " MB"@;
    match (limit.rate_bps, limit.total_max_bytes) {
        (Some(_), Some(_)) => rate_part + "  |  "@ + total_part,
        (Some(_), None) => rate_part,
        (None, Some(_)) => total_part,
        (None, None) => Seq::empty(),
    }
}

/// The limits in words; `rate` and `total` are their amounts in megabytes, with three
/// decimals.
pub fn describe_limit(limit: &KnownPidLimit, rate: &str, total: &str) -> (text: String)
    ensures
        text@ == limit_text(*limit, rate@, total@),
{
    let mut rate_part: String = "rate \u{2264} ".to_owned();
    rate_part.append(rate);
    rate_part.append(" MB/s");
    let mut total_part: String = "total \u{2264} ".to_owned();
    total_part.append(total);
    total_part.append(" MB");
    if limit.rate_bps.is_some() {
        if limit.total_max_bytes.is_some() {
            rate_part.append("  |  ");
            rate_part.append(total_part.as_str());
        }
        rate_part
    } else if limit.total_max_bytes.is_some() {
        total_part
    } else {
        String::new()
    }
}

/// By what the session totals are sorted: the traffic in and out together, the largest
/// first.
pub open spec fn total_keys(totals: Seq<SessionTotal>) -> Seq<Descending> {
    totals.map_values(|t: SessionTotal| Descending(topped_up(t.bytes_in, t.bytes_out)))
}

impl NetMonitor {
    /// How far the monitor has come with its data.
    pub fn readiness(&self) -> (readiness: Readiness)
        ensures
            readiness == readiness_of(
                self.last_snapshot_at is Some,
                self.latest_aggregate is Some,
            ),
    {
        if self.last_snapshot_at.is_none() {
            Readiness::WaitingForBackend
        } else if self.latest_aggregate.is_none() {
            Readiness::WaitingForRollups
        } else {
            Readiness::Ready
        }
    }

    /// How long the session has lasted.
    pub fn session_time(&self, now: u64) -> (text: String)
        ensures
            text@ == session_text(self.session_start, now),
    {
        match self.session_start {
            Some(start) => {
                let secs: u64 = now.saturating_sub(start) / 1_000_000_000;
                let mut text: String = "Session: ".to_owned();
                push_two_digits(&mut text, secs / 3600);
                text.append(":");
                push_two_digits(&mut text, (secs % 3600) / 60);
                text.append(":");
                push_two_digits(&mut text, secs % 60);
                text
            },
            None => "Session: N/A".to_owned(),
        }
    }

    /// In which order the session totals are shown.
    pub fn totals_order(&self) -> (order: Vec<usize>)
        ensures
            is_stable_order(total_keys(self.session_totals@), order@),
    {
        let mut keys: Vec<Descending> = Vec::new();
        let mut i: usize = 0;
        while i < self.session_totals.len()
            invariant
                i <= self.session_totals.len(),
                keys@.len() == i,
                forall|k: int|
                    0 <= k < i ==> #[trigger] keys@[k] == total_keys(self.session_totals@)[k],
            decreases self.session_totals.len() - i,
        {
            let t = &self.session_totals[i];
            keys.push(Descending(t.bytes_in.saturating_add(t.bytes_out)));
            i = i + 1;
        }
        assert(keys@ =~= total_keys(self.session_totals@));
        stable_order(&keys)
    }

    /// The processes that have an entry among the known limits.
    fn known_pids(&self) -> (pids: Vec<u32>)
        ensures
            pids@.no_duplicates(),
            forall|pid: u32| #[trigger]
                pids@.contains(pid) <==> self.known_limits@.contains_key(pid),
    {
        let mut pids: Vec<u32> = Vec::new();
        for pid in it: self.known_limits.keys()
            invariant
                pids@ == it.seq().unref().take(it.index() as int),
                it.index() == it.seq().len() ==> pids@ == it.seq().unref(),
                it.seq().unref().to_set() == self.known_limits@.dom(),
                it.seq().no_duplicates(),
        {
            pids.push(*pid);
            assert(pids@ =~= it.seq().unref().take(it.index() + 1));
            assert(it.index() + 1 == it.seq().len() ==> pids@ =~= it.seq().unref());
        }
        assert(pids@.to_set() == self.known_limits@.dom());
        pids
    }

    /// The known limits of each process that has one, by process id.
    pub fn limit_rows(&self) -> (rows: Vec<(u32, KnownPidLimit)>)
        ensures
            is_limit_list(self.known_limits@, rows@),
    {
        let pids = self.known_pids();
        let ghost known = self.known_limits@;
        let mut found: Vec<(u32, KnownPidLimit)> = Vec::new();
        let mut keys: Vec<AscendingNumber> = Vec::new();
        let mut k: usize = 0;
        while k < pids.len()
            invariant
                k <= pids.len(),
                known == self.known_limits@,
                pids@.no_duplicates(),
                forall|pid: u32| #[trigger] pids@.contains(pid) <==> known.contains_key(pid),
                keys@.len() == found@.len(),
                forall|i: int|
                    0 <= i < found@.len() ==> (#[trigger] keys@[i]).0 == Some(found@[i].0),
                forall|i: int|
                    0 <= i < found@.len() ==> {
                        &&& known.contains_key((#[trigger] found@[i]).0)
                        &&& found@[i].1 == known[found@[i].0]
                        &&& limits_something(found@[i].1)
                        &&& pids@.take(k as int).contains(found@[i].0)
                    },
                forall|i: int, j: int|
                    0 <= i < j < found@.len() ==> (#[trigger] found@[i]).0 != (
                    #[trigger] found@[j]).0,
                forall|m: int|
                    0 <= m < k && limits_something(known[#[trigger] pids@[m]]) ==> has_limit_row(
                        found@,
                        pids@[m],
                    ),
            decreases pids.len() - k,
        {
            let pid: u32 = pids[k];
            assert(pids@.contains(pid));
            assert(!pids@.take(k as int).contains(pid)) by {
                if pids@.take(k as int).contains(pid) {
                    let m = choose|m: int| 0 <= m < k && pids@.take(k as int)[m] == pid;
                    assert(pids@[m] == pids@[k as int]);
                }
            }
            assert forall|p: u32| pids@.take(k as int).contains(p) implies pids@.take(
                k + 1,
            ).contains(p) by {
                let m = choose|m: int| 0 <= m < k && pids@.take(k as int)[m] == p;
                assert(pids@.take(k + 1)[m] == p);
            }
            assert(pids@.take(k + 1)[k as int] == pid);
            let ghost before = found@;
            if let Some(limit) = self.known_limits.get(&pid) {
                if limit.rate_bps.is_some() || limit.total_max_bytes.is_some() {
                    found.push((pid, *limit));
                    keys.push(AscendingNumber(Some(pid)));
                    assert(found@[found@.len() - 1].0 == pid);
                }
            }
            assert forall|p: u32| has_limit_row(before, p) implies has_limit_row(found@, p) by {
                let i = choose|i: int| 0 <= i < before.len() && (#[trigger] before[i]).0 == p;
                assert(found@[i].0 == p);
            }
            k = k + 1;
        }
        let order = stable_order(&keys);
        let mut rows: Vec<(u32, KnownPidLimit)> = Vec::new();
        let mut n: usize = 0;
        while n < order.len()
            invariant
                n <= order.len(),
                order@.len() == found@.len(),
                forall|i: int| 0 <= i < order@.len() ==> (#[trigger] order@[i]) < found@.len(),
                rows@.len() == n,
                forall|i: int| 0 <= i < n ==> #[trigger] rows@[i] == found@[order@[i] as int],
            decreases order.len() - n,
        {
            rows.push(found[order[n]]);
            n = n + 1;
        }
        proof {
            assert forall|i: int, j: int| 0 <= i < j < rows@.len() implies (#[trigger] rows@[i]).0
                < (#[trigger] rows@[j]).0 by {
                let x = order@[i] as int;
                let y = order@[j] as int;
                assert(comes_before(keys@, x, y));
                assert(keys@[x].0 == Some(found@[x].0) && keys@[y].0 == Some(found@[y].0));
                if x < y {
                    assert(found@[x].0 != found@[y].0);
                } else {
                    assert(found@[y].0 != found@[x].0);
                }
            }
            assert forall|pid: u32| #[trigger]
                known.contains_key(pid) && limits_something(known[pid]) implies has_limit_row(
                rows@,
                pid,
            ) by {
                assert(pids@.contains(pid));
                let m = choose|m: int| 0 <= m < pids@.len() && pids@[m] == pid;
                assert(has_limit_row(found@, pids@[m]));
                let f = choose|f: int| 0 <= f < found@.len() && (#[trigger] found@[f]).0 == pid;
                assert(listed(order@, f));
                let r = choose|r: int| 0 <= r < order@.len() && #[trigger] order@[r] == f;
                assert(rows@[r].0 == pid);
            }
        }
        rows
    }
}

/// Whether there is a row for the process.
pub open spec fn has_limit_row(rows: Seq<(u32, KnownPidLimit)>, pid: u32) -> bool {
    exists|i: int| 0 <= i < rows.len() && (#[trigger] rows[i]).0 == pid
}

/// The rows are the known limits of each process that has one, by process id.
pub open spec fn is_limit_list(
    known: Map<u32, KnownPidLimit>,
    rows: Seq<(u32, KnownPidLimit)>,
) -> bool {
    &&& forall|i: int, j: int|
        0 <= i < j < rows.len() ==> (#[trigger] rows[i]).0 < (#[trigger] rows[j]).0
    &&& forall|i: int|
        0 <= i < rows.len() ==> {
            &&& known.contains_key((#[trigger] rows[i]).0)
            &&& rows[i].1 == known[rows[i].0]
            &&& limits_something(rows[i].1)
        }
    &&& forall|pid: u32| #[trigger]
        known.contains_key(pid) && limits_something(known[pid]) ==> has_limit_row(rows, pid)
}

/// There is only one list of the known limits.
pub proof fn lemma_limit_list_unique(
    known: Map<u32, KnownPidLimit>,
    a: Seq<(u32, KnownPidLimit)>,
    b: Seq<(u32, KnownPidLimit)>,
)
    requires
        is_limit_list(known, a),
        is_limit_list(known, b),
    ensures
        a == b,
{
    lemma_limit_list_prefix(known, a, b, a.len() as int);
    lemma_limit_list_prefix(known, b, a, b.len() as int);
    assert(a =~= b);
}

proof fn lemma_limit_list_prefix(
    known: Map<u32, KnownPidLimit>,
    a: Seq<(u32, KnownPidLimit)>,
    b: Seq<(u32, KnownPidLimit)>,
    n: int,
)
    requires
        is_limit_list(known, a),
        is_limit_list(known, b),
        0 <= n <= a.len(),
    ensures
        n <= b.len(),
        forall|i: int| 0 <= i < n ==> a[i] == b[i],
    decreases n,
{
    if n > 0 {
        lemma_limit_list_prefix(known, a, b, n - 1);
        let p = a[n - 1].0;
        assert(known.contains_key(p) && limits_something(known[p]));
        assert(has_limit_row(b, p));
        let j = choose|j: int| 0 <= j < b.len() && (#[trigger] b[j]).0 == p;
        assert(j >= n - 1) by {
            if j < n - 1 {
                assert(a[j].0 < a[n - 1].0);
            }
        }
        let q = b[n - 1].0;
        assert(known.contains_key(q) && limits_something(known[q]));
        assert(has_limit_row(a, q));
        let k = choose|k: int| 0 <= k < a.len() && (#[trigger] a[k]).0 == q;
        assert(k >= n - 1) by {
            if k < n - 1 {
                assert(b[k].0 < b[n - 1].0);
            }
        }
    }
}

/// A notice begins with a check mark exactly if it is of a success.
pub proof fn lemma_check_mark_means_success(notice: Notice, first: Seq<char>, second: Seq<char>)
    ensures
        notice_text(notice, first, second).len() > 0,
        (notice_text(notice, first, second)[0] == '\u{2713}') == is_success(notice),
{
    reveal_strlit("\u{2713} Exported to ");
    reveal_strlit("\u{2717} Export failed: ");
    reveal_strlit("\u{2713} Process sent SIGTERM (stop requested)");
    reveal_strlit("\u{2717} Stop failed: ");
    reveal_strlit("\u{2717} Invalid PID (need integer > 1)");
    reveal_strlit("\u{2717} Invalid MB/s (need positive number)");
    reveal_strlit("\u{2717} Invalid total MB (need positive number)");
    reveal_strlit("\u{2713} Rate limit set: PID ");
    reveal_strlit("\u{2717} Limit set failed: ");
    reveal_strlit("\u{2713} Total cap set: PID ");
    reveal_strlit("\u{2717} Total cap set failed: ");
    reveal_strlit("\u{2713} Cleared limit for PID ");
    reveal_strlit("\u{2717} Clear limit failed: ");
    reveal_strlit("\u{26A0} [");
}

/// From a million bytes on the unit is the megabyte, from a thousand on the kilobyte.
pub proof fn lemma_units(b: u64)
    ensures
        scale_of(b) == ByteScale::Mega <==> b >= 1_000_000,
        scale_of(b) == ByteScale::Kilo <==> 1_000 <= b < 1_000_000,
        scale_of(b) == ByteScale::One <==> b < 1_000,
{
}

/// An amount is shown by its number, its unit and the suffix; below a thousand the number
/// is exact.
pub proof fn lemma_amount_is_shown(b: u64, scaled: Seq<char>, suffix: Seq<char>)
    ensures
        b >= 1_000 ==> scaled.is_prefix_of(bytes_text(b, scaled, suffix)),
        b < 1_000 ==> decimal(b as nat).is_prefix_of(bytes_text(b, scaled, suffix)),
        b >= 1_000_000 ==> (" MB"@ + suffix).is_suffix_of(bytes_text(b, scaled, suffix)),
        1_000 <= b < 1_000_000 ==> (" KB"@ + suffix).is_suffix_of(bytes_text(b, scaled, suffix)),
        b < 1_000 ==> (" B"@ + suffix).is_suffix_of(bytes_text(b, scaled, suffix)),
{
    let d = decimal(b as nat);
    lemma_three_parts(scaled, " MB"@, suffix);
    lemma_three_parts(scaled, " KB"@, suffix);
    lemma_three_parts(d, " B"@, suffix);
}

proof fn lemma_three_parts(a: Seq<char>, b: Seq<char>, c: Seq<char>)
    ensures
        a.is_prefix_of(a + b + c),
        (b + c).is_suffix_of(a + b + c),
        c.is_suffix_of(a + b + c),
{
    let s = a + b + c;
    assert(a =~= s.subrange(0, a.len() as int));
    assert(b + c =~= s.subrange(s.len() - (b + c).len(), s.len() as int));
    assert(c =~= s.subrange(s.len() - c.len(), s.len() as int));
}

/// The window recognises every protocol by the name that the backend gives it.
pub proof fn lemma_protocols_are_recognised(protocol: Protocol)
    ensures
        class_of(protocol_name(protocol)) == match protocol {
            Protocol::Tcp => ProtocolClass::Tcp,
            Protocol::Udp => ProtocolClass::Udp,
            Protocol::Sctp => ProtocolClass::Sctp,
            Protocol::Icmpv4 => ProtocolClass::Icmpv4,
            Protocol::Icmpv6 => ProtocolClass::Icmpv6,
        },
{
    reveal_strlit("TCP");
    reveal_strlit("UDP");
    reveal_strlit("SCTP");
    reveal_strlit("ICMPv4");
    reveal_strlit("ICMPv6");
    assert("TCP"@[0] != "UDP"@[0]);
    assert("TCP"@.len() == 3 && "UDP"@.len() == 3 && "SCTP"@.len() == 4);
    assert("ICMPv4"@.len() == 6 && "ICMPv6"@.len() == 6);
    assert("ICMPv4"@[5] != "ICMPv6"@[5]);
}

/// Every row of a process over 1 offers to stop that process, under its name if it has one,
/// and no other row offers to stop anything.
pub proof fn lemma_stop_is_offered(row: SnapshotView, pid: u32)
    ensures
        row.pid == Some(pid) && pid > 1 ==> (stop_of(row) matches Some((p, label)) && p == pid && (
        row.process_name matches Some(name) ==> label == name)),
        stop_of(row) matches Some((p, _)) ==> row.pid == Some(p) && p > 1,
{
}

/// An end of a connection is shown as its address and, behind the last colon, its port.
pub proof fn lemma_endpoint_is_shown(ip: Seq<char>, port: u16)
    ensures
        ip.is_prefix_of(endpoint_text(ip, port)),
        number_of(fields(endpoint_text(ip, port), ':').last(), 10, 65535) == Some(port as nat),
        endpoint_text(ip, port).len() == ip.len() + 1 + decimal(port as nat).len(),
{
    reveal_strlit(":");
    let d = decimal(port as nat);
    let text = endpoint_text(ip, port);
    assert(":"@ =~= seq![':']);
    assert(ip =~= text.subrange(0, ip.len() as int));
    lemma_digits_are_a_field(port as nat);
    lemma_single_field(d, ':');
    lemma_fields_join(ip, d, ':');
    assert((fields(ip, ':') + seq![d]).last() == d);
    lemma_decimal_reads_back(port as nat, 65535);
}

proof fn lemma_digits_are_a_field(n: nat)
    ensures
        is_field(decimal(n), ':'),
        decimal(n).len() > 0,
{
    lemma_numeral_value(n, 10);
    assert forall|i: int| 0 <= i < decimal(n).len() implies #[trigger] decimal(n)[i] != ':' by {
        assert(digit_worth(decimal(n)[i]) < 10);
    }
}

proof fn lemma_two_digits(n: nat)
    requires
        n <= u64::MAX,
    ensures
        number_of(two_digits(n), 10, u64::MAX as nat) == Some(n),
        is_field(two_digits(n), ':'),
        two_digits(n).len() >= 2,
        n < 100 ==> two_digits(n).len() == 2,
{
    reveal_strlit("0");
    assert("0"@ =~= seq!['0']);
    lemma_digits_are_a_field(n);
    lemma_numeral_is_read(n, 10, u64::MAX as nat);
    let padded = seq!['0'] + decimal(n);
    assert forall|i: int| 0 <= i < padded.len() implies #[trigger] padded[i] != ':' by {
        if i > 0 {
            assert(padded[i] == decimal(n)[i - 1]);
        }
    }
    if n >= 10 {
        lemma_digits_are_a_field(n / 10);
    }
    reveal_with_fuel(numeral, 2);
}

proof fn lemma_time_fields(word: Seq<char>, th: Seq<char>, tm: Seq<char>, ts: Seq<char>)
    requires
        is_field(word, ':'),
        is_field(th, ':'),
        is_field(tm, ':'),
        is_field(ts, ':'),
    ensures
        fields(word + seq![':'] + seq![' '] + th + seq![':'] + tm + seq![':'] + ts, ':') == seq![
            word,
            seq![' '] + th,
            tm,
            ts,
        ],
{
    let hours = seq![' '] + th;
    assert forall|i: int| 0 <= i < hours.len() implies #[trigger] hours[i] != ':' by {
        if i > 0 {
            assert(hours[i] == th[i - 1]);
        }
    }
    lemma_single_field(word, ':');
    lemma_single_field(hours, ':');
    lemma_single_field(tm, ':');
    lemma_single_field(ts, ':');
    let a = word + seq![':'] + hours;
    let b = a + seq![':'] + tm;
    assert(word + seq![':'] + seq![' '] + th =~= a);
    lemma_fields_join(word, hours, ':');
    lemma_fields_join(a, tm, ':');
    lemma_fields_join(b, ts, ':');
    assert(fields(b + seq![':'] + ts, ':') =~= seq![word, hours, tm, ts]);
}

proof fn lemma_session_fields(start: u64, now: u64)
    ensures
        ({
            let secs = elapsed(start, now) as nat / 1_000_000_000;
            fields(session_text(Some(start), now), ':') == seq![
                "Session"@,
                seq![' '] + two_digits(secs / 3600),
                two_digits((secs % 3600) / 60),
                two_digits(secs % 60),
            ]
        }),
{
    let secs = elapsed(start, now) as nat / 1_000_000_000;
    lemma_two_digits(secs / 3600);
    lemma_two_digits((secs % 3600) / 60);
    lemma_two_digits(secs % 60);
    let word = "Session"@;
    assert("Session: "@ == word + seq![':'] + seq![' '] && is_field(word, ':')) by {
        reveal_strlit("Session: ");
        reveal_strlit("Session");
        assert("Session: "@ =~= word + seq![':'] + seq![' ']);
    }
    assert(":"@ == seq![':']) by {
        reveal_strlit(":");
        assert(":"@ =~= seq![':']);
    }
    lemma_time_fields(
        word,
        two_digits(secs / 3600),
        two_digits((secs % 3600) / 60),
        two_digits(secs % 60),
    );
}

/// The time of a session is shown in hours, minutes and seconds, which together are the
/// whole seconds since it started; minutes and seconds stay below sixty and have two digits,
/// and the hours have at least two.
pub proof fn lemma_session_time_adds_up(start: u64, now: u64) -> (parts: (nat, nat, nat))
    requires
        now >= start,
    ensures
        parts.0 * 3600 + parts.1 * 60 + parts.2 == (now - start) / 1_000_000_000,
        parts.1 < 60 && parts.2 < 60,
        ({
            let f = fields(session_text(Some(start), now), ':');
            let max = u64::MAX as nat;
            &&& f.len() == 4
            &&& f[1].len() >= 3 && f[2].len() == 2 && f[3].len() == 2
            &&& number_of(f[1].skip(1), 10, max) == Some(parts.0)
            &&& number_of(f[2], 10, max) == Some(parts.1)
            &&& number_of(f[3], 10, max) == Some(parts.2)
        }),
{
    let secs = elapsed(start, now) as nat / 1_000_000_000;
    let h = secs / 3600;
    let m = (secs % 3600) / 60;
    let s = secs % 60;
    lemma_session_fields(start, now);
    lemma_two_digits(h);
    lemma_two_digits(m);
    lemma_two_digits(s);
    assert((seq![' '] + two_digits(h)).skip(1) =~= two_digits(h));
    (h, m, s)
}

/// The limits in words name the rate first and the total last, each exactly if it is
/// limited.
pub proof fn lemma_limits_are_described(limit: KnownPidLimit, rate: Seq<char>, total: Seq<char>)
    ensures
        limit.rate_bps is Some ==> ("rate \u{2264} "@ + rate + " MB/s"@).is_prefix_of(
            limit_text(limit, rate, total),
        ),
        limit.total_max_bytes is Some ==> ("total \u{2264} "@ + total + " MB"@).is_suffix_of(
            limit_text(limit, rate, total),
        ),
        limit.rate_bps is Some && limit.total_max_bytes is None ==> limit_text(limit, rate, total)
            == "rate \u{2264} "@ + rate + " MB/s"@,
        limit.rate_bps is None && limit.total_max_bytes is Some ==> limit_text(limit, rate, total)
            == "total \u{2264} "@ + total + " MB"@,
        limit.rate_bps is None && limit.total_max_bytes is None ==> limit_text(
            limit,
            rate,
            total,
        ).len() == 0,
{
    let r = "rate \u{2264} "@ + rate + " MB/s"@;
    let t = "total \u{2264} "@ + total + " MB"@;
    lemma_three_parts(r, "  |  "@, t);
    assert(r.is_prefix_of(r)) by {
        assert(r =~= r.subrange(0, r.len() as int));
    }
    assert(t.is_suffix_of(t)) by {
        assert(t =~= t.subrange(t.len() - t.len(), t.len() as int));
    }
}

/// A notice shows the amount that was set; that of a stopped process shows what was
/// observed and then what was allowed, of the limit that it exceeded.
pub proof fn lemma_notice_shows_its_amounts(notice: Notice)
    ensures
        notice matches Notice::RateSet { bps, .. } ==> notice_amounts(notice) == Amounts::Plain(
            bps,
        ),
        notice matches Notice::TotalSet { max_bytes, .. } ==> notice_amounts(notice)
            == Amounts::Fixed(max_bytes),
        notice matches Notice::AutoStopped(e) ==> {
            &&& e.reason@ == "total"@ && e.observed_total_bytes is Some
                && e.threshold_total_bytes is Some ==> notice_amounts(notice)
                == Amounts::FixedPair(
                e.observed_total_bytes->0,
                e.threshold_total_bytes->0,
            )
            &&& e.reason@ != "total"@ && e.observed_bps is Some && e.threshold_bps is Some
                ==> notice_amounts(notice) == Amounts::FixedPair(
                e.observed_bps->0,
                e.threshold_bps->0,
            )
        },
{
}

/// A notice ends with what it is about: the file, the reason of a failure, the process, or
/// the amounts with their unit.
pub proof fn lemma_notice_says_what_happened(notice: Notice, first: Seq<char>, second: Seq<char>)
    ensures
        ({
            let text = notice_text(notice, first, second);
            &&& notice matches Notice::Exported(name) ==> name@.is_suffix_of(text)
            &&& notice matches Notice::ExportFailed(e) ==> e@.is_suffix_of(text)
            &&& notice matches Notice::StopFailed(e) ==> e@.is_suffix_of(text)
            &&& notice matches Notice::RateFailed(e) ==> e@.is_suffix_of(text)
            &&& notice matches Notice::TotalFailed(e) ==> e@.is_suffix_of(text)
            &&& notice matches Notice::ClearFailed(e) ==> e@.is_suffix_of(text)
            &&& notice matches Notice::Cleared { pid } ==> decimal(pid as nat).is_suffix_of(text)
            &&& notice matches Notice::RateSet { pid, .. } ==> (decimal(pid as nat) + " at "@ + first
                + " MB/s"@).is_suffix_of(text)
            &&& notice matches Notice::TotalSet { pid, .. } ==> (decimal(pid as nat) + " at "@
                + first + " MB cumulative"@).is_suffix_of(text)
            &&& notice matches Notice::AutoStopped(e) ==> {
                &&& e.reason@ == "total"@ ==> (first + " MB reached cap "@ + second
                    + " MB"@).is_suffix_of(text)
                &&& e.reason@ != "total"@ ==> (first + " MB/s exceeded rate cap "@ + second
                    + " MB/s"@).is_suffix_of(text)
            }
        }),
{
    let text = notice_text(notice, first, second);
    match notice {
        Notice::Exported(name) => lemma_ends_with(text, "\u{2713} Exported to "@, name@),
        Notice::ExportFailed(e) => lemma_ends_with(text, "\u{2717} Export failed: "@, e@),
        Notice::StopFailed(e) => lemma_ends_with(text, "\u{2717} Stop failed: "@, e@),
        Notice::RateFailed(e) => lemma_ends_with(text, "\u{2717} Limit set failed: "@, e@),
        Notice::TotalFailed(e) => lemma_ends_with(text, "\u{2717} Total cap set failed: "@, e@),
        Notice::ClearFailed(e) => lemma_ends_with(text, "\u{2717} Clear limit failed: "@, e@),
        Notice::Cleared { pid } => lemma_ends_with(
            text,
            "\u{2713} Cleared limit for PID "@,
            decimal(pid as nat),
        ),
        Notice::RateSet { pid, .. } => {
            let d = decimal(pid as nat);
            let start = "\u{2713} Rate limit set: PID "@;
            assert(text =~= start + (d + " at "@ + first + " MB/s"@));
            lemma_ends_with(text, start, d + " at "@ + first + " MB/s"@);
        },
        Notice::TotalSet { pid, .. } => {
            let d = decimal(pid as nat);
            let start = "\u{2713} Total cap set: PID "@;
            assert(text =~= start + (d + " at "@ + first + " MB cumulative"@));
            lemma_ends_with(text, start, d + " at "@ + first + " MB cumulative"@);
        },
        Notice::AutoStopped(e) => {
            let name = match e.process_name {
                Some(name) => name@,
                None => "(unknown)"@,
            };
            let start = "\u{26A0} ["@ + signed_decimal(e.timestamp_unix as int)
                + "] Auto-stopped PID "@ + decimal(e.pid as nat) + " ("@ + name;
            if e.reason@ == "total"@ {
                let end = first + " MB reached cap "@ + second + " MB"@;
                assert(text =~= start + ") \u{2014} cumulative "@ + end);
                lemma_ends_with(text, start + ") \u{2014} cumulative "@, end);
            } else {
                let end = first + " MB/s exceeded rate cap "@ + second + " MB/s"@;
                assert(text =~= start + ") \u{2014} "@ + end);
                lemma_ends_with(text, start + ") \u{2014} "@, end);
            }
        },
        _ => {},
    }
}

proof fn lemma_ends_with(text: Seq<char>, start: Seq<char>, end: Seq<char>)
    requires
        text == start + end,
    ensures
        end.is_suffix_of(text),
{
    assert(end =~= text.subrange(text.len() - end.len(), text.len() as int));
}

/// The session totals are shown by their bytes in and out together, the most first; equal
/// ones stand as they came, and each stands once.
pub proof fn lemma_totals_are_sorted(totals: Seq<SessionTotal>, order: Seq<usize>, i: int, j: int)
    requires
        is_stable_order(total_keys(totals), order),
        0 <= i < j < order.len(),
    ensures
        order.len() == totals.len(),
        order[i] != order[j],
        ({
            let a = totals[order[i] as int];
            let b = totals[order[j] as int];
            b.bytes_in + b.bytes_out <= u64::MAX ==> {
                &&& a.bytes_in + a.bytes_out >= b.bytes_in + b.bytes_out
                &&& a.bytes_in + a.bytes_out == b.bytes_in + b.bytes_out ==> order[i] < order[j]
            }
        }),
{
    let keys = total_keys(totals);
    assert(comes_before(keys, order[i] as int, order[j] as int));
    assert(keys[order[i] as int].ranked(keys[order[j] as int]));
}

/// The cells of a row show what the row holds: the process and its user by their names, the
/// sender on the left and the receiver on the right, each with its own port, and the same
/// dash for everything that is not known.
pub proof fn lemma_cells_show_the_row(row: SnapshotView)
    ensures
        ({
            let cells = cells_of(row);
            &&& row.process_name matches Some(name) ==> cells.process == name
            &&& row.username matches Some(name) ==> cells.user == name
            &&& row.pid matches Some(pid) ==> number_of(cells.pid, 10, u32::MAX as nat) == Some(
                pid as nat,
            )
            &&& row.process_name is None ==> cells.process == "\u{2014}"@
            &&& row.username is None ==> cells.user == "\u{2014}"@
            &&& row.pid is None ==> cells.pid == "\u{2014}"@
            &&& row.src_ip.is_prefix_of(cells.source)
            &&& row.dst_ip.is_prefix_of(cells.destination)
            &&& number_of(fields(cells.source, ':').last(), 10, 65535) == Some(row.src_port as nat)
            &&& number_of(fields(cells.destination, ':').last(), 10, 65535) == Some(
                row.dst_port as nat,
            )
        }),
{
    lemma_endpoint_is_shown(row.src_ip, row.src_port);
    lemma_endpoint_is_shown(row.dst_ip, row.dst_port);
    if let Some(pid) = row.pid {
        lemma_decimal_reads_back(pid as nat, u32::MAX as nat);
    }
}

/// The window is ready exactly if it has both rows and rollups, and waits for the rows
/// first.
pub proof fn lemma_ready_with_rows_and_rollups(rows: bool, rollups: bool)
    ensures
        readiness_of(rows, rollups) == Readiness::Ready <==> rows && rollups,
        readiness_of(rows, rollups) == Readiness::WaitingForBackend <==> !rows,
        readiness_of(rows, rollups) == Readiness::WaitingForRollups <==> rows && !rollups,
{
}

/// Every process with a known limit, on its rate or on its total, is listed with both, and
/// no other process is; the list is in the order of the process ids.
pub proof fn lemma_every_limit_is_listed(
    known: Map<u32, KnownPidLimit>,
    rows: Seq<(u32, KnownPidLimit)>,
    pid: u32,
    i: int,
    j: int,
)
    requires
        is_limit_list(known, rows),
    ensures
        rows.contains((pid, known[pid])) <==> known.contains_key(pid) && (
        known[pid].rate_bps is Some || known[pid].total_max_bytes is Some),
        0 <= i < rows.len() ==> rows[i].1 == known[rows[i].0],
        0 <= i < j < rows.len() ==> rows[i].0 < rows[j].0,
{
    if known.contains_key(pid) && limits_something(known[pid]) {
        assert(has_limit_row(rows, pid));
        let k = choose|k: int| 0 <= k < rows.len() && (#[trigger] rows[k]).0 == pid;
        assert(rows[k] == (pid, known[pid]));
    }
    if rows.contains((pid, known[pid])) {
        let k = choose|k: int| 0 <= k < rows.len() && rows[k] == (pid, known[pid]);
        assert(known.contains_key(rows[k].0));
    }
    if 0 <= i < rows.len() {
        assert(known.contains_key(rows[i].0));
    }
}

/// The question before a process is stopped names the process and its id.
pub proof fn lemma_question_names_the_process(pid: u32, label: Seq<char>)
    ensures
        occurs(question(pid, label), label),
        (" (PID "@ + decimal(pid as nat) + ")?"@).is_suffix_of(question(pid, label)),
{
    let d = decimal(pid as nat);
    let text = question(pid, label);
    assert("\" (PID "@ =~= "\""@ + " (PID "@) by {
        reveal_strlit("\" (PID ");
        reveal_strlit("\"");
        reveal_strlit(" (PID ");
    }
    let end = " (PID "@ + d + ")?"@;
    assert(text =~= "Stop process \""@ + label + ("\""@ + end));
    lemma_occurs_between(text, label, "Stop process \""@, "\""@ + end);
    assert(end =~= text.subrange(text.len() - end.len(), text.len() as int));
}

/// The menu of a row offers to filter by the user and the process of that row, each as the
/// filter of its own entry, and to stop that process.
pub proof fn lemma_menu_is_of_its_row(row: SnapshotView)
    ensures
        row.username matches Some(name) ==> menu_for(row).user_filter == name
            && name.is_suffix_of(menu_for(row).user_label),
        row.process_name matches Some(name) ==> menu_for(row).process_filter == name
            && name.is_suffix_of(menu_for(row).process_label),
        row.username is None ==> menu_for(row).user_filter.len() == 0,
        row.process_name is None ==> menu_for(row).process_filter.len() == 0,
        menu_for(row).stop matches Some((pid, _)) ==> row.pid == Some(pid) && pid > 1,
        row.pid matches Some(pid) ==> pid > 1 ==> menu_for(row).stop is Some,
{
    if let Some(name) = row.username {
        lemma_ends_with(menu_for(row).user_label, "Filter by user: "@, name);
    }
    if let Some(name) = row.process_name {
        lemma_ends_with(menu_for(row).process_label, "Filter by process: "@, name);
    }
}

/// What the window shows is seen as it is.
pub proof fn lemma_texts_of_window_are_seen(cells: RowCells, menu: Menu, pid: u32, label: String)
    ensures
        cells@.pid == cells.pid@,
        cells@.process == cells.process@,
        cells@.user == cells.user@,
        cells@.source == cells.source@,
        cells@.destination == cells.destination@,
        menu@.user_label == menu.user_label@,
        menu@.user_filter == menu.user_filter@,
        menu@.process_label == menu.process_label@,
        menu@.process_filter == menu.process_filter@,
        menu@.stop == stop_view(menu.stop),
        stop_view(Some((pid, label))) == Some((pid, label@)),
        stop_view(None) is None,
{
}

/// Only the name of a protocol stands for it in the window.
pub proof fn lemma_other_names_are_other(name: Seq<char>)
    requires
        forall|protocol: Protocol| name != #[trigger] protocol_name(protocol),
    ensures
        class_of(name) == ProtocolClass::Other,
{
    assert(name != protocol_name(Protocol::Tcp));
    assert(name != protocol_name(Protocol::Udp));
    assert(name != protocol_name(Protocol::Sctp));
    assert(name != protocol_name(Protocol::Icmpv4));
    assert(name != protocol_name(Protocol::Icmpv6));
}

} // verus!
