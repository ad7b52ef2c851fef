//! The records that the backend publishes and the monitor shows.

use vstd::prelude::*;

use crate::text::opt_text;

verus! {

/// The Unix socket on which the backend serves its clients.
pub const SOCKET_PATH: &'static str = "/tmp/net-monitor.sock";

/// How many samples the bandwidth chart shows.
pub const HISTORY_LEN: usize = 60;

/// One connection and what it carried in one second.
#[derive(Debug)]
pub struct ConnectionSnapshot {
    pub pid: Option<u32>,
    pub process_name: Option<String>,
    pub username: Option<String>,
    pub src_ip: String,
    pub src_port: u16,
    pub dst_ip: String,
    pub dst_port: u16,
    pub protocol: String,
    pub bytes_in_per_sec: u64,
    pub bytes_out_per_sec: u64,
    pub timestamp_unix: i64,
}

/// A [`ConnectionSnapshot`] with its texts as character sequences.
pub struct SnapshotView {
    pub pid: Option<u32>,
    pub process_name: Option<Seq<char>>,
    pub username: Option<Seq<char>>,
    pub src_ip: Seq<char>,
    pub src_port: u16,
    pub dst_ip: Seq<char>,
    pub dst_port: u16,
    pub protocol: Seq<char>,
    pub bytes_in_per_sec: u64,
    pub bytes_out_per_sec: u64,
    pub timestamp_unix: i64,
}

impl View for ConnectionSnapshot {
    type V = SnapshotView;

    open spec fn view(&self) -> SnapshotView {
        SnapshotView {
            pid: self.pid,
            process_name: opt_text(self.process_name),
            username: opt_text(self.username),
            src_ip: self.src_ip@,
            src_port: self.src_port,
            dst_ip: self.dst_ip@,
            dst_port: self.dst_port,
            protocol: self.protocol@,
            bytes_in_per_sec: self.bytes_in_per_sec,
            bytes_out_per_sec: self.bytes_out_per_sec,
            timestamp_unix: self.timestamp_unix,
        }
    }
}

impl Clone for ConnectionSnapshot {
    fn clone(&self) -> (copy: Self)
        ensures
            copy == *self,
    {
        ConnectionSnapshot {
            pid: self.pid,
            process_name: self.process_name.clone(),
            username: self.username.clone(),
            src_ip: self.src_ip.clone(),
            src_port: self.src_port,
            dst_ip: self.dst_ip.clone(),
            dst_port: self.dst_port,
            protocol: self.protocol.clone(),
            bytes_in_per_sec: self.bytes_in_per_sec,
            bytes_out_per_sec: self.bytes_out_per_sec,
            timestamp_unix: self.timestamp_unix,
        }
    }
}

/// The views of a sequence of snapshots.
pub open spec fn rows_of(rows: Seq<ConnectionSnapshot>) -> Seq<SnapshotView> {
    rows.map_values(|r: ConnectionSnapshot| r@)
}

/// What tells one connection from another.
#[derive(Debug, Hash, PartialEq, Eq)]
pub struct ConnectionKey {
    pub src_ip: String,
    pub dst_ip: String,
    pub src_port: u16,
    pub dst_port: u16,
    pub protocol: String,
}

/// A [`ConnectionKey`] with its texts as character sequences.
pub struct KeyView {
    pub src_ip: Seq<char>,
    pub dst_ip: Seq<char>,
    pub src_port: u16,
    pub dst_port: u16,
    pub protocol: Seq<char>,
}

impl View for ConnectionKey {
    type V = KeyView;

    open spec fn view(&self) -> KeyView {
        KeyView {
            src_ip: self.src_ip@,
            dst_ip: self.dst_ip@,
            src_port: self.src_port,
            dst_port: self.dst_port,
            protocol: self.protocol@,
        }
    }
}

impl Clone for ConnectionKey {
    fn clone(&self) -> (copy: Self)
        ensures
            copy == *self,
    {
        ConnectionKey {
            src_ip: self.src_ip.clone(),
            dst_ip: self.dst_ip.clone(),
            src_port: self.src_port,
            dst_port: self.dst_port,
            protocol: self.protocol.clone(),
        }
    }
}

impl ConnectionKey {
    /// Whether the two keys name the same connection.
    pub fn same(&self, other: &ConnectionKey) -> (same: bool)
        ensures
            same == (self@ == other@),
    {
        self.src_port == other.src_port && self.dst_port == other.dst_port && self.src_ip
            == other.src_ip && self.dst_ip == other.dst_ip && self.protocol == other.protocol
    }
}

/// The bytes that a connection carried since the last snapshot.
#[derive(Debug, Clone, Copy)]
pub struct ConnectionStats {
    pub bytes_in: u64,
    pub bytes_out: u64,
}

/// The traffic of a second went over the threshold.
#[derive(Clone, Debug)]
pub struct AlertEvent {
    pub timestamp_unix: i64,
    pub total_bytes_per_sec: u64,
    pub threshold: u64,
    pub message: String,
}

/// A process was stopped because it exceeded a limit.
#[derive(Clone, Debug)]
pub struct AutoKillEvent {
    pub pid: u32,
    pub process_name: Option<String>,
    /// `"rate"` or `"total"`.
    pub reason: String,
    pub threshold_bps: Option<u64>,
    pub observed_bps: Option<u64>,
    pub threshold_total_bytes: Option<u64>,
    pub observed_total_bytes: Option<u64>,
    pub timestamp_unix: i64,
}

/// An [`AutoKillEvent`] with its texts as character sequences.
pub struct AutoKillView {
    pub pid: u32,
    pub process_name: Option<Seq<char>>,
    pub reason: Seq<char>,
    pub threshold_bps: Option<u64>,
    pub observed_bps: Option<u64>,
    pub threshold_total_bytes: Option<u64>,
    pub observed_total_bytes: Option<u64>,
    pub timestamp_unix: i64,
}

impl View for AutoKillEvent {
    type V = AutoKillView;

    open spec fn view(&self) -> AutoKillView {
        AutoKillView {
            pid: self.pid,
            process_name: opt_text(self.process_name),
            reason: self.reason@,
            threshold_bps: self.threshold_bps,
            observed_bps: self.observed_bps,
            threshold_total_bytes: self.threshold_total_bytes,
            observed_total_bytes: self.observed_total_bytes,
            timestamp_unix: self.timestamp_unix,
        }
    }
}

/// The traffic of one process under one user in one second.
#[derive(Clone, Debug)]
pub struct ProcessRollup {
    pub process_label: String,
    pub username: String,
    pub bytes_in_per_sec: u64,
    pub bytes_out_per_sec: u64,
    pub flow_count: u32,
}

/// The traffic of one protocol in one second.
#[derive(Clone, Debug)]
pub struct ProtocolRollup {
    pub protocol: String,
    pub bytes_in_per_sec: u64,
    pub bytes_out_per_sec: u64,
    pub flow_count: u32,
}

/// The traffic of one second, by process and by protocol.
#[derive(Clone, Debug)]
pub struct AggregatePayload {
    pub timestamp_unix: i64,
    pub by_process: Vec<ProcessRollup>,
    pub by_protocol: Vec<ProtocolRollup>,
}

/// The limits that the monitor knows to be in force for a process.
#[derive(Clone, Copy, Debug)]
pub struct KnownPidLimit {
    pub rate_bps: Option<u64>,
    pub total_max_bytes: Option<u64>,
}

/// No limit is known.
pub open spec fn no_known_limit() -> KnownPidLimit {
    KnownPidLimit { rate_bps: None, total_max_bytes: None }
}

impl Default for KnownPidLimit {
    fn default() -> (limit: Self)
        ensures
            limit == no_known_limit(),
    {
        KnownPidLimit { rate_bps: None, total_max_bytes: None }
    }
}

/// A connection in the table of the monitor, and when it was last seen, in nanoseconds of
/// the monitor's clock.
#[derive(Clone, Debug)]
pub struct TrackedConnection {
    pub snapshot: ConnectionSnapshot,
    pub last_seen: u64,
}

/// By what the table is sorted.
#[derive(Clone, Copy, Debug, PartialEq, Eq, Structural)]
pub enum SortMode {
    OutDesc,
    InDesc,
    PidAsc,
    ProcessAsc,
}

/// What the main part of the window shows.
#[derive(Clone, Copy, Debug, PartialEq, Eq, Structural)]
pub enum MainTab {
    Connections,
    Aggregate,
    SessionTotals,
    Limits,
}

/// Something that happened to the monitor.
#[derive(Debug)]
pub enum Message {
    Tick,
    IfaceMeta(String),
    SocketData(Vec<ConnectionSnapshot>),
    AggregateData(AggregatePayload),
    SetTab(MainTab),
    ResetSessionTotals,
    AlertReceived(AlertEvent),
    DismissAlert,
    SetSort(SortMode),
    ExportCsv,
    ExportResult(Result<String, String>),
    SetFilter(String),
    ToggleMonitor,
    ShowContextMenu(ConnectionSnapshot),
    OpenKillConfirm { pid: u32, label: String },
    CancelKillConfirm,
    ConfirmKillProcess,
    KillRequestDone(Result<(), String>),
    LimitPidInput(String),
    LimitMbpsInput(String),
    LimitTotalMbInput(String),
    SubmitLimit,
    SubmitTotalLimit,
    LimitSetDone(Result<(u32, u64), String>),
    LimitTotalSetDone(Result<(u32, u64), String>),
    LimitClearDone(Result<u32, String>),
    RemoveLimitPid(u32),
    AutoKillReceived(AutoKillEvent),
}

/// A snapshot is seen as it is: every field by itself.
pub proof fn lemma_snapshot_is_seen(row: ConnectionSnapshot)
    ensures
        row@.pid == row.pid,
        row.process_name matches Some(name) ==> row@.process_name == Some(name@),
        row.process_name is None <==> row@.process_name is None,
        row.username matches Some(name) ==> row@.username == Some(name@),
        row.username is None <==> row@.username is None,
        row@.src_ip == row.src_ip@,
        row@.src_port == row.src_port,
        row@.dst_ip == row.dst_ip@,
        row@.dst_port == row.dst_port,
        row@.protocol == row.protocol@,
        row@.bytes_in_per_sec == row.bytes_in_per_sec,
        row@.bytes_out_per_sec == row.bytes_out_per_sec,
        row@.timestamp_unix == row.timestamp_unix,
{
}

/// A sequence of snapshots is seen one by one, in its order.
pub proof fn lemma_rows_are_seen(rows: Seq<ConnectionSnapshot>, i: int)
    ensures
        rows_of(rows).len() == rows.len(),
        0 <= i < rows.len() ==> rows_of(rows)[i] == rows[i]@,
{
}

/// A key is seen as it is: every field by itself.
pub proof fn lemma_key_is_seen(key: ConnectionKey)
    ensures
        key@.src_ip == key.src_ip@,
        key@.dst_ip == key.dst_ip@,
        key@.src_port == key.src_port,
        key@.dst_port == key.dst_port,
        key@.protocol == key.protocol@,
{
}

/// An event is seen as it is: every field by itself.
pub proof fn lemma_event_is_seen(event: AutoKillEvent)
    ensures
        event@.pid == event.pid,
        event.process_name matches Some(name) ==> event@.process_name == Some(name@),
        event.process_name is None <==> event@.process_name is None,
        event@.reason == event.reason@,
        event@.threshold_bps == event.threshold_bps,
        event@.observed_bps == event.observed_bps,
        event@.threshold_total_bytes == event.threshold_total_bytes,
        event@.observed_total_bytes == event.observed_total_bytes,
        event@.timestamp_unix == event.timestamp_unix,
{
}

} // verus!
