//! The state of the monitor window, and what changes it.
//!
//! Times are nanoseconds of a clock that the caller reads; it never goes back.

use std::collections::BTreeMap;

use vstd::prelude::*;

use crate::aggregator::topped_up;
use crate::data::{
    no_known_limit, rows_of, AggregatePayload, AlertEvent, AutoKillEvent, ConnectionSnapshot,
    KeyView, KnownPidLimit, MainTab, Message, ProcessRollup, SnapshotView, SortMode,
    TrackedConnection,
};
use crate::filter::lemma_filter_contains;
use crate::history::or_empty;
use crate::number::{
    decimal, decimal_text, lemma_decimal_is_word, lemma_decimal_reads_back, number_of, parse_u32,
};
use crate::order::{
    comes_before, is_stable_order, lemma_order_unique, listed, stable_order, text_le,
    AscendingNumber, AscendingText, Descending, Ranked,
};
use crate::table::{
    distinct_keys, entries_where, lemma_pairs_at, lemma_pairs_filter, lemma_pairs_key,
    lemma_pairs_push, lemma_pairs_set, pairs_map,
};
use crate::text::{
    contains, is_blank, is_space, lemma_trim_takes_white_space, occurs, occurs_at, opt_text, trim,
    trimmed,
};

verus! {

broadcast use vstd::std_specs::btree::group_btree_axioms;

/// How long the table shows a connection, and the window counts as live, without news.
pub const STALE_NANOS: u64 = 3_000_000_000;

/// The time that has passed.
pub open spec fn elapsed(since: u64, now: u64) -> u64 {
    if now >= since {
        (now - since) as u64
    } else {
        0
    }
}

/// Whether the backend was heard of recently.
pub open spec fn is_live(heard: Option<u64>, now: u64) -> bool {
    match heard {
        Some(t) => elapsed(t, now) < STALE_NANOS,
        None => false,
    }
}

/// What tells the connection of a row from others.
pub open spec fn row_key(row: SnapshotView) -> KeyView {
    KeyView {
        src_ip: row.src_ip,
        dst_ip: row.dst_ip,
        src_port: row.src_port,
        dst_port: row.dst_port,
        protocol: row.protocol,
    }
}

/// A row of the table and when it was last seen.
pub struct TrackedView {
    pub row: SnapshotView,
    pub last_seen: u64,
}

impl View for TrackedConnection {
    type V = TrackedView;

    open spec fn view(&self) -> TrackedView {
        TrackedView { row: self.snapshot@, last_seen: self.last_seen }
    }
}

/// The rows of the table with their connections.
pub open spec fn tracked_pairs(table: Seq<TrackedConnection>) -> Seq<(KeyView, TrackedView)> {
    table.map_values(|t: TrackedConnection| (row_key(t@.row), t@))
}

/// The table once rows that were seen at `now` are entered, one after the other.
pub open spec fn entered(
    table: Map<KeyView, TrackedView>,
    rows: Seq<SnapshotView>,
    now: u64,
) -> Map<KeyView, TrackedView>
    decreases rows.len(),
{
    if rows.len() == 0 {
        table
    } else {
        entered(table, rows.drop_last(), now).insert(
            row_key(rows.last()),
            TrackedView { row: rows.last(), last_seen: now },
        )
    }
}

/// Whether a row was seen recently.
pub open spec fn is_fresh(t: TrackedView, now: u64) -> bool {
    elapsed(t.last_seen, now) < STALE_NANOS
}

/// The rows that were seen recently.
pub open spec fn fresh(table: Map<KeyView, TrackedView>, now: u64) -> Map<KeyView, TrackedView> {
    entries_where(table, |k: KeyView, t: TrackedView| is_fresh(t, now))
}

fn same_connection(a: &ConnectionSnapshot, b: &ConnectionSnapshot) -> (same: bool)
    ensures
        same == (row_key(a@) == row_key(b@)),
{
    a.src_port == b.src_port && a.dst_port == b.dst_port && a.src_ip == b.src_ip && a.dst_ip
        == b.dst_ip && a.protocol == b.protocol
}

/// The lower-case form of a text.
pub uninterp spec fn lowercase(text: Seq<char>) -> Seq<char>;

/// `str::to_lowercase`. The result is named, not described.
#[verifier::external_body]
fn to_lowercase(text: &str) -> (out: String)
    ensures
        out@ == lowercase(text@),
{
    text.to_lowercase()
}

/// Whether the filter stands in one of the texts or in one of the port numbers.
pub open spec fn found_in(
    filter: Seq<char>,
    name: Seq<char>,
    src_ip: Seq<char>,
    dst_ip: Seq<char>,
    user: Seq<char>,
    src_port: u16,
    dst_port: u16,
) -> bool {
    ||| occurs(name, filter)
    ||| occurs(src_ip, filter)
    ||| occurs(dst_ip, filter)
    ||| occurs(decimal(src_port as nat), filter)
    ||| occurs(decimal(dst_port as nat), filter)
    ||| occurs(user, filter)
}

/// Whether the filter stands in one of the texts or in one of the port numbers.
pub fn find_in(
    filter: &str,
    name: &str,
    src_ip: &str,
    dst_ip: &str,
    user: &str,
    src_port: u16,
    dst_port: u16,
) -> (found: bool)
    ensures
        found == found_in(filter@, name@, src_ip@, dst_ip@, user@, src_port, dst_port),
{
    contains(name, filter) || contains(src_ip, filter) || contains(dst_ip, filter) || contains(
        decimal_text(src_port as u64).as_str(),
        filter,
    ) || contains(decimal_text(dst_port as u64).as_str(), filter) || contains(user, filter)
}

/// Whether a row passes the filter: whatever the case of letters, the filter stands in its
/// process name, one of its addresses or ports, or its user name.
pub open spec fn passes(row: SnapshotView, filter: Seq<char>) -> bool {
    found_in(
        lowercase(filter),
        lowercase(or_empty(row.process_name)),
        lowercase(row.src_ip),
        lowercase(row.dst_ip),
        lowercase(or_empty(row.username)),
        row.src_port,
        row.dst_port,
    )
}

fn lower_or_empty(text: &Option<String>) -> (out: String)
    ensures
        out@ == lowercase(or_empty(opt_text(*text))),
{
    match text {
        Some(t) => to_lowercase(t.as_str()),
        None => to_lowercase(String::new().as_str()),
    }
}

/// The rows that the filter lets through; an empty filter lets all through.
pub open spec fn filtered(
    rows: Seq<ConnectionSnapshot>,
    filter: Seq<char>,
) -> Seq<ConnectionSnapshot> {
    rows.filter(|r: ConnectionSnapshot| filter.len() == 0 || passes(r@, filter))
}

/// Whether row `a` may stand before row `b`.
pub open spec fn row_precedes(mode: SortMode, a: SnapshotView, b: SnapshotView) -> bool {
    match mode {
        SortMode::OutDesc => a.bytes_out_per_sec >= b.bytes_out_per_sec,
        SortMode::InDesc => a.bytes_in_per_sec >= b.bytes_in_per_sec,
        SortMode::PidAsc => match (a.pid, b.pid) {
            (None, _) => true,
            (Some(_), None) => false,
            (Some(x), Some(y)) => x <= y,
        },
        SortMode::ProcessAsc => text_le(or_empty(a.process_name), or_empty(b.process_name)),
    }
}

/// `order` lists the positions of the rows, each once, in the order of the mode; rows that
/// tie keep their order.
pub open spec fn is_row_order(mode: SortMode, rows: Seq<SnapshotView>, order: Seq<usize>) -> bool {
    &&& order.len() == rows.len()
    &&& forall|i: int| 0 <= i < order.len() ==> (#[trigger] order[i]) < rows.len()
    &&& forall|k: int| 0 <= k < rows.len() ==> #[trigger] listed(order, k)
    &&& forall|i: int, j: int|
        0 <= i < j < order.len() ==> {
            let a = rows[#[trigger] order[i] as int];
            let b = rows[#[trigger] order[j] as int];
            row_precedes(mode, a, b) && (row_precedes(mode, b, a) ==> order[i] < order[j])
        }
}

/// The rows in an order.
pub open spec fn in_order(
    rows: Seq<ConnectionSnapshot>,
    order: Seq<usize>,
) -> Seq<ConnectionSnapshot> {
    Seq::new(order.len(), |i: int| rows[order[i] as int])
}

proof fn lemma_order_by_keys<K: Ranked>(
    mode: SortMode,
    rows: Seq<SnapshotView>,
    keys: Seq<K>,
    order: Seq<usize>,
)
    requires
        keys.len() == rows.len(),
        forall|i: int, j: int|
            0 <= i < rows.len() && 0 <= j < rows.len() ==> (#[trigger] keys[i]).ranked(
                #[trigger] keys[j],
            ) == row_precedes(mode, rows[i], rows[j]),
        is_stable_order(keys, order),
    ensures
        is_row_order(mode, rows, order),
{
    assert forall|i: int, j: int| 0 <= i < j < order.len() implies {
        let a = rows[#[trigger] order[i] as int];
        let b = rows[#[trigger] order[j] as int];
        row_precedes(mode, a, b) && (row_precedes(mode, b, a) ==> order[i] < order[j])
    } by {
        assert(comes_before(keys, order[i] as int, order[j] as int));
        let x = keys[order[i] as int];
        let y = keys[order[j] as int];
        assert(x.ranked(y) == row_precedes(mode, rows[order[i] as int], rows[order[j] as int]));
        assert(y.ranked(x) == row_precedes(mode, rows[order[j] as int], rows[order[i] as int]));
    }
}

fn order_by_rate(rows: &Vec<ConnectionSnapshot>, outgoing: bool) -> (order: Vec<usize>)
    ensures
        is_row_order(
            if outgoing {
                SortMode::OutDesc
            } else {
                SortMode::InDesc
            },
            rows_of(rows@),
            order@,
        ),
{
    let mut keys: Vec<Descending> = Vec::new();
    let mut i: usize = 0;
    while i < rows.len()
        invariant
            i <= rows.len(),
            keys@.len() == i,
            forall|k: int|
                0 <= k < i ==> (#[trigger] keys@[k]).0 == if outgoing {
                    rows@[k].bytes_out_per_sec
                } else {
                    rows@[k].bytes_in_per_sec
                },
        decreases rows.len() - i,
    {
        keys.push(
            Descending(
                if outgoing {
                    rows[i].bytes_out_per_sec
                } else {
                    rows[i].bytes_in_per_sec
                },
            ),
        );
        i = i + 1;
    }
    let order = stable_order(&keys);
    proof {
        let mode = if outgoing {
            SortMode::OutDesc
        } else {
            SortMode::InDesc
        };
        lemma_order_by_keys(mode, rows_of(rows@), keys@, order@);
    }
    order
}

fn order_by_pid(rows: &Vec<ConnectionSnapshot>) -> (order: Vec<usize>)
    ensures
        is_row_order(SortMode::PidAsc, rows_of(rows@), order@),
{
    let mut keys: Vec<AscendingNumber> = Vec::new();
    let mut i: usize = 0;
    while i < rows.len()
        invariant
            i <= rows.len(),
            keys@.len() == i,
            forall|k: int| 0 <= k < i ==> (#[trigger] keys@[k]).0 == rows@[k].pid,
        decreases rows.len() - i,
    {
        keys.push(AscendingNumber(rows[i].pid));
        i = i + 1;
    }
    let order = stable_order(&keys);
    proof {
        lemma_order_by_keys(SortMode::PidAsc, rows_of(rows@), keys@, order@);
    }
    order
}

fn order_by_process(rows: &Vec<ConnectionSnapshot>) -> (order: Vec<usize>)
    ensures
        is_row_order(SortMode::ProcessAsc, rows_of(rows@), order@),
{
    let mut keys: Vec<AscendingText> = Vec::new();
    let mut i: usize = 0;
    while i < rows.len()
        invariant
            i <= rows.len(),
            keys@.len() == i,
            forall|k: int|
                0 <= k < i ==> (#[trigger] keys@[k]).0@ == or_empty(rows@[k]@.process_name),
        decreases rows.len() - i,
    {
        let name = match &rows[i].process_name {
            Some(name) => name.clone(),
            None => String::new(),
        };
        keys.push(AscendingText(name));
        i = i + 1;
    }
    let order = stable_order(&keys);
    proof {
        lemma_order_by_keys(SortMode::ProcessAsc, rows_of(rows@), keys@, order@);
    }
    order
}

/// What the monitor reports of something it was asked to do.
#[derive(Debug)]
pub enum Notice {
    Exported(String),
    ExportFailed(String),
    StopRequested,
    StopFailed(String),
    InvalidPid,
    InvalidRate,
    InvalidTotal,
    RateSet { pid: u32, bps: u64 },
    RateFailed(String),
    TotalSet { pid: u32, max_bytes: u64 },
    TotalFailed(String),
    Cleared { pid: u32 },
    ClearFailed(String),
    AutoStopped(AutoKillEvent),
}

/// A notice and when it was given.
#[derive(Debug)]
pub struct Status {
    pub notice: Notice,
    pub at: u64,
}

/// The bytes that a process under a user carried since the totals were reset.
#[derive(Debug)]
pub struct SessionTotal {
    pub process_label: String,
    pub username: String,
    pub bytes_in: u64,
    pub bytes_out: u64,
}

/// The state of the monitor window.
pub struct NetMonitor {
    /// The connections that were seen recently, each once.
    pub table: Vec<TrackedConnection>,
    pub scroll: usize,
    pub last_snapshot_at: Option<u64>,
    pub sort_mode: SortMode,
    pub active_alert: Option<AlertEvent>,
    pub alert_arrived_at: Option<u64>,
    pub export_status: Option<Status>,
    pub filter_text: String,
    pub is_monitoring: bool,
    pub session_start: Option<u64>,
    pub context_menu: Option<ConnectionSnapshot>,
    /// The interface that the backend captures, once it has told.
    pub iface_name: String,
    pub active_tab: MainTab,
    pub latest_aggregate: Option<AggregatePayload>,
    /// The totals by process and user, each pair once.
    pub session_totals: Vec<SessionTotal>,
    /// The process that waits for the user to confirm that it shall be stopped, and its name.
    pub kill_pending: Option<(u32, String)>,
    /// The limits that the backend has confirmed and not lifted since.
    pub known_limits: BTreeMap<u32, KnownPidLimit>,
    pub limit_pid_input: String,
    pub limit_mbps_input: String,
    pub limit_total_mb_input: String,
}

/// The totals with the process and user that they are of.
pub open spec fn total_pairs(
    totals: Seq<SessionTotal>,
) -> Seq<((Seq<char>, Seq<char>), (u64, u64))> {
    totals.map_values(
        |t: SessionTotal| ((t.process_label@, t.username@), (t.bytes_in, t.bytes_out)),
    )
}

impl NetMonitor {
    /// The rows of the table by connection.
    pub open spec fn rows_by_key(self) -> Map<KeyView, TrackedView> {
        pairs_map(tracked_pairs(self.table@))
    }

    /// The totals by process and user.
    pub open spec fn totals_by_process(self) -> Map<(Seq<char>, Seq<char>), (u64, u64)> {
        pairs_map(total_pairs(self.session_totals@))
    }

    /// The rows of the table that the filter lets through.
    pub open spec fn shown(self) -> Seq<ConnectionSnapshot> {
        filtered(self.table@.map_values(|t: TrackedConnection| t.snapshot), self.filter_text@)
    }

    /// No connection is in the table twice, no process has two totals, and process 0 or 1
    /// never waits to be stopped.
    pub open spec fn wf(self) -> bool {
        &&& distinct_keys(tracked_pairs(self.table@))
        &&& distinct_keys(total_pairs(self.session_totals@))
        &&& self.kill_pending matches Some((pid, _)) ==> pid > 1
    }

    /// A monitor that has heard nothing yet, started at `now`.
    pub fn new(now: u64) -> (m: Self)
        ensures
            m.wf(),
            m.table@.len() == 0,
            m.scroll == 0,
            m.last_snapshot_at is None,
            m.sort_mode == SortMode::OutDesc,
            m.active_alert is None,
            m.alert_arrived_at is None,
            m.export_status is None,
            m.filter_text@.len() == 0,
            m.is_monitoring,
            m.session_start == Some(now),
            m.context_menu is None,
            m.iface_name@ == "\u{2026}"@,
            m.active_tab == MainTab::Connections,
            m.latest_aggregate is None,
            m.session_totals@.len() == 0,
            m.kill_pending is None,
            m.known_limits@ == Map::<u32, KnownPidLimit>::empty(),
            m.limit_pid_input@.len() == 0,
            m.limit_mbps_input@.len() == 0,
            m.limit_total_mb_input@.len() == 0,
    {
        NetMonitor {
            table: Vec::new(),
            scroll: 0,
            last_snapshot_at: None,
            sort_mode: SortMode::OutDesc,
            active_alert: None,
            alert_arrived_at: None,
            export_status: None,
            filter_text: String::new(),
            is_monitoring: true,
            session_start: Some(now),
            context_menu: None,
            iface_name: "\u{2026}".to_owned(),
            active_tab: MainTab::Connections,
            latest_aggregate: None,
            session_totals: Vec::new(),
            kill_pending: None,
            known_limits: BTreeMap::new(),
            limit_pid_input: String::new(),
            limit_mbps_input: String::new(),
            limit_total_mb_input: String::new(),
        }
    }

    /// Whether the backend was heard of recently.
    pub fn connected(&self, now: u64) -> (live: bool)
        ensures
            live == is_live(self.last_snapshot_at, now),
    {
        match self.last_snapshot_at {
            Some(t) => now.saturating_sub(t) < STALE_NANOS,
            None => false,
        }
    }

    /// The rows of the table that the filter lets through, in the order of the table.
    fn shown_rows(&self) -> (rows: Vec<ConnectionSnapshot>)
        ensures
            rows@ == self.shown(),
    {
        let ghost all = self.table@.map_values(|t: TrackedConnection| t.snapshot);
        let ghost filter = self.filter_text@;
        let ghost keep = |r: ConnectionSnapshot| filter.len() == 0 || passes(r@, filter);
        let filtering: bool = !self.filter_text.as_str().is_empty();
        let wanted = to_lowercase(self.filter_text.as_str());
        let mut rows: Vec<ConnectionSnapshot> = Vec::new();
        let mut i: usize = 0;
        assert(all.take(0).filter(keep) =~= Seq::empty()) by {
            reveal(Seq::filter);
        }
        while i < self.table.len()
            invariant
                i <= self.table.len(),
                all == self.table@.map_values(|t: TrackedConnection| t.snapshot),
                filter == self.filter_text@,
                filtering == (filter.len() > 0),
                wanted@ == lowercase(filter),
                keep == (|r: ConnectionSnapshot| filter.len() == 0 || passes(r@, filter)),
                rows@ == all.take(i as int).filter(keep),
            decreases self.table.len() - i,
        {
            let row = &self.table[i].snapshot;
            proof {
                assert(all.take(i + 1).drop_last() =~= all.take(i as int));
                assert(all.take(i + 1).last() == *row);
                reveal(Seq::filter);
            }
            if !filtering || find_in(
                wanted.as_str(),
                lower_or_empty(&row.process_name).as_str(),
                to_lowercase(row.src_ip.as_str()).as_str(),
                to_lowercase(row.dst_ip.as_str()).as_str(),
                lower_or_empty(&row.username).as_str(),
                row.src_port,
                row.dst_port,
            ) {
                rows.push(row.clone());
            }
            i = i + 1;
        }
        assert(all.take(i as int) =~= all);
        rows
    }

    /// The rows that the filter lets through, in the order that the user chose.
    pub fn sorted_rows(&self) -> (rows: Vec<ConnectionSnapshot>)
        ensures
            exists|order: Seq<usize>|
                {
                    &&& #[trigger] is_row_order(self.sort_mode, rows_of(self.shown()), order)
                    &&& rows@ == in_order(self.shown(), order)
                },
    {
        let shown = self.shown_rows();
        let order = match self.sort_mode {
            SortMode::OutDesc => order_by_rate(&shown, true),
            SortMode::InDesc => order_by_rate(&shown, false),
            SortMode::PidAsc => order_by_pid(&shown),
            SortMode::ProcessAsc => order_by_process(&shown),
        };
        let mut rows: Vec<ConnectionSnapshot> = Vec::new();
        let mut i: usize = 0;
        while i < order.len()
            invariant
                i <= order.len(),
                forall|k: int| 0 <= k < order@.len() ==> (#[trigger] order@[k]) < shown@.len(),
                rows@.len() == i,
                forall|k: int| 0 <= k < i ==> #[trigger] rows@[k] == shown@[order@[k] as int],
            decreases order.len() - i,
        {
            rows.push(shown[order[i]].clone());
            i = i + 1;
        }
        assert(rows@ =~= in_order(shown@, order@));
        assert(is_row_order(self.sort_mode, rows_of(self.shown()), order@));
        rows
    }

    /// Keeps the scroll position on a row that is there.
    fn clamp_table_scroll(&mut self)
        ensures
            *final(self) == (NetMonitor {
                scroll: clamped(old(self).scroll, old(self).shown().len()),
                ..*old(self)
            }),
    {
        let n: usize = self.shown_rows().len();
        if n == 0 {
            self.scroll = 0;
        } else if self.scroll > n - 1 {
            self.scroll = n - 1;
        }
    }

    /// Enters one row into the table.
    fn enter(&mut self, snap: ConnectionSnapshot, now: u64)
        requires
            old(self).wf(),
        ensures
            final(self).wf(),
            final(self).rows_by_key() == old(self).rows_by_key().insert(
                row_key(snap@),
                (TrackedView { row: snap@, last_seen: now }),
            ),
            *final(self) == (NetMonitor { table: final(self).table, ..*old(self) }),
    {
        let ghost pairs = tracked_pairs(self.table@);
        let ghost t = TrackedView { row: snap@, last_seen: now };
        let mut i: usize = 0;
        while i < self.table.len()
            invariant
                i <= self.table.len(),
                pairs == tracked_pairs(self.table@),
                *self == *old(self),
                distinct_keys(pairs),
                t == (TrackedView { row: snap@, last_seen: now }),
                forall|k: int| 0 <= k < i ==> (#[trigger] pairs[k]).0 != row_key(snap@),
                old(self).wf(),
            decreases self.table.len() - i,
        {
            assert(pairs[i as int].0 == row_key(self.table@[i as int]@.row));
            if same_connection(&self.table[i].snapshot, &snap) {
                proof {
                    lemma_pairs_set(pairs, i as int, t);
                }
                self.table.set(i, TrackedConnection { snapshot: snap, last_seen: now });
                assert(tracked_pairs(self.table@) =~= pairs.update(i as int, (row_key(snap@), t)));
                return ;
            }
            i = i + 1;
        }
        proof {
            lemma_pairs_push(pairs, row_key(snap@), t);
        }
        self.table.push(TrackedConnection { snapshot: snap, last_seen: now });
        assert(tracked_pairs(self.table@) =~= pairs.push((row_key(snap@), t)));
    }

    /// Removes the rows that were not seen recently.
    fn drop_stale(&mut self, now: u64)
        requires
            old(self).wf(),
        ensures
            final(self).wf(),
            final(self).rows_by_key() == fresh(old(self).rows_by_key(), now),
            *final(self) == (NetMonitor { table: final(self).table, ..*old(self) }),
    {
        let mut table: Vec<TrackedConnection> = Vec::new();
        std::mem::swap(&mut table, &mut self.table);
        let ghost pairs = tracked_pairs(old(self).table@);
        let ghost keep = |p: (KeyView, TrackedView)| is_fresh(p.1, now);
        let mut kept: Vec<TrackedConnection> = Vec::new();
        assert(tracked_pairs(kept@) =~= pairs.take(0).filter(keep)) by {
            reveal(Seq::filter);
        }
        for t in it: table
            invariant
                it.seq() == old(self).table@,
                pairs == tracked_pairs(old(self).table@),
                keep == (|p: (KeyView, TrackedView)| is_fresh(p.1, now)),
                tracked_pairs(kept@) == pairs.take(it.index()).filter(keep),
                it.index() == pairs.len() ==> tracked_pairs(kept@) == pairs.filter(keep),
        {
            let ghost before = tracked_pairs(kept@);
            proof {
                let i = it.index();
                assert(pairs.take(i + 1).drop_last() =~= pairs.take(i));
                assert(pairs.take(i + 1).last() == (row_key(t@.row), t@));
                reveal(Seq::filter);
                if i + 1 == pairs.len() {
                    assert(pairs.take(i + 1) =~= pairs);
                }
            }
            if now.saturating_sub(t.last_seen) < STALE_NANOS {
                kept.push(t);
                assert(tracked_pairs(kept@) =~= before.push((row_key(t@.row), t@)));
            }
        }
        proof {
            lemma_pairs_filter(pairs, keep);
            assert(pairs_map(pairs.filter(keep)) == fresh(pairs_map(pairs), now)) by {
                assert(pairs_map(pairs.filter(keep)) =~= fresh(pairs_map(pairs), now));
            }
        }
        self.table = kept;
    }

    /// Takes in the rows of a snapshot that arrived at `now`.
    pub fn apply_snapshots(&mut self, snapshots: Vec<ConnectionSnapshot>, now: u64)
        requires
            old(self).wf(),
        ensures
            final(self).wf(),
            final(self).rows_by_key() == fresh(
                entered(old(self).rows_by_key(), rows_of(snapshots@), now),
                now,
            ),
            final(self).last_snapshot_at == Some(now),
            final(self).scroll == clamped(old(self).scroll, final(self).shown().len()),
            *final(self) == (NetMonitor {
                table: final(self).table,
                scroll: final(self).scroll,
                last_snapshot_at: final(self).last_snapshot_at,
                ..*old(self)
            }),
    {
        let ghost rows = rows_of(snapshots@);
        let ghost before = self.rows_by_key();
        assert(entered(before, rows.take(0), now) == before);
        for snap in it: snapshots
            invariant
                it.seq() == snapshots@,
                rows == rows_of(snapshots@),
                before == old(self).rows_by_key(),
                self.wf(),
                self.rows_by_key() == entered(before, rows.take(it.index()), now),
                it.index() == rows.len() ==> self.rows_by_key() == entered(before, rows, now),
                *self == (NetMonitor { table: self.table, ..*old(self) }),
        {
            self.enter(snap, now);
            proof {
                let i = it.index();
                assert(rows.take(i + 1).drop_last() =~= rows.take(i));
                assert(rows.take(i + 1).last() == snap@);
                if i + 1 == rows.len() {
                    assert(rows.take(i + 1) =~= rows);
                }
            }
        }
        self.drop_stale(now);
        self.last_snapshot_at = Some(now);
        self.clamp_table_scroll();
    }
}

/// A scroll position, moved to the last row if it lies behind it.
pub open spec fn clamped(scroll: usize, rows: nat) -> usize {
    if rows == 0 {
        0
    } else if scroll > rows - 1 {
        (rows - 1) as usize
    } else {
        scroll
    }
}

/// How long an alert is shown.
pub const ALERT_NANOS: u64 = 5_000_000_000;

/// How long a notice is shown.
pub const NOTICE_NANOS: u64 = 4_000_000_000;

/// What has to be done outside the window for a message.
#[derive(Clone, Copy, Debug, PartialEq, Eq, Structural)]
pub enum Action {
    Nothing,
    /// Read what has come in on the stream.
    Poll,
    /// Save the history of the session to a file.
    Export,
    /// Ask the backend to stop the process.
    Kill { pid: u32 },
    /// Read the number that was entered as the rate of the process.
    ReadRate { pid: u32 },
    /// Read the number that was entered as the cap of the process.
    ReadTotal { pid: u32 },
    /// Ask the backend to limit the rate of the process.
    SetRate { pid: u32, bps: u64 },
    /// Ask the backend to cap the total of the process.
    SetTotal { pid: u32, max_bytes: u64 },
    /// Ask the backend to lift the limits of the process.
    ClearLimits { pid: u32 },
}

/// The process id that was entered: a number over 1, with any white space around it.
pub open spec fn entered_pid(text: Seq<char>) -> Option<u32> {
    match number_of(trimmed(text), 10, u32::MAX as nat) {
        Some(pid) => if pid > 1 {
            Some(pid as u32)
        } else {
            None
        },
        None => None,
    }
}

/// The process id that was entered.
fn read_pid(text: &str) -> (pid: Option<u32>)
    ensures
        pid == entered_pid(text@),
{
    match parse_u32(trim(text).as_str()) {
        Some(pid) => if pid > 1 {
            Some(pid)
        } else {
            None
        },
        None => None,
    }
}

/// The totals after the traffic of a second was added.
pub open spec fn totals_with(
    totals: Map<(Seq<char>, Seq<char>), (u64, u64)>,
    rollups: Seq<ProcessRollup>,
) -> Map<(Seq<char>, Seq<char>), (u64, u64)>
    decreases rollups.len(),
{
    if rollups.len() == 0 {
        totals
    } else {
        let before = totals_with(totals, rollups.drop_last());
        let r = rollups.last();
        let key = (r.process_label@, r.username@);
        let (bytes_in, bytes_out) = if before.contains_key(key) {
            before[key]
        } else {
            (0u64, 0u64)
        };
        before.insert(
            key,
            (topped_up(bytes_in, r.bytes_in_per_sec), topped_up(bytes_out, r.bytes_out_per_sec)),
        )
    }
}

/// What is known of the limits of a process, or nothing.
pub open spec fn known_limit(limits: Map<u32, KnownPidLimit>, pid: u32) -> KnownPidLimit {
    if limits.contains_key(pid) {
        limits[pid]
    } else {
        no_known_limit()
    }
}

/// `m` with a notice given at `now`.
pub open spec fn noticed(m: NetMonitor, notice: Notice, now: u64) -> NetMonitor {
    NetMonitor { export_status: Some(Status { notice, at: now }), ..m }
}

/// What a message changes, and what is to be done for it.
pub open spec fn is_update(
    before: NetMonitor,
    message: Message,
    now: u64,
    after: NetMonitor,
    action: Action,
) -> bool {
    match message {
        Message::Tick => {
            let alert_over = match before.alert_arrived_at {
                Some(t) => elapsed(t, now) > ALERT_NANOS,
                None => false,
            };
            let notice_over = match before.export_status {
                Some(status) => elapsed(status.at, now) > NOTICE_NANOS,
                None => false,
            };
            &&& action == Action::Poll
            &&& after == NetMonitor {
                active_alert: if alert_over { None } else { before.active_alert },
                alert_arrived_at: if alert_over { None } else { before.alert_arrived_at },
                export_status: if notice_over { None } else { before.export_status },
                ..before
            }
        },
        Message::IfaceMeta(name) => {
            &&& action == Action::Nothing
            &&& after == NetMonitor { iface_name: name, ..before }
        },
        Message::SocketData(snapshots) => {
            &&& action == Action::Nothing
            &&& after.rows_by_key() == fresh(
                entered(before.rows_by_key(), rows_of(snapshots@), now),
                now,
            )
            &&& after.last_snapshot_at == Some(now)
            &&& after.scroll == clamped(before.scroll, after.shown().len())
            &&& after == NetMonitor {
                table: after.table,
                scroll: after.scroll,
                last_snapshot_at: after.last_snapshot_at,
                ..before
            }
        },
        Message::AggregateData(aggregate) => {
            &&& action == Action::Nothing
            &&& after.totals_by_process() == totals_with(
                before.totals_by_process(),
                aggregate.by_process@,
            )
            &&& after == NetMonitor {
                session_totals: after.session_totals,
                latest_aggregate: Some(aggregate),
                ..before
            }
        },
        Message::SetTab(tab) => {
            &&& action == Action::Nothing
            &&& after == NetMonitor { active_tab: tab, context_menu: None, ..before }
        },
        Message::ResetSessionTotals => {
            &&& action == Action::Nothing
            &&& after.session_totals@.len() == 0
            &&& after == NetMonitor { session_totals: after.session_totals, ..before }
        },
        Message::AlertReceived(alert) => {
            &&& action == Action::Nothing
            &&& after == NetMonitor {
                active_alert: Some(alert),
                alert_arrived_at: Some(now),
                ..before
            }
        },
        Message::DismissAlert => {
            &&& action == Action::Nothing
            &&& after == NetMonitor { active_alert: None, alert_arrived_at: None, ..before }
        },
        Message::SetSort(mode) => {
            &&& action == Action::Nothing
            &&& after == NetMonitor { sort_mode: mode, scroll: 0, ..before }
        },
        Message::ExportCsv => action == Action::Export && after == before,
        Message::ExportResult(result) => {
            &&& action == Action::Nothing
            &&& after == noticed(
                before,
                match result {
                    Ok(name) => Notice::Exported(name),
                    Err(e) => Notice::ExportFailed(e),
                },
                now,
            )
        },
        Message::SetFilter(text) => {
            &&& action == Action::Nothing
            &&& after == NetMonitor { filter_text: text, context_menu: None, scroll: 0, ..before }
        },
        Message::ToggleMonitor => {
            &&& action == Action::Nothing
            &&& after == NetMonitor { is_monitoring: !before.is_monitoring, ..before }
        },
        Message::ShowContextMenu(conn) => {
            &&& action == Action::Nothing
            &&& after == NetMonitor { context_menu: Some(conn), ..before }
        },
        Message::OpenKillConfirm { pid, label } => {
            &&& action == Action::Nothing
            &&& after == NetMonitor {
                kill_pending: if pid > 1 { Some((pid, label)) } else { before.kill_pending },
                context_menu: None,
                ..before
            }
        },
        Message::CancelKillConfirm => {
            &&& action == Action::Nothing
            &&& after == NetMonitor { kill_pending: None, ..before }
        },
        Message::ConfirmKillProcess => {
            &&& action == match before.kill_pending {
                Some((pid, _)) => Action::Kill { pid },
                None => Action::Nothing,
            }
            &&& after == NetMonitor { kill_pending: None, ..before }
        },
        Message::KillRequestDone(result) => {
            &&& action == Action::Nothing
            &&& after == noticed(
                before,
                match result {
                    Ok(()) => Notice::StopRequested,
                    Err(e) => Notice::StopFailed(e),
                },
                now,
            )
        },
        Message::LimitPidInput(text) => {
            &&& action == Action::Nothing
            &&& after == NetMonitor { limit_pid_input: text, ..before }
        },
        Message::LimitMbpsInput(text) => {
            &&& action == Action::Nothing
            &&& after == NetMonitor { limit_mbps_input: text, ..before }
        },
        Message::LimitTotalMbInput(text) => {
            &&& action == Action::Nothing
            &&& after == NetMonitor { limit_total_mb_input: text, ..before }
        },
        Message::SubmitLimit => match entered_pid(before.limit_pid_input@) {
            Some(pid) => action == Action::ReadRate { pid } && after == before,
            None => action == Action::Nothing && after == noticed(before, Notice::InvalidPid, now),
        },
        Message::SubmitTotalLimit => match entered_pid(before.limit_pid_input@) {
            Some(pid) => action == Action::ReadTotal { pid } && after == before,
            None => action == Action::Nothing && after == noticed(before, Notice::InvalidPid, now),
        },
        Message::LimitSetDone(result) => {
            &&& action == Action::Nothing
            &&& match result {
                Ok((pid, bps)) => {
                    &&& after.known_limits@ == before.known_limits@.insert(
                        pid,
                        KnownPidLimit {
                            rate_bps: Some(bps),
                            ..known_limit(before.known_limits@, pid)
                        },
                    )
                    &&& after.limit_pid_input@.len() == 0
                    &&& after.limit_mbps_input@.len() == 0
                    &&& after == noticed(
                        NetMonitor {
                            known_limits: after.known_limits,
                            limit_pid_input: after.limit_pid_input,
                            limit_mbps_input: after.limit_mbps_input,
                            ..before
                        },
                        Notice::RateSet { pid, bps },
                        now,
                    )
                },
                Err(e) => after == noticed(before, Notice::RateFailed(e), now),
            }
        },
        Message::LimitTotalSetDone(result) => {
            &&& action == Action::Nothing
            &&& match result {
                Ok((pid, max_bytes)) => {
                    &&& after.known_limits@ == before.known_limits@.insert(
                        pid,
                        KnownPidLimit {
                            total_max_bytes: Some(max_bytes),
                            ..known_limit(before.known_limits@, pid)
                        },
                    )
                    &&& after.limit_pid_input@.len() == 0
                    &&& after.limit_total_mb_input@.len() == 0
                    &&& after == noticed(
                        NetMonitor {
                            known_limits: after.known_limits,
                            limit_pid_input: after.limit_pid_input,
                            limit_total_mb_input: after.limit_total_mb_input,
                            ..before
                        },
                        Notice::TotalSet { pid, max_bytes },
                        now,
                    )
                },
                Err(e) => after == noticed(before, Notice::TotalFailed(e), now),
            }
        },
        Message::RemoveLimitPid(pid) => action == Action::ClearLimits { pid } && after == before,
        Message::LimitClearDone(result) => {
            &&& action == Action::Nothing
            &&& match result {
                Ok(pid) => {
                    &&& after.known_limits@ == before.known_limits@.remove(pid)
                    &&& after == noticed(
                        NetMonitor { known_limits: after.known_limits, ..before },
                        Notice::Cleared { pid },
                        now,
                    )
                },
                Err(e) => after == noticed(before, Notice::ClearFailed(e), now),
            }
        },
        Message::AutoKillReceived(event) => {
            &&& action == Action::Nothing
            &&& after.known_limits@ == before.known_limits@.remove(event.pid)
            &&& after == noticed(
                NetMonitor { known_limits: after.known_limits, ..before },
                Notice::AutoStopped(event),
                now,
            )
        },
    }
}

impl NetMonitor {
    fn notify(&mut self, notice: Notice, now: u64)
        ensures
            *final(self) == noticed(*old(self), notice, now),
    {
        self.export_status = Some(Status { notice, at: now });
    }

    /// What is known of the limits of a process, or nothing.
    fn limit_of(&self, pid: u32) -> (limit: KnownPidLimit)
        ensures
            limit == known_limit(self.known_limits@, pid),
    {
        match self.known_limits.get(&pid) {
            Some(limit) => *limit,
            None => KnownPidLimit::default(),
        }
    }

    /// Adds the traffic of one process in one second to its total.
    fn add_total(&mut self, rollup: &ProcessRollup)
        requires
            old(self).wf(),
        ensures
            final(self).wf(),
            final(self).totals_by_process() == totals_with(
                old(self).totals_by_process(),
                seq![*rollup],
            ),
            *final(self) == (NetMonitor { session_totals: final(self).session_totals, ..*old(self) }),
    {
        let ghost pairs = total_pairs(self.session_totals@);
        let ghost key = (rollup.process_label@, rollup.username@);
        let ghost before = self.totals_by_process();
        assert(seq![*rollup].drop_last() =~= Seq::<ProcessRollup>::empty());
        reveal_with_fuel(totals_with, 2);
        let mut i: usize = 0;
        while i < self.session_totals.len()
            invariant
                i <= self.session_totals.len(),
                pairs == total_pairs(self.session_totals@),
                before == pairs_map(pairs),
                key == (rollup.process_label@, rollup.username@),
                *self == *old(self),
                distinct_keys(pairs),
                forall|k: int| 0 <= k < i ==> (#[trigger] pairs[k]).0 != key,
                old(self).wf(),
                totals_with(before, seq![*rollup]) == before.insert(
                    key,
                    (
                        topped_up(
                            if before.contains_key(key) { before[key].0 } else { 0 },
                            rollup.bytes_in_per_sec,
                        ),
                        topped_up(
                            if before.contains_key(key) { before[key].1 } else { 0 },
                            rollup.bytes_out_per_sec,
                        ),
                    ),
                ),
            decreases self.session_totals.len() - i,
        {
            let t = &self.session_totals[i];
            assert(pairs[i as int].0 == (t.process_label@, t.username@));
            if t.process_label == rollup.process_label && t.username == rollup.username {
                let bytes_in: u64 = t.bytes_in.saturating_add(rollup.bytes_in_per_sec);
                let bytes_out: u64 = t.bytes_out.saturating_add(rollup.bytes_out_per_sec);
                proof {
                    lemma_pairs_at(pairs, i as int);
                    lemma_pairs_set(pairs, i as int, (bytes_in, bytes_out));
                }
                let total = SessionTotal {
                    process_label: rollup.process_label.clone(),
                    username: rollup.username.clone(),
                    bytes_in,
                    bytes_out,
                };
                self.session_totals.set(i, total);
                assert(total_pairs(self.session_totals@) =~= pairs.update(
                    i as int,
                    (key, (bytes_in, bytes_out)),
                ));
                return ;
            }
            i = i + 1;
        }
        let total = SessionTotal {
            process_label: rollup.process_label.clone(),
            username: rollup.username.clone(),
            bytes_in: rollup.bytes_in_per_sec,
            bytes_out: rollup.bytes_out_per_sec,
        };
        proof {
            lemma_pairs_push(pairs, key, (total.bytes_in, total.bytes_out));
        }
        self.session_totals.push(total);
        assert(total_pairs(self.session_totals@) =~= pairs.push(
            (key, (total.bytes_in, total.bytes_out)),
        ));
    }

    /// Adds the traffic of one second to the totals.
    fn add_totals(&mut self, rollups: &Vec<ProcessRollup>)
        requires
            old(self).wf(),
        ensures
            final(self).wf(),
            final(self).totals_by_process() == totals_with(
                old(self).totals_by_process(),
                rollups@,
            ),
            *final(self) == (NetMonitor { session_totals: final(self).session_totals, ..*old(self) }),
    {
        let ghost before = self.totals_by_process();
        let mut i: usize = 0;
        while i < rollups.len()
            invariant
                i <= rollups.len(),
                self.wf(),
                self.totals_by_process() == totals_with(before, rollups@.take(i as int)),
                *self == (NetMonitor { session_totals: self.session_totals, ..*old(self) }),
            decreases rollups.len() - i,
        {
            let ghost so_far = self.totals_by_process();
            self.add_total(&rollups[i]);
            proof {
                let r = rollups@[i as int];
                assert(seq![r].drop_last() =~= Seq::<ProcessRollup>::empty());
                assert(seq![r].last() == r);
                assert(rollups@.take(i + 1).drop_last() =~= rollups@.take(i as int));
                assert(rollups@.take(i + 1).last() == r);
                reveal_with_fuel(totals_with, 2);
            }
            i = i + 1;
        }
        assert(rollups@.take(i as int) =~= rollups@);
    }

    /// Takes in a message at time `now`.
    pub fn update(&mut self, message: Message, now: u64) -> (action: Action)
        requires
            old(self).wf(),
        ensures
            final(self).wf(),
            is_update(*old(self), message, now, *final(self), action),
    {
        match message {
            Message::Tick => {
                if let Some(t) = self.alert_arrived_at {
                    if now.saturating_sub(t) > ALERT_NANOS {
                        self.active_alert = None;
                        self.alert_arrived_at = None;
                    }
                }
                let notice_over: bool = match &self.export_status {
                    Some(status) => now.saturating_sub(status.at) > NOTICE_NANOS,
                    None => false,
                };
                if notice_over {
                    self.export_status = None;
                }
                return Action::Poll;
            },
            Message::IfaceMeta(name) => {
                self.iface_name = name;
            },
            Message::SocketData(snapshots) => {
                self.apply_snapshots(snapshots, now);
            },
            Message::AggregateData(aggregate) => {
                self.add_totals(&aggregate.by_process);
                self.latest_aggregate = Some(aggregate);
            },
            Message::ResetSessionTotals => {
                self.session_totals = Vec::new();
            },
            Message::SetTab(tab) => {
                self.active_tab = tab;
                self.context_menu = None;
            },
            Message::AlertReceived(alert) => {
                self.active_alert = Some(alert);
                self.alert_arrived_at = Some(now);
            },
            Message::DismissAlert => {
                self.active_alert = None;
                self.alert_arrived_at = None;
            },
            Message::SetSort(mode) => {
                self.sort_mode = mode;
                self.scroll = 0;
            },
            Message::ExportCsv => {
                return Action::Export;
            },
            Message::ExportResult(result) => {
                let notice = match result {
                    Ok(name) => Notice::Exported(name),
                    Err(e) => Notice::ExportFailed(e),
                };
                self.notify(notice, now);
            },
            Message::SetFilter(text) => {
                self.filter_text = text;
                self.context_menu = None;
                self.scroll = 0;
            },
            Message::ToggleMonitor => {
                self.is_monitoring = !self.is_monitoring;
            },
            Message::ShowContextMenu(conn) => {
                self.context_menu = Some(conn);
            },
            Message::OpenKillConfirm { pid, label } => {
                if pid > 1 {
                    self.kill_pending = Some((pid, label));
                }
                self.context_menu = None;
            },
            Message::CancelKillConfirm => {
                self.kill_pending = None;
            },
            Message::ConfirmKillProcess => {
                let action = match &self.kill_pending {
                    Some((pid, _)) => Action::Kill { pid: *pid },
                    None => Action::Nothing,
                };
                self.kill_pending = None;
                return action;
            },
            Message::KillRequestDone(result) => {
                let notice = match result {
                    Ok(()) => Notice::StopRequested,
                    Err(e) => Notice::StopFailed(e),
                };
                self.notify(notice, now);
            },
            Message::LimitPidInput(text) => {
                self.limit_pid_input = text;
            },
            Message::LimitMbpsInput(text) => {
                self.limit_mbps_input = text;
            },
            Message::LimitTotalMbInput(text) => {
                self.limit_total_mb_input = text;
            },
            Message::SubmitLimit => match read_pid(self.limit_pid_input.as_str()) {
                Some(pid) => {
                    return Action::ReadRate { pid };
                },
                None => {
                    self.notify(Notice::InvalidPid, now);
                },
            },
            Message::SubmitTotalLimit => match read_pid(self.limit_pid_input.as_str()) {
                Some(pid) => {
                    return Action::ReadTotal { pid };
                },
                None => {
                    self.notify(Notice::InvalidPid, now);
                },
            },
            Message::LimitSetDone(result) => match result {
                Ok((pid, bps)) => {
                    let limit = self.limit_of(pid);
                    self.known_limits.insert(pid, KnownPidLimit { rate_bps: Some(bps), ..limit });
                    self.limit_pid_input = String::new();
                    self.limit_mbps_input = String::new();
                    self.notify(Notice::RateSet { pid, bps }, now);
                },
                Err(e) => {
                    self.notify(Notice::RateFailed(e), now);
                },
            },
            Message::LimitTotalSetDone(result) => match result {
                Ok((pid, max_bytes)) => {
                    let limit = self.limit_of(pid);
                    self.known_limits.insert(
                        pid,
                        KnownPidLimit { total_max_bytes: Some(max_bytes), ..limit },
                    );
                    self.limit_pid_input = String::new();
                    self.limit_total_mb_input = String::new();
                    self.notify(Notice::TotalSet { pid, max_bytes }, now);
                },
                Err(e) => {
                    self.notify(Notice::TotalFailed(e), now);
                },
            },
            Message::RemoveLimitPid(pid) => {
                return Action::ClearLimits { pid };
            },
            Message::LimitClearDone(result) => match result {
                Ok(pid) => {
                    self.known_limits.remove(&pid);
                    self.notify(Notice::Cleared { pid }, now);
                },
                Err(e) => {
                    self.notify(Notice::ClearFailed(e), now);
                },
            },
            Message::AutoKillReceived(event) => {
                self.known_limits.remove(&event.pid);
                self.notify(Notice::AutoStopped(event), now);
            },
        }
        Action::Nothing
    }

    /// Goes on once the rate that was entered for the process was read; `None` stands for
    /// one that is no positive number.
    pub fn rate_read(&mut self, pid: u32, bps: Option<u64>, now: u64) -> (action: Action)
        ensures
            action == rate_action(pid, bps),
            match bps {
                Some(bps) => action == (Action::SetRate { pid, bps }) && *final(self) == *old(self),
                None => action == Action::Nothing && *final(self) == noticed(
                    *old(self),
                    Notice::InvalidRate,
                    now,
                ),
            },
    {
        match bps {
            Some(bps) => Action::SetRate { pid, bps },
            None => {
                self.notify(Notice::InvalidRate, now);
                Action::Nothing
            },
        }
    }

    /// Goes on once the cap that was entered for the process was read; `None` stands for one
    /// that is no positive number.
    pub fn total_read(&mut self, pid: u32, max_bytes: Option<u64>, now: u64) -> (action: Action)
        ensures
            action == total_action(pid, max_bytes),
            match max_bytes {
                Some(max_bytes) => action == (Action::SetTotal { pid, max_bytes }) && *final(self)
                    == *old(self),
                None => action == Action::Nothing && *final(self) == noticed(
                    *old(self),
                    Notice::InvalidTotal,
                    now,
                ),
            },
    {
        match max_bytes {
            Some(max_bytes) => Action::SetTotal { pid, max_bytes },
            None => {
                self.notify(Notice::InvalidTotal, now);
                Action::Nothing
            },
        }
    }

    /// How often the monitor wants to be ticked, in milliseconds; not at all while it is
    /// stopped.
    pub fn tick_millis(&self) -> (millis: Option<u64>)
        ensures
            millis == ticks(self.is_monitoring),
    {
        if self.is_monitoring {
            Some(250)
        } else {
            None
        }
    }
}

/// What to do once the rate that was entered was read.
pub open spec fn rate_action(pid: u32, bps: Option<u64>) -> Action {
    match bps {
        Some(bps) => Action::SetRate { pid, bps },
        None => Action::Nothing,
    }
}

/// What to do once the cap that was entered was read.
pub open spec fn total_action(pid: u32, max_bytes: Option<u64>) -> Action {
    match max_bytes {
        Some(max_bytes) => Action::SetTotal { pid, max_bytes },
        None => Action::Nothing,
    }
}

/// The backend is asked for the limit that was entered, for that process; without a number
/// it is asked for nothing.
pub proof fn lemma_entered_limit_is_asked_for(pid: u32, amount: u64)
    ensures
        rate_action(pid, Some(amount)) == (Action::SetRate { pid, bps: amount }),
        total_action(pid, Some(amount)) == (Action::SetTotal { pid, max_bytes: amount }),
        rate_action(pid, None) == Action::Nothing,
        total_action(pid, None) == Action::Nothing,
{
}

/// How often a monitor wants to be ticked, in milliseconds.
pub open spec fn ticks(monitoring: bool) -> Option<u64> {
    if monitoring {
        Some(250)
    } else {
        None
    }
}

/// A monitor is ticked four times a second, and not at all while it is stopped.
pub proof fn lemma_ticks_while_monitoring()
    ensures
        ticks(true) matches Some(millis) && 4 * millis == 1000,
        ticks(false) is None,
{
}

/// The backend is asked to stop a process only if the user was asked to confirm it, and
/// never for process 0 or 1.
pub proof fn lemma_stop_is_confirmed(
    before: NetMonitor,
    message: Message,
    now: u64,
    after: NetMonitor,
    pid: u32,
)
    requires
        before.wf(),
        is_update(before, message, now, after, Action::Kill { pid }),
    ensures
        message is ConfirmKillProcess,
        before.kill_pending matches Some((waiting, _)) && waiting == pid,
        pid > 1,
        after.kill_pending is None,
{
}

/// Every row of a snapshot is in the table afterwards, as seen just now.
pub proof fn lemma_snapshot_is_shown(
    table: Map<KeyView, TrackedView>,
    rows: Seq<SnapshotView>,
    now: u64,
    i: int,
)
    requires
        0 <= i < rows.len(),
    ensures
        fresh(entered(table, rows, now), now).contains_key(row_key(rows[i])),
        fresh(entered(table, rows, now), now)[row_key(rows[i])].last_seen == now,
    decreases rows.len(),
{
    if i < rows.len() - 1 {
        lemma_snapshot_is_shown(table, rows.drop_last(), now, i);
    }
}

/// The last row of a snapshot for a connection is the one that the table shows.
pub proof fn lemma_last_row_is_shown(
    table: Map<KeyView, TrackedView>,
    rows: Seq<SnapshotView>,
    now: u64,
    i: int,
)
    requires
        0 <= i < rows.len(),
        forall|j: int| i < j < rows.len() ==> row_key(#[trigger] rows[j]) != row_key(rows[i]),
    ensures
        fresh(entered(table, rows, now), now)[row_key(rows[i])] == (TrackedView {
            row: rows[i],
            last_seen: now,
        }),
    decreases rows.len(),
{
    if i < rows.len() - 1 {
        let front = rows.drop_last();
        assert forall|j: int| i < j < front.len() implies row_key(#[trigger] front[j]) != row_key(
            front[i],
        ) by {
            assert(rows[j] == front[j]);
        }
        lemma_last_row_is_shown(table, front, now, i);
        assert(row_key(rows[rows.len() - 1]) != row_key(rows[i]));
        lemma_snapshot_is_shown(table, front, now, i);
    }
}

/// A connection that the snapshot does not mention stays in the table as it was, until it
/// has been silent for too long.
pub proof fn lemma_silent_row_stays_while_fresh(
    table: Map<KeyView, TrackedView>,
    rows: Seq<SnapshotView>,
    now: u64,
    key: KeyView,
)
    requires
        forall|j: int| 0 <= j < rows.len() ==> row_key(#[trigger] rows[j]) != key,
    ensures
        fresh(entered(table, rows, now), now).contains_key(key) == (table.contains_key(key)
            && elapsed(table[key].last_seen, now) < STALE_NANOS),
        fresh(entered(table, rows, now), now).contains_key(key) ==> fresh(
            entered(table, rows, now),
            now,
        )[key] == table[key],
    decreases rows.len(),
{
    if rows.len() > 0 {
        let front = rows.drop_last();
        assert forall|j: int| 0 <= j < front.len() implies row_key(#[trigger] front[j]) != key by {
            assert(rows[j] == front[j]);
        }
        lemma_silent_row_stays_while_fresh(table, front, now, key);
        assert(row_key(rows[rows.len() - 1]) != key);
    }
}

/// An empty filter lets every row through.
pub proof fn lemma_empty_filter_shows_all(rows: Seq<ConnectionSnapshot>)
    ensures
        filtered(rows, Seq::empty()) == rows,
    decreases rows.len(),
{
    reveal(Seq::filter);
    if rows.len() > 0 {
        lemma_empty_filter_shows_all(rows.drop_last());
        assert(rows =~= rows.drop_last().push(rows.last()));
    }
}

/// There is only one order in which the rows can be shown.
pub proof fn lemma_row_order_unique(
    mode: SortMode,
    rows: Seq<SnapshotView>,
    a: Seq<usize>,
    b: Seq<usize>,
)
    requires
        is_row_order(mode, rows, a),
        is_row_order(mode, rows, b),
    ensures
        a == b,
{
    let before = |i: int, j: int|
        row_precedes(mode, rows[i], rows[j]) && (row_precedes(mode, rows[j], rows[i]) ==> i < j);
    lemma_order_unique(rows.len(), before, a, b);
}

/// The scroll position is on a row whenever there are rows.
pub proof fn lemma_scroll_on_a_row(scroll: usize, rows: nat)
    requires
        rows <= usize::MAX,
    ensures
        rows > 0 ==> clamped(scroll, rows) < rows,
        rows == 0 ==> clamped(scroll, rows) == 0,
        scroll < rows ==> clamped(scroll, rows) == scroll,
{
}

/// Adding the traffic of two seconds one after the other is adding all of it.
pub proof fn lemma_totals_add_up(
    totals: Map<(Seq<char>, Seq<char>), (u64, u64)>,
    first: Seq<ProcessRollup>,
    second: Seq<ProcessRollup>,
)
    ensures
        totals_with(totals_with(totals, first), second) == totals_with(totals, first + second),
    decreases second.len(),
{
    if second.len() == 0 {
        assert(first + second =~= first);
    } else {
        lemma_totals_add_up(totals, first, second.drop_last());
        assert((first + second).drop_last() =~= first + second.drop_last());
        assert((first + second).last() == second.last());
    }
}

/// The time that has passed is the difference of the two times; a clock that seems to have
/// gone back has not moved.
pub proof fn lemma_elapsed(since: u64, now: u64)
    ensures
        now >= since ==> elapsed(since, now) == now - since,
        now < since ==> elapsed(since, now) == 0,
{
}

/// Two rows are of one connection exactly if they have the same addresses, ports and
/// protocol; their owner, their bytes and their time do not matter.
pub proof fn lemma_rows_of_one_connection(a: SnapshotView, b: SnapshotView)
    ensures
        row_key(a) == row_key(b) <==> {
            &&& a.src_ip == b.src_ip
            &&& a.src_port == b.src_port
            &&& a.dst_ip == b.dst_ip
            &&& a.dst_port == b.dst_port
            &&& a.protocol == b.protocol
        },
{
}

/// A connection that a snapshot does not mention is shown for three seconds after it was
/// last seen, and then no longer; a snapshot brings in nothing that it does not mention.
pub proof fn lemma_silent_row_goes_after_three_seconds(
    table: Map<KeyView, TrackedView>,
    rows: Seq<SnapshotView>,
    now: u64,
    key: KeyView,
)
    requires
        forall|j: int| 0 <= j < rows.len() ==> row_key(#[trigger] rows[j]) != key,
    ensures
        ({
            let after = fresh(entered(table, rows, now), now);
            &&& !table.contains_key(key) ==> !after.contains_key(key)
            &&& table.contains_key(key) && now - table[key].last_seen < 3_000_000_000
                ==> after.contains_key(key) && after[key] == table[key]
            &&& table.contains_key(key) && now - table[key].last_seen >= 3_000_000_000
                ==> !after.contains_key(key)
        }),
{
    lemma_silent_row_stays_while_fresh(table, rows, now, key);
}

/// A filter finds a row by its process name, either address, either port or its user name,
/// wherever in the text and in whatever case of letters it stands, and by nothing else.
pub proof fn lemma_filter_looks_everywhere(row: SnapshotView, filter: Seq<char>)
    ensures
        passes(row, filter) <==> {
            let f = lowercase(filter);
            ||| occurs(lowercase(or_empty(row.process_name)), f)
            ||| occurs(lowercase(or_empty(row.username)), f)
            ||| occurs(lowercase(row.src_ip), f)
            ||| occurs(lowercase(row.dst_ip), f)
            ||| occurs(decimal(row.src_port as nat), f)
            ||| occurs(decimal(row.dst_port as nat), f)
        },
{
}

/// A row is shown, under its own process name, user name or address as the filter.
pub proof fn lemma_row_is_found_by_its_names(row: SnapshotView)
    ensures
        row.process_name matches Some(name) ==> passes(row, name),
        row.username matches Some(name) ==> passes(row, name),
        passes(row, row.src_ip),
        passes(row, row.dst_ip),
{
    assert forall|s: Seq<char>| #[trigger] occurs(s, s) by {
        assert(s.subrange(0, s.len() as int) =~= s);
        assert(occurs_at(s, s, 0));
    }
    assert(occurs(lowercase(row.src_ip), lowercase(row.src_ip)));
    assert(occurs(lowercase(row.dst_ip), lowercase(row.dst_ip)));
    if let Some(name) = row.process_name {
        assert(occurs(lowercase(name), lowercase(name)));
    }
    if let Some(name) = row.username {
        assert(occurs(lowercase(name), lowercase(name)));
    }
}

/// Whether a row passes depends only on its names, addresses and ports, and not on which end
/// is which.
pub proof fn lemma_filter_ignores_the_rest(a: SnapshotView, b: SnapshotView, filter: Seq<char>)
    requires
        a.process_name == b.process_name,
        a.username == b.username,
        (a.src_ip == b.src_ip && a.dst_ip == b.dst_ip && a.src_port == b.src_port && a.dst_port
            == b.dst_port) || (a.src_ip == b.dst_ip && a.dst_ip == b.src_ip && a.src_port
            == b.dst_port && a.dst_port == b.src_port),
    ensures
        passes(a, filter) == passes(b, filter),
{
}

/// A row is among those that are shown exactly if it is in the table and the filter is
/// empty or lets it through.
pub proof fn lemma_shown_exactly_if_it_passes(
    rows: Seq<ConnectionSnapshot>,
    filter: Seq<char>,
    row: ConnectionSnapshot,
)
    ensures
        filtered(rows, filter).contains(row) <==> rows.contains(row) && (filter.len() == 0
            || passes(row@, filter)),
{
    lemma_filter_contains(
        rows,
        |r: ConnectionSnapshot| filter.len() == 0 || passes(r@, filter),
        row,
    );
}

/// The rows stand in the order that was chosen: by the bytes out or in, the most first; by
/// process id, the smallest first, behind the rows without one; or by process name, in
/// alphabetical order. Rows that tie stand as in the table, and each row stands once.
pub proof fn lemma_rows_are_sorted(
    mode: SortMode,
    rows: Seq<SnapshotView>,
    order: Seq<usize>,
    i: int,
    j: int,
)
    requires
        is_row_order(mode, rows, order),
        0 <= i < j < order.len(),
    ensures
        order.len() == rows.len(),
        order[i] != order[j],
        ({
            let a = rows[order[i] as int];
            let b = rows[order[j] as int];
            &&& mode == SortMode::OutDesc ==> a.bytes_out_per_sec >= b.bytes_out_per_sec && (
            a.bytes_out_per_sec == b.bytes_out_per_sec ==> order[i] < order[j])
            &&& mode == SortMode::InDesc ==> a.bytes_in_per_sec >= b.bytes_in_per_sec && (
            a.bytes_in_per_sec == b.bytes_in_per_sec ==> order[i] < order[j])
            &&& mode == SortMode::PidAsc ==> {
                &&& b.pid is None ==> a.pid is None
                &&& b.pid matches Some(y) ==> a.pid matches Some(x) ==> x <= y
                &&& a.pid == b.pid ==> order[i] < order[j]
            }
            &&& mode == SortMode::ProcessAsc ==> {
                &&& text_le(or_empty(a.process_name), or_empty(b.process_name))
                &&& a.process_name == b.process_name ==> order[i] < order[j]
            }
        }),
{
    let a = rows[order[i] as int];
    let b = rows[order[j] as int];
    assert(row_precedes(mode, a, b) && (row_precedes(mode, b, a) ==> order[i] < order[j]));
    if order[i] == order[j] {
        assert(row_precedes(mode, b, a));
    }
}

/// The process id that is entered is understood with any white space around it, and only if
/// it is over 1.
pub proof fn lemma_entered_pid_is_read(lead: Seq<char>, pid: u32, tail: Seq<char>, text: Seq<char>)
    requires
        is_blank(lead),
        is_blank(tail),
    ensures
        entered_pid(lead + decimal(pid as nat) + tail) == if pid > 1 {
            Some(pid)
        } else {
            None
        },
        entered_pid(text) matches Some(p) ==> p > 1 && number_of(
            trimmed(text),
            10,
            u32::MAX as nat,
        ) == Some(p as nat),
{
    let d = decimal(pid as nat);
    lemma_decimal_is_word(pid as nat);
    assert(!is_space(d[0]) && !is_space(d[d.len() - 1]));
    lemma_trim_takes_white_space(lead, d, tail);
    lemma_decimal_reads_back(pid as nat, u32::MAX as nat);
}

/// The traffic of a second is added to the totals of its process and user, in and out each
/// to its own, and to no others.
pub proof fn lemma_second_is_added_to_totals(
    totals: Map<(Seq<char>, Seq<char>), (u64, u64)>,
    rollup: ProcessRollup,
    other: (Seq<char>, Seq<char>),
)
    ensures
        ({
            let after = totals_with(totals, seq![rollup]);
            let key = (rollup.process_label@, rollup.username@);
            let old_in = if totals.contains_key(key) { 0 + totals[key].0 } else { 0 };
            let old_out = if totals.contains_key(key) { 0 + totals[key].1 } else { 0 };
            &&& after.contains_key(key)
            &&& old_in + rollup.bytes_in_per_sec <= u64::MAX ==> after[key].0 == old_in
                + rollup.bytes_in_per_sec
            &&& old_in + rollup.bytes_in_per_sec > u64::MAX ==> after[key].0 == u64::MAX
            &&& old_out + rollup.bytes_out_per_sec <= u64::MAX ==> after[key].1 == old_out
                + rollup.bytes_out_per_sec
            &&& old_out + rollup.bytes_out_per_sec > u64::MAX ==> after[key].1 == u64::MAX
            &&& other != key ==> after.contains_key(other) == totals.contains_key(other)
            &&& other != key && totals.contains_key(other) ==> after[other] == totals[other]
        }),
{
    reveal_with_fuel(totals_with, 2);
    assert(seq![rollup].drop_last() =~= Seq::<ProcessRollup>::empty());
    assert(seq![rollup].last() == rollup);
}

/// A tick takes an alert down once it has stood for more than five seconds, and a notice
/// after more than four, and leaves them alone before; it always asks to read the stream.
pub proof fn lemma_alerts_and_notices_expire(
    before: NetMonitor,
    now: u64,
    after: NetMonitor,
    action: Action,
)
    requires
        is_update(before, Message::Tick, now, after, action),
    ensures
        action == Action::Poll,
        before.alert_arrived_at matches Some(t) ==> {
            &&& now - t > 5_000_000_000 ==> after.active_alert is None && after.alert_arrived_at is None
            &&& now - t <= 5_000_000_000 ==> after.active_alert == before.active_alert
                && after.alert_arrived_at == before.alert_arrived_at
        },
        before.alert_arrived_at is None ==> after.active_alert == before.active_alert,
        before.export_status matches Some(status) ==> {
            &&& now - status.at > 4_000_000_000 ==> after.export_status is None
            &&& now - status.at <= 4_000_000_000 ==> after.export_status == before.export_status
        },
{
}

/// An alert is shown from when it arrives until it is dismissed.
pub proof fn lemma_alert_is_shown_until_dismissed(
    before: NetMonitor,
    alert: AlertEvent,
    arrived: u64,
    shown: NetMonitor,
    first: Action,
    dismissed: u64,
    after: NetMonitor,
    second: Action,
)
    requires
        is_update(before, Message::AlertReceived(alert), arrived, shown, first),
        is_update(shown, Message::DismissAlert, dismissed, after, second),
    ensures
        shown.active_alert == Some(alert),
        shown.alert_arrived_at == Some(arrived),
        after.active_alert is None,
        after.alert_arrived_at is None,
        first == Action::Nothing && second == Action::Nothing,
{
}

/// What the user chooses takes effect: the tab, the order, the filter, the texts of the
/// inputs and the row of the menu. A new order or filter starts at the first row, and
/// starting and stopping the monitor undo each other.
pub proof fn lemma_choices_take_effect(
    before: NetMonitor,
    message: Message,
    now: u64,
    after: NetMonitor,
    action: Action,
)
    requires
        is_update(before, message, now, after, action),
    ensures
        message matches Message::SetTab(tab) ==> after.active_tab == tab && after.context_menu is None,
        message matches Message::SetSort(mode) ==> after.sort_mode == mode && after.scroll == 0,
        message matches Message::SetFilter(text) ==> after.filter_text == text && after.scroll == 0
            && after.context_menu is None,
        message matches Message::IfaceMeta(name) ==> after.iface_name == name,
        message matches Message::ToggleMonitor ==> after.is_monitoring != before.is_monitoring,
        message matches Message::ShowContextMenu(row) ==> after.context_menu == Some(row),
        message matches Message::LimitPidInput(text) ==> after.limit_pid_input == text,
        message matches Message::LimitMbpsInput(text) ==> after.limit_mbps_input == text,
        message matches Message::LimitTotalMbInput(text) ==> after.limit_total_mb_input == text,
        message matches Message::ResetSessionTotals ==> after.session_totals@.len() == 0,
        message matches Message::AggregateData(a) ==> after.latest_aggregate == Some(a),
        message matches Message::SocketData(_) ==> after.last_snapshot_at == Some(now),
{
}

/// Every message changes only what it is about.
pub proof fn lemma_message_changes_only_its_own(
    before: NetMonitor,
    message: Message,
    now: u64,
    after: NetMonitor,
    action: Action,
)
    requires
        is_update(before, message, now, after, action),
    ensures
        after.session_start == before.session_start,
        !(message is SocketData) ==> after.table == before.table && after.last_snapshot_at
            == before.last_snapshot_at,
        !(message is SocketData || message is SetSort || message is SetFilter) ==> after.scroll
            == before.scroll,
        !(message is AggregateData) ==> after.latest_aggregate == before.latest_aggregate,
        !(message is AggregateData || message is ResetSessionTotals) ==> after.session_totals
            == before.session_totals,
        !(message is LimitSetDone || message is LimitTotalSetDone || message is LimitClearDone
            || message is AutoKillReceived) ==> after.known_limits == before.known_limits,
        !(message is OpenKillConfirm || message is CancelKillConfirm
            || message is ConfirmKillProcess) ==> after.kill_pending == before.kill_pending,
        !(message is SetFilter) ==> after.filter_text == before.filter_text,
        !(message is SetSort) ==> after.sort_mode == before.sort_mode,
        !(message is SetTab) ==> after.active_tab == before.active_tab,
        !(message is ToggleMonitor) ==> after.is_monitoring == before.is_monitoring,
        !(message is IfaceMeta) ==> after.iface_name == before.iface_name,
        !(message is AlertReceived || message is DismissAlert || message is Tick)
            ==> after.active_alert == before.active_alert && after.alert_arrived_at
            == before.alert_arrived_at,
        !(message is SetTab || message is SetFilter || message is ShowContextMenu
            || message is OpenKillConfirm) ==> after.context_menu == before.context_menu,
        !(message is LimitPidInput || message is LimitSetDone || message is LimitTotalSetDone)
            ==> after.limit_pid_input == before.limit_pid_input,
        !(message is LimitMbpsInput || message is LimitSetDone) ==> after.limit_mbps_input
            == before.limit_mbps_input,
        !(message is LimitTotalMbInput || message is LimitTotalSetDone)
            ==> after.limit_total_mb_input == before.limit_total_mb_input,
        action is Poll <==> message is Tick,
        action is Export <==> message is ExportCsv,
        action is Kill ==> message is ConfirmKillProcess,
        action is ReadRate ==> message is SubmitLimit,
        action is ReadTotal ==> message is SubmitTotalLimit,
        action is ClearLimits <==> message is RemoveLimitPid,
        !(action is SetRate) && !(action is SetTotal),
{
}

/// A process that the user was asked about is stopped when that is confirmed, and the
/// question is gone; when it is cancelled, a later confirmation stops nothing.
pub proof fn lemma_stop_follows_the_answer(
    before: NetMonitor,
    pid: u32,
    label: String,
    asked: NetMonitor,
    answered: NetMonitor,
    after: NetMonitor,
    times: (u64, u64, u64),
    actions: (Action, Action, Action),
    cancelled: bool,
)
    requires
        pid > 1,
        is_update(before, Message::OpenKillConfirm { pid, label }, times.0, asked, actions.0),
        is_update(
            asked,
            if cancelled {
                Message::CancelKillConfirm
            } else {
                Message::ConfirmKillProcess
            },
            times.1,
            answered,
            actions.1,
        ),
        is_update(answered, Message::ConfirmKillProcess, times.2, after, actions.2),
    ensures
        asked.kill_pending == Some((pid, label)),
        actions.0 == Action::Nothing,
        actions.1 == if cancelled {
            Action::Nothing
        } else {
            Action::Kill { pid }
        },
        answered.kill_pending is None,
        actions.2 == Action::Nothing,
{
}

/// The limits that the window knows follow what the backend reports: a limit that was set
/// is known beside the other one of the process, one that was lifted is forgotten, as is
/// everything about a process that was stopped; nothing is said of other processes.
pub proof fn lemma_known_limits_follow_the_backend(
    before: NetMonitor,
    message: Message,
    now: u64,
    after: NetMonitor,
    action: Action,
    other: u32,
)
    requires
        is_update(before, message, now, after, action),
    ensures
        ({
            let old_limits = before.known_limits@;
            let limits = after.known_limits@;
            &&& message matches Message::LimitSetDone(Ok((pid, bps))) ==> {
                &&& limits.contains_key(pid)
                &&& limits[pid].rate_bps == Some(bps)
                &&& old_limits.contains_key(pid) ==> limits[pid].total_max_bytes
                    == old_limits[pid].total_max_bytes
                &&& !old_limits.contains_key(pid) ==> limits[pid].total_max_bytes is None
                &&& other != pid ==> limits.contains_key(other) == old_limits.contains_key(other)
                &&& other != pid && old_limits.contains_key(other) ==> limits[other]
                    == old_limits[other]
                &&& after.limit_pid_input@.len() == 0 && after.limit_mbps_input@.len() == 0
            }
            &&& message matches Message::LimitTotalSetDone(Ok((pid, max_bytes))) ==> {
                &&& limits.contains_key(pid)
                &&& limits[pid].total_max_bytes == Some(max_bytes)
                &&& old_limits.contains_key(pid) ==> limits[pid].rate_bps
                    == old_limits[pid].rate_bps
                &&& !old_limits.contains_key(pid) ==> limits[pid].rate_bps is None
                &&& other != pid ==> limits.contains_key(other) == old_limits.contains_key(other)
                &&& other != pid && old_limits.contains_key(other) ==> limits[other]
                    == old_limits[other]
                &&& after.limit_pid_input@.len() == 0 && after.limit_total_mb_input@.len() == 0
            }
            &&& message matches Message::LimitClearDone(Ok(pid)) ==> {
                &&& !limits.contains_key(pid)
                &&& other != pid ==> limits.contains_key(other) == old_limits.contains_key(other)
                &&& other != pid && old_limits.contains_key(other) ==> limits[other]
                    == old_limits[other]
            }
            &&& message matches Message::AutoKillReceived(event) ==> {
                &&& !limits.contains_key(event.pid)
                &&& other != event.pid ==> limits.contains_key(other) == old_limits.contains_key(
                    other,
                )
                &&& other != event.pid && old_limits.contains_key(other) ==> limits[other]
                    == old_limits[other]
            }
            &&& message matches Message::LimitSetDone(Err(_)) ==> limits == old_limits
            &&& message matches Message::LimitTotalSetDone(Err(_)) ==> limits == old_limits
            &&& message matches Message::LimitClearDone(Err(_)) ==> limits == old_limits
        }),
{
}

/// Whatever was asked for, the user is told how it ended: of the process and amount it was
/// about, or of the reason why it failed.
pub proof fn lemma_user_is_told(
    before: NetMonitor,
    message: Message,
    now: u64,
    after: NetMonitor,
    action: Action,
)
    requires
        is_update(before, message, now, after, action),
    ensures
        message matches Message::ExportResult(Ok(name)) ==> after.export_status == Some(
            Status { notice: Notice::Exported(name), at: now },
        ),
        message matches Message::ExportResult(Err(e)) ==> after.export_status == Some(
            Status { notice: Notice::ExportFailed(e), at: now },
        ),
        message matches Message::KillRequestDone(Ok(_)) ==> after.export_status == Some(
            Status { notice: Notice::StopRequested, at: now },
        ),
        message matches Message::KillRequestDone(Err(e)) ==> after.export_status == Some(
            Status { notice: Notice::StopFailed(e), at: now },
        ),
        message matches Message::LimitSetDone(Ok((pid, bps))) ==> after.export_status == Some(
            Status { notice: Notice::RateSet { pid, bps }, at: now },
        ),
        message matches Message::LimitSetDone(Err(e)) ==> after.export_status == Some(
            Status { notice: Notice::RateFailed(e), at: now },
        ),
        message matches Message::LimitTotalSetDone(Ok((pid, max_bytes))) ==> after.export_status
            == Some(Status { notice: Notice::TotalSet { pid, max_bytes }, at: now }),
        message matches Message::LimitTotalSetDone(Err(e)) ==> after.export_status == Some(
            Status { notice: Notice::TotalFailed(e), at: now },
        ),
        message matches Message::LimitClearDone(Ok(pid)) ==> after.export_status == Some(
            Status { notice: Notice::Cleared { pid }, at: now },
        ),
        message matches Message::LimitClearDone(Err(e)) ==> after.export_status == Some(
            Status { notice: Notice::ClearFailed(e), at: now },
        ),
        message matches Message::AutoKillReceived(event) ==> after.export_status == Some(
            Status { notice: Notice::AutoStopped(event), at: now },
        ),
        message is SubmitLimit || message is SubmitTotalLimit ==> {
            &&& entered_pid(before.limit_pid_input@) is None ==> action == Action::Nothing
                && after.export_status == Some(Status { notice: Notice::InvalidPid, at: now })
            &&& entered_pid(before.limit_pid_input@) is Some ==> after.export_status
                == before.export_status
        },
        message is SubmitLimit ==> (entered_pid(before.limit_pid_input@) matches Some(pid)
            ==> action == (Action::ReadRate { pid })),
        message is SubmitTotalLimit ==> (entered_pid(before.limit_pid_input@) matches Some(pid)
            ==> action == (Action::ReadTotal { pid })),
        message matches Message::RemoveLimitPid(pid) ==> action == (Action::ClearLimits { pid }),
{
}

/// The window counts as live for three seconds after each snapshot, and not before the
/// first.
pub proof fn lemma_live_for_three_seconds(heard: u64, now: u64)
    ensures
        is_live(Some(heard), now) <==> now - heard < 3_000_000_000,
        !is_live(None, now),
{
}

/// When a snapshot arrives, each of its connections is in the table as the snapshot last
/// has it and as seen just now; every other one stays as it was if it was seen less than
/// three seconds ago, and is gone otherwise. The scroll position stays on a row.
pub proof fn lemma_snapshot_arrives(
    before: NetMonitor,
    snapshots: Vec<ConnectionSnapshot>,
    now: u64,
    after: NetMonitor,
    action: Action,
    i: int,
    key: KeyView,
)
    requires
        is_update(before, Message::SocketData(snapshots), now, after, action),
        forall|j: int| 0 <= j < snapshots@.len() ==> row_key((#[trigger] snapshots@[j])@) != key,
    ensures
        action == Action::Nothing,
        0 <= i < snapshots@.len() && (forall|j: int|
            i < j < snapshots@.len() ==> row_key((#[trigger] snapshots@[j])@) != row_key(
                snapshots@[i]@,
            )) ==> {
            let k = row_key(snapshots@[i]@);
            &&& after.rows_by_key().contains_key(k)
            &&& after.rows_by_key()[k].row == snapshots@[i]@
            &&& after.rows_by_key()[k].last_seen == now
        },
        after.rows_by_key().contains_key(key) <==> before.rows_by_key().contains_key(key) && now
            - before.rows_by_key()[key].last_seen < 3_000_000_000,
        after.rows_by_key().contains_key(key) ==> after.rows_by_key()[key]
            == before.rows_by_key()[key],
        after.shown().len() > 0 && after.shown().len() <= usize::MAX ==> after.scroll
            < after.shown().len(),
        before.scroll < after.shown().len() ==> after.scroll == before.scroll,
{
    let rows = rows_of(snapshots@);
    let table = before.rows_by_key();
    assert forall|j: int| 0 <= j < rows.len() implies row_key(#[trigger] rows[j]) != key by {
        assert(row_key(snapshots@[j]@) != key);
    }
    lemma_silent_row_goes_after_three_seconds(table, rows, now, key);
    if 0 <= i < snapshots@.len() && (forall|j: int|
        i < j < snapshots@.len() ==> row_key((#[trigger] snapshots@[j])@) != row_key(
            snapshots@[i]@,
        )) {
        assert forall|j: int| i < j < rows.len() implies row_key(#[trigger] rows[j]) != row_key(
            rows[i],
        ) by {
            assert(row_key(snapshots@[j]@) != row_key(snapshots@[i]@));
        }
        lemma_last_row_is_shown(table, rows, now, i);
        lemma_snapshot_is_shown(table, rows, now, i);
    }
}

/// When the rollup of a single process arrives, its bytes are added to the totals of that
/// process and user; adding several is adding them one after the other.
pub proof fn lemma_rollup_arrives(
    before: NetMonitor,
    aggregate: AggregatePayload,
    now: u64,
    after: NetMonitor,
    action: Action,
    other: (Seq<char>, Seq<char>),
)
    requires
        is_update(before, Message::AggregateData(aggregate), now, after, action),
        aggregate.by_process@.len() == 1,
    ensures
        ({
            let r = aggregate.by_process@[0];
            let key = (r.process_label@, r.username@);
            let old_totals = before.totals_by_process();
            let totals = after.totals_by_process();
            let old_in = if old_totals.contains_key(key) { 0 + old_totals[key].0 } else { 0 };
            let old_out = if old_totals.contains_key(key) { 0 + old_totals[key].1 } else { 0 };
            &&& action == Action::Nothing
            &&& totals.contains_key(key)
            &&& old_in + r.bytes_in_per_sec <= u64::MAX ==> totals[key].0 == old_in
                + r.bytes_in_per_sec
            &&& old_out + r.bytes_out_per_sec <= u64::MAX ==> totals[key].1 == old_out
                + r.bytes_out_per_sec
            &&& other != key ==> totals.contains_key(other) == old_totals.contains_key(other)
            &&& other != key && old_totals.contains_key(other) ==> totals[other]
                == old_totals[other]
        }),
{
    let r = aggregate.by_process@[0];
    assert(aggregate.by_process@ =~= seq![r]);
    lemma_second_is_added_to_totals(before.totals_by_process(), r, other);
}

/// Process 0 and 1 are never asked about, and a question that waits stays.
pub proof fn lemma_no_question_about_init(
    before: NetMonitor,
    pid: u32,
    label: String,
    now: u64,
    after: NetMonitor,
    action: Action,
)
    requires
        pid <= 1,
        is_update(before, Message::OpenKillConfirm { pid, label }, now, after, action),
    ensures
        after.kill_pending == before.kill_pending,
        after.context_menu is None,
        action == Action::Nothing,
{
}

/// A row is shown exactly if it is one of the table's and passes the filter, and the rows
/// stand in the order of the list.
pub proof fn lemma_table_rows_are_shown(
    m: NetMonitor,
    row: ConnectionSnapshot,
    order: Seq<usize>,
    i: int,
)
    ensures
        m.shown().contains(row) <==> (exists|k: int|
            0 <= k < m.table@.len() && (#[trigger] m.table@[k]).snapshot == row) && (
        m.filter_text@.len() == 0 || passes(row@, m.filter_text@)),
        in_order(m.shown(), order).len() == order.len(),
        0 <= i < order.len() ==> in_order(m.shown(), order)[i] == m.shown()[order[i] as int],
{
    let rows = m.table@.map_values(|t: TrackedConnection| t.snapshot);
    lemma_shown_exactly_if_it_passes(rows, m.filter_text@, row);
    if rows.contains(row) {
        let k = choose|k: int| 0 <= k < rows.len() && rows[k] == row;
        assert(m.table@[k].snapshot == row);
    }
    if exists|k: int| 0 <= k < m.table@.len() && (#[trigger] m.table@[k]).snapshot == row {
        let k = choose|k: int| 0 <= k < m.table@.len() && (#[trigger] m.table@[k]).snapshot == row;
        assert(rows[k] == row);
    }
}

/// The table is seen by connection: each of its rows under its own addresses, ports and
/// protocol, with the time at which it was seen, and nothing else. The totals are seen by
/// process and user.
pub proof fn lemma_table_is_seen(
    m: NetMonitor,
    i: int,
    key: KeyView,
    t: int,
    who: (Seq<char>, Seq<char>),
)
    requires
        m.wf(),
    ensures
        0 <= i < m.table@.len() ==> {
            let row = m.table@[i].snapshot;
            let k = KeyView {
                src_ip: row.src_ip@,
                dst_ip: row.dst_ip@,
                src_port: row.src_port,
                dst_port: row.dst_port,
                protocol: row.protocol@,
            };
            &&& m.rows_by_key().contains_key(k)
            &&& m.rows_by_key()[k].row == row@
            &&& m.rows_by_key()[k].last_seen == m.table@[i].last_seen
        },
        m.rows_by_key().contains_key(key) ==> exists|k: int|
            0 <= k < m.table@.len() && row_key((#[trigger] m.table@[k]).snapshot@) == key,
        0 <= t < m.session_totals@.len() ==> {
            let total = m.session_totals@[t];
            let k = (total.process_label@, total.username@);
            &&& m.totals_by_process().contains_key(k)
            &&& m.totals_by_process()[k] == (total.bytes_in, total.bytes_out)
        },
        m.totals_by_process().contains_key(who) ==> exists|k: int|
            0 <= k < m.session_totals@.len() && ((#[trigger] m.session_totals@[k]).process_label@,
            m.session_totals@[k].username@) == who,
{
    let pairs = tracked_pairs(m.table@);
    let totals = total_pairs(m.session_totals@);
    if 0 <= i < m.table@.len() {
        lemma_pairs_at(pairs, i);
        assert(pairs[i] == (row_key(m.table@[i]@.row), m.table@[i]@));
    }
    if m.rows_by_key().contains_key(key) {
        lemma_pairs_key(pairs, key);
        let k = choose|k: int| 0 <= k < pairs.len() && (#[trigger] pairs[k]).0 == key;
        assert(row_key(m.table@[k].snapshot@) == key);
    }
    if 0 <= t < m.session_totals@.len() {
        lemma_pairs_at(totals, t);
        assert(totals[t].0 == (m.session_totals@[t].process_label@, m.session_totals@[t].username@));
    }
    if m.totals_by_process().contains_key(who) {
        lemma_pairs_key(totals, who);
        let k = choose|k: int| 0 <= k < totals.len() && (#[trigger] totals[k]).0 == who;
        assert((m.session_totals@[k].process_label@, m.session_totals@[k].username@) == who);
    }
}

} // verus!
