//! The traffic of one second, rolled up by process and by protocol.

use vstd::prelude::*;
use vstd::seq_lib::group_to_multiset_ensures;

use crate::data::{
    rows_of, AggregatePayload, ConnectionSnapshot, ProcessRollup, ProtocolRollup, SnapshotView,
};
use crate::order::{comes_before, stable_order, Descending};

verus! {

/// What a rollup groups the rows by.
#[derive(Clone, Copy)]
pub enum Grouping {
    Process,
    Protocol,
}

/// The text, or `otherwise` if there is none or it is empty.
pub open spec fn non_empty_or(text: Option<Seq<char>>, otherwise: Seq<char>) -> Seq<char> {
    match text {
        Some(t) => if t.len() > 0 {
            t
        } else {
            otherwise
        },
        None => otherwise,
    }
}

/// The group that a row belongs to: its process and user, or its protocol.
pub open spec fn group_key(by: Grouping, row: SnapshotView) -> (Seq<char>, Seq<char>) {
    match by {
        Grouping::Process => (
            non_empty_or(row.process_name, "<unattributed>"@),
            non_empty_or(row.username, "\u{2014}"@),
        ),
        Grouping::Protocol => (non_empty_or(Some(row.protocol), "?"@), Seq::empty()),
    }
}

/// The bytes in, the bytes out and the number of the rows in a group.
pub struct Totals {
    pub bytes_in: nat,
    pub bytes_out: nat,
    pub flows: nat,
}

/// What the rows of one group come to.
pub open spec fn group_totals(
    by: Grouping,
    rows: Seq<SnapshotView>,
    key: (Seq<char>, Seq<char>),
) -> Totals
    decreases rows.len(),
{
    if rows.len() == 0 {
        Totals { bytes_in: 0, bytes_out: 0, flows: 0 }
    } else {
        let t = group_totals(by, rows.drop_last(), key);
        let row = rows.last();
        if group_key(by, row) == key {
            Totals {
                bytes_in: t.bytes_in + row.bytes_in_per_sec as nat,
                bytes_out: t.bytes_out + row.bytes_out_per_sec as nat,
                flows: t.flows + 1,
            }
        } else {
            t
        }
    }
}

/// The smaller of a total and the largest value that its counter can hold.
pub open spec fn capped(n: nat, max: nat) -> nat {
    if n <= max {
        n
    } else {
        max
    }
}

/// One group of a rollup.
pub struct GroupView {
    pub key: (Seq<char>, Seq<char>),
    pub bytes_in: u64,
    pub bytes_out: u64,
    pub flow_count: u32,
}

impl GroupView {
    /// Whether the counters hold what the rows of the group come to.
    pub open spec fn counts(self, by: Grouping, rows: Seq<SnapshotView>) -> bool {
        let t = group_totals(by, rows, self.key);
        &&& self.bytes_in == capped(t.bytes_in, u64::MAX as nat)
        &&& self.bytes_out == capped(t.bytes_out, u64::MAX as nat)
        &&& self.flow_count == capped(t.flows, u32::MAX as nat)
    }

    /// Bytes in and out together.
    pub open spec fn total(self) -> nat {
        capped(self.bytes_in as nat + self.bytes_out as nat, u64::MAX as nat)
    }
}

/// Whether some group has the key.
pub open spec fn has_group(groups: Seq<GroupView>, key: (Seq<char>, Seq<char>)) -> bool {
    exists|i: int| 0 <= i < groups.len() && (#[trigger] groups[i]).key == key
}

/// Whether some row belongs to the group.
pub open spec fn has_row(
    by: Grouping,
    rows: Seq<SnapshotView>,
    key: (Seq<char>, Seq<char>),
) -> bool {
    exists|r: int| 0 <= r < rows.len() && group_key(by, #[trigger] rows[r]) == key
}

/// `groups` holds one group for each key that occurs among the rows, and no other, with
/// what its rows come to.
pub open spec fn is_rollup(
    by: Grouping,
    rows: Seq<SnapshotView>,
    groups: Seq<GroupView>,
) -> bool {
    &&& forall|i: int| 0 <= i < groups.len() ==> (#[trigger] groups[i]).counts(by, rows)
    &&& forall|i: int| 0 <= i < groups.len() ==> has_row(by, rows, (#[trigger] groups[i]).key)
    &&& forall|i: int, j: int|
        0 <= i < j < groups.len() ==> (#[trigger] groups[i]).key != (#[trigger] groups[j]).key
    &&& forall|r: int|
        0 <= r < rows.len() ==> has_group(groups, group_key(by, #[trigger] rows[r]))
}

/// The group with the most traffic comes first.
pub open spec fn busiest_first(groups: Seq<GroupView>) -> bool {
    forall|i: int, j: int|
        0 <= i < j < groups.len() ==> (#[trigger] groups[i]).total() >= (
        #[trigger] groups[j]).total()
}

impl View for ProcessRollup {
    type V = GroupView;

    open spec fn view(&self) -> GroupView {
        GroupView {
            key: (self.process_label@, self.username@),
            bytes_in: self.bytes_in_per_sec,
            bytes_out: self.bytes_out_per_sec,
            flow_count: self.flow_count,
        }
    }
}

impl View for ProtocolRollup {
    type V = GroupView;

    open spec fn view(&self) -> GroupView {
        GroupView {
            key: (self.protocol@, Seq::empty()),
            bytes_in: self.bytes_in_per_sec,
            bytes_out: self.bytes_out_per_sec,
            flow_count: self.flow_count,
        }
    }
}

/// The groups of a rollup by process.
pub open spec fn process_groups(rollups: Seq<ProcessRollup>) -> Seq<GroupView> {
    rollups.map_values(|r: ProcessRollup| r@)
}

/// The groups of a rollup by protocol.
pub open spec fn protocol_groups(rollups: Seq<ProtocolRollup>) -> Seq<GroupView> {
    rollups.map_values(|r: ProtocolRollup| r@)
}

struct Group {
    first: String,
    second: String,
    bytes_in: u64,
    bytes_out: u64,
    flow_count: u32,
}

impl View for Group {
    type V = GroupView;

    closed spec fn view(&self) -> GroupView {
        GroupView {
            key: (self.first@, self.second@),
            bytes_in: self.bytes_in,
            bytes_out: self.bytes_out,
            flow_count: self.flow_count,
        }
    }
}

spec fn groups_of(groups: Seq<Group>) -> Seq<GroupView> {
    groups.map_values(|g: Group| g@)
}

fn text_or(text: &Option<String>, otherwise: &str) -> (out: String)
    ensures
        out@ == non_empty_or(crate::text::opt_text(*text), otherwise@),
{
    match text {
        Some(t) => if t.as_str().is_empty() {
            otherwise.to_owned()
        } else {
            t.clone()
        },
        None => otherwise.to_owned(),
    }
}

fn key_of(by: Grouping, row: &ConnectionSnapshot) -> (key: (String, String))
    ensures
        (key.0@, key.1@) == group_key(by, row@),
{
    match by {
        Grouping::Process => (
            text_or(&row.process_name, "<unattributed>"),
            text_or(&row.username, "\u{2014}"),
        ),
        Grouping::Protocol => {
            let label = if row.protocol.as_str().is_empty() {
                "?".to_owned()
            } else {
                row.protocol.clone()
            };
            (label, String::new())
        },
    }
}

proof fn lemma_no_rows_no_totals(
    by: Grouping,
    rows: Seq<SnapshotView>,
    key: (Seq<char>, Seq<char>),
)
    requires
        !has_row(by, rows, key),
    ensures
        group_totals(by, rows, key) == (Totals { bytes_in: 0, bytes_out: 0, flows: 0 }),
    decreases rows.len(),
{
    if rows.len() > 0 {
        let front = rows.drop_last();
        assert(rows[rows.len() - 1] == rows.last());
        if has_row(by, front, key) {
            let r = choose|r: int| 0 <= r < front.len() && group_key(by, #[trigger] front[r]) == key;
            assert(rows[r] == front[r]);
        }
        lemma_no_rows_no_totals(by, front, key);
    }
}

/// Adds the last of `rows` to a rollup of the others.
proof fn lemma_row_added(
    by: Grouping,
    rows: Seq<SnapshotView>,
    before: Seq<GroupView>,
    after: Seq<GroupView>,
    at: int,
)
    requires
        rows.len() > 0,
        is_rollup(by, rows.drop_last(), before),
        0 <= at < after.len(),
        after[at].key == group_key(by, rows.last()),
        at < before.len() ==> before[at].key == after[at].key && after == before.update(
            at,
            after[at],
        ),
        at >= before.len() ==> after == before.push(after[at]) && !has_group(before, after[at].key),
        after[at].counts(by, rows),
    ensures
        is_rollup(by, rows, after),
{
    let front = rows.drop_last();
    let key = group_key(by, rows.last());
    assert(rows.last() == rows[rows.len() - 1]);
    assert forall|i: int| 0 <= i < after.len() implies (#[trigger] after[i]).counts(by, rows) by {
        if i != at {
            assert(before[i] == after[i]);
            assert(before[i].counts(by, front));
            if after[i].key == key {
                if at < before.len() {
                    assert(before[at].key == before[i].key);
                } else {
                    assert(has_group(before, key));
                }
            }
        }
    }
    assert forall|i: int| 0 <= i < after.len() implies has_row(by, rows, (#[trigger] after[i]).key) by {
        if i == at {
            assert(group_key(by, rows[rows.len() - 1]) == key);
        } else {
            assert(before[i] == after[i]);
            assert(has_row(by, front, before[i].key));
            let r = choose|r: int|
                0 <= r < front.len() && group_key(by, #[trigger] front[r]) == before[i].key;
            assert(rows[r] == front[r]);
        }
    }
    assert forall|i: int, j: int| 0 <= i < j < after.len() implies (#[trigger] after[i]).key != (
    #[trigger] after[j]).key by {
        if j < before.len() {
            assert(before[i].key != before[j].key);
        } else {
            assert(before[i] == after[i]);
            if before[i].key == key {
                assert(has_group(before, key));
            }
        }
    }
    assert forall|r: int| 0 <= r < rows.len() implies has_group(
        after,
        group_key(by, #[trigger] rows[r]),
    ) by {
        if r < front.len() {
            assert(front[r] == rows[r]);
            assert(has_group(before, group_key(by, front[r])));
            let i = choose|i: int|
                0 <= i < before.len() && (#[trigger] before[i]).key == group_key(by, front[r]);
            assert(after[i].key == before[i].key);
        } else {
            assert(after[at].key == key);
        }
    }
}

fn group_rows(by: Grouping, rows: &[ConnectionSnapshot]) -> (groups: Vec<Group>)
    ensures
        is_rollup(by, rows_of(rows@), groups_of(groups@)),
{
    let mut groups: Vec<Group> = Vec::new();
    let ghost all = rows_of(rows@);
    let mut i: usize = 0;
    while i < rows.len()
        invariant
            i <= rows.len(),
            all == rows_of(rows@),
            is_rollup(by, all.take(i as int), groups_of(groups@)),
        decreases rows.len() - i,
    {
        let row = &rows[i];
        let (first, second) = key_of(by, row);
        let ghost key = (first@, second@);
        let ghost front = all.take(i as int);
        let ghost now = all.take(i + 1);
        assert(now.drop_last() =~= front);
        assert(now.last() == row@);
        let ghost before = groups_of(groups@);
        let mut at: usize = 0;
        while at < groups.len() && !(groups[at].first == first && groups[at].second == second)
            invariant
                at <= groups.len(),
                key == (first@, second@),
                forall|k: int| 0 <= k < at ==> (#[trigger] groups@[k])@.key != key,
            decreases groups.len() - at,
        {
            at = at + 1;
        }
        if at < groups.len() {
            assert(before[at as int].counts(by, front));
            let g = &groups[at];
            let merged = Group {
                first,
                second,
                bytes_in: g.bytes_in.saturating_add(row.bytes_in_per_sec),
                bytes_out: g.bytes_out.saturating_add(row.bytes_out_per_sec),
                flow_count: g.flow_count.saturating_add(1),
            };
            assert(merged@.counts(by, now));
            groups.set(at, merged);
            assert(groups_of(groups@) =~= before.update(at as int, merged@));
        } else {
            proof {
                if has_group(before, key) {
                    let k = choose|k: int| 0 <= k < before.len() && (#[trigger] before[k]).key == key;
                    assert(before[k] == groups@[k]@);
                }
                if has_row(by, front, key) {
                    let r = choose|r: int|
                        0 <= r < front.len() && group_key(by, #[trigger] front[r]) == key;
                    assert(has_group(before, group_key(by, front[r])));
                }
                lemma_no_rows_no_totals(by, front, key);
            }
            let fresh = Group {
                first,
                second,
                bytes_in: row.bytes_in_per_sec,
                bytes_out: row.bytes_out_per_sec,
                flow_count: 1,
            };
            assert(fresh@.counts(by, now));
            groups.push(fresh);
            assert(groups_of(groups@) =~= before.push(fresh@));
        }
        proof {
            lemma_row_added(by, now, before, groups_of(groups@), at as int);
        }
        i = i + 1;
    }
    assert(all.take(i as int) =~= all);
    groups
}

/// The groups of the rows, the busiest first.
fn sorted_groups(by: Grouping, rows: &[ConnectionSnapshot]) -> (out: Vec<Group>)
    ensures
        is_rollup(by, rows_of(rows@), groups_of(out@)),
        busiest_first(groups_of(out@)),
{
    let groups = group_rows(by, rows);
    let mut keys: Vec<Descending> = Vec::new();
    let mut i: usize = 0;
    while i < groups.len()
        invariant
            i <= groups.len(),
            keys@.len() == i,
            forall|k: int| 0 <= k < i ==> (#[trigger] keys@[k]).0 == groups@[k]@.total(),
        decreases groups.len() - i,
    {
        keys.push(Descending(groups[i].bytes_in.saturating_add(groups[i].bytes_out)));
        i = i + 1;
    }
    let order = stable_order(&keys);
    let mut out: Vec<Group> = Vec::new();
    let mut k: usize = 0;
    while k < order.len()
        invariant
            k <= order.len(),
            order@.len() == groups@.len(),
            forall|m: int| 0 <= m < order@.len() ==> (#[trigger] order@[m]) < groups@.len(),
            out@.len() == k,
            forall|m: int| 0 <= m < k ==> (#[trigger] out@[m])@ == groups@[order@[m] as int]@,
        decreases order.len() - k,
    {
        let g = &groups[order[k]];
        out.push(
            Group {
                first: g.first.clone(),
                second: g.second.clone(),
                bytes_in: g.bytes_in,
                bytes_out: g.bytes_out,
                flow_count: g.flow_count,
            },
        );
        k = k + 1;
    }
    proof {
        let all = rows_of(rows@);
        let a = groups_of(groups@);
        let b = groups_of(out@);
        assert forall|m: int| 0 <= m < b.len() implies #[trigger] b[m] == a[order@[m] as int] by {
            assert(out@[m]@ == groups@[order@[m] as int]@);
        }
        assert forall|m: int, n: int| 0 <= m < n < b.len() implies (#[trigger] b[m]).key != (
        #[trigger] b[n]).key && b[m].total() >= b[n].total() by {
            let x = order@[m] as int;
            let y = order@[n] as int;
            assert(comes_before(keys@, x, y));
            assert(keys@[x].0 == groups@[x]@.total() && keys@[y].0 == groups@[y]@.total());
            assert(b[m] == a[x] && b[n] == a[y]);
            if x < y {
                assert(a[x].key != a[y].key);
            } else {
                assert(a[y].key != a[x].key);
            }
        }
        assert forall|r: int| 0 <= r < all.len() implies has_group(
            b,
            group_key(by, #[trigger] all[r]),
        ) by {
            assert(has_group(a, group_key(by, all[r])));
            let i = choose|i: int|
                0 <= i < a.len() && (#[trigger] a[i]).key == group_key(by, all[r]);
            assert(crate::order::listed(order@, i));
            let m = choose|m: int| 0 <= m < order@.len() && #[trigger] order@[m] == i;
            assert(b[m] == a[i]);
        }
    }
    out
}

/// `payload` holds the rollups of the rows, the busiest groups first.
pub open spec fn is_aggregate(
    payload: AggregatePayload,
    rows: Seq<SnapshotView>,
    timestamp_unix: i64,
) -> bool {
    &&& payload.timestamp_unix == timestamp_unix
    &&& is_rollup(Grouping::Process, rows, process_groups(payload.by_process@))
    &&& busiest_first(process_groups(payload.by_process@))
    &&& is_rollup(Grouping::Protocol, rows, protocol_groups(payload.by_protocol@))
    &&& busiest_first(protocol_groups(payload.by_protocol@))
}

/// Rolls up the rows of one second by process and by protocol.
pub fn compute_aggregate(
    filtered: &[ConnectionSnapshot],
    timestamp_unix: i64,
) -> (payload: AggregatePayload)
    ensures
        is_aggregate(payload, rows_of(filtered@), timestamp_unix),
{
    let processes = sorted_groups(Grouping::Process, filtered);
    let mut by_process: Vec<ProcessRollup> = Vec::new();
    let mut i: usize = 0;
    while i < processes.len()
        invariant
            i <= processes.len(),
            by_process@.len() == i,
            forall|k: int| 0 <= k < i ==> (#[trigger] by_process@[k])@ == processes@[k]@,
        decreases processes.len() - i,
    {
        let g = &processes[i];
        by_process.push(
            ProcessRollup {
                process_label: g.first.clone(),
                username: g.second.clone(),
                bytes_in_per_sec: g.bytes_in,
                bytes_out_per_sec: g.bytes_out,
                flow_count: g.flow_count,
            },
        );
        i = i + 1;
    }
    assert(process_groups(by_process@) =~= groups_of(processes@));
    let protocols = sorted_groups(Grouping::Protocol, filtered);
    proof {
        let b = groups_of(protocols@);
        assert forall|k: int| 0 <= k < protocols@.len() implies (#[trigger] protocols@[k])@.key.1
            == Seq::<char>::empty() by {
            assert(b[k] == protocols@[k]@);
            assert(has_row(Grouping::Protocol, rows_of(filtered@), b[k].key));
        }
    }
    let mut by_protocol: Vec<ProtocolRollup> = Vec::new();
    let mut j: usize = 0;
    while j < protocols.len()
        invariant
            j <= protocols.len(),
            forall|k: int|
                0 <= k < protocols@.len() ==> (#[trigger] protocols@[k])@.key.1 == Seq::<char>::empty(),
            by_protocol@.len() == j,
            forall|k: int| 0 <= k < j ==> (#[trigger] by_protocol@[k])@ == protocols@[k]@,
        decreases protocols.len() - j,
    {
        let g = &protocols[j];
        by_protocol.push(
            ProtocolRollup {
                protocol: g.first.clone(),
                bytes_in_per_sec: g.bytes_in,
                bytes_out_per_sec: g.bytes_out,
                flow_count: g.flow_count,
            },
        );
        j = j + 1;
    }
    assert(protocol_groups(by_protocol@) =~= groups_of(protocols@));
    AggregatePayload { timestamp_unix, by_process, by_protocol }
}

/// What all the rows come to.
pub open spec fn all_totals(rows: Seq<SnapshotView>) -> Totals
    decreases rows.len(),
{
    if rows.len() == 0 {
        Totals { bytes_in: 0, bytes_out: 0, flows: 0 }
    } else {
        let t = all_totals(rows.drop_last());
        Totals {
            bytes_in: t.bytes_in + rows.last().bytes_in_per_sec as nat,
            bytes_out: t.bytes_out + rows.last().bytes_out_per_sec as nat,
            flows: t.flows + 1,
        }
    }
}

/// What the counters of all the groups come to.
pub open spec fn sum_of_groups(groups: Seq<GroupView>) -> Totals
    decreases groups.len(),
{
    if groups.len() == 0 {
        Totals { bytes_in: 0, bytes_out: 0, flows: 0 }
    } else {
        let t = sum_of_groups(groups.drop_last());
        Totals {
            bytes_in: t.bytes_in + groups.last().bytes_in as nat,
            bytes_out: t.bytes_out + groups.last().bytes_out as nat,
            flows: t.flows + groups.last().flow_count as nat,
        }
    }
}

spec fn sum_of_totals(
    by: Grouping,
    rows: Seq<SnapshotView>,
    keys: Seq<(Seq<char>, Seq<char>)>,
) -> Totals
    decreases keys.len(),
{
    if keys.len() == 0 {
        Totals { bytes_in: 0, bytes_out: 0, flows: 0 }
    } else {
        let t = sum_of_totals(by, rows, keys.drop_last());
        let last = group_totals(by, rows, keys.last());
        Totals {
            bytes_in: t.bytes_in + last.bytes_in,
            bytes_out: t.bytes_out + last.bytes_out,
            flows: t.flows + last.flows,
        }
    }
}

spec fn keys_distinct(keys: Seq<(Seq<char>, Seq<char>)>) -> bool {
    forall|i: int, j: int| 0 <= i < j < keys.len() ==> #[trigger] keys[i] != #[trigger] keys[j]
}

/// The last row adds to the sum once if its key is among `keys`, and else nothing.
proof fn lemma_sum_with_row(
    by: Grouping,
    rows: Seq<SnapshotView>,
    keys: Seq<(Seq<char>, Seq<char>)>,
)
    requires
        rows.len() > 0,
        keys_distinct(keys),
    ensures
        ({
            let with = sum_of_totals(by, rows, keys);
            let without = sum_of_totals(by, rows.drop_last(), keys);
            let row = rows.last();
            if keys.contains(group_key(by, row)) {
                &&& with.bytes_in == without.bytes_in + row.bytes_in_per_sec
                &&& with.bytes_out == without.bytes_out + row.bytes_out_per_sec
                &&& with.flows == without.flows + 1
            } else {
                with == without
            }
        }),
    decreases keys.len(),
{
    if keys.len() > 0 {
        let front = keys.drop_last();
        let key = group_key(by, rows.last());
        assert(keys_distinct(front));
        lemma_sum_with_row(by, rows, front);
        assert(keys[keys.len() - 1] == keys.last());
        if keys.last() == key {
            assert(keys.contains(key));
            if front.contains(key) {
                let i = choose|i: int| 0 <= i < front.len() && front[i] == key;
                assert(keys[i] == key);
            }
        } else {
            if keys.contains(key) {
                let i = choose|i: int| 0 <= i < keys.len() && keys[i] == key;
                assert(front[i] == key);
            }
            if front.contains(key) {
                let i = choose|i: int| 0 <= i < front.len() && front[i] == key;
                assert(keys[i] == key);
            }
        }
    }
}

proof fn lemma_sum_of_no_rows(by: Grouping, keys: Seq<(Seq<char>, Seq<char>)>)
    ensures
        sum_of_totals(by, Seq::empty(), keys) == (Totals { bytes_in: 0, bytes_out: 0, flows: 0 }),
    decreases keys.len(),
{
    if keys.len() > 0 {
        lemma_sum_of_no_rows(by, keys.drop_last());
    }
}

proof fn lemma_sum_covers(
    by: Grouping,
    rows: Seq<SnapshotView>,
    keys: Seq<(Seq<char>, Seq<char>)>,
)
    requires
        keys_distinct(keys),
        forall|r: int| 0 <= r < rows.len() ==> keys.contains(group_key(by, #[trigger] rows[r])),
    ensures
        sum_of_totals(by, rows, keys) == all_totals(rows),
    decreases rows.len(),
{
    if rows.len() == 0 {
        assert(rows =~= Seq::empty());
        lemma_sum_of_no_rows(by, keys);
    } else {
        let front = rows.drop_last();
        assert forall|r: int| 0 <= r < front.len() implies keys.contains(
            group_key(by, #[trigger] front[r]),
        ) by {
            assert(rows[r] == front[r]);
        }
        lemma_sum_covers(by, front, keys);
        lemma_sum_with_row(by, rows, keys);
        assert(rows.last() == rows[rows.len() - 1]);
    }
}

proof fn lemma_group_within_all(
    by: Grouping,
    rows: Seq<SnapshotView>,
    key: (Seq<char>, Seq<char>),
)
    ensures
        group_totals(by, rows, key).bytes_in <= all_totals(rows).bytes_in,
        group_totals(by, rows, key).bytes_out <= all_totals(rows).bytes_out,
        group_totals(by, rows, key).flows <= all_totals(rows).flows,
        all_totals(rows).flows == rows.len(),
    decreases rows.len(),
{
    if rows.len() > 0 {
        lemma_group_within_all(by, rows.drop_last(), key);
    }
}

proof fn lemma_groups_sum(by: Grouping, rows: Seq<SnapshotView>, groups: Seq<GroupView>)
    requires
        forall|i: int| 0 <= i < groups.len() ==> (#[trigger] groups[i]).counts(by, rows),
        all_totals(rows).bytes_in <= u64::MAX,
        all_totals(rows).bytes_out <= u64::MAX,
        rows.len() <= u32::MAX,
    ensures
        sum_of_groups(groups) == sum_of_totals(by, rows, groups.map_values(|g: GroupView| g.key)),
    decreases groups.len(),
{
    if groups.len() > 0 {
        let front = groups.drop_last();
        assert forall|i: int| 0 <= i < front.len() implies (#[trigger] front[i]).counts(by, rows) by {
            assert(groups[i] == front[i]);
        }
        lemma_groups_sum(by, rows, front);
        let keys = groups.map_values(|g: GroupView| g.key);
        assert(keys.drop_last() =~= front.map_values(|g: GroupView| g.key));
        assert(groups[groups.len() - 1].counts(by, rows));
        lemma_group_within_all(by, rows, keys.last());
    }
}

/// A rollup loses nothing and counts nothing twice: its groups together have as many
/// flows as there are rows, and carry the bytes that the rows carry. So the rollup by
/// process and the rollup by protocol of the same rows come to the same.
pub proof fn lemma_rollup_conserves_traffic(
    by: Grouping,
    rows: Seq<SnapshotView>,
    groups: Seq<GroupView>,
)
    requires
        is_rollup(by, rows, groups),
        all_totals(rows).bytes_in <= u64::MAX,
        all_totals(rows).bytes_out <= u64::MAX,
        rows.len() <= u32::MAX,
    ensures
        sum_of_groups(groups) == all_totals(rows),
        sum_of_groups(groups).flows == rows.len(),
{
    let keys = groups.map_values(|g: GroupView| g.key);
    lemma_groups_sum(by, rows, groups);
    assert(keys_distinct(keys));
    assert forall|r: int| 0 <= r < rows.len() implies keys.contains(
        group_key(by, #[trigger] rows[r]),
    ) by {
        assert(has_group(groups, group_key(by, rows[r])));
        let i = choose|i: int|
            0 <= i < groups.len() && (#[trigger] groups[i]).key == group_key(by, rows[r]);
        assert(keys[i] == group_key(by, rows[r]));
    }
    lemma_sum_covers(by, rows, keys);
    lemma_group_within_all(by, rows, (Seq::empty(), Seq::empty()));
}

/// What one row adds to a group.
spec fn with_row(
    by: Grouping,
    t: Totals,
    row: SnapshotView,
    key: (Seq<char>, Seq<char>),
) -> Totals {
    if group_key(by, row) == key {
        Totals {
            bytes_in: t.bytes_in + row.bytes_in_per_sec as nat,
            bytes_out: t.bytes_out + row.bytes_out_per_sec as nat,
            flows: t.flows + 1,
        }
    } else {
        t
    }
}

proof fn lemma_totals_without(
    by: Grouping,
    rows: Seq<SnapshotView>,
    key: (Seq<char>, Seq<char>),
    i: int,
)
    requires
        0 <= i < rows.len(),
    ensures
        group_totals(by, rows, key) == with_row(
            by,
            group_totals(by, rows.remove(i), key),
            rows[i],
            key,
        ),
    decreases rows.len(),
{
    if i == rows.len() - 1 {
        assert(rows.remove(i) =~= rows.drop_last());
    } else {
        lemma_totals_without(by, rows.drop_last(), key, i);
        assert(rows.remove(i).drop_last() =~= rows.drop_last().remove(i));
        assert(rows.remove(i).last() == rows.last());
    }
}

proof fn lemma_totals_of_permutation(
    by: Grouping,
    a: Seq<SnapshotView>,
    b: Seq<SnapshotView>,
    key: (Seq<char>, Seq<char>),
)
    requires
        a.to_multiset() == b.to_multiset(),
    ensures
        group_totals(by, a, key) == group_totals(by, b, key),
    decreases b.len(),
{
    broadcast use group_to_multiset_ensures;

    assert(a.len() == a.to_multiset().len() && b.len() == b.to_multiset().len());
    if b.len() > 0 {
        let last = b.len() - 1;
        let x = b[last];
        assert(b.contains(x));
        assert(b.to_multiset().count(x) > 0);
        assert(a.contains(x));
        let i = choose|i: int| 0 <= i < a.len() && a[i] == x;
        assert(a.remove(i).to_multiset() == b.remove(last).to_multiset());
        lemma_totals_of_permutation(by, a.remove(i), b.remove(last), key);
        lemma_totals_without(by, a, key, i);
        lemma_totals_without(by, b, key, last);
    }
}

/// A group of one rollup is also in the rollup of the permuted rows.
proof fn lemma_group_of_permutation(
    by: Grouping,
    a: Seq<SnapshotView>,
    b: Seq<SnapshotView>,
    ga: Seq<GroupView>,
    gb: Seq<GroupView>,
    i: int,
)
    requires
        a.to_multiset() == b.to_multiset(),
        is_rollup(by, a, ga),
        is_rollup(by, b, gb),
        0 <= i < ga.len(),
    ensures
        gb.contains(ga[i]),
{
    broadcast use group_to_multiset_ensures;

    let key = ga[i].key;
    assert(has_row(by, a, key));
    let r = choose|r: int| 0 <= r < a.len() && group_key(by, #[trigger] a[r]) == key;
    assert(a.contains(a[r]));
    assert(a.to_multiset().count(a[r]) > 0);
    assert(b.contains(a[r]));
    let s = choose|s: int| 0 <= s < b.len() && b[s] == a[r];
    assert(has_group(gb, group_key(by, b[s])));
    let j = choose|j: int| 0 <= j < gb.len() && (#[trigger] gb[j]).key == key;
    lemma_totals_of_permutation(by, a, b, key);
    assert(ga[i].counts(by, a) && gb[j].counts(by, b));
    assert(gb[j] == ga[i]);
}

/// Rollups of permuted rows have the same groups.
proof fn lemma_rollup_of_permutation(
    by: Grouping,
    a: Seq<SnapshotView>,
    b: Seq<SnapshotView>,
    ga: Seq<GroupView>,
    gb: Seq<GroupView>,
)
    requires
        a.to_multiset() == b.to_multiset(),
        is_rollup(by, a, ga),
        is_rollup(by, b, gb),
    ensures
        ga.to_multiset() == gb.to_multiset(),
{
    broadcast use group_to_multiset_ensures;

    assert(ga.no_duplicates()) by {
        assert forall|i: int, j: int| 0 <= i < ga.len() && 0 <= j < ga.len() && i != j implies ga[i]
            != ga[j] by {
            if i < j {
                assert(ga[i].key != ga[j].key);
            } else {
                assert(ga[j].key != ga[i].key);
            }
        }
    }
    assert(gb.no_duplicates()) by {
        assert forall|i: int, j: int| 0 <= i < gb.len() && 0 <= j < gb.len() && i != j implies gb[i]
            != gb[j] by {
            if i < j {
                assert(gb[i].key != gb[j].key);
            } else {
                assert(gb[j].key != gb[i].key);
            }
        }
    }
    ga.lemma_multiset_has_no_duplicates();
    gb.lemma_multiset_has_no_duplicates();
    assert forall|g: GroupView| ga.to_multiset().count(g) == gb.to_multiset().count(g) by {
        if ga.contains(g) {
            let i = choose|i: int| 0 <= i < ga.len() && ga[i] == g;
            lemma_group_of_permutation(by, a, b, ga, gb, i);
        }
        if gb.contains(g) {
            let j = choose|j: int| 0 <= j < gb.len() && gb[j] == g;
            lemma_group_of_permutation(by, b, a, gb, ga, j);
        }
        assert(ga.contains(g) == (ga.to_multiset().count(g) > 0));
        assert(gb.contains(g) == (gb.to_multiset().count(g) > 0));
        assert(ga.to_multiset().contains(g) == ga.contains(g));
        assert(gb.to_multiset().contains(g) == gb.contains(g));
    }
    assert(ga.to_multiset() =~= gb.to_multiset());
}

/// The traffic of the groups, in their order.
pub open spec fn group_sizes(groups: Seq<GroupView>) -> Seq<nat> {
    groups.map_values(|g: GroupView| g.total())
}

/// Two lists of the same groups, the busiest first in both, have groups of the same
/// traffic in each place.
proof fn lemma_sizes_agree(ga: Seq<GroupView>, gb: Seq<GroupView>)
    requires
        ga.to_multiset() == gb.to_multiset(),
        busiest_first(ga),
        busiest_first(gb),
    ensures
        group_sizes(ga) == group_sizes(gb),
    decreases ga.len(),
{
    broadcast use group_to_multiset_ensures;

    assert(ga.len() == ga.to_multiset().len() && gb.len() == gb.to_multiset().len());
    if ga.len() > 0 {
        let last = ga.len() - 1;
        let x = ga[last];
        assert(ga.contains(x));
        assert(ga.to_multiset().count(x) > 0);
        assert(gb.contains(x));
        let j = choose|j: int| 0 <= j < gb.len() && gb[j] == x;
        let y = gb[last];
        assert(gb.contains(y));
        assert(gb.to_multiset().count(y) > 0);
        assert(ga.contains(y));
        let i = choose|i: int| 0 <= i < ga.len() && ga[i] == y;
        assert(x.total() <= y.total()) by {
            if i < last {
                assert(ga[i].total() >= ga[last].total());
            }
        }
        assert(y.total() <= x.total()) by {
            if j < last {
                assert(gb[j].total() >= gb[last].total());
            }
        }
        let fa = ga.remove(last);
        let fb = gb.remove(j);
        assert(fa.to_multiset() == fb.to_multiset());
        assert(busiest_first(fa)) by {
            assert forall|m: int, n: int| 0 <= m < n < fa.len() implies (#[trigger] fa[m]).total()
                >= (#[trigger] fa[n]).total() by {
                assert(fa[m] == ga[m] && fa[n] == ga[n]);
            }
        }
        assert forall|m: int| 0 <= m < fb.len() implies (#[trigger] fb[m]).total()
            == gb[m].total() by {
            if m >= j {
                assert(fb[m] == gb[m + 1]);
                if j < m {
                    assert(gb[j].total() >= gb[m].total());
                }
                if m < last {
                    assert(gb[m].total() >= gb[last].total());
                }
                if m + 1 < last {
                    assert(gb[m + 1].total() >= gb[last].total());
                }
                assert(gb[j].total() >= gb[m + 1].total());
            } else {
                assert(fb[m] == gb[m]);
            }
        }
        assert(busiest_first(fb)) by {
            assert forall|m: int, n: int| 0 <= m < n < fb.len() implies (#[trigger] fb[m]).total()
                >= (#[trigger] fb[n]).total() by {
                assert(gb[m].total() >= gb[n].total());
            }
        }
        lemma_sizes_agree(fa, fb);
        assert forall|m: int| 0 <= m < ga.len() implies group_sizes(ga)[m] == #[trigger] group_sizes(
            gb,
        )[m] by {
            if m < last {
                assert(group_sizes(fa)[m] == fa[m].total());
                assert(group_sizes(fb)[m] == fb[m].total());
                assert(fa[m] == ga[m]);
            }
        }
    }
    assert(group_sizes(ga) =~= group_sizes(gb));
}

/// The order of the rows does not matter: rollups of permuted rows have the same groups,
/// and can differ only in the order of groups with equal traffic.
pub proof fn lemma_row_order_does_not_matter(
    a: Seq<SnapshotView>,
    b: Seq<SnapshotView>,
    pa: AggregatePayload,
    pb: AggregatePayload,
    timestamp_unix: i64,
)
    requires
        a.to_multiset() == b.to_multiset(),
        is_aggregate(pa, a, timestamp_unix),
        is_aggregate(pb, b, timestamp_unix),
    ensures
        process_groups(pa.by_process@).to_multiset() == process_groups(pb.by_process@).to_multiset(),
        protocol_groups(pa.by_protocol@).to_multiset() == protocol_groups(
            pb.by_protocol@,
        ).to_multiset(),
        group_sizes(process_groups(pa.by_process@)) == group_sizes(process_groups(pb.by_process@)),
        group_sizes(protocol_groups(pa.by_protocol@)) == group_sizes(
            protocol_groups(pb.by_protocol@),
        ),
{
    lemma_rollup_of_permutation(
        Grouping::Process,
        a,
        b,
        process_groups(pa.by_process@),
        process_groups(pb.by_process@),
    );
    lemma_sizes_agree(process_groups(pa.by_process@), process_groups(pb.by_process@));
    lemma_rollup_of_permutation(
        Grouping::Protocol,
        a,
        b,
        protocol_groups(pa.by_protocol@),
        protocol_groups(pb.by_protocol@),
    );
    lemma_sizes_agree(protocol_groups(pa.by_protocol@), protocol_groups(pb.by_protocol@));
}

/// What rows come to is the sum of what each of them carries, in whatever stretches they
/// are taken.
pub proof fn lemma_all_totals_add_up(
    a: Seq<SnapshotView>,
    b: Seq<SnapshotView>,
    row: SnapshotView,
)
    ensures
        all_totals(Seq::empty()).bytes_in == 0 && all_totals(Seq::empty()).bytes_out == 0,
        all_totals(seq![row]).bytes_in == row.bytes_in_per_sec,
        all_totals(seq![row]).bytes_out == row.bytes_out_per_sec,
        all_totals(seq![row]).flows == 1,
        all_totals(a + b).bytes_in == all_totals(a).bytes_in + all_totals(b).bytes_in,
        all_totals(a + b).bytes_out == all_totals(a).bytes_out + all_totals(b).bytes_out,
        all_totals(a + b).flows == all_totals(a).flows + all_totals(b).flows,
    decreases b.len(),
{
    reveal_with_fuel(all_totals, 2);
    assert(seq![row].drop_last() =~= Seq::empty());
    if b.len() == 0 {
        assert(a + b =~= a);
    } else {
        lemma_all_totals_add_up(a, b.drop_last(), row);
        assert((a + b).drop_last() =~= a + b.drop_last());
        assert((a + b).last() == b.last());
    }
}

/// What a group comes to is the sum over the rows that belong to it, in whatever stretches
/// they are taken; a row that belongs to another group adds nothing.
pub proof fn lemma_group_totals_add_up(
    by: Grouping,
    a: Seq<SnapshotView>,
    b: Seq<SnapshotView>,
    row: SnapshotView,
    key: (Seq<char>, Seq<char>),
)
    ensures
        group_key(by, row) == key ==> {
            &&& group_totals(by, seq![row], key).bytes_in == row.bytes_in_per_sec
            &&& group_totals(by, seq![row], key).bytes_out == row.bytes_out_per_sec
            &&& group_totals(by, seq![row], key).flows == 1
        },
        group_key(by, row) != key ==> {
            &&& group_totals(by, seq![row], key).bytes_in == 0
            &&& group_totals(by, seq![row], key).bytes_out == 0
            &&& group_totals(by, seq![row], key).flows == 0
        },
        ({
            let t = group_totals(by, a, key);
            let u = group_totals(by, b, key);
            let all = group_totals(by, a + b, key);
            &&& all.bytes_in == t.bytes_in + u.bytes_in
            &&& all.bytes_out == t.bytes_out + u.bytes_out
            &&& all.flows == t.flows + u.flows
        }),
    decreases b.len(),
{
    reveal_with_fuel(group_totals, 2);
    assert(seq![row].drop_last() =~= Seq::empty());
    if b.len() == 0 {
        assert(a + b =~= a);
    } else {
        lemma_group_totals_add_up(by, a, b.drop_last(), row, key);
        assert((a + b).drop_last() =~= a + b.drop_last());
        assert((a + b).last() == b.last());
    }
}

/// The process and the user of a row decide its group by process, and its protocol its
/// group by protocol: each known name stands for itself, and unknown or empty ones share
/// one label. Nothing else about the row matters.
pub proof fn lemma_group_of_row(row: SnapshotView, other: SnapshotView)
    ensures
        row.process_name matches Some(name) ==> name.len() > 0 ==> group_key(
            Grouping::Process,
            row,
        ).0 == name,
        row.process_name is None || row.process_name == Some(Seq::<char>::empty()) ==> group_key(
            Grouping::Process,
            row,
        ).0 == "<unattributed>"@,
        row.username matches Some(name) ==> name.len() > 0 ==> group_key(
            Grouping::Process,
            row,
        ).1 == name,
        row.username is None || row.username == Some(Seq::<char>::empty()) ==> group_key(
            Grouping::Process,
            row,
        ).1 == "\u{2014}"@,
        row.protocol.len() > 0 ==> group_key(Grouping::Protocol, row).0 == row.protocol,
        row.protocol.len() == 0 ==> group_key(Grouping::Protocol, row).0 == "?"@,
        row.process_name == other.process_name && row.username == other.username ==> group_key(
            Grouping::Process,
            row,
        ) == group_key(Grouping::Process, other),
        row.protocol == other.protocol ==> group_key(Grouping::Protocol, row) == group_key(
            Grouping::Protocol,
            other,
        ),
{
}

/// Every row is counted in exactly one group of each rollup, that of its process and user
/// and that of its protocol; the counters hold the sums of their rows, and the groups stand
/// in the order of their bytes in and out together.
pub proof fn lemma_row_is_rolled_up(
    payload: AggregatePayload,
    rows: Seq<SnapshotView>,
    timestamp_unix: i64,
    r: int,
) -> (places: (int, int))
    requires
        is_aggregate(payload, rows, timestamp_unix),
        0 <= r < rows.len(),
        all_totals(rows).bytes_in <= u64::MAX,
        all_totals(rows).bytes_out <= u64::MAX,
        rows.len() <= u32::MAX,
    ensures
        payload.timestamp_unix == timestamp_unix,
        0 <= places.0 < payload.by_process@.len(),
        0 <= places.1 < payload.by_protocol@.len(),
        ({
            let p = payload.by_process@[places.0];
            let key = (p.process_label@, p.username@);
            let t = group_totals(Grouping::Process, rows, key);
            &&& key == group_key(Grouping::Process, rows[r])
            &&& p.bytes_in_per_sec == t.bytes_in
            &&& p.bytes_out_per_sec == t.bytes_out
            &&& p.flow_count == t.flows
        }),
        ({
            let p = payload.by_protocol@[places.1];
            let key = (p.protocol@, Seq::<char>::empty());
            let t = group_totals(Grouping::Protocol, rows, key);
            &&& key == group_key(Grouping::Protocol, rows[r])
            &&& p.bytes_in_per_sec == t.bytes_in
            &&& p.bytes_out_per_sec == t.bytes_out
            &&& p.flow_count == t.flows
        }),
        forall|i: int, j: int|
            0 <= i < j < payload.by_process@.len() ==> {
                let p = #[trigger] payload.by_process@[i];
                let q = #[trigger] payload.by_process@[j];
                &&& (p.process_label@, p.username@) != (q.process_label@, q.username@)
                &&& q.bytes_in_per_sec + q.bytes_out_per_sec <= u64::MAX ==> p.bytes_in_per_sec
                    + p.bytes_out_per_sec >= q.bytes_in_per_sec + q.bytes_out_per_sec
            },
        forall|i: int, j: int|
            0 <= i < j < payload.by_protocol@.len() ==> {
                let p = #[trigger] payload.by_protocol@[i];
                let q = #[trigger] payload.by_protocol@[j];
                &&& p.protocol@ != q.protocol@
                &&& q.bytes_in_per_sec + q.bytes_out_per_sec <= u64::MAX ==> p.bytes_in_per_sec
                    + p.bytes_out_per_sec >= q.bytes_in_per_sec + q.bytes_out_per_sec
            },
{
    let a = process_groups(payload.by_process@);
    let b = protocol_groups(payload.by_protocol@);
    let key_a = group_key(Grouping::Process, rows[r]);
    let key_b = group_key(Grouping::Protocol, rows[r]);
    assert(has_group(a, key_a) && has_group(b, key_b));
    let i = choose|i: int| 0 <= i < a.len() && (#[trigger] a[i]).key == key_a;
    let j = choose|j: int| 0 <= j < b.len() && (#[trigger] b[j]).key == key_b;
    assert(a[i].counts(Grouping::Process, rows) && b[j].counts(Grouping::Protocol, rows));
    lemma_group_within_all(Grouping::Process, rows, key_a);
    lemma_group_within_all(Grouping::Protocol, rows, key_b);
    assert forall|m: int, n: int| 0 <= m < n < payload.by_process@.len() implies {
        let p = #[trigger] payload.by_process@[m];
        let q = #[trigger] payload.by_process@[n];
        &&& (p.process_label@, p.username@) != (q.process_label@, q.username@)
        &&& q.bytes_in_per_sec + q.bytes_out_per_sec <= u64::MAX ==> p.bytes_in_per_sec
            + p.bytes_out_per_sec >= q.bytes_in_per_sec + q.bytes_out_per_sec
    } by {
        assert(a[m].key != a[n].key);
        assert(a[m].total() >= a[n].total());
    }
    assert forall|m: int, n: int| 0 <= m < n < payload.by_protocol@.len() implies {
        let p = #[trigger] payload.by_protocol@[m];
        let q = #[trigger] payload.by_protocol@[n];
        &&& p.protocol@ != q.protocol@
        &&& q.bytes_in_per_sec + q.bytes_out_per_sec <= u64::MAX ==> p.bytes_in_per_sec
            + p.bytes_out_per_sec >= q.bytes_in_per_sec + q.bytes_out_per_sec
    } by {
        assert(b[m].key != b[n].key);
        assert(b[m].total() >= b[n].total());
    }
    (i, j)
}

/// A counter holds the whole sum until it is full, and then its largest value.
pub proof fn lemma_counters_stop_when_full(n: nat, max: nat)
    ensures
        n <= max ==> capped(n, max) == n,
        n > max ==> capped(n, max) == max,
{
}

} // verus!
