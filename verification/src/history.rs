//! The connections of the session, kept for export.

use vstd::prelude::*;

use crate::data::{rows_of, ConnectionSnapshot, SnapshotView};
use crate::number::{
    decimal, lemma_decimal_reads_back, number_of, push_decimal, push_signed, signed_decimal,
};
use crate::text::chars;

verus! {

/// How many records the history keeps.
pub const MAX_HISTORY_RECORDS: usize = 18000;

/// The newest records of the session, oldest first.
pub struct SessionHistory {
    pub records: Vec<ConnectionSnapshot>,
}

/// The last `max` elements of a sequence, or all if there are fewer.
pub open spec fn newest<T>(s: Seq<T>, max: int) -> Seq<T> {
    if s.len() > max {
        s.skip(s.len() - max)
    } else {
        s
    }
}

/// The records of the history once `more` are added.
pub open spec fn extended<T>(records: Seq<T>, more: Seq<T>) -> Seq<T> {
    newest(records + more, MAX_HISTORY_RECORDS as int)
}

/// Whether a CSV field with this value has to be quoted.
pub open spec fn needs_quotes(value: Seq<char>) -> bool {
    exists|i: int|
        0 <= i < value.len() && (#[trigger] value[i] == ',' || value[i] == '"' || value[i] == '\n')
}

/// The value with each double quote written twice.
pub open spec fn doubled_quotes(value: Seq<char>) -> Seq<char>
    decreases value.len(),
{
    if value.len() == 0 {
        Seq::empty()
    } else if value.last() == '"' {
        doubled_quotes(value.drop_last()).push('"').push('"')
    } else {
        doubled_quotes(value.drop_last()).push(value.last())
    }
}

/// A value as a CSV field.
pub open spec fn csv_field(value: Seq<char>) -> Seq<char> {
    if needs_quotes(value) {
        seq!['"'] + doubled_quotes(value) + seq!['"']
    } else {
        value
    }
}

/// The text, or nothing.
pub open spec fn or_empty(text: Option<Seq<char>>) -> Seq<char> {
    match text {
        Some(t) => t,
        None => Seq::empty(),
    }
}

/// The names of the CSV columns.
pub open spec fn csv_header() -> Seq<char> {
    "timestamp_unix,pid,process_name,username,src_ip,src_port,dst_ip,dst_port,protocol,bytes_in_per_sec,bytes_out_per_sec\n"@
}

/// One record as a CSV line.
pub open spec fn csv_line(row: SnapshotView) -> Seq<char> {
    let pid = match row.pid {
        Some(pid) => decimal(pid as nat),
        None => Seq::empty(),
    };
    signed_decimal(row.timestamp_unix as int) + ","@ + pid + ","@ + csv_field(
        or_empty(row.process_name),
    ) + ","@ + csv_field(or_empty(row.username)) + ","@ + csv_field(row.src_ip) + ","@ + decimal(
        row.src_port as nat,
    ) + ","@ + csv_field(row.dst_ip) + ","@ + decimal(row.dst_port as nat) + ","@ + csv_field(
        row.protocol,
    ) + ","@ + decimal(row.bytes_in_per_sec as nat) + ","@ + decimal(row.bytes_out_per_sec as nat)
        + "\n"@
}

/// The header and one line per record.
pub open spec fn csv_text(rows: Seq<SnapshotView>) -> Seq<char>
    decreases rows.len(),
{
    if rows.len() == 0 {
        csv_header()
    } else {
        csv_text(rows.drop_last()) + csv_line(rows.last())
    }
}

impl SessionHistory {
    /// Whether the history is within its bound.
    pub open spec fn wf(self) -> bool {
        self.records@.len() <= MAX_HISTORY_RECORDS
    }

    /// An empty history.
    pub fn new() -> (history: Self)
        ensures
            history.records@ == Seq::<ConnectionSnapshot>::empty(),
            history.wf(),
    {
        Self { records: Vec::new() }
    }

    /// Adds the records of a second, and forgets the oldest ones beyond the bound.
    pub fn push(&mut self, snapshots: &[ConnectionSnapshot])
        ensures
            final(self).records@ == extended(old(self).records@, snapshots@),
            final(self).wf(),
    {
        let mut i: usize = 0;
        assert(self.records@ + snapshots@.take(0) =~= self.records@);
        while i < snapshots.len()
            invariant
                i <= snapshots.len(),
                self.records@ == old(self).records@ + snapshots@.take(i as int),
            decreases snapshots.len() - i,
        {
            self.records.push(snapshots[i].clone());
            assert(snapshots@.take(i + 1) =~= snapshots@.take(i as int).push(snapshots@[i as int]));
            i = i + 1;
        }
        assert(snapshots@.take(i as int) =~= snapshots@);
        let excess: usize = self.records.len().saturating_sub(MAX_HISTORY_RECORDS);
        if excess > 0 {
            let ghost all = self.records@;
            let kept = self.records.split_off(excess);
            self.records = kept;
            assert(self.records@ =~= newest(all, MAX_HISTORY_RECORDS as int));
        }
    }

    /// The history as CSV.
    pub fn to_csv(&self) -> (out: String)
        ensures
            out@ == csv_text(rows_of(self.records@)),
    {
        let mut out: String =
            "timestamp_unix,pid,process_name,username,src_ip,src_port,dst_ip,dst_port,protocol,bytes_in_per_sec,bytes_out_per_sec\n".to_owned();
        let ghost all = rows_of(self.records@);
        let mut i: usize = 0;
        while i < self.records.len()
            invariant
                i <= self.records.len(),
                all == rows_of(self.records@),
                out@ == csv_text(all.take(i as int)),
            decreases self.records.len() - i,
        {
            let ghost before = out@;
            assert(all.take(i + 1).drop_last() =~= all.take(i as int));
            assert(all.take(i + 1).last() == self.records@[i as int]@);
            push_csv_line(&mut out, &self.records[i]);
            i = i + 1;
        }
        assert(all.take(i as int) =~= all);
        out
    }

    /// How many records the history holds.
    pub fn len(&self) -> (n: usize)
        ensures
            n == self.records@.len(),
    {
        self.records.len()
    }
}

fn push_csv_line(out: &mut String, row: &ConnectionSnapshot)
    ensures
        final(out)@ == old(out)@ + csv_line(row@),
{
    let mut line: String = String::new();
    push_signed(&mut line, row.timestamp_unix);
    assert(line@ =~= signed_decimal(row.timestamp_unix as int));
    line.append(",");
    match row.pid {
        Some(pid) => {
            push_decimal(&mut line, pid as u64);
        },
        None => {
            assert(line@ =~= line@ + Seq::<char>::empty());
        },
    }
    line.append(",");
    push_optional(&mut line, &row.process_name);
    line.append(",");
    push_optional(&mut line, &row.username);
    line.append(",");
    line.append(csv_escape(row.src_ip.as_str()).as_str());
    line.append(",");
    push_decimal(&mut line, row.src_port as u64);
    line.append(",");
    line.append(csv_escape(row.dst_ip.as_str()).as_str());
    line.append(",");
    push_decimal(&mut line, row.dst_port as u64);
    line.append(",");
    line.append(csv_escape(row.protocol.as_str()).as_str());
    line.append(",");
    push_decimal(&mut line, row.bytes_in_per_sec);
    line.append(",");
    push_decimal(&mut line, row.bytes_out_per_sec);
    line.append("\n");
    out.append(line.as_str());
}

fn push_optional(out: &mut String, value: &Option<String>)
    ensures
        final(out)@ == old(out)@ + csv_field(or_empty(crate::text::opt_text(*value))),
{
    match value {
        Some(v) => {
            out.append(csv_escape(v.as_str()).as_str());
        },
        None => {
            assert(out@ + csv_field(Seq::empty()) =~= out@);
        },
    }
}

/// A value as a CSV field: quoted if it holds a comma, a quote or a line feed.
pub fn csv_escape(value: &str) -> (field: String)
    ensures
        field@ == csv_field(value@),
{
    let v = chars(value);
    let mut quote: bool = false;
    let mut i: usize = 0;
    while i < v.len()
        invariant
            i <= v.len(),
            v@ == value@,
            quote == exists|k: int|
                0 <= k < i && (#[trigger] value@[k] == ',' || value@[k] == '"' || value@[k] == '\n'),
        decreases v.len() - i,
    {
        if v[i] == ',' || v[i] == '"' || v[i] == '\n' {
            assert(value@[i as int] == ',' || value@[i as int] == '"' || value@[i as int] == '\n');
            quote = true;
        }
        i = i + 1;
    }
    if !quote {
        return value.to_owned();
    }
    let mut field: String = String::new();
    field.push('"');
    let mut j: usize = 0;
    assert(field@ =~= seq!['"'] + doubled_quotes(v@.take(0)));
    while j < v.len()
        invariant
            j <= v.len(),
            v@ == value@,
            field@ == seq!['"'] + doubled_quotes(v@.take(j as int)),
        decreases v.len() - j,
    {
        let ghost before = field@;
        if v[j] == '"' {
            field.push('"');
        }
        field.push(v[j]);
        assert(v@.take(j + 1).drop_last() =~= v@.take(j as int));
        assert(field@ =~= seq!['"'] + doubled_quotes(v@.take(j + 1)));
        j = j + 1;
    }
    assert(v@.take(j as int) =~= v@);
    field.push('"');
    assert(field@ =~= csv_field(value@));
    field
}

/// Adding records in two batches leaves the same history as adding them at once.
pub proof fn lemma_batches_join<T>(records: Seq<T>, first: Seq<T>, second: Seq<T>)
    ensures
        extended(extended(records, first), second) == extended(records, first + second),
{
    assert(extended(extended(records, first), second) =~= extended(records, first + second));
}

/// The history is the end of all that was ever added: the newest record is the last one,
/// and none is forgotten while the bound is not reached.
pub proof fn lemma_newest_are_kept<T>(records: Seq<T>, more: Seq<T>)
    ensures
        extended(records, more).len() <= MAX_HISTORY_RECORDS,
        extended(records, more).is_suffix_of(records + more),
        records.len() + more.len() <= MAX_HISTORY_RECORDS ==> extended(records, more) == records
            + more,
{
}

/// Reads a quoted field, from behind its opening quote: the value, and what follows the
/// closing quote.
pub open spec fn read_quoted(s: Seq<char>) -> (Seq<char>, Seq<char>)
    decreases s.len(),
{
    if s.len() == 0 {
        (Seq::empty(), Seq::empty())
    } else if s[0] == '"' {
        if s.len() > 1 && s[1] == '"' {
            let (value, rest) = read_quoted(s.skip(2));
            (seq!['"'] + value, rest)
        } else {
            (Seq::empty(), s.skip(1))
        }
    } else {
        let (value, rest) = read_quoted(s.skip(1));
        (seq![s[0]] + value, rest)
    }
}

/// Reads an unquoted field: the value, and what follows, from the separator on.
pub open spec fn read_plain(s: Seq<char>) -> (Seq<char>, Seq<char>)
    decreases s.len(),
{
    if s.len() == 0 || s[0] == ',' || s[0] == '\n' {
        (Seq::empty(), s)
    } else {
        let (value, rest) = read_plain(s.skip(1));
        (seq![s[0]] + value, rest)
    }
}

/// Reads a CSV field: its value, and what follows it.
pub open spec fn read_field(s: Seq<char>) -> (Seq<char>, Seq<char>) {
    if s.len() > 0 && s[0] == '"' {
        read_quoted(s.skip(1))
    } else {
        read_plain(s)
    }
}

/// Reads `n` fields, each with the separator behind it: their values, and what follows.
pub open spec fn read_record(s: Seq<char>, n: nat) -> (Seq<Seq<char>>, Seq<char>)
    decreases n,
{
    if n == 0 {
        (Seq::empty(), s)
    } else {
        let (value, rest) = read_field(s);
        let (values, end) = read_record(rest.skip(1), (n - 1) as nat);
        (seq![value] + values, end)
    }
}

/// The values of a record, in the order of the columns.
pub open spec fn record_values(row: SnapshotView) -> Seq<Seq<char>> {
    seq![
        signed_decimal(row.timestamp_unix as int),
        match row.pid {
            Some(pid) => decimal(pid as nat),
            None => Seq::empty(),
        },
        or_empty(row.process_name),
        or_empty(row.username),
        row.src_ip,
        decimal(row.src_port as nat),
        row.dst_ip,
        decimal(row.dst_port as nat),
        row.protocol,
        decimal(row.bytes_in_per_sec as nat),
        decimal(row.bytes_out_per_sec as nat),
    ]
}

/// Values as a CSV line.
spec fn line_of(values: Seq<Seq<char>>) -> Seq<char>
    decreases values.len(),
{
    if values.len() == 0 {
        Seq::empty()
    } else if values.len() == 1 {
        csv_field(values[0]) + seq!['\n']
    } else {
        csv_field(values[0]) + (seq![','] + line_of(values.skip(1)))
    }
}

proof fn lemma_doubled_concat(a: Seq<char>, b: Seq<char>)
    ensures
        doubled_quotes(a + b) == doubled_quotes(a) + doubled_quotes(b),
    decreases b.len(),
{
    if b.len() == 0 {
        assert(a + b =~= a);
        assert(doubled_quotes(a) + doubled_quotes(b) =~= doubled_quotes(a));
    } else {
        lemma_doubled_concat(a, b.drop_last());
        assert((a + b).drop_last() =~= a + b.drop_last());
        assert((a + b).last() == b.last());
        assert(doubled_quotes(a + b) =~= doubled_quotes(a) + doubled_quotes(b));
    }
}

proof fn lemma_read_quoted(value: Seq<char>, tail: Seq<char>)
    requires
        tail.len() > 0 ==> tail[0] != '"',
    ensures
        read_quoted(doubled_quotes(value) + (seq!['"'] + tail)) == (value, tail),
    decreases value.len(),
{
    let s = doubled_quotes(value) + (seq!['"'] + tail);
    if value.len() == 0 {
        assert(s =~= seq!['"'] + tail);
        assert(s.skip(1) =~= tail);
        if s.len() > 1 {
            assert(s[1] == tail[0]);
        }
        assert(value =~= Seq::empty());
    } else {
        let c = value[0];
        let more = value.skip(1);
        assert(value =~= seq![c] + more);
        lemma_doubled_concat(seq![c], more);
        assert(seq![c].drop_last() =~= Seq::<char>::empty());
        assert(seq![c].last() == c);
        assert(doubled_quotes(Seq::<char>::empty()) =~= Seq::empty());
        let head = doubled_quotes(seq![c]);
        lemma_read_quoted(more, tail);
        let rest = doubled_quotes(more) + (seq!['"'] + tail);
        assert(s =~= head + rest);
        if c == '"' {
            assert(head =~= seq!['"', '"']);
            assert(s[0] == '"' && s[1] == '"');
            assert(s.skip(2) =~= rest);
        } else {
            assert(head =~= seq![c]);
            assert(s[0] == c);
            assert(s.skip(1) =~= rest);
        }
    }
}

proof fn lemma_read_plain(value: Seq<char>, tail: Seq<char>)
    requires
        !needs_quotes(value),
        tail.len() > 0,
        tail[0] == ',' || tail[0] == '\n',
    ensures
        read_plain(value + tail) == (value, tail),
    decreases value.len(),
{
    let s = value + tail;
    if value.len() == 0 {
        assert(s =~= tail);
        assert(value =~= Seq::empty());
    } else {
        let more = value.skip(1);
        assert(value[0] == s[0]);
        if needs_quotes(more) {
            let i = choose|i: int|
                0 <= i < more.len() && (#[trigger] more[i] == ',' || more[i] == '"' || more[i]
                    == '\n');
            assert(value[i + 1] == more[i]);
        }
        lemma_read_plain(more, tail);
        assert(s.skip(1) =~= more + tail);
        assert(value =~= seq![value[0]] + more);
    }
}

/// A value written as a CSV field reads back as that value, whatever characters it
/// holds, and the reader stops at the separator behind it.
pub proof fn lemma_csv_field_reads_back(value: Seq<char>, tail: Seq<char>)
    requires
        tail.len() > 0,
        tail[0] == ',' || tail[0] == '\n',
    ensures
        read_field(csv_field(value) + tail) == (value, tail),
{
    let s = csv_field(value) + tail;
    if needs_quotes(value) {
        lemma_read_quoted(value, tail);
        assert(s.skip(1) =~= doubled_quotes(value) + (seq!['"'] + tail));
    } else {
        lemma_read_plain(value, tail);
        if value.len() > 0 {
            assert(s[0] == value[0]);
        }
    }
}

proof fn lemma_line_reads_back(values: Seq<Seq<char>>, rest: Seq<char>)
    requires
        values.len() > 0,
    ensures
        read_record(line_of(values) + rest, values.len()) == (values, rest),
    decreases values.len(),
{
    let s = line_of(values) + rest;
    if values.len() == 1 {
        let tail = seq!['\n'] + rest;
        assert(s =~= csv_field(values[0]) + tail);
        lemma_csv_field_reads_back(values[0], tail);
        assert(tail.skip(1) =~= rest);
        assert(read_record(rest, 0).0 =~= Seq::<Seq<char>>::empty());
        assert(seq![values[0]] + Seq::<Seq<char>>::empty() =~= values);
    } else {
        let more = values.skip(1);
        let tail = seq![','] + (line_of(more) + rest);
        assert(s =~= csv_field(values[0]) + tail);
        lemma_csv_field_reads_back(values[0], tail);
        assert(tail.skip(1) =~= line_of(more) + rest);
        lemma_line_reads_back(more, rest);
        assert(seq![values[0]] + more =~= values);
    }
}

proof fn lemma_decimal_is_plain(n: nat)
    ensures
        csv_field(decimal(n)) == decimal(n),
        csv_field(signed_decimal(n as int)) == signed_decimal(n as int),
        csv_field(signed_decimal(-(n as int))) == signed_decimal(-(n as int)),
{
    crate::number::lemma_numeral_value(n, 10);
    let d = decimal(n);
    assert forall|i: int| 0 <= i < d.len() implies #[trigger] d[i] != ',' && d[i] != '"' && d[i]
        != '\n' by {
        assert(crate::number::digit_worth(d[i]) < 10);
    }
    assert(!needs_quotes(d));
    let m = seq!['-'] + d;
    assert forall|i: int| 0 <= i < m.len() implies #[trigger] m[i] != ',' && m[i] != '"' && m[i]
        != '\n' by {
        if i > 0 {
            assert(m[i] == d[i - 1]);
        }
    }
    assert(!needs_quotes(m));
}

/// The first `k` values as CSV fields, a comma behind each.
spec fn fields_before(v: Seq<Seq<char>>, k: nat) -> Seq<char>
    decreases k,
{
    if k <= 1 {
        csv_field(v[0]) + seq![',']
    } else {
        fields_before(v, (k - 1) as nat) + csv_field(v[k - 1]) + seq![',']
    }
}

proof fn lemma_line_split(v: Seq<Seq<char>>, k: nat)
    requires
        1 <= k < v.len(),
    ensures
        fields_before(v, k) + line_of(v.skip(k as int)) == line_of(v),
    decreases k,
{
    let before = fields_before(v, (k - 1) as nat);
    let tail = line_of(v.skip(k as int));
    assert(v.skip(k - 1).skip(1) =~= v.skip(k as int));
    assert(v.skip(k - 1)[0] == v[k - 1]);
    if k > 1 {
        lemma_line_split(v, (k - 1) as nat);
        assert(before + csv_field(v[k - 1]) + seq![','] + tail =~= before + (csv_field(v[k - 1]) + (
        seq![','] + tail)));
    } else {
        assert(v.skip(0) =~= v);
        assert(csv_field(v[0]) + seq![','] + tail =~= csv_field(v[0]) + (seq![','] + tail));
    }
}

proof fn lemma_csv_line_is_line_of(row: SnapshotView)
    ensures
        csv_line(row) == line_of(record_values(row)),
{
    let v = record_values(row);
    assert(","@ == seq![',']) by {
        reveal_strlit(",");
        assert(","@ =~= seq![',']);
    }
    assert("\n"@ == seq!['\n']) by {
        reveal_strlit("\n");
        assert("\n"@ =~= seq!['\n']);
    }
    let ts = row.timestamp_unix as int;
    lemma_decimal_is_plain(if ts < 0 { (-ts) as nat } else { ts as nat });
    match row.pid {
        Some(pid) => lemma_decimal_is_plain(pid as nat),
        None => {
            assert(csv_field(Seq::<char>::empty()) == Seq::<char>::empty());
        },
    }
    lemma_decimal_is_plain(row.src_port as nat);
    lemma_decimal_is_plain(row.dst_port as nat);
    lemma_decimal_is_plain(row.bytes_in_per_sec as nat);
    lemma_decimal_is_plain(row.bytes_out_per_sec as nat);
    reveal_with_fuel(fields_before, 11);
    let before = fields_before(v, 10);
    assert(csv_line(row) == before + csv_field(v[10]) + seq!['\n']);
    assert(line_of(v.skip(10)) == csv_field(v[10]) + seq!['\n']) by {
        assert(v.skip(10)[0] == v[10]);
    }
    assert(before + csv_field(v[10]) + seq!['\n'] =~= before + (csv_field(v[10]) + seq!['\n']));
    lemma_line_split(v, 10);
}

/// The line that is exported for a record reads back as the values of that record, also
/// where a name holds commas, quotes or line feeds.
pub proof fn lemma_csv_line_reads_back(row: SnapshotView, rest: Seq<char>)
    ensures
        read_record(csv_line(row) + rest, 11) == (record_values(row), rest),
{
    lemma_csv_line_is_line_of(row);
    lemma_line_reads_back(record_values(row), rest);
}

/// The lines of the records, one after the other.
spec fn csv_lines(rows: Seq<SnapshotView>) -> Seq<char>
    decreases rows.len(),
{
    if rows.len() == 0 {
        Seq::empty()
    } else {
        csv_line(rows[0]) + csv_lines(rows.skip(1))
    }
}

proof fn lemma_csv_lines_append(rows: Seq<SnapshotView>, row: SnapshotView)
    ensures
        csv_lines(rows.push(row)) == csv_lines(rows) + csv_line(row),
    decreases rows.len(),
{
    let all = rows.push(row);
    if rows.len() == 0 {
        assert(all.skip(1) =~= Seq::empty());
        assert(csv_lines(all.skip(1)) == Seq::<char>::empty());
        assert(csv_lines(rows) == Seq::<char>::empty());
        assert(csv_lines(all) =~= csv_lines(rows) + csv_line(row));
    } else {
        assert(all.skip(1) =~= rows.skip(1).push(row));
        lemma_csv_lines_append(rows.skip(1), row);
        assert(csv_lines(all) =~= csv_lines(rows) + csv_line(row));
    }
}

proof fn lemma_csv_text_is_header_and_lines(rows: Seq<SnapshotView>)
    ensures
        csv_text(rows) == csv_header() + csv_lines(rows),
    decreases rows.len(),
{
    if rows.len() == 0 {
        assert(csv_header() + csv_lines(rows) =~= csv_header());
    } else {
        let front = rows.drop_last();
        lemma_csv_text_is_header_and_lines(front);
        lemma_csv_lines_append(front, rows.last());
        assert(front.push(rows.last()) =~= rows);
        assert(csv_text(rows) =~= csv_header() + csv_lines(rows));
    }
}

/// Reads `n` records, one after the other.
pub open spec fn read_records(s: Seq<char>, n: nat) -> Seq<Seq<Seq<char>>>
    decreases n,
{
    if n == 0 {
        Seq::empty()
    } else {
        let (values, rest) = read_record(s, 11);
        seq![values] + read_records(rest, (n - 1) as nat)
    }
}

proof fn lemma_csv_lines_read_back(rows: Seq<SnapshotView>)
    ensures
        read_records(csv_lines(rows), rows.len()) == rows.map_values(
            |row: SnapshotView| record_values(row),
        ),
    decreases rows.len(),
{
    let values = rows.map_values(|row: SnapshotView| record_values(row));
    if rows.len() == 0 {
        assert(values =~= Seq::empty());
    } else {
        let more = rows.skip(1);
        lemma_csv_line_reads_back(rows[0], csv_lines(more));
        lemma_csv_lines_read_back(more);
        assert(values =~= seq![record_values(rows[0])] + more.map_values(
            |row: SnapshotView| record_values(row),
        ));
    }
}

/// An exported history reads back as its records: behind the header there is one for each,
/// in their order and with their values.
pub proof fn lemma_csv_text_reads_back(rows: Seq<SnapshotView>)
    ensures
        read_records(csv_text(rows).skip(csv_header().len() as int), rows.len())
            == rows.map_values(|row: SnapshotView| record_values(row)),
{
    lemma_csv_text_is_header_and_lines(rows);
    assert(csv_text(rows).skip(csv_header().len() as int) =~= csv_lines(rows));
    lemma_csv_lines_read_back(rows);
}

/// The history forgets as little as it may: it holds all that was ever added while that is
/// within the bound, and else exactly as many records as the bound allows, the newest.
pub proof fn lemma_no_record_is_forgotten_early<T>(records: Seq<T>, more: Seq<T>, i: int)
    ensures
        ({
            let all = records + more;
            let kept = extended(records, more);
            &&& all.len() <= 18000 ==> kept.len() == all.len()
            &&& all.len() > 18000 ==> kept.len() == 18000
            &&& 0 <= i < kept.len() ==> kept[kept.len() - 1 - i] == all[all.len() - 1 - i]
        }),
{
}

/// A value without commas, quotes and line feeds is written as it is.
pub proof fn lemma_plain_field_is_unchanged(value: Seq<char>)
    requires
        forall|i: int|
            0 <= i < value.len() ==> #[trigger] value[i] != ',' && value[i] != '"' && value[i]
                != '\n',
    ensures
        csv_field(value) == value,
{
}

/// The columns of an exported line are those of its record, each in its place: numbers read
/// back as the numbers, and names and addresses as they are.
pub proof fn lemma_csv_columns(row: SnapshotView, rest: Seq<char>)
    ensures
        ({
            let v = read_record(csv_line(row) + rest, 11).0;
            &&& v.len() == 11
            &&& row.timestamp_unix >= 0 ==> number_of(v[0], 10, u64::MAX as nat) == Some(
                row.timestamp_unix as nat,
            )
            &&& row.timestamp_unix < 0 ==> v[0][0] == '-' && number_of(
                v[0].skip(1),
                10,
                u64::MAX as nat,
            ) == Some((-row.timestamp_unix) as nat)
            &&& match row.pid {
                Some(pid) => number_of(v[1], 10, u64::MAX as nat) == Some(pid as nat),
                None => v[1].len() == 0,
            }
            &&& match row.process_name {
                Some(name) => v[2] == name,
                None => v[2].len() == 0,
            }
            &&& match row.username {
                Some(name) => v[3] == name,
                None => v[3].len() == 0,
            }
            &&& v[4] == row.src_ip
            &&& number_of(v[5], 10, u64::MAX as nat) == Some(row.src_port as nat)
            &&& v[6] == row.dst_ip
            &&& number_of(v[7], 10, u64::MAX as nat) == Some(row.dst_port as nat)
            &&& v[8] == row.protocol
            &&& number_of(v[9], 10, u64::MAX as nat) == Some(row.bytes_in_per_sec as nat)
            &&& number_of(v[10], 10, u64::MAX as nat) == Some(row.bytes_out_per_sec as nat)
            &&& read_record(csv_line(row) + rest, 11).1 == rest
        }),
{
    lemma_csv_line_reads_back(row, rest);
    let max = u64::MAX as nat;
    if row.timestamp_unix >= 0 {
        lemma_decimal_reads_back(row.timestamp_unix as nat, max);
    } else {
        let d = decimal((-row.timestamp_unix) as nat);
        lemma_decimal_reads_back((-row.timestamp_unix) as nat, max);
        assert((seq!['-'] + d).skip(1) =~= d);
    }
    if let Some(pid) = row.pid {
        lemma_decimal_reads_back(pid as nat, max);
    }
    lemma_decimal_reads_back(row.src_port as nat, max);
    lemma_decimal_reads_back(row.dst_port as nat, max);
    lemma_decimal_reads_back(row.bytes_in_per_sec as nat, max);
    lemma_decimal_reads_back(row.bytes_out_per_sec as nat, max);
}

} // verus!
