//! The report of a snapshot for the terminal.

use vstd::prelude::*;

use crate::clock::local_now;
use crate::data::{rows_of, ConnectionSnapshot, SnapshotView};
use crate::number::{decimal, push_decimal};
use crate::text::{lemma_occurs_between, occurs, texts};

verus! {

/// How a row's process is shown.
pub open spec fn process_label(row: SnapshotView) -> Seq<char> {
    match (row.process_name, row.pid, row.username) {
        (Some(name), Some(pid), Some(user)) => name + " (PID "@ + decimal(pid as nat) + ", user "@
            + user + ")"@,
        _ => "unknown (unattributed)"@,
    }
}

/// How a row is shown.
pub open spec fn row_text(row: SnapshotView) -> Seq<char> {
    "  "@ + process_label(row) + "  "@ + row.src_ip + ":"@ + decimal(row.src_port as nat) + " -> "@
        + row.dst_ip + ":"@ + decimal(row.dst_port as nat) + "  "@ + row.protocol + "  in="@
        + decimal(row.bytes_in_per_sec as nat) + " B/s out="@ + decimal(
        row.bytes_out_per_sec as nat,
    ) + " B/s"@
}

/// The heading of a report.
pub open spec fn heading_text(time: Seq<char>, rows: nat) -> Seq<char> {
    "["@ + time + "] "@ + decimal(rows) + " active connections"@
}

/// The heading, and a line for each row.
pub open spec fn report_text(time: Seq<char>, rows: Seq<SnapshotView>) -> Seq<Seq<char>> {
    seq![heading_text(time, rows.len())] + rows.map_values(|row: SnapshotView| row_text(row))
}

fn label_of(row: &ConnectionSnapshot) -> (label: String)
    ensures
        label@ == process_label(row@),
{
    match (&row.process_name, row.pid, &row.username) {
        (Some(name), Some(pid), Some(user)) => {
            let mut label: String = name.clone();
            label.append(" (PID ");
            push_decimal(&mut label, pid as u64);
            label.append(", user ");
            label.append(user.as_str());
            label.append(")");
            label
        },
        _ => "unknown (unattributed)".to_owned(),
    }
}

fn row_line(row: &ConnectionSnapshot) -> (line: String)
    ensures
        line@ == row_text(row@),
{
    let mut line: String = "  ".to_owned();
    line.append(label_of(row).as_str());
    line.append("  ");
    line.append(row.src_ip.as_str());
    line.append(":");
    push_decimal(&mut line, row.src_port as u64);
    line.append(" -> ");
    line.append(row.dst_ip.as_str());
    line.append(":");
    push_decimal(&mut line, row.dst_port as u64);
    line.append("  ");
    line.append(row.protocol.as_str());
    line.append("  in=");
    push_decimal(&mut line, row.bytes_in_per_sec);
    line.append(" B/s out=");
    push_decimal(&mut line, row.bytes_out_per_sec);
    line.append(" B/s");
    line
}

/// The report of a snapshot that was taken at the given time.
pub fn report_at(time: &str, rows: &[ConnectionSnapshot]) -> (report: Vec<String>)
    ensures
        texts(report@) == report_text(time@, rows_of(rows@)),
{
    let mut heading: String = "[".to_owned();
    heading.append(time);
    heading.append("] ");
    push_decimal(&mut heading, rows.len() as u64);
    heading.append(" active connections");
    let mut report: Vec<String> = Vec::new();
    report.push(heading);
    let ghost whole = report_text(time@, rows_of(rows@));
    let mut i: usize = 0;
    assert(texts(report@) =~= whole.take(1));
    while i < rows.len()
        invariant
            i <= rows.len(),
            whole == report_text(time@, rows_of(rows@)),
            texts(report@) == whole.take(i + 1),
        decreases rows.len() - i,
    {
        let line = row_line(&rows[i]);
        let ghost before = texts(report@);
        report.push(line);
        assert(whole[i + 1] == row_text(rows@[i as int]@));
        assert(texts(report@) =~= before.push(line@));
        assert(whole.take(i + 2) =~= whole.take(i + 1).push(whole[i + 1]));
        i = i + 1;
    }
    assert(whole.take(i + 1) =~= whole);
    report
}

/// The report of a snapshot that is taken now.
pub fn report(rows: &[ConnectionSnapshot]) -> (report: Vec<String>)
    ensures
        exists|time: Seq<char>| texts(report@) == #[trigger] report_text(time, rows_of(rows@)),
{
    let time = local_now();
    report_at(time.as_str(), rows)
}

proof fn lemma_parts_occur(a: Seq<char>, b: Seq<char>, c: Seq<char>, s: Seq<char>)
    requires
        s == a + b + c,
    ensures
        occurs(s, b),
{
    lemma_occurs_between(s, b, a, c);
}

/// A report has a heading and one line for each row, in their order, which depends on that
/// row alone.
pub proof fn lemma_report_has_a_line_per_row(
    time: Seq<char>,
    rows: Seq<SnapshotView>,
    other: Seq<char>,
    more: Seq<SnapshotView>,
    i: int,
    j: int,
)
    requires
        0 <= i < rows.len(),
        0 <= j < more.len(),
        rows[i] == more[j],
    ensures
        report_text(time, rows).len() == rows.len() + 1,
        report_text(time, rows)[i + 1] == report_text(other, more)[j + 1],
        occurs(report_text(time, rows)[0], time),
        occurs(report_text(time, rows)[0], decimal(rows.len()) + " active connections"@),
{
    let heading = heading_text(time, rows.len());
    let d = decimal(rows.len());
    let end = " active connections"@;
    assert(heading =~= "["@ + time + ("] "@ + d + end));
    lemma_parts_occur("["@, time, "] "@ + d + end, heading);
    assert(heading =~= ("["@ + time + "] "@) + (d + end) + Seq::empty());
    lemma_parts_occur("["@ + time + "] "@, d + end, Seq::empty(), heading);
}

/// The line of a row shows the sender before the receiver, each with its own port, then the
/// protocol, the bytes in and the bytes out, and the process that has it if its name, its
/// id and its user are all known.
pub proof fn lemma_line_shows_the_row(row: SnapshotView)
    ensures
        occurs(
            row_text(row),
            row.src_ip + ":"@ + decimal(row.src_port as nat) + " -> "@ + row.dst_ip + ":"@
                + decimal(row.dst_port as nat) + "  "@ + row.protocol,
        ),
        ("in="@ + decimal(row.bytes_in_per_sec as nat) + " B/s out="@ + decimal(
            row.bytes_out_per_sec as nat,
        ) + " B/s"@).is_suffix_of(row_text(row)),
        row.process_name is Some && row.pid is Some && row.username is Some ==> (
        row.process_name->0 + " (PID "@ + decimal(row.pid->0 as nat) + ", user "@
            + row.username->0 + ")"@).is_prefix_of(row_text(row).skip(2)),
        row.process_name is None || row.pid is None || row.username is None
            ==> "unknown (unattributed)"@.is_prefix_of(row_text(row).skip(2)),
{
    reveal_strlit("  ");
    let text = row_text(row);
    let label = process_label(row);
    let ends = row.src_ip + ":"@ + decimal(row.src_port as nat) + " -> "@ + row.dst_ip + ":"@
        + decimal(row.dst_port as nat) + "  "@ + row.protocol;
    let bytes = "in="@ + decimal(row.bytes_in_per_sec as nat) + " B/s out="@ + decimal(
        row.bytes_out_per_sec as nat,
    ) + " B/s"@;
    assert("  in="@ =~= "  "@ + "in="@) by {
        reveal_strlit("  in=");
        reveal_strlit("in=");
    }
    assert(text =~= ("  "@ + label + "  "@) + ends + ("  "@ + bytes));
    lemma_parts_occur("  "@ + label + "  "@, ends, "  "@ + bytes, text);
    assert(bytes =~= text.subrange(text.len() - bytes.len(), text.len() as int));
    assert(label =~= text.skip(2).subrange(0, label.len() as int));
}

} // verus!
