//! Alerts when the traffic of a second exceeds a threshold.

use vstd::prelude::*;

use crate::aggregate::{all_totals, capped, lemma_all_totals_add_up};
use crate::data::{rows_of, AlertEvent, ConnectionSnapshot, SnapshotView};
use crate::number::{decimal, lemma_decimal_is_word, push_decimal};
use crate::text::{is_word, joined, lemma_words_of_joined, words};

verus! {

/// The bytes of all rows, in and out together, up to the largest `u64`.
pub open spec fn traffic(rows: Seq<SnapshotView>) -> nat {
    capped(all_totals(rows).bytes_in + all_totals(rows).bytes_out, u64::MAX as nat)
}

/// What an alert says.
pub open spec fn alert_message(total: u64, threshold: u64) -> Seq<char> {
    "ALERT: traffic "@ + decimal(total as nat) + "B/s exceeds threshold "@ + decimal(
        threshold as nat,
    ) + "B/s"@
}

/// `alert` is the alert that the rows raise: none, unless they carry more than `threshold`
/// bytes together.
pub open spec fn is_alert(
    alert: Option<AlertEvent>,
    rows: Seq<SnapshotView>,
    threshold: u64,
) -> bool {
    match alert {
        Some(event) => {
            &&& traffic(rows) > threshold
            &&& rows.len() > 0
            &&& event.timestamp_unix == rows[0].timestamp_unix
            &&& event.total_bytes_per_sec == traffic(rows)
            &&& event.threshold == threshold
            &&& event.message@ == alert_message(event.total_bytes_per_sec, threshold)
        },
        None => traffic(rows) <= threshold,
    }
}

/// Raises an alert if the rows carry more than `threshold` bytes together.
pub fn check_alert(snapshots: &[ConnectionSnapshot], threshold: u64) -> (alert: Option<AlertEvent>)
    ensures
        is_alert(alert, rows_of(snapshots@), threshold),
{
    let ghost all = rows_of(snapshots@);
    let mut total: u64 = 0;
    let mut i: usize = 0;
    while i < snapshots.len()
        invariant
            i <= snapshots.len(),
            all == rows_of(snapshots@),
            total == traffic(all.take(i as int)),
        decreases snapshots.len() - i,
    {
        let s = &snapshots[i];
        assert(all.take(i + 1).drop_last() =~= all.take(i as int));
        assert(all.take(i + 1).last() == s@);
        total = total.saturating_add(s.bytes_in_per_sec.saturating_add(s.bytes_out_per_sec));
        i = i + 1;
    }
    assert(all.take(i as int) =~= all);
    if total > threshold {
        assert(snapshots@.len() > 0);
        let mut message: String = "ALERT: traffic ".to_owned();
        push_decimal(&mut message, total);
        message.append("B/s exceeds threshold ");
        push_decimal(&mut message, threshold);
        message.append("B/s");
        Some(
            AlertEvent {
                timestamp_unix: snapshots[0].timestamp_unix,
                total_bytes_per_sec: total,
                threshold,
                message,
            },
        )
    } else {
        None
    }
}

/// An alert is raised exactly if the bytes of all rows, in and out, exceed the threshold. It
/// says how many they are and what the threshold is, and has the time of the rows.
pub proof fn lemma_alert_is_raised_over_threshold(
    alert: Option<AlertEvent>,
    rows: Seq<SnapshotView>,
    threshold: u64,
)
    requires
        is_alert(alert, rows, threshold),
        all_totals(rows).bytes_in + all_totals(rows).bytes_out <= u64::MAX,
    ensures
        alert is Some <==> all_totals(rows).bytes_in + all_totals(rows).bytes_out > threshold,
        alert matches Some(event) ==> {
            &&& event.total_bytes_per_sec == all_totals(rows).bytes_in + all_totals(rows).bytes_out
            &&& event.threshold == threshold
            &&& rows.len() > 0 && event.timestamp_unix == rows[0].timestamp_unix
        },
{
}

/// More traffic or a lower threshold never takes an alert away.
pub proof fn lemma_more_traffic_still_alerts(
    rows: Seq<SnapshotView>,
    more: Seq<SnapshotView>,
    threshold: u64,
    lower: u64,
    first: Option<AlertEvent>,
    second: Option<AlertEvent>,
)
    requires
        lower <= threshold,
        is_alert(first, rows, threshold),
        is_alert(second, rows + more, lower),
    ensures
        first is Some ==> second is Some,
{
    if rows.len() > 0 {
        lemma_all_totals_add_up(rows, more, rows[0]);
    }
}

/// The message names the traffic before the threshold, each as one word with its unit.
pub proof fn lemma_alert_message_is_read(total: u64, threshold: u64)
    ensures
        words(alert_message(total, threshold)) == seq![
            "ALERT:"@,
            "traffic"@,
            decimal(total as nat) + "B/s"@,
            "exceeds"@,
            "threshold"@,
            decimal(threshold as nat) + "B/s"@,
        ],
{
    let a = decimal(total as nat) + "B/s"@;
    let b = decimal(threshold as nat) + "B/s"@;
    let w = seq!["ALERT:"@, "traffic"@, a, "exceeds"@, "threshold"@, b];
    lemma_decimal_is_word(total as nat);
    lemma_decimal_is_word(threshold as nat);
    assert(is_word("ALERT:"@) && is_word("traffic"@) && is_word("exceeds"@) && is_word(
        "threshold"@,
    ) && is_word("B/s"@)) by {
        reveal_strlit("ALERT:");
        reveal_strlit("traffic");
        reveal_strlit("exceeds");
        reveal_strlit("threshold");
        reveal_strlit("B/s");
    }
    assert(is_word(a) && is_word(b));
    assert(alert_message(total, threshold) == joined(w)) by {
        assert("ALERT: traffic "@ == "ALERT:"@ + seq![' '] + "traffic"@ + seq![' ']) by {
            reveal_strlit("ALERT: traffic ");
            reveal_strlit("ALERT:");
            reveal_strlit("traffic");
            assert("ALERT: traffic "@ =~= "ALERT:"@ + seq![' '] + "traffic"@ + seq![' ']);
        }
        assert("B/s exceeds threshold "@ == "B/s"@ + seq![' '] + "exceeds"@ + seq![' ']
            + "threshold"@ + seq![' ']) by {
            reveal_strlit("B/s exceeds threshold ");
            reveal_strlit("B/s");
            reveal_strlit("exceeds");
            reveal_strlit("threshold");
            assert("B/s exceeds threshold "@ =~= "B/s"@ + seq![' '] + "exceeds"@ + seq![' ']
                + "threshold"@ + seq![' ']);
        }
        reveal_with_fuel(joined, 6);
        assert(w.skip(1) =~= seq!["traffic"@, a, "exceeds"@, "threshold"@, b]);
        assert(w.skip(1).skip(1) =~= seq![a, "exceeds"@, "threshold"@, b]);
        assert(w.skip(1).skip(1).skip(1) =~= seq!["exceeds"@, "threshold"@, b]);
        assert(w.skip(1).skip(1).skip(1).skip(1) =~= seq!["threshold"@, b]);
        assert(w.skip(1).skip(1).skip(1).skip(1).skip(1) =~= seq![b]);
        assert(alert_message(total, threshold) =~= joined(w));
    }
    lemma_words_of_joined(w);
}

} // verus!
