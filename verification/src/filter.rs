//! Keeping the connections that an address and a port select.

use vstd::prelude::*;

use crate::data::{rows_of, ConnectionSnapshot, SnapshotView};
use crate::text::same_text;

verus! {

/// The text of an optional string slice.
pub open spec fn opt_str(s: Option<&str>) -> Option<Seq<char>> {
    match s {
        Some(s) => Some(s@),
        None => None,
    }
}

/// Whether a connection has the address at one of its ends, and the port at one of its
/// ends; a missing address or port selects everything.
pub open spec fn selects(ip: Option<Seq<char>>, port: Option<u16>, row: SnapshotView) -> bool {
    &&& match ip {
        Some(ip) => row.src_ip == ip || row.dst_ip == ip,
        None => true,
    }
    &&& match port {
        Some(port) => row.src_port == port || row.dst_port == port,
        None => true,
    }
}

/// The selected connections, in their order.
pub open spec fn selected(
    rows: Seq<ConnectionSnapshot>,
    ip: Option<Seq<char>>,
    port: Option<u16>,
) -> Seq<ConnectionSnapshot> {
    rows.filter(|row: ConnectionSnapshot| selects(ip, port, row@))
}

/// The selected rows, in their order.
pub open spec fn selected_rows(
    rows: Seq<SnapshotView>,
    ip: Option<Seq<char>>,
    port: Option<u16>,
) -> Seq<SnapshotView> {
    rows.filter(|row: SnapshotView| selects(ip, port, row))
}

/// Keeps the connections that the filters select.
pub fn apply_filters(
    snapshots: Vec<ConnectionSnapshot>,
    filter_ip: Option<&str>,
    filter_port: Option<u16>,
) -> (kept: Vec<ConnectionSnapshot>)
    ensures
        kept@ == selected(snapshots@, opt_str(filter_ip), filter_port),
{
    let ghost ip = opt_str(filter_ip);
    let ghost keep = |row: ConnectionSnapshot| selects(ip, filter_port, row@);
    if filter_ip.is_none() && filter_port.is_none() {
        proof {
            lemma_no_filter_keeps_all(snapshots@);
        }
        return snapshots;
    }
    let ghost all = snapshots@;
    let mut kept: Vec<ConnectionSnapshot> = Vec::new();
    assert(all.take(0).filter(keep) =~= Seq::empty()) by {
        reveal(Seq::filter);
    }
    for conn in it: snapshots
        invariant
            it.seq() == all,
            ip == opt_str(filter_ip),
            keep == (|row: ConnectionSnapshot| selects(ip, filter_port, row@)),
            kept@ == all.take(it.index() as int).filter(keep),
    {
        let ip_match = match filter_ip {
            Some(ip) => same_text(conn.src_ip.as_str(), ip) || same_text(conn.dst_ip.as_str(), ip),
            None => true,
        };
        let port_match = match filter_port {
            Some(port) => conn.src_port == port || conn.dst_port == port,
            None => true,
        };
        proof {
            let i = it.index() as int;
            assert(all.take(i + 1).drop_last() =~= all.take(i));
            assert(all.take(i + 1).last() == conn);
            reveal(Seq::filter);
        }
        if ip_match && port_match {
            kept.push(conn);
        }
    }
    assert(all.take(all.len() as int) =~= all);
    kept
}

/// Which connections are kept depends on their views alone.
pub proof fn lemma_selected_rows(
    rows: Seq<ConnectionSnapshot>,
    ip: Option<Seq<char>>,
    port: Option<u16>,
)
    ensures
        rows_of(selected(rows, ip, port)) == selected_rows(rows_of(rows), ip, port),
    decreases rows.len(),
{
    reveal(Seq::filter);
    if rows.len() > 0 {
        let front = rows.drop_last();
        lemma_selected_rows(front, ip, port);
        assert(rows_of(rows).drop_last() =~= rows_of(front));
        assert(rows_of(rows).last() == rows.last()@);
    }
    assert(rows_of(selected(rows, ip, port)) =~= selected_rows(rows_of(rows), ip, port));
}

/// Without filters every connection is kept.
pub proof fn lemma_no_filter_keeps_all(rows: Seq<ConnectionSnapshot>)
    ensures
        selected(rows, None, None) == rows,
    decreases rows.len(),
{
    reveal(Seq::filter);
    if rows.len() > 0 {
        lemma_no_filter_keeps_all(rows.drop_last());
        assert(rows =~= rows.drop_last().push(rows.last()));
    }
}

/// Filtering by address and by port at once is filtering by one and then by the other.
pub proof fn lemma_filters_compose(
    rows: Seq<ConnectionSnapshot>,
    ip: Option<Seq<char>>,
    port: Option<u16>,
)
    ensures
        selected(selected(rows, ip, None), None, port) == selected(rows, ip, port),
    decreases rows.len(),
{
    reveal(Seq::filter);
    if rows.len() > 0 {
        let front = rows.drop_last();
        let row = rows.last();
        lemma_filters_compose(front, ip, port);
        if selects(ip, None, row@) {
            let kept = selected(front, ip, None).push(row);
            assert(selected(rows, ip, None) == kept);
            assert(kept.drop_last() =~= selected(front, ip, None));
            assert(kept.last() == row);
        }
    }
}

/// What was filtered once stays as it is when the same filters are applied again.
pub proof fn lemma_filters_idempotent(
    rows: Seq<ConnectionSnapshot>,
    ip: Option<Seq<char>>,
    port: Option<u16>,
)
    ensures
        selected(selected(rows, ip, port), ip, port) == selected(rows, ip, port),
    decreases rows.len(),
{
    reveal(Seq::filter);
    if rows.len() > 0 {
        let front = rows.drop_last();
        let row = rows.last();
        lemma_filters_idempotent(front, ip, port);
        if selects(ip, port, row@) {
            let kept = selected(front, ip, port).push(row);
            assert(kept.drop_last() =~= selected(front, ip, port));
            assert(kept.last() == row);
        }
    }
}

/// A port alone selects exactly the connections that have it at one of their ends, and an
/// address alone exactly those that have it at one of their ends, whatever else they are.
pub proof fn lemma_either_end_is_enough(ip: Seq<char>, port: u16, row: SnapshotView)
    ensures
        selects(None, Some(port), row) <==> row.src_port == port || row.dst_port == port,
        selects(Some(ip), None, row) <==> row.src_ip == ip || row.dst_ip == ip,
        selects(Some(ip), Some(port), row) <==> (row.src_ip == ip || row.dst_ip == ip) && (
        row.src_port == port || row.dst_port == port),
        selects(None, None, row),
{
}

/// The choice does not change if the two ends of a connection are exchanged, nor with its
/// protocol, its owner, its bytes or its time.
pub proof fn lemma_only_the_ends_matter(
    ip: Option<Seq<char>>,
    port: Option<u16>,
    a: SnapshotView,
    b: SnapshotView,
)
    requires
        (a.src_ip == b.src_ip && a.dst_ip == b.dst_ip && a.src_port == b.src_port && a.dst_port
            == b.dst_port) || (a.src_ip == b.dst_ip && a.dst_ip == b.src_ip && a.src_port
            == b.dst_port && a.dst_port == b.src_port),
    ensures
        selects(ip, port, a) == selects(ip, port, b),
{
}

/// Exactly the connections with the address and the port at their ends are kept, each as
/// often as it was there.
pub proof fn lemma_kept_exactly_if_selected(
    rows: Seq<ConnectionSnapshot>,
    ip: Seq<char>,
    port: u16,
    row: ConnectionSnapshot,
)
    ensures
        selected(rows, None, Some(port)).contains(row) <==> rows.contains(row) && (row.src_port
            == port || row.dst_port == port),
        selected(rows, Some(ip), None).contains(row) <==> rows.contains(row) && (row.src_ip@ == ip
            || row.dst_ip@ == ip),
        selected(rows, Some(ip), Some(port)).contains(row) <==> rows.contains(row) && (row.src_ip@
            == ip || row.dst_ip@ == ip) && (row.src_port == port || row.dst_port == port),
{
    lemma_filter_contains(rows, |r: ConnectionSnapshot| selects(None, Some(port), r@), row);
    lemma_filter_contains(rows, |r: ConnectionSnapshot| selects(Some(ip), None, r@), row);
    lemma_filter_contains(rows, |r: ConnectionSnapshot| selects(Some(ip), Some(port), r@), row);
}

/// What is in a filtered sequence: the elements that pass.
pub proof fn lemma_filter_contains<T>(s: Seq<T>, keep: spec_fn(T) -> bool, x: T)
    ensures
        s.filter(keep).contains(x) <==> s.contains(x) && keep(x),
    decreases s.len(),
{
    reveal(Seq::filter);
    if s.len() > 0 {
        let front = s.drop_last();
        let kept = front.filter(keep);
        lemma_filter_contains(front, keep, x);
        assert(s[s.len() - 1] == s.last());
        if front.contains(x) {
            let i = choose|i: int| 0 <= i < front.len() && front[i] == x;
            assert(s[i] == x);
        }
        if s.contains(x) && x != s.last() {
            let i = choose|i: int| 0 <= i < s.len() && s[i] == x;
            assert(front[i] == x);
        }
        if keep(s.last()) {
            let all = kept.push(s.last());
            assert(all[all.len() - 1] == s.last());
            if kept.contains(x) {
                let i = choose|i: int| 0 <= i < kept.len() && kept[i] == x;
                assert(all[i] == x);
            }
            if all.contains(x) && x != s.last() {
                let i = choose|i: int| 0 <= i < all.len() && all[i] == x;
                assert(kept[i] == x);
            }
        }
    }
}

/// The rows of two stretches are filtered one after the other, so that the kept ones stay
/// in their order and none depends on another.
pub proof fn lemma_filters_append(
    a: Seq<ConnectionSnapshot>,
    b: Seq<ConnectionSnapshot>,
    ip: Option<Seq<char>>,
    port: Option<u16>,
)
    ensures
        selected(a + b, ip, port) == selected(a, ip, port) + selected(b, ip, port),
    decreases b.len(),
{
    reveal(Seq::filter);
    if b.len() == 0 {
        assert(a + b =~= a);
        assert(selected(a, ip, port) + selected(b, ip, port) =~= selected(a, ip, port));
    } else {
        lemma_filters_append(a, b.drop_last(), ip, port);
        assert((a + b).drop_last() =~= a + b.drop_last());
        assert(selected(a + b, ip, port) =~= selected(a, ip, port) + selected(b, ip, port));
    }
}

/// An optional text is seen as it is.
pub proof fn lemma_optional_text_is_seen(s: &str)
    ensures
        opt_str(Some(s)) == Some(s@),
        opt_str(None) is None,
{
}

} // verus!
