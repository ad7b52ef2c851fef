//! Network addresses and their text form.

use vstd::prelude::*;

use crate::number::{
    decimal, digit_worth, lemma_decimal_reads_back, lemma_numeral_is_read, lemma_numeral_value,
    number_of, numeral, push_decimal, push_numeral,
};
use crate::text::{fields, is_field, lemma_fields_join, lemma_single_field};

verus! {

/// An IPv4 or IPv6 address, its bytes in network order.
#[derive(Clone, Copy, Debug)]
pub enum IpAddress {
    V4([u8; 4]),
    V6([u8; 16]),
}

impl View for IpAddress {
    type V = Seq<u8>;

    open spec fn view(&self) -> Seq<u8> {
        match self {
            IpAddress::V4(b) => b@,
            IpAddress::V6(b) => b@,
        }
    }
}

/// An IPv4 address in dotted decimal.
pub open spec fn v4_text(b: Seq<u8>) -> Seq<char> {
    decimal(b[0] as nat) + "."@ + decimal(b[1] as nat) + "."@ + decimal(b[2] as nat) + "."@
        + decimal(b[3] as nat)
}

/// The eight 16-bit groups of an IPv6 address.
pub open spec fn v6_groups(b: Seq<u8>) -> Seq<u16> {
    Seq::new(8, |i: int| (b[2 * i] * 256 + b[2 * i + 1]) as u16)
}

/// How many groups in a row are zero from position `i` on.
pub open spec fn zero_run(groups: Seq<u16>, i: int) -> nat
    decreases groups.len() - i,
{
    if 0 <= i < groups.len() && groups[i] == 0 {
        1 + zero_run(groups, i + 1)
    } else {
        0
    }
}

/// Among the positions before `end`, the first one at which the longest run of zero
/// groups begins, and its length.
pub open spec fn longest_zero_run(groups: Seq<u16>, end: nat) -> (nat, nat)
    decreases end,
{
    if end == 0 {
        (0, 0)
    } else {
        let (start, len) = longest_zero_run(groups, (end - 1) as nat);
        let run = zero_run(groups, end - 1);
        if run > len {
            ((end - 1) as nat, run)
        } else {
            (start, len)
        }
    }
}

/// Groups in hexadecimal, with colons between them.
pub open spec fn groups_text(groups: Seq<u16>) -> Seq<char>
    decreases groups.len(),
{
    if groups.len() == 0 {
        Seq::empty()
    } else if groups.len() == 1 {
        numeral(groups[0] as nat, 16)
    } else {
        groups_text(groups.drop_last()) + ":"@ + numeral(groups.last() as nat, 16)
    }
}

/// Whether an IPv6 address stands for an IPv4 address.
pub open spec fn is_v4_mapped(b: Seq<u8>) -> bool {
    &&& forall|i: int| 0 <= i < 10 ==> b[i] == 0
    &&& b[10] == 255
    &&& b[11] == 255
}

/// An IPv6 address in its canonical form: the first longest run of at least two zero
/// groups is written as `::`, and a mapped IPv4 address is written in dotted decimal.
pub open spec fn v6_text(b: Seq<u8>) -> Seq<char> {
    if is_v4_mapped(b) {
        "::ffff:"@ + v4_text(b.skip(12))
    } else {
        let groups = v6_groups(b);
        let (start, len) = longest_zero_run(groups, 8);
        if len > 1 {
            groups_text(groups.take(start as int)) + "::"@ + groups_text(
                groups.skip((start + len) as int),
            )
        } else {
            groups_text(groups)
        }
    }
}

/// The text form of an address.
pub open spec fn address_text(ip: IpAddress) -> Seq<char> {
    match ip {
        IpAddress::V4(b) => v4_text(b@),
        IpAddress::V6(b) => v6_text(b@),
    }
}

fn push_v4(out: &mut String, a: u8, b: u8, c: u8, d: u8)
    ensures
        final(out)@ == old(out)@ + v4_text(seq![a, b, c, d]),
{
    let mut dotted: String = String::new();
    push_decimal(&mut dotted, a as u64);
    assert(dotted@ =~= decimal(a as nat));
    dotted.append(".");
    push_decimal(&mut dotted, b as u64);
    dotted.append(".");
    push_decimal(&mut dotted, c as u64);
    dotted.append(".");
    push_decimal(&mut dotted, d as u64);
    out.append(dotted.as_str());
}

/// Appends `groups[from..to]` in hexadecimal.
fn push_groups(out: &mut String, groups: &Vec<u16>, from: usize, to: usize)
    requires
        from <= to <= groups@.len(),
    ensures
        final(out)@ == old(out)@ + groups_text(groups@.subrange(from as int, to as int)),
{
    let mut i: usize = from;
    assert(out@ + groups_text(groups@.subrange(from as int, from as int)) =~= out@);
    while i < to
        invariant
            from <= i <= to <= groups@.len(),
            out@ == old(out)@ + groups_text(groups@.subrange(from as int, i as int)),
        decreases to - i,
    {
        let ghost before = groups@.subrange(from as int, i as int);
        let ghost now = groups@.subrange(from as int, i + 1);
        assert(now.drop_last() =~= before);
        assert(now.last() == groups@[i as int]);
        if i > from {
            out.append(":");
        }
        push_numeral(out, groups[i] as u64, 16);
        assert(out@ =~= old(out)@ + groups_text(now));
        i = i + 1;
    }
}

/// The length of the run of zero groups at `i`.
fn run_at(groups: &Vec<u16>, i: usize) -> (len: usize)
    requires
        i <= groups@.len(),
    ensures
        len == zero_run(groups@, i as int),
        i + len <= groups@.len(),
{
    let mut j: usize = i;
    while j < groups.len() && groups[j] == 0
        invariant
            i <= j <= groups@.len(),
            zero_run(groups@, i as int) == j - i + zero_run(groups@, j as int),
        decreases groups.len() - j,
    {
        j = j + 1;
    }
    j - i
}

fn v6_string(b: &[u8; 16]) -> (out: String)
    ensures
        out@ == v6_text(b@),
{
    let mut out: String = String::new();
    let mut zeros: usize = 0;
    while zeros < 10 && b[zeros] == 0
        invariant
            zeros <= 10,
            forall|i: int| 0 <= i < zeros ==> b@[i] == 0,
        decreases 10 - zeros,
    {
        zeros = zeros + 1;
    }
    if zeros == 10 && b[10] == 255 && b[11] == 255 {
        assert(is_v4_mapped(b@));
        out.append("::ffff:");
        push_v4(&mut out, b[12], b[13], b[14], b[15]);
        assert(b@.skip(12) =~= seq![b@[12], b@[13], b@[14], b@[15]]);
        assert(out@ =~= v6_text(b@));
        return out;
    }
    assert(!is_v4_mapped(b@));
    let mut groups: Vec<u16> = Vec::new();
    let mut k: usize = 0;
    while k < 8
        invariant
            k <= 8,
            groups@.len() == k,
            forall|i: int| 0 <= i < k ==> groups@[i] == v6_groups(b@)[i],
        decreases 8 - k,
    {
        groups.push((b[2 * k] as u16) * 256 + (b[2 * k + 1] as u16));
        k = k + 1;
    }
    assert(groups@ =~= v6_groups(b@));
    let mut start: usize = 0;
    let mut len: usize = 0;
    let mut i: usize = 0;
    while i < 8
        invariant
            i <= 8,
            groups@.len() == 8,
            longest_zero_run(groups@, i as nat) == (start as nat, len as nat),
            start + len <= 8,
        decreases 8 - i,
    {
        let run = run_at(&groups, i);
        if run > len {
            start = i;
            len = run;
        }
        i = i + 1;
    }
    if len > 1 {
        push_groups(&mut out, &groups, 0, start);
        out.append("::");
        push_groups(&mut out, &groups, start + len, 8);
        assert(groups@.subrange(0, start as int) =~= groups@.take(start as int));
        assert(groups@.subrange(start + len, 8) =~= groups@.skip(start + len));
        assert(out@ =~= v6_text(b@));
    } else {
        push_groups(&mut out, &groups, 0, 8);
        assert(groups@.subrange(0, 8) =~= groups@);
        assert(out@ =~= v6_text(b@));
    }
    out
}

fn same_bytes(a: &[u8], b: &[u8]) -> (same: bool)
    ensures
        same == (a@ == b@),
{
    if a.len() != b.len() {
        return false;
    }
    let mut i: usize = 0;
    while i < a.len()
        invariant
            i <= a.len(),
            a@.len() == b@.len(),
            forall|k: int| 0 <= k < i ==> a@[k] == b@[k],
        decreases a.len() - i,
    {
        if a[i] != b[i] {
            return false;
        }
        i = i + 1;
    }
    assert(a@ =~= b@);
    true
}

impl IpAddress {
    /// The text form of the address.
    pub fn text(&self) -> (out: String)
        ensures
            out@ == address_text(*self),
    {
        match self {
            IpAddress::V4(b) => {
                let mut out: String = String::new();
                push_v4(&mut out, b[0], b[1], b[2], b[3]);
                assert(b@ =~= seq![b@[0], b@[1], b@[2], b@[3]]);
                assert(out@ =~= v4_text(b@));
                out
            },
            IpAddress::V6(b) => v6_string(b),
        }
    }

    /// Whether the two addresses are the same.
    pub fn same(&self, other: &IpAddress) -> (same: bool)
        ensures
            same == (self@ == other@),
    {
        match (self, other) {
            (IpAddress::V4(a), IpAddress::V4(b)) => same_bytes(a.as_slice(), b.as_slice()),
            (IpAddress::V6(a), IpAddress::V6(b)) => same_bytes(a.as_slice(), b.as_slice()),
            (IpAddress::V4(a), IpAddress::V6(b)) => {
                assert(a@.len() == 4 && b@.len() == 16);
                false
            },
            (IpAddress::V6(a), IpAddress::V4(b)) => {
                assert(a@.len() == 16 && b@.len() == 4);
                false
            },
        }
    }
}

/// Whether the address is one of `addresses`.
pub open spec fn is_among(addresses: Seq<IpAddress>, ip: IpAddress) -> bool {
    exists|i: int| 0 <= i < addresses.len() && (#[trigger] addresses[i])@ == ip@
}

/// Whether the address is one of `addresses`.
pub fn among(addresses: &Vec<IpAddress>, ip: &IpAddress) -> (found: bool)
    ensures
        found == is_among(addresses@, *ip),
{
    let mut i: usize = 0;
    while i < addresses.len()
        invariant
            i <= addresses.len(),
            forall|k: int| 0 <= k < i ==> (#[trigger] addresses@[k])@ != ip@,
        decreases addresses.len() - i,
    {
        if addresses[i].same(ip) {
            return true;
        }
        i = i + 1;
    }
    false
}

/// A numeral holds neither dots nor colons, and no two numbers have the same one.
proof fn lemma_numeral_is_plain(n: nat, radix: nat)
    requires
        2 <= radix <= 36,
    ensures
        numeral(n, radix).len() > 0,
        is_field(numeral(n, radix), '.'),
        is_field(numeral(n, radix), ':'),
{
    lemma_numeral_value(n, radix);
    let s = numeral(n, radix);
    assert forall|i: int| 0 <= i < s.len() implies #[trigger] s[i] != '.' && s[i] != ':' by {
        assert(digit_worth(s[i]) < radix);
    }
}

proof fn lemma_numeral_injective(a: nat, b: nat, radix: nat)
    requires
        2 <= radix <= 36,
        numeral(a, radix) == numeral(b, radix),
    ensures
        a == b,
{
    lemma_numeral_value(a, radix);
    lemma_numeral_value(b, radix);
}

proof fn lemma_v4_fields(b: Seq<u8>)
    requires
        b.len() == 4,
    ensures
        fields(v4_text(b), '.') == seq![
            decimal(b[0] as nat),
            decimal(b[1] as nat),
            decimal(b[2] as nat),
            decimal(b[3] as nat),
        ],
        is_field(v4_text(b), ':'),
        exists|i: int| 0 <= i < v4_text(b).len() && #[trigger] v4_text(b)[i] == '.',
{
    reveal_strlit(".");
    let dot = "."@;
    assert(dot =~= seq!['.']);
    let d0 = decimal(b[0] as nat);
    let d1 = decimal(b[1] as nat);
    let d2 = decimal(b[2] as nat);
    let d3 = decimal(b[3] as nat);
    lemma_numeral_is_plain(b[0] as nat, 10);
    lemma_numeral_is_plain(b[1] as nat, 10);
    lemma_numeral_is_plain(b[2] as nat, 10);
    lemma_numeral_is_plain(b[3] as nat, 10);
    lemma_single_field(d0, '.');
    lemma_single_field(d1, '.');
    lemma_single_field(d2, '.');
    lemma_single_field(d3, '.');
    let t1 = d0 + dot + d1;
    let t2 = t1 + dot + d2;
    lemma_fields_join(d0, d1, '.');
    lemma_fields_join(t1, d2, '.');
    lemma_fields_join(t2, d3, '.');
    assert(v4_text(b) == t2 + dot + d3);
    assert(fields(v4_text(b), '.') =~= seq![d0, d1, d2, d3]);
    assert(v4_text(b)[d0.len() as int] == '.');
}

proof fn lemma_v4_text_injective(a: Seq<u8>, b: Seq<u8>)
    requires
        a.len() == 4,
        b.len() == 4,
        v4_text(a) == v4_text(b),
    ensures
        a == b,
{
    lemma_v4_fields(a);
    lemma_v4_fields(b);
    let f = fields(v4_text(a), '.');
    assert forall|i: int| 0 <= i < 4 implies a[i] == b[i] by {
        assert(f[i] == decimal(a[i] as nat));
        assert(f[i] == decimal(b[i] as nat));
        lemma_numeral_injective(a[i] as nat, b[i] as nat, 10);
    }
    assert(a =~= b);
}

/// The groups in hexadecimal.
spec fn group_numerals(groups: Seq<u16>) -> Seq<Seq<char>> {
    groups.map_values(|g: u16| numeral(g as nat, 16))
}

proof fn lemma_groups_fields(groups: Seq<u16>)
    requires
        groups.len() > 0,
    ensures
        fields(groups_text(groups), ':') == group_numerals(groups),
    decreases groups.len(),
{
    let last = groups.last();
    lemma_numeral_is_plain(last as nat, 16);
    lemma_single_field(numeral(last as nat, 16), ':');
    if groups.len() == 1 {
        assert(group_numerals(groups) =~= seq![numeral(groups[0] as nat, 16)]);
    } else {
        reveal_strlit(":");
        assert(":"@ =~= seq![':']);
        lemma_groups_fields(groups.drop_last());
        lemma_fields_join(groups_text(groups.drop_last()), numeral(last as nat, 16), ':');
        assert(group_numerals(groups) =~= group_numerals(groups.drop_last()).push(
            numeral(last as nat, 16),
        ));
        assert(fields(groups_text(groups), ':') =~= group_numerals(groups));
    }
}

/// The fields of some groups of an address; no groups leave one empty field.
spec fn part_fields(groups: Seq<u16>) -> Seq<Seq<char>> {
    if groups.len() == 0 {
        seq![Seq::empty()]
    } else {
        group_numerals(groups)
    }
}

proof fn lemma_part_fields(groups: Seq<u16>)
    ensures
        fields(groups_text(groups), ':') == part_fields(groups),
{
    if groups.len() == 0 {
        lemma_single_field(Seq::empty(), ':');
    } else {
        lemma_groups_fields(groups);
    }
}

proof fn lemma_compressed_fields(left: Seq<u16>, right: Seq<u16>)
    ensures
        fields(groups_text(left) + "::"@ + groups_text(right), ':') == part_fields(left)
            + seq![Seq::empty()] + part_fields(right),
{
    reveal_strlit("::");
    let l = groups_text(left);
    let r = groups_text(right);
    lemma_part_fields(left);
    lemma_part_fields(right);
    lemma_single_field(Seq::empty(), ':');
    lemma_fields_join(Seq::empty(), r, ':');
    let tail = Seq::<char>::empty() + seq![':'] + r;
    lemma_fields_join(l, tail, ':');
    assert(l + "::"@ + r =~= l + seq![':'] + tail);
    assert(fields(l + "::"@ + r, ':') =~= part_fields(left) + seq![Seq::empty()] + part_fields(
        right,
    ));
}

proof fn lemma_zero_run(groups: Seq<u16>, i: int)
    requires
        0 <= i <= groups.len(),
    ensures
        i + zero_run(groups, i) <= groups.len(),
        forall|k: int| i <= k < i + zero_run(groups, i) ==> groups[k] == 0,
    decreases groups.len() - i,
{
    if i < groups.len() && groups[i] == 0 {
        lemma_zero_run(groups, i + 1);
    }
}

proof fn lemma_longest_is_zeros(groups: Seq<u16>, end: nat)
    requires
        end <= groups.len(),
    ensures
        ({
            let (start, len) = longest_zero_run(groups, end);
            &&& start + len <= groups.len()
            &&& forall|k: int| start <= k < start + len ==> groups[k] == 0
        }),
    decreases end,
{
    if end > 0 {
        lemma_longest_is_zeros(groups, (end - 1) as nat);
        lemma_zero_run(groups, end - 1);
    }
}

/// The fields of an address that is not mapped, between colons.
proof fn lemma_v6_fields(b: Seq<u8>)
    requires
        b.len() == 16,
        !is_v4_mapped(b),
    ensures
        ({
            let groups = v6_groups(b);
            let (start, len) = longest_zero_run(groups, 8);
            &&& start + len <= 8
            &&& forall|k: int| start <= k < start + len ==> groups[k] == 0
            &&& fields(v6_text(b), ':') == if len > 1 {
                part_fields(groups.take(start as int)) + seq![Seq::empty()] + part_fields(
                    groups.skip((start + len) as int),
                )
            } else {
                group_numerals(groups)
            }
        }),
{
    let groups = v6_groups(b);
    let (start, len) = longest_zero_run(groups, 8);
    lemma_longest_is_zeros(groups, 8);
    lemma_groups_fields(groups);
    lemma_compressed_fields(groups.take(start as int), groups.skip((start + len) as int));
}

/// How many fields at the front are not empty.
spec fn front_count(f: Seq<Seq<char>>) -> nat
    decreases f.len(),
{
    if f.len() > 0 && f[0].len() > 0 {
        1 + front_count(f.skip(1))
    } else {
        0
    }
}

/// How many fields at the back are not empty.
spec fn back_count(f: Seq<Seq<char>>) -> nat
    decreases f.len(),
{
    if f.len() > 0 && f.last().len() > 0 {
        1 + back_count(f.drop_last())
    } else {
        0
    }
}

proof fn lemma_front_count(f: Seq<Seq<char>>, n: nat)
    requires
        n < f.len(),
        forall|i: int| 0 <= i < n ==> (#[trigger] f[i]).len() > 0,
        f[n as int].len() == 0,
    ensures
        front_count(f) == n,
    decreases n,
{
    if n > 0 {
        assert(f[0].len() > 0);
        let g = f.skip(1);
        assert forall|i: int| 0 <= i < n - 1 implies (#[trigger] g[i]).len() > 0 by {
            assert(g[i] == f[i + 1]);
        }
        lemma_front_count(g, (n - 1) as nat);
    }
}

proof fn lemma_back_count(f: Seq<Seq<char>>, n: nat)
    requires
        n < f.len(),
        forall|i: int| f.len() - n <= i < f.len() ==> (#[trigger] f[i]).len() > 0,
        f[f.len() - 1 - n].len() == 0,
    ensures
        back_count(f) == n,
    decreases n,
{
    if n > 0 {
        assert(f[f.len() - 1].len() > 0);
        let g = f.drop_last();
        assert forall|i: int| g.len() - (n - 1) <= i < g.len() implies (#[trigger] g[i]).len()
            > 0 by {
            assert(g[i] == f[i]);
        }
        lemma_back_count(g, (n - 1) as nat);
    }
}

/// Which groups the fields of a compressed address spell out, and where.
proof fn lemma_compressed_layout(left: Seq<u16>, right: Seq<u16>, f: Seq<Seq<char>>)
    requires
        f == part_fields(left) + seq![Seq::empty()] + part_fields(right),
    ensures
        front_count(f) == left.len(),
        back_count(f) == right.len(),
        forall|i: int| 0 <= i < left.len() ==> #[trigger] f[i] == numeral(left[i] as nat, 16),
        forall|i: int|
            0 <= i < right.len() ==> f[f.len() - right.len() + i] == numeral(
                #[trigger] right[i] as nat,
                16,
            ),
        exists|i: int| 0 <= i < f.len() && (#[trigger] f[i]).len() == 0,
        forall|i: int| 0 <= i < f.len() ==> is_field(#[trigger] f[i], '.'),
{
    let l = part_fields(left);
    let r = part_fields(right);
    assert forall|i: int| 0 <= i < left.len() implies #[trigger] f[i] == numeral(
        left[i] as nat,
        16,
    ) && f[i].len() > 0 by {
        lemma_numeral_is_plain(left[i] as nat, 16);
    }
    assert forall|i: int| 0 <= i < right.len() implies f[f.len() - right.len() + i] == numeral(
        #[trigger] right[i] as nat,
        16,
    ) by {
        assert(f[f.len() - right.len() + i] == r[i]);
    }
    assert forall|i: int| f.len() - right.len() <= i < f.len() implies (#[trigger] f[i]).len()
        > 0 by {
        let k = i - (f.len() - right.len());
        lemma_numeral_is_plain(right[k] as nat, 16);
    }
    assert(f[l.len() as int].len() == 0);
    assert forall|i: int| 0 <= i < f.len() implies is_field(#[trigger] f[i], '.') by {
        if i < l.len() {
            if left.len() > 0 {
                lemma_numeral_is_plain(left[i] as nat, 16);
            }
        } else if i > l.len() {
            if right.len() > 0 {
                lemma_numeral_is_plain(right[i - l.len() - 1] as nat, 16);
            }
        }
    }
    if left.len() == 0 {
        assert(f[0].len() == 0);
    } else {
        assert(f[left.len() as int].len() == 0);
    }
    lemma_front_count(f, left.len());
    if right.len() == 0 {
        assert(f[f.len() - 1].len() == 0);
    } else {
        assert(f[f.len() - 1 - right.len()].len() == 0);
    }
    lemma_back_count(f, right.len());
}

proof fn lemma_plain_layout(groups: Seq<u16>)
    ensures
        forall|i: int| 0 <= i < groups.len() ==> (#[trigger] group_numerals(groups)[i]).len() > 0,
        forall|i: int| 0 <= i < groups.len() ==> is_field(#[trigger] group_numerals(groups)[i], '.'),
{
    assert forall|i: int| 0 <= i < groups.len() implies (#[trigger] group_numerals(groups)[i]).len()
        > 0 && is_field(group_numerals(groups)[i], '.') by {
        lemma_numeral_is_plain(groups[i] as nat, 16);
    }
}

proof fn lemma_v6_groups_injective(a: Seq<u8>, b: Seq<u8>)
    requires
        a.len() == 16,
        b.len() == 16,
        v6_groups(a) == v6_groups(b),
    ensures
        a == b,
{
    assert forall|i: int| 0 <= i < 16 implies a[i] == b[i] by {
        let k = i / 2;
        assert(v6_groups(a)[k] == a[2 * k] * 256 + a[2 * k + 1]);
        assert(v6_groups(b)[k] == b[2 * k] * 256 + b[2 * k + 1]);
        assert(a[2 * k] == b[2 * k] && a[2 * k + 1] == b[2 * k + 1]);
        assert(i == 2 * k || i == 2 * k + 1);
    }
    assert(a =~= b);
}

proof fn lemma_unmapped_text_injective(a: Seq<u8>, b: Seq<u8>)
    requires
        a.len() == 16,
        b.len() == 16,
        !is_v4_mapped(a),
        !is_v4_mapped(b),
        v6_text(a) == v6_text(b),
    ensures
        a == b,
{
    let f = fields(v6_text(a), ':');
    let ga = v6_groups(a);
    let gb = v6_groups(b);
    lemma_v6_fields(a);
    lemma_v6_fields(b);
    lemma_plain_layout(ga);
    lemma_plain_layout(gb);
    let (sa, la) = longest_zero_run(ga, 8);
    let (sb, lb) = longest_zero_run(gb, 8);
    if la > 1 {
        lemma_compressed_layout(ga.take(sa as int), ga.skip((sa + la) as int), f);
    }
    if lb > 1 {
        lemma_compressed_layout(gb.take(sb as int), gb.skip((sb + lb) as int), f);
    }
    if la > 1 && lb > 1 {
        assert(sa == sb && la == lb);
        assert forall|i: int| 0 <= i < 8 implies ga[i] == gb[i] by {
            if i < sa {
                assert(f[i] == numeral(ga.take(sa as int)[i] as nat, 16));
                assert(f[i] == numeral(gb.take(sb as int)[i] as nat, 16));
                lemma_numeral_injective(ga[i] as nat, gb[i] as nat, 16);
            } else if i >= sa + la {
                let k = i - (sa + la);
                let ra = ga.skip((sa + la) as int);
                let rb = gb.skip((sb + lb) as int);
                assert(f[f.len() - ra.len() + k] == numeral(ra[k] as nat, 16));
                assert(f[f.len() - rb.len() + k] == numeral(rb[k] as nat, 16));
                lemma_numeral_injective(ga[i] as nat, gb[i] as nat, 16);
            }
        }
    } else if la <= 1 && lb <= 1 {
        assert forall|i: int| 0 <= i < 8 implies ga[i] == gb[i] by {
            assert(f[i] == numeral(ga[i] as nat, 16));
            assert(f[i] == numeral(gb[i] as nat, 16));
            lemma_numeral_injective(ga[i] as nat, gb[i] as nat, 16);
        }
    } else if la > 1 {
        let i = choose|i: int| 0 <= i < f.len() && (#[trigger] f[i]).len() == 0;
        assert(f[i] == group_numerals(gb)[i]);
    } else {
        let i = choose|i: int| 0 <= i < f.len() && (#[trigger] f[i]).len() == 0;
        assert(f[i] == group_numerals(ga)[i]);
    }
    assert(ga =~= gb);
    lemma_v6_groups_injective(a, b);
}

/// The last field of a mapped address, between colons, is an IPv4 address.
proof fn lemma_mapped_fields(b: Seq<u8>)
    requires
        b.len() == 16,
        is_v4_mapped(b),
    ensures
        fields(v6_text(b), ':').len() == 4,
        fields(v6_text(b), ':')[3] == v4_text(b.skip(12)),
{
    let t = v4_text(b.skip(12));
    let e = Seq::<char>::empty();
    let x = "ffff"@;
    reveal_strlit("::ffff:");
    reveal_strlit("ffff");
    lemma_v4_fields(b.skip(12));
    lemma_single_field(t, ':');
    lemma_single_field(e, ':');
    lemma_single_field(x, ':');
    let t1 = e + seq![':'] + e;
    let t2 = t1 + seq![':'] + x;
    lemma_fields_join(e, e, ':');
    lemma_fields_join(t1, x, ':');
    lemma_fields_join(t2, t, ':');
    assert(v6_text(b) =~= t2 + seq![':'] + t);
}

/// The text of an address that is not mapped has several fields between colons, and none
/// of them holds a dot.
proof fn lemma_unmapped_shape(b: Seq<u8>)
    requires
        b.len() == 16,
        !is_v4_mapped(b),
    ensures
        fields(v6_text(b), ':').len() > 1,
        forall|i: int|
            0 <= i < fields(v6_text(b), ':').len() ==> is_field(
                #[trigger] fields(v6_text(b), ':')[i],
                '.',
            ),
{
    let groups = v6_groups(b);
    lemma_v6_fields(b);
    lemma_plain_layout(groups);
    let (start, len) = longest_zero_run(groups, 8);
    if len > 1 {
        lemma_compressed_layout(
            groups.take(start as int),
            groups.skip((start + len) as int),
            fields(v6_text(b), ':'),
        );
    }
}

proof fn lemma_v6_text_injective(a: Seq<u8>, b: Seq<u8>)
    requires
        a.len() == 16,
        b.len() == 16,
        v6_text(a) == v6_text(b),
    ensures
        a == b,
{
    if is_v4_mapped(a) {
        lemma_mapped_fields(a);
        lemma_v4_fields(a.skip(12));
    } else {
        lemma_unmapped_shape(a);
    }
    if is_v4_mapped(b) {
        lemma_mapped_fields(b);
        lemma_v4_fields(b.skip(12));
    } else {
        lemma_unmapped_shape(b);
    }
    let f = fields(v6_text(a), ':');
    if is_v4_mapped(a) && is_v4_mapped(b) {
        lemma_v4_text_injective(a.skip(12), b.skip(12));
        assert forall|i: int| 0 <= i < 16 implies a[i] == b[i] by {
            if i >= 12 {
                assert(a.skip(12)[i - 12] == b.skip(12)[i - 12]);
            }
        }
        assert(a =~= b);
    } else if !is_v4_mapped(a) && !is_v4_mapped(b) {
        lemma_unmapped_text_injective(a, b);
    } else {
        assert(is_field(f[3], '.'));
    }
}

/// No two addresses have the same text.
pub proof fn lemma_text_tells_addresses_apart(a: IpAddress, b: IpAddress)
    requires
        address_text(a) == address_text(b),
    ensures
        a@ == b@,
{
    let between_colons = fields(address_text(a), ':');
    match a {
        IpAddress::V4(x) => {
            lemma_v4_fields(x@);
            lemma_single_field(v4_text(x@), ':');
        },
        IpAddress::V6(x) => {
            if is_v4_mapped(x@) {
                lemma_mapped_fields(x@);
            } else {
                lemma_unmapped_shape(x@);
            }
        },
    }
    match b {
        IpAddress::V4(y) => {
            lemma_v4_fields(y@);
            lemma_single_field(v4_text(y@), ':');
        },
        IpAddress::V6(y) => {
            if is_v4_mapped(y@) {
                lemma_mapped_fields(y@);
            } else {
                lemma_unmapped_shape(y@);
            }
        },
    }
    match (a, b) {
        (IpAddress::V4(x), IpAddress::V4(y)) => lemma_v4_text_injective(x@, y@),
        (IpAddress::V6(x), IpAddress::V6(y)) => lemma_v6_text_injective(x@, y@),
        _ => assert(between_colons.len() == 1 && between_colons.len() > 1),
    }
}

/// The four numbers of an IPv4 address stand in its text in their order, with dots between
/// them.
pub proof fn lemma_v4_text_reads_back(b: [u8; 4], i: int)
    requires
        0 <= i < 4,
    ensures
        fields(address_text(IpAddress::V4(b)), '.').len() == 4,
        number_of(fields(address_text(IpAddress::V4(b)), '.')[i], 10, 255) == Some(b@[i] as nat),
{
    lemma_v4_fields(b@);
    lemma_decimal_reads_back(b@[i] as nat, 255);
}

proof fn lemma_longest_is_longest(groups: Seq<u16>, end: nat, at: int)
    requires
        end <= groups.len(),
        0 <= at < end,
    ensures
        zero_run(groups, at) <= longest_zero_run(groups, end).1,
        zero_run(groups, at) == longest_zero_run(groups, end).1 && zero_run(groups, at) > 0
            ==> longest_zero_run(groups, end).0 <= at,
    decreases end,
{
    if at < end - 1 {
        lemma_longest_is_longest(groups, (end - 1) as nat, at);
    }
    lemma_longest_start(groups, (end - 1) as nat);
}

proof fn lemma_longest_start(groups: Seq<u16>, end: nat)
    requires
        end <= groups.len(),
    ensures
        longest_zero_run(groups, end).0 <= end,
        longest_zero_run(groups, end).1 > 0 ==> longest_zero_run(groups, end).0 < end,
    decreases end,
{
    if end > 0 {
        lemma_longest_start(groups, (end - 1) as nat);
    }
}

proof fn lemma_run_of_zeros(groups: Seq<u16>, from: int, to: int)
    requires
        0 <= from <= to <= groups.len(),
        forall|k: int| from <= k < to ==> groups[k] == 0,
    ensures
        zero_run(groups, from) >= to - from,
    decreases to - from,
{
    if from < to {
        lemma_run_of_zeros(groups, from + 1, to);
    }
}

/// The eight numbers of an IPv6 address stand in its text in their order, in hexadecimal
/// and with colons between them, except for those of one stretch of zeros, which is
/// returned. It is empty or has at least two numbers, and it is the first of those that no
/// other one exceeds in length. The address of an IPv4 machine ends with the text of that.
pub proof fn lemma_v6_text_reads_back(b: [u8; 16]) -> (gap: (int, int))
    ensures
        ({
            let text = address_text(IpAddress::V6(b));
            let f = fields(text, ':');
            let (left, right) = gap;
            let mapped = (forall|i: int| 0 <= i < 10 ==> #[trigger] b@[i] == 0) && b@[10] == 255
                && b@[11] == 255;
            &&& 0 <= left <= right <= 8
            &&& mapped ==> f.len() == 4 && f[3] == v4_text(b@.skip(12))
            &&& !mapped ==> {
                &&& right - left != 1
                &&& forall|i: int|
                    left <= i < right ==> b@[#[trigger] (2 * i)] == 0 && b@[2 * i + 1] == 0
                &&& forall|i: int|
                    0 <= i < left ==> number_of(#[trigger] f[i], 16, 65535) == Some(
                        (b@[2 * i] * 256 + b@[2 * i + 1]) as nat,
                    )
                &&& forall|i: int|
                    right <= i < 8 ==> number_of(#[trigger] f[f.len() - 8 + i], 16, 65535) == Some(
                        (b@[2 * i] * 256 + b@[2 * i + 1]) as nat,
                    )
                &&& forall|i: int, j: int|
                    0 <= i < j <= 8 && j - i >= 2 && (forall|k: int|
                        2 * i <= k < 2 * j ==> #[trigger] b@[k] == 0) ==> #[trigger] (j - i) <= right
                        - left && (j - i == right - left ==> left <= i)
            }
        }),
{
    let text = v6_text(b@);
    let f = fields(text, ':');
    let groups = v6_groups(b@);
    if is_v4_mapped(b@) {
        lemma_mapped_fields(b@);
        (0, 0)
    } else {
        lemma_v6_fields(b@);
        lemma_plain_layout(groups);
        let (start, len) = longest_zero_run(groups, 8);
        let gap = if len > 1 {
            (start as int, (start + len) as int)
        } else {
            (0int, 0int)
        };
        let (left, right) = gap;
        let l = groups.take(left);
        let r = groups.skip(right);
        if len > 1 {
            lemma_compressed_layout(l, r, f);
        }
        assert forall|i: int| 0 <= i < 8 implies #[trigger] groups[i] == b@[2 * i] * 256 + b@[2 * i
            + 1] by {}
        assert forall|i: int| left <= i < right implies b@[#[trigger] (2 * i)] == 0 && b@[2 * i
            + 1] == 0 by {
            assert(groups[i] == 0);
        }
        assert forall|i: int| 0 <= i < left implies number_of(#[trigger] f[i], 16, 65535) == Some(
            (b@[2 * i] * 256 + b@[2 * i + 1]) as nat,
        ) by {
            assert(l[i] == groups[i]);
            lemma_numeral_is_read(groups[i] as nat, 16, 65535);
        }
        assert forall|i: int| right <= i < 8 implies number_of(
            #[trigger] f[f.len() - 8 + i],
            16,
            65535,
        ) == Some((b@[2 * i] * 256 + b@[2 * i + 1]) as nat) by {
            lemma_numeral_is_read(groups[i] as nat, 16, 65535);
            if len > 1 {
                assert(r[i - right] == groups[i]);
                assert(f[f.len() - r.len() + (i - right)] == numeral(r[i - right] as nat, 16));
            } else {
                assert(f[i] == numeral(groups[i] as nat, 16));
            }
        }
        assert forall|i: int, j: int|
            0 <= i < j <= 8 && j - i >= 2 && (forall|k: int|
                2 * i <= k < 2 * j ==> #[trigger] b@[k] == 0) implies #[trigger] (j - i) <= right
            - left && (j - i == right - left ==> left <= i) by {
            assert forall|k: int| i <= k < j implies groups[k] == 0 by {
                assert(b@[2 * k] == 0 && b@[2 * k + 1] == 0);
            }
            lemma_run_of_zeros(groups, i, j);
            lemma_longest_is_longest(groups, 8, i);
        }
        gap
    }
}

/// An address is among others exactly if one of them has the same bytes.
pub proof fn lemma_among(addresses: Seq<IpAddress>, more: Seq<IpAddress>, ip: IpAddress)
    ensures
        !is_among(Seq::empty(), ip),
        is_among(seq![ip], ip),
        is_among(addresses + more, ip) <==> is_among(addresses, ip) || is_among(more, ip),
        forall|other: IpAddress|
            #![trigger is_among(seq![other], ip)]
            is_among(seq![other], ip) ==> other@ == ip@,
{
    assert(seq![ip][0] == ip);
    let all = addresses + more;
    if is_among(addresses, ip) {
        let i = choose|i: int| 0 <= i < addresses.len() && (#[trigger] addresses[i])@ == ip@;
        assert(all[i] == addresses[i]);
    }
    if is_among(more, ip) {
        let i = choose|i: int| 0 <= i < more.len() && (#[trigger] more[i])@ == ip@;
        assert(all[addresses.len() + i] == more[i]);
    }
    if is_among(all, ip) {
        let i = choose|i: int| 0 <= i < all.len() && (#[trigger] all[i])@ == ip@;
        if i < addresses.len() {
            assert(addresses[i] == all[i]);
        } else {
            assert(more[i - addresses.len()] == all[i]);
        }
    }
}

/// An address is its bytes, four or sixteen of them, so that no IPv4 address is an IPv6
/// address.
pub proof fn lemma_address_is_its_bytes(four: [u8; 4], sixteen: [u8; 16])
    ensures
        IpAddress::V4(four)@ == four@,
        IpAddress::V6(sixteen)@ == sixteen@,
        IpAddress::V4(four)@ != IpAddress::V6(sixteen)@,
{
    assert(four@.len() == 4 && sixteen@.len() == 16);
}

} // verus!
