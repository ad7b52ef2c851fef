//! Sorting by a key, equal keys keeping their order.

use vstd::prelude::*;

use crate::text::chars;

verus! {

/// A key by which rows can be sorted.
pub trait Ranked: Sized {
    /// Whether `self` may stand before `other`.
    spec fn ranked(self, other: Self) -> bool;

    /// Any two keys can be put in order.
    proof fn ranked_total(a: Self, b: Self)
        ensures
            a.ranked(b) || b.ranked(a),
    ;

    /// The order is transitive.
    proof fn ranked_transitive(a: Self, b: Self, c: Self)
        requires
            a.ranked(b),
            b.ranked(c),
        ensures
            a.ranked(c),
    ;

    /// Whether `self` may stand before `other`.
    fn may_precede(&self, other: &Self) -> (r: bool)
        ensures
            r == self.ranked(*other),
    ;
}

/// Whether position `i` comes before position `j`: by key, then by position.
pub open spec fn comes_before<K: Ranked>(keys: Seq<K>, i: int, j: int) -> bool {
    keys[i].ranked(keys[j]) && (!keys[j].ranked(keys[i]) || i < j)
}

/// `order` lists the positions of `keys`, each once, sorted by key and then by position.
pub open spec fn is_stable_order<K: Ranked>(keys: Seq<K>, order: Seq<usize>) -> bool {
    &&& order.len() == keys.len()
    &&& forall|i: int| 0 <= i < order.len() ==> (#[trigger] order[i]) < keys.len()
    &&& forall|k: int| 0 <= k < keys.len() ==> #[trigger] listed(order, k)
    &&& forall|i: int, j: int|
        0 <= i < j < order.len() ==> comes_before(keys, #[trigger] order[i] as int, #[trigger] order[j] as int)
}

/// Whether the position `k` is in the list.
pub open spec fn listed(order: Seq<usize>, k: int) -> bool {
    exists|i: int| 0 <= i < order.len() && #[trigger] order[i] == k
}

/// The stable order of the keys.
pub fn stable_order<K: Ranked>(keys: &Vec<K>) -> (order: Vec<usize>)
    ensures
        is_stable_order(keys@, order@),
{
    let mut order: Vec<usize> = Vec::new();
    let mut k: usize = 0;
    while k < keys.len()
        invariant
            k <= keys.len(),
            order@.len() == k,
            forall|i: int| 0 <= i < k ==> (#[trigger] order@[i]) < k,
            forall|m: int| 0 <= m < k ==> #[trigger] listed(order@, m),
            forall|i: int, j: int|
                0 <= i < j < k ==> comes_before(keys@, #[trigger] order@[i] as int, #[trigger] order@[j] as int),
        decreases keys.len() - k,
    {
        let at = insertion_point(keys, &order, k);
        let ghost before = order@;
        order.insert(at, k);
        assert(order@ == before.insert(at as int, k));
        assert forall|m: int| 0 <= m < k + 1 implies #[trigger] listed(order@, m) by {
            if m == k {
                assert(order@[at as int] == k);
            } else {
                assert(listed(before, m));
                let i = choose|i: int| 0 <= i < before.len() && #[trigger] before[i] == m;
                if i < at {
                    assert(order@[i] == m);
                } else {
                    assert(order@[i + 1] == m);
                }
            }
        }
        assert forall|i: int, j: int| 0 <= i < j < k + 1 implies comes_before(
            keys@,
            #[trigger] order@[i] as int,
            #[trigger] order@[j] as int,
        ) by {
            let a = if i < at { before[i] } else { before[i - 1] };
            let b = if j < at { before[j] } else { before[j - 1] };
            if i == at {
                assert(order@[j] == before[j - 1]);
                K::ranked_total(keys@[before[j - 1] as int], keys@[k as int]);
            } else if j == at {
                assert(order@[i] == before[i]);
            } else {
                assert(order@[i] == a && order@[j] == b);
            }
        }
        k = k + 1;
    }
    order
}

/// Where position `k` belongs among the smaller positions in `order`.
fn insertion_point<K: Ranked>(keys: &Vec<K>, order: &Vec<usize>, k: usize) -> (at: usize)
    requires
        k < keys@.len(),
        order@.len() == k,
        forall|i: int| 0 <= i < k ==> (#[trigger] order@[i]) < k,
        forall|i: int, j: int|
            0 <= i < j < k ==> comes_before(keys@, #[trigger] order@[i] as int, #[trigger] order@[j] as int),
    ensures
        at <= k,
        forall|i: int| 0 <= i < at ==> keys@[#[trigger] order@[i] as int].ranked(keys@[k as int]),
        forall|i: int| at <= i < k ==> !keys@[#[trigger] order@[i] as int].ranked(keys@[k as int]),
{
    let mut lo: usize = 0;
    let mut hi: usize = k;
    while lo < hi
        invariant
            lo <= hi <= k,
            k < keys@.len(),
            order@.len() == k,
            forall|i: int| 0 <= i < k ==> (#[trigger] order@[i]) < k,
            forall|i: int, j: int|
                0 <= i < j < k ==> comes_before(keys@, #[trigger] order@[i] as int, #[trigger] order@[j] as int),
            forall|i: int| 0 <= i < lo ==> keys@[#[trigger] order@[i] as int].ranked(keys@[k as int]),
            forall|i: int| hi <= i < k ==> !keys@[#[trigger] order@[i] as int].ranked(keys@[k as int]),
        decreases hi - lo,
    {
        let mid: usize = lo + (hi - lo) / 2;
        let ghost m = keys@[order@[mid as int] as int];
        if keys[order[mid]].may_precede(&keys[k]) {
            assert forall|i: int| 0 <= i < mid + 1 implies keys@[#[trigger] order@[i] as int].ranked(
                keys@[k as int],
            ) by {
                if i < mid {
                    assert(comes_before(keys@, order@[i] as int, order@[mid as int] as int));
                    K::ranked_transitive(keys@[order@[i] as int], m, keys@[k as int]);
                }
            }
            lo = mid + 1;
        } else {
            assert forall|i: int| mid <= i < k implies !keys@[#[trigger] order@[i] as int].ranked(
                keys@[k as int],
            ) by {
                if i > mid && keys@[order@[i] as int].ranked(keys@[k as int]) {
                    assert(comes_before(keys@, order@[mid as int] as int, order@[i] as int));
                    K::ranked_transitive(m, keys@[order@[i] as int], keys@[k as int]);
                }
            }
            hi = mid;
        }
    }
    lo
}

/// `order` lists the positions below `n`, each once, so that each comes `before` all that
/// follow it.
pub open spec fn lists_in_order(
    n: nat,
    before: spec_fn(int, int) -> bool,
    order: Seq<usize>,
) -> bool {
    &&& order.len() == n
    &&& forall|i: int| 0 <= i < order.len() ==> (#[trigger] order[i]) < n
    &&& forall|k: int| 0 <= k < n ==> #[trigger] listed(order, k)
    &&& forall|i: int, j: int|
        0 <= i < j < order.len() ==> before(#[trigger] order[i] as int, #[trigger] order[j] as int)
}

/// Where no two positions come before each other, there is only one order.
pub proof fn lemma_order_unique(
    n: nat,
    before: spec_fn(int, int) -> bool,
    a: Seq<usize>,
    b: Seq<usize>,
)
    requires
        lists_in_order(n, before, a),
        lists_in_order(n, before, b),
        forall|x: int, y: int| #[trigger] before(x, y) ==> !before(y, x),
    ensures
        a == b,
{
    lemma_order_prefix(n, before, a, b, n as int);
    assert(a =~= b);
}

proof fn lemma_order_prefix(
    n: nat,
    before: spec_fn(int, int) -> bool,
    a: Seq<usize>,
    b: Seq<usize>,
    len: int,
)
    requires
        lists_in_order(n, before, a),
        lists_in_order(n, before, b),
        forall|x: int, y: int| #[trigger] before(x, y) ==> !before(y, x),
        0 <= len <= n,
    ensures
        forall|i: int| 0 <= i < len ==> a[i] == b[i],
    decreases len,
{
    if len > 0 {
        lemma_order_prefix(n, before, a, b, len - 1);
        let x = a[len - 1];
        let y = b[len - 1];
        if x != y {
            assert(listed(b, x as int));
            assert(listed(a, y as int));
            let p = choose|i: int| 0 <= i < b.len() && #[trigger] b[i] == x as int;
            let q = choose|i: int| 0 <= i < a.len() && #[trigger] a[i] == y as int;
            if p < len - 1 {
                assert(a[p] == x);
                assert(before(a[p] as int, a[len - 1] as int));
            } else {
                assert(before(b[len - 1] as int, b[p] as int));
            }
            if q < len - 1 {
                assert(b[q] == y);
                assert(before(b[q] as int, b[len - 1] as int));
            } else {
                assert(before(a[len - 1] as int, a[q] as int));
            }
        }
    }
}

/// There is only one stable order: two of them agree at every place.
pub proof fn lemma_stable_order_unique<K: Ranked>(keys: Seq<K>, a: Seq<usize>, b: Seq<usize>)
    requires
        is_stable_order(keys, a),
        is_stable_order(keys, b),
    ensures
        a == b,
{
    let before = |i: int, j: int| comes_before(keys, i, j);
    lemma_order_unique(keys.len(), before, a, b);
}

/// Larger numbers first.
pub struct Descending(pub u64);

impl Ranked for Descending {
    open spec fn ranked(self, other: Self) -> bool {
        self.0 >= other.0
    }

    proof fn ranked_total(a: Self, b: Self) {
    }

    proof fn ranked_transitive(a: Self, b: Self, c: Self) {
    }

    fn may_precede(&self, other: &Self) -> (r: bool) {
        self.0 >= other.0
    }
}

/// No number first, then smaller numbers before larger ones.
pub struct AscendingNumber(pub Option<u32>);

impl Ranked for AscendingNumber {
    open spec fn ranked(self, other: Self) -> bool {
        match (self.0, other.0) {
            (None, _) => true,
            (Some(_), None) => false,
            (Some(a), Some(b)) => a <= b,
        }
    }

    proof fn ranked_total(a: Self, b: Self) {
    }

    proof fn ranked_transitive(a: Self, b: Self, c: Self) {
    }

    fn may_precede(&self, other: &Self) -> (r: bool) {
        match (self.0, other.0) {
            (None, _) => true,
            (Some(_), None) => false,
            (Some(a), Some(b)) => a <= b,
        }
    }
}

/// The order of texts: by the first character in which they differ, a prefix before
/// what it is a prefix of.
pub open spec fn text_le(a: Seq<char>, b: Seq<char>) -> bool
    decreases a.len(),
{
    ||| a.len() == 0
    ||| {
        &&& b.len() > 0
        &&& (a[0] < b[0] || (a[0] == b[0] && text_le(a.skip(1), b.skip(1))))
    }
}

proof fn lemma_text_le_total(a: Seq<char>, b: Seq<char>)
    ensures
        text_le(a, b) || text_le(b, a),
    decreases a.len(),
{
    if a.len() > 0 && b.len() > 0 {
        lemma_text_le_total(a.skip(1), b.skip(1));
    }
}

proof fn lemma_text_le_transitive(a: Seq<char>, b: Seq<char>, c: Seq<char>)
    requires
        text_le(a, b),
        text_le(b, c),
    ensures
        text_le(a, c),
    decreases a.len(),
{
    if a.len() > 0 && a[0] == b[0] && b[0] == c[0] {
        lemma_text_le_transitive(a.skip(1), b.skip(1), c.skip(1));
    }
}

/// Texts in alphabetical order.
pub struct AscendingText(pub String);

impl Ranked for AscendingText {
    open spec fn ranked(self, other: Self) -> bool {
        text_le(self.0@, other.0@)
    }

    proof fn ranked_total(a: Self, b: Self) {
        lemma_text_le_total(a.0@, b.0@);
    }

    proof fn ranked_transitive(a: Self, b: Self, c: Self) {
        lemma_text_le_transitive(a.0@, b.0@, c.0@);
    }

    fn may_precede(&self, other: &Self) -> (r: bool) {
        let a = chars(self.0.as_str());
        let b = chars(other.0.as_str());
        let mut i: usize = 0;
        assert(a@.skip(0) =~= a@);
        assert(b@.skip(0) =~= b@);
        while i < a.len() && i < b.len() && a[i] == b[i]
            invariant
                i <= a.len(),
                i <= b.len(),
                text_le(a@.skip(i as int), b@.skip(i as int)) == text_le(a@, b@),
            decreases a.len() - i,
        {
            assert(a@.skip(i as int).skip(1) =~= a@.skip(i + 1));
            assert(b@.skip(i as int).skip(1) =~= b@.skip(i + 1));
            i = i + 1;
        }
        i == a.len() || (i < b.len() && a[i] < b[i])
    }
}

/// Texts are in alphabetical order: what they share at the front does not matter, the first
/// difference decides, and a text stands before every longer one that begins with it. Only
/// equal texts may stand either way.
pub proof fn lemma_alphabetical(p: Seq<char>, x: char, y: char, a: Seq<char>, b: Seq<char>)
    ensures
        text_le(p, p + a),
        a.len() > 0 ==> !text_le(p + a, p),
        x < y ==> text_le(p + seq![x] + a, p + seq![y] + b) && !text_le(
            p + seq![y] + b,
            p + seq![x] + a,
        ),
        text_le(a, b) && text_le(b, a) ==> a == b,
    decreases p.len() + a.len(),
{
    if p.len() == 0 {
        assert(p + seq![x] + a =~= seq![x] + a);
        assert(p + seq![y] + b =~= seq![y] + b);
        assert((seq![x] + a)[0] == x && (seq![y] + b)[0] == y);
        if a.len() > 0 && b.len() > 0 && text_le(a, b) && text_le(b, a) {
            lemma_alphabetical(p, x, y, a.skip(1), b.skip(1));
            assert(a =~= seq![a[0]] + a.skip(1));
            assert(b =~= seq![b[0]] + b.skip(1));
        }
        if a.len() == 0 || b.len() == 0 {
            if text_le(a, b) && text_le(b, a) {
                assert(a =~= b);
            }
        }
        if a.len() > 0 {
            assert((p + a)[0] == a[0]);
        }
    } else {
        let q = p.skip(1);
        lemma_alphabetical(q, x, y, a, b);
        assert((p + a).skip(1) =~= q + a);
        assert((p + a)[0] == p[0]);
        assert((p + seq![x] + a).skip(1) =~= q + seq![x] + a);
        assert((p + seq![y] + b).skip(1) =~= q + seq![y] + b);
        assert((p + seq![x] + a)[0] == p[0] && (p + seq![y] + b)[0] == p[0]);
    }
}

} // verus!
