//! Text as a sequence of characters: comparing, trimming, splitting and searching.
//!
//! Every operation is described by a spec function over `Seq<char>`, the view of
//! `str` and of `String`.

use vstd::prelude::*;

verus! {

/// `String::push`: appends the character to the end of the text.
pub assume_specification[ String::push ](text: &mut String, c: char)
    ensures
        final(text)@ == old(text)@.push(c),
;

/// The characters with the Unicode property `White_Space`.
pub open spec fn is_space(c: char) -> bool {
    ||| '\u{0009}' <= c <= '\u{000D}'
    ||| c == '\u{0020}'
    ||| c == '\u{0085}'
    ||| c == '\u{00A0}'
    ||| c == '\u{1680}'
    ||| '\u{2000}' <= c <= '\u{200A}'
    ||| c == '\u{2028}'
    ||| c == '\u{2029}'
    ||| c == '\u{202F}'
    ||| c == '\u{205F}'
    ||| c == '\u{3000}'
}

/// The text without its leading white space.
pub open spec fn trim_start(s: Seq<char>) -> Seq<char>
    decreases s.len(),
{
    if s.len() > 0 && is_space(s[0]) {
        trim_start(s.skip(1))
    } else {
        s
    }
}

/// The text without its trailing white space.
pub open spec fn trim_end(s: Seq<char>) -> Seq<char>
    decreases s.len(),
{
    if s.len() > 0 && is_space(s.last()) {
        trim_end(s.drop_last())
    } else {
        s
    }
}

/// The text without white space at either end.
pub open spec fn trimmed(s: Seq<char>) -> Seq<char> {
    trim_end(trim_start(s))
}

/// How many characters stand before the first white space.
pub open spec fn word_len(s: Seq<char>) -> nat
    decreases s.len(),
{
    if s.len() == 0 || is_space(s[0]) {
        0
    } else {
        1 + word_len(s.skip(1))
    }
}

/// The maximal runs of characters that are not white space, in order.
pub open spec fn words(s: Seq<char>) -> Seq<Seq<char>>
    decreases s.len(),
{
    if s.len() == 0 {
        Seq::empty()
    } else if is_space(s[0]) {
        words(s.skip(1))
    } else {
        let n = word_len(s);
        if 0 < n <= s.len() {
            seq![s.take(n as int)] + words(s.skip(n as int))
        } else {
            Seq::empty()
        }
    }
}

/// How many characters stand before the first `sep`.
pub open spec fn field_len(s: Seq<char>, sep: char) -> nat
    decreases s.len(),
{
    if s.len() == 0 || s[0] == sep {
        0
    } else {
        1 + field_len(s.skip(1), sep)
    }
}

/// The parts between the separators, empty ones included.
pub open spec fn fields(s: Seq<char>, sep: char) -> Seq<Seq<char>>
    decreases s.len(),
{
    let n = field_len(s, sep) as int;
    if n < s.len() {
        seq![s.take(n)] + fields(s.skip(n + 1), sep)
    } else {
        seq![s]
    }
}

/// A line that was ended by a line feed, without the carriage return before it.
pub open spec fn without_cr(s: Seq<char>) -> Seq<char> {
    if s.len() > 0 && s.last() == '\r' {
        s.drop_last()
    } else {
        s
    }
}

/// The lines of a text: each ends with a line feed, or a carriage return and a line
/// feed; the last one may go without.
pub open spec fn lines(s: Seq<char>) -> Seq<Seq<char>>
    decreases s.len(),
{
    let n = field_len(s, '\n') as int;
    if n < s.len() {
        seq![without_cr(s.take(n))] + lines(s.skip(n + 1))
    } else if s.len() > 0 {
        seq![s]
    } else {
        Seq::empty()
    }
}

/// What follows `prefix` in a text that begins with it.
pub open spec fn after_prefix(s: Seq<char>, prefix: Seq<char>) -> Option<Seq<char>> {
    if prefix.is_prefix_of(s) {
        Some(s.skip(prefix.len() as int))
    } else {
        None
    }
}

/// Whether `needle` stands in `s` at position `i`.
pub open spec fn occurs_at(s: Seq<char>, needle: Seq<char>, i: int) -> bool {
    &&& 0 <= i
    &&& i + needle.len() <= s.len()
    &&& s.subrange(i, i + needle.len()) == needle
}

/// Whether `needle` stands anywhere in `s`.
pub open spec fn occurs(s: Seq<char>, needle: Seq<char>) -> bool {
    exists|i: int| #[trigger] occurs_at(s, needle, i)
}

/// The first position of `needle` in `s`.
pub open spec fn is_first_occurrence(s: Seq<char>, needle: Seq<char>, i: int) -> bool {
    &&& occurs_at(s, needle, i)
    &&& forall|j: int| 0 <= j < i ==> !#[trigger] occurs_at(s, needle, j)
}

/// What follows the first occurrence of `needle`, `needle` excluded.
pub open spec fn after_first(s: Seq<char>, needle: Seq<char>) -> Option<Seq<char>> {
    if occurs(s, needle) {
        let i = choose|i: int| is_first_occurrence(s, needle, i);
        Some(s.skip(i + needle.len()))
    } else {
        None
    }
}

/// The lower-case form of an ASCII letter; any other character stays.
pub open spec fn ascii_lower(c: char) -> char {
    if 'A' <= c <= 'Z' {
        (c as u32 + 32) as char
    } else {
        c
    }
}

/// The text with its ASCII letters in lower case.
pub open spec fn lowered(s: Seq<char>) -> Seq<char> {
    s.map_values(|c: char| ascii_lower(c))
}

/// Equality up to the case of ASCII letters.
pub open spec fn same_ignoring_case(a: Seq<char>, b: Seq<char>) -> bool {
    &&& a.len() == b.len()
    &&& forall|i: int| 0 <= i < a.len() ==> ascii_lower(#[trigger] a[i]) == ascii_lower(b[i])
}

/// The texts of a sequence of strings.
pub open spec fn texts(strings: Seq<String>) -> Seq<Seq<char>> {
    strings.map_values(|s: String| s@)
}

/// The text of an optional string.
pub open spec fn opt_text(s: Option<String>) -> Option<Seq<char>> {
    match s {
        Some(s) => Some(s@),
        None => None,
    }
}

/// The characters of a text.
pub fn chars(s: &str) -> (out: Vec<char>)
    ensures
        out@ == s@,
{
    let mut out: Vec<char> = Vec::new();
    for c in it: s.chars()
        invariant
            out@ == it.seq().take(it.index() as int),
            it.seq() == s@,
    {
        out.push(c);
        proof {
            assert(it.seq().take(it.index() + 1) =~= it.seq().take(it.index() as int).push(
                it.seq()[it.index() as int],
            ));
        }
    }
    assert(s@.take(s@.len() as int) =~= s@);
    out
}

/// The text made of `chars[from..to]`.
pub fn text_of(chars: &[char], from: usize, to: usize) -> (out: String)
    requires
        from <= to <= chars@.len(),
    ensures
        out@ == chars@.subrange(from as int, to as int),
{
    let mut out: String = String::new();
    let mut i: usize = from;
    while i < to
        invariant
            from <= i <= to <= chars@.len(),
            out@ == chars@.subrange(from as int, i as int),
        decreases to - i,
    {
        out.push(chars[i]);
        i = i + 1;
        assert(chars@.subrange(from as int, i as int) =~= chars@.subrange(
            from as int,
            i - 1,
        ).push(chars@[i - 1]));
    }
    out
}

/// Whether the two texts are equal.
pub fn same_text(a: &str, b: &str) -> (same: bool)
    ensures
        same == (a@ == b@),
{
    let x = chars(a);
    let y = chars(b);
    if x.len() != y.len() {
        return false;
    }
    let mut i: usize = 0;
    while i < x.len()
        invariant
            i <= x.len(),
            x.len() == y.len(),
            x@ == a@,
            y@ == b@,
            forall|k: int| 0 <= k < i ==> x@[k] == y@[k],
        decreases x.len() - i,
    {
        if x[i] != y[i] {
            return false;
        }
        i = i + 1;
    }
    assert(a@ =~= b@);
    true
}

/// Whether the two texts are equal up to the case of ASCII letters.
pub fn eq_ignore_ascii_case(a: &str, b: &str) -> (same: bool)
    ensures
        same == same_ignoring_case(a@, b@),
{
    let x = chars(a);
    let y = chars(b);
    if x.len() != y.len() {
        return false;
    }
    let mut i: usize = 0;
    while i < x.len()
        invariant
            i <= x.len(),
            x.len() == y.len(),
            x@ == a@,
            y@ == b@,
            forall|k: int| 0 <= k < i ==> ascii_lower(x@[k]) == ascii_lower(y@[k]),
        decreases x.len() - i,
    {
        if lower_char(x[i]) != lower_char(y[i]) {
            assert(ascii_lower(a@[i as int]) != ascii_lower(b@[i as int]));
            return false;
        }
        i = i + 1;
    }
    true
}

fn lower_char(c: char) -> (r: char)
    ensures
        r == ascii_lower(c),
{
    if 'A' <= c && c <= 'Z' {
        (c as u8 + 32) as char
    } else {
        c
    }
}

/// The text with its ASCII letters in lower case.
pub fn to_ascii_lowercase(s: &str) -> (out: String)
    ensures
        out@ == lowered(s@),
{
    let v = chars(s);
    let mut out: String = String::new();
    let mut i: usize = 0;
    while i < v.len()
        invariant
            i <= v.len(),
            v@ == s@,
            out@ == lowered(s@).take(i as int),
        decreases v.len() - i,
    {
        out.push(lower_char(v[i]));
        assert(lowered(s@).take(i + 1) =~= lowered(s@).take(i as int).push(
            ascii_lower(s@[i as int]),
        ));
        i = i + 1;
    }
    assert(lowered(s@).take(i as int) =~= lowered(s@));
    out
}

/// Whether the character is white space.
pub fn is_whitespace(c: char) -> (space: bool)
    ensures
        space == is_space(c),
{
    ('\u{0009}' <= c && c <= '\u{000D}') || c == '\u{0020}' || c == '\u{0085}' || c == '\u{00A0}'
        || c == '\u{1680}' || ('\u{2000}' <= c && c <= '\u{200A}') || c == '\u{2028}' || c
        == '\u{2029}' || c == '\u{202F}' || c == '\u{205F}' || c == '\u{3000}'
}

/// The text without white space at either end.
pub fn trim(s: &str) -> (out: String)
    ensures
        out@ == trimmed(s@),
{
    let v = chars(s);
    let mut from: usize = 0;
    assert(v@.skip(0) =~= v@);
    while from < v.len() && is_whitespace(v[from])
        invariant
            from <= v.len(),
            v@ == s@,
            trim_start(v@.skip(from as int)) == trim_start(s@),
        decreases v.len() - from,
    {
        assert(v@.skip(from as int).skip(1) =~= v@.skip(from + 1));
        from = from + 1;
    }
    let ghost rest = v@.skip(from as int);
    assert(trim_start(s@) == rest);
    let mut to: usize = v.len();
    assert(rest.take(to - from) =~= rest);
    while to > from && is_whitespace(v[to - 1])
        invariant
            from <= to <= v.len(),
            rest == v@.skip(from as int),
            trim_end(rest.take(to - from)) == trim_end(rest),
        decreases to - from,
    {
        assert(rest.take(to - from).last() == v@[to - 1]);
        assert(rest.take(to - from).drop_last() =~= rest.take(to - 1 - from));
        to = to - 1;
    }
    if to > from {
        assert(rest.take(to - from).last() == v@[to - 1]);
    }
    assert(v@.subrange(from as int, to as int) =~= rest.take(to - from));
    text_of(v.as_slice(), from, to)
}

/// The maximal runs of characters that are not white space.
pub fn split_whitespace(s: &str) -> (out: Vec<String>)
    ensures
        texts(out@) == words(s@),
{
    let v = chars(s);
    let mut out: Vec<String> = Vec::new();
    let mut i: usize = 0;
    assert(v@.skip(0) =~= v@);
    assert(texts(out@) + words(v@.skip(0)) =~= words(s@));
    while i < v.len()
        invariant
            i <= v.len(),
            v@ == s@,
            texts(out@) + words(v@.skip(i as int)) == words(s@),
        decreases v.len() - i,
    {
        let ghost rest = v@.skip(i as int);
        if is_whitespace(v[i]) {
            assert(rest.skip(1) =~= v@.skip(i + 1));
            i = i + 1;
        } else {
            let mut j: usize = i;
            while j < v.len() && !is_whitespace(v[j])
                invariant
                    i <= j <= v.len(),
                    rest == v@.skip(i as int),
                    j - i + word_len(v@.skip(j as int)) == word_len(rest),
                decreases v.len() - j,
            {
                assert(v@.skip(j as int).skip(1) =~= v@.skip(j + 1));
                j = j + 1;
            }
            assert(word_len(v@.skip(j as int)) == 0);
            assert(word_len(rest) == j - i);
            assert(j > i) by {
                assert(word_len(rest) == 1 + word_len(rest.skip(1)));
            }
            let word = text_of(v.as_slice(), i, j);
            let ghost before = texts(out@);
            out.push(word);
            assert(texts(out@) =~= before.push(word@));
            assert(rest.take(j - i) =~= v@.subrange(i as int, j as int));
            assert(rest.skip(j - i) =~= v@.skip(j as int));
            assert(before.push(word@) + words(v@.skip(j as int)) =~= before + (seq![word@] + words(
                v@.skip(j as int),
            )));
            i = j;
        }
    }
    assert(v@.skip(i as int) =~= Seq::empty());
    assert(texts(out@) + words(v@.skip(i as int)) =~= texts(out@));
    out
}

/// Where the first `sep` at or after `from` stands, or the length of the text.
fn field_end(v: &Vec<char>, from: usize, sep: char) -> (end: usize)
    requires
        from <= v@.len(),
    ensures
        from <= end <= v@.len(),
        end - from == field_len(v@.skip(from as int), sep),
{
    let mut j: usize = from;
    while j < v.len() && v[j] != sep
        invariant
            from <= j <= v.len(),
            j - from + field_len(v@.skip(j as int), sep) == field_len(v@.skip(from as int), sep),
        decreases v.len() - j,
    {
        assert(v@.skip(j as int).skip(1) =~= v@.skip(j + 1));
        j = j + 1;
    }
    j
}

/// The parts between the separators, empty ones included.
pub fn split(s: &str, sep: char) -> (out: Vec<String>)
    ensures
        texts(out@) == fields(s@, sep),
        out@.len() > 0,
{
    let v = chars(s);
    let mut out: Vec<String> = Vec::new();
    let mut i: usize = 0;
    let mut j: usize = field_end(&v, 0, sep);
    assert(v@.skip(0) =~= v@);
    assert(texts(out@) + fields(v@.skip(0), sep) =~= fields(s@, sep));
    while j < v.len()
        invariant
            i <= j <= v.len(),
            v@ == s@,
            j - i == field_len(v@.skip(i as int), sep),
            texts(out@) + fields(v@.skip(i as int), sep) == fields(s@, sep),
        decreases v.len() - i,
    {
        let ghost rest = v@.skip(i as int);
        let part = text_of(v.as_slice(), i, j);
        let ghost before = texts(out@);
        out.push(part);
        assert(texts(out@) =~= before.push(part@));
        assert(rest.take(j - i) =~= v@.subrange(i as int, j as int));
        assert(rest.skip(j - i + 1) =~= v@.skip(j + 1));
        assert(before.push(part@) + fields(v@.skip(j + 1), sep) =~= before + (seq![part@] + fields(
            v@.skip(j + 1),
            sep,
        )));
        i = j + 1;
        j = field_end(&v, i, sep);
    }
    let ghost rest = v@.skip(i as int);
    let part = text_of(v.as_slice(), i, v.len());
    assert(rest =~= v@.subrange(i as int, v@.len() as int));
    let ghost before = texts(out@);
    out.push(part);
    assert(texts(out@) =~= before + seq![part@]);
    out
}

/// The lines of a text.
pub fn split_lines(s: &str) -> (out: Vec<String>)
    ensures
        texts(out@) == lines(s@),
{
    let v = chars(s);
    let mut out: Vec<String> = Vec::new();
    let mut i: usize = 0;
    let mut j: usize = field_end(&v, 0, '\n');
    assert(v@.skip(0) =~= v@);
    assert(texts(out@) + lines(v@.skip(0)) =~= lines(s@));
    while j < v.len()
        invariant
            i <= j <= v.len(),
            v@ == s@,
            j - i == field_len(v@.skip(i as int), '\n'),
            texts(out@) + lines(v@.skip(i as int)) == lines(s@),
        decreases v.len() - i,
    {
        let ghost rest = v@.skip(i as int);
        assert(rest.take(j - i) =~= v@.subrange(i as int, j as int));
        let end: usize = if j > i && v[j - 1] == '\r' {
            j - 1
        } else {
            j
        };
        let line = text_of(v.as_slice(), i, end);
        assert(line@ =~= without_cr(rest.take(j - i)));
        let ghost before = texts(out@);
        out.push(line);
        assert(texts(out@) =~= before.push(line@));
        assert(rest.skip(j - i + 1) =~= v@.skip(j + 1));
        assert(before.push(line@) + lines(v@.skip(j + 1)) =~= before + (seq![line@] + lines(
            v@.skip(j + 1),
        )));
        i = j + 1;
        j = field_end(&v, i, '\n');
    }
    let ghost rest = v@.skip(i as int);
    let ghost before = texts(out@);
    if i < v.len() {
        let line = text_of(v.as_slice(), i, v.len());
        assert(rest =~= v@.subrange(i as int, v@.len() as int));
        out.push(line);
        assert(texts(out@) =~= before + seq![line@]);
    } else {
        assert(lines(rest) =~= Seq::empty());
        assert(before + lines(rest) =~= before);
    }
    out
}

/// Whether `v[at..]` begins with `needle`.
fn begins_at(v: &Vec<char>, needle: &Vec<char>, at: usize) -> (found: bool)
    requires
        at <= v@.len(),
    ensures
        found == occurs_at(v@, needle@, at as int),
{
    if v.len() - at < needle.len() {
        return false;
    }
    let mut k: usize = 0;
    while k < needle.len()
        invariant
            k <= needle.len(),
            at + needle.len() <= v.len(),
            forall|m: int| 0 <= m < k ==> v@[at + m] == needle@[m],
        decreases needle.len() - k,
    {
        if v[at + k] != needle[k] {
            assert(v@.subrange(at as int, at + needle@.len())[k as int] == v@[at + k]);
            return false;
        }
        k = k + 1;
    }
    assert(v@.subrange(at as int, at + needle@.len()) =~= needle@);
    true
}

/// What follows `prefix`, if the text begins with it.
pub fn strip_prefix(s: &str, prefix: &str) -> (rest: Option<String>)
    ensures
        opt_text(rest) == after_prefix(s@, prefix@),
{
    let v = chars(s);
    let p = chars(prefix);
    if begins_at(&v, &p, 0) {
        assert(prefix@.is_prefix_of(s@));
        let rest = text_of(v.as_slice(), p.len(), v.len());
        assert(rest@ =~= s@.skip(prefix@.len() as int));
        Some(rest)
    } else {
        assert(!prefix@.is_prefix_of(s@)) by {
            if prefix@.is_prefix_of(s@) {
                assert(s@.subrange(0, prefix@.len() as int) =~= prefix@);
            }
        }
        None
    }
}

/// The first position of `needle` in `v`.
fn find(v: &Vec<char>, needle: &Vec<char>) -> (at: Option<usize>)
    ensures
        match at {
            Some(i) => is_first_occurrence(v@, needle@, i as int),
            None => !occurs(v@, needle@),
        },
{
    let mut i: usize = 0;
    loop
        invariant
            i <= v.len(),
            forall|j: int| 0 <= j < i ==> !#[trigger] occurs_at(v@, needle@, j),
        decreases v.len() - i,
    {
        if begins_at(v, needle, i) {
            return Some(i);
        }
        if i == v.len() {
            assert(!occurs(v@, needle@));
            return None;
        }
        i = i + 1;
    }
}

/// Whether `needle` stands anywhere in the text.
pub fn contains(s: &str, needle: &str) -> (found: bool)
    ensures
        found == occurs(s@, needle@),
{
    match find(&chars(s), &chars(needle)) {
        Some(i) => {
            assert(occurs_at(s@, needle@, i as int));
            true
        },
        None => false,
    }
}

/// The text from the first occurrence of `needle` on, `needle` excluded.
pub fn split_after(s: &str, needle: &str) -> (rest: Option<String>)
    ensures
        opt_text(rest) == after_first(s@, needle@),
{
    let v = chars(s);
    let n = chars(needle);
    match find(&v, &n) {
        Some(i) => {
            assert(occurs_at(s@, needle@, i as int));
            let ghost k = choose|k: int| is_first_occurrence(s@, needle@, k);
            assert(is_first_occurrence(s@, needle@, i as int));
            assert(k == i) by {
                if k < i {
                    assert(occurs_at(s@, needle@, k));
                } else if i < k {
                    assert(occurs_at(s@, needle@, i as int));
                }
            }
            assert(occurs_at(v@, n@, i as int));
            assert(i + n.len() <= v.len());
            let rest = text_of(v.as_slice(), i + n.len(), v.len());
            assert(rest@ =~= s@.skip(i + needle@.len()));
            Some(rest)
        },
        None => None,
    }
}

/// Whether a text is one word: not empty, and without white space.
pub open spec fn is_word(w: Seq<char>) -> bool {
    &&& w.len() > 0
    &&& forall|i: int| 0 <= i < w.len() ==> !is_space(#[trigger] w[i])
}

proof fn lemma_word_len(w: Seq<char>, rest: Seq<char>)
    requires
        forall|i: int| 0 <= i < w.len() ==> !is_space(#[trigger] w[i]),
        rest.len() > 0 ==> is_space(rest[0]),
    ensures
        word_len(w + rest) == w.len(),
    decreases w.len(),
{
    let s = w + rest;
    if w.len() == 0 {
        assert(s =~= rest);
    } else {
        let more = w.skip(1);
        assert forall|i: int| 0 <= i < more.len() implies !is_space(#[trigger] more[i]) by {
            assert(more[i] == w[i + 1]);
        }
        lemma_word_len(more, rest);
        assert(s[0] == w[0]);
        assert(s.skip(1) =~= more + rest);
    }
}

/// A word, a white space and a text have that word as their first, and then the words of
/// the text.
pub proof fn lemma_words_after_word(w: Seq<char>, space: char, rest: Seq<char>)
    requires
        is_word(w),
        is_space(space),
    ensures
        words(w + seq![space] + rest) == seq![w] + words(rest),
{
    let tail = seq![space] + rest;
    let s = w + seq![space] + rest;
    assert(s =~= w + tail);
    lemma_word_len(w, tail);
    assert(s[0] == w[0]);
    assert(s.take(w.len() as int) =~= w);
    assert(s.skip(w.len() as int) =~= tail);
    assert(tail.skip(1) =~= rest);
    assert(words(tail) == words(rest));
}

/// A single word is its only word.
pub proof fn lemma_words_of_word(w: Seq<char>)
    requires
        is_word(w),
    ensures
        words(w) == seq![w],
{
    lemma_word_len(w, Seq::empty());
    assert(w + Seq::<char>::empty() =~= w);
    assert(w.take(w.len() as int) =~= w);
    assert(w.skip(w.len() as int) =~= Seq::empty());
    assert(words(Seq::<char>::empty()) =~= Seq::empty());
    assert(words(w) =~= seq![w]);
}

/// A line feed at the end is trimmed away; a text that neither begins nor ends with white
/// space is otherwise left as it is.
pub proof fn lemma_trim_line(s: Seq<char>)
    requires
        s.len() > 0,
        !is_space(s[0]),
        !is_space(s.last()),
    ensures
        trimmed(s) == s,
        trimmed(s.push('\n')) == s,
{
    let line = s.push('\n');
    assert(line[0] == s[0]);
    assert(trim_start(line) == line);
    assert(line.drop_last() =~= s);
    assert(is_space('\n'));
    assert(trim_end(line) == trim_end(s));
}

/// Words with a space between each and the next.
pub open spec fn joined(w: Seq<Seq<char>>) -> Seq<char>
    decreases w.len(),
{
    if w.len() == 0 {
        Seq::empty()
    } else if w.len() == 1 {
        w[0]
    } else {
        w[0] + seq![' '] + joined(w.skip(1))
    }
}

/// Words that were joined by spaces are found again, also behind a trim.
pub proof fn lemma_words_of_joined(w: Seq<Seq<char>>)
    requires
        w.len() > 0,
        forall|i: int| 0 <= i < w.len() ==> is_word(#[trigger] w[i]),
    ensures
        words(joined(w)) == w,
        joined(w).len() > 0,
        joined(w)[0] == w[0][0],
        joined(w).last() == w.last().last(),
        trimmed(joined(w).push('\n')) == joined(w),
    decreases w.len(),
{
    assert(is_word(w[0]));
    if w.len() == 1 {
        lemma_words_of_word(w[0]);
        assert(seq![w[0]] =~= w);
    } else {
        let more = w.skip(1);
        assert forall|i: int| 0 <= i < more.len() implies is_word(#[trigger] more[i]) by {
            assert(more[i] == w[i + 1]);
        }
        lemma_words_of_joined(more);
        lemma_words_after_word(w[0], ' ', joined(more));
        assert(seq![w[0]] + more =~= w);
        assert(more.last() == w.last());
    }
    assert(is_word(w.last()));
    lemma_trim_line(joined(w));
}

proof fn lemma_field_len(a: Seq<char>, rest: Seq<char>, sep: char)
    ensures
        field_len(a, sep) <= a.len(),
        field_len(a, sep) < a.len() ==> field_len(a + rest, sep) == field_len(a, sep),
        field_len(a, sep) == a.len() && (rest.len() == 0 || rest[0] == sep) ==> field_len(
            a + rest,
            sep,
        ) == a.len(),
    decreases a.len(),
{
    if a.len() == 0 {
        assert(a + rest =~= rest);
    } else {
        assert((a + rest)[0] == a[0]);
        if a[0] != sep {
            lemma_field_len(a.skip(1), rest, sep);
            assert((a + rest).skip(1) =~= a.skip(1) + rest);
        }
    }
}

/// A text has no separator in it.
pub open spec fn is_field(s: Seq<char>, sep: char) -> bool {
    forall|i: int| 0 <= i < s.len() ==> #[trigger] s[i] != sep
}

proof fn lemma_field_len_of_field(s: Seq<char>, sep: char)
    requires
        is_field(s, sep),
    ensures
        field_len(s, sep) == s.len(),
    decreases s.len(),
{
    if s.len() > 0 {
        assert(s[0] != sep);
        assert forall|i: int| 0 <= i < s.skip(1).len() implies #[trigger] s.skip(1)[i] != sep by {
            assert(s.skip(1)[i] == s[i + 1]);
        }
        lemma_field_len_of_field(s.skip(1), sep);
    }
}

/// A text without separators is its only field.
pub proof fn lemma_single_field(s: Seq<char>, sep: char)
    requires
        is_field(s, sep),
    ensures
        fields(s, sep) == seq![s],
{
    lemma_field_len_of_field(s, sep);
}

/// Two texts with a separator between them have the fields of the first and then those of
/// the second.
pub proof fn lemma_fields_join(a: Seq<char>, b: Seq<char>, sep: char)
    ensures
        fields(a + seq![sep] + b, sep) == fields(a, sep) + fields(b, sep),
    decreases a.len(),
{
    let s = a + seq![sep] + b;
    let tail = seq![sep] + b;
    assert(s =~= a + tail);
    lemma_field_len(a, tail, sep);
    let n = field_len(a, sep) as int;
    if n < a.len() {
        let rest = a.skip(n + 1);
        lemma_fields_join(rest, b, sep);
        assert(s.take(n) =~= a.take(n));
        assert(s.skip(n + 1) =~= rest + seq![sep] + b);
        assert(fields(s, sep) =~= fields(a, sep) + fields(b, sep));
    } else {
        assert(s.take(n) =~= a);
        assert(s.skip(n + 1) =~= b);
    }
}

proof fn lemma_word_len_within(s: Seq<char>)
    ensures
        word_len(s) <= s.len(),
        s.len() > 0 && !is_space(s[0]) ==> word_len(s) > 0,
    decreases s.len(),
{
    if s.len() > 0 && !is_space(s[0]) {
        lemma_word_len_within(s.skip(1));
    }
}

proof fn lemma_word_len_with_space(s: Seq<char>, c: char)
    requires
        is_space(c),
    ensures
        word_len(s.push(c)) == word_len(s),
    decreases s.len(),
{
    if s.len() > 0 && !is_space(s[0]) {
        lemma_word_len_with_space(s.skip(1), c);
        assert(s.push(c).skip(1) =~= s.skip(1).push(c));
        assert(s.push(c)[0] == s[0]);
    } else if s.len() > 0 {
        assert(s.push(c)[0] == s[0]);
    } else {
        assert(s.push(c)[0] == c);
    }
}

proof fn lemma_words_with_space(s: Seq<char>, c: char)
    requires
        is_space(c),
    ensures
        words(s.push(c)) == words(s),
    decreases s.len(),
{
    let t = s.push(c);
    if s.len() == 0 {
        assert(t[0] == c);
        assert(t.skip(1) =~= s);
    } else if is_space(s[0]) {
        assert(t[0] == s[0]);
        assert(t.skip(1) =~= s.skip(1).push(c));
        lemma_words_with_space(s.skip(1), c);
    } else {
        lemma_word_len_within(s);
        lemma_word_len_with_space(s, c);
        let n = word_len(s) as int;
        assert(t[0] == s[0]);
        assert(t.take(n) =~= s.take(n));
        assert(t.skip(n) =~= s.skip(n).push(c));
        lemma_words_with_space(s.skip(n), c);
    }
}

proof fn lemma_words_of_trim_end(s: Seq<char>)
    ensures
        words(trim_end(s)) == words(s),
    decreases s.len(),
{
    if s.len() > 0 && is_space(s.last()) {
        lemma_words_of_trim_end(s.drop_last());
        lemma_words_with_space(s.drop_last(), s.last());
        assert(s.drop_last().push(s.last()) =~= s);
    }
}

proof fn lemma_words_of_trim_start(s: Seq<char>)
    ensures
        words(trim_start(s)) == words(s),
    decreases s.len(),
{
    if s.len() > 0 && is_space(s[0]) {
        lemma_words_of_trim_start(s.skip(1));
    }
}

/// Trimming a text takes none of its words away.
pub proof fn lemma_words_of_trimmed(s: Seq<char>)
    ensures
        words(trimmed(s)) == words(s),
{
    lemma_words_of_trim_start(s);
    lemma_words_of_trim_end(trim_start(s));
}

/// White space before a text adds no word to it.
pub proof fn lemma_words_after_space(space: char, s: Seq<char>)
    requires
        is_space(space),
    ensures
        words(seq![space] + s) == words(s),
{
    let t = seq![space] + s;
    assert(t[0] == space);
    assert(t.skip(1) =~= s);
}

/// All characters of a text are white space.
pub open spec fn is_blank(s: Seq<char>) -> bool {
    forall|i: int| 0 <= i < s.len() ==> is_space(#[trigger] s[i])
}

/// White space at the end goes, up to the last other character.
pub proof fn lemma_trim_end_append(s: Seq<char>, tail: Seq<char>)
    requires
        s.len() > 0,
        !is_space(s.last()),
    ensures
        trim_end(s + tail) == s + trim_end(tail),
        is_blank(tail) ==> trim_end(s + tail) == s,
    decreases tail.len(),
{
    if tail.len() == 0 {
        assert(s + tail =~= s);
        assert(s + trim_end(tail) =~= s);
    } else {
        assert((s + tail).last() == tail.last());
        assert((s + tail).drop_last() =~= s + tail.drop_last());
        assert(tail[tail.len() - 1] == tail.last());
        if is_space(tail.last()) {
            assert(is_blank(tail) ==> is_blank(tail.drop_last()));
            lemma_trim_end_append(s, tail.drop_last());
        }
    }
}

/// White space at the start goes.
pub proof fn lemma_trim_start_blank(lead: Seq<char>, s: Seq<char>)
    requires
        is_blank(lead),
        s.len() > 0 ==> !is_space(s[0]),
    ensures
        trim_start(lead + s) == s,
    decreases lead.len(),
{
    if lead.len() == 0 {
        assert(lead + s =~= s);
    } else {
        assert((lead + s)[0] == lead[0]);
        assert((lead + s).skip(1) =~= lead.skip(1) + s);
        assert(is_blank(lead.skip(1)));
        lemma_trim_start_blank(lead.skip(1), s);
    }
}

/// Trimming takes the white space at both ends of a text, and nothing else.
pub proof fn lemma_trim_takes_white_space(lead: Seq<char>, core: Seq<char>, tail: Seq<char>)
    requires
        is_blank(lead),
        is_blank(tail),
        core.len() > 0,
        !is_space(core[0]),
        !is_space(core.last()),
    ensures
        trimmed(lead + core + tail) == core,
{
    assert(lead + core + tail =~= lead + (core + tail));
    lemma_trim_start_blank(lead, core + tail);
    lemma_trim_end_append(core, tail);
}

/// The usual white space is white space; letters, digits and signs are not. Beyond ASCII,
/// these are the spaces of Unicode.
pub proof fn lemma_white_space(c: char)
    ensures
        is_space(' ') && is_space('\t') && is_space('\n') && is_space('\r'),
        '!' <= c <= '~' ==> !is_space(c),
        c as int > 127 ==> (is_space(c) <==> {
            let n = c as int;
            n == 133 || n == 160 || n == 5760 || 8192 <= n <= 8202 || n == 8232 || n == 8233 || n
                == 8239 || n == 8287 || n == 12288
        }),
        c as int <= 127 ==> (is_space(c) <==> 9 <= c as int <= 13 || c as int == 32),
{
}

/// A line ends at its line feed, with or without a carriage return before it; the next
/// line begins behind it, and the last line may go without.
pub proof fn lemma_lines_join(line: Seq<char>, rest: Seq<char>)
    requires
        is_field(line, '\n'),
    ensures
        line.len() == 0 || line.last() != '\r' ==> lines(line + seq!['\n'] + rest) == seq![line]
            + lines(rest),
        lines(line.push('\r') + seq!['\n'] + rest) == seq![line] + lines(rest),
        line.len() > 0 ==> lines(line) == seq![line],
        lines(Seq::empty()) == Seq::<Seq<char>>::empty(),
{
    lemma_field_len_of_field(line, '\n');
    lemma_one_line(line, rest);
    let long = line.push('\r');
    assert(is_field(long, '\n'));
    lemma_one_line(long, rest);
    assert(long.drop_last() =~= line);
}

proof fn lemma_one_line(line: Seq<char>, rest: Seq<char>)
    requires
        is_field(line, '\n'),
    ensures
        lines(line + seq!['\n'] + rest) == seq![without_cr(line)] + lines(rest),
{
    let tail = seq!['\n'] + rest;
    let s = line + seq!['\n'] + rest;
    assert(s =~= line + tail);
    lemma_field_len_of_field(line, '\n');
    lemma_field_len(line, tail, '\n');
    assert(s.take(line.len() as int) =~= line);
    assert(s.skip((line.len() + 1) as int) =~= rest);
}

/// What follows a text is found behind its first occurrence; there is none if the text
/// does not occur.
pub proof fn lemma_after_first(s: Seq<char>, needle: Seq<char>, i: int)
    ensures
        is_first_occurrence(s, needle, i) ==> after_first(s, needle) == Some(
            s.skip(i + needle.len()),
        ),
        after_first(s, needle) is None <==> !occurs(s, needle),
{
    if is_first_occurrence(s, needle, i) {
        let k = choose|k: int| is_first_occurrence(s, needle, k);
        assert(is_first_occurrence(s, needle, k));
        if k < i {
            assert(!occurs_at(s, needle, k));
        } else if i < k {
            assert(!occurs_at(s, needle, i));
        }
    }
}

/// A text occurs in another one exactly if that is made up of it and something on either
/// side.
pub proof fn lemma_occurs_between(s: Seq<char>, needle: Seq<char>, before: Seq<char>, after: Seq<char>)
    ensures
        occurs(before + needle + after, needle),
        occurs(s, needle) ==> exists|a: Seq<char>, b: Seq<char>|
            #![trigger a + needle + b]
            s == a + needle + b,
{
    let t = before + needle + after;
    assert(t.subrange(before.len() as int, (before.len() + needle.len()) as int) =~= needle);
    assert(occurs_at(t, needle, before.len() as int));
    if occurs(s, needle) {
        let i = choose|i: int| #[trigger] occurs_at(s, needle, i);
        let a = s.take(i);
        let b = s.skip(i + needle.len());
        assert(s =~= a + needle + b) by {
            assert forall|k: int| 0 <= k < s.len() implies s[k] == (a + needle + b)[k] by {
                if i <= k < i + needle.len() {
                    assert(s.subrange(i, i + needle.len())[k - i] == s[k]);
                }
            }
        }
    }
}

/// Cutting a prefix off gives back what stands behind it, and fails for any other text.
pub proof fn lemma_prefix_is_cut(prefix: Seq<char>, rest: Seq<char>, s: Seq<char>)
    ensures
        after_prefix(prefix + rest, prefix) == Some(rest),
        after_prefix(s, prefix) matches Some(r) ==> s == prefix + r,
{
    let t = prefix + rest;
    assert(t.take(prefix.len() as int) =~= prefix);
    assert(prefix.is_prefix_of(t));
    assert(t.skip(prefix.len() as int) =~= rest);
    if prefix.is_prefix_of(s) {
        assert(s =~= prefix + s.skip(prefix.len() as int));
    }
}

/// Lower case turns each capital ASCII letter into its small one; it keeps white space,
/// length and everything else, and lowering twice is lowering once.
pub proof fn lemma_lowered(s: Seq<char>)
    ensures
        lowered(s).len() == s.len(),
        forall|i: int| 0 <= i < s.len() ==> is_space(#[trigger] lowered(s)[i]) == is_space(s[i]),
        forall|i: int|
            0 <= i < s.len() && !('A' <= s[i] <= 'Z') ==> #[trigger] lowered(s)[i] == s[i],
        forall|i: int| 0 <= i < s.len() ==> !('A' <= #[trigger] lowered(s)[i] <= 'Z'),
        forall|i: int|
            0 <= i < s.len() && 'A' <= s[i] <= 'Z' ==> (#[trigger] lowered(s)[i]) as int
                == s[i] as int - 'A' as int + 'a' as int,
        lowered(lowered(s)) == lowered(s),
{
    assert(lowered(lowered(s)) =~= lowered(s));
}

proof fn lemma_trim_start_lowered(s: Seq<char>)
    ensures
        trim_start(lowered(s)) == lowered(trim_start(s)),
    decreases s.len(),
{
    lemma_lowered(s);
    if s.len() > 0 && is_space(s[0]) {
        assert(lowered(s).skip(1) =~= lowered(s.skip(1)));
        assert(is_space(lowered(s)[0]));
        lemma_trim_start_lowered(s.skip(1));
    } else if s.len() > 0 {
        assert(!is_space(lowered(s)[0]));
    }
}

proof fn lemma_trim_end_lowered(s: Seq<char>)
    ensures
        trim_end(lowered(s)) == lowered(trim_end(s)),
    decreases s.len(),
{
    lemma_lowered(s);
    if s.len() > 0 {
        assert(is_space(lowered(s)[s.len() - 1]) == is_space(s[s.len() - 1]));
        if is_space(s.last()) {
            assert(lowered(s).drop_last() =~= lowered(s.drop_last()));
            lemma_trim_end_lowered(s.drop_last());
        }
    }
}

/// Trimming and lower case do not disturb each other.
pub proof fn lemma_trimmed_lowered(s: Seq<char>)
    ensures
        trimmed(lowered(s)) == lowered(trimmed(s)),
{
    lemma_trim_start_lowered(s);
    lemma_trim_end_lowered(trim_start(s));
}

proof fn lemma_word_len_lowered(s: Seq<char>)
    ensures
        word_len(lowered(s)) == word_len(s),
    decreases s.len(),
{
    lemma_lowered(s);
    if s.len() > 0 {
        assert(is_space(lowered(s)[0]) == is_space(s[0]));
        if !is_space(s[0]) {
            assert(lowered(s).skip(1) =~= lowered(s.skip(1)));
            lemma_word_len_lowered(s.skip(1));
        }
    }
}

/// The words of a text in lower case are its words in lower case.
pub proof fn lemma_words_lowered(s: Seq<char>)
    ensures
        words(lowered(s)) == words(s).map_values(|w: Seq<char>| lowered(w)),
    decreases s.len(),
{
    let low = |w: Seq<char>| lowered(w);
    lemma_lowered(s);
    if s.len() == 0 {
        assert(words(lowered(s)) =~= words(s).map_values(low));
    } else {
        assert(is_space(lowered(s)[0]) == is_space(s[0]));
        if is_space(s[0]) {
            assert(lowered(s).skip(1) =~= lowered(s.skip(1)));
            lemma_words_lowered(s.skip(1));
        } else {
            lemma_word_len_within(s);
            lemma_word_len_lowered(s);
            let n = word_len(s) as int;
            assert(lowered(s).take(n) =~= lowered(s.take(n)));
            assert(lowered(s).skip(n) =~= lowered(s.skip(n)));
            lemma_words_lowered(s.skip(n));
            assert(words(lowered(s)) =~= words(s).map_values(low));
        }
    }
}

/// Texts are the same up to the case of letters exactly if they are the same in lower case.
pub proof fn lemma_same_ignoring_case(a: Seq<char>, b: Seq<char>)
    ensures
        same_ignoring_case(a, b) <==> lowered(a) == lowered(b),
{
    if lowered(a) == lowered(b) {
        assert(lowered(a).len() == a.len() && lowered(b).len() == b.len());
        assert forall|i: int| 0 <= i < a.len() implies ascii_lower(#[trigger] a[i]) == ascii_lower(
            b[i],
        ) by {
            assert(lowered(a)[i] == ascii_lower(a[i]));
            assert(lowered(b)[i] == ascii_lower(b[i]));
        }
    }
    if same_ignoring_case(a, b) {
        assert(lowered(a) =~= lowered(b));
    }
}

/// The words of a text are words.
pub proof fn lemma_words_are_words(s: Seq<char>)
    ensures
        forall|i: int| 0 <= i < words(s).len() ==> is_word(#[trigger] words(s)[i]),
    decreases s.len(),
{
    if s.len() > 0 {
        if is_space(s[0]) {
            lemma_words_are_words(s.skip(1));
            assert(words(s) == words(s.skip(1)));
        } else {
            lemma_word_len_within(s);
            let n = word_len(s) as int;
            lemma_words_are_words(s.skip(n));
            lemma_word_has_no_space(s);
            assert(is_word(s.take(n)));
            let more = words(s.skip(n));
            assert forall|i: int| 0 <= i < words(s).len() implies is_word(#[trigger] words(s)[i]) by {
                if i > 0 {
                    assert(words(s)[i] == more[i - 1]);
                }
            }
        }
    }
}

proof fn lemma_word_has_no_space(s: Seq<char>)
    ensures
        forall|i: int| 0 <= i < word_len(s) && i < s.len() ==> !is_space(#[trigger] s[i]),
    decreases s.len(),
{
    if s.len() > 0 && !is_space(s[0]) {
        lemma_word_has_no_space(s.skip(1));
        assert forall|i: int| 0 <= i < word_len(s) && i < s.len() implies !is_space(
            #[trigger] s[i],
        ) by {
            if i > 0 {
                assert(s.skip(1)[i - 1] == s[i]);
            }
        }
    }
}

/// Optional and listed texts are seen as they are, in their order.
pub proof fn lemma_texts_are_seen(strings: Seq<String>, s: String, i: int)
    ensures
        opt_text(Some(s)) == Some(s@),
        opt_text(None) is None,
        texts(strings).len() == strings.len(),
        0 <= i < strings.len() ==> texts(strings)[i] == strings[i]@,
{
}

} // verus!
